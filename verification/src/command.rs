use vstd::prelude::*;
use vstd::string::StringExecFns;
use crate::action::{Action, Overlay, Panel};

verus! {

/// An entry of the command palette.
pub struct Command {
    pub name: String,
    pub description: String,
    pub category: String,
    pub action: Action,
}

/// Number of commands that do not depend on the installed themes.
pub open spec fn spec_builtin_count() -> int {
    30
}

/// The fixed commands of the palette, in order: name, description,
/// category and action.
pub open spec fn spec_builtin_command(i: int) -> (Seq<char>, Seq<char>, Seq<char>, Action) {
    if i == 0 {
        ("Run Request"@, "Execute the current HTTP request"@, "HTTP"@, Action::ExecuteRequest)
    } else if i == 1 {
        ("Next Method"@, "Cycle HTTP method forward (GET -> POST -> ...)"@, "HTTP"@, Action::NextMethod)
    } else if i == 2 {
        ("Previous Method"@, "Cycle HTTP method backward"@, "HTTP"@, Action::PrevMethod)
    } else if i == 3 {
        ("Select Request"@, "Open selected request from collection"@, "Collections"@, Action::SelectRequest)
    } else if i == 4 {
        ("New Collection"@, "Create a new .http collection file"@, "Collections"@, Action::CreateCollection)
    } else if i == 5 {
        ("Save Request"@, "Overwrite selected request in collection"@, "Collections"@, Action::SaveRequest)
    } else if i == 6 {
        ("Save Request As"@, "Save current request as new entry"@, "Collections"@, Action::SaveRequestAs)
    } else if i == 7 {
        ("New Empty Request"@, "Create a blank request from scratch"@, "Collections"@, Action::NewEmptyRequest)
    } else if i == 8 {
        ("Next Collection"@, "Switch to next collection"@, "Collections"@, Action::NextCollection)
    } else if i == 9 {
        ("Previous Collection"@, "Switch to previous collection"@, "Collections"@, Action::PrevCollection)
    } else if i == 10 {
        ("Add Header"@, "Add a new empty header to the request"@, "Editing"@, Action::AddHeader)
    } else if i == 11 {
        ("Header Autocomplete"@, "Show common headers list"@, "Editing"@, Action::ShowHeaderAutocomplete)
    } else if i == 12 {
        ("Cycle Body Type"@, "Switch body type (JSON -> XML -> Form -> Raw)"@, "Editing"@, Action::CycleBodyType)
    } else if i == 13 {
        ("Copy Response Body"@, "Copy response body to clipboard"@, "Clipboard"@, Action::CopyResponseBody)
    } else if i == 14 {
        ("Copy as cURL"@, "Copy request as curl command"@, "Clipboard"@, Action::CopyAsCurl)
    } else if i == 15 {
        ("Paste from Clipboard"@, "Paste system clipboard content"@, "Clipboard"@, Action::PasteFromClipboard)
    } else if i == 16 {
        ("Change Environment"@, "Open environment selector"@, "Environment"@, Action::OpenOverlay(Overlay::EnvironmentSelector))
    } else if i == 17 {
        ("Focus Collections"@, "Switch to collections panel"@, "Navigation"@, Action::FocusPanel(Panel::Collections))
    } else if i == 18 {
        ("Focus Request"@, "Switch to request panel"@, "Navigation"@, Action::FocusPanel(Panel::Request))
    } else if i == 19 {
        ("Focus Body"@, "Switch to body panel"@, "Navigation"@, Action::FocusPanel(Panel::Body))
    } else if i == 20 {
        ("Focus Response"@, "Switch to response panel"@, "Navigation"@, Action::FocusPanel(Panel::Response))
    } else if i == 21 {
        ("Chain Cache: 5s"@, "Re-execute dependency requests every 5 seconds"@, "Chain"@, Action::SetChainCacheTTL(5))
    } else if i == 22 {
        ("Chain Cache: 10s"@, "Re-execute dependency requests every 10 seconds (default)"@, "Chain"@, Action::SetChainCacheTTL(10))
    } else if i == 23 {
        ("Chain Cache: 15s"@, "Re-execute dependency requests every 15 seconds"@, "Chain"@, Action::SetChainCacheTTL(15))
    } else if i == 24 {
        ("Chain Cache: 30s"@, "Re-execute dependency requests every 30 seconds"@, "Chain"@, Action::SetChainCacheTTL(30))
    } else if i == 25 {
        ("Chain Cache: 60s"@, "Re-execute dependency requests every 60 seconds"@, "Chain"@, Action::SetChainCacheTTL(60))
    } else if i == 26 {
        ("Chain Cache: 300s"@, "Re-execute dependency requests every 5 minutes"@, "Chain"@, Action::SetChainCacheTTL(300))
    } else if i == 27 {
        ("Chain Cache: 3600s"@, "Re-execute dependency requests every 1 hour"@, "Chain"@, Action::SetChainCacheTTL(3600))
    } else if i == 28 {
        ("Show Help"@, "Toggle help overlay"@, "General"@, Action::OpenOverlay(Overlay::Help))
    } else {
        ("Quit"@, "Exit restui"@, "General"@, Action::Quit)
    }
}

fn command(name: &str, description: &str, category: &str, action: Action) -> (r: Command)
    ensures
        r.name@ == name@,
        r.description@ == description@,
        r.category@ == category@,
        r.action == action,
{
    Command {
        name: String::from_str(name),
        description: String::from_str(description),
        category: String::from_str(category),
        action,
    }
}

/// Whether `c` is the `i`-th fixed command.
pub open spec fn spec_is_builtin(c: Command, i: int) -> bool {
    let (n, d, cat, a) = spec_builtin_command(i);
    c.name@ == n && c.description@ == d && c.category@ == cat && c.action == a
}

/// Whether `c` is the command that switches to theme `t`.
pub open spec fn spec_is_theme_command(c: Command, t: Seq<char>) -> bool {
    &&& c.name@ == "Theme: "@ + t
    &&& c.description@ == "Switch to "@ + t + " color theme"@
    &&& c.category@ == "Theme"@
    &&& match c.action {
        Action::SetTheme(s) => s@ == t,
        _ => false,
    }
}

/// Central registry of all commands available in the palette: the fixed
/// ones, then one per theme in `theme_names`.
pub fn all_commands(theme_names: &Vec<String>) -> (r: Vec<Command>)
    ensures
        r@.len() == spec_builtin_count() + theme_names@.len(),
        forall|i: int| 0 <= i < spec_builtin_count() ==> spec_is_builtin(#[trigger] r@[i], i),
        forall|k: int| 0 <= k < theme_names@.len() ==> spec_is_theme_command(
            #[trigger] r@[spec_builtin_count() + k],
            theme_names@[k]@,
        ),
{
    let mut cmds: Vec<Command> = Vec::new();
    cmds.push(command("Run Request", "Execute the current HTTP request", "HTTP", Action::ExecuteRequest));
    assert(spec_is_builtin(cmds@[0], 0));
    cmds.push(command("Next Method", "Cycle HTTP method forward (GET -> POST -> ...)", "HTTP", Action::NextMethod));
    assert(spec_is_builtin(cmds@[1], 1));
    cmds.push(command("Previous Method", "Cycle HTTP method backward", "HTTP", Action::PrevMethod));
    assert(spec_is_builtin(cmds@[2], 2));
    cmds.push(command("Select Request", "Open selected request from collection", "Collections", Action::SelectRequest));
    assert(spec_is_builtin(cmds@[3], 3));
    cmds.push(command("New Collection", "Create a new .http collection file", "Collections", Action::CreateCollection));
    assert(spec_is_builtin(cmds@[4], 4));
    cmds.push(command("Save Request", "Overwrite selected request in collection", "Collections", Action::SaveRequest));
    assert(spec_is_builtin(cmds@[5], 5));
    cmds.push(command("Save Request As", "Save current request as new entry", "Collections", Action::SaveRequestAs));
    assert(spec_is_builtin(cmds@[6], 6));
    cmds.push(command("New Empty Request", "Create a blank request from scratch", "Collections", Action::NewEmptyRequest));
    assert(spec_is_builtin(cmds@[7], 7));
    cmds.push(command("Next Collection", "Switch to next collection", "Collections", Action::NextCollection));
    assert(spec_is_builtin(cmds@[8], 8));
    cmds.push(command("Previous Collection", "Switch to previous collection", "Collections", Action::PrevCollection));
    assert(spec_is_builtin(cmds@[9], 9));
    cmds.push(command("Add Header", "Add a new empty header to the request", "Editing", Action::AddHeader));
    assert(spec_is_builtin(cmds@[10], 10));
    cmds.push(command("Header Autocomplete", "Show common headers list", "Editing", Action::ShowHeaderAutocomplete));
    assert(spec_is_builtin(cmds@[11], 11));
    cmds.push(command("Cycle Body Type", "Switch body type (JSON -> XML -> Form -> Raw)", "Editing", Action::CycleBodyType));
    assert(spec_is_builtin(cmds@[12], 12));
    cmds.push(command("Copy Response Body", "Copy response body to clipboard", "Clipboard", Action::CopyResponseBody));
    assert(spec_is_builtin(cmds@[13], 13));
    cmds.push(command("Copy as cURL", "Copy request as curl command", "Clipboard", Action::CopyAsCurl));
    assert(spec_is_builtin(cmds@[14], 14));
    cmds.push(command("Paste from Clipboard", "Paste system clipboard content", "Clipboard", Action::PasteFromClipboard));
    assert(spec_is_builtin(cmds@[15], 15));
    cmds.push(command("Change Environment", "Open environment selector", "Environment", Action::OpenOverlay(Overlay::EnvironmentSelector)));
    assert(spec_is_builtin(cmds@[16], 16));
    cmds.push(command("Focus Collections", "Switch to collections panel", "Navigation", Action::FocusPanel(Panel::Collections)));
    assert(spec_is_builtin(cmds@[17], 17));
    cmds.push(command("Focus Request", "Switch to request panel", "Navigation", Action::FocusPanel(Panel::Request)));
    assert(spec_is_builtin(cmds@[18], 18));
    cmds.push(command("Focus Body", "Switch to body panel", "Navigation", Action::FocusPanel(Panel::Body)));
    assert(spec_is_builtin(cmds@[19], 19));
    cmds.push(command("Focus Response", "Switch to response panel", "Navigation", Action::FocusPanel(Panel::Response)));
    assert(spec_is_builtin(cmds@[20], 20));
    cmds.push(command("Chain Cache: 5s", "Re-execute dependency requests every 5 seconds", "Chain", Action::SetChainCacheTTL(5)));
    assert(spec_is_builtin(cmds@[21], 21));
    cmds.push(command("Chain Cache: 10s", "Re-execute dependency requests every 10 seconds (default)", "Chain", Action::SetChainCacheTTL(10)));
    assert(spec_is_builtin(cmds@[22], 22));
    cmds.push(command("Chain Cache: 15s", "Re-execute dependency requests every 15 seconds", "Chain", Action::SetChainCacheTTL(15)));
    assert(spec_is_builtin(cmds@[23], 23));
    cmds.push(command("Chain Cache: 30s", "Re-execute dependency requests every 30 seconds", "Chain", Action::SetChainCacheTTL(30)));
    assert(spec_is_builtin(cmds@[24], 24));
    cmds.push(command("Chain Cache: 60s", "Re-execute dependency requests every 60 seconds", "Chain", Action::SetChainCacheTTL(60)));
    assert(spec_is_builtin(cmds@[25], 25));
    cmds.push(command("Chain Cache: 300s", "Re-execute dependency requests every 5 minutes", "Chain", Action::SetChainCacheTTL(300)));
    assert(spec_is_builtin(cmds@[26], 26));
    cmds.push(command("Chain Cache: 3600s", "Re-execute dependency requests every 1 hour", "Chain", Action::SetChainCacheTTL(3600)));
    assert(spec_is_builtin(cmds@[27], 27));
    cmds.push(command("Show Help", "Toggle help overlay", "General", Action::OpenOverlay(Overlay::Help)));
    assert(spec_is_builtin(cmds@[28], 28));
    cmds.push(command("Quit", "Exit restui", "General", Action::Quit));
    assert(spec_is_builtin(cmds@[29], 29));
    proof {
        assert forall|i: int| 0 <= i < spec_builtin_count() implies spec_is_builtin(#[trigger] cmds@[i], i) by {
        }
    }
    let mut k: usize = 0;
    while k < theme_names.len()
        invariant
            k <= theme_names@.len(),
            cmds@.len() == spec_builtin_count() + k,
            forall|i: int| 0 <= i < spec_builtin_count() ==> spec_is_builtin(#[trigger] cmds@[i], i),
            forall|j: int| 0 <= j < k ==> spec_is_theme_command(#[trigger] cmds@[spec_builtin_count() + j], theme_names@[j]@),
        decreases theme_names@.len() - k,
    {
        let t = theme_names[k].as_str();
        let mut name = String::from_str("Theme: ");
        name.append(t);
        let mut desc = String::from_str("Switch to ");
        desc.append(t);
        desc.append(" color theme");
        let c = Command {
            name,
            description: desc,
            category: String::from_str("Theme"),
            action: Action::SetTheme(String::from_str(t)),
        };
        cmds.push(c);
        k = k + 1;
    }
    cmds
}

} // verus!
