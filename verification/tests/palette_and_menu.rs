use restui::action::{Action, Overlay, Panel};
use restui::command::all_commands;
use restui::config::{
    app_dir_under, config_dir, config_path, data_dir, default_chain_cache_ttl, default_env,
    default_history_limit, default_http_dirs, default_timeout, default_true, path_join, AppConfig,
    GeneralConfig,
};
use restui::leader_menu::{timed_out_after, LeaderContext, LeaderMenu};
use restui::model::HttpMethod;

#[test]
fn palette_lists_builtin_then_theme_commands() {
    let themes = vec!["dark".to_string(), "light".to_string()];
    let cmds = all_commands(&themes);
    assert_eq!(cmds.len(), 32);
    assert_eq!(cmds[0].name, "Run Request");
    assert_eq!(cmds[0].category, "HTTP");
    assert!(matches!(cmds[0].action, Action::ExecuteRequest));
    assert_eq!(cmds[30].name, "Theme: dark");
    assert_eq!(cmds[31].description, "Switch to light color theme");
    assert!(matches!(&cmds[31].action, Action::SetTheme(t) if t == "light"));
}

#[test]
fn leader_context_opens_and_closes() {
    let mut ctx = LeaderContext::new();
    assert!(!ctx.active);
    assert!(!ctx.is_timed_out());
    ctx.activate();
    assert!(ctx.active && ctx.menu_visible);
    assert!(ctx.pressed_at.is_some());
    assert!(!ctx.is_timed_out());
    ctx.deactivate();
    assert!(!ctx.active && !ctx.menu_visible);
    assert!(ctx.key_sequence.is_empty());
    assert!(!ctx.is_timed_out());
}

#[test]
fn leader_timeout_is_five_seconds() {
    assert!(!timed_out_after(5_000_000_000));
    assert!(timed_out_after(5_500_000_000));
    assert!(!timed_out_after(4_999_999_999));
}

#[test]
fn leader_menu_entries_for_a_panel() {
    let menu = LeaderMenu::new();
    assert_eq!(menu.global_entries.len(), 11);
    let entries = menu.get_entries_for_panel(Panel::Request);
    assert_eq!(entries.len(), 18);
    assert_eq!(entries[0].key, 'q');
    assert_eq!(entries[11].key, 'h');
    assert_eq!(entries[11].description, "Add/manage headers");
    let found = menu.find_entry(Panel::Request, 'h').unwrap();
    assert_eq!(found.description, "Show help overlay");
    let found = menu.find_entry(Panel::Response, 'w').unwrap();
    assert_eq!(found.description, "Toggle wrap text");
    assert!(menu.find_entry(Panel::Body, 'Z').is_none());
    assert_eq!(LeaderMenu::from_keybindings_config(&()).global_entries.len(), 11);
}

#[test]
fn config_defaults() {
    assert_eq!(default_env(), None);
    assert_eq!(default_http_dirs(), vec![".".to_string()]);
    assert_eq!(default_history_limit(), 100);
    assert_eq!(default_timeout(), 30);
    assert!(default_true());
    assert_eq!(default_chain_cache_ttl(), 10);
    let g = GeneralConfig::default();
    assert_eq!(g.timeout_secs, 30);
    assert_eq!(g.chain_cache_ttl, 10);
    let _ = AppConfig::default();
}

#[test]
fn config_paths() {
    assert_eq!(path_join("/home/u/.config", "restui"), "/home/u/.config/restui");
    assert_eq!(path_join("/", "restui"), "/restui");
    assert_eq!(app_dir_under(None), "./restui");
    assert!(config_dir().ends_with("restui"));
    assert!(config_path().ends_with("restui/config.toml"));
    assert!(data_dir().ends_with("restui"));
}

#[test]
fn method_cycle() {
    let mut m = HttpMethod::GET;
    for _ in 0..7 {
        m = m.next();
    }
    assert_eq!(m, HttpMethod::GET);
    assert_eq!(HttpMethod::GET.next(), HttpMethod::POST);
    assert_eq!(HttpMethod::GET.prev(), HttpMethod::OPTIONS);
    assert_eq!(HttpMethod::PATCH.as_str(), "PATCH");
}

#[test]
fn leader_entries_do_what_they_say() {
    let menu = LeaderMenu::new();
    let c = &menu.global_entries[3];
    assert_eq!(c.key, 'c');
    assert!(matches!(c.action, Some(Action::FocusPanel(Panel::Collections))));
    let help = &menu.global_entries[5];
    assert_eq!(help.key, '?');
    assert!(matches!(help.action, Some(Action::OpenOverlay(Overlay::Help))));
}
