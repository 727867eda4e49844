use vstd::prelude::*;
use crate::chain::{
    Replacement, splice, spec_splice, spec_replacements_ordered, cache_key, spec_cache_key, check_not_resolving,
    find_request_by_name, spec_find_request, invalid_reference_message, spec_invalid_reference_message,
    check_dependency_status, spec_dependency_status_message, path_not_found_message, spec_path_not_found_message,
};
use crate::model::Collection;
use crate::strutil::bytes_of;

verus! {

/// A parsed reference `{{@collection/name.path}}`.
#[derive(Debug)]
pub struct ChainRef {
    pub collection: Option<String>,
    pub request_name: String,
    pub json_path: String,
}

/// A reference found in a value: its bytes `start..end` and the text
/// between `{{@` and `}}`.
#[derive(Debug)]
pub struct RawRef {
    pub start: usize,
    pub end: usize,
    pub inner: String,
}

/// Where resolving one reference stands.
#[derive(Debug)]
pub enum ChainPhase {
    /// Waiting for the reference's text to be parsed.
    Parsing,
    /// Waiting to learn whether the cached answer under `key` is fresh.
    Checking { path: String, name: String, key: String, coll: usize, req: usize },
    /// Waiting for the dependency to run.
    Running { path: String, name: String, key: String },
    /// Waiting for the value at the path of the cached answer.
    Extracting { path: String, name: String },
    /// Resolution has ended.
    Finished,
}

/// Resolving the references of one value, from the last to the first.
#[derive(Debug)]
pub struct ChainRun {
    pub value: Vec<u8>,
    pub refs: Vec<RawRef>,
    /// References not yet resolved: `refs[..left]`.
    pub left: usize,
    /// The replacements for `refs[left..]`, in order.
    pub done: Vec<Replacement>,
    pub phase: ChainPhase,
}

/// What the outside world reports.
#[derive(Debug)]
pub enum ChainEvent {
    /// The reference's text parsed (or not).
    Parsed(Option<ChainRef>),
    /// Whether the cached answer is still fresh.
    Freshness(bool),
    /// The dependency ran: its status and status text, or the error that
    /// stopped it (from resolving its own references or from the network).
    Ran(Result<(u16, String), String>),
    /// The value at the path, or `Err(true)` when the path is not in the
    /// answer, `Err(false)` with the message for any other failure.
    Extracted(Result<String, (bool, String)>),
}

/// Why resolution failed.
#[derive(Debug)]
pub enum ChainFailure {
    /// An error whose text is known here.
    Message(String),
    /// No request has this name.
    RequestNotFound(String),
    /// The chain of keys that leads back to a request being resolved.
    Circular(Vec<String>),
    /// The error reported by the outside world, passed on.
    Passed(String),
}

/// What the outside world is to do next.
#[derive(Debug)]
pub enum ChainAction {
    /// Parse this reference text.
    Parse(String),
    /// Tell whether the cached answer under this key is fresh.
    CheckFreshness(String),
    /// Forget the cached answer under `key`, show `Resolving: name...`,
    /// resolve request `req` of collection `coll` with `key` added to the
    /// keys being resolved, and run it.
    Run { key: String, coll: usize, req: usize },
    /// Cache the answer just received under `key` (when `cache`), then
    /// extract the value at `path` from the cached answer.
    Extract { key: String, path: String, cache: bool },
    /// All references resolved: the value with them replaced.
    Done(Vec<u8>),
    Fail(ChainFailure),
    /// The event does not fit the phase; nothing changed.
    Ignored,
}

/// The references lie in the value, in order and without overlap.
pub open spec fn spec_refs_ordered(refs: Seq<RawRef>, len: int) -> bool {
    &&& forall|i: int| 0 <= i < refs.len() ==> (#[trigger] refs[i]).start <= refs[i].end <= len
    &&& forall|i: int, j: int| 0 <= i < j < refs.len() ==> (#[trigger] refs[i]).end <= (#[trigger] refs[j]).start
}

impl ChainRun {
    /// The replacements made stand for `refs[left..]`, in order.
    pub open spec fn well_formed(&self) -> bool {
        &&& self.left <= self.refs@.len()
        &&& !(self.phase is Finished) ==> self.left > 0
        &&& spec_refs_ordered(self.refs@, self.value@.len() as int)
        &&& self.done@.len() == self.refs@.len() - self.left
        &&& forall|k: int| 0 <= k < self.done@.len() ==> (#[trigger] self.done@[k]).start == self.refs@[self.left + k].start
            && self.done@[k].end == self.refs@[self.left + k].end
    }
}

proof fn lemma_done_ordered(run: ChainRun)
    requires
        run.well_formed(),
    ensures
        spec_replacements_ordered(run.done@, run.value@.len() as int),
{
    assert forall|i: int, j: int| 0 <= i < j < run.done@.len() implies (#[trigger] run.done@[i]).end <= (#[trigger] run.done@[j]).start by {
        assert(run.refs@[run.left + i].end <= run.refs@[run.left + j].start);
    }
    assert forall|i: int| 0 <= i < run.done@.len() implies (#[trigger] run.done@[i]).start <= run.done@[i].end <= run.value@.len() by {
        assert(run.refs@[run.left + i].start <= run.refs@[run.left + i].end);
    }
}

fn copy_string(s: &String) -> (r: String)
    ensures
        r@ == s@,
{
    s.clone()
}

/// Begin resolving the references `refs` of `value`: done at once when
/// there are none, else parse the last one.
pub fn chain_start(value: Vec<u8>, refs: Vec<RawRef>) -> (r: (ChainRun, ChainAction))
    requires
        spec_refs_ordered(refs@, value@.len() as int),
    ensures
        r.0.well_formed(),
        r.0.value@ == value@,
        r.0.refs@ == refs@,
        r.0.left == refs@.len(),
        r.0.done@.len() == 0,
        refs@.len() == 0 ==> r.0.phase is Finished && (r.1 matches ChainAction::Done(v) && v@ == value@),
        refs@.len() > 0 ==> r.0.phase is Parsing
            && (r.1 matches ChainAction::Parse(t) && t@ == refs@[refs@.len() - 1].inner@),
{
    let n = refs.len();
    if n == 0 {
        let v = crate::vim_buffer::copy_range(value.as_slice(), 0, value.len());
        proof {
            assert(v@ =~= value@);
        }
        let run = ChainRun { value, refs, left: 0, done: Vec::new(), phase: ChainPhase::Finished };
        (run, ChainAction::Done(v))
    } else {
        let inner = copy_string(&refs[n - 1].inner);
        let run = ChainRun { value, refs, left: n, done: Vec::new(), phase: ChainPhase::Parsing };
        (run, ChainAction::Parse(inner))
    }
}

/// The key of request `name` in collection `coll`: `coll/name`.
pub open spec fn spec_key_of(colls: Seq<Collection>, coll: int, name: Seq<char>) -> Seq<char> {
    spec_cache_key(colls[coll].name@, name)
}

/// The views of a list of strings.
pub open spec fn spec_str_views(v: Seq<String>) -> Seq<Seq<char>> {
    Seq::new(v.len(), |i: int| v[i]@)
}

/// After a reference's value `text` is in: its replacement is added in
/// front, and the next reference to the left is parsed, or the value with
/// every replacement made comes back.
pub open spec fn spec_replaced(o: ChainRun, n: ChainRun, text: Seq<char>, r: ChainAction) -> bool {
    let i = o.left - 1;
    &&& n.left == i
    &&& n.done@.len() == o.done@.len() + 1
    &&& n.done@[0].start == o.refs@[i].start && n.done@[0].end == o.refs@[i].end
    &&& n.done@[0].text@ == vstd::utf8::encode_utf8(text)
    &&& n.done@.drop_first() == o.done@
    &&& if i == 0 {
        n.phase is Finished && (r matches ChainAction::Done(v) && v@ == spec_splice(o.value@, n.done@))
    } else {
        n.phase is Parsing && (r matches ChainAction::Parse(t) && t@ == o.refs@[i - 1].inner@)
    }
}

/// What one step does (see [`chain_step`]).
pub open spec fn spec_step(o: ChainRun, n: ChainRun, colls: Seq<Collection>, active: int, resolving: Seq<String>, ev: ChainEvent, r: ChainAction) -> bool {
    match (o.phase, ev) {
        (ChainPhase::Parsing, ChainEvent::Parsed(parsed)) => {
            &&& n.left == o.left && n.done == o.done
            &&& match parsed {
                None => r matches ChainAction::Fail(ChainFailure::Message(m))
                    && m@ == spec_invalid_reference_message(o.refs@[o.left - 1].inner@),
                Some(cr) => {
                    let coll = match cr.collection { Some(c) => Some(c@), None => None };
                    let (ci, ri) = spec_find_request(colls, active, cr.request_name@, coll);
                    if ci < 0 {
                        r matches ChainAction::Fail(ChainFailure::RequestNotFound(nm)) && nm@ == cr.request_name@
                    } else {
                        let key = spec_key_of(colls, ci, cr.request_name@);
                        if spec_str_views(resolving).contains(key) {
                            r matches ChainAction::Fail(ChainFailure::Circular(chain))
                                && spec_str_views(chain@) == spec_str_views(resolving).push(key)
                        } else {
                            &&& n.phase matches ChainPhase::Checking { path, name, key: k, coll, req }
                                && path@ == cr.json_path@ && name@ == cr.request_name@ && k@ == key && coll == ci && req == ri
                            &&& r matches ChainAction::CheckFreshness(k2) && k2@ == key
                        }
                    }
                },
            }
        },
        (ChainPhase::Checking { path, name, key, coll, req }, ChainEvent::Freshness(fresh)) => {
            &&& n.left == o.left && n.done == o.done
            &&& if fresh {
                &&& n.phase matches ChainPhase::Extracting { path: p, name: nm } && p == path && nm == name
                &&& r matches ChainAction::Extract { key: k, path: p2, cache } && k == key && p2@ == path@ && !cache
            } else {
                &&& n.phase matches ChainPhase::Running { path: p, name: nm, key: k } && p == path && nm == name && k == key
                &&& r matches ChainAction::Run { key: k2, coll: c, req: q } && k2@ == key@ && c == coll && q == req
            }
        },
        (ChainPhase::Running { path, name, key }, ChainEvent::Ran(outcome)) => {
            &&& n.left == o.left && n.done == o.done
            &&& match outcome {
                Err(e) => r matches ChainAction::Fail(ChainFailure::Passed(e2)) && e2 == e,
                Ok((status, text)) => if 200 <= status < 300 {
                    &&& n.phase matches ChainPhase::Extracting { path: p, name: nm } && p == path && nm == name
                    &&& r matches ChainAction::Extract { key: k, path: p2, cache } && k == key && p2@ == path@ && cache
                } else {
                    r matches ChainAction::Fail(ChainFailure::Message(m))
                        && m@ == spec_dependency_status_message(name@, status, text@)
                },
            }
        },
        (ChainPhase::Extracting { path, name }, ChainEvent::Extracted(got)) => match got {
            Ok(text) => spec_replaced(o, n, text@, r),
            Err((true, _)) => n.left == o.left && n.done == o.done
                && (r matches ChainAction::Fail(ChainFailure::Message(m)) && m@ == spec_path_not_found_message(path@, name@)),
            Err((false, msg)) => n.left == o.left && n.done == o.done
                && (r matches ChainAction::Fail(ChainFailure::Passed(m)) && m == msg),
        },
        _ => r is Ignored,
    }
}

/// One step of resolving references, from the event the outside world
/// reports:
/// - parsed: a text that is no reference fails with the syntax message; a
///   reference to no request fails; one to a request being resolved fails
///   with the chain; otherwise the freshness of its cached answer is asked;
/// - fresh: the value is extracted from the cached answer; stale: the
///   dependency runs;
/// - ran: an error is passed on; a 2xx answer is cached and the value
///   extracted; any other status fails with its message (nothing cached);
/// - extracted: the value replaces the reference, and the next one (to the
///   left) is parsed, or, when none is left, the value with all
///   replacements comes back; a path not found fails with its message.
pub fn chain_step(run: &mut ChainRun, colls: &Vec<Collection>, active: usize, resolving: &Vec<String>, ev: ChainEvent) -> (r: ChainAction)
    requires
        old(run).well_formed(),
    ensures
        final(run).well_formed(),
        final(run).value@ == old(run).value@,
        final(run).refs@ == old(run).refs@,
        r is Fail ==> final(run).phase is Finished,
        r is Ignored ==> *final(run) == *old(run),
        spec_step(*old(run), *final(run), colls@, active as int, resolving@, ev, r),
{
    let ghost o = *run;
    let ghost ev0 = ev;
    let mut phase = ChainPhase::Finished;
    std::mem::swap(&mut phase, &mut run.phase);
    match (phase, ev) {
        (ChainPhase::Parsing, ChainEvent::Parsed(parsed)) => {
            let i = run.left - 1;
            match parsed {
                None => ChainAction::Fail(ChainFailure::Message(invalid_reference_message(run.refs[i].inner.as_str()))),
                Some(cr) => {
                    let coll = match &cr.collection {
                        Some(c) => Some(c.as_str()),
                        None => None,
                    };
                    match find_request_by_name(colls, active, cr.request_name.as_str(), coll) {
                        None => ChainAction::Fail(ChainFailure::RequestNotFound(cr.request_name)),
                        Some((ci, ri)) => {
                            let key = cache_key(colls[ci].name.as_str(), cr.request_name.as_str());
                            match check_not_resolving(resolving, &key) {
                                Err(chain) => {
                                    proof {
                                        assert(spec_str_views(chain@) =~= spec_str_views(resolving@).push(key@));
                                        let i = choose|i: int| 0 <= i < resolving@.len() && (#[trigger] resolving@[i])@ == key@;
                                        assert(spec_str_views(resolving@)[i] == key@);
                                    }
                                    ChainAction::Fail(ChainFailure::Circular(chain))
                                },
                                Ok(()) => {
                                    proof {
                                        if spec_str_views(resolving@).contains(key@) {
                                            let i = choose|i: int| 0 <= i < spec_str_views(resolving@).len() && spec_str_views(resolving@)[i] == key@;
                                            assert(resolving@[i]@ == key@);
                                        }
                                    }
                                    let k2 = copy_string(&key);
                                    run.phase = ChainPhase::Checking { path: cr.json_path, name: cr.request_name, key, coll: ci, req: ri };
                                    ChainAction::CheckFreshness(k2)
                                },
                            }
                        },
                    }
                },
            }
        },
        (ChainPhase::Checking { path, name, key, coll, req }, ChainEvent::Freshness(fresh)) => {
            if fresh {
                let p2 = copy_string(&path);
                run.phase = ChainPhase::Extracting { path, name };
                ChainAction::Extract { key, path: p2, cache: false }
            } else {
                let k2 = copy_string(&key);
                run.phase = ChainPhase::Running { path, name, key };
                ChainAction::Run { key: k2, coll, req }
            }
        },
        (ChainPhase::Running { path, name, key }, ChainEvent::Ran(outcome)) => match outcome {
            Err(e) => ChainAction::Fail(ChainFailure::Passed(e)),
            Ok((status, text)) => match check_dependency_status(name.as_str(), status, text.as_str()) {
                Err(msg) => ChainAction::Fail(ChainFailure::Message(msg)),
                Ok(()) => {
                    let p2 = copy_string(&path);
                    run.phase = ChainPhase::Extracting { path, name };
                    ChainAction::Extract { key, path: p2, cache: true }
                },
            },
        },
        (ChainPhase::Extracting { path, name }, ChainEvent::Extracted(got)) => match got {
            Err((true, _)) => ChainAction::Fail(ChainFailure::Message(path_not_found_message(path.as_str(), name.as_str()))),
            Err((false, msg)) => ChainAction::Fail(ChainFailure::Passed(msg)),
            Ok(text) => {
                let i = run.left - 1;
                let rep = Replacement { start: run.refs[i].start, end: run.refs[i].end, text: bytes_of(text.as_str()) };
                let ghost before = run.done@;
                run.done.insert(0, rep);
                run.left = i;
                proof {
                    assert(run.done@ =~= seq![rep] + before);
                    assert(run.done@.drop_first() =~= o.done@);
                    assert forall|k: int| 0 <= k < run.done@.len() implies (#[trigger] run.done@[k]).start == run.refs@[run.left + k].start
                        && run.done@[k].end == run.refs@[run.left + k].end by {
                        if k > 0 {
                            assert(run.done@[k] == o.done@[k - 1]);
                        }
                    }
                }
                if i == 0 {
                    proof {
                        lemma_done_ordered(*run);
                    }
                    let v = splice(run.value.as_slice(), &run.done);
                    let res = ChainAction::Done(v);
                    proof {
                        assert(spec_replaced(o, *run, text@, res));
                        assert(spec_step(o, *run, colls@, active as int, resolving@, ev0, res));
                    }
                    res
                } else {
                    run.phase = ChainPhase::Parsing;
                    let res = ChainAction::Parse(copy_string(&run.refs[i - 1].inner));
                    proof {
                        assert(spec_replaced(o, *run, text@, res));
                        assert(spec_step(o, *run, colls@, active as int, resolving@, ev0, res));
                    }
                    res
                }
            },
        },
        (p, _) => {
            run.phase = p;
            ChainAction::Ignored
        },
    }
}

} // verus!
