//! Which file-system changes reload the browser, and which requests get the
//! reload script.

use vstd::prelude::*;
use crate::path::{Component, Part, components, parts, strip_prefix, strip_prefix_parts, views};
use crate::request::RequestMethod;

verus! {

/// The requests into whose HTML the reload script is injected: full `GET`s.
#[derive(Clone, Copy, Debug)]
pub struct FullHtmlRequest;

impl FullHtmlRequest {
    /// A request qualifies when it is a `GET` without a `Range` header.
    pub fn check(&self, method: RequestMethod, has_range: bool) -> (res: bool)
        ensures
            res == (method == RequestMethod::Get && !has_range),
    {
        method == RequestMethod::Get && !has_range
    }
}

/// The kind of a file-system event.
#[derive(PartialEq, Eq, Structural, Clone, Copy, Debug)]
pub enum ChangeKind {
    /// An event whose kind the watcher could not tell.
    Any,
    Access,
    Create,
    Modify,
    Remove,
    Other,
}

/// A file-system event: its kind and the paths it concerns.
pub struct WatchEvent {
    pub kind: ChangeKind,
    pub paths: Vec<String>,
}

/// Whether events of this kind can change what is served.
pub open spec fn spec_changes_content(kind: ChangeKind) -> bool {
    kind == ChangeKind::Create || kind == ChangeKind::Modify || kind == ChangeKind::Remove
        || kind == ChangeKind::Any
}

/// Creation, modification, removal and unknown events change content;
/// access and other events do not.
pub fn changes_content(kind: ChangeKind) -> (res: bool)
    ensures
        res == spec_changes_content(kind),
{
    match kind {
        ChangeKind::Create | ChangeKind::Modify | ChangeKind::Remove | ChangeKind::Any => true,
        _ => false,
    }
}

/// The directory names whose trees never trigger a reload.
pub open spec fn ignored_name(name: Seq<char>) -> bool {
    ||| name == seq!['.', 'g', 'i', 't']
    ||| name == seq!['n', 'o', 'd', 'e', '_', 'm', 'o', 'd', 'u', 'l', 'e', 's']
    ||| name == seq!['t', 'a', 'r', 'g', 'e', 't']
}

/// The components of `path` below `root`, or all of them when `path` does
/// not lie under `root`.
pub open spec fn relative_parts(path: Seq<char>, root: Seq<char>) -> Seq<Part> {
    match strip_prefix_parts(parts(path), parts(root)) {
        Some(rest) => rest,
        None => parts(path),
    }
}

/// Whether `path`, taken relative to `root`, passes through an ignored tree.
pub open spec fn spec_ignored(path: Seq<char>, root: Seq<char>) -> bool {
    exists|i: int|
        0 <= i < relative_parts(path, root).len() && #[trigger] ignored_part(
            relative_parts(path, root)[i],
        )
}

/// A component naming one of the ignored trees.
pub open spec fn ignored_part(p: Part) -> bool {
    p matches Part::Normal(name) && ignored_name(name)
}

fn is_ignored_name(name: &String) -> (res: bool)
    ensures
        res == ignored_name(name@),
{
    proof {
        reveal_strlit(".git");
        reveal_strlit("node_modules");
        reveal_strlit("target");
        assert(".git"@ =~= seq!['.', 'g', 'i', 't']);
        assert("node_modules"@ =~= seq!['n', 'o', 'd', 'e', '_', 'm', 'o', 'd', 'u', 'l', 'e', 's']);
        assert("target"@ =~= seq!['t', 'a', 'r', 'g', 'e', 't']);
    }
    crate::text::same_text(name.as_str(), ".git")
        || crate::text::same_text(name.as_str(), "node_modules")
        || crate::text::same_text(name.as_str(), "target")
}

/// Whether a changed path lies inside `.git`, `node_modules` or `target`
/// below the served root.
pub fn ignored(path: &str, root: &str) -> (res: bool)
    ensures
        res == spec_ignored(path@, root@),
{
    let all = components(path);
    let base = components(root);
    let start: usize = match strip_prefix(&all, &base) {
        Some(k) => k,
        None => 0,
    };
    let ghost rest = relative_parts(path@, root@);
    let mut i = start;
    while i < all.len()
        invariant
            start <= i <= all.len(),
            rest == views(all@).skip(start as int),
            rest == relative_parts(path@, root@),
            forall|j: int|
                start <= j < i ==> !ignored_part(#[trigger] views(all@)[j]),
        decreases all.len() - i,
    {
        match &all[i] {
            Component::Normal(name) => {
                if is_ignored_name(name) {
                    assert(ignored_part(rest[i - start]));
                    return true;
                }
            },
            _ => {},
        }
        i = i + 1;
    }
    assert forall|k: int| 0 <= k < rest.len() implies !ignored_part(#[trigger] rest[k]) by {
        assert(rest[k] == views(all@)[k + start]);
    }
    false
}

/// Whether an event should reload connected browsers.
pub open spec fn spec_should_reload(kind: ChangeKind, paths: Seq<String>, root: Seq<char>) -> bool {
    &&& spec_changes_content(kind)
    &&& (paths.len() == 0 || exists|i: int| 0 <= i < paths.len() && #[trigger] outside_ignored(paths[i], root))
}

/// A path that lies outside every ignored tree below `root`.
pub open spec fn outside_ignored(path: String, root: Seq<char>) -> bool {
    !spec_ignored(path@, root)
}

/// An event reloads when it changes content and concerns no paths, or at
/// least one path outside the ignored trees.
pub fn should_reload(event: &WatchEvent, root: &str) -> (res: bool)
    ensures
        res == spec_should_reload(event.kind, event.paths@, root@),
{
    if !changes_content(event.kind) {
        return false;
    }
    if event.paths.len() == 0 {
        return true;
    }
    let mut i: usize = 0;
    while i < event.paths.len()
        invariant
            i <= event.paths.len(),
            spec_changes_content(event.kind),
            forall|j: int| 0 <= j < i ==> !outside_ignored(#[trigger] event.paths@[j], root@),
        decreases event.paths.len() - i,
    {
        if !ignored(event.paths[i].as_str(), root) {
            assert(outside_ignored(event.paths@[i as int], root@));
            return true;
        }
        i = i + 1;
    }
    false
}

/// The shortest time, in nanoseconds, between two reloads.
pub const RELOAD_INTERVAL_NANOS: u64 = 75_000_000;

/// Whether a reload at `now` may follow the last one, at `last`.
pub open spec fn spec_allows(last: Option<u64>, now: u64) -> bool {
    match last {
        None => true,
        Some(t) => now >= t && now - t >= RELOAD_INTERVAL_NANOS,
    }
}

/// Debounces reloads: bursts of events closer than 75 ms reload once.
pub struct ReloadGate {
    last: Option<u64>,
}

impl ReloadGate {
    pub closed spec fn last_reload(&self) -> Option<u64> {
        self.last
    }

    /// A gate that has not reloaded yet.
    pub fn new() -> (res: Self)
        ensures
            res.last_reload() is None,
    {
        ReloadGate { last: None }
    }

    /// Decides whether a relevant event at `now` (nanoseconds on a monotonic
    /// clock) reloads; if so, `now` becomes the last reload.
    pub fn allow_reload(&mut self, now: u64) -> (res: bool)
        ensures
            res == spec_allows(old(self).last_reload(), now),
            res ==> final(self).last_reload() == Some(now),
            !res ==> final(self).last_reload() == old(self).last_reload(),
    {
        let ok = match self.last {
            None => true,
            Some(t) => now >= t && now - t >= RELOAD_INTERVAL_NANOS,
        };
        if ok {
            self.last = Some(now);
        }
        ok
    }
}

/// Reloads are at least 75 ms apart: once a reload is allowed at `first`,
/// a later event reloads only at or after `first` plus the interval.
pub proof fn lemma_reloads_spaced(last: Option<u64>, first: u64, second: u64)
    requires
        spec_allows(last, first),
        spec_allows(Some(first), second),
    ensures
        second >= first + RELOAD_INTERVAL_NANOS,
{
}

impl ReloadGate {
    /// Handles one watcher callback at `now`: it reloads when the callback
    /// delivered an event (`None` for a watcher error) that should reload and
    /// the last reload is at least 75 ms past.
    pub fn on_callback(&mut self, event: Option<&WatchEvent>, root: &str, now: u64) -> (res: bool)
        ensures
            res == (event matches Some(e) && spec_should_reload(e.kind, e.paths@, root@)
                && spec_allows(old(self).last_reload(), now)),
            res ==> final(self).last_reload() == Some(now),
            !res ==> final(self).last_reload() == old(self).last_reload(),
    {
        match event {
            None => false,
            Some(e) => if should_reload(e, root) {
                self.allow_reload(now)
            } else {
                false
            },
        }
    }
}

/// The decisions over a run of callbacks, each given as whether it carried
/// an event that should reload and its time: which ones reload, and the
/// last reload after the run.
pub open spec fn run_decisions(last: Option<u64>, callbacks: Seq<(bool, u64)>) -> (Seq<bool>, Option<u64>)
    decreases callbacks.len(),
{
    if callbacks.len() == 0 {
        (seq![], last)
    } else {
        let before = run_decisions(last, callbacks.drop_last());
        let c = callbacks.last();
        let reload = c.0 && spec_allows(before.1, c.1);
        (before.0.push(reload), if reload { Some(c.1) } else { before.1 })
    }
}

proof fn lemma_run_state(callbacks: Seq<(bool, u64)>)
    ensures
        run_decisions(None, callbacks).0.len() == callbacks.len(),
        run_decisions(None, callbacks).1 is None <==> forall|k: int|
            0 <= k < callbacks.len() ==> !#[trigger] run_decisions(None, callbacks).0[k],
        run_decisions(None, callbacks).1 matches Some(t) ==> forall|k: int|
            0 <= k < callbacks.len() && #[trigger] run_decisions(None, callbacks).0[k]
                ==> callbacks[k].1 <= t,
        forall|k: int|
            0 <= k < callbacks.len() && #[trigger] run_decisions(None, callbacks).0[k]
                ==> callbacks[k].0,
        forall|i: int, j: int|
            0 <= i < j < callbacks.len() && #[trigger] run_decisions(None, callbacks).0[i]
                && #[trigger] run_decisions(None, callbacks).0[j] ==> callbacks[j].1
                >= callbacks[i].1 + RELOAD_INTERVAL_NANOS,
    decreases callbacks.len(),
{
    if callbacks.len() > 0 {
        let prev = callbacks.drop_last();
        lemma_run_state(prev);
        let before = run_decisions(None, prev);
        let now = run_decisions(None, callbacks);
        assert forall|k: int| 0 <= k < prev.len() implies now.0[k] == before.0[k] && callbacks[k]
            == prev[k] by {}
        let n = callbacks.len() - 1;
        assert(now.0[n] == (callbacks[n].0 && spec_allows(before.1, callbacks[n].1)));
        if now.1 is None {
            assert(!now.0[n]);
            assert forall|k: int| 0 <= k < callbacks.len() implies !#[trigger] now.0[k] by {
                if k < n {
                    assert(now.0[k] == before.0[k]);
                }
            }
        }
        if forall|k: int| 0 <= k < callbacks.len() ==> !#[trigger] now.0[k] {
            assert(!now.0[n]);
            assert forall|k: int| 0 <= k < prev.len() implies !#[trigger] before.0[k] by {
                assert(!now.0[k]);
            }
        }
    }
}

/// Over a whole run of watcher callbacks from a fresh gate: only callbacks
/// carrying a relevant event reload, the first relevant one always does, and
/// any two reloads lie at least 75 ms apart.
pub proof fn lemma_run_debounced(callbacks: Seq<(bool, u64)>)
    ensures
        forall|k: int|
            0 <= k < callbacks.len() && #[trigger] run_decisions(None, callbacks).0[k]
                ==> callbacks[k].0,
        forall|k: int|
            0 <= k < callbacks.len() && callbacks[k].0 && (forall|m: int|
                0 <= m < k ==> !#[trigger] run_decisions(None, callbacks).0[m])
                ==> #[trigger] run_decisions(None, callbacks).0[k],
        forall|i: int, j: int|
            0 <= i < j < callbacks.len() && #[trigger] run_decisions(None, callbacks).0[i]
                && #[trigger] run_decisions(None, callbacks).0[j] ==> callbacks[j].1
                >= callbacks[i].1 + RELOAD_INTERVAL_NANOS,
    decreases callbacks.len(),
{
    lemma_run_state(callbacks);
    if callbacks.len() > 0 {
        let prev = callbacks.drop_last();
        lemma_run_debounced(prev);
        lemma_run_state(prev);
        let before = run_decisions(None, prev);
        let now = run_decisions(None, callbacks);
        assert forall|k: int| 0 <= k < prev.len() implies now.0[k] == before.0[k] && callbacks[k]
            == prev[k] by {}
        let n = callbacks.len() - 1;
        if callbacks[n].0 && (forall|m: int| 0 <= m < n ==> !#[trigger] now.0[m]) {
            assert(forall|m: int| 0 <= m < prev.len() ==> !#[trigger] before.0[m]);
            assert(before.1 is None);
        }
    }
}

/// The debounce in terms of times: with no reload yet, a relevant event
/// reloads; after a reload at `t`, an event at `now` reloads exactly when
/// `now` is at least 75 ms after `t`, however long after.
pub proof fn lemma_debounce_by_time(t: u64, now: u64)
    ensures
        spec_allows(None, now),
        now >= t + 75_000_000 ==> spec_allows(Some(t), now),
        now < t + 75_000_000 ==> !spec_allows(Some(t), now),
{
}

/// Which events reload, in terms of their kind and paths: creation,
/// modification, removal and unknown events reload when they name no path
/// or some path outside the ignored trees; access and other events never do.
pub proof fn lemma_reload_events(kind: ChangeKind, paths: Seq<String>, root: Seq<char>)
    ensures
        spec_should_reload(kind, paths, root) <==> ((kind == ChangeKind::Create || kind
            == ChangeKind::Modify || kind == ChangeKind::Remove || kind == ChangeKind::Any) && (
        paths.len() == 0 || exists|i: int| 0 <= i < paths.len() && !spec_ignored(#[trigger] paths[i]@, root))),
{
    if spec_should_reload(kind, paths, root) && paths.len() > 0 {
        let i = choose|i: int| 0 <= i < paths.len() && #[trigger] outside_ignored(paths[i], root);
        assert(!spec_ignored(paths[i]@, root));
    }
    if (exists|i: int| 0 <= i < paths.len() && !spec_ignored(#[trigger] paths[i]@, root)) {
        let i = choose|i: int| 0 <= i < paths.len() && !spec_ignored(#[trigger] paths[i]@, root);
        assert(outside_ignored(paths[i], root));
    }
}

} // verus!
