use srv::reload::{changes_content, ignored, should_reload, ChangeKind, FullHtmlRequest, ReloadGate, WatchEvent};
use srv::request::RequestMethod;

#[test]
fn ignores_access_events_but_reloads_for_changes() {
    assert!(!changes_content(ChangeKind::Access));
    assert!(changes_content(ChangeKind::Create));
    assert!(changes_content(ChangeKind::Modify));
}

#[test]
fn other_and_unknown_events() {
    assert!(changes_content(ChangeKind::Remove));
    assert!(changes_content(ChangeKind::Any));
    assert!(!changes_content(ChangeKind::Other));
}

#[test]
fn ignores_generated_dependency_trees() {
    let root = "site";
    assert!(ignored("site/node_modules/pkg/index.js", root));
    assert!(ignored("site/.git/index", root));
    assert!(!ignored("site/src/index.js", root));
}

#[test]
fn ignored_is_relative_to_the_root() {
    assert!(!ignored("/w/target/site/a.html", "/w/target/site"));
    assert!(ignored("/w/target/other/a.html", "/w/target/site"));
    assert!(ignored("/elsewhere/target/x", "/w/site"));
    assert!(!ignored("/w/site/targets/x", "/w/site/"));
}

#[test]
fn injection_requires_a_full_get() {
    let predicate = FullHtmlRequest;
    assert!(predicate.check(RequestMethod::Get, false));
    assert!(!predicate.check(RequestMethod::Get, true));
    assert!(!predicate.check(RequestMethod::Head, false));
}

#[test]
fn reload_decisions() {
    let root = "/site";
    let event = |kind, paths: &[&str]| WatchEvent { kind, paths: paths.iter().map(|p| p.to_string()).collect() };
    assert!(should_reload(&event(ChangeKind::Modify, &[]), root));
    assert!(!should_reload(&event(ChangeKind::Access, &["/site/a.html"]), root));
    assert!(!should_reload(&event(ChangeKind::Create, &["/site/.git/HEAD"]), root));
    assert!(should_reload(&event(ChangeKind::Create, &["/site/.git/HEAD", "/site/b.css"]), root));
}

#[test]
fn reloads_are_debounced() {
    let mut gate = ReloadGate::new();
    assert!(gate.allow_reload(0));
    assert!(!gate.allow_reload(74_999_999));
    assert!(gate.allow_reload(75_000_000));
    assert!(!gate.allow_reload(100_000_000));
    assert!(gate.allow_reload(150_000_000));
}

#[test]
fn callbacks_reload_only_for_relevant_events() {
    let mut gate = ReloadGate::new();
    let change = WatchEvent { kind: ChangeKind::Modify, paths: vec!["/site/a.html".to_string()] };
    let ignored_change = WatchEvent { kind: ChangeKind::Modify, paths: vec!["/site/.git/x".to_string()] };
    assert!(!gate.on_callback(None, "/site", 0));
    assert!(!gate.on_callback(Some(&ignored_change), "/site", 1));
    assert!(gate.on_callback(Some(&change), "/site", 2));
    assert!(!gate.on_callback(Some(&change), "/site", 3));
    assert!(gate.on_callback(Some(&change), "/site", 80_000_000));
}
