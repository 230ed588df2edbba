use srv::directory::{after_failure, escape, first_fallback, relative_path, FallbackAction};
use srv::listing::{listing, listing_page_html, sort_entries, visible_entries, Entry};
use srv::path::is_hidden_path;

fn entry(name: &str, is_dir: bool, size: u64) -> Entry {
    Entry { name: name.to_string(), is_dir, size }
}

#[test]
fn escapes_directory_names() {
    assert_eq!(escape("<x & \"y\">"), "&lt;x &amp; &quot;y&quot;&gt;");
    assert_eq!(escape("/a&copy;/"), "/a&amp;copy;/");
}

#[test]
fn escape_leaves_plain_text() {
    assert_eq!(escape(""), "");
    assert_eq!(escape("plain 'text' é"), "plain 'text' é");
}

#[test]
fn relative_path_decodes_and_trims() {
    assert_eq!(relative_path("/"), Some(String::new()));
    assert_eq!(relative_path("/docs/a%20b/"), Some("docs/a b/".to_string()));
    assert_eq!(relative_path("//x/./y"), Some("x/./y".to_string()));
    assert_eq!(relative_path("/%C3%A9t%C3%A9"), Some("été".to_string()));
    assert_eq!(relative_path("/100%"), Some("100%".to_string()));
}

#[test]
fn relative_path_refuses_traversal_and_bad_utf8() {
    assert_eq!(relative_path("/../etc"), None);
    assert_eq!(relative_path("/a/%2E%2E/b"), None);
    assert_eq!(relative_path("/a/.."), None);
    assert_eq!(relative_path("/%ff"), None);
}

#[test]
fn sorts_entries_ignoring_case() {
    let items = vec![entry("b", false, 1), entry("A", true, 0), entry("c", false, 2), entry("a2", false, 3)];
    let sorted = sort_entries(&items);
    let names: Vec<&str> = sorted.iter().map(|e| e.name.as_str()).collect();
    assert_eq!(names, vec!["A", "a2", "b", "c"]);
    assert!(sorted[0].is_dir);
}

#[test]
fn sort_key_is_lower_case() {
    let items = vec![entry("B", false, 0), entry("a", false, 0)];
    let sorted = sort_entries(&items);
    assert_eq!(sorted[0].name, "a");
    assert_eq!(sorted[1].name, "B");
}

#[test]
fn renders_listing_page() {
    let items = vec![entry("b c.txt", false, 1234), entry("A&B", true, 4096)];
    let html = listing("/dir", &items);
    assert_eq!(
        html,
        "<!doctype html><meta charset=utf-8><title>Index of /dir</title>\
         <h1>Index of /dir</h1><ul><li><a href=\"../\">../</a></li>\
         <li><a href=\"/dir/A%26B/\">A&amp;B/</a></li>\
         <li><a href=\"/dir/b%20c%2Etxt\">b c.txt</a> <small>1234 bytes</small></li></ul>"
    );
}

#[test]
fn listing_hides_dotfiles() {
    let items = vec![entry(".env", false, 10), entry("index.html", false, 0), entry(".git", true, 0)];
    let html = listing("/", &items);
    assert_eq!(
        html,
        "<!doctype html><meta charset=utf-8><title>Index of /</title>\
         <h1>Index of /</h1><ul><li><a href=\"/index%2Ehtml\">index.html</a> <small>0 bytes</small></li></ul>"
    );
    let shown = visible_entries(&items);
    assert_eq!(shown.len(), 1);
}

#[test]
fn root_listing_has_no_parent_link() {
    let items = vec![entry("é", false, 7)];
    let html = listing_page_html("/", &items);
    assert_eq!(
        html,
        "<!doctype html><meta charset=utf-8><title>Index of /</title>\
         <h1>Index of /</h1><ul><li><a href=\"/%C3%A9\">é</a> <small>7 bytes</small></li></ul>"
    );
}

#[test]
fn hidden_paths_are_refused() {
    assert_eq!(relative_path("/.git/"), None);
    assert_eq!(relative_path("/docs/%2Essh"), None);
    assert_eq!(relative_path("/./docs/"), Some("./docs/".to_string()));
    assert!(is_hidden_path("./.env"));
    assert!(is_hidden_path("a/.b/c"));
    assert!(!is_hidden_path("./a/b.txt"));
    assert!(!is_hidden_path("a/../b"));
}

#[test]
fn fallback_steps() {
    assert!(matches!(first_fallback("/docs/", false), FallbackAction::List(ref d) if d == "docs/"));
    assert!(matches!(first_fallback("/../x", true), FallbackAction::ServeIndex));
    assert!(matches!(first_fallback("/../x", false), FallbackAction::NotFound));
    let list = FallbackAction::List("docs".to_string());
    assert!(matches!(after_failure(&list, true), FallbackAction::ServeIndex));
    assert!(matches!(after_failure(&list, false), FallbackAction::NotFound));
    assert!(matches!(
        after_failure(&after_failure(&list, true), true),
        FallbackAction::NotFound
    ));
}
