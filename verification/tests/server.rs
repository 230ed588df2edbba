use srv::backend::{listing_dir, read_limit, within_bound, FileMetadata, ModifiedError};
use srv::path::{components, Component};
use srv::server::{after_bind_failure, canonical_root, BindStep, RootError};

#[test]
fn canonical_root_requires_a_directory() {
    assert_eq!(canonical_root("dist", Some("/w/dist".to_string()), true).unwrap(), "/w/dist");
    assert!(matches!(canonical_root("f.txt", Some("/w/f.txt".to_string()), false), Err(RootError::NotADirectory(ref r)) if r == "/w/f.txt"));
    assert!(matches!(canonical_root("nope", None, false), Err(RootError::CannotServe(ref d)) if d == "nope"));
}

#[test]
fn bind_retries_on_the_next_port() {
    assert_eq!(after_bind_failure(3000, true), BindStep::Retry(3001));
    assert_eq!(after_bind_failure(u16::MAX, true), BindStep::NoFreePort);
    assert_eq!(after_bind_failure(3000, false), BindStep::Fail);
}

#[test]
fn bounded_reads_reject_files_over_the_limit() {
    assert!(within_bound(10, 10));
    assert!(!within_bound(10, 9));
    assert_eq!(read_limit(10), 11);
    assert_eq!(read_limit(u64::MAX), u64::MAX);
}

#[test]
fn lists_the_current_directory_for_the_empty_path() {
    assert_eq!(listing_dir(""), ".");
    assert_eq!(listing_dir("docs/"), "docs/");
}

#[test]
fn metadata_keeps_its_parts() {
    let now = std::time::SystemTime::now();
    let m = FileMetadata::new(true, 42, Ok(now));
    assert!(m.is_dir());
    assert_eq!(m.len(), 42);
    assert_eq!(m.modified().unwrap(), now);
    let e = FileMetadata::new(false, 0, Err(ModifiedError { kind: std::io::ErrorKind::Unsupported, message: "no".to_string() }));
    let err = e.modified().unwrap_err();
    assert_eq!(err.kind, std::io::ErrorKind::Unsupported);
    assert_eq!(err.message, "no");
}

#[test]
fn path_components_follow_std() {
    for text in ["/a//b/./c/", "./x/../y", ".", "a/.", "", "//", "../..", "a/./.b"] {
        let ours: Vec<String> = components(text)
            .into_iter()
            .map(|c| match c {
                Component::RootDir => "/".to_string(),
                Component::CurDir => ".".to_string(),
                Component::ParentDir => "..".to_string(),
                Component::Normal(n) => n,
            })
            .collect();
        let theirs: Vec<String> = std::path::Path::new(text)
            .components()
            .map(|c| c.as_os_str().to_string_lossy().into_owned())
            .collect();
        assert_eq!(ours, theirs, "{text}");
    }
}
