use fulgur_core::open_request::{
    has_url_scheme, openable_path, queue_open_requests, requested_path, url_to_path, OpenRefusal,
};
use std::io::Write;
use std::path::Path;
use tempfile::TempDir;

fn resolve(input: &str) -> Option<String> {
    let named = requested_path(input).ok()?;
    url_to_path(input, Path::new(&named).is_file())
}

fn write_file(dir: &TempDir, stem: &str) -> tempfile::NamedTempFile {
    let mut file = tempfile::Builder::new()
        .prefix(stem)
        .suffix(".txt")
        .rand_bytes(0)
        .tempfile_in(dir.path())
        .expect("failed to write temp file");
    file.write_all(b"content").expect("failed to write temp file");
    file
}

#[test]
fn test_url_to_path_returns_file_for_existing_file_url() {
    let dir = TempDir::new().expect("failed to create temp dir");
    let file = write_file(&dir, "hello world");
    let path_string = file.path().to_string_lossy().into_owned();
    assert!(path_string.ends_with("hello world.txt"));
    let encoded = urlencoding::encode(&path_string);
    let file_url = format!("file://{encoded}");

    let resolved = resolve(&file_url);
    assert!(
        resolved.is_some(),
        "existing file URL should resolve to a local path"
    );
    assert_eq!(resolved, Some(path_string));
}

#[test]
fn test_url_to_path_accepts_bare_absolute_path() {
    let dir = TempDir::new().expect("failed to create temp dir");
    let file = write_file(&dir, "plain");
    let path_string = file.path().to_string_lossy().into_owned();
    assert!(path_string.ends_with("plain.txt"));

    let resolved = resolve(&path_string);
    assert!(
        resolved.is_some(),
        "a bare absolute path should resolve without a file:// prefix"
    );
    assert_eq!(resolved, Some(path_string));
}

#[test]
fn test_url_to_path_rejects_invalid_percent_encoded_url() {
    let invalid = "file://%E0%A4%A";
    assert!(
        resolve(invalid).is_none(),
        "invalid percent-encoded URL must be rejected"
    );
    assert!(url_to_path(invalid, true).is_none());
    assert_eq!(requested_path(invalid), Err(OpenRefusal::Undecodable));
}

#[test]
fn test_url_to_path_rejects_non_existing_target() {
    let missing_url = "file:///this/path/does/not/exist.txt";
    assert!(
        resolve(missing_url).is_none(),
        "non-existing targets must not be returned as openable file paths"
    );
}

#[test]
fn test_url_to_path_rejects_non_file_scheme() {
    assert!(
        resolve("http://example.com/etc/passwd").is_none(),
        "non-file URL schemes must be rejected"
    );
    assert!(
        resolve("javascript:alert(1)").is_none(),
        "opaque non-file schemes must be rejected"
    );
    assert!(url_to_path("http://example.com/etc/passwd", true).is_none());
    assert!(url_to_path("javascript:alert(1)", true).is_none());
    assert_eq!(
        requested_path("javascript:alert(1)"),
        Err(OpenRefusal::ForeignScheme)
    );
}

#[test]
fn test_url_to_path_rejects_relative_path() {
    assert!(
        resolve("../sensitive").is_none(),
        "relative paths must be rejected so they cannot resolve against cwd"
    );
    assert!(url_to_path("../sensitive", true).is_none());
    assert!(url_to_path("notes.txt", true).is_none());
    assert!(url_to_path("C:temp", true).is_none());
    assert!(url_to_path("\\temp", true).is_none());
}

#[test]
fn test_has_url_scheme_classification() {
    assert!(has_url_scheme("http://example.com"));
    assert!(has_url_scheme("file:///tmp/x"));
    assert!(has_url_scheme("mailto:a@b.com"));
    assert!(!has_url_scheme("/Users/me/file.txt"));
    assert!(!has_url_scheme("C:/Users/me/file.txt"));
    assert!(!has_url_scheme("../relative"));
    assert!(!has_url_scheme("/tmp/a:b"));
}

#[test]
fn scheme_edge_cases() {
    assert!(!has_url_scheme(""));
    assert!(!has_url_scheme(":"));
    assert!(!has_url_scheme("a:"));
    assert!(has_url_scheme("ab:"));
    assert!(!has_url_scheme("1b:x"));
    assert!(has_url_scheme("a1+-.:x"));
    assert!(!has_url_scheme("+a:x"));
    assert!(!has_url_scheme("no scheme: here"));
    assert!(!has_url_scheme("\u{e9}a:x"));
    assert!(has_url_scheme("ab:c:d"));
    assert!(!has_url_scheme("nothing"));
}

#[test]
fn file_urls_are_decoded() {
    assert_eq!(
        requested_path("file:///tmp/hello%20world.txt"),
        Ok("/tmp/hello world.txt".to_string())
    );
    assert_eq!(
        requested_path("file:///caf%C3%A9+1%2"),
        Ok("/caf\u{e9}+1%2".to_string())
    );
    assert_eq!(requested_path("file:///%%41%zz"), Ok("/%A%zz".to_string()));
    assert_eq!(requested_path("file://"), Ok(String::new()));
    assert_eq!(
        url_to_path("file:///tmp/hello%20world.txt", true),
        Some("/tmp/hello world.txt".to_string())
    );
}

#[test]
fn encoded_urls_name_the_path_they_encode() {
    for path in ["/a b/c%d.txt", "/\u{65e5}\u{672c}", "", "/~x-y_z.1", "/a?b#c"] {
        let url = format!("file://{}", urlencoding::encode(path));
        assert_eq!(requested_path(&url), Ok(path.to_string()));
    }
}

#[test]
fn plain_urls_name_what_follows() {
    assert_eq!(requested_path("file:///etc/\u{e9}"), Ok("/etc/\u{e9}".to_string()));
}

#[test]
fn file_scheme_without_slashes_is_foreign() {
    assert_eq!(requested_path("file:/tmp/x"), Err(OpenRefusal::ForeignScheme));
}

#[test]
fn bare_paths_name_themselves() {
    for path in ["/tmp/a:b", "C:/x", "\\share", "../x", "notes"] {
        assert_eq!(requested_path(path), Ok(path.to_string()));
    }
}

#[test]
fn only_absolute_files_are_openable() {
    let path = || "/tmp/x".to_string();
    assert_eq!(openable_path(path(), true, true), Some(path()));
    assert_eq!(openable_path(path(), false, true), None);
    assert_eq!(openable_path(path(), true, false), None);
    assert_eq!(openable_path(path(), false, false), None);
}

#[test]
fn resolved_requests_are_queued_in_order() {
    let mut pending = vec!["/old".to_string()];
    let resolved = vec![Some("/a".to_string()), None, Some("/b".to_string())];
    assert!(queue_open_requests(&mut pending, resolved));
    assert_eq!(pending, ["/old", "/a", "/b"]);
    assert!(!queue_open_requests(&mut pending, vec![None, None]));
    assert!(!queue_open_requests(&mut pending, vec![]));
    assert_eq!(pending.len(), 3);
}
