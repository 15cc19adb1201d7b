use cachebust::digest::digest_of;
use cachebust::manifest::{FileRecord, Manifest};
use cachebust::manifest::plan_renames;
use cachebust::paths::{file_name, new_file_name, split_file_name, strip_base, with_file_name};
use cachebust::paths::is_skipped;

fn record(path: &str, content: &[u8]) -> FileRecord {
    FileRecord {
        path: path.to_string(),
        is_file: true,
        is_symlink: false,
        content: content.to_vec(),
    }
}

#[test]
fn digest_of_empty_input_is_known_value() {
    assert_eq!(digest_of(&Vec::new()), "e3b0c442");
}

#[test]
fn digest_of_abc_is_known_value() {
    assert_eq!(digest_of(&b"abc".to_vec()), "ba7816bf");
}

#[test]
fn digest_is_deterministic() {
    let bytes = b"some fixed file content".to_vec();
    let first = digest_of(&bytes);
    let second = digest_of(&bytes);
    assert_eq!(first, second);
    assert_eq!(first.len(), 8);
}

#[test]
fn new_name_keeps_stem_and_extension() {
    assert_eq!(new_file_name("a.b.css", "12345678"), "a.b.12345678.css");
}

#[test]
fn new_name_without_extension_has_no_trailing_dot() {
    assert_eq!(new_file_name("README", "12345678"), "README.12345678");
}

#[test]
fn new_name_dotfile_is_whole_stem() {
    assert_eq!(new_file_name(".gitignore", "12345678"), ".gitignore.12345678");
}

#[test]
fn new_name_trailing_dot_has_empty_extension() {
    assert_eq!(new_file_name("foo.", "12345678"), "foo.12345678");
}

#[test]
fn split_file_name_cases() {
    assert_eq!(split_file_name("a.b.css"), ("a.b".to_string(), "css".to_string()));
    assert_eq!(split_file_name("README"), ("README".to_string(), "".to_string()));
    assert_eq!(split_file_name(".gitignore"), (".gitignore".to_string(), "".to_string()));
}

#[test]
fn rehashing_unchanged_bytes_reproduces_digest_in_name() {
    let bytes = b"body { color: red; }".to_vec();
    let d = digest_of(&bytes);
    let name = new_file_name("app.js", &d);
    assert_eq!(name, format!("app.{}.js", d));
    // the renamed file holds the same bytes, so hashing it again gives
    // the digest segment already present in its name
    let again = digest_of(&bytes);
    let stem_len = "app".len();
    assert_eq!(&name[stem_len + 1..stem_len + 9], again.as_str());
}

#[test]
fn with_file_name_keeps_directory() {
    assert_eq!(with_file_name("assets/js/app.js", "app.d.js"), "assets/js/app.d.js");
    assert_eq!(with_file_name("app.js", "app.d.js"), "app.d.js");
    assert_eq!(file_name("assets/js/app.js"), "app.js");
}

#[test]
fn strip_base_requires_strict_containment() {
    assert_eq!(strip_base("x", "x/y.js"), Some("y.js".to_string()));
    assert_eq!(strip_base("x", "x"), None);
    assert_eq!(strip_base("x", "xy/y.js"), None);
    assert_eq!(strip_base("", "y.js"), Some("y.js".to_string()));
    assert_eq!(strip_base("", ""), None);
}

#[test]
fn skip_list_matches_exact_relative_paths_only() {
    let skip = vec!["b.js".to_string()];
    assert!(is_skipped(&"b.js".to_string(), &skip));
    assert!(!is_skipped(&"a/b.js".to_string(), &skip));
}

#[test]
fn manifest_lists_every_selected_file_exactly_once() {
    let files = vec![
        record("app.js", b"x"),
        FileRecord {
            path: "assets".to_string(),
            is_file: false,
            is_symlink: false,
            content: Vec::new(),
        },
        FileRecord {
            path: "link.js".to_string(),
            is_file: true,
            is_symlink: true,
            content: Vec::new(),
        },
        record("skip.txt", b"keep me"),
        record("assets/style.css", b"y"),
    ];
    let skip = vec!["skip.txt".to_string()];
    let m: Manifest = plan_renames(&files, &skip);
    let keys: Vec<&str> = m.entries.iter().map(|e| e.0.as_str()).collect();
    assert_eq!(keys, vec!["app.js", "assets/style.css"]);
    let dx = digest_of(&b"x".to_vec());
    let dy = digest_of(&b"y".to_vec());
    assert_eq!(m.entries[0].1, format!("app.{}.js", dx));
    assert_eq!(m.entries[1].1, format!("assets/style.{}.css", dy));
}

#[test]
fn skipped_file_is_not_renamed() {
    let files = vec![record("index.html", b"<html>"), record("app.js", b"x")];
    let skip = vec!["index.html".to_string()];
    let m = plan_renames(&files, &skip);
    assert_eq!(m.entries.len(), 1);
    assert_eq!(m.entries[0].0, "app.js");
}
