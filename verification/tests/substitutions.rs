use cachebust::Error;
use cachebust::manifest::Manifest;
use cachebust::replace::replace_content;
use cachebust::subst::{build_substitutions, QuoteAndRawExpander, QuoteExpander, RawExpander};

fn manifest(entries: &[(&str, &str)]) -> Manifest {
    Manifest {
        entries: entries.iter().map(|(a, b)| (a.to_string(), b.to_string())).collect(),
    }
}

#[test]
fn entry_outside_every_base_contributes_no_pair() {
    let m = manifest(&[("lib/a.js", "lib/a.111.js")]);
    let bases = vec!["assets".to_string()];
    let subs = build_substitutions(&bases, &m, &RawExpander {}).unwrap();
    assert!(subs.is_empty());
}

#[test]
fn empty_base_list_means_root() {
    let m = manifest(&[("lib/a.js", "lib/a.111.js")]);
    let bases: Vec<String> = Vec::new();
    let subs = build_substitutions(&bases, &m, &RawExpander {}).unwrap();
    assert_eq!(subs, vec![("lib/a.js".to_string(), "lib/a.111.js".to_string())]);
}

#[test]
fn root_base_pairs_come_before_deeper_base_pairs() {
    let m = manifest(&[("assets/a.js", "assets/a.111.js")]);
    let bases = vec!["".to_string(), "assets".to_string()];
    let subs = build_substitutions(&bases, &m, &RawExpander {}).unwrap();
    assert_eq!(
        subs,
        vec![
            ("assets/a.js".to_string(), "assets/a.111.js".to_string()),
            ("a.js".to_string(), "a.111.js".to_string()),
        ]
    );
}

#[test]
fn quote_expander_wraps_in_quotation_marks() {
    let m = manifest(&[("app.js", "app.111.js")]);
    let bases: Vec<String> = Vec::new();
    let ex = QuoteExpander { protected_suffix: "service_worker.js".to_string() };
    let subs = build_substitutions(&bases, &m, &ex).unwrap();
    assert_eq!(subs, vec![("\"app.js\"".to_string(), "\"app.111.js\"".to_string())]);
}

#[test]
fn quote_expander_passes_protected_name_through() {
    let m = manifest(&[("app.js", "app.111.js")]);
    let bases: Vec<String> = Vec::new();
    let ex = QuoteExpander { protected_suffix: "app.111.js".to_string() };
    let subs = build_substitutions(&bases, &m, &ex).unwrap();
    // the old path is quoted, the protected new path stays bare: one
    // variant each, paired positionally
    assert_eq!(subs, vec![("\"app.js\"".to_string(), "app.111.js".to_string())]);
}

#[test]
fn mismatched_variant_lists_are_an_error() {
    // the old path ends with the protected suffix (one variant), the new
    // path does not (two variants): the lists cannot be paired
    let m = manifest(&[("sw.js", "sw.111.js")]);
    let bases: Vec<String> = Vec::new();
    let ex = QuoteAndRawExpander { protected_suffix: "sw.js".to_string() };
    let r = build_substitutions(&bases, &m, &ex);
    assert_eq!(r, Err(Error::ExpanderMismatch));
}

#[test]
fn quote_and_raw_expander_yields_both_variants() {
    let m = manifest(&[("a.js", "a.111.js")]);
    let bases: Vec<String> = Vec::new();
    let ex = QuoteAndRawExpander { protected_suffix: "service_worker.js".to_string() };
    let subs = build_substitutions(&bases, &m, &ex).unwrap();
    assert_eq!(
        subs,
        vec![
            ("a.js".to_string(), "a.111.js".to_string()),
            ("\"a.js\"".to_string(), "\"a.111.js\"".to_string()),
        ]
    );
}

#[test]
fn entries_keep_manifest_order_within_a_base() {
    let m = manifest(&[("a.js", "a.1.js"), ("b.js", "b.2.js")]);
    let bases: Vec<String> = Vec::new();
    let subs = build_substitutions(&bases, &m, &RawExpander {}).unwrap();
    assert_eq!(
        subs,
        vec![
            ("a.js".to_string(), "a.1.js".to_string()),
            ("b.js".to_string(), "b.2.js".to_string()),
        ]
    );
}

#[test]
fn skipped_file_old_name_is_still_substitutable_elsewhere() {
    // the skip list keeps a file from being renamed or rewritten, but
    // references to other renamed files inside any content are still
    // rewritten, and the substitution set ignores the skip list
    let m = manifest(&[("app.js", "app.111.js")]);
    let bases: Vec<String> = Vec::new();
    let subs = build_substitutions(&bases, &m, &RawExpander {}).unwrap();
    let index_html = "<script src=app.js></script>";
    assert_eq!(replace_content(index_html, &subs), "<script src=app.111.js></script>");
}
