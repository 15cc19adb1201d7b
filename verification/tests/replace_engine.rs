use cachebust::replace::replace_content;
use cachebust::subst::rewrite_file_content;

fn pairs(ps: &[(&str, &str)]) -> Vec<(String, String)> {
    ps.iter().map(|(a, b)| (a.to_string(), b.to_string())).collect()
}

#[test]
fn replacement_is_simultaneous_not_sequential() {
    // the text a.111.js originally present is rewritten exactly once and the
    // output of the first pair is never re-matched by the second
    let set = pairs(&[("a.js", "a.111.js"), ("a.111.js", "a.222.js")]);
    let out = replace_content("ref to a.js and a.111.js", &set);
    assert_eq!(out, "ref to a.111.js and a.222.js");
}

#[test]
fn earlier_pair_wins_at_same_position() {
    let set = pairs(&[("ab", "X"), ("abc", "Y")]);
    assert_eq!(replace_content("abc", &set), "Xc");
}

#[test]
fn leftmost_occurrence_wins_across_positions() {
    let set = pairs(&[("bc", "Y"), ("ab", "X")]);
    assert_eq!(replace_content("abc", &set), "Xc");
}

#[test]
fn empty_search_string_matches_nowhere() {
    let set = pairs(&[("", "Z")]);
    assert_eq!(replace_content("abc", &set), "abc");
}

#[test]
fn non_overlapping_occurrences_are_all_replaced() {
    let set = pairs(&[("a.js", "a.1.js")]);
    assert_eq!(
        replace_content("a.js a.js a.js", &set),
        "a.1.js a.1.js a.1.js"
    );
}

#[test]
fn replacement_output_is_not_rescanned() {
    // "aa" -> "ab" on "aab": the produced ab must not be re-matched by the
    // second pair, as a sequential two-pass apply would do
    let set = pairs(&[("aa", "ab"), ("ab", "XX")]);
    assert_eq!(replace_content("aab", &set), "abb");
}

#[test]
fn unchanged_content_yields_no_write() {
    let set = pairs(&[("a.js", "a.1.js")]);
    let content = "nothing to see".to_string();
    assert_eq!(rewrite_file_content(&content, &set), None);
}

#[test]
fn changed_content_yields_new_text() {
    let set = pairs(&[("a.js", "a.1.js")]);
    let content = "see a.js here".to_string();
    assert_eq!(
        rewrite_file_content(&content, &set),
        Some("see a.1.js here".to_string())
    );
}
