//! Collision-safe simultaneous replacement: every non-overlapping leftmost
//! occurrence of any search string is replaced against the *original* text
//! in one pass, so no replacement's output is itself re-matched, and
//! overlapping matches at one position prefer the pair listed first.

use vstd::prelude::*;
use vstd::string::StrSliceExecFns;
use vstd::string::StringExecFns;

verus! {

/// Whether the non-empty search string `pat` occurs in `text` at position
/// `i`. An empty search string matches nowhere.
pub open spec fn matches_at(text: Seq<char>, i: int, pat: Seq<char>) -> bool {
    &&& pat.len() > 0
    &&& 0 <= i
    &&& i + pat.len() <= text.len()
    &&& text.subrange(i, i + pat.len()) == pat
}

/// The index of the first pair whose search string matches at position `i`,
/// if any: at one position, the pair listed earlier wins.
pub open spec fn match_index_at(
    text: Seq<char>,
    i: int,
    pairs: Seq<(Seq<char>, Seq<char>)>,
) -> Option<int>
    decreases pairs.len(),
{
    if pairs.len() == 0 {
        None
    } else if matches_at(text, i, pairs[0].0) {
        Some(0)
    } else {
        match match_index_at(text, i, pairs.skip(1)) {
            Some(j) => Some(j + 1),
            None => None,
        }
    }
}

/// What `match_index_at` returns: the first matching pair at `i`, and
/// `None` exactly when no pair matches there.
pub proof fn lemma_match_index_at(text: Seq<char>, i: int, pairs: Seq<(Seq<char>, Seq<char>)>)
    ensures
        match match_index_at(text, i, pairs) {
            Some(j) => 0 <= j < pairs.len() && matches_at(text, i, pairs[j].0) && (forall|k: int|
                0 <= k < j ==> !matches_at(text, i, pairs[k].0)),
            None => forall|k: int| 0 <= k < pairs.len() ==> !matches_at(text, i, pairs[k].0),
        },
    decreases pairs.len(),
{
    if pairs.len() == 0 {
    } else if matches_at(text, i, pairs[0].0) {
    } else {
        lemma_match_index_at(text, i, pairs.skip(1));
        match match_index_at(text, i, pairs.skip(1)) {
            Some(m) => {
                assert(pairs.skip(1)[m] == pairs[m + 1]);
                assert forall|k: int| 0 <= k < m + 1 implies !matches_at(text, i, pairs[k].0) by {
                    if k > 0 {
                        assert(pairs.skip(1)[k - 1] == pairs[k]);
                        assert(!matches_at(text, i, pairs.skip(1)[k - 1].0));
                    }
                };
            },
            None => {
                assert forall|k: int| 0 <= k < pairs.len() implies !matches_at(
                    text,
                    i,
                    pairs[k].0,
                ) by {
                    if k > 0 {
                        assert(pairs.skip(1)[k - 1] == pairs[k]);
                        assert(!matches_at(text, i, pairs.skip(1)[k - 1].0));
                    }
                };
            },
        }
    }
}

/// The simultaneous replacement of `pairs` in `text` from position `i` on:
/// at each position the first matching pair's replacement is emitted and
/// the search string's length is skipped, so replacement text is never
/// scanned again; where nothing matches, the original character stands.
pub open spec fn replace_from(
    text: Seq<char>,
    pairs: Seq<(Seq<char>, Seq<char>)>,
    i: int,
) -> Seq<char>
    decreases text.len() - i,
    when 0 <= i
    via replace_from_decreases
{
    if i >= text.len() {
        Seq::empty()
    } else {
        match match_index_at(text, i, pairs) {
            Some(j) => pairs[j].1 + replace_from(text, pairs, i + pairs[j].0.len()),
            None => seq![text[i]] + replace_from(text, pairs, i + 1),
        }
    }
}

#[via_fn]
proof fn replace_from_decreases(text: Seq<char>, pairs: Seq<(Seq<char>, Seq<char>)>, i: int) {
    lemma_match_index_at(text, i, pairs);
}

/// The result of applying the whole substitution set to `text` as one
/// simultaneous pass over the original text.
pub open spec fn simul_replace(text: Seq<char>, pairs: Seq<(Seq<char>, Seq<char>)>) -> Seq<char> {
    replace_from(text, pairs, 0)
}

/// The views of a list of search/replacement string pairs.
pub open spec fn pairs_view(ps: Seq<(String, String)>) -> Seq<(Seq<char>, Seq<char>)> {
    ps.map_values(|p: (String, String)| (p.0@, p.1@))
}

/// Whether the search string of `pat` occurs in `text` at position `i`,
/// compared character by character.
fn matches_at_exec(text: &str, i: usize, pat: &str) -> (r: bool)
    requires
        i <= text@.len(),
    ensures
        r == matches_at(text@, i as int, pat@),
{
    let tn = text.unicode_len();
    let pn = pat.unicode_len();
    if pn == 0 {
        return false;
    }
    if pn > tn - i {
        return false;
    }
    let mut k: usize = 0;
    while k < pn
        invariant
            0 <= k <= pn,
            i + pn <= tn,
            tn == text@.len(),
            pn == pat@.len(),
            pn > 0,
            forall|j: int| 0 <= j < k ==> text@[i + j] == pat@[j],
        decreases pn - k,
    {
        if text.get_char(i + k) != pat.get_char(k) {
            proof {
                assert(text@.subrange(i as int, i + pn)[k as int] != pat@[k as int]);
            }
            return false;
        }
        k = k + 1;
    }
    proof {
        assert(text@.subrange(i as int, i + pn) =~= pat@);
    }
    true
}

/// The first pair of `replacer` whose search string matches `text` at
/// position `i`, if any.
fn find_match(text: &str, i: usize, replacer: &Vec<(String, String)>) -> (r: Option<usize>)
    requires
        i <= text@.len(),
    ensures
        match r {
            Some(j) => j < replacer@.len() && match_index_at(text@, i as int, pairs_view(replacer@))
                == Some(j as int),
            None => match_index_at(text@, i as int, pairs_view(replacer@)) is None,
        },
{
    let ghost pv = pairs_view(replacer@);
    let mut j: usize = 0;
    while j < replacer.len()
        invariant
            0 <= j <= replacer@.len(),
            i <= text@.len(),
            pv == pairs_view(replacer@),
            forall|k: int| 0 <= k < j ==> !matches_at(text@, i as int, pv[k].0),
        decreases replacer@.len() - j,
    {
        let pat: &String = &replacer[j].0;
        proof {
            assert(pv[j as int] == (replacer@[j as int].0@, replacer@[j as int].1@));
            assert(pat@ == pv[j as int].0);
        }
        if matches_at_exec(text, i, pat.as_str()) {
            proof {
                lemma_match_index_at(text@, i as int, pv);
                match match_index_at(text@, i as int, pv) {
                    Some(m) => {
                        assert(!(m < j)) by {
                            if m < j {
                                assert(!matches_at(text@, i as int, pv[m].0));
                            }
                        };
                        assert(!(m > j)) by {
                            if m > j {
                                assert(!matches_at(text@, i as int, pv[j as int].0));
                            }
                        };
                    },
                    None => {
                        assert(!matches_at(text@, i as int, pv[j as int].0));
                    },
                }
            }
            return Some(j);
        }
        j = j + 1;
    }
    proof {
        lemma_match_index_at(text@, i as int, pv);
    }
    None
}

/// Applies the whole substitution set to `content` as one simultaneous
/// pass: every non-overlapping leftmost occurrence of a search string is
/// replaced against the original text, replacement output is never
/// re-matched, and at one position the pair listed first wins.
pub fn replace_content(content: &str, replacer: &Vec<(String, String)>) -> (r: String)
    ensures
        r@ == simul_replace(content@, pairs_view(replacer@)),
{
    let ghost pv = pairs_view(replacer@);
    let n = content.unicode_len();
    let mut out = String::new();
    let mut i: usize = 0;
    while i < n
        invariant
            0 <= i <= n,
            n == content@.len(),
            pv == pairs_view(replacer@),
            out@ + replace_from(content@, pv, i as int) == replace_from(content@, pv, 0),
        decreases n - i,
    {
        match find_match(content, i, replacer) {
            Some(j) => {
                proof {
                    lemma_match_index_at(content@, i as int, pv);
                }
                let pl = replacer[j].0.as_str().unicode_len();
                let ghost prev = out@;
                out.append(replacer[j].1.as_str());
                proof {
                    assert(replace_from(content@, pv, i as int) == pv[j as int].1 + replace_from(
                        content@,
                        pv,
                        i + pl,
                    ));
                    assert((prev + pv[j as int].1) + replace_from(content@, pv, i + pl) =~= prev + (
                    pv[j as int].1 + replace_from(content@, pv, i + pl)));
                }
                i = i + pl;
            },
            None => {
                let ghost prev = out@;
                out.append(content.substring_char(i, i + 1));
                proof {
                    assert(content@.subrange(i as int, i + 1) =~= seq![content@[i as int]]);
                    assert(replace_from(content@, pv, i as int) == seq![content@[i as int]]
                        + replace_from(content@, pv, i + 1));
                    assert((prev + seq![content@[i as int]]) + replace_from(content@, pv, i + 1)
                        =~= prev + (seq![content@[i as int]] + replace_from(content@, pv, i + 1)));
                }
                i = i + 1;
            },
        }
    }
    proof {
        assert(out@ + replace_from(content@, pv, n as int) =~= out@);
    }
    out
}

/// A text in which no search string occurs at any position is left
/// unchanged by the simultaneous replacement.
pub proof fn lemma_replace_no_match(text: Seq<char>, pairs: Seq<(Seq<char>, Seq<char>)>)
    requires
        forall|i: int, k: int|
            0 <= i < text.len() && 0 <= k < pairs.len() ==> !matches_at(text, i, pairs[k].0),
    ensures
        simul_replace(text, pairs) == text,
{
    lemma_replace_no_match_from(text, pairs, 0);
    assert(text.skip(0) =~= text);
}

proof fn lemma_replace_no_match_from(text: Seq<char>, pairs: Seq<(Seq<char>, Seq<char>)>, i: int)
    requires
        0 <= i <= text.len(),
        forall|p: int, k: int|
            0 <= p < text.len() && 0 <= k < pairs.len() ==> !matches_at(text, p, pairs[k].0),
    ensures
        replace_from(text, pairs, i) == text.skip(i),
    decreases text.len() - i,
{
    if i >= text.len() {
        assert(replace_from(text, pairs, i) =~= text.skip(i));
    } else {
        lemma_match_index_at(text, i, pairs);
        lemma_replace_no_match_from(text, pairs, i + 1);
        assert(seq![text[i]] + text.skip(i + 1) =~= text.skip(i));
    }
}

/// With an empty substitution set every text is left unchanged.
pub proof fn lemma_replace_empty(text: Seq<char>)
    ensures
        simul_replace(text, Seq::empty()) == text,
{
    lemma_replace_no_match(text, Seq::empty());
}

} // verus!
