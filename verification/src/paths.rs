//! Pure operations on `/`-separated path strings: file-name extraction,
//! stem/extension splitting, replace-base stripping and skip-list tests.
//! Paths handed to this library are relative to the processed root.

use vstd::prelude::*;
use vstd::string::StrSliceExecFns;
use vstd::string::StringExecFns;

verus! {

/// Index of the last occurrence of `c` in `s` at position `lo` or later,
/// if any.
pub open spec fn last_index_at_least(s: Seq<char>, c: char, lo: nat) -> Option<int>
    decreases s.len(),
{
    if s.len() <= lo {
        None
    } else if s.last() == c {
        Some(s.len() - 1)
    } else {
        last_index_at_least(s.drop_last(), c, lo)
    }
}

/// What `last_index_at_least` returns: the largest index at or after `lo`
/// holding `c`, or `None` when no such index exists.
pub proof fn lemma_last_index_at_least(s: Seq<char>, c: char, lo: nat)
    ensures
        match last_index_at_least(s, c, lo) {
            Some(i) => lo <= i < s.len() && s[i] == c && (forall|j: int|
                i < j < s.len() ==> s[j] != c),
            None => forall|j: int| lo <= j < s.len() ==> s[j] != c,
        },
    decreases s.len(),
{
    if s.len() <= lo {
    } else if s.last() == c {
    } else {
        lemma_last_index_at_least(s.drop_last(), c, lo);
        assert(forall|j: int| 0 <= j < s.len() - 1 ==> s.drop_last()[j] == s[j]);
    }
}

/// Index of the last `.` in a file name, not counting a dot that is the
/// first character: `a.b.css` splits into stem `a.b` and extension `css`,
/// while `README` and `.gitignore` have no extension.
pub open spec fn last_dot_index(name: Seq<char>) -> Option<int> {
    last_index_at_least(name, '.', 1)
}

/// The stem of a file name: everything before the last dot, or the whole
/// name when it has no extension.
pub open spec fn stem_of(name: Seq<char>) -> Seq<char> {
    match last_dot_index(name) {
        Some(i) => name.take(i),
        None => name,
    }
}

/// The extension of a file name: everything after the last dot, or empty
/// when the name has no dot past its first character.
pub open spec fn ext_of(name: Seq<char>) -> Seq<char> {
    match last_dot_index(name) {
        Some(i) => name.skip(i + 1),
        None => Seq::empty(),
    }
}

/// The directory part of a path, up to and including the final `/`; empty
/// for a bare file name.
pub open spec fn dir_part(path: Seq<char>) -> Seq<char> {
    match last_index_at_least(path, '/', 0) {
        Some(i) => path.take(i + 1),
        None => Seq::empty(),
    }
}

/// The file-name part of a path: everything after the final `/`, or the
/// whole path when it has none.
pub open spec fn file_name_of(path: Seq<char>) -> Seq<char> {
    match last_index_at_least(path, '/', 0) {
        Some(i) => path.skip(i + 1),
        None => path,
    }
}

/// Index of the last occurrence of `c` at position `lo` or later, found by
/// scanning backwards.
fn find_last_at_least(s: &str, c: char, lo: usize) -> (r: Option<usize>)
    ensures
        match r {
            Some(i) => last_index_at_least(s@, c, lo as nat) == Some(i as int),
            None => last_index_at_least(s@, c, lo as nat) is None,
        },
{
    proof {
        lemma_last_index_at_least(s@, c, lo as nat);
    }
    let n = s.unicode_len();
    if n <= lo {
        return None;
    }
    let mut i: usize = n;
    while i > lo
        invariant
            lo <= i <= n,
            n == s@.len(),
            forall|j: int| i <= j < s@.len() ==> s@[j] != c,
        decreases i,
    {
        i = i - 1;
        if s.get_char(i) == c {
            proof {
                lemma_last_index_at_least(s@, c, lo as nat);
                match last_index_at_least(s@, c, lo as nat) {
                    Some(k) => {
                        assert(!(k < i)) by {
                            if k < i {
                                assert(s@[i as int] != c);
                            }
                        };
                        assert(!(k > i)) by {
                            if k > i {
                                assert(s@[k] != c);
                            }
                        };
                    },
                    None => {
                        assert(s@[i as int] != c);
                    },
                }
            }
            return Some(i);
        }
    }
    None
}

/// Splits a file name into its stem and extension.
pub fn split_file_name(name: &str) -> (r: (String, String))
    ensures
        r.0@ == stem_of(name@),
        r.1@ == ext_of(name@),
{
    let n = name.unicode_len();
    match find_last_at_least(name, '.', 1) {
        Some(i) => {
            proof {
                lemma_last_index_at_least(name@, '.', 1);
            }
            let stem = name.substring_char(0, i).to_owned();
            let ext = name.substring_char(i + 1, n).to_owned();
            proof {
                assert(stem@ =~= stem_of(name@));
                assert(ext@ =~= ext_of(name@));
            }
            (stem, ext)
        },
        None => {
            let stem = name.to_owned();
            let ext = String::new();
            proof {
                assert(ext@ =~= ext_of(name@));
            }
            (stem, ext)
        },
    }
}

/// The renamed file name: `{stem}.{digest}.{ext}` when the extension is
/// non-empty, else `{stem}.{digest}`.
pub open spec fn new_name_spec(name: Seq<char>, digest: Seq<char>) -> Seq<char> {
    if ext_of(name).len() > 0 {
        stem_of(name) + seq!['.'] + digest + seq!['.'] + ext_of(name)
    } else {
        stem_of(name) + seq!['.'] + digest
    }
}

/// Composes the renamed file name by inserting the digest before the final
/// extension of the original name.
pub fn new_file_name(name: &str, digest: &str) -> (r: String)
    ensures
        r@ == new_name_spec(name@, digest@),
{
    let (stem, ext) = split_file_name(name);
    let mut out = stem;
    out.append(".");
    out.append(digest);
    if ext.as_str().unicode_len() > 0 {
        out.append(".");
        out.append(ext.as_str());
    }
    proof {
        reveal_strlit(".");
        assert("."@ =~= seq!['.']);
        assert(out@ =~= new_name_spec(name@, digest@));
    }
    out
}

/// The stem and the extension reassemble the name they were split from,
/// so renaming preserves the stem/extension split around the digest.
pub proof fn lemma_split_rejoins(name: Seq<char>)
    ensures
        last_dot_index(name) is Some ==> stem_of(name) + seq!['.'] + ext_of(name) == name,
        last_dot_index(name) is None ==> stem_of(name) == name && ext_of(name).len() == 0,
{
    lemma_last_index_at_least(name, '.', 1);
    match last_dot_index(name) {
        Some(i) => {
            assert(stem_of(name) + seq!['.'] + ext_of(name) =~= name);
        },
        None => {
        },
    }
}

/// Renaming never changes a file's bytes, so hashing the renamed file
/// again yields the eight-character digest segment that its new name
/// already embeds, verbatim, right after the original stem and its dot.
pub proof fn lemma_new_name_embeds_digest(name: Seq<char>, digest: Seq<char>)
    requires
        digest.len() == 8,
    ensures
        new_name_spec(name, digest).subrange(
            stem_of(name).len() as int + 1,
            stem_of(name).len() as int + 9,
        ) == digest,
{
    assert(new_name_spec(name, digest).subrange(
        stem_of(name).len() as int + 1,
        stem_of(name).len() as int + 9,
    ) =~= digest);
}

/// The path obtained by replacing the file-name part of `path` with
/// `new_name`, leaving its directory part as it is.
pub fn with_file_name(path: &str, new_name: &str) -> (r: String)
    ensures
        r@ == dir_part(path@) + new_name@,
{
    let n = path.unicode_len();
    match find_last_at_least(path, '/', 0) {
        Some(i) => {
            proof {
                lemma_last_index_at_least(path@, '/', 0);
            }
            let mut out = path.substring_char(0, i + 1).to_owned();
            out.append(new_name);
            proof {
                assert(out@ =~= dir_part(path@) + new_name@);
            }
            out
        },
        None => {
            let out = new_name.to_owned();
            proof {
                assert(out@ =~= dir_part(path@) + new_name@);
            }
            out
        },
    }
}

/// The file-name part of a path.
pub fn file_name(path: &str) -> (r: String)
    ensures
        r@ == file_name_of(path@),
{
    let n = path.unicode_len();
    match find_last_at_least(path, '/', 0) {
        Some(i) => {
            proof {
                lemma_last_index_at_least(path@, '/', 0);
            }
            let r = path.substring_char(i + 1, n).to_owned();
            proof {
                assert(r@ =~= file_name_of(path@));
            }
            r
        },
        None => path.to_owned(),
    }
}

/// The remainder of `path` relative to the replace base `base`, when `path`
/// lies strictly inside the directory `base` names: the empty base holds
/// every non-empty path, and a non-empty base must be a proper `/`-ended
/// prefix of `path`.
pub open spec fn strip_base_spec(base: Seq<char>, path: Seq<char>) -> Option<Seq<char>> {
    if base.len() == 0 {
        if path.len() > 0 {
            Some(path)
        } else {
            None
        }
    } else if path.len() > base.len() + 1 && path.take(base.len() as int) == base && path[base.len() as int]
        == '/' {
        Some(path.skip(base.len() as int + 1))
    } else {
        None
    }
}

/// Strips a replace base from a path, returning the base-relative remainder
/// when the path lies strictly inside the base.
pub fn strip_base(base: &str, path: &str) -> (r: Option<String>)
    ensures
        match r {
            Some(s) => strip_base_spec(base@, path@) == Some(s@),
            None => strip_base_spec(base@, path@) is None,
        },
{
    let bn = base.unicode_len();
    let pn = path.unicode_len();
    if bn == 0 {
        if pn > 0 {
            Some(path.to_owned())
        } else {
            None
        }
    } else {
        if pn == 0 || pn - 1 <= bn {
            return None;
        }
        if path.get_char(bn) != '/' {
            return None;
        }
        let mut k: usize = 0;
        while k < bn
            invariant
                0 <= k <= bn,
                bn == base@.len(),
                pn == path@.len(),
                pn > bn + 1,
                forall|j: int| 0 <= j < k ==> path@[j] == base@[j],
            decreases bn - k,
        {
            if path.get_char(k) != base.get_char(k) {
                proof {
                    assert(path@.take(bn as int)[k as int] != base@[k as int]);
                }
                return None;
            }
            k = k + 1;
        }
        proof {
            assert(path@.take(bn as int) =~= base@);
        }
        let r = path.substring_char(bn + 1, pn).to_owned();
        Some(r)
    }
}

/// Whether `path` occurs in the skip list.
pub open spec fn in_skip(path: Seq<char>, skip: Seq<String>) -> bool {
    exists|k: int| 0 <= k < skip.len() && skip[k]@ == path
}

/// Tests a path against the skip list by exact match.
pub fn is_skipped(path: &String, skip: &Vec<String>) -> (r: bool)
    ensures
        r == in_skip(path@, skip@),
{
    let mut k: usize = 0;
    while k < skip.len()
        invariant
            0 <= k <= skip@.len(),
            forall|j: int| 0 <= j < k ==> skip@[j]@ != path@,
        decreases skip@.len() - k,
    {
        if skip[k].eq(path) {
            return true;
        }
        k = k + 1;
    }
    false
}

} // verus!
