//! Planning of the rename stage over a snapshot of the walked tree: which
//! files are renamed, what their new paths are, and the old-path to
//! new-path manifest that drives the rewrite stage.

use crate::digest::digest_of;
use crate::digest::digest_spec;
use crate::paths::dir_part;
use crate::paths::file_name;
use crate::paths::file_name_of;
use crate::paths::in_skip;
use crate::paths::is_skipped;
use crate::paths::new_file_name;
use crate::paths::new_name_spec;
use crate::paths::with_file_name;
use vstd::prelude::*;

verus! {

/// One entry of the walked tree: its path relative to the processed root,
/// what kind of entry it is, and — for a regular file — its bytes.
pub struct FileRecord {
    /// Path relative to the processed root, `/`-separated.
    pub path: String,
    /// Whether the entry is a regular file.
    pub is_file: bool,
    /// Whether the entry is a symbolic link.
    pub is_symlink: bool,
    /// The file's bytes; only read for a selected regular file.
    pub content: Vec<u8>,
}

/// Whether an entry is renamed: it must be a regular file, not a symbolic
/// link, and not listed in the skip list.
pub open spec fn selected(e: FileRecord, skip: Seq<String>) -> bool {
    e.is_file && !e.is_symlink && !in_skip(e.path@, skip)
}

/// The path a selected file is renamed to: same directory, with the digest
/// of its bytes inserted before the final extension of its name.
pub open spec fn renamed_path(e: FileRecord) -> Seq<char> {
    dir_part(e.path@) + new_name_spec(file_name_of(e.path@), digest_spec(e.content@))
}

/// The old-path to new-path mapping produced by the rename stage, in walk
/// order, one entry per renamed file.
pub struct Manifest {
    /// The `(old path, new path)` pairs, paths relative to the root.
    pub entries: Vec<(String, String)>,
}

/// Plans the rename stage over a snapshot of the walked tree: every
/// selected entry — a regular, non-symlink file not in the skip list —
/// contributes exactly one manifest entry, in walk order, mapping its path
/// to the same path with the content digest inserted into the file name.
pub fn plan_renames(files: &Vec<FileRecord>, skip: &Vec<String>) -> (m: Manifest)
    ensures
        ({
            let sel = files@.filter(|e: FileRecord| selected(e, skip@));
            &&& m.entries@.len() == sel.len()
            &&& forall|j: int|
                0 <= j < sel.len() ==> m.entries@[j].0@ == sel[j].path@ && m.entries@[j].1@
                    == renamed_path(sel[j])
        }),
{
    let ghost pred = |e: FileRecord| selected(e, skip@);
    let mut entries: Vec<(String, String)> = Vec::new();
    let mut i: usize = 0;
    while i < files.len()
        invariant
            0 <= i <= files@.len(),
            pred == (|e: FileRecord| selected(e, skip@)),
            entries@.len() == files@.take(i as int).filter(pred).len(),
            forall|j: int|
                0 <= j < entries@.len() ==> entries@[j].0@ == files@.take(i as int).filter(
                    pred,
                )[j].path@ && entries@[j].1@ == renamed_path(files@.take(i as int).filter(pred)[j]),
        decreases files@.len() - i,
    {
        let e = &files[i];
        let ghost prev = files@.take(i as int);
        let ghost cur = files@.take(i + 1);
        proof {
            reveal(Seq::filter);
            assert(cur.drop_last() =~= prev);
            assert(cur.last() == files@[i as int]);
        }
        let keep = e.is_file && !e.is_symlink && !is_skipped(&e.path, skip);
        if keep {
            let d = digest_of(&e.content);
            let fname = file_name(e.path.as_str());
            let nn = new_file_name(fname.as_str(), d.as_str());
            let np = with_file_name(e.path.as_str(), nn.as_str());
            entries.push((e.path.clone(), np));
            proof {
                reveal(Seq::filter);
                assert(cur.filter(pred) =~= prev.filter(pred).push(files@[i as int]));
            }
        } else {
            proof {
                reveal(Seq::filter);
                assert(cur.filter(pred) =~= prev.filter(pred));
            }
        }
        i = i + 1;
    }
    proof {
        assert(files@.take(files@.len() as int) =~= files@);
    }
    Manifest { entries }
}

/// Every element of a filtered sequence occurs in the sequence it was
/// filtered from.
proof fn lemma_filter_element_occurs(s: Seq<FileRecord>, pred: spec_fn(FileRecord) -> bool, a: int)
    requires
        0 <= a < s.filter(pred).len(),
    ensures
        exists|idx: int| 0 <= idx < s.len() && s[idx] == s.filter(pred)[a],
    decreases s.len(),
{
    reveal(Seq::filter);
    if s.len() > 0 {
        let prev = s.drop_last();
        if a < prev.filter(pred).len() {
            lemma_filter_element_occurs(prev, pred, a);
            let idx = choose|idx: int| 0 <= idx < prev.len() && prev[idx] == prev.filter(pred)[a];
            assert(s[idx] == s.filter(pred)[a]);
        } else {
            assert(s.filter(pred)[a] == s.last());
            assert(s[s.len() - 1] == s.filter(pred)[a]);
        }
    }
}

/// Manifest completeness, one direction: every regular, non-symlink file
/// whose path is not in the skip list is selected, so it contributes a
/// manifest entry.
pub proof fn lemma_manifest_complete(files: Seq<FileRecord>, skip: Seq<String>, i: int)
    requires
        0 <= i < files.len(),
        selected(files[i], skip),
    ensures
        files.filter(|e: FileRecord| selected(e, skip)).contains(files[i]),
{
    files.lemma_filter_contains(|e: FileRecord| selected(e, skip), i);
}

/// Manifest completeness, the other direction: when the walked paths are
/// distinct, so are the selected paths, hence every file appears at most
/// once as a manifest key.
pub proof fn lemma_selected_paths_distinct(files: Seq<FileRecord>, skip: Seq<String>)
    requires
        forall|a: int, b: int| 0 <= a < b < files.len() ==> files[a].path@ != files[b].path@,
    ensures
        ({
            let sel = files.filter(|e: FileRecord| selected(e, skip));
            forall|a: int, b: int| 0 <= a < b < sel.len() ==> sel[a].path@ != sel[b].path@
        }),
    decreases files.len(),
{
    reveal(Seq::filter);
    let pred = |e: FileRecord| selected(e, skip);
    let sel = files.filter(pred);
    if files.len() > 0 {
        let prev = files.drop_last();
        assert(forall|a: int, b: int|
            0 <= a < b < prev.len() ==> prev[a].path@ != prev[b].path@) by {
            assert(forall|a: int| 0 <= a < prev.len() ==> prev[a] == files[a]);
        }
        lemma_selected_paths_distinct(prev, skip);
        let psel = prev.filter(pred);
        if pred(files.last()) {
            assert forall|a: int| 0 <= a < psel.len() implies psel[a].path@
                != files.last().path@ by {
                lemma_filter_element_occurs(prev, pred, a);
                let idx = choose|idx: int| 0 <= idx < prev.len() && prev[idx] == psel[a];
                assert(files[idx] == psel[a]);
                assert(files[idx].path@ != files[files.len() - 1].path@);
            }
            assert(sel =~= psel.push(files.last()));
        } else {
            assert(sel =~= psel);
        }
    }
}

/// Skip-list exclusion: no selected file — hence no manifest key — is
/// listed in the skip list.
pub proof fn lemma_skip_excluded(files: Seq<FileRecord>, skip: Seq<String>, j: int)
    requires
        0 <= j < files.filter(|e: FileRecord| selected(e, skip)).len(),
    ensures
        !in_skip(files.filter(|e: FileRecord| selected(e, skip))[j].path@, skip),
{
    files.lemma_filter_pred(|e: FileRecord| selected(e, skip), j);
}

} // verus!
