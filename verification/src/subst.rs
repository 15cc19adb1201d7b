//! Construction of the substitution set from the manifest: for each
//! replace base, every manifest entry whose old and new paths lie strictly
//! inside the base contributes the pattern-expanded variants of its
//! base-relative paths, paired positionally. The skip list plays no part
//! here, so a skipped file's old name is still substitutable as a target
//! wherever it is referenced.

use crate::Error;
use crate::manifest::Manifest;
use crate::paths::strip_base_spec;
use crate::paths::strip_base;
use crate::replace::pairs_view;
use crate::replace::replace_content;
use crate::replace::simul_replace;
use vstd::prelude::*;
use vstd::string::StrSliceExecFns;
use vstd::string::StringExecFns;

verus! {

/// Whether `suffix` is a suffix of `s`.
pub open spec fn is_suffix_of(suffix: Seq<char>, s: Seq<char>) -> bool {
    suffix.len() <= s.len() && s.skip(s.len() - suffix.len()) == suffix
}

/// Tests whether `s` ends with `suffix`, character by character.
fn ends_with_str(s: &str, suffix: &str) -> (r: bool)
    ensures
        r == is_suffix_of(suffix@, s@),
{
    let sn = s.unicode_len();
    let sufn = suffix.unicode_len();
    if sufn > sn {
        return false;
    }
    let off = sn - sufn;
    let mut k: usize = 0;
    while k < sufn
        invariant
            0 <= k <= sufn,
            sufn <= sn,
            off == sn - sufn,
            sn == s@.len(),
            sufn == suffix@.len(),
            forall|j: int| 0 <= j < k ==> s@[off + j] == suffix@[j],
        decreases sufn - k,
    {
        if s.get_char(off + k) != suffix.get_char(k) {
            proof {
                assert(s@.skip(s@.len() - suffix@.len())[k as int] != suffix@[k as int]);
            }
            return false;
        }
        k = k + 1;
    }
    proof {
        assert(s@.skip(s@.len() - suffix@.len()) =~= suffix@);
    }
    true
}

/// `s` wrapped in double quotation marks.
pub open spec fn quoted(s: Seq<char>) -> Seq<char> {
    seq!['"'] + s + seq!['"']
}

/// Wraps a string in double quotation marks.
fn quote_string(s: &str) -> (r: String)
    ensures
        r@ == quoted(s@),
{
    let mut out = String::new();
    out.append("\"");
    out.append(s);
    out.append("\"");
    proof {
        reveal_strlit("\"");
        assert("\""@ =~= seq!['"']);
        assert(out@ =~= quoted(s@));
    }
    out
}

/// A pattern expander: a pure mapping from one base-relative path string to
/// the list of literal text variants to substitute for it. Callers choose
/// the wrapping rule; the variant lists of an entry's old and new path are
/// paired positionally.
pub trait Expander {
    /// The variants derived from one relative path.
    spec fn spec_expand(&self, s: Seq<char>) -> Seq<Seq<char>>;

    /// Computes the variants of `s`; the result is exactly `spec_expand`.
    fn expand(&self, s: &String) -> (r: Vec<String>)
        ensures
            r@.len() == self.spec_expand(s@).len(),
            forall|j: int| 0 <= j < r@.len() ==> r@[j]@ == self.spec_expand(s@)[j],
    ;
}

/// The expander that substitutes the raw relative path itself.
pub struct RawExpander {}

impl Expander for RawExpander {
    open spec fn spec_expand(&self, s: Seq<char>) -> Seq<Seq<char>> {
        seq![s]
    }

    fn expand(&self, s: &String) -> (r: Vec<String>) {
        let mut v: Vec<String> = Vec::new();
        v.push(s.clone());
        proof {
            assert(v@.len() == self.spec_expand(s@).len());
            assert(v@[0]@ == self.spec_expand(s@)[0]);
        }
        v
    }
}

/// The expander that substitutes only the quoted-string form of a path, so
/// that string literals in generated code are rewritten; a path ending in
/// the protected suffix passes through unwrapped and is matched verbatim.
pub struct QuoteExpander {
    /// A path ending in this suffix is matched as bare text, not quoted.
    pub protected_suffix: String,
}

impl Expander for QuoteExpander {
    open spec fn spec_expand(&self, s: Seq<char>) -> Seq<Seq<char>> {
        if is_suffix_of(self.protected_suffix@, s) {
            seq![s]
        } else {
            seq![quoted(s)]
        }
    }

    fn expand(&self, s: &String) -> (r: Vec<String>) {
        let mut v: Vec<String> = Vec::new();
        if ends_with_str(s.as_str(), self.protected_suffix.as_str()) {
            v.push(s.clone());
        } else {
            v.push(quote_string(s.as_str()));
        }
        proof {
            assert(v@.len() == self.spec_expand(s@).len());
            assert(v@[0]@ == self.spec_expand(s@)[0]);
        }
        v
    }
}

/// The expander that substitutes both the raw relative path and its quoted
/// form; a path ending in the protected suffix contributes only the raw
/// variant.
pub struct QuoteAndRawExpander {
    /// A path ending in this suffix contributes only its raw variant.
    pub protected_suffix: String,
}

impl Expander for QuoteAndRawExpander {
    open spec fn spec_expand(&self, s: Seq<char>) -> Seq<Seq<char>> {
        if is_suffix_of(self.protected_suffix@, s) {
            seq![s]
        } else {
            seq![s, quoted(s)]
        }
    }

    fn expand(&self, s: &String) -> (r: Vec<String>) {
        let mut v: Vec<String> = Vec::new();
        if ends_with_str(s.as_str(), self.protected_suffix.as_str()) {
            v.push(s.clone());
            proof {
                assert(v@[0]@ == self.spec_expand(s@)[0]);
            }
        } else {
            v.push(s.clone());
            v.push(quote_string(s.as_str()));
            proof {
                assert(v@[0]@ == self.spec_expand(s@)[0]);
                assert(v@[1]@ == self.spec_expand(s@)[1]);
            }
        }
        v
    }
}

/// The substitution pairs one manifest entry contributes under one replace
/// base: when both its old and its new path lie strictly inside the base,
/// the expanded variants of the base-relative paths, paired positionally;
/// otherwise nothing.
pub open spec fn entry_pairs<E: Expander>(
    ex: E,
    base: Seq<char>,
    oldp: Seq<char>,
    newp: Seq<char>,
) -> Seq<(Seq<char>, Seq<char>)> {
    match (strip_base_spec(base, oldp), strip_base_spec(base, newp)) {
        (Some(o), Some(n)) => Seq::new(
            ex.spec_expand(o).len(),
            |k: int| (ex.spec_expand(o)[k], ex.spec_expand(n)[k]),
        ),
        _ => Seq::empty(),
    }
}

/// Whether the expander violates its pairing contract on one entry under
/// one base: both paths lie inside the base but their variant lists have
/// different lengths.
pub open spec fn entry_mismatch<E: Expander>(
    ex: E,
    base: Seq<char>,
    oldp: Seq<char>,
    newp: Seq<char>,
) -> bool {
    match (strip_base_spec(base, oldp), strip_base_spec(base, newp)) {
        (Some(o), Some(n)) => ex.spec_expand(o).len() != ex.spec_expand(n).len(),
        _ => false,
    }
}

/// The substitution pairs of all manifest entries under one base, in
/// manifest order.
pub open spec fn subs_for_base<E: Expander>(
    ex: E,
    base: Seq<char>,
    entries: Seq<(Seq<char>, Seq<char>)>,
) -> Seq<(Seq<char>, Seq<char>)>
    decreases entries.len(),
{
    if entries.len() == 0 {
        Seq::empty()
    } else {
        subs_for_base(ex, base, entries.drop_last()) + entry_pairs(
            ex,
            base,
            entries.last().0,
            entries.last().1,
        )
    }
}

/// Whether some entry violates the pairing contract under `base`.
pub open spec fn base_mismatch<E: Expander>(
    ex: E,
    base: Seq<char>,
    entries: Seq<(Seq<char>, Seq<char>)>,
) -> bool {
    exists|k: int| 0 <= k < entries.len() && entry_mismatch(ex, base, entries[k].0, entries[k].1)
}

/// The whole substitution set: the pairs of every base in order, earlier
/// bases first, so that with the empty base listed first root-relative
/// references are preferred.
pub open spec fn all_subs<E: Expander>(
    ex: E,
    bases: Seq<Seq<char>>,
    entries: Seq<(Seq<char>, Seq<char>)>,
) -> Seq<(Seq<char>, Seq<char>)>
    decreases bases.len(),
{
    if bases.len() == 0 {
        Seq::empty()
    } else {
        all_subs(ex, bases.drop_last(), entries) + subs_for_base(ex, bases.last(), entries)
    }
}

/// Whether some entry violates the pairing contract under some base.
pub open spec fn has_mismatch<E: Expander>(
    ex: E,
    bases: Seq<Seq<char>>,
    entries: Seq<(Seq<char>, Seq<char>)>,
) -> bool {
    exists|b: int| 0 <= b < bases.len() && base_mismatch(ex, bases[b], entries)
}

/// An empty base list means the root alone: it is normalized to the single
/// empty base.
pub open spec fn normalized_bases(bases: Seq<String>) -> Seq<Seq<char>> {
    if bases.len() == 0 {
        seq![Seq::<char>::empty()]
    } else {
        bases.map_values(|b: String| b@)
    }
}

/// Appends the pairs one entry contributes under one base; `false` reports
/// a pairing violation of the expander, and the set is abandoned.
fn push_entry_pairs<E: Expander>(
    expander: &E,
    base: &String,
    oldp: &String,
    newp: &String,
    subs: &mut Vec<(String, String)>,
) -> (ok: bool)
    ensures
        ok ==> ({
            let ep = entry_pairs(*expander, base@, oldp@, newp@);
            &&& !entry_mismatch(*expander, base@, oldp@, newp@)
            &&& final(subs)@.len() == old(subs)@.len() + ep.len()
            &&& (forall|j: int| 0 <= j < old(subs)@.len() ==> final(subs)@[j] == old(subs)@[j])
            &&& (forall|j: int|
                0 <= j < ep.len() ==> (final(subs)@[old(subs)@.len() + j].0@, final(subs)@[old(
                    subs,
                )@.len() + j].1@) == ep[j])
        }),
        !ok ==> entry_mismatch(*expander, base@, oldp@, newp@),
{
    let stripped_old = strip_base(base.as_str(), oldp.as_str());
    match stripped_old {
        Some(o) => {
            let stripped_new = strip_base(base.as_str(), newp.as_str());
            match stripped_new {
                Some(n) => {
                    let olds = expander.expand(&o);
                    let news = expander.expand(&n);
                    if olds.len() != news.len() {
                        return false;
                    }
                    let ghost ep = entry_pairs(*expander, base@, oldp@, newp@);
                    proof {
                        assert(ep.len() == olds@.len());
                        assert(forall|j: int|
                            0 <= j < ep.len() ==> ep[j] == (
                                expander.spec_expand(o@)[j],
                                expander.spec_expand(n@)[j],
                            ));
                    }
                    let ghost start = subs@.len();
                    let mut t: usize = 0;
                    while t < olds.len()
                        invariant
                            0 <= t <= olds@.len(),
                            olds@.len() == news@.len(),
                            start == old(subs)@.len(),
                            ep == entry_pairs(*expander, base@, oldp@, newp@),
                            ep.len() == olds@.len(),
                            forall|j: int| 0 <= j < ep.len() ==> ep[j] == (olds@[j]@, news@[j]@),
                            subs@.len() == start + t,
                            forall|j: int| 0 <= j < start ==> subs@[j] == old(subs)@[j],
                            forall|j: int|
                                0 <= j < t ==> (subs@[start + j].0@, subs@[start + j].1@) == ep[j],
                        decreases olds@.len() - t,
                    {
                        subs.push((olds[t].clone(), news[t].clone()));
                        t = t + 1;
                    }
                    true
                },
                None => {
                    proof {
                        assert(entry_pairs(*expander, base@, oldp@, newp@) =~= Seq::<(
                            Seq<char>,
                            Seq<char>,
                        )>::empty());
                    }
                    true
                },
            }
        },
        None => {
            proof {
                assert(entry_pairs(*expander, base@, oldp@, newp@) =~= Seq::<(
                    Seq<char>,
                    Seq<char>,
                )>::empty());
            }
            true
        },
    }
}

/// Appends the pairs all manifest entries contribute under one base.
fn push_base_subs<E: Expander>(
    expander: &E,
    base: &String,
    manifest: &Manifest,
    subs: &mut Vec<(String, String)>,
) -> (ok: bool)
    ensures
        ok ==> ({
            let sb = subs_for_base(*expander, base@, pairs_view(manifest.entries@));
            &&& !base_mismatch(*expander, base@, pairs_view(manifest.entries@))
            &&& final(subs)@.len() == old(subs)@.len() + sb.len()
            &&& (forall|j: int| 0 <= j < old(subs)@.len() ==> final(subs)@[j] == old(subs)@[j])
            &&& (forall|j: int|
                0 <= j < sb.len() ==> (final(subs)@[old(subs)@.len() + j].0@, final(subs)@[old(
                    subs,
                )@.len() + j].1@) == sb[j])
        }),
        !ok ==> base_mismatch(*expander, base@, pairs_view(manifest.entries@)),
{
    let ghost es = pairs_view(manifest.entries@);
    let ghost start = subs@.len();
    let mut k: usize = 0;
    while k < manifest.entries.len()
        invariant
            0 <= k <= es.len(),
            es == pairs_view(manifest.entries@),
            start == old(subs)@.len(),
            subs@.len() == start + subs_for_base(*expander, base@, es.take(k as int)).len(),
            forall|j: int| 0 <= j < start ==> subs@[j] == old(subs)@[j],
            forall|j: int|
                0 <= j < subs_for_base(*expander, base@, es.take(k as int)).len() ==> (subs@[start
                    + j].0@, subs@[start + j].1@) == subs_for_base(
                    *expander,
                    base@,
                    es.take(k as int),
                )[j],
            forall|kk: int| 0 <= kk < k ==> !entry_mismatch(*expander, base@, es[kk].0, es[kk].1),
        decreases es.len() - k,
    {
        let ghost prev = es.take(k as int);
        let ghost cur = es.take(k + 1);
        proof {
            assert(es[k as int] == (manifest.entries@[k as int].0@, manifest.entries@[k as int].1@));
            assert(cur.drop_last() =~= prev);
            assert(cur.last() == es[k as int]);
        }
        let entry_old: &String = &manifest.entries[k].0;
        let entry_new: &String = &manifest.entries[k].1;
        if !push_entry_pairs(expander, base, entry_old, entry_new, subs) {
            return false;
        }
        k = k + 1;
    }
    proof {
        assert(es.take(es.len() as int) =~= es);
    }
    true
}

/// Builds the whole substitution set from the manifest: for each replace
/// base in order — the empty root base alone when none is given — every
/// entry lying strictly inside the base contributes its expanded old/new
/// variants, paired positionally. Fails exactly when the expander returns
/// variant lists of different lengths for some entry's old and new path.
pub fn build_substitutions<E: Expander>(
    bases: &Vec<String>,
    manifest: &Manifest,
    expander: &E,
) -> (r: Result<Vec<(String, String)>, Error>)
    ensures
        ({
            let bs = normalized_bases(bases@);
            let es = pairs_view(manifest.entries@);
            match r {
                Ok(subs) => {
                    &&& !has_mismatch(*expander, bs, es)
                    &&& subs@.len() == all_subs(*expander, bs, es).len()
                    &&& (forall|j: int|
                        0 <= j < subs@.len() ==> (subs@[j].0@, subs@[j].1@) == all_subs(
                            *expander,
                            bs,
                            es,
                        )[j])
                },
                Err(e) => e == Error::ExpanderMismatch && has_mismatch(*expander, bs, es),
            }
        }),
{
    let ghost es = pairs_view(manifest.entries@);
    let ghost bs = normalized_bases(bases@);
    let mut subs: Vec<(String, String)> = Vec::new();
    if bases.len() == 0 {
        let root = String::new();
        let ok = push_base_subs(expander, &root, manifest, &mut subs);
        proof {
            assert(bs =~= seq![Seq::<char>::empty()]);
            assert(bs.drop_last() =~= Seq::<Seq<char>>::empty());
            assert(root@ == bs.last());
            assert(all_subs(*expander, bs, es) == all_subs(*expander, bs.drop_last(), es)
                + subs_for_base(*expander, bs.last(), es));
            assert(all_subs(*expander, bs.drop_last(), es) =~= Seq::<(Seq<char>, Seq<char>)>::empty());
        }
        if !ok {
            return Err(Error::ExpanderMismatch);
        }
        proof {
            assert(all_subs(*expander, bs, es) =~= subs_for_base(*expander, bs.last(), es));
        }
        Ok(subs)
    } else {
        let mut b: usize = 0;
        while b < bases.len()
            invariant
                0 <= b <= bases@.len(),
                bases@.len() > 0,
                es == pairs_view(manifest.entries@),
                bs == normalized_bases(bases@),
                bs.len() == bases@.len(),
                forall|x: int| 0 <= x < bs.len() ==> bs[x] == bases@[x]@,
                subs@.len() == all_subs(*expander, bs.take(b as int), es).len(),
                forall|j: int|
                    0 <= j < subs@.len() ==> (subs@[j].0@, subs@[j].1@) == all_subs(
                        *expander,
                        bs.take(b as int),
                        es,
                    )[j],
                forall|x: int| 0 <= x < b ==> !base_mismatch(*expander, bs[x], es),
            decreases bases@.len() - b,
        {
            let ghost prev = bs.take(b as int);
            let ghost cur = bs.take(b + 1);
            proof {
                assert(cur.drop_last() =~= prev);
                assert(cur.last() == bs[b as int]);
            }
            let base: &String = &bases[b];
            if !push_base_subs(expander, base, manifest, &mut subs) {
                return Err(Error::ExpanderMismatch);
            }
            b = b + 1;
        }
        proof {
            assert(bs.take(bs.len() as int) =~= bs);
        }
        Ok(subs)
    }
}

/// Applies the substitution set to one file's text: the changed content
/// when the simultaneous replacement alters it, and nothing when the
/// content is unchanged, so no needless write is performed.
pub fn rewrite_file_content(content: &String, subs: &Vec<(String, String)>) -> (r: Option<String>)
    ensures
        ({
            let rep = simul_replace(content@, pairs_view(subs@));
            &&& (r is Some <==> rep != content@)
            &&& (r is Some ==> r.unwrap()@ == rep)
        }),
{
    let out = replace_content(content.as_str(), subs);
    if out.eq(content) {
        None
    } else {
        Some(out)
    }
}

/// An entry whose old or new path lies outside one base contributes no
/// pair under that base.
pub proof fn lemma_entry_outside_base_contributes_nothing<E: Expander>(
    ex: E,
    base: Seq<char>,
    oldp: Seq<char>,
    newp: Seq<char>,
)
    requires
        strip_base_spec(base, oldp) is None || strip_base_spec(base, newp) is None,
    ensures
        entry_pairs(ex, base, oldp, newp) == Seq::<(Seq<char>, Seq<char>)>::empty(),
{
    assert(entry_pairs(ex, base, oldp, newp) =~= Seq::<(Seq<char>, Seq<char>)>::empty());
}

proof fn lemma_subs_for_base_remove<E: Expander>(
    ex: E,
    base: Seq<char>,
    entries: Seq<(Seq<char>, Seq<char>)>,
    i: int,
)
    requires
        0 <= i < entries.len(),
        entry_pairs(ex, base, entries[i].0, entries[i].1) == Seq::<(Seq<char>, Seq<char>)>::empty(),
    ensures
        subs_for_base(ex, base, entries.remove(i)) == subs_for_base(ex, base, entries),
    decreases entries.len(),
{
    if i == entries.len() - 1 {
        assert(entries.remove(i) =~= entries.drop_last());
        assert(subs_for_base(ex, base, entries) =~= subs_for_base(ex, base, entries.drop_last()));
    } else {
        let shorter = entries.drop_last();
        assert(entries.remove(i).drop_last() =~= shorter.remove(i));
        assert(entries.remove(i).last() == entries.last());
        lemma_subs_for_base_remove(ex, base, shorter, i);
    }
}

/// Base-path scoping: a manifest entry whose old or new path lies outside
/// every replace base contributes no substitution pair — removing the
/// entry leaves the whole substitution set unchanged.
pub proof fn lemma_entry_outside_all_bases_contributes_nothing<E: Expander>(
    ex: E,
    bases: Seq<Seq<char>>,
    entries: Seq<(Seq<char>, Seq<char>)>,
    i: int,
)
    requires
        0 <= i < entries.len(),
        forall|b: int|
            0 <= b < bases.len() ==> strip_base_spec(bases[b], entries[i].0) is None
                || strip_base_spec(bases[b], entries[i].1) is None,
    ensures
        all_subs(ex, bases, entries.remove(i)) == all_subs(ex, bases, entries),
    decreases bases.len(),
{
    if bases.len() > 0 {
        lemma_entry_outside_all_bases_contributes_nothing(ex, bases.drop_last(), entries, i);
        lemma_entry_outside_base_contributes_nothing(
            ex,
            bases.last(),
            entries[i].0,
            entries[i].1,
        );
        lemma_subs_for_base_remove(ex, bases.last(), entries, i);
    }
}

} // verus!
