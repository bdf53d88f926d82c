//! Rewriting the canonical form of a reference through an ordered mapping of
//! registry prefixes.
use vstd::prelude::*;
use crate::image::{lemma_parse_round_trip, opt_view, spec_parse, spec_serialize, ImageRef};

verus! {

/// Every non-overlapping occurrence of `from` in `s`, scanned from the left,
/// replaced by `to`. An empty `from` matches before every character and at the
/// end.
pub open spec fn replace_all(s: Seq<char>, from: Seq<char>, to: Seq<char>) -> Seq<char>
    decreases s.len(),
{
    if s.len() == 0 {
        if from.len() == 0 {
            to
        } else {
            s
        }
    } else if from.len() > 0 && from.is_prefix_of(s) {
        to + replace_all(s.skip(from.len() as int), from, to)
    } else if from.len() == 0 {
        to + seq![s[0]] + replace_all(s.drop_first(), from, to)
    } else {
        seq![s[0]] + replace_all(s.drop_first(), from, to)
    }
}

/// The canonical text of a raw reference.
pub open spec fn spec_canonical(raw: Seq<char>) -> Seq<char> {
    spec_serialize(spec_parse(raw))
}

/// The first pair whose source is a prefix of `c` rewrites all of `c`; with
/// no such pair `c` is kept.
pub open spec fn apply_first(pairs: Seq<(Seq<char>, Seq<char>)>, c: Seq<char>) -> Seq<char>
    decreases pairs.len(),
{
    if pairs.len() == 0 {
        c
    } else if pairs[0].0.is_prefix_of(c) {
        replace_all(c, pairs[0].0, pairs[0].1)
    } else {
        apply_first(pairs.drop_first(), c)
    }
}

/// The remapped text of a raw reference.
pub open spec fn spec_remap(raw: Seq<char>, pairs: Seq<(Seq<char>, Seq<char>)>) -> Seq<char> {
    apply_first(pairs, spec_canonical(raw))
}

/// A mapping as pairs of character sequences.
pub open spec fn pairs_view(m: Seq<(String, String)>) -> Seq<(Seq<char>, Seq<char>)> {
    m.map_values(|p: (String, String)| (p.0@, p.1@))
}

/// `apply_first` is decided by the first matching pair, whatever follows it.
proof fn lemma_apply_first_at(
    pairs: Seq<(Seq<char>, Seq<char>)>,
    more: Seq<(Seq<char>, Seq<char>)>,
    c: Seq<char>,
    i: int,
)
    requires
        0 <= i < pairs.len(),
        pairs[i].0.is_prefix_of(c),
        forall|j: int| 0 <= j < i ==> !pairs[j].0.is_prefix_of(c),
    ensures
        apply_first(pairs, c) == replace_all(c, pairs[i].0, pairs[i].1),
        apply_first(pairs + more, c) == apply_first(pairs, c),
    decreases i,
{
    assert((pairs + more)[0] == pairs[0]);
    if i > 0 {
        assert((pairs + more).drop_first() =~= pairs.drop_first() + more);
        assert(!pairs[0].0.is_prefix_of(c));
        lemma_apply_first_at(pairs.drop_first(), more, c, i - 1);
    }
}

/// With no matching pair, `apply_first` keeps the text.
proof fn lemma_apply_first_none(pairs: Seq<(Seq<char>, Seq<char>)>, c: Seq<char>)
    requires
        forall|j: int| 0 <= j < pairs.len() ==> !pairs[j].0.is_prefix_of(c),
    ensures
        apply_first(pairs, c) == c,
    decreases pairs.len(),
{
    if pairs.len() > 0 {
        assert(!pairs[0].0.is_prefix_of(c));
        lemma_apply_first_none(pairs.drop_first(), c);
    }
}

/// Canonicalizing canonical text changes nothing.
pub proof fn lemma_canonical_stable(raw: Seq<char>)
    ensures
        spec_canonical(spec_canonical(raw)) == spec_canonical(raw),
{
    lemma_parse_round_trip(raw);
}

/// The first pair, in mapping order, whose source is a prefix of the canonical
/// text decides the result alone: every occurrence of its source is replaced by
/// its destination, and pairs after it, even with the same source, are never
/// applied.
pub proof fn lemma_remap_first_match_wins(
    raw: Seq<char>,
    pairs: Seq<(Seq<char>, Seq<char>)>,
    more: Seq<(Seq<char>, Seq<char>)>,
    i: int,
)
    requires
        0 <= i < pairs.len(),
        pairs[i].0.is_prefix_of(spec_canonical(raw)),
        forall|j: int| 0 <= j < i ==> !pairs[j].0.is_prefix_of(spec_canonical(raw)),
    ensures
        spec_remap(raw, pairs) == replace_all(spec_canonical(raw), pairs[i].0, pairs[i].1),
        spec_remap(raw, pairs + more) == spec_remap(raw, pairs),
{
    lemma_apply_first_at(pairs, more, spec_canonical(raw), i);
}

/// When no source of the mapping is a prefix of the canonical text, remapping
/// gives the canonical text itself.
pub proof fn lemma_remap_no_match(raw: Seq<char>, pairs: Seq<(Seq<char>, Seq<char>)>)
    requires
        forall|j: int| 0 <= j < pairs.len() ==> !pairs[j].0.is_prefix_of(spec_canonical(raw)),
    ensures
        spec_remap(raw, pairs) == spec_canonical(raw),
{
    lemma_apply_first_none(pairs, spec_canonical(raw));
}

/// Whether `from` occurs in `s` at position `i`.
fn occurs_at(s: &str, n: usize, i: usize, from: &str, m: usize) -> (r: bool)
    requires
        n == s@.len(),
        m == from@.len(),
        i <= n,
    ensures
        r == from@.is_prefix_of(s@.skip(i as int)),
{
    if m > n - i {
        return false;
    }
    let mut k: usize = 0;
    while k < m
        invariant
            n == s@.len(),
            m == from@.len(),
            i + m <= n,
            k <= m,
            forall|j: int| 0 <= j < k ==> s@[i + j] == from@[j],
        decreases m - k,
    {
        if s.get_char(i + k) != from.get_char(k) {
            assert(s@.skip(i as int).subrange(0, m as int)[k as int] != from@[k as int]);
            return false;
        }
        k = k + 1;
    }
    assert(from@ =~= s@.skip(i as int).subrange(0, m as int));
    true
}

/// Replaces every occurrence of `from` in `s` by `to`, as `str::replace` does.
fn replace_text(s: &str, from: &str, to: &str) -> (r: String)
    ensures
        r@ == replace_all(s@, from@, to@),
{
    let n = s.unicode_len();
    let m = from.unicode_len();
    let mut out = String::new();
    let mut i: usize = 0;
    assert(s@.skip(0) =~= s@);
    while i < n
        invariant
            n == s@.len(),
            m == from@.len(),
            i <= n,
            out@ + replace_all(s@.skip(i as int), from@, to@) == replace_all(s@, from@, to@),
        decreases n - i,
    {
        let ghost t = s@.skip(i as int);
        let ghost before = out@;
        if m > 0 && occurs_at(s, n, i, from, m) {
            assert(t.skip(m as int) =~= s@.skip(i + m));
            assert(before + (to@ + replace_all(t.skip(m as int), from@, to@)) =~= (before + to@)
                + replace_all(t.skip(m as int), from@, to@));
            out.append(to);
            i = i + m;
        } else {
            let c = s.substring_char(i, i + 1);
            assert(c@ =~= seq![t[0]]);
            assert(t.drop_first() =~= s@.skip(i + 1));
            if m == 0 {
                assert(before + (to@ + seq![t[0]] + replace_all(t.drop_first(), from@, to@))
                    =~= (before + to@ + c@) + replace_all(t.drop_first(), from@, to@));
                out.append(to);
            } else {
                assert(before + (seq![t[0]] + replace_all(t.drop_first(), from@, to@)) =~= (before
                    + c@) + replace_all(t.drop_first(), from@, to@));
            }
            out.append(c);
            i = i + 1;
        }
    }
    assert(s@.skip(n as int).len() == 0);
    if m == 0 {
        out.append(to);
    } else {
        assert(out@ + s@.skip(n as int) =~= out@);
    }
    out
}

/// The canonical text of `raw`: parsed, then written back with the default
/// registry, namespace and tag filled in.
pub fn canonicalize(raw: &str) -> (r: String)
    ensures
        r@ == spec_canonical(raw@),
{
    ImageRef::parse(raw).to_string()
}

/// Canonicalizes `raw`, then finds the first pair of `mapping`, in order, whose
/// source is a prefix of the canonical text, and replaces every occurrence of
/// that source by its destination. With no such pair the canonical text is
/// returned.
pub fn remap(raw: &str, mapping: &Vec<(String, String)>) -> (r: String)
    ensures
        r@ == spec_remap(raw@, pairs_view(mapping@)),
{
    let canonical = canonicalize(raw);
    let n = canonical.as_str().unicode_len();
    let ghost pv = pairs_view(mapping@);
    let mut i: usize = 0;
    assert(pv.skip(0) =~= pv);
    while i < mapping.len()
        invariant
            n == canonical@.len(),
            canonical@ == spec_canonical(raw@),
            pv == pairs_view(mapping@),
            i <= mapping.len(),
            apply_first(pv.skip(i as int), canonical@) == apply_first(pv, canonical@),
        decreases mapping.len() - i,
    {
        let src = mapping[i].0.as_str();
        let dest = mapping[i].1.as_str();
        assert(pv[i as int] == (src@, dest@));
        assert(pv.skip(i as int)[0] == pv[i as int]);
        assert(pv.skip(i as int).drop_first() =~= pv.skip(i + 1));
        assert(canonical@.skip(0) =~= canonical@);
        if occurs_at(canonical.as_str(), n, 0, src, src.unicode_len()) {
            return replace_text(canonical.as_str(), src, dest);
        }
        i = i + 1;
    }
    assert(pv.skip(i as int).len() == 0);
    canonical
}

/// Remaps each image of a list of containers; a container without an image
/// keeps none.
pub fn remap_images(images: &Vec<Option<String>>, mapping: &Vec<(String, String)>) -> (r: Vec<
    Option<String>,
>)
    ensures
        r@.len() == images@.len(),
        forall|i: int|
            0 <= i < images@.len() ==> opt_view(#[trigger] r@[i]) == match images@[i] {
                Some(s) => Some(spec_remap(s@, pairs_view(mapping@))),
                None => None,
            },
{
    let mut out: Vec<Option<String>> = Vec::new();
    let mut i: usize = 0;
    while i < images.len()
        invariant
            i <= images@.len(),
            out@.len() == i,
            forall|j: int|
                0 <= j < i ==> opt_view(#[trigger] out@[j]) == match images@[j] {
                    Some(s) => Some(spec_remap(s@, pairs_view(mapping@))),
                    None => None,
                },
        decreases images@.len() - i,
    {
        let next = match &images[i] {
            Some(s) => Some(remap(s.as_str(), mapping)),
            None => None,
        };
        out.push(next);
        i = i + 1;
    }
    out
}

} // verus!
