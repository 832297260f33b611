//! Grapheme segmentation (from `unicode-segmentation`) and the `std` string
//! conversions the rest of the crate builds on.

use unicode_segmentation::UnicodeSegmentation;
use vstd::prelude::*;

verus! {

/// The extended grapheme clusters of a string, in order, as computed by
/// `unicode-segmentation`.
pub uninterp spec fn grapheme_clusters(s: Seq<char>) -> Seq<Seq<char>>;

/// The views of a list of strings.
pub open spec fn views(v: Seq<String>) -> Seq<Seq<char>> {
    v.map_values(|g: String| g@)
}

/// `UnicodeSegmentation::graphemes(s, true)`, collected.
///
/// Trusted: the clusters are `grapheme_clusters(s@)`; the crate documents the
/// iterator as the segmentation of the string into extended grapheme clusters,
/// so the clusters are non-empty and concatenate back to `s`.
#[verifier::external_body]
pub(crate) fn graphemes(s: &str) -> (res: Vec<String>)
    ensures
        views(res@) == grapheme_clusters(s@),
        views(res@).flatten() == s@,
        forall|i: int| 0 <= i < res@.len() ==> (#[trigger] res@[i])@.len() > 0,
{
    let mut out = Vec::new();
    for g in UnicodeSegmentation::graphemes(s, true) {
        out.push(g.to_string());
    }
    out
}

/// The characters of `s`, in order.
pub(crate) fn chars_of(s: &str) -> (res: Vec<char>)
    ensures
        res@ == s@,
{
    broadcast use vstd::string::axiom_spec_iter;

    let mut v: Vec<char> = Vec::new();
    for c in it: s.chars()
        invariant
            v@ == it.seq().take(it.index() as int),
    {
        v.push(c);
    }
    v
}

/// A `String` holding exactly `cs`.
pub(crate) fn string_of(cs: &[char]) -> (res: String)
    ensures
        res@ == cs@,
{
    let mut s = String::new();
    let mut i: usize = 0;
    while i < cs.len()
        invariant
            i <= cs@.len(),
            s@ == cs@.take(i as int),
        decreases cs@.len() - i,
    {
        push_char(&mut s, cs[i]);
        proof {
            assert(s@ =~= cs@.take(i + 1));
        }
        i = i + 1;
    }
    proof {
        assert(cs@.take(i as int) =~= cs@);
    }
    s
}

/// `String::push`.
#[verifier::external_body]
pub(crate) fn push_char(s: &mut String, c: char)
    ensures
        final(s)@ == old(s)@.push(c),
{
    s.push(c)
}

/// The Unicode lowercase mapping of a string as `str::to_lowercase` computes
/// it from the standard library's case tables (a capital sigma's form
/// depends on the characters around it).
pub uninterp spec fn lowercase(s: Seq<char>) -> Seq<char>;

/// `str::to_lowercase`.
///
/// Trusted: the result is `lowercase(s@)`, a function of the characters
/// alone; how each character maps is left to the named result.
#[verifier::external_body]
pub(crate) fn to_lowercase(s: &str) -> (res: String)
    ensures
        res@ == lowercase(s@),
{
    s.to_lowercase()
}

} // verus!
