//! Display width of characters, grapheme clusters and strings, in columns.

use vstd::prelude::*;
use crate::graphemes::{grapheme_clusters, graphemes, views, chars_of};

verus! {

/// Code points that occupy no column of their own: controls, combining marks,
/// joiners and variation selectors.
pub open spec fn is_zero_width(c: u32) -> bool {
    (0x0 <= c && c <= 0x1F)
        || (0x7F <= c && c <= 0x9F)
        || (0x300 <= c && c <= 0x36F)
        || (0x483 <= c && c <= 0x489)
        || (0x591 <= c && c <= 0x5BD)
        || (0x610 <= c && c <= 0x61A)
        || (0x64B <= c && c <= 0x65F)
        || c == 0xE31
        || (0xE34 <= c && c <= 0xE3A)
        || (0x1AB0 <= c && c <= 0x1AFF)
        || (0x1DC0 <= c && c <= 0x1DFF)
        || (0x200B <= c && c <= 0x200F)
        || (0x2028 <= c && c <= 0x202E)
        || (0x2060 <= c && c <= 0x2064)
        || (0x20D0 <= c && c <= 0x20FF)
        || (0xFE00 <= c && c <= 0xFE0F)
        || (0xFE20 <= c && c <= 0xFE2F)
        || c == 0xFEFF
        || (0xE0000 <= c && c <= 0xE0FFF)
}

/// Code points drawn two columns wide: East Asian wide and fullwidth forms and
/// emoji presentation.
pub open spec fn is_wide(c: u32) -> bool {
    (0x1100 <= c && c <= 0x115F)
        || (0x231A <= c && c <= 0x231B)
        || (0x2329 <= c && c <= 0x232A)
        || (0x23E9 <= c && c <= 0x23EC)
        || c == 0x23F0
        || c == 0x23F3
        || (0x25FD <= c && c <= 0x25FE)
        || (0x2614 <= c && c <= 0x2615)
        || (0x2648 <= c && c <= 0x2653)
        || c == 0x267F
        || c == 0x2693
        || c == 0x26A1
        || (0x26AA <= c && c <= 0x26AB)
        || (0x26BD <= c && c <= 0x26BE)
        || (0x26C4 <= c && c <= 0x26C5)
        || c == 0x26CE
        || c == 0x26D4
        || c == 0x26EA
        || (0x26F2 <= c && c <= 0x26F3)
        || c == 0x26F5
        || c == 0x26FA
        || c == 0x26FD
        || c == 0x2705
        || (0x270A <= c && c <= 0x270B)
        || c == 0x2728
        || c == 0x274C
        || c == 0x274E
        || (0x2753 <= c && c <= 0x2755)
        || c == 0x2757
        || (0x2795 <= c && c <= 0x2797)
        || c == 0x27B0
        || c == 0x27BF
        || (0x2B1B <= c && c <= 0x2B1C)
        || c == 0x2B50
        || c == 0x2B55
        || (0x2E80 <= c && c <= 0x303E)
        || (0x3041 <= c && c <= 0x33FF)
        || (0x3400 <= c && c <= 0x4DBF)
        || (0x4E00 <= c && c <= 0x9FFF)
        || (0xA000 <= c && c <= 0xA4CF)
        || (0xA960 <= c && c <= 0xA97F)
        || (0xAC00 <= c && c <= 0xD7A3)
        || (0xF900 <= c && c <= 0xFAFF)
        || (0xFE10 <= c && c <= 0xFE19)
        || (0xFE30 <= c && c <= 0xFE6F)
        || (0xFF00 <= c && c <= 0xFF60)
        || (0xFFE0 <= c && c <= 0xFFE6)
        || (0x16FE0 <= c && c <= 0x18CFF)
        || (0x1B000 <= c && c <= 0x1B2FF)
        || c == 0x1F004
        || c == 0x1F0CF
        || c == 0x1F18E
        || (0x1F191 <= c && c <= 0x1F19A)
        || (0x1F200 <= c && c <= 0x1F2FF)
        || (0x1F300 <= c && c <= 0x1F64F)
        || (0x1F680 <= c && c <= 0x1F6FF)
        || (0x1F7E0 <= c && c <= 0x1F7EB)
        || (0x1F90C <= c && c <= 0x1F9FF)
        || (0x1FA70 <= c && c <= 0x1FAFF)
        || (0x20000 <= c && c <= 0x2FFFD)
        || (0x30000 <= c && c <= 0x3FFFD)
}

/// Columns one character occupies on its own.
pub open spec fn char_cols(c: char) -> nat {
    if is_zero_width(c as u32) {
        0
    } else if is_wide(c as u32) {
        2
    } else {
        1
    }
}

/// Columns a grapheme cluster occupies: its widest character.
pub open spec fn cluster_cols(g: Seq<char>) -> nat
    decreases g.len(),
{
    if g.len() == 0 {
        0
    } else {
        let rest = cluster_cols(g.drop_last());
        let last = char_cols(g.last());
        if rest >= last {
            rest
        } else {
            last
        }
    }
}

/// Total columns of a sequence of clusters.
pub open spec fn clusters_cols(gs: Seq<Seq<char>>) -> nat
    decreases gs.len(),
{
    if gs.len() == 0 {
        0
    } else {
        clusters_cols(gs.drop_last()) + cluster_cols(gs.last())
    }
}

/// Columns of a string: the sum over its grapheme clusters.
pub open spec fn text_cols(s: Seq<char>) -> nat {
    clusters_cols(grapheme_clusters(s))
}

/// `n` capped at `u16::MAX`.
pub open spec fn cap16(n: int) -> int {
    if n > u16::MAX {
        u16::MAX as int
    } else {
        n
    }
}

pub proof fn lemma_cluster_cols_le_2(g: Seq<char>)
    ensures
        cluster_cols(g) <= 2,
    decreases g.len(),
{
    if g.len() > 0 {
        lemma_cluster_cols_le_2(g.drop_last());
    }
}

fn code_is_zero_width(c: u32) -> (b: bool)
    ensures
        b == is_zero_width(c),
{
    (0x0 <= c && c <= 0x1F)
        || (0x7F <= c && c <= 0x9F)
        || (0x300 <= c && c <= 0x36F)
        || (0x483 <= c && c <= 0x489)
        || (0x591 <= c && c <= 0x5BD)
        || (0x610 <= c && c <= 0x61A)
        || (0x64B <= c && c <= 0x65F)
        || c == 0xE31
        || (0xE34 <= c && c <= 0xE3A)
        || (0x1AB0 <= c && c <= 0x1AFF)
        || (0x1DC0 <= c && c <= 0x1DFF)
        || (0x200B <= c && c <= 0x200F)
        || (0x2028 <= c && c <= 0x202E)
        || (0x2060 <= c && c <= 0x2064)
        || (0x20D0 <= c && c <= 0x20FF)
        || (0xFE00 <= c && c <= 0xFE0F)
        || (0xFE20 <= c && c <= 0xFE2F)
        || c == 0xFEFF
        || (0xE0000 <= c && c <= 0xE0FFF)
}

fn code_is_wide(c: u32) -> (b: bool)
    ensures
        b == is_wide(c),
{
    (0x1100 <= c && c <= 0x115F)
        || (0x231A <= c && c <= 0x231B)
        || (0x2329 <= c && c <= 0x232A)
        || (0x23E9 <= c && c <= 0x23EC)
        || c == 0x23F0
        || c == 0x23F3
        || (0x25FD <= c && c <= 0x25FE)
        || (0x2614 <= c && c <= 0x2615)
        || (0x2648 <= c && c <= 0x2653)
        || c == 0x267F
        || c == 0x2693
        || c == 0x26A1
        || (0x26AA <= c && c <= 0x26AB)
        || (0x26BD <= c && c <= 0x26BE)
        || (0x26C4 <= c && c <= 0x26C5)
        || c == 0x26CE
        || c == 0x26D4
        || c == 0x26EA
        || (0x26F2 <= c && c <= 0x26F3)
        || c == 0x26F5
        || c == 0x26FA
        || c == 0x26FD
        || c == 0x2705
        || (0x270A <= c && c <= 0x270B)
        || c == 0x2728
        || c == 0x274C
        || c == 0x274E
        || (0x2753 <= c && c <= 0x2755)
        || c == 0x2757
        || (0x2795 <= c && c <= 0x2797)
        || c == 0x27B0
        || c == 0x27BF
        || (0x2B1B <= c && c <= 0x2B1C)
        || c == 0x2B50
        || c == 0x2B55
        || (0x2E80 <= c && c <= 0x303E)
        || (0x3041 <= c && c <= 0x33FF)
        || (0x3400 <= c && c <= 0x4DBF)
        || (0x4E00 <= c && c <= 0x9FFF)
        || (0xA000 <= c && c <= 0xA4CF)
        || (0xA960 <= c && c <= 0xA97F)
        || (0xAC00 <= c && c <= 0xD7A3)
        || (0xF900 <= c && c <= 0xFAFF)
        || (0xFE10 <= c && c <= 0xFE19)
        || (0xFE30 <= c && c <= 0xFE6F)
        || (0xFF00 <= c && c <= 0xFF60)
        || (0xFFE0 <= c && c <= 0xFFE6)
        || (0x16FE0 <= c && c <= 0x18CFF)
        || (0x1B000 <= c && c <= 0x1B2FF)
        || c == 0x1F004
        || c == 0x1F0CF
        || c == 0x1F18E
        || (0x1F191 <= c && c <= 0x1F19A)
        || (0x1F200 <= c && c <= 0x1F2FF)
        || (0x1F300 <= c && c <= 0x1F64F)
        || (0x1F680 <= c && c <= 0x1F6FF)
        || (0x1F7E0 <= c && c <= 0x1F7EB)
        || (0x1F90C <= c && c <= 0x1F9FF)
        || (0x1FA70 <= c && c <= 0x1FAFF)
        || (0x20000 <= c && c <= 0x2FFFD)
        || (0x30000 <= c && c <= 0x3FFFD)
}

/// Columns one character occupies.
pub fn char_width(c: char) -> (w: u16)
    ensures
        w == char_cols(c),
{
    let code = c as u32;
    if code_is_zero_width(code) {
        0
    } else if code_is_wide(code) {
        2
    } else {
        1
    }
}

/// Columns a grapheme cluster occupies (0, 1 or 2).
pub fn grapheme_cols(g: &str) -> (w: u16)
    ensures
        w == cluster_cols(g@),
        w <= 2,
{
    let cs = chars_of(g);
    let mut w: u16 = 0;
    let mut i: usize = 0;
    while i < cs.len()
        invariant
            i <= cs@.len(),
            cs@ == g@,
            w == cluster_cols(cs@.take(i as int)),
            w <= 2,
        decreases cs@.len() - i,
    {
        proof {
            assert(cs@.take(i as int + 1).drop_last() == cs@.take(i as int));
            lemma_cluster_cols_le_2(cs@.take(i as int + 1));
        }
        let cw = char_width(cs[i]);
        if cw > w {
            w = cw;
        }
        i = i + 1;
    }
    proof {
        assert(cs@.take(i as int) == cs@);
    }
    w
}

/// Columns of a string, summed over its grapheme clusters and capped at
/// `u16::MAX`.
pub fn str_cols(s: &str) -> (w: u16)
    ensures
        w == cap16(text_cols(s@) as int),
{
    let gs = graphemes(s);
    let mut w: u16 = 0;
    let mut i: usize = 0;
    while i < gs.len()
        invariant
            i <= gs@.len(),
            views(gs@) == grapheme_clusters(s@),
            w == cap16(clusters_cols(views(gs@).take(i as int)) as int),
        decreases gs@.len() - i,
    {
        proof {
            assert(views(gs@).take(i as int + 1).drop_last() == views(gs@).take(i as int));
        }
        let gw = grapheme_cols(gs[i].as_str());
        w = w.saturating_add(gw);
        i = i + 1;
    }
    proof {
        assert(views(gs@).take(i as int) == views(gs@));
    }
    w
}

} // verus!
