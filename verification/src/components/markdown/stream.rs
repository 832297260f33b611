//! Where a streamed markdown source settles: the last stable block boundary,
//! before which every block is complete and can be rendered once and cached,
//! while the tail after it is still in flight.

use vstd::prelude::*;
use crate::chars::{sub_string, trim_chars, trim_ws, utf8_char_width, utf8_len, utf8_width};
use crate::graphemes::chars_of;
use crate::components::code_block::{CodeHighlighter, LineView, plain_line, line_spans_view};
use crate::components::text::sadd;
use crate::style::{Style, StyleSheet, Theme};
use crate::text::Line;
use super::flatten::{ends_on_spacer, flatten_linked, flatten_linked_after, flatten_spec, is_spacer, lines_view, renderable, shift_links, Flat, MarkdownBlockRenderer, Renderers};
use super::item::{BufferLink, LinkView, MdItem, MdItemView, item_views, link_views};
use super::parse::{block_of, blocks_of, fallback_ok, parse_events, parse_spec, rendered_from, MdEventV};
use super::commonmark::{commonmark, commonmark_events};

verus! {

/// Whether `c` is an ASCII digit.
pub open spec fn is_digit(c: char) -> bool {
    '0' <= c && c <= '9'
}

/// The index of the first non-digit at or after `i`.
pub open spec fn digits_end(s: Seq<char>, i: int) -> int
    decreases s.len() - i,
{
    if i < 0 || i >= s.len() {
        s.len() as int
    } else if is_digit(s[i]) {
        digits_end(s, i + 1)
    } else {
        i
    }
}

/// Whether `trimmed` (a line without its indentation) starts a list item: a
/// bullet (`-`, `*`, `+`) or an ordered marker (`1.`, `1)`), each followed by
/// a space or the end of the line.
pub open spec fn list_marker(trimmed: Seq<char>) -> bool {
    if trimmed.len() == 0 {
        false
    } else if trimmed[0] == '-' || trimmed[0] == '*' || trimmed[0] == '+' {
        trimmed.len() == 1 || trimmed[1] == ' '
    } else if is_digit(trimmed[0]) {
        let e = digits_end(trimmed, 0);
        e < trimmed.len() && (trimmed[e] == '.' || trimmed[e] == ')') && (e + 1 == trimmed.len() || trimmed[e + 1]
            == ' ')
    } else {
        false
    }
}

/// The length of the run of `c` that starts `s`.
pub open spec fn run_of(s: Seq<char>, c: char, i: int) -> int
    decreases s.len() - i,
{
    if i < 0 || i >= s.len() || s[i] != c {
        0
    } else {
        1 + run_of(s, c, i + 1)
    }
}

/// The delimiter and run length of a code fence `trimmed` opens, if any: a
/// run of at least three backticks or tildes.
pub open spec fn fence_opener(trimmed: Seq<char>) -> Option<(char, int)> {
    if trimmed.len() > 0 && (trimmed[0] == '`' || trimmed[0] == '~') && run_of(trimmed, trimmed[0], 0) >= 3 {
        Some((trimmed[0], run_of(trimmed, trimmed[0], 0)))
    } else {
        None
    }
}

/// What the scanner knows after a prefix of lines.
pub struct ScanState {
    /// The open code fence: its delimiter and run length.
    pub fence: Option<(char, int)>,
    /// The last settled boundary, in bytes.
    pub boundary: int,
    /// The byte position reached.
    pub pos: int,
    /// Whether an open list may continue.
    pub in_list: bool,
    /// A blank line inside a list that becomes a boundary once a top-level
    /// block proves the list ended.
    pub pending_blank: Option<int>,
}

/// The scanner after one more line (newline included, if it has one).
pub open spec fn scan_line(st: ScanState, line: Seq<char>) -> ScanState {
    let trimmed = trim_ws(line);
    let end = st.pos + utf8_len(line);
    let terminated = line.len() > 0 && line.last() == '\n';
    match st.fence {
        Some((d, opened)) => {
            let run = run_of(trimmed, d, 0);
            ScanState {
                fence: if run >= opened && trimmed.len() == run { None } else { st.fence },
                pos: end,
                ..st
            }
        },
        None => if trimmed.len() == 0 {
            if terminated {
                if st.in_list {
                    ScanState { pos: end, pending_blank: Some(end), ..st }
                } else {
                    ScanState { pos: end, boundary: end, ..st }
                }
            } else {
                ScanState { pos: end, ..st }
            }
        } else {
            let indented = (line.len() >= 2 && line[0] == ' ' && line[1] == ' ') || (line.len() >= 1 && line[0]
                == '\t');
            let listed = if list_marker(trimmed) {
                ScanState { in_list: true, pending_blank: None, ..st }
            } else if st.in_list && (indented || st.pending_blank.is_none()) {
                ScanState { pending_blank: None, ..st }
            } else if terminated {
                ScanState {
                    boundary: match st.pending_blank {
                        Some(b) => b,
                        None => st.boundary,
                    },
                    pending_blank: None,
                    in_list: false,
                    ..st
                }
            } else {
                st
            };
            ScanState {
                pos: end,
                fence: match fence_opener(trimmed) {
                    Some(o) => Some(o),
                    None => listed.fence,
                },
                ..listed
            }
        },
    }
}

/// The index just past the first newline at or after `i` (the end of `s`
/// when there is none).
pub open spec fn line_end(s: Seq<char>, i: int) -> int
    decreases s.len() - i,
{
    if i < 0 || i >= s.len() {
        s.len() as int
    } else if s[i] == '\n' {
        i + 1
    } else {
        line_end(s, i + 1)
    }
}

pub proof fn lemma_line_end(s: Seq<char>, i: int)
    requires
        0 <= i < s.len(),
    ensures
        i < line_end(s, i) <= s.len(),
    decreases s.len() - i,
{
    if s[i] == '\n' {
    } else if i + 1 < s.len() {
        lemma_line_end(s, i + 1);
    } else {
        assert(line_end(s, i + 1) == s.len());
    }
}

/// The scanner after every line from character `i` on.
pub open spec fn scan_from(s: Seq<char>, i: int, st: ScanState) -> ScanState
    decreases s.len() - i,
{
    if i < 0 || i >= s.len() {
        st
    } else {
        let j = line_end(s, i);
        proof {
            lemma_line_end(s, i);
        }
        if j <= i {
            st
        } else {
            scan_from(s, j, scan_line(st, s.subrange(i, j)))
        }
    }
}

/// Byte offset of the last stable block boundary in the part of `source`
/// that starts at character `start`: just past the last blank line that ends
/// a block outright. A blank line inside an open code fence, or between the
/// items of a list that a later line may continue, settles nothing.
pub open spec fn stable_boundary_of(source: Seq<char>, start: int) -> int {
    let from = utf8_len(source.take(start));
    scan_from(
        source,
        start,
        ScanState { fence: None, boundary: from, pos: from, in_list: false, pending_blank: None },
    ).boundary
}

/// The scanner's positions are ordered: the boundary never passes the
/// position reached, and a pending blank, kept only inside a list, lies
/// between them.
pub open spec fn scan_ordered(st: ScanState) -> bool {
    &&& st.boundary <= st.pos
    &&& st.pending_blank matches Some(b) ==> st.in_list && st.boundary <= b <= st.pos
}

/// Byte offset `b` is the start offset `from`, or the end of a line of
/// `s[start..i]` that ends in a newline.
pub open spec fn after_newline(s: Seq<char>, start: int, i: int, b: int) -> bool {
    ||| b == utf8_len(s.take(start))
    ||| exists|c: int| start < c <= i && s[c - 1] == '\n' && #[trigger] utf8_len(s.take(c)) == b
}

/// What the scanner keeps true of `s` after its lines up to character `i`.
pub open spec fn scan_inv(s: Seq<char>, start: int, i: int, st: ScanState) -> bool {
    &&& scan_ordered(st)
    &&& st.pos == utf8_len(s.take(i))
    &&& utf8_len(s.take(start)) <= st.boundary
    &&& after_newline(s, start, i, st.boundary)
    &&& st.pending_blank matches Some(b) ==> after_newline(s, start, i, b)
}

proof fn lemma_scan_line_ordered(st: ScanState, line: Seq<char>)
    requires
        scan_ordered(st),
    ensures
        scan_ordered(scan_line(st, line)),
        scan_line(st, line).boundary >= st.boundary,
        scan_line(st, line).pos == st.pos + utf8_len(line),
        !(line.len() > 0 && line.last() == '\n') ==> scan_line(st, line).boundary == st.boundary,
{
    crate::chars::lemma_utf8_len_nonneg(line);
}

proof fn lemma_scan_mono(s: Seq<char>, i: int, st: ScanState)
    requires
        scan_ordered(st),
    ensures
        scan_from(s, i, st).boundary >= st.boundary,
    decreases s.len() - i,
{
    if 0 <= i < s.len() {
        let j = line_end(s, i);
        lemma_line_end(s, i);
        lemma_scan_line_ordered(st, s.subrange(i, j));
        lemma_scan_mono(s, j, scan_line(st, s.subrange(i, j)));
    }
}

proof fn lemma_scan_inv(s: Seq<char>, start: int, i: int, st: ScanState)
    requires
        0 <= start <= i <= s.len(),
        scan_inv(s, start, i, st),
    ensures
        scan_inv(s, start, s.len() as int, scan_from(s, i, st)),
    decreases s.len() - i,
{
    if i < s.len() {
        let j = line_end(s, i);
        lemma_line_end(s, i);
        let line = s.subrange(i, j);
        let st2 = scan_line(st, line);
        lemma_scan_line_ordered(st, line);
        lemma_utf8_split(s, i, j);
        assert(st2.pos == utf8_len(s.take(j)));
        if line.len() > 0 && line.last() == '\n' {
            assert(s[j - 1] == '\n');
            assert(after_newline(s, start, j, utf8_len(s.take(j))));
        }
        assert(after_newline(s, start, j, st2.boundary));
        assert(st2.pending_blank matches Some(b) ==> after_newline(s, start, j, b));
        lemma_scan_inv(s, start, j, st2);
    } else {
        assert(s.take(i) =~= s.take(s.len() as int));
    }
}

proof fn lemma_line_end_append(s: Seq<char>, t: Seq<char>, i: int)
    requires
        0 <= i < s.len(),
    ensures
        s[line_end(s, i) - 1] == '\n' ==> line_end(s + t, i) == line_end(s, i),
        s[line_end(s, i) - 1] != '\n' ==> line_end(s, i) == s.len(),
    decreases s.len() - i,
{
    lemma_line_end(s, i);
    assert((s + t)[i] == s[i]);
    if s[i] != '\n' {
        if i + 1 < s.len() {
            lemma_line_end_append(s, t, i + 1);
        }
    }
}

proof fn lemma_scan_append(s: Seq<char>, t: Seq<char>, i: int, st: ScanState)
    requires
        0 <= i <= s.len(),
        scan_ordered(st),
    ensures
        scan_from(s + t, i, st).boundary >= scan_from(s, i, st).boundary,
    decreases s.len() - i,
{
    if i == s.len() {
        lemma_scan_mono(s + t, i, st);
    } else {
        let j = line_end(s, i);
        lemma_line_end(s, i);
        lemma_line_end_append(s, t, i);
        let line = s.subrange(i, j);
        lemma_scan_line_ordered(st, line);
        if s[j - 1] == '\n' {
            assert((s + t).subrange(i, j) =~= line);
            lemma_scan_append(s, t, j, scan_line(st, line));
        } else {
            assert(line.last() == s[j - 1]);
            assert(scan_from(s, j, scan_line(st, line)) == scan_line(st, line));
            lemma_scan_mono(s + t, i, st);
        }
    }
}

/// A settled boundary stays in the text and follows a newline: it is the
/// starting offset or the end of a line ending in `\n` after it. And it
/// never retracts: appending text leaves it where it was or moves it on.
pub proof fn lemma_stable_boundary(source: Seq<char>, start: int, t: Seq<char>)
    requires
        0 <= start <= source.len(),
    ensures
        utf8_len(source.take(start)) <= stable_boundary_of(source, start) <= utf8_len(source),
        after_newline(source, start, source.len() as int, stable_boundary_of(source, start)),
        stable_boundary_of(source + t, start) >= stable_boundary_of(source, start),
{
    let from = utf8_len(source.take(start));
    let init = ScanState { fence: None, boundary: from, pos: from, in_list: false, pending_blank: None };
    lemma_scan_inv(source, start, start, init);
    assert(source.take(source.len() as int) =~= source);
    assert((source + t).take(start) =~= source.take(start));
    lemma_scan_append(source, t, start, init);
}


fn is_list_marker(trimmed: &Vec<char>) -> (b: bool)
    ensures
        b == list_marker(trimmed@),
{
    if trimmed.len() == 0 {
        return false;
    }
    let c = trimmed[0];
    if c == '-' || c == '*' || c == '+' {
        return trimmed.len() == 1 || trimmed[1] == ' ';
    }
    if '0' <= c && c <= '9' {
        let mut e: usize = 0;
        while e < trimmed.len() && '0' <= trimmed[e] && trimmed[e] <= '9'
            invariant
                e <= trimmed@.len(),
                digits_end(trimmed@, 0) == digits_end(trimmed@, e as int),
            decreases trimmed@.len() - e,
        {
            e = e + 1;
        }
        return e < trimmed.len() && (trimmed[e] == '.' || trimmed[e] == ')') && (e + 1 == trimmed.len() || trimmed[e
            + 1] == ' ');
    }
    false
}

fn run_length(s: &Vec<char>, c: char) -> (n: usize)
    ensures
        n == run_of(s@, c, 0),
        n <= s@.len(),
{
    let mut i: usize = 0;
    while i < s.len() && s[i] == c
        invariant
            i <= s@.len(),
            run_of(s@, c, 0) == i + run_of(s@, c, i as int),
        decreases s@.len() - i,
    {
        i = i + 1;
    }
    i
}

fn opener(trimmed: &Vec<char>) -> (r: Option<(char, usize)>)
    ensures
        match r {
            Some((d, n)) => fence_opener(trimmed@) == Some((d, n as int)),
            None => fence_opener(trimmed@).is_none(),
        },
{
    if trimmed.len() > 0 && (trimmed[0] == '`' || trimmed[0] == '~') {
        let n = run_length(trimmed, trimmed[0]);
        if n >= 3 {
            return Some((trimmed[0], n));
        }
    }
    None
}

/// Byte offset of the last stable block boundary in `source[from..]`, in
/// absolute bytes (see [`stable_boundary_of`]); `from` itself when nothing
/// settles. `from` must fall on a character boundary.
pub fn stable_boundary(source: &str, from: usize) -> (r: usize)
    requires
        exists|k: int| 0 <= k <= source@.len() && utf8_len(#[trigger] source@.take(k)) == from,
        utf8_len(source@) <= usize::MAX,
    ensures
        forall|k: int|
            0 <= k <= source@.len() && utf8_len(#[trigger] source@.take(k)) == from ==> r == stable_boundary_of(
                source@,
                k,
            ),
{
    scan_boundary(source, from).0
}

/// [`stable_boundary`], with the character index the boundary falls on.
fn scan_boundary(source: &str, from: usize) -> (r: (usize, usize))
    requires
        exists|k: int| 0 <= k <= source@.len() && utf8_len(#[trigger] source@.take(k)) == from,
        utf8_len(source@) <= usize::MAX,
    ensures
        forall|k: int|
            0 <= k <= source@.len() && utf8_len(#[trigger] source@.take(k)) == from ==> r.0 == stable_boundary_of(
                source@,
                k,
            ),
        r.1 <= source@.len(),
        utf8_len(source@.take(r.1 as int)) == r.0,
{
    let cs = chars_of(source);
    let ghost k = choose|k: int| 0 <= k <= source@.len() && utf8_len(#[trigger] source@.take(k)) == from;
    // The character where `from` falls.
    let mut start: usize = 0;
    let mut bytes: usize = 0;
    proof {
        assert(cs@.take(0) =~= Seq::<char>::empty());
    }
    while bytes < from && start < cs.len()
        invariant
            start <= k <= cs@.len(),
            cs@ == source@,
            bytes == utf8_len(cs@.take(start as int)),
            utf8_len(cs@.take(k)) == from,
            utf8_len(cs@) <= usize::MAX,
        decreases cs@.len() - start,
    {
        proof {
            if start == k {
                assert(false);
            }
            assert(cs@.take(start + 1).drop_last() =~= cs@.take(start as int));
            lemma_utf8_prefix_le(cs@, start + 1);
        }
        bytes = bytes + utf8_char_width(cs[start]);
        start = start + 1;
    }
    proof {
        if start < k {
            lemma_utf8_increasing(cs@, start as int, k);
        }
        assert(start == k);
        assert forall|k2: int| 0 <= k2 <= source@.len() && utf8_len(#[trigger] source@.take(k2)) == from implies k2
            == k by {
            if k2 < k {
                lemma_utf8_increasing(cs@, k2, k);
            } else if k2 > k {
                lemma_utf8_increasing(cs@, k, k2);
            }
        }
    }
    let mut fence: Option<(char, usize)> = None;
    let mut boundary: usize = bytes;
    let mut boundary_chars: usize = start;
    let mut pending_chars: usize = start;
    let mut pos: usize = bytes;
    let mut in_list = false;
    let mut pending_blank: Option<usize> = None;
    let ghost init = ScanState { fence: None, boundary: bytes as int, pos: bytes as int, in_list: false, pending_blank: None };
    let mut i: usize = start;
    while i < cs.len()
        invariant
            start <= i <= cs@.len(),
            cs@ == source@,
            utf8_len(cs@) <= usize::MAX,
            pos == utf8_len(cs@.take(i as int)),
            boundary_chars <= cs@.len(),
            utf8_len(cs@.take(boundary_chars as int)) == boundary,
            pending_chars <= cs@.len(),
            pending_blank matches Some(b) ==> utf8_len(cs@.take(pending_chars as int)) == b,
            scan_from(cs@, start as int, init) == scan_from(
                cs@,
                i as int,
                ScanState {
                    fence: match fence {
                        Some((d, n)) => Some((d, n as int)),
                        None => None,
                    },
                    boundary: boundary as int,
                    pos: pos as int,
                    in_list,
                    pending_blank: match pending_blank {
                        Some(b) => Some(b as int),
                        None => None,
                    },
                },
            ),
        decreases cs@.len() - i,
    {
        let ghost cur = ScanState {
            fence: match fence {
                Some((d, n)) => Some((d, n as int)),
                None => None,
            },
            boundary: boundary as int,
            pos: pos as int,
            in_list,
            pending_blank: match pending_blank {
                Some(b) => Some(b as int),
                None => None,
            },
        };
        // One line, its newline included.
        let mut j: usize = i;
        let mut line: Vec<char> = Vec::new();
        let mut line_bytes: usize = 0;
        proof {
            assert(cs@.subrange(i as int, i as int) =~= Seq::<char>::empty());
        }
        loop
            invariant_except_break
                forall|t: int| i <= t < j ==> cs@[t] != '\n',
                line_end(cs@, i as int) == line_end(cs@, j as int),
            invariant
                i <= j <= cs@.len(),
                i < cs@.len(),
                line@ == cs@.subrange(i as int, j as int),
                line_bytes == utf8_len(line@),
                utf8_len(cs@) <= usize::MAX,
                pos == utf8_len(cs@.take(i as int)),
            ensures
                j == line_end(cs@, i as int),
                j > i,
                line@ == cs@.subrange(i as int, j as int),
                line_bytes == utf8_len(line@),
            decreases cs@.len() - j,
        {
            if j >= cs.len() {
                break;
            }
            proof {
                assert(cs@.subrange(i as int, j + 1).drop_last() =~= cs@.subrange(i as int, j as int));
                lemma_utf8_split(cs@, i as int, j + 1);
                lemma_utf8_prefix_le(cs@, j + 1);
                crate::chars::lemma_utf8_len_nonneg(cs@.take(i as int));
            }
            let c = cs[j];
            line_bytes = line_bytes + utf8_char_width(c);
            line.push(c);
            j = j + 1;
            proof {
                assert(line@ =~= cs@.subrange(i as int, j as int));
                assert(line@.drop_last() =~= cs@.subrange(i as int, j - 1));
            }
            if c == '\n' {
                break;
            }
        }
        proof {
            lemma_utf8_split(cs@, i as int, j as int);
            lemma_utf8_prefix_le(cs@, j as int);
        }
        let trimmed = trim_chars(&line);
        let terminated = line.len() > 0 && line[line.len() - 1] == '\n';
        let end = pos + line_bytes;
        match fence {
            Some((d, opened)) => {
                let run = run_length(&trimmed, d);
                if run >= opened && trimmed.len() == run {
                    fence = None;
                }
            },
            None => {
                if trimmed.len() == 0 {
                    if terminated {
                        if in_list {
                            pending_blank = Some(end);
                            pending_chars = j;
                        } else {
                            boundary = end;
                            boundary_chars = j;
                        }
                    }
                } else {
                    let indented = (line.len() >= 2 && line[0] == ' ' && line[1] == ' ') || (line.len() >= 1
                        && line[0] == '\t');
                    if is_list_marker(&trimmed) {
                        in_list = true;
                        pending_blank = None;
                    } else if in_list && (indented || pending_blank.is_none()) {
                        pending_blank = None;
                    } else if terminated {
                        match pending_blank {
                            Some(b) => {
                                boundary = b;
                                boundary_chars = pending_chars;
                            },
                            None => {},
                        }
                        pending_blank = None;
                        in_list = false;
                    }
                    match opener(&trimmed) {
                        Some(o) => {
                            fence = Some(o);
                        },
                        None => {},
                    }
                }
            },
        }
        pos = end;
        proof {
            assert(scan_from(cs@, i as int, cur) == scan_from(cs@, j as int, scan_line(cur, line@)));
            let next = scan_line(cur, line@);
            assert(next.pos == pos);
            assert(next.boundary == boundary);
            assert(next.in_list == in_list);
            assert(next.pending_blank == match pending_blank {
                Some(b) => Some(b as int),
                None => None,
            });
            assert(next.fence == match fence {
                Some((d, n)) => Some((d, n as int)),
                None => None,
            });
        }
        i = j;
    }
    (boundary, boundary_chars)
}

proof fn lemma_utf8_split(s: Seq<char>, i: int, j: int)
    requires
        0 <= i <= j <= s.len(),
    ensures
        utf8_len(s.take(j)) == utf8_len(s.take(i)) + utf8_len(s.subrange(i, j)),
    decreases j - i,
{
    if j > i {
        lemma_utf8_split(s, i, j - 1);
        assert(s.take(j).drop_last() =~= s.take(j - 1));
        assert(s.subrange(i, j).drop_last() =~= s.subrange(i, j - 1));
    } else {
        assert(s.subrange(i, j) =~= Seq::<char>::empty());
    }
}

proof fn lemma_utf8_prefix_le(s: Seq<char>, k: int)
    requires
        0 <= k <= s.len(),
    ensures
        utf8_len(s.take(k)) <= utf8_len(s),
{
    lemma_utf8_split(s, k, s.len() as int);
    assert(s.take(s.len() as int) =~= s);
    crate::chars::lemma_utf8_len_nonneg(s.subrange(k, s.len() as int));
}

proof fn lemma_utf8_increasing(s: Seq<char>, i: int, j: int)
    requires
        0 <= i < j <= s.len(),
    ensures
        utf8_len(s.take(i)) < utf8_len(s.take(j)),
{
    lemma_utf8_split(s, i, j);
    lemma_utf8_pos(s.subrange(i, j));
}

proof fn lemma_utf8_pos(s: Seq<char>)
    requires
        s.len() > 0,
    ensures
        utf8_len(s) > 0,
    decreases s.len(),
{
    crate::chars::lemma_utf8_len_nonneg(s.drop_last());
}


/// The blocks of the CommonMark text `cs[a..b]`.
fn parse_segment(
    cs: &Vec<char>,
    a: usize,
    b: usize,
    theme: &Theme,
    sheet: &StyleSheet,
    highlighter: CodeHighlighter,
) -> (items: Vec<MdItem>)
    requires
        a <= b <= cs@.len(),
    ensures
        parsed_items(item_views(items@), cs@.subrange(a as int, b as int), *theme, *sheet, highlighter is Plain),
{
    let segment = sub_string(cs, a, b);
    let events = commonmark_events(segment.as_str());
    let items = parse_events(events, theme, sheet, highlighter);
    proof {
        let seg = item_views(items@);
        assert(seg.map_values(|i: MdItemView| block_of(i)) =~= blocks_of(items@));
        assert forall|i: int| 0 <= i < seg.len() implies fallback_ok(#[trigger] seg[i], *theme, highlighter is Plain) by {
            assert(seg[i] == items@[i]@);
        }
    }
    items
}

/// Append `items` to `stable`, with a blank between them when `stable`
/// does not already end on one.
fn join_segment(stable: &mut Vec<MdItem>, items: Vec<MdItem>)
    ensures
        final(stable)@.len() >= old(stable)@.len(),
        item_views(final(stable)@) == item_views(old(stable)@) + (if items@.len() > 0 && old(stable)@.len() > 0
            && !(item_views(old(stable)@).last() is Blank) {
            seq![MdItemView::Blank]
        } else {
            seq![]
        }) + item_views(items@),
{
    let ghost before = item_views(stable@);
    let ghost seg = item_views(items@);
    let mut items = items;
    let n = stable.len();
    let sep = items.len() > 0 && n > 0 && match &stable[n - 1] {
        MdItem::Blank => false,
        _ => true,
    };
    if sep {
        stable.push(MdItem::Blank);
    }
    stable.append(&mut items);
    proof {
        assert(item_views(stable@) =~= before + (if seg.len() > 0 && before.len() > 0 && !(before.last() is Blank) {
            seq![MdItemView::Blank]
        } else {
            seq![]
        }) + seg);
    }
}

/// Whether every span of `line` is whitespace.
fn is_blank_line(line: &Line) -> (b: bool)
    ensures
        b == blank_line(line_spans_view(*line)),
{
    let mut i: usize = 0;
    while i < line.spans.len()
        invariant
            i <= line.spans@.len(),
            forall|j: int| 0 <= j < i ==> trim_ws(#[trigger] line.spans@[j].content@).len() == 0,
        decreases line.spans@.len() - i,
    {
        let cs = chars_of(line.spans[i].content.as_str());
        let t = trim_chars(&cs);
        if t.len() > 0 {
            proof {
                assert(line_spans_view(*line).0[i as int].0 == line.spans@[i as int].content@);
            }
            return false;
        }
        i = i + 1;
    }
    proof {
        assert forall|j: int| 0 <= j < line_spans_view(*line).0.len() implies trim_ws(
            #[trigger] line_spans_view(*line).0[j].0,
        ).len() == 0 by {
            assert(line_spans_view(*line).0[j].0 == line.spans@[j].content@);
        }
    }
    true
}

/// Append the runs of `src` to `dst`, each moved down `base` lines
/// (saturating).
fn push_shifted(dst: &mut Vec<BufferLink>, src: Vec<BufferLink>, base: u16)
    ensures
        final(dst)@.len() == old(dst)@.len() + src@.len(),
        link_views(final(dst)@) == link_views(old(dst)@) + shift_links(link_views(src@), base as int),
{
    let ghost d0 = dst@;
    let mut i: usize = 0;
    while i < src.len()
        invariant
            i <= src@.len(),
            dst@.len() == d0.len() + i,
            forall|j: int| 0 <= j < d0.len() ==> (#[trigger] dst@[j])@ == d0[j]@,
            forall|j: int|
                0 <= j < i ==> (#[trigger] dst@[d0.len() + j])@ == (
                    sadd(src@[j].line as int, base as int),
                    src@[j].start_col as int,
                    src@[j].end_col as int,
                    src@[j].url@,
                ),
        decreases src@.len() - i,
    {
        let l = &src[i];
        dst.push(
            BufferLink {
                line: l.line.saturating_add(base),
                start_col: l.start_col,
                end_col: l.end_col,
                url: l.url.clone(),
            },
        );
        proof {
            assert(dst@[d0.len() + i] == dst@[dst@.len() - 1]);
        }
        i = i + 1;
    }
    proof {
        assert forall|j: int| 0 <= j < dst@.len() implies link_views(dst@)[j] == (link_views(d0) + shift_links(
            link_views(src@),
            base as int,
        ))[j] by {
            if j >= d0.len() {
                assert(dst@[d0.len() + (j - d0.len())] == dst@[j]);
            }
        }
        assert(link_views(dst@) =~= link_views(d0) + shift_links(link_views(src@), base as int));
    }
}

/// A streaming markdown renderer as values.
pub struct StreamView {
    pub source: Seq<char>,
    /// Bytes of the settled prefix, and the characters they span.
    pub stable_len: int,
    pub stable_chars: int,
    /// Blocks parsed from the settled prefix.
    pub stable: Seq<MdItemView>,
    pub theme: Option<Theme>,
    pub sheet: Option<StyleSheet>,
    /// Lines of the last frame: settled lines, then the tail.
    pub rendered: Seq<LineView>,
    pub settled_lines: int,
    /// How many settled blocks are flattened into the settled lines.
    pub flattened: int,
    /// The width the settled lines were flattened at.
    pub width: Option<u16>,
    /// Link runs of the last frame, settled ones first.
    pub links: Seq<LinkView>,
    pub settled_links: int,
}

/// Every cache dropped.
pub open spec fn reset(v: StreamView) -> StreamView {
    StreamView {
        stable_len: 0,
        stable_chars: 0,
        stable: seq![],
        rendered: seq![],
        settled_lines: 0,
        flattened: 0,
        width: None,
        links: seq![],
        settled_links: 0,
        ..v
    }
}

/// A theme or stylesheet change drops every cache.
pub open spec fn restyle(v: StreamView, t: Theme, sh: StyleSheet) -> StreamView {
    if v.theme != Some(t) || v.sheet != Some(sh) {
        reset(StreamView { theme: Some(t), sheet: Some(sh), ..v })
    } else {
        v
    }
}

/// A width change drops the flattened lines but keeps the parsed blocks.
pub open spec fn rewidth(v: StreamView, w: u16) -> StreamView {
    if v.width != Some(w) {
        StreamView { width: Some(w), rendered: seq![], settled_lines: 0, flattened: 0, links: seq![], settled_links: 0, ..v }
    } else {
        v
    }
}

/// The blocks the CommonMark events of `src` parse to (code blocks with a
/// valid fallback).
pub open spec fn parsed_items(items: Seq<MdItemView>, src: Seq<char>, t: Theme, sh: StyleSheet, plain: bool) -> bool {
    &&& items.map_values(|i: MdItemView| block_of(i)) == parse_spec(commonmark(src), t, sh)
    &&& forall|i: int| 0 <= i < items.len() ==> fallback_ok(#[trigger] items[i], t, plain)
}

/// What flattening `items` at `width` gives for some answers of the block
/// renderers; `after` when lines come before them.
pub open spec fn flat_of(out: Flat, items: Seq<MdItemView>, width: int, t: Theme, after: bool) -> bool {
    exists|rendered: Seq<Option<Seq<LineView>>>|
        {
            &&& rendered.len() == items.len()
            &&& forall|i: int| 0 <= i < rendered.len() && rendered[i] is Some ==> renderable(items[i])
            &&& out == flatten_spec(items, width, t, rendered, items.len() as int, after)
        }
}

/// A line with nothing but whitespace.
pub open spec fn blank_line(l: LineView) -> bool {
    forall|i: int| 0 <= i < l.0.len() ==> trim_ws(#[trigger] l.0[i].0).len() == 0
}

/// `after` is `before` with `seg`, the blocks of the text `src`, appended,
/// a blank kept between them when `before` does not already end on one.
pub open spec fn settled_segment(
    before: Seq<MdItemView>,
    after: Seq<MdItemView>,
    seg: Seq<MdItemView>,
    src: Seq<char>,
    t: Theme,
    sh: StyleSheet,
    plain: bool,
) -> bool {
    &&& parsed_items(seg, src, t, sh, plain)
    &&& after == before + (if seg.len() > 0 && before.len() > 0 && !(before.last() is Blank) {
        seq![MdItemView::Blank]
    } else {
        seq![]
    }) + seg
}

/// What committing the next stable boundary does: when the boundary moves
/// past the settled prefix, the text from the old boundary up to it is
/// parsed and its blocks appended to the settled ones; otherwise nothing
/// changes.
pub open spec fn settles(v: StreamView, f: StreamView, t: Theme, sh: StyleSheet, plain: bool) -> bool {
    let b = stable_boundary_of(v.source, v.stable_chars);
    if b > v.stable_len {
        &&& f.stable_len == b
        &&& exists|seg: Seq<MdItemView>|
            settled_segment(v.stable, f.stable, seg, v.source.subrange(v.stable_chars, f.stable_chars), t, sh, plain)
    } else {
        f.stable_len == v.stable_len && f.stable_chars == v.stable_chars && f.stable == v.stable
    }
}

/// The settled lines `p` and their link runs `lp`, extended by `ns`, the
/// flattening of `items`, its link runs moved below `p`.
pub open spec fn settled_flat(
    p: Seq<LineView>,
    lp: Seq<LinkView>,
    f: StreamView,
    ns: Flat,
    items: Seq<MdItemView>,
    w: u16,
    t: Theme,
) -> bool {
    &&& flat_of(ns, items, w as int, t, p.len() > 0 && !ends_on_spacer(p))
    &&& f.rendered == p + ns.0
    &&& f.links == lp + shift_links(ns.1, (p.len() as u16) as int)
}

/// What flattening the newly settled blocks does: the previous frame's tail
/// is dropped and the blocks settled since are flattened once onto the
/// settled lines.
pub open spec fn extends(v: StreamView, f: StreamView, w: u16, t: Theme) -> bool {
    let p = v.rendered.take(v.settled_lines);
    let lp = v.links.take(v.settled_links);
    &&& f.settled_lines == f.rendered.len()
    &&& f.settled_links == f.links.len()
    &&& if v.flattened < v.stable.len() {
        &&& exists|ns: Flat| settled_flat(p, lp, f, ns, v.stable.skip(v.flattened), w, t)
        &&& f.flattened == v.stable.len()
    } else {
        &&& f.rendered == p
        &&& f.links == lp
        &&& f.flattened == v.flattened
    }
}

/// The settled part of a frame.
pub open spec fn settled_view(f: StreamView) -> StreamView {
    StreamView { rendered: f.rendered.take(f.settled_lines), links: f.links.take(f.settled_links), ..f }
}

/// The frame `f` is its settled lines, then the flattening `tf` of `tail`,
/// the blocks of the text after the settled prefix, a blank line kept
/// between the two when neither side has one.
pub open spec fn tail_frame(
    f: StreamView,
    tail: Seq<MdItemView>,
    tf: Flat,
    w: u16,
    t: Theme,
    sh: StyleSheet,
    plain: bool,
) -> bool {
    let s = f.rendered.take(f.settled_lines);
    let gap = s.len() > 0 && tf.0.len() > 0 && !blank_line(s.last()) && !blank_line(tf.0[0]);
    let g = if gap {
        seq![plain_line(seq![])]
    } else {
        Seq::<LineView>::empty()
    };
    &&& parsed_items(tail, f.source.skip(f.stable_chars), t, sh, plain)
    &&& flat_of(tf, tail, w as int, t, false)
    &&& f.rendered == s + g + tf.0
    &&& f.links == f.links.take(f.settled_links) + shift_links(tf.1, ((s + g).len() as u16) as int)
}

/// What a frame of [`MarkdownState::lines`] does to the renderer: caches
/// dropped on a theme, stylesheet or width change; the prefix up to the next
/// stable boundary parsed and appended to the settled blocks; blocks settled
/// since the last frame flattened once onto the settled lines; and the
/// in-flight tail parsed and flattened after them.
pub open spec fn lines_post(o: StreamView, f: StreamView, w: u16, t: Theme, sh: StyleSheet, plain: bool) -> bool {
    let v = rewidth(restyle(o, t, sh), w);
    &&& f.source == o.source
    &&& f.theme == Some(t)
    &&& f.sheet == Some(sh)
    &&& f.width == Some(w)
    &&& settles(v, f, t, sh, plain)
    &&& extends(StreamView { stable: f.stable, ..v }, settled_view(f), w, t)
    &&& exists|tail: Seq<MdItemView>, tf: Flat| tail_frame(f, tail, tf, w, t, sh, plain)
}

/// Settled work is kept: a frame drawn with the theme, stylesheet and width
/// of the previous one keeps every settled block and the settled lines and
/// link runs at the top of the frame, and only moves the settled boundary
/// on; the new text is parsed after them.
pub proof fn lemma_settled_prefix_kept(o: StreamView, f: StreamView, w: u16, t: Theme, sh: StyleSheet, plain: bool)
    requires
        lines_post(o, f, w, t, sh, plain),
        o.theme == Some(t),
        o.sheet == Some(sh),
        o.width == Some(w),
    ensures
        f.stable_len >= o.stable_len,
        o.stable.len() <= f.stable.len(),
        f.stable.take(o.stable.len() as int) == o.stable,
        o.rendered.take(o.settled_lines).len() <= f.rendered.len(),
        f.rendered.take(o.rendered.take(o.settled_lines).len() as int) == o.rendered.take(o.settled_lines),
        o.links.take(o.settled_links).len() <= f.links.len(),
        f.links.take(o.links.take(o.settled_links).len() as int) == o.links.take(o.settled_links),
{
    let v = rewidth(restyle(o, t, sh), w);
    assert(v == o);
    let b = stable_boundary_of(v.source, v.stable_chars);
    if b > v.stable_len {
        let seg = choose|seg: Seq<MdItemView>|
            settled_segment(v.stable, f.stable, seg, v.source.subrange(v.stable_chars, f.stable_chars), t, sh, plain);
        assert(f.stable.take(o.stable.len() as int) =~= o.stable);
    } else {
        assert(f.stable.take(o.stable.len() as int) =~= o.stable);
    }
    let p = o.rendered.take(o.settled_lines);
    let lp = o.links.take(o.settled_links);
    let sv = settled_view(f);
    let (tail, tf) = choose|tail: Seq<MdItemView>, tf: Flat| tail_frame(f, tail, tf, w, t, sh, plain);
    let s = f.rendered.take(f.settled_lines);
    let gap = s.len() > 0 && tf.0.len() > 0 && !blank_line(s.last()) && !blank_line(tf.0[0]);
    let g = if gap {
        seq![plain_line(seq![])]
    } else {
        Seq::<LineView>::empty()
    };
    assert(f.rendered == s + g + tf.0);
    if o.flattened < f.stable.len() {
        let ns = choose|ns: Flat| settled_flat(p, lp, sv, ns, f.stable.skip(o.flattened), w, t);
        assert(s == p + ns.0);
        assert(f.rendered.take(p.len() as int) =~= p);
    } else {
        assert(s == p);
        assert(f.rendered.take(p.len() as int) =~= p);
    }
    let sl = f.links.take(f.settled_links);
    assert(f.links == sl + shift_links(tf.1, ((s + g).len() as u16) as int));
    if o.flattened < f.stable.len() {
        let ns = choose|ns: Flat| settled_flat(p, lp, sv, ns, f.stable.skip(o.flattened), w, t);
        assert(sl == lp + shift_links(ns.1, (p.len() as u16) as int));
        assert(f.links.take(lp.len() as int) =~= lp);
    } else {
        assert(sl == lp);
        assert(f.links.take(lp.len() as int) =~= lp);
    }
}

/// Before anything settles, a frame is the one-shot render: when a stream
/// holds no settled text and its text has no stable boundary yet, the frame
/// is what rendering the whole text at once gives, for some answers of the
/// block renderers: the same lines, and the same link runs (rows held in
/// `u16`).
pub proof fn lemma_unsettled_frame_is_one_shot(o: StreamView, f: StreamView, w: u16, t: Theme, sh: StyleSheet, plain: bool)
    requires
        lines_post(o, f, w, t, sh, plain),
        o == reset(o),
        stable_boundary_of(o.source, 0) == 0,
    ensures
        exists|links: Seq<LinkView>|
            #[trigger] rendered_from(commonmark(f.source), w as int, t, sh, plain, 1, (f.rendered, links))
                && f.links == shift_links(links, 0),
{
    let v = rewidth(restyle(o, t, sh), w);
    assert(v.stable_chars == 0 && v.stable_len == 0 && v.stable.len() == 0);
    assert(v.settled_lines == 0 && v.settled_links == 0 && v.flattened == 0);
    assert(f.stable_chars == 0 && f.stable.len() == 0);
    let sv = settled_view(f);
    assert(sv.rendered =~= Seq::<LineView>::empty());
    assert(sv.links =~= Seq::<LinkView>::empty());
    let (tail, tf) = choose|tail: Seq<MdItemView>, tf: Flat| tail_frame(f, tail, tf, w, t, sh, plain);
    let s = f.rendered.take(f.settled_lines);
    assert(s.len() == 0);
    assert(f.rendered =~= tf.0);
    assert(f.links =~= shift_links(tf.1, 0));
    assert(f.source.skip(0) =~= f.source);
    let rendered = choose|rendered: Seq<Option<Seq<LineView>>>|
        {
            &&& rendered.len() == tail.len()
            &&& forall|i: int| 0 <= i < rendered.len() && rendered[i] is Some ==> renderable(tail[i])
            &&& tf == flatten_spec(tail, w as int, t, rendered, tail.len() as int, false)
        };
    assert(rendered_from(commonmark(f.source), w as int, t, sh, plain, 1, (f.rendered, tf.1)));
}

/// The steps of a frame compose to [`lines_post`].
proof fn lemma_frame(
    o: StreamView,
    v: StreamView,
    m1: StreamView,
    m2: StreamView,
    f: StreamView,
    w: u16,
    t: Theme,
    sh: StyleSheet,
    plain: bool,
)
    requires
        v == rewidth(restyle(o, t, sh), w),
        settles(v, m1, t, sh, plain),
        m1 == (StreamView { stable_len: m1.stable_len, stable_chars: m1.stable_chars, stable: m1.stable, ..v }),
        extends(m1, m2, w, t),
        m2 == (StreamView {
            rendered: m2.rendered,
            settled_lines: m2.settled_lines,
            flattened: m2.flattened,
            links: m2.links,
            settled_links: m2.settled_links,
            ..m1
        }),
        settled_view(f) == m2,
        exists|tail: Seq<MdItemView>, tf: Flat| #[trigger] tail_frame(f, tail, tf, w, t, sh, plain),
    ensures
        lines_post(o, f, w, t, sh, plain),
{
    assert(f.source == m2.source);
    assert(f.stable == m1.stable);
    assert(f.stable_len == m1.stable_len);
    assert(f.stable_chars == m1.stable_chars);
    assert(settles(v, f, t, sh, plain));
    let v1 = StreamView { stable: f.stable, ..v };
    assert(v1.rendered == m1.rendered);
    assert(v1.settled_lines == m1.settled_lines);
    assert(v1.links == m1.links);
    assert(v1.settled_links == m1.settled_links);
    assert(v1.flattened == m1.flattened);
    assert(v1.stable == m1.stable);
    assert(extends(v1, settled_view(f), w, t));
    assert(f.theme == Some(t));
    assert(f.sheet == Some(sh));
    assert(f.width == Some(w));
}

/// Incremental markdown renderer for streamed text: feed it deltas with
/// [`push_str`](Self::push_str) (or replace the buffer with
/// [`set`](Self::set)) and call [`lines`](Self::lines) each frame. Blocks
/// before the last stable boundary are parsed and flattened once and kept;
/// each frame redoes only the in-flight tail.
pub struct MarkdownState<'a> {
    source: String,
    stable_len: usize,
    stable_chars: usize,
    stable: Vec<MdItem>,
    cached_theme: Option<Theme>,
    cached_sheet: Option<StyleSheet>,
    rendered: Vec<Line>,
    settled_lines: usize,
    flattened_items: usize,
    rendered_width: Option<u16>,
    renderers: Renderers<'a>,
    frame_links: Vec<BufferLink>,
    settled_link_count: usize,
}

impl<'a> MarkdownState<'a> {
    pub closed spec fn model(&self) -> StreamView {
        StreamView {
            source: self.source@,
            stable_len: self.stable_len as int,
            stable_chars: self.stable_chars as int,
            stable: item_views(self.stable@),
            theme: self.cached_theme,
            sheet: self.cached_sheet,
            rendered: lines_view(self.rendered@),
            settled_lines: self.settled_lines as int,
            flattened: self.flattened_items as int,
            width: self.rendered_width,
            links: link_views(self.frame_links@),
            settled_links: self.settled_link_count as int,
        }
    }

    /// The settled prefix ends on a character boundary, the whole source's
    /// UTF-8 length fits in `usize`, and the cache counters stay within what
    /// they count.
    pub closed spec fn wf(&self) -> bool {
        &&& self.stable_chars <= self.source@.len()
        &&& utf8_len(self.source@.take(self.stable_chars as int)) == self.stable_len
        &&& utf8_len(self.source@) <= usize::MAX
        &&& self.settled_lines <= self.rendered@.len()
        &&& self.settled_link_count <= self.frame_links@.len()
        &&& self.flattened_items <= self.stable@.len()
    }

    pub closed spec fn block_renderers(&self) -> Seq<&'a dyn MarkdownBlockRenderer> {
        self.renderers.blocks@
    }

    /// An empty renderer.
    pub fn new() -> (s: MarkdownState<'a>)
        ensures
            s.wf(),
            s.model() == reset(
                StreamView {
                    source: seq![],
                    stable_len: 0,
                    stable_chars: 0,
                    stable: seq![],
                    theme: None,
                    sheet: None,
                    rendered: seq![],
                    settled_lines: 0,
                    flattened: 0,
                    width: None,
                    links: seq![],
                    settled_links: 0,
                },
            ),
            s.block_renderers().len() == 0,
    {
        let s = MarkdownState {
            source: String::new(),
            stable_len: 0,
            stable_chars: 0,
            stable: Vec::new(),
            cached_theme: None,
            cached_sheet: None,
            rendered: Vec::new(),
            settled_lines: 0,
            flattened_items: 0,
            rendered_width: None,
            renderers: Renderers::new(),
            frame_links: Vec::new(),
            settled_link_count: 0,
        };
        proof {
            assert(s.source@.take(0) =~= Seq::<char>::empty());
            assert(item_views(s.stable@) =~= Seq::<MdItemView>::empty());
            assert(lines_view(s.rendered@) =~= Seq::<LineView>::empty());
            assert(link_views(s.frame_links@) =~= Seq::<LinkView>::empty());
        }
        s
    }

    fn reset_cache(&mut self)
        requires
            old(self).wf(),
        ensures
            final(self).wf(),
            final(self).model() == reset(old(self).model()),
            final(self).block_renderers() == old(self).block_renderers(),
    {
        self.stable_len = 0;
        self.stable_chars = 0;
        self.stable.clear();
        self.rendered.clear();
        self.settled_lines = 0;
        self.flattened_items = 0;
        self.rendered_width = None;
        self.frame_links.clear();
        self.settled_link_count = 0;
        proof {
            assert(self.source@.take(0) =~= Seq::<char>::empty());
            assert(item_views(self.stable@) =~= Seq::<MdItemView>::empty());
            assert(lines_view(self.rendered@) =~= Seq::<LineView>::empty());
            assert(link_views(self.frame_links@) =~= Seq::<LinkView>::empty());
            assert(self.model() =~= reset(old(self).model()));
        }
    }

    /// Append a renderer for structured blocks (diagrams, raw HTML, ...),
    /// consulted after those added before; drops every cache.
    pub fn with_block_renderer(self, renderer: &'a dyn MarkdownBlockRenderer) -> (s: MarkdownState<'a>)
        requires
            self.wf(),
        ensures
            s.wf(),
            s.model() == reset(self.model()),
            s.block_renderers() == self.block_renderers().push(renderer),
    {
        let mut s = self;
        s.renderers.blocks.push(renderer);
        assert(s.renderers.blocks@ == self.renderers.blocks@.push(renderer));
        s.reset_cache();
        s
    }

    /// Hyperlink runs of the last frame, with rows relative to its lines.
    pub fn links(&self) -> (r: &[BufferLink])
        ensures
            link_views(r@) == self.model().links,
    {
        self.frame_links.as_slice()
    }

    /// Append a streamed delta (the settled-prefix cache is kept).
    pub fn push_str(&mut self, delta: &str)
        requires
            old(self).wf(),
            utf8_len(old(self).model().source + delta@) <= usize::MAX,
        ensures
            final(self).wf(),
            final(self).model() == (StreamView { source: old(self).model().source + delta@, ..old(self).model() }),
            final(self).block_renderers() == old(self).block_renderers(),
    {
        let ghost s0 = self.source@;
        self.source.append(delta);
        proof {
            assert((s0 + delta@).take(self.stable_chars as int) =~= s0.take(self.stable_chars as int));
        }
    }

    /// Replace the whole buffer, dropping every cache.
    pub fn set(&mut self, source: &str)
        requires
            old(self).wf(),
            utf8_len(source@) <= usize::MAX,
        ensures
            final(self).wf(),
            final(self).model() == reset(StreamView { source: source@, ..old(self).model() }),
            final(self).block_renderers() == old(self).block_renderers(),
    {
        self.source = source.to_owned();
        self.stable_len = 0;
        self.stable_chars = 0;
        proof {
            assert(self.source@.take(0) =~= Seq::<char>::empty());
        }
        self.reset_cache();
    }

    /// Commit the next stable boundary: the text up to it is parsed and its
    /// blocks appended to the settled ones.
    fn settle(
        &mut self,
        cs: &Vec<char>,
        theme: &Theme,
        sheet: &StyleSheet,
        highlighter: CodeHighlighter,
    )
        requires
            old(self).wf(),
            cs@ == old(self).source@,
        ensures
            final(self).wf(),
            settles(old(self).model(), final(self).model(), *theme, *sheet, highlighter is Plain),
            final(self).model() == (StreamView {
                stable_len: final(self).model().stable_len,
                stable_chars: final(self).model().stable_chars,
                stable: final(self).model().stable,
                ..old(self).model()
            }),
            final(self).block_renderers() == old(self).block_renderers(),
    {
        let (boundary, bchars) = scan_boundary(self.source.as_str(), self.stable_len);
        assert(boundary == stable_boundary_of(self.source@, self.stable_chars as int));
        if boundary > self.stable_len {
            proof {
                if bchars < self.stable_chars {
                    lemma_utf8_increasing(self.source@, bchars as int, self.stable_chars as int);
                }
            }
            let items = parse_segment(cs, self.stable_chars, bchars, theme, sheet, highlighter);
            let ghost before = item_views(self.stable@);
            let ghost seg = item_views(items@);
            join_segment(&mut self.stable, items);
            self.stable_len = boundary;
            self.stable_chars = bchars;
            proof {
                assert(settled_segment(
                    before,
                    item_views(self.stable@),
                    seg,
                    old(self).source@.subrange(old(self).stable_chars as int, bchars as int),
                    *theme,
                    *sheet,
                    highlighter is Plain,
                ));
                assert(utf8_len(self.source@.take(self.stable_chars as int)) == self.stable_len);
                assert(self.stable_chars <= self.source@.len());
                assert(utf8_len(self.source@) <= usize::MAX);
                assert(self.flattened_items <= self.stable@.len());
                assert(self.model().stable == item_views(self.stable@));
                assert(self.model().source == old(self).model().source);
                assert(self.model().stable_len == boundary);
                assert(stable_boundary_of(old(self).model().source, old(self).model().stable_chars) == boundary);
                assert(boundary > old(self).model().stable_len);
                assert(old(self).model().stable == before);
                assert(settles(old(self).model(), self.model(), *theme, *sheet, highlighter is Plain));
            }
        }
    }

    /// Drop the previous frame's tail and flatten the blocks settled since
    /// onto the settled lines.
    fn extend_settled(&mut self, width: u16, theme: &Theme, sheet: &StyleSheet)
        requires
            old(self).wf(),
        ensures
            final(self).wf(),
            extends(old(self).model(), final(self).model(), width, *theme),
            final(self).model() == (StreamView {
                rendered: final(self).model().rendered,
                settled_lines: final(self).model().settled_lines,
                flattened: final(self).model().flattened,
                links: final(self).model().links,
                settled_links: final(self).model().settled_links,
                ..old(self).model()
            }),
            final(self).block_renderers() == old(self).block_renderers(),
    {
        let ghost o = self.model();
        self.rendered.truncate(self.settled_lines);
        self.frame_links.truncate(self.settled_link_count);
        proof {
            assert(lines_view(self.rendered@) =~= o.rendered.take(o.settled_lines));
            assert(link_views(self.frame_links@) =~= o.links.take(o.settled_links));
        }
        if self.flattened_items < self.stable.len() {
            let base = #[verifier::truncate] (self.rendered.len() as u16);
            let ghost p = lines_view(self.rendered@);
            let (_, rest) = self.stable.as_slice().split_at(self.flattened_items);
            let n = self.rendered.len();
            let after = n > 0 && !is_spacer(&self.rendered[n - 1]);
            let (mut settled, settled_links) = flatten_linked_after(rest, width, theme, sheet, &self.renderers, after);
            let ghost ns = (lines_view(settled@), link_views(settled_links@));
            proof {
                assert(item_views(rest@) =~= o.stable.skip(o.flattened));
            }
            push_shifted(&mut self.frame_links, settled_links, base);
            self.rendered.append(&mut settled);
            self.flattened_items = self.stable.len();
            self.settled_lines = self.rendered.len();
            self.settled_link_count = self.frame_links.len();
            proof {
                assert(lines_view(self.rendered@) =~= p + ns.0);
                assert(settled_flat(
                    o.rendered.take(o.settled_lines),
                    o.links.take(o.settled_links),
                    self.model(),
                    ns,
                    o.stable.skip(o.flattened),
                    width,
                    *theme,
                ));
            }
        } else {
            self.settled_lines = self.rendered.len();
            self.settled_link_count = self.frame_links.len();
        }
    }

    /// Drop every cache on a theme or stylesheet change, and the flattened
    /// lines on a width change.
    fn revalidate(&mut self, width: u16, theme: &Theme, sheet: &StyleSheet)
        requires
            old(self).wf(),
        ensures
            final(self).wf(),
            final(self).model() == rewidth(restyle(old(self).model(), *theme, *sheet), width),
            final(self).block_renderers() == old(self).block_renderers(),
    {
        let ghost o = self.model();
        let same_theme = match self.cached_theme {
            Some(t0) => t0 == *theme,
            None => false,
        };
        let same_sheet = match self.cached_sheet {
            Some(s0) => s0 == *sheet,
            None => false,
        };
        if !same_theme || !same_sheet {
            self.cached_theme = Some(*theme);
            self.cached_sheet = Some(*sheet);
            self.reset_cache();
        }
        proof {
            assert(self.model() == restyle(o, *theme, *sheet));
        }
        let same_width = match self.rendered_width {
            Some(w0) => w0 == width,
            None => false,
        };
        if !same_width {
            self.rendered_width = Some(width);
            self.rendered.clear();
            self.settled_lines = 0;
            self.flattened_items = 0;
            self.frame_links.clear();
            self.settled_link_count = 0;
            proof {
                assert(lines_view(self.rendered@) =~= Seq::<LineView>::empty());
                assert(link_views(self.frame_links@) =~= Seq::<LinkView>::empty());
            }
        }
    }

    /// Parse and flatten the in-flight tail after the settled lines.
    #[verifier::rlimit(40)]
    #[verifier::spinoff_prover]
    fn append_tail(
        &mut self,
        cs: &Vec<char>,
        width: u16,
        theme: &Theme,
        sheet: &StyleSheet,
        highlighter: CodeHighlighter,
    )
        requires
            old(self).wf(),
            cs@ == old(self).source@,
            old(self).settled_lines == old(self).rendered@.len(),
            old(self).settled_link_count == old(self).frame_links@.len(),
        ensures
            final(self).wf(),
            settled_view(final(self).model()) == old(self).model(),
            exists|tail: Seq<MdItemView>, tf: Flat| #[trigger] tail_frame(final(self).model(), tail, tf, width, *theme, *sheet, highlighter is Plain),
            final(self).block_renderers() == old(self).block_renderers(),
    {
        let ghost m2 = self.model();
        let tail = parse_segment(cs, self.stable_chars, cs.len(), theme, sheet, highlighter);
        let (mut tail_lines, tail_links) = flatten_linked(tail.as_slice(), width, theme, sheet, &self.renderers);
        let ghost tv = item_views(tail@);
        let ghost tf = (lines_view(tail_lines@), link_views(tail_links@));
        let n = self.rendered.len();
        let gap = n > 0 && tail_lines.len() > 0 && !is_blank_line(&self.rendered[n - 1]) && !is_blank_line(
            &tail_lines[0],
        );
        if gap {
            self.rendered.push(Line::new());
        }
        let ghost sg = lines_view(self.rendered@);
        let tail_base = #[verifier::truncate] (self.rendered.len() as u16);
        self.rendered.append(&mut tail_lines);
        push_shifted(&mut self.frame_links, tail_links, tail_base);
        proof {
            let f = self.model();
            if gap {
                assert(line_spans_view(self.rendered@[n as int]).0 =~= Seq::<(Seq<char>, Style)>::empty());
                assert(sg =~= m2.rendered + seq![plain_line(seq![])]);
            } else {
                assert(sg =~= m2.rendered);
            }
            assert(f.rendered.take(f.settled_lines) =~= m2.rendered);
            assert(f.links.take(f.settled_links) =~= m2.links);
            assert(lines_view(self.rendered@) =~= sg + tf.0);
            assert(settled_view(f) == m2);
            assert(flat_of(tf, tv, width as int, *theme, false));
            assert(cs@.subrange(self.stable_chars as int, cs@.len() as int) =~= f.source.skip(f.stable_chars));
            assert(tail_frame(f, tv, tf, width, *theme, *sheet, highlighter is Plain));
            assert(self.settled_lines <= self.rendered@.len());
            assert(self.settled_link_count <= self.frame_links@.len());
            assert(self.flattened_items <= self.stable@.len());
            assert(utf8_len(self.source@.take(self.stable_chars as int)) == self.stable_len);
        }
    }

    /// This frame's lines: caches dropped on a theme, stylesheet or width
    /// change; the next stable boundary committed; newly settled blocks
    /// flattened once; and the in-flight tail parsed as CommonMark and
    /// flattened after them. `highlighter` colors fenced code.
    pub fn lines(
        &mut self,
        width: u16,
        theme: &Theme,
        sheet: &StyleSheet,
        highlighter: CodeHighlighter,
    ) -> (r: &[Line])
        requires
            old(self).wf(),
        ensures
            final(self).wf(),
            lines_post(old(self).model(), final(self).model(), width, *theme, *sheet, highlighter is Plain),
            lines_view(r@) == final(self).model().rendered,
            final(self).block_renderers() == old(self).block_renderers(),
    {
        let ghost o = self.model();
        self.revalidate(width, theme, sheet);
        let ghost v = self.model();
        let cs = chars_of(self.source.as_str());
        self.settle(&cs, theme, sheet, highlighter);
        let ghost m1 = self.model();
        self.extend_settled(width, theme, sheet);
        let ghost m2 = self.model();
        self.append_tail(&cs, width, theme, sheet, highlighter);
        proof {
            lemma_frame(o, v, m1, m2, self.model(), width, *theme, *sheet, highlighter is Plain);
        }
        self.rendered.as_slice()
    }

    /// Bytes of the settled prefix.
    pub fn stable_len(&self) -> (n: usize)
        ensures
            n == self.model().stable_len,
    {
        self.stable_len
    }

    /// Blocks parsed from the settled prefix.
    pub fn stable(&self) -> (r: &[MdItem])
        ensures
            item_views(r@) == self.model().stable,
    {
        self.stable.as_slice()
    }

    /// The theme the caches were built under.
    pub fn cached_theme(&self) -> (r: Option<Theme>)
        ensures
            r == self.model().theme,
    {
        self.cached_theme
    }

    /// The source so far.
    pub fn source(&self) -> (r: &str)
        ensures
            r@ == self.model().source,
    {
        self.source.as_str()
    }
}

} // verus!
