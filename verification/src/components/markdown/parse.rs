//! Pass one of markdown rendering: a CommonMark event stream to
//! width-independent blocks. Block structure, inline styling, links, code
//! fences, tables and inline HTML are resolved here; line breaks come later.

use vstd::prelude::*;
use crate::chars::{find_chars, find_from, is_white_space, lead_end, sub_string, trail_start, trim_chars, trim_ws, white_space};
use crate::graphemes::chars_of;
use crate::style::{Modifier, Style, StyleBundle, StyleSheet, Theme};
use crate::components::code_block::{code_rows_spec, code_rows_view, code_block_rows, strings_view, CodeHighlighter, LineView, decimal};
use crate::components::text::split_newlines_exec;
use crate::chars::same_chars;
use crate::components::text::split_newlines;
use super::item::{RichSpan, RichView, rich_views, href_view, clone_href, ColumnAlign, TableView, TableData, MdItem, MdItemView, INDENT, item_views, cells_view, Cell};
use super::flatten::{flatten_linked, flatten_spec, lines_view, renderable, Renderers};
use super::item::{BufferLink, LinkView, link_views};
use crate::text::Line;
use super::html::{Effect, EffectModel, MAX_NESTING, Script, classify, classify_tag, script_all, transliterate};

verus! {

/// Trailing characters a bare URL does not keep.
pub open spec fn is_trail_punct(c: char) -> bool {
    c == '.' || c == ',' || c == ';' || c == ':' || c == '!' || c == '?' || c == ')' || c == ']'
}

/// The first whitespace at or after `i` (the end when there is none).
pub open spec fn ws_from(cs: Seq<char>, i: int) -> int
    decreases cs.len() - i,
{
    if i < 0 || i >= cs.len() {
        cs.len() as int
    } else if is_white_space(cs[i]) {
        i
    } else {
        ws_from(cs, i + 1)
    }
}

/// `j` moved left past trailing punctuation, not below `a`.
pub open spec fn punct_trim(cs: Seq<char>, a: int, j: int) -> int
    decreases j - a,
{
    if j > a && is_trail_punct(cs[j - 1]) {
        punct_trim(cs, a, j - 1)
    } else {
        j
    }
}

pub open spec fn http_lit() -> Seq<char> {
    seq!['h', 't', 't', 'p', ':', '/', '/']
}

pub open spec fn https_lit() -> Seq<char> {
    seq!['h', 't', 't', 'p', 's', ':', '/', '/']
}

/// Where the next bare URL starts at or after `p`: the earlier of the
/// first `http://` and the first `https://`.
pub open spec fn link_start(cs: Seq<char>, p: int) -> Option<int> {
    match find_from(cs, http_lit(), p) {
        Some(a) => match find_from(cs, https_lit(), p) {
            Some(b) => Some(if a <= b { a } else { b }),
            None => Some(a),
        },
        None => find_from(cs, https_lit(), p),
    }
}

pub proof fn lemma_link_start(cs: Seq<char>, p: int)
    requires
        p >= 0,
    ensures
        link_start(cs, p) matches Some(s) ==> p <= s && s < cs.len(),
{
    crate::chars::lemma_find_from_found(cs, http_lit(), p);
    crate::chars::lemma_find_from_found(cs, https_lit(), p);
}

pub proof fn lemma_ws_from(cs: Seq<char>, i: int)
    requires
        0 <= i <= cs.len(),
    ensures
        i <= ws_from(cs, i) <= cs.len(),
    decreases cs.len() - i,
{
    if i < cs.len() && !is_white_space(cs[i]) {
        lemma_ws_from(cs, i + 1);
    }
}

pub proof fn lemma_punct_trim(cs: Seq<char>, a: int, j: int)
    requires
        a <= j,
    ensures
        a <= punct_trim(cs, a, j) <= j,
    decreases j - a,
{
    if j > a && is_trail_punct(cs[j - 1]) {
        lemma_punct_trim(cs, a, j - 1);
    }
}

/// The runs of `cs[p..]`: plain text in `base`, each bare URL in `link`
/// linking to itself. A URL runs to the next whitespace, minus trailing
/// punctuation.
pub open spec fn linkify_at(cs: Seq<char>, p: int, base: Style, link: Style) -> Seq<RichView>
    decreases cs.len() - p,
{
    if p < 0 || p > cs.len() {
        seq![]
    } else {
        match link_start(cs, p) {
            None => if p < cs.len() {
                seq![(cs.subrange(p, cs.len() as int), base, None)]
            } else {
                seq![]
            },
            Some(st) => {
                proof {
                    lemma_link_start(cs, p);
                }
                if st < p || st >= cs.len() {
                    seq![]
                } else {
                    let raw = ws_from(cs, st);
                    let end = punct_trim(cs, st, raw);
                    let cut = if end > st { end } else { st + 1 };
                    proof {
                        lemma_ws_from(cs, st);
                        lemma_punct_trim(cs, st, raw);
                    }
                    let url = cs.subrange(st, cut);
                    (if st > p { seq![(cs.subrange(p, st), base, None)] } else { seq![] }) + seq![
                        (url, link, Some(url)),
                    ] + linkify_at(cs, cut, base, link)
                }
            },
        }
    }
}

/// Bare `http(s)://` URLs in `text` styled with `link` laid over `base`,
/// each linking to itself; the rest stays in `base`.
pub open spec fn linkify_spec(text: Seq<char>, base: Style, link: StyleBundle) -> Seq<RichView> {
    let s = linkify_at(text, 0, base, base.spec_patch(link.style));
    if s.len() == 0 {
        seq![(text, base, None)]
    } else {
        s
    }
}

/// A character a linked URL may not end on: `. , ; : ! ? ) ]`.
pub open spec fn closing_punct(c: char) -> bool {
    c == '.' || c == ',' || c == ';' || c == ':' || c == '!' || c == '?' || c == ')' || c == ']'
}

/// The text a sequence of runs shows, end to end.
pub open spec fn run_texts(runs: Seq<RichView>) -> Seq<char> {
    runs.map_values(|r: RichView| r.0).flatten()
}

/// A linked run: it links to exactly its own text, which starts `http://`
/// or `https://`, holds no whitespace and does not end on `. , ; : ! ? ) ]`.
pub open spec fn url_run(run: RichView) -> bool {
    &&& run.2 == Some(run.0)
    &&& (run.0.len() >= 7 && run.0.subrange(0, 7) == seq!['h', 't', 't', 'p', ':', '/', '/']) || (run.0.len() >= 8
        && run.0.subrange(0, 8) == seq!['h', 't', 't', 'p', 's', ':', '/', '/'])
    &&& forall|k: int| 0 <= k < run.0.len() ==> !is_white_space(#[trigger] run.0[k])
    &&& run.0.last() != '.' && run.0.last() != ',' && run.0.last() != ';' && run.0.last() != ':'
    &&& run.0.last() != '!' && run.0.last() != '?' && run.0.last() != ')' && run.0.last() != ']'
}

proof fn lemma_ws_from_props(cs: Seq<char>, i: int)
    requires
        0 <= i <= cs.len(),
    ensures
        i <= ws_from(cs, i) <= cs.len(),
        forall|k: int| i <= k < ws_from(cs, i) ==> !is_white_space(#[trigger] cs[k]),
        ws_from(cs, i) < cs.len() ==> is_white_space(cs[ws_from(cs, i)]),
    decreases cs.len() - i,
{
    if i < cs.len() && !is_white_space(cs[i]) {
        lemma_ws_from_props(cs, i + 1);
    }
}

proof fn lemma_punct_trim_props(cs: Seq<char>, a: int, j: int)
    requires
        0 <= a <= j <= cs.len(),
    ensures
        a <= punct_trim(cs, a, j) <= j,
        forall|k: int| punct_trim(cs, a, j) <= k < j ==> is_trail_punct(#[trigger] cs[k]),
        forall|k: int| a < k <= j && !is_trail_punct(#[trigger] cs[k - 1]) ==> punct_trim(cs, a, j) >= k,
        punct_trim(cs, a, j) > a ==> !is_trail_punct(cs[punct_trim(cs, a, j) - 1]),
    decreases j - a,
{
    if j > a && is_trail_punct(cs[j - 1]) {
        lemma_punct_trim_props(cs, a, j - 1);
    }
}

proof fn lemma_run_texts_split(x: Seq<RichView>, y: Seq<RichView>)
    ensures
        run_texts(x + y) == run_texts(x) + run_texts(y),
{
    assert((x + y).map_values(|r: RichView| r.0) =~= x.map_values(|r: RichView| r.0) + y.map_values(
        |r: RichView| r.0,
    ));
    vstd::seq_lib::lemma_flatten_concat(x.map_values(|r: RichView| r.0), y.map_values(|r: RichView| r.0));
}

proof fn lemma_run_texts_one(r: RichView)
    ensures
        run_texts(seq![r]) == r.0,
{
    let m = seq![r].map_values(|x: RichView| x.0);
    assert(m =~= seq![r.0]);
    assert(m.drop_first() =~= Seq::<Seq<char>>::empty());
    assert(m.flatten() =~= r.0 + Seq::<Seq<char>>::empty().flatten());
}

/// The runs of `cs[p..]`: they spell it out exactly; each linked run is a
/// URL run in `link`, each other run is in `base`; a linked run is followed,
/// if by anything, by plain text starting with whitespace or trailing
/// punctuation; the first run starts with `cs[p]`.
#[verifier::rlimit(40)]
proof fn lemma_linkify_at_shape(cs: Seq<char>, p: int, base: Style, link: Style)
    requires
        0 <= p <= cs.len(),
    ensures
        ({
            let l = linkify_at(cs, p, base, link);
            &&& run_texts(l) == cs.skip(p)
            &&& forall|i: int| 0 <= i < l.len() ==> (#[trigger] l[i]).0.len() > 0
            &&& forall|i: int| 0 <= i < l.len() && (#[trigger] l[i]).2 is Some ==> url_run(l[i]) && l[i].1 == link
            &&& forall|i: int| 0 <= i < l.len() && (#[trigger] l[i]).2 is None ==> l[i].1 == base
            &&& forall|i: int|
                0 <= i < l.len() - 1 && (#[trigger] l[i]).2 is Some ==> l[i + 1].2 is None && (is_white_space(
                    l[i + 1].0[0],
                ) || closing_punct(l[i + 1].0[0]))
            &&& l.len() > 0 ==> l[0].0[0] == cs[p] && (l[0].2 is Some ==> cs[p] == 'h')
        }),
    decreases cs.len() - p,
{
    let l = linkify_at(cs, p, base, link);
    lemma_link_start(cs, p);
    match link_start(cs, p) {
        None => {
            if p < cs.len() {
                lemma_run_texts_one((cs.subrange(p, cs.len() as int), base, None));
                assert(cs.subrange(p, cs.len() as int) =~= cs.skip(p));
            } else {
                assert(l =~= Seq::<RichView>::empty());
                assert(run_texts(l) =~= Seq::<char>::empty());
                assert(cs.skip(p) =~= Seq::<char>::empty());
            }
        },
        Some(st) => {
            crate::chars::lemma_find_from_found(cs, http_lit(), p);
            crate::chars::lemma_find_from_found(cs, https_lit(), p);
            let is_http = find_from(cs, http_lit(), p) == Some(st);
            let n: int = if is_http { 7 } else { 8 };
            let lit = if is_http { http_lit() } else { https_lit() };
            assert(st + n <= cs.len() && cs.subrange(st, st + n) == lit);
            assert forall|k: int| st <= k < st + n implies !is_white_space(#[trigger] cs[k]) && cs[k] == lit[k - st] by {
                assert(cs[k] == cs.subrange(st, st + n)[k - st]);
            }
            assert(cs[st] == 'h');
            assert(!is_trail_punct(cs[st + n - 1]));
            let raw = ws_from(cs, st);
            lemma_ws_from_props(cs, st);
            if raw < st + n {
                assert(!is_white_space(cs[raw]));
            }
            assert(raw >= st + n);
            lemma_punct_trim_props(cs, st, raw);
            let end = punct_trim(cs, st, raw);
            assert(end >= st + n);
            let cut = end;
            let url = cs.subrange(st, cut);
            assert(url.subrange(0, n) =~= lit);
            assert(url.last() == cs[cut - 1]);
            assert forall|k: int| 0 <= k < url.len() implies !is_white_space(#[trigger] url[k]) by {
                assert(url[k] == cs[st + k]);
            }
            lemma_linkify_at_shape(cs, cut, base, link);
            let pre = if st > p { seq![(cs.subrange(p, st), base, None)] } else { Seq::<RichView>::empty() };
            let rest = linkify_at(cs, cut, base, link);
            let mid = seq![(url, link, Some(url))];
            assert(l == pre + mid + rest);
            // Text: the plain lead, the URL, the rest.
            lemma_run_texts_split(pre + mid, rest);
            lemma_run_texts_split(pre, mid);
            lemma_run_texts_one((url, link, Some(url)));
            if st > p {
                lemma_run_texts_one((cs.subrange(p, st), base, None));
                assert(cs.subrange(p, st) + url + cs.skip(cut) =~= cs.skip(p));
            } else {
                assert(run_texts(pre) =~= Seq::<char>::empty()) by {
                    assert(pre.map_values(|r: RichView| r.0) =~= Seq::<Seq<char>>::empty());
                }
                assert(url + cs.skip(cut) =~= cs.skip(p));
            }
            // What follows the URL.
            if cut < cs.len() {
                if cut < raw {
                    assert(is_trail_punct(cs[cut]));
                } else {
                    assert(is_white_space(cs[cut]));
                }
                assert(rest.len() > 0) by {
                    assert(run_texts(rest).len() > 0);
                    if rest.len() == 0 {
                        assert(rest.map_values(|r: RichView| r.0) =~= Seq::<Seq<char>>::empty());
                    }
                }
            }
            let k = pre.len() as int;
            assert forall|i: int| 0 <= i < l.len() implies (#[trigger] l[i]).0.len() > 0 by {
                if i > k {
                    assert(l[i] == rest[i - k - 1]);
                }
            }
            assert forall|i: int| 0 <= i < l.len() && (#[trigger] l[i]).2 is Some implies url_run(l[i]) && l[i].1
                == link by {
                if i > k {
                    assert(l[i] == rest[i - k - 1]);
                }
            }
            assert forall|i: int| 0 <= i < l.len() && (#[trigger] l[i]).2 is None implies l[i].1 == base by {
                if i > k {
                    assert(l[i] == rest[i - k - 1]);
                }
            }
            assert forall|i: int| 0 <= i < l.len() - 1 && (#[trigger] l[i]).2 is Some implies l[i + 1].2 is None && (
            is_white_space(l[i + 1].0[0]) || closing_punct(l[i + 1].0[0])) by {
                if i > k {
                    assert(l[i] == rest[i - k - 1]);
                    assert(l[i + 1] == rest[i - k]);
                } else {
                    assert(i == k);
                    assert(l[i + 1] == rest[0]);
                }
            }
        },
    }
}

/// Linking bare URLs keeps the text and links only URLs: the runs spell
/// out `text` exactly; every linked run links to exactly its own text, in
/// the `link` role over `base`, starts `http://` or `https://`, holds no
/// whitespace and never ends on trailing punctuation (`. , ; : ! ? ) ]`);
/// a linked run is followed, if by anything, by plain text starting with
/// whitespace or that punctuation; every other run is plain `base`.
pub proof fn lemma_linkify_hrefs(text: Seq<char>, base: Style, link: StyleBundle)
    ensures
        ({
            let runs = linkify_spec(text, base, link);
            &&& run_texts(runs) == text
            &&& forall|i: int| 0 <= i < runs.len() && (#[trigger] runs[i]).2 is Some ==> url_run(runs[i]) && runs[i].1
                == base.spec_patch(link.style)
            &&& forall|i: int| 0 <= i < runs.len() && (#[trigger] runs[i]).2 is None ==> runs[i].1 == base
            &&& forall|i: int|
                0 <= i < runs.len() - 1 && (#[trigger] runs[i]).2 is Some ==> runs[i + 1].2 is None && runs[i
                    + 1].0.len() > 0 && {
                    let c = runs[i + 1].0[0];
                    is_white_space(c) || c == '.' || c == ',' || c == ';' || c == ':' || c == '!' || c == '?' || c
                        == ')' || c == ']'
                }
        }),
{
    let st = base.spec_patch(link.style);
    lemma_linkify_at_shape(text, 0, base, st);
    assert(text.skip(0) =~= text);
    if linkify_at(text, 0, base, st).len() == 0 {
        lemma_run_texts_one((text, base, None));
    }
}

fn lit_chars(s: &str) -> (r: Vec<char>)
    ensures
        r@ == s@,
{
    chars_of(s)
}

fn is_punct(c: char) -> (b: bool)
    ensures
        b == is_trail_punct(c),
{
    c == '.' || c == ',' || c == ';' || c == ':' || c == '!' || c == '?' || c == ')' || c == ']'
}

/// Where the next bare URL starts at or after `p` (see [`link_start`]).
fn next_link(cs: &Vec<char>, http: &Vec<char>, https: &Vec<char>, p: usize) -> (r: Option<usize>)
    requires
        http@ == http_lit(),
        https@ == https_lit(),
    ensures
        match link_start(cs@, p as int) {
            Some(j) => r == Some(j as usize),
            None => r is None,
        },
{
    let n = cs.len();
    let first_http = find_chars(cs, http, p);
    let first_https = find_chars(cs, https, p);
    proof {
        crate::chars::lemma_find_from_found(cs@, http_lit(), p as int);
        crate::chars::lemma_find_from_found(cs@, https_lit(), p as int);
        assert(cs@.len() == n);
        match find_from(cs@, http_lit(), p as int) {
            Some(j) => assert(first_http == Some(j as usize)),
            None => assert(first_http is None),
        }
        match find_from(cs@, https_lit(), p as int) {
            Some(j) => assert(first_https == Some(j as usize)),
            None => assert(first_https is None),
        }
    }
    match first_http {
        Some(a) => match first_https {
            Some(b) => Some(if a <= b { a } else { b }),
            None => Some(a),
        },
        None => first_https,
    }
}

/// Style bare `http(s)://` URLs in `text` with the `link` role laid over
/// `base` (see [`linkify_spec`]); each URL run links to itself.
pub fn linkify(text: &str, base: Style, link: StyleBundle) -> (spans: Vec<RichSpan>)
    ensures
        rich_views(spans@) == linkify_spec(text@, base, link),
{
    let cs = chars_of(text);
    let http = lit_chars("http://");
    let https = lit_chars("https://");
    proof {
        reveal_strlit("http://");
        reveal_strlit("https://");
        assert(http@ =~= http_lit());
        assert(https@ =~= https_lit());
    }
    let link_style = link.apply(base);
    let mut spans: Vec<RichSpan> = Vec::new();
    let mut p: usize = 0;
    loop
        invariant_except_break
            rich_views(spans@) + linkify_at(cs@, p as int, base, link_style) == linkify_at(cs@, 0, base, link_style),
        invariant
            p <= cs@.len(),
            cs@ == text@,
            http@ == http_lit(),
            https@ == https_lit(),
            link_style == base.spec_patch(link.style),
        ensures
            rich_views(spans@) == linkify_at(cs@, 0, base, link_style),
        decreases cs@.len() - p,
    {
        let found = next_link(&cs, &http, &https, p);
        proof {
            lemma_link_start(cs@, p as int);
        }
        match found {
            None => {
                let ghost pre = rich_views(spans@);
                if p < cs.len() {
                    let rest = sub_string(&cs, p, cs.len());
                    spans.push(RichSpan { content: rest, style: base, href: None });
                    proof {
                        assert(rich_views(spans@) =~= pre.push((cs@.subrange(p as int, cs@.len() as int), base, None)));
                    }
                }
                proof {
                    assert(rich_views(spans@) =~= pre + linkify_at(cs@, p as int, base, link_style));
                }
                break;
            },
            Some(st) => {
                let mut raw = st;
                proof {
                    lemma_ws_from(cs@, st as int);
                }
                while raw < cs.len() && !white_space(cs[raw])
                    invariant
                        st <= raw <= cs@.len(),
                        ws_from(cs@, st as int) == ws_from(cs@, raw as int),
                    decreases cs@.len() - raw,
                {
                    raw = raw + 1;
                }
                let mut end = raw;
                proof {
                    lemma_punct_trim(cs@, st as int, raw as int);
                }
                while end > st && is_punct(cs[end - 1])
                    invariant
                        st <= end <= raw <= cs@.len(),
                        punct_trim(cs@, st as int, raw as int) == punct_trim(cs@, st as int, end as int),
                    decreases end - st,
                {
                    end = end - 1;
                }
                let cut = if end > st { end } else { st + 1 };
                let ghost pre = rich_views(spans@);
                if st > p {
                    let before = sub_string(&cs, p, st);
                    spans.push(RichSpan { content: before, style: base, href: None });
                }
                let ghost mid = rich_views(spans@);
                let url = sub_string(&cs, st, cut);
                let target = sub_string(&cs, st, cut);
                spans.push(RichSpan { content: url, style: link_style, href: Some(target) });
                proof {
                    let u = cs@.subrange(st as int, cut as int);
                    if st > p {
                        assert(mid =~= pre.push((cs@.subrange(p as int, st as int), base, None)));
                    } else {
                        assert(mid =~= pre);
                    }
                    assert(rich_views(spans@) =~= mid.push((u, link_style, Some(u))));
                    assert(rich_views(spans@) + linkify_at(cs@, cut as int, base, link_style) =~= pre + linkify_at(
                        cs@,
                        p as int,
                        base,
                        link_style,
                    ));
                }
                p = cut;
            },
        }
    }
    if spans.len() == 0 {
        spans.push(RichSpan { content: text.to_owned(), style: base, href: None });
        proof {
            assert(rich_views(spans@) =~= linkify_spec(text@, base, link));
        }
    }
    spans
}


/// How a code block was opened: a fence with its info string, or indentation.
#[derive(Debug)]
pub enum CodeKind {
    Fenced(String),
    Indented,
}

/// The start of a block or inline span in the event stream.
#[derive(Debug)]
pub enum MdTag {
    Paragraph,
    /// A heading of level 1 to 6.
    Heading(u8),
    BlockQuote,
    CodeBlock(CodeKind),
    HtmlBlock,
    /// A list: ordered from the given number, or bulleted.
    List(Option<u64>),
    Item,
    Emphasis,
    Strong,
    Strikethrough,
    /// A link to the given destination.
    Link(String),
    /// An image at the given destination; its alt text follows as text.
    Image(String),
    Table(Vec<ColumnAlign>),
    TableHead,
    TableRow,
    TableCell,
    /// Anything this renderer does not style.
    Other,
}

/// The end of a block or inline span.
#[derive(Debug, Clone, Copy, PartialEq, Eq, Structural)]
pub enum MdTagEnd {
    Paragraph,
    Heading,
    BlockQuote,
    CodeBlock,
    HtmlBlock,
    List,
    Item,
    Emphasis,
    Strong,
    Strikethrough,
    Link,
    Image,
    Table,
    TableHead,
    TableRow,
    TableCell,
    Other,
}

/// One event of a CommonMark parse.
#[derive(Debug)]
pub enum MdEvent {
    Start(MdTag),
    End(MdTagEnd),
    Text(String),
    /// Inline code.
    Code(String),
    /// Raw block-level HTML.
    Html(String),
    /// Raw inline HTML (one tag).
    InlineHtml(String),
    SoftBreak,
    HardBreak,
    Rule,
    /// A task-list checkbox, checked or not.
    TaskListMarker(bool),
    Other,
}

pub enum CodeKindV {
    Fenced(Seq<char>),
    Indented,
}

pub enum MdTagV {
    Paragraph,
    Heading(u8),
    BlockQuote,
    CodeBlock(CodeKindV),
    HtmlBlock,
    List(Option<u64>),
    Item,
    Emphasis,
    Strong,
    Strikethrough,
    Link(Seq<char>),
    Image(Seq<char>),
    Table(Seq<ColumnAlign>),
    TableHead,
    TableRow,
    TableCell,
    Other,
}

/// An event as values.
pub enum MdEventV {
    Start(MdTagV),
    End(MdTagEnd),
    Text(Seq<char>),
    Code(Seq<char>),
    Html(Seq<char>),
    InlineHtml(Seq<char>),
    SoftBreak,
    HardBreak,
    Rule,
    TaskListMarker(bool),
    Other,
}

impl View for MdTag {
    type V = MdTagV;

    open spec fn view(&self) -> MdTagV {
        match self {
            MdTag::Paragraph => MdTagV::Paragraph,
            MdTag::Heading(l) => MdTagV::Heading(*l),
            MdTag::BlockQuote => MdTagV::BlockQuote,
            MdTag::CodeBlock(k) => MdTagV::CodeBlock(
                match k {
                    CodeKind::Fenced(info) => CodeKindV::Fenced(info@),
                    CodeKind::Indented => CodeKindV::Indented,
                },
            ),
            MdTag::HtmlBlock => MdTagV::HtmlBlock,
            MdTag::List(s) => MdTagV::List(*s),
            MdTag::Item => MdTagV::Item,
            MdTag::Emphasis => MdTagV::Emphasis,
            MdTag::Strong => MdTagV::Strong,
            MdTag::Strikethrough => MdTagV::Strikethrough,
            MdTag::Link(d) => MdTagV::Link(d@),
            MdTag::Image(d) => MdTagV::Image(d@),
            MdTag::Table(a) => MdTagV::Table(a@),
            MdTag::TableHead => MdTagV::TableHead,
            MdTag::TableRow => MdTagV::TableRow,
            MdTag::TableCell => MdTagV::TableCell,
            MdTag::Other => MdTagV::Other,
        }
    }
}

impl View for MdEvent {
    type V = MdEventV;

    open spec fn view(&self) -> MdEventV {
        match self {
            MdEvent::Start(t) => MdEventV::Start(t@),
            MdEvent::End(t) => MdEventV::End(*t),
            MdEvent::Text(s) => MdEventV::Text(s@),
            MdEvent::Code(s) => MdEventV::Code(s@),
            MdEvent::Html(s) => MdEventV::Html(s@),
            MdEvent::InlineHtml(s) => MdEventV::InlineHtml(s@),
            MdEvent::SoftBreak => MdEventV::SoftBreak,
            MdEvent::HardBreak => MdEventV::HardBreak,
            MdEvent::Rule => MdEventV::Rule,
            MdEvent::TaskListMarker(b) => MdEventV::TaskListMarker(*b),
            MdEvent::Other => MdEventV::Other,
        }
    }
}

pub open spec fn event_views(v: Seq<MdEvent>) -> Seq<MdEventV> {
    v.map_values(|e: MdEvent| e@)
}

/// A parsed block with its code-block fallback rows left out.
pub enum Block {
    Prose(Seq<RichView>, int),
    Code(Seq<char>, Seq<char>, int),
    Table(TableView, int),
    Html(Seq<char>, int),
    Blank,
}

pub open spec fn block_of(v: MdItemView) -> Block {
    match v {
        MdItemView::Prose(s, i) => Block::Prose(s, i),
        MdItemView::CodeBlock(l, s, _, i) => Block::Code(l, s, i),
        MdItemView::Table(t, i) => Block::Table(t, i),
        MdItemView::Html(s, i) => Block::Html(s, i),
        MdItemView::Blank => Block::Blank,
    }
}

/// An open inline-HTML scope: the tag that closes it, the stack depths to
/// restore, and the script it transliterates into.
pub struct ScopeV {
    pub name: Seq<char>,
    pub style_len: int,
    pub link_len: int,
    pub script: Option<Script>,
}

/// What the builder holds between events.
pub struct BState {
    pub items: Seq<Block>,
    pub inline: Seq<RichView>,
    pub styles: Seq<Style>,
    pub links: Seq<Seq<char>>,
    pub lists: Seq<Option<u64>>,
    pub quote: int,
    pub pending: Option<Seq<RichView>>,
    pub code: Option<(Seq<char>, Seq<char>)>,
    pub html_block: Option<Seq<char>>,
    pub table: Option<TableView>,
    pub cur_row: Seq<Seq<RichView>>,
    pub html: Seq<ScopeV>,
    pub image: Option<(Seq<char>, Seq<char>)>,
}

/// Body text's style: the theme's text color.
pub open spec fn base_style(t: Theme) -> Style {
    Style { fg: Some(t.text), ..Style::spec_empty() }
}

/// The state before the first event.
pub open spec fn init_state(t: Theme) -> BState {
    BState {
        items: seq![],
        inline: seq![],
        styles: seq![base_style(t)],
        links: seq![],
        lists: seq![],
        quote: 0,
        pending: None,
        code: None,
        html_block: None,
        table: None,
        cur_row: seq![],
        html: seq![],
        image: None,
    }
}

/// A bundle over the empty style.
pub open spec fn bundle_style(b: StyleBundle) -> Style {
    Style::spec_empty().spec_patch(b.style)
}

/// `s` with `m` added.
pub open spec fn with_mod(s: Style, m: Modifier) -> Style {
    Style { add_modifier: s.add_modifier.spec_union(m), sub_modifier: s.sub_modifier.spec_difference(m), ..s }
}

pub open spec fn cur_style(st: BState, t: Theme) -> Style {
    if st.styles.len() > 0 {
        st.styles.last()
    } else {
        base_style(t)
    }
}

pub open spec fn cur_href(st: BState) -> Option<Seq<char>> {
    if st.links.len() > 0 {
        Some(st.links.last())
    } else {
        None
    }
}

/// `v` cut to at most `n` entries.
pub open spec fn truncate<A>(v: Seq<A>, n: int) -> Seq<A> {
    if 0 <= n < v.len() {
        v.take(n)
    } else {
        v
    }
}

/// `v` without its last entry, if any.
pub open spec fn pop<A>(v: Seq<A>) -> Seq<A> {
    if v.len() > 0 {
        v.drop_last()
    } else {
        v
    }
}

pub open spec fn sat16(x: int) -> int {
    if x > 65535 { 65535 } else { x }
}

/// Indentation of the current block, from list and quote nesting.
pub open spec fn indent_of(st: BState) -> int {
    let l = if st.lists.len() > 0 { st.lists.len() - 1 } else { 0 };
    sat16(sat16((l as u16) as int + st.quote) * INDENT)
}

pub open spec fn nested(st: BState) -> bool {
    st.lists.len() > 0 || st.quote > 0
}

/// The inline run in flight as one prose line, a pending list marker first.
pub open spec fn flush(st: BState) -> BState {
    if st.inline.len() == 0 && st.pending is None {
        st
    } else {
        let marker = match st.pending {
            Some(m) => m,
            None => seq![],
        };
        BState {
            items: st.items.push(Block::Prose(marker + st.inline, indent_of(st))),
            pending: None,
            inline: seq![],
            ..st
        }
    }
}

/// Before a new block: end the inline run, and at top level put one blank
/// between blocks.
pub open spec fn separate(st: BState) -> BState {
    let s1 = if st.inline.len() > 0 { flush(st) } else { st };
    if nested(s1) {
        s1
    } else if s1.items.len() == 0 || s1.items.last() is Blank {
        s1
    } else {
        BState { items: s1.items.push(Block::Blank), ..s1 }
    }
}

pub open spec fn push_inline(st: BState, r: RichView) -> BState {
    BState { inline: st.inline.push(r), ..st }
}

/// The script of the innermost scope among the first `k` that has one.
pub open spec fn script_in(html: Seq<ScopeV>, k: int) -> Option<Script>
    decreases k,
{
    if k <= 0 || k > html.len() {
        None
    } else {
        match html[k - 1].script {
            Some(s) => Some(s),
            None => script_in(html, k - 1),
        }
    }
}

/// Text inside a code block or an image's alt, transliterated under an open
/// `<sub>`/`<sup>`, kept whole inside a link or underline, or else split
/// around bare URLs.
pub open spec fn push_text(st: BState, text: Seq<char>, t: Theme, sheet: StyleSheet) -> BState {
    match st.code {
        Some((l, b)) => BState { code: Some((l, b + text)), ..st },
        None => match st.image {
            Some((u, a)) => BState { image: Some((u, a + text)), ..st },
            None => {
                let style = cur_style(st, t);
                let href = cur_href(st);
                let mapped = match script_in(st.html, st.html.len() as int) {
                    Some(sc) => if text.len() > 0 {
                        script_all(text, sc)
                    } else {
                        None
                    },
                    None => None,
                };
                match mapped {
                    Some(m) => push_inline(st, (m, style, href)),
                    None => if href is Some || (style.add_modifier.bits & 8) == 8 {
                        push_inline(st, (text, style, href))
                    } else {
                        BState { inline: st.inline + linkify_spec(text, style, sheet.link), ..st }
                    },
                }
            },
        },
    }
}

/// The image marker glyph and a space.
pub open spec fn image_glyph() -> Seq<char> {
    seq!['\u{1F5BC}', ' ']
}

/// An image as a placeholder: a marker, then the alt text (the URL when the
/// alt is blank) styled as a link to the image.
pub open spec fn push_image(st: BState, url: Seq<char>, alt: Seq<char>, sheet: StyleSheet) -> BState {
    let label = if trim_ws(alt).len() == 0 { url } else { alt };
    BState {
        inline: st.inline + seq![
            (image_glyph(), bundle_style(sheet.image_marker), None),
            (label, bundle_style(sheet.link), Some(url)),
        ],
        ..st
    }
}

/// Every open inline-HTML scope closed, the stacks restored.
pub open spec fn close_html_scopes(st: BState) -> BState {
    if st.html.len() > 0 {
        BState {
            styles: truncate(st.styles, st.html[0].style_len),
            links: truncate(st.links, st.html[0].link_len),
            html: seq![],
            ..st
        }
    } else {
        st
    }
}

/// The innermost open scope named `name` among the first `k`.
pub open spec fn rposition(html: Seq<ScopeV>, name: Seq<char>, k: int) -> Option<int>
    decreases k,
{
    if k <= 0 || k > html.len() {
        None
    } else if html[k - 1].name == name {
        Some(k - 1)
    } else {
        rposition(html, name, k - 1)
    }
}

/// One raw inline-HTML tag: code or alt text inside a fence or image,
/// else what the tag whitelist makes of it.
pub open spec fn html_tag(st: BState, raw: Seq<char>, t: Theme, sheet: StyleSheet) -> BState {
    if st.code is Some || st.image is Some {
        push_text(st, raw, t, sheet)
    } else {
        match classify_tag(raw) {
            EffectModel::Open(scope) => if st.html.len() >= MAX_NESTING {
                st
            } else {
                let style = cur_style(st, t);
                let s2 = match scope.role {
                    Some(r) => style.spec_patch(sheet.spec_resolve(r).style),
                    None => style,
                };
                BState {
                    styles: st.styles.push(with_mod(s2, scope.modifier)),
                    links: match scope.href {
                        Some(h) => st.links.push(h),
                        None => st.links,
                    },
                    html: st.html.push(
                        ScopeV {
                            name: scope.name,
                            style_len: st.styles.len() as int,
                            link_len: st.links.len() as int,
                            script: scope.script,
                        },
                    ),
                    ..st
                }
            },
            EffectModel::Close(name) => match rposition(st.html, name, st.html.len() as int) {
                Some(at) => BState {
                    styles: truncate(st.styles, st.html[at].style_len),
                    links: truncate(st.links, st.html[at].link_len),
                    html: st.html.take(at),
                    ..st
                },
                None => st,
            },
            EffectModel::Break => if st.table is Some {
                push_inline(st, (seq![' '], cur_style(st, t), cur_href(st)))
            } else {
                flush(st)
            },
            EffectModel::Image(src, alt) => push_image(st, src, alt, sheet),
            EffectModel::Inert => st,
        }
    }
}

/// `body` without one trailing newline.
pub open spec fn strip_newline(body: Seq<char>) -> Seq<char> {
    if body.len() > 0 && body.last() == '\n' {
        body.drop_last()
    } else {
        body
    }
}

/// A finished code block as an item.
pub open spec fn push_code_block(st: BState, lang: Seq<char>, body: Seq<char>) -> BState {
    BState { items: st.items.push(Block::Code(lang, strip_newline(body), indent_of(st))), ..st }
}

/// The first whitespace-separated word of an info string.
pub open spec fn first_word(info: Seq<char>) -> Seq<char> {
    let a = lead_end(info, 0);
    info.subrange(a, ws_from(info, a))
}

/// The marker of a new list item, and the list counters after it.
pub open spec fn item_marker(lists: Seq<Option<u64>>) -> (Seq<char>, Seq<Option<u64>>) {
    if lists.len() > 0 && lists.last() is Some {
        let n = lists.last()->0;
        (
            crate::components::code_block::decimal(n as nat) + seq!['.', ' '],
            lists.update(lists.len() - 1, Some(if n == u64::MAX { n } else { (n + 1) as u64 })),
        )
    } else {
        (seq!['\u{2022}', ' '], lists)
    }
}

pub open spec fn start_tag(st: BState, tag: MdTagV, t: Theme, sheet: StyleSheet) -> BState {
    match tag {
        MdTagV::Paragraph => separate(st),
        MdTagV::Heading(level) => {
            let s1 = separate(st);
            let h = bundle_style(sheet.heading);
            let style = if level > 2 { with_mod(h, Modifier { bits: 4 }) } else { h };
            BState { styles: s1.styles.push(style), ..s1 }
        },
        MdTagV::BlockQuote => {
            let s1 = separate(st);
            BState { quote: sat16(s1.quote + 1), ..s1 }
        },
        MdTagV::CodeBlock(kind) => {
            let s1 = separate(st);
            let lang = match kind {
                CodeKindV::Fenced(info) => first_word(info),
                CodeKindV::Indented => seq![],
            };
            BState { code: Some((lang, seq![])), ..s1 }
        },
        MdTagV::HtmlBlock => {
            let s1 = separate(st);
            BState { html_block: Some(seq![]), ..s1 }
        },
        MdTagV::List(start) => {
            let s1 = separate(st);
            BState { lists: s1.lists.push(start), ..s1 }
        },
        MdTagV::Item => {
            let (marker, lists) = item_marker(st.lists);
            BState { lists, pending: Some(seq![(marker, bundle_style(sheet.list_marker), None)]), ..st }
        },
        MdTagV::Emphasis => BState { styles: st.styles.push(cur_style(st, t).spec_patch(sheet.emphasis.style)), ..st },
        MdTagV::Strong => BState { styles: st.styles.push(cur_style(st, t).spec_patch(sheet.strong.style)), ..st },
        MdTagV::Strikethrough => BState {
            styles: st.styles.push(cur_style(st, t).spec_patch(sheet.strikethrough.style)),
            ..st
        },
        MdTagV::Link(dest) => BState {
            links: st.links.push(dest),
            styles: st.styles.push(bundle_style(sheet.link)),
            ..st
        },
        MdTagV::Image(dest) => BState { image: Some((dest, seq![])), ..st },
        MdTagV::Table(aligns) => {
            let s1 = separate(st);
            BState { table: Some((aligns, seq![], seq![])), ..s1 }
        },
        MdTagV::TableHead => BState { cur_row: seq![], styles: st.styles.push(bundle_style(sheet.heading)), ..st },
        MdTagV::TableRow => BState { cur_row: seq![], ..st },
        MdTagV::TableCell => BState { inline: seq![], ..st },
        MdTagV::Other => st,
    }
}

/// `s` without leading whitespace.
pub open spec fn trim_start(s: Seq<char>) -> Seq<char> {
    s.subrange(lead_end(s, 0), s.len() as int)
}

/// `s` without trailing whitespace.
pub open spec fn trim_end(s: Seq<char>) -> Seq<char> {
    s.subrange(0, trail_start(s, s.len() as int))
}

/// A cell's runs trimmed: the first run's leading and the last run's
/// trailing whitespace, then every run left empty dropped.
pub open spec fn trim_spans_spec(spans: Seq<RichView>) -> Seq<RichView> {
    let s1 = if spans.len() > 0 {
        spans.update(0, (trim_start(spans[0].0), spans[0].1, spans[0].2))
    } else {
        spans
    };
    let s2 = if s1.len() > 0 {
        s1.update(s1.len() - 1, (trim_end(s1.last().0), s1.last().1, s1.last().2))
    } else {
        s1
    };
    drop_empty(s2)
}

/// The runs of `s` that are not empty.
pub open spec fn drop_empty(s: Seq<RichView>) -> Seq<RichView>
    decreases s.len(),
{
    if s.len() == 0 {
        s
    } else {
        let r = drop_empty(s.drop_last());
        if s.last().0.len() > 0 {
            r.push(s.last())
        } else {
            r
        }
    }
}

/// Whether an end closes inline HTML left open in its block.
pub open spec fn ends_block(tag: MdTagEnd) -> bool {
    tag is Paragraph || tag is Heading || tag is Item || tag is TableCell || tag is BlockQuote
}

pub open spec fn end_tag(st0: BState, tag: MdTagEnd, t: Theme, sheet: StyleSheet) -> BState {
    let st = if ends_block(tag) { close_html_scopes(st0) } else { st0 };
    match tag {
        MdTagEnd::Paragraph => flush(st),
        MdTagEnd::Heading => {
            let s1 = flush(st);
            BState { styles: pop(s1.styles), ..s1 }
        },
        MdTagEnd::BlockQuote => {
            let s1 = flush(st);
            BState { quote: if s1.quote > 0 { s1.quote - 1 } else { 0 }, ..s1 }
        },
        MdTagEnd::CodeBlock => match st.code {
            Some((l, b)) => push_code_block(BState { code: None, ..st }, l, b),
            None => st,
        },
        MdTagEnd::HtmlBlock => match st.html_block {
            Some(src) => {
                let s1 = BState { html_block: None, ..st };
                if trim_ws(src).len() > 0 {
                    BState { items: s1.items.push(Block::Html(src, indent_of(s1))), ..s1 }
                } else {
                    s1
                }
            },
            None => st,
        },
        MdTagEnd::List => BState { lists: pop(st.lists), ..st },
        MdTagEnd::Item => flush(st),
        MdTagEnd::Emphasis => BState { styles: pop(st.styles), ..st },
        MdTagEnd::Strong => BState { styles: pop(st.styles), ..st },
        MdTagEnd::Strikethrough => BState { styles: pop(st.styles), ..st },
        MdTagEnd::Link => BState { styles: pop(st.styles), links: pop(st.links), ..st },
        MdTagEnd::Image => match st.image {
            Some((u, a)) => push_image(BState { image: None, ..st }, u, a, sheet),
            None => st,
        },
        MdTagEnd::TableCell => BState { cur_row: st.cur_row.push(trim_spans_spec(st.inline)), inline: seq![], ..st },
        MdTagEnd::TableHead => {
            let s1 = BState { styles: pop(st.styles), ..st };
            match s1.table {
                Some(tb) => BState { table: Some((tb.0, s1.cur_row, tb.2)), cur_row: seq![], ..s1 },
                None => s1,
            }
        },
        MdTagEnd::TableRow => match st.table {
            Some(tb) => BState { table: Some((tb.0, tb.1, tb.2.push(st.cur_row))), cur_row: seq![], ..st },
            None => st,
        },
        MdTagEnd::Table => match st.table {
            Some(tb) => {
                let s1 = BState { table: None, ..st };
                BState { items: s1.items.push(Block::Table(tb, indent_of(s1))), ..s1 }
            },
            None => st,
        },
        MdTagEnd::Other => st,
    }
}

/// The rule's glyphs: 24 horizontal box lines.
pub open spec fn rule_glyphs() -> Seq<char> {
    super::table::repeat('\u{2500}', 24)
}

/// The builder after one more event.
pub open spec fn step(st: BState, ev: MdEventV, t: Theme, sheet: StyleSheet) -> BState {
    match ev {
        MdEventV::InlineHtml(raw) => html_tag(st, raw, t, sheet),
        MdEventV::Html(raw) => match st.html_block {
            Some(b) => BState { html_block: Some(b + raw), ..st },
            None => st,
        },
        MdEventV::Start(tag) => start_tag(st, tag, t, sheet),
        MdEventV::End(tag) => end_tag(st, tag, t, sheet),
        MdEventV::Text(text) => push_text(st, text, t, sheet),
        MdEventV::Code(text) => push_inline(st, (text, bundle_style(sheet.inline_code), cur_href(st))),
        MdEventV::SoftBreak => if st.code is None {
            push_inline(st, (seq![' '], cur_style(st, t), cur_href(st)))
        } else {
            st
        },
        MdEventV::HardBreak => if st.table is Some {
            push_inline(st, (seq![' '], cur_style(st, t), cur_href(st)))
        } else {
            flush(st)
        },
        MdEventV::Rule => {
            let s1 = separate(st);
            BState {
                items: s1.items.push(Block::Prose(seq![(rule_glyphs(), bundle_style(sheet.rule), None)], indent_of(s1))),
                ..s1
            }
        },
        MdEventV::TaskListMarker(done) => push_inline(
            st,
            (if done { seq!['[', 'x', ']', ' '] } else { seq!['[', ' ', ']', ' '] }, bundle_style(sheet.task_marker), None),
        ),
        MdEventV::Other => st,
    }
}

/// The builder after the first `k` events.
pub open spec fn run(evs: Seq<MdEventV>, k: int, t: Theme, sheet: StyleSheet) -> BState
    decreases k,
{
    if k <= 0 {
        init_state(t)
    } else {
        step(run(evs, k - 1, t, sheet), evs[k - 1], t, sheet)
    }
}

/// End of input: a table still open drops its partial cell, the inline run
/// and any open HTML scopes close, and a dangling fence or HTML block is
/// handed over as far as it got.
pub open spec fn finish(st0: BState) -> BState {
    let s0 = if st0.table is Some { BState { inline: seq![], ..st0 } } else { st0 };
    let s1 = close_html_scopes(flush(s0));
    let s2 = match s1.code {
        Some((l, b)) => push_code_block(BState { code: None, ..s1 }, l, b),
        None => s1,
    };
    match s2.html_block {
        Some(src) => {
            let s3 = BState { html_block: None, ..s2 };
            if trim_ws(src).len() > 0 {
                BState { items: s3.items.push(Block::Html(src, indent_of(s3))), ..s3 }
            } else {
                s3
            }
        },
        None => s2,
    }
}

/// The blocks a whole event stream parses to.
pub open spec fn parse_spec(evs: Seq<MdEventV>, t: Theme, sheet: StyleSheet) -> Seq<Block> {
    finish(run(evs, evs.len() as int, t, sheet)).items
}


fn trim_start_string(s: &str) -> (r: String)
    ensures
        r@ == trim_start(s@),
{
    let cs = chars_of(s);
    let mut a: usize = 0;
    while a < cs.len() && white_space(cs[a])
        invariant
            a <= cs@.len(),
            cs@ == s@,
            lead_end(cs@, 0) == lead_end(cs@, a as int),
        decreases cs@.len() - a,
    {
        a = a + 1;
    }
    sub_string(&cs, a, cs.len())
}

fn trim_end_string(s: &str) -> (r: String)
    ensures
        r@ == trim_end(s@),
{
    let cs = chars_of(s);
    let mut b: usize = cs.len();
    while b > 0 && white_space(cs[b - 1])
        invariant
            b <= cs@.len(),
            cs@ == s@,
            trail_start(cs@, cs@.len() as int) == trail_start(cs@, b as int),
        decreases b,
    {
        b = b - 1;
    }
    sub_string(&cs, 0, b)
}

/// Whether `s` is empty or all whitespace.
fn is_blank(s: &str) -> (b: bool)
    ensures
        b == (trim_ws(s@).len() == 0),
{
    let cs = chars_of(s);
    let t = trim_chars(&cs);
    t.len() == 0
}

/// Trim a cell's runs: the first run's leading and the last run's trailing
/// whitespace, dropping any run left empty.
pub fn trim_spans(spans: Vec<RichSpan>) -> (r: Vec<RichSpan>)
    ensures
        rich_views(r@) == trim_spans_spec(rich_views(spans@)),
{
    let ghost sv = rich_views(spans@);
    let n = spans.len();
    let ghost s1 = if sv.len() > 0 { sv.update(0, (trim_start(sv[0].0), sv[0].1, sv[0].2)) } else { sv };
    let ghost s2 = if s1.len() > 0 {
        s1.update(s1.len() - 1, (trim_end(s1.last().0), s1.last().1, s1.last().2))
    } else {
        s1
    };
    let mut out: Vec<RichSpan> = Vec::new();
    let mut i: usize = 0;
    while i < n
        invariant
            i <= n,
            n == spans@.len(),
            sv == rich_views(spans@),
            s2.len() == n,
            s1 == (if sv.len() > 0 { sv.update(0, (trim_start(sv[0].0), sv[0].1, sv[0].2)) } else { sv }),
            s2 == (if s1.len() > 0 {
                s1.update(s1.len() - 1, (trim_end(s1.last().0), s1.last().1, s1.last().2))
            } else {
                s1
            }),
            rich_views(out@) == drop_empty(s2.take(i as int)),
        decreases n - i,
    {
        let sp = &spans[i];
        let mut content = sp.content.clone();
        if i == 0 {
            content = trim_start_string(content.as_str());
        }
        if i + 1 == n {
            content = trim_end_string(content.as_str());
        }
        proof {
            assert(content@ == s2[i as int].0);
            assert(s2.take(i as int + 1).drop_last() =~= s2.take(i as int));
        }
        if content.as_str().unicode_len() > 0 {
            let ghost pre = rich_views(out@);
            out.push(RichSpan { content, style: sp.style, href: clone_href(&sp.href) });
            proof {
                assert(rich_views(out@) =~= pre.push(s2[i as int]));
            }
        }
        i = i + 1;
    }
    proof {
        assert(s2.take(n as int) =~= s2);
    }
    out
}


/// Whether `fb` are the themed rows of the code block `src` for some answer
/// of the highlighter.
pub open spec fn highlighted_rows(fb: Seq<(LineView, int)>, lang: Seq<char>, src: Seq<char>, t: Theme) -> bool {
    exists|h: Option<Seq<Seq<(Seq<char>, Style)>>>| fb == code_rows_spec(lang, split_newlines(src), t, true, None, h)
}

/// Whether a code block's fallback rows are the themed rows of its source
/// (for some answer of the highlighter, and the plain rows without one).
pub open spec fn fallback_ok(v: MdItemView, t: Theme, plain: bool) -> bool {
    match v {
        MdItemView::CodeBlock(lang, src, fb, _) => (plain ==> fb == code_rows_spec(
            lang,
            split_newlines(src),
            t,
            true,
            None,
            None,
        )) && highlighted_rows(fb, lang, src, t),
        _ => true,
    }
}

pub open spec fn blocks_of(v: Seq<MdItem>) -> Seq<Block> {
    item_views(v).map_values(|i: MdItemView| block_of(i))
}

/// One open inline-HTML scope.
struct HtmlScope {
    name: &'static str,
    style_len: usize,
    link_len: usize,
    script: Option<Script>,
}

/// Walks the event stream, accumulating blocks.
pub struct Builder<'a> {
    theme: Theme,
    sheet: StyleSheet,
    highlighter: CodeHighlighter<'a>,
    items: Vec<MdItem>,
    inline: Vec<RichSpan>,
    style_stack: Vec<Style>,
    link_stack: Vec<String>,
    lists: Vec<Option<u64>>,
    quote_depth: u16,
    pending_marker: Option<Vec<RichSpan>>,
    code: Option<(String, String)>,
    html_block: Option<String>,
    table: Option<TableData>,
    cur_row: Vec<Cell>,
    html: Vec<HtmlScope>,
    image: Option<(String, String)>,
}

impl<'a> Builder<'a> {
    pub closed spec fn model(&self) -> BState {
        BState {
            items: blocks_of(self.items@),
            inline: rich_views(self.inline@),
            styles: self.style_stack@,
            links: strings_view(self.link_stack@),
            lists: self.lists@,
            quote: self.quote_depth as int,
            pending: match self.pending_marker {
                Some(v) => Some(rich_views(v@)),
                None => None,
            },
            code: match self.code {
                Some((l, b)) => Some((l@, b@)),
                None => None,
            },
            html_block: match self.html_block {
                Some(b) => Some(b@),
                None => None,
            },
            table: match self.table {
                Some(t) => Some(t@),
                None => None,
            },
            cur_row: cells_view(self.cur_row@),
            html: self.html@.map_values(
                |h: HtmlScope| ScopeV { name: h.name@, style_len: h.style_len as int, link_len: h.link_len as int, script: h.script },
            ),
            image: match self.image {
                Some((u, a)) => Some((u@, a@)),
                None => None,
            },
        }
    }

    pub closed spec fn ok(&self) -> bool {
        forall|i: int|
            0 <= i < self.items@.len() ==> fallback_ok(
                #[trigger] self.items@[i]@,
                self.theme,
                self.highlighter is Plain,
            )
    }

    pub closed spec fn theme(&self) -> Theme {
        self.theme
    }

    pub closed spec fn sheet(&self) -> StyleSheet {
        self.sheet
    }

    pub closed spec fn plain(&self) -> bool {
        self.highlighter is Plain
    }

    pub closed spec fn item_list(&self) -> Seq<MdItem> {
        self.items@
    }

    pub open spec fn same_cfg(&self, other: &Self) -> bool {
        &&& self.theme() == other.theme()
        &&& self.sheet() == other.sheet()
        &&& self.plain() == other.plain()
    }

    /// A builder for a document styled by `theme` and `sheet`, fenced code
    /// colored by `highlighter`.
    pub fn new(theme: &Theme, sheet: &StyleSheet, highlighter: CodeHighlighter<'a>) -> (b: Builder<'a>)
        ensures
            b.model() == init_state(*theme),
            b.ok(),
            b.theme() == *theme,
            b.sheet() == *sheet,
            b.plain() == (highlighter is Plain),
    {
        let mut style_stack: Vec<Style> = Vec::new();
        style_stack.push(Style::new().fg(theme.text));
        let b = Builder {
            theme: *theme,
            sheet: *sheet,
            highlighter,
            items: Vec::new(),
            inline: Vec::new(),
            style_stack,
            link_stack: Vec::new(),
            lists: Vec::new(),
            quote_depth: 0,
            pending_marker: None,
            code: None,
            html_block: None,
            table: None,
            cur_row: Vec::new(),
            html: Vec::new(),
            image: None,
        };
        proof {
            assert(b.model() =~= init_state(*theme)) by {
                assert(blocks_of(b.items@) =~= Seq::<Block>::empty());
                assert(rich_views(b.inline@) =~= Seq::<RichView>::empty());
                assert(b.style_stack@ =~= seq![base_style(*theme)]);
                assert(strings_view(b.link_stack@) =~= Seq::<Seq<char>>::empty());
                assert(cells_view(b.cur_row@) =~= Seq::<Seq<RichView>>::empty());
                assert(b.html@.map_values(
                    |h: HtmlScope| ScopeV { name: h.name@, style_len: h.style_len as int, link_len: h.link_len as int, script: h.script },
                ) =~= Seq::<ScopeV>::empty());
            }
        }
        b
    }

    fn cur_style(&self) -> (s: Style)
        ensures
            s == cur_style(self.model(), self.theme()),
    {
        if self.style_stack.len() > 0 {
            self.style_stack[self.style_stack.len() - 1]
        } else {
            Style::new().fg(self.theme.text)
        }
    }

    fn cur_href(&self) -> (h: Option<String>)
        ensures
            href_view(h) == cur_href(self.model()),
    {
        if self.link_stack.len() > 0 {
            Some(self.link_stack[self.link_stack.len() - 1].clone())
        } else {
            None
        }
    }

    fn indent(&self) -> (i: u16)
        ensures
            i == indent_of(self.model()),
    {
        let l = if self.lists.len() > 0 { self.lists.len() - 1 } else { 0 };
        let d = (l as u16).saturating_add(self.quote_depth);
        if d > 32767 { 65535 } else { d * INDENT }
    }

    fn push_item(&mut self, item: MdItem)
        requires
            old(self).ok(),
            fallback_ok(item@, old(self).theme(), old(self).plain()),
        ensures
            final(self).ok(),
            final(self).same_cfg(old(self)),
            final(self).model() == (BState { items: old(self).model().items.push(block_of(item@)), ..old(self).model() }),
    {
        let ghost pre = self.items@;
        let ghost iv = item@;
        self.items.push(item);
        proof {
            assert(blocks_of(self.items@) =~= blocks_of(pre).push(block_of(iv)));
            assert forall|i: int| 0 <= i < self.items@.len() implies fallback_ok(
                #[trigger] self.items@[i]@,
                self.theme,
                self.highlighter is Plain,
            ) by {
                if i < pre.len() {
                    assert(self.items@[i] == pre[i]);
                }
            }
        }
    }

    fn push_inline(&mut self, r: RichSpan)
        requires
            old(self).ok(),
        ensures
            final(self).ok(),
            final(self).same_cfg(old(self)),
            final(self).model() == push_inline(old(self).model(), r@),
    {
        let ghost pre = rich_views(self.inline@);
        self.inline.push(r);
        proof {
            assert(rich_views(self.inline@) =~= pre.push(r@));
            assert(self.model() =~= push_inline(old(self).model(), r@));
        }
    }

    fn flush(&mut self)
        requires
            old(self).ok(),
        ensures
            final(self).ok(),
            final(self).same_cfg(old(self)),
            final(self).model() == flush(old(self).model()),
    {
        if self.inline.len() == 0 && self.pending_marker.is_none() {
            return;
        }
        let indent = self.indent();
        let mut spans = match self.pending_marker.take() {
            Some(m) => m,
            None => Vec::new(),
        };
        let ghost m = rich_views(spans@);
        let ghost inl = rich_views(self.inline@);
        spans.append(&mut self.inline);
        proof {
            assert(rich_views(spans@) =~= m + inl);
            assert(rich_views(self.inline@) =~= Seq::<RichView>::empty());
        }
        self.push_item(MdItem::Prose { spans, indent });
        proof {
            assert(self.model() =~= flush(old(self).model()));
        }
    }

    fn separate(&mut self)
        requires
            old(self).ok(),
        ensures
            final(self).ok(),
            final(self).same_cfg(old(self)),
            final(self).model() == separate(old(self).model()),
    {
        if self.inline.len() > 0 {
            self.flush();
        }
        if self.lists.len() > 0 || self.quote_depth > 0 {
            return;
        }
        let n = self.items.len();
        if n == 0 {
            return;
        }
        let last_blank = match &self.items[n - 1] {
            MdItem::Blank => true,
            _ => false,
        };
        if last_blank {
            return;
        }
        self.push_item(MdItem::Blank);
    }
}


impl<'a> Builder<'a> {
    fn cur_script(&self) -> (r: Option<Script>)
        ensures
            r == script_in(self.model().html, self.model().html.len() as int),
    {
        let ghost hv = self.model().html;
        let mut k = self.html.len();
        while k > 0
            invariant
                k <= self.html@.len(),
                hv == self.model().html,
                script_in(hv, hv.len() as int) == script_in(hv, k as int),
            decreases k,
        {
            proof {
                assert(hv[k - 1].script == self.html@[k - 1].script);
            }
            match self.html[k - 1].script {
                Some(sc) => {
                    return Some(sc);
                },
                None => {},
            }
            k = k - 1;
        }
        None
    }

    fn push_text(&mut self, text: &str)
        requires
            old(self).ok(),
        ensures
            final(self).ok(),
            final(self).same_cfg(old(self)),
            final(self).model() == push_text(old(self).model(), text@, old(self).theme(), old(self).sheet()),
    {
        if self.code.is_some() {
            let (l, mut b) = self.code.take().unwrap();
            b.append(text);
            self.code = Some((l, b));
            proof {
                assert(self.model() =~= push_text(old(self).model(), text@, old(self).theme(), old(self).sheet()));
            }
            return;
        }
        if self.image.is_some() {
            let (u, mut a) = self.image.take().unwrap();
            a.append(text);
            self.image = Some((u, a));
            proof {
                assert(self.model() =~= push_text(old(self).model(), text@, old(self).theme(), old(self).sheet()));
            }
            return;
        }
        let style = self.cur_style();
        let href = self.cur_href();
        match self.cur_script() {
            Some(sc) => match transliterate(text, sc) {
                Some(mapped) => {
                    self.push_inline(RichSpan { content: mapped, style, href });
                    return;
                },
                None => {},
            },
            None => {},
        }
        if href.is_some() || style.add_modifier.contains(Modifier::underlined()) {
            self.push_inline(RichSpan { content: text.to_owned(), style, href });
        } else {
            let mut spans = linkify(text, style, self.sheet.link);
            let ghost pre = rich_views(self.inline@);
            let ghost add = rich_views(spans@);
            self.inline.append(&mut spans);
            proof {
                assert(rich_views(self.inline@) =~= pre + add);
                assert(self.model() =~= push_text(old(self).model(), text@, old(self).theme(), old(self).sheet()));
            }
        }
    }

    fn push_image(&mut self, url: &str, alt: &str)
        requires
            old(self).ok(),
        ensures
            final(self).ok(),
            final(self).same_cfg(old(self)),
            final(self).model() == push_image(old(self).model(), url@, alt@, old(self).sheet()),
    {
        let label = if is_blank(alt) { url } else { alt };
        let glyph = "\u{1F5BC} ".to_owned();
        proof {
            reveal_strlit("\u{1F5BC} ");
            assert(glyph@ =~= image_glyph());
        }
        let ghost pre = rich_views(self.inline@);
        self.inline.push(RichSpan { content: glyph, style: self.sheet.image_marker.to_style(), href: None });
        self.inline.push(RichSpan { content: label.to_owned(), style: self.sheet.link.to_style(), href: Some(url.to_owned()) });
        proof {
            assert(rich_views(self.inline@) =~= pre + seq![
                (image_glyph(), bundle_style(self.sheet.image_marker), None),
                (label@, bundle_style(self.sheet.link), Some(url@)),
            ]);
            assert(self.model() =~= push_image(old(self).model(), url@, alt@, old(self).sheet()));
        }
    }

    fn close_html_scopes(&mut self)
        requires
            old(self).ok(),
        ensures
            final(self).ok(),
            final(self).same_cfg(old(self)),
            final(self).model() == close_html_scopes(old(self).model()),
    {
        if self.html.len() > 0 {
            let sl = self.html[0].style_len;
            let ll = self.html[0].link_len;
            let ghost links0 = self.link_stack@;
            let ghost styles0 = self.style_stack@;
            self.style_stack.truncate(sl);
            self.link_stack.truncate(ll);
            self.html.clear();
            proof {
                assert(strings_view(self.link_stack@) =~= truncate(strings_view(links0), ll as int));
                assert(self.style_stack@ =~= truncate(styles0, sl as int));
                assert(self.model().html =~= Seq::<ScopeV>::empty());
                assert(self.model() =~= close_html_scopes(old(self).model()));
            }
        }
    }

    fn push_code_block(&mut self, language: String, body: String)
        requires
            old(self).ok(),
        ensures
            final(self).ok(),
            final(self).same_cfg(old(self)),
            final(self).model() == push_code_block(old(self).model(), language@, body@),
    {
        let cs = chars_of(body.as_str());
        let source = if cs.len() > 0 && cs[cs.len() - 1] == '\n' {
            sub_string(&cs, 0, cs.len() - 1)
        } else {
            body
        };
        proof {
            if cs@.len() > 0 && cs@.last() == '\n' {
                assert(cs@.subrange(0, cs@.len() - 1) =~= cs@.drop_last());
            }
            assert(source@ == strip_newline(cs@));
        }
        let lines = split_newlines_exec(source.as_str());
        let theme = self.theme;
        let ls = lines.as_slice();
        proof {
            assert(ls@ == lines@);
            assert(strings_view(ls@) == split_newlines(source@));
        }
        let lang = language.as_str();
        proof {
            assert(lang@ == language@);
        }
        let hl = self.highlighter;
        let fallback = code_block_rows(lang, ls, &theme, hl, true, None);
        proof {
            let h = choose|h: Option<Seq<Seq<(Seq<char>, Style)>>>|
                code_rows_view(fallback@) == code_rows_spec(lang@, strings_view(ls@), theme, true, None, h);
            assert(code_rows_view(fallback@) == code_rows_spec(language@, split_newlines(source@), theme, true, None, h));
            assert(exists|h: Option<Seq<Seq<(Seq<char>, Style)>>>|
                code_rows_view(fallback@) == code_rows_spec(language@, split_newlines(source@), self.theme, true, None, h));
            assert(self.highlighter is Plain ==> code_rows_view(fallback@) == code_rows_spec(language@, split_newlines(source@), self.theme, true, None, None));
        }
        let indent = self.indent();
        let ghost lv = language@;
        let ghost sv = source@;
        let ghost fv = code_rows_view(fallback@);
        let item = MdItem::CodeBlock { language, source, fallback, indent };
        proof {
            assert(item@ == MdItemView::CodeBlock(lv, sv, fv, indent as int));
            let h = choose|h: Option<Seq<Seq<(Seq<char>, Style)>>>|
                fv == code_rows_spec(lv, split_newlines(sv), self.theme, true, None, h);
            assert(fv == code_rows_spec(lv, split_newlines(sv), self.theme, true, None, h));
            assert(self.highlighter is Plain ==> fv == code_rows_spec(lv, split_newlines(sv), self.theme, true, None, None));
            assert(highlighted_rows(fv, lv, sv, self.theme));
            assert(fallback_ok(item@, self.theme, self.highlighter is Plain));
        }
        self.push_item(item);
        proof {
            assert(self.model() =~= push_code_block(old(self).model(), language@, body@));
        }
    }
}


/// `n` in decimal.
fn decimal_u64(n: u64) -> (s: String)
    ensures
        s@ == decimal(n as nat),
    decreases n,
{
    if n < 10 {
        let mut s = String::new();
        crate::graphemes::push_char(&mut s, crate::components::code_block::digit(n as usize));
        proof {
            assert(s@ =~= seq![crate::components::code_block::digit_char(n as int)]);
        }
        s
    } else {
        let mut s = decimal_u64(n / 10);
        crate::graphemes::push_char(&mut s, crate::components::code_block::digit((n % 10) as usize));
        s
    }
}

/// The first whitespace-separated word of `info`.
fn first_word_of(info: &str) -> (w: String)
    ensures
        w@ == first_word(info@),
{
    let cs = chars_of(info);
    let mut a: usize = 0;
    while a < cs.len() && white_space(cs[a])
        invariant
            a <= cs@.len(),
            cs@ == info@,
            lead_end(cs@, 0) == lead_end(cs@, a as int),
        decreases cs@.len() - a,
    {
        a = a + 1;
    }
    let mut b = a;
    proof {
        lemma_ws_from(cs@, a as int);
    }
    while b < cs.len() && !white_space(cs[b])
        invariant
            a <= b <= cs@.len(),
            ws_from(cs@, a as int) == ws_from(cs@, b as int),
        decreases cs@.len() - b,
    {
        b = b + 1;
    }
    sub_string(&cs, a, b)
}

fn same_name(a: &str, b: &str) -> (r: bool)
    ensures
        r == (a@ == b@),
{
    same_chars(&chars_of(a), &chars_of(b))
}

impl<'a> Builder<'a> {
    fn html_tag(&mut self, raw: &str)
        requires
            old(self).ok(),
        ensures
            final(self).ok(),
            final(self).same_cfg(old(self)),
            final(self).model() == html_tag(old(self).model(), raw@, old(self).theme(), old(self).sheet()),
    {
        if self.code.is_some() || self.image.is_some() {
            self.push_text(raw);
            return;
        }
        let e = classify(raw);
        match e {
            Effect::Open(scope) => {
                if self.html.len() >= MAX_NESTING {
                    return;
                }
                let style_len = self.style_stack.len();
                let link_len = self.link_stack.len();
                let ghost st0 = self.model();
                let ghost sm = scope.model();
                proof {
                    assert(classify_tag(raw@) == EffectModel::Open(sm));
                }
                let mut style = self.cur_style();
                match scope.role {
                    Some(role) => {
                        style = self.sheet.resolve(role).apply(style);
                    },
                    None => {},
                }
                style = style.add_modifier(scope.modifier);
                self.style_stack.push(style);
                let ghost links0 = strings_view(self.link_stack@);
                let ghost hrefv = href_view(scope.href);
                match scope.href {
                    Some(h) => {
                        self.link_stack.push(h);
                    },
                    None => {},
                }
                let ghost hv0 = self.model().html;
                self.html.push(HtmlScope { name: scope.name, style_len, link_len, script: scope.script });
                proof {
                    match hrefv {
                        Some(h) => {
                            assert(strings_view(self.link_stack@) =~= links0.push(h));
                        },
                        None => {},
                    }
                    assert(self.model().html =~= hv0.push(
                        ScopeV { name: scope.name@, style_len: style_len as int, link_len: link_len as int, script: scope.script },
                    ));
                    let c = cur_style(st0, old(self).theme());
                    let s2 = match sm.role {
                        Some(r) => c.spec_patch(old(self).sheet().spec_resolve(r).style),
                        None => c,
                    };
                    assert(style == with_mod(s2, sm.modifier));
                    assert(self.style_stack@ =~= st0.styles.push(with_mod(s2, sm.modifier)));
                    assert(self.model() =~= html_tag(old(self).model(), raw@, old(self).theme(), old(self).sheet()));
                }
            },
            Effect::Close(name) => {
                let ghost hv = self.model().html;
                let mut k = self.html.len();
                let mut found: Option<usize> = None;
                while k > 0
                    invariant_except_break
                        found is None,
                        rposition(hv, name@, hv.len() as int) == rposition(hv, name@, k as int),
                    invariant
                        k <= self.html@.len(),
                        hv == self.model().html,
                    ensures
                        match found {
                            Some(at) => rposition(hv, name@, hv.len() as int) == Some(at as int) && at < self.html@.len(),
                            None => rposition(hv, name@, hv.len() as int) is None,
                        },
                    decreases k,
                {
                    proof {
                        assert(hv[k - 1].name == self.html@[k - 1].name@);
                    }
                    if same_name(self.html[k - 1].name, name) {
                        found = Some(k - 1);
                        break;
                    }
                    k = k - 1;
                }
                match found {
                    Some(at) => {
                        let sl = self.html[at].style_len;
                        let ll = self.html[at].link_len;
                        let ghost links0 = self.link_stack@;
                        let ghost styles0 = self.style_stack@;
                        self.style_stack.truncate(sl);
                        self.link_stack.truncate(ll);
                        self.html.truncate(at);
                        proof {
                            assert(strings_view(self.link_stack@) =~= truncate(strings_view(links0), ll as int));
                            assert(self.style_stack@ =~= truncate(styles0, sl as int));
                            assert(self.model().html =~= hv.take(at as int));
                            assert(self.model() =~= html_tag(old(self).model(), raw@, old(self).theme(), old(self).sheet()));
                        }
                    },
                    None => {},
                }
            },
            Effect::Break => {
                if self.table.is_some() {
                    let style = self.cur_style();
                    let href = self.cur_href();
                    let sp = " ".to_owned();
                    proof {
                        reveal_strlit(" ");
                        assert(sp@ =~= seq![' ']);
                    }
                    self.push_inline(RichSpan { content: sp, style, href });
                } else {
                    self.flush();
                }
            },
            Effect::Image { src, alt } => {
                self.push_image(src.as_str(), alt.as_str());
            },
            Effect::Inert => {},
        }
    }
}


impl<'a> Builder<'a> {
    fn push_style(&mut self, style: Style)
        requires
            old(self).ok(),
        ensures
            final(self).ok(),
            final(self).same_cfg(old(self)),
            final(self).model() == (BState { styles: old(self).model().styles.push(style), ..old(self).model() }),
    {
        self.style_stack.push(style);
        proof {
            assert(self.model() =~= (BState { styles: old(self).model().styles.push(style), ..old(self).model() }));
        }
    }

    fn start(&mut self, tag: MdTag)
        requires
            old(self).ok(),
        ensures
            final(self).ok(),
            final(self).same_cfg(old(self)),
            final(self).model() == start_tag(old(self).model(), tag@, old(self).theme(), old(self).sheet()),
    {
        let ghost tv = tag@;
        match tag {
            MdTag::Paragraph => self.separate(),
            MdTag::Heading(level) => {
                self.separate();
                let mut style = self.sheet.heading.to_style();
                if level > 2 {
                    style = style.add_modifier(Modifier::italic());
                }
                self.push_style(style);
            },
            MdTag::BlockQuote => {
                self.separate();
                self.quote_depth = self.quote_depth.saturating_add(1);
                proof {
                    assert(self.model() =~= start_tag(old(self).model(), tv, old(self).theme(), old(self).sheet()));
                }
            },
            MdTag::CodeBlock(kind) => {
                self.separate();
                let lang = match kind {
                    CodeKind::Fenced(info) => first_word_of(info.as_str()),
                    CodeKind::Indented => String::new(),
                };
                self.code = Some((lang, String::new()));
                proof {
                    assert(self.model() =~= start_tag(old(self).model(), tv, old(self).theme(), old(self).sheet()));
                }
            },
            MdTag::HtmlBlock => {
                self.separate();
                self.html_block = Some(String::new());
                proof {
                    assert(self.model() =~= start_tag(old(self).model(), tv, old(self).theme(), old(self).sheet()));
                }
            },
            MdTag::List(start) => {
                self.separate();
                self.lists.push(start);
                proof {
                    assert(self.model() =~= start_tag(old(self).model(), tv, old(self).theme(), old(self).sheet()));
                }
            },
            MdTag::Item => {
                let n = self.lists.len();
                let counter = if n > 0 { self.lists[n - 1] } else { None };
                let marker = match counter {
                    Some(k) => {
                        let mut m = decimal_u64(k);
                        m.append(". ");
                        self.lists.set(n - 1, Some(k.saturating_add(1)));
                        proof {
                            reveal_strlit(". ");
                        }
                        m
                    },
                    None => {
                        let m = "\u{2022} ".to_owned();
                        proof {
                            reveal_strlit("\u{2022} ");
                        }
                        m
                    },
                };
                let ghost mv = marker@;
                let mut spans: Vec<RichSpan> = Vec::new();
                spans.push(RichSpan { content: marker, style: self.sheet.list_marker.to_style(), href: None });
                proof {
                    assert(rich_views(spans@) =~= seq![(mv, bundle_style(self.sheet.list_marker), None::<Seq<char>>)]);
                }
                self.pending_marker = Some(spans);
                proof {
                    let (mk, ls) = item_marker(old(self).model().lists);
                    assert(mv =~= mk);
                    assert(self.lists@ =~= ls);
                    assert(self.model() =~= start_tag(old(self).model(), tv, old(self).theme(), old(self).sheet()));
                }
            },
            MdTag::Emphasis => {
                let st = self.sheet.emphasis.apply(self.cur_style());
                self.push_style(st);
            },
            MdTag::Strong => {
                let st = self.sheet.strong.apply(self.cur_style());
                self.push_style(st);
            },
            MdTag::Strikethrough => {
                let st = self.sheet.strikethrough.apply(self.cur_style());
                self.push_style(st);
            },
            MdTag::Link(dest) => {
                let ghost links0 = strings_view(self.link_stack@);
                let ghost d = dest@;
                self.link_stack.push(dest);
                self.style_stack.push(self.sheet.link.to_style());
                proof {
                    assert(strings_view(self.link_stack@) =~= links0.push(d));
                    assert(self.model() =~= start_tag(old(self).model(), tv, old(self).theme(), old(self).sheet()));
                }
            },
            MdTag::Image(dest) => {
                self.image = Some((dest, String::new()));
                proof {
                    assert(self.model() =~= start_tag(old(self).model(), tv, old(self).theme(), old(self).sheet()));
                }
            },
            MdTag::Table(aligns) => {
                self.separate();
                let ghost av = aligns@;
                let t = TableData { aligns, header: Vec::new(), rows: Vec::new() };
                proof {
                    assert(t@.1 =~= Seq::<Seq<RichView>>::empty());
                    assert(t@.2 =~= Seq::<Seq<Seq<RichView>>>::empty());
                    assert(t@ == (av, Seq::<Seq<RichView>>::empty(), Seq::<Seq<Seq<RichView>>>::empty()));
                }
                self.table = Some(t);
                proof {
                    assert(self.model() =~= start_tag(old(self).model(), tv, old(self).theme(), old(self).sheet()));
                }
            },
            MdTag::TableHead => {
                self.cur_row.clear();
                self.style_stack.push(self.sheet.heading.to_style());
                proof {
                    assert(cells_view(self.cur_row@) =~= Seq::<Seq<RichView>>::empty());
                    assert(self.model() =~= start_tag(old(self).model(), tv, old(self).theme(), old(self).sheet()));
                }
            },
            MdTag::TableRow => {
                self.cur_row.clear();
                proof {
                    assert(cells_view(self.cur_row@) =~= Seq::<Seq<RichView>>::empty());
                    assert(self.model() =~= start_tag(old(self).model(), tv, old(self).theme(), old(self).sheet()));
                }
            },
            MdTag::TableCell => {
                self.inline.clear();
                proof {
                    assert(rich_views(self.inline@) =~= Seq::<RichView>::empty());
                    assert(self.model() =~= start_tag(old(self).model(), tv, old(self).theme(), old(self).sheet()));
                }
            },
            MdTag::Other => {},
        }
    }
}


impl<'a> Builder<'a> {
    fn pop_style(&mut self)
        requires
            old(self).ok(),
        ensures
            final(self).ok(),
            final(self).same_cfg(old(self)),
            final(self).model() == (BState { styles: pop(old(self).model().styles), ..old(self).model() }),
    {
        let _ = self.style_stack.pop();
        proof {
            assert(self.model() =~= (BState { styles: pop(old(self).model().styles), ..old(self).model() }));
        }
    }

    /// A finished HTML block becomes an item unless it is blank.
    fn push_html_block(&mut self, source: String)
        requires
            old(self).ok(),
        ensures
            final(self).ok(),
            final(self).same_cfg(old(self)),
            final(self).model() == if trim_ws(source@).len() > 0 {
                BState { items: old(self).model().items.push(Block::Html(source@, indent_of(old(self).model()))), ..old(self).model() }
            } else {
                old(self).model()
            },
    {
        if !is_blank(source.as_str()) {
            let indent = self.indent();
            self.push_item(MdItem::Html { source, indent });
        }
    }

    fn end(&mut self, tag: MdTagEnd)
        requires
            old(self).ok(),
        ensures
            final(self).ok(),
            final(self).same_cfg(old(self)),
            final(self).model() == end_tag(old(self).model(), tag, old(self).theme(), old(self).sheet()),
    {
        let closes = match tag {
            MdTagEnd::Paragraph | MdTagEnd::Heading | MdTagEnd::Item | MdTagEnd::TableCell | MdTagEnd::BlockQuote => true,
            _ => false,
        };
        if closes {
            self.close_html_scopes();
        }
        let ghost st = self.model();
        proof {
            assert(st == if ends_block(tag) { close_html_scopes(old(self).model()) } else { old(self).model() });
        }
        match tag {
            MdTagEnd::Paragraph => self.flush(),
            MdTagEnd::Heading => {
                self.flush();
                self.pop_style();
            },
            MdTagEnd::BlockQuote => {
                self.flush();
                self.quote_depth = if self.quote_depth > 0 { self.quote_depth - 1 } else { 0 };
                proof {
                    assert(self.model() =~= end_tag(old(self).model(), tag, old(self).theme(), old(self).sheet()));
                }
            },
            MdTagEnd::CodeBlock => {
                match self.code.take() {
                    Some((lang, body)) => {
                        proof {
                            assert(self.model() =~= (BState { code: None, ..st }));
                        }
                        self.push_code_block(lang, body);
                    },
                    None => {},
                }
            },
            MdTagEnd::HtmlBlock => {
                match self.html_block.take() {
                    Some(src) => {
                        proof {
                            assert(self.model() =~= (BState { html_block: None, ..st }));
                        }
                        self.push_html_block(src);
                    },
                    None => {},
                }
            },
            MdTagEnd::List => {
                let _ = self.lists.pop();
                proof {
                    assert(self.model() =~= end_tag(old(self).model(), tag, old(self).theme(), old(self).sheet()));
                }
            },
            MdTagEnd::Item => self.flush(),
            MdTagEnd::Emphasis | MdTagEnd::Strong | MdTagEnd::Strikethrough => self.pop_style(),
            MdTagEnd::Link => {
                let _ = self.style_stack.pop();
                let ghost links0 = self.link_stack@;
                let _ = self.link_stack.pop();
                proof {
                    assert(strings_view(self.link_stack@) =~= pop(strings_view(links0)));
                    assert(self.model() =~= end_tag(old(self).model(), tag, old(self).theme(), old(self).sheet()));
                }
            },
            MdTagEnd::Image => {
                match self.image.take() {
                    Some((u, a)) => {
                        proof {
                            assert(self.model() =~= (BState { image: None, ..st }));
                        }
                        self.push_image(u.as_str(), a.as_str());
                    },
                    None => {},
                }
            },
            MdTagEnd::TableCell => {
                let mut taken: Vec<RichSpan> = Vec::new();
                std::mem::swap(&mut taken, &mut self.inline);
                let ghost tv = rich_views(taken@);
                let cell = trim_spans(taken);
                let ghost rows0 = cells_view(self.cur_row@);
                self.cur_row.push(cell);
                proof {
                    assert(cells_view(self.cur_row@) =~= rows0.push(trim_spans_spec(tv)));
                    assert(rich_views(self.inline@) =~= Seq::<RichView>::empty());
                    assert(self.model() =~= end_tag(old(self).model(), tag, old(self).theme(), old(self).sheet()));
                }
            },
            MdTagEnd::TableHead => {
                let _ = self.style_stack.pop();
                match self.table.take() {
                    Some(mut t) => {
                        let mut row: Vec<Cell> = Vec::new();
                        std::mem::swap(&mut row, &mut self.cur_row);
                        t.header = row;
                        self.table = Some(t);
                        proof {
                            assert(cells_view(self.cur_row@) =~= Seq::<Seq<RichView>>::empty());
                            assert(self.model() =~= end_tag(old(self).model(), tag, old(self).theme(), old(self).sheet()));
                        }
                    },
                    None => {
                        proof {
                            assert(self.model() =~= end_tag(old(self).model(), tag, old(self).theme(), old(self).sheet()));
                        }
                    },
                }
            },
            MdTagEnd::TableRow => {
                match self.table.take() {
                    Some(mut t) => {
                        let mut row: Vec<Cell> = Vec::new();
                        std::mem::swap(&mut row, &mut self.cur_row);
                        let ghost rv = cells_view(row@);
                        let ghost rows0 = t@.2;
                        t.rows.push(row);
                        proof {
                            assert(t@.2 =~= rows0.push(rv));
                        }
                        self.table = Some(t);
                        proof {
                            assert(cells_view(self.cur_row@) =~= Seq::<Seq<RichView>>::empty());
                            assert(self.model() =~= end_tag(old(self).model(), tag, old(self).theme(), old(self).sheet()));
                        }
                    },
                    None => {},
                }
            },
            MdTagEnd::Table => {
                match self.table.take() {
                    Some(t) => {
                        proof {
                            assert(self.model() =~= (BState { table: None, ..st }));
                        }
                        let indent = self.indent();
                        self.push_item(MdItem::Table { table: t, indent });
                    },
                    None => {},
                }
            },
            MdTagEnd::Other => {},
        }
    }
}


impl<'a> Builder<'a> {
    /// Apply one event.
    pub fn event(&mut self, event: MdEvent)
        requires
            old(self).ok(),
        ensures
            final(self).ok(),
            final(self).same_cfg(old(self)),
            final(self).model() == step(old(self).model(), event@, old(self).theme(), old(self).sheet()),
    {
        let ghost ev = event@;
        match event {
            MdEvent::InlineHtml(raw) => self.html_tag(raw.as_str()),
            MdEvent::Html(raw) => {
                match self.html_block.take() {
                    Some(mut b) => {
                        b.append(raw.as_str());
                        self.html_block = Some(b);
                        proof {
                            assert(self.model() =~= step(old(self).model(), ev, old(self).theme(), old(self).sheet()));
                        }
                    },
                    None => {},
                }
            },
            MdEvent::Start(tag) => self.start(tag),
            MdEvent::End(tag) => self.end(tag),
            MdEvent::Text(t) => self.push_text(t.as_str()),
            MdEvent::Code(t) => {
                let href = self.cur_href();
                self.push_inline(RichSpan { content: t, style: self.sheet.inline_code.to_style(), href });
            },
            MdEvent::SoftBreak => {
                if self.code.is_none() {
                    let style = self.cur_style();
                    let href = self.cur_href();
                    let sp = " ".to_owned();
                    proof {
                        reveal_strlit(" ");
                        assert(sp@ =~= seq![' ']);
                    }
                    self.push_inline(RichSpan { content: sp, style, href });
                }
            },
            MdEvent::HardBreak => {
                if self.table.is_some() {
                    let style = self.cur_style();
                    let href = self.cur_href();
                    let sp = " ".to_owned();
                    proof {
                        reveal_strlit(" ");
                        assert(sp@ =~= seq![' ']);
                    }
                    self.push_inline(RichSpan { content: sp, style, href });
                } else {
                    self.flush();
                }
            },
            MdEvent::Rule => {
                self.separate();
                let mut glyphs = String::new();
                let mut k: usize = 0;
                while k < 24
                    invariant
                        k <= 24,
                        glyphs@ == super::table::repeat('\u{2500}', k as int),
                    decreases 24 - k,
                {
                    crate::graphemes::push_char(&mut glyphs, '\u{2500}');
                    k = k + 1;
                }
                let mut spans: Vec<RichSpan> = Vec::new();
                let ghost gv = glyphs@;
                spans.push(RichSpan { content: glyphs, style: self.sheet.rule.to_style(), href: None });
                proof {
                    assert(rich_views(spans@) =~= seq![(rule_glyphs(), bundle_style(self.sheet.rule), None::<Seq<char>>)]);
                }
                let indent = self.indent();
                self.push_item(MdItem::Prose { spans, indent });
            },
            MdEvent::TaskListMarker(done) => {
                let glyph = if done { "[x] ".to_owned() } else { "[ ] ".to_owned() };
                proof {
                    reveal_strlit("[x] ");
                    reveal_strlit("[ ] ");
                    assert(glyph@ =~= if done { seq!['[', 'x', ']', ' '] } else { seq!['[', ' ', ']', ' '] });
                }
                self.push_inline(RichSpan { content: glyph, style: self.sheet.task_marker.to_style(), href: None });
            },
            MdEvent::Other => {},
        }
    }

    /// End of input (see [`finish`]); returns the blocks.
    pub fn finish(self) -> (items: Vec<MdItem>)
        requires
            self.ok(),
        ensures
            blocks_of(items@) == finish(self.model()).items,
            forall|i: int| 0 <= i < items@.len() ==> fallback_ok(#[trigger] items@[i]@, self.theme(), self.plain()),
    {
        let mut b = self;
        if b.table.is_some() {
            b.inline.clear();
            proof {
                assert(rich_views(b.inline@) =~= Seq::<RichView>::empty());
                assert(b.model() =~= (BState { inline: seq![], ..self.model() }));
            }
        }
        b.flush();
        b.close_html_scopes();
        match b.code.take() {
            Some((lang, body)) => {
                b.push_code_block(lang, body);
            },
            None => {},
        }
        match b.html_block.take() {
            Some(src) => {
                b.push_html_block(src);
            },
            None => {},
        }
        proof {
            assert(b.model() == finish(self.model()));
        }
        b.items
    }
}

/// Parse an event stream into blocks (see [`parse_spec`]): headings, lists
/// and quotes indent and style their prose, fenced code keeps its source
/// and themed rows, tables keep their styled cells, raw HTML blocks are kept
/// verbatim, and inline HTML resolves through the tag whitelist.
pub fn parse_events(events: Vec<MdEvent>, theme: &Theme, sheet: &StyleSheet, highlighter: CodeHighlighter) -> (items: Vec<MdItem>)
    ensures
        blocks_of(items@) == parse_spec(event_views(events@), *theme, *sheet),
        forall|i: int| 0 <= i < items@.len() ==> fallback_ok(#[trigger] items@[i]@, *theme, highlighter is Plain),
{
    let ghost evs = event_views(events@);
    let mut b = Builder::new(theme, sheet, highlighter);
    let mut source = events;
    let n = source.len();
    let mut events: Vec<MdEvent> = Vec::new();
    let mut j: usize = 0;
    while j < n
        invariant
            j <= n,
            n == evs.len(),
            source@.len() == n - j,
            forall|k: int| 0 <= k < source@.len() ==> (#[trigger] source@[k])@ == evs[k],
            events@.len() == j,
            forall|k: int| 0 <= k < j ==> (#[trigger] events@[k])@ == evs[n - 1 - k],
        decreases n - j,
    {
        let ev = source.pop().unwrap();
        events.push(ev);
        j = j + 1;
    }
    let mut i: usize = 0;
    while i < n
        invariant
            i <= n,
            n == evs.len(),
            events@.len() == n - i,
            forall|k: int| 0 <= k < events@.len() ==> (#[trigger] events@[k])@ == evs[n - 1 - k],
            b.ok(),
            b.theme() == *theme,
            b.sheet() == *sheet,
            b.plain() == (highlighter is Plain),
            b.model() == run(evs, i as int, *theme, *sheet),
        decreases n - i,
    {
        let ev = events.pop().unwrap();
        proof {
            assert(ev@ == evs[i as int]);
        }
        b.event(ev);
        i = i + 1;
    }
    b.finish()
}


/// What rendering the event stream `evs` gives: the blocks [`parse_spec`]
/// makes of it (code blocks with a valid fallback), flattened at `width`,
/// each code or HTML block either taken from a renderer's answer (when it
/// can be rendered that way, and only when there are `renderers` to ask)
/// or drawn by the built-in fallback.
pub open spec fn rendered_from(
    evs: Seq<MdEventV>,
    width: int,
    theme: Theme,
    sheet: StyleSheet,
    plain: bool,
    renderers: int,
    out: (Seq<LineView>, Seq<LinkView>),
) -> bool {
    exists|items: Seq<MdItemView>, rendered: Seq<Option<Seq<LineView>>>|
        {
            &&& items.map_values(|i: MdItemView| block_of(i)) == parse_spec(evs, theme, sheet)
            &&& forall|i: int| 0 <= i < items.len() ==> fallback_ok(#[trigger] items[i], theme, plain)
            &&& rendered.len() == items.len()
            &&& forall|i: int| 0 <= i < rendered.len() && rendered[i] is Some ==> renderable(items[i])
            &&& renderers == 0 ==> forall|i: int| 0 <= i < rendered.len() ==> rendered[i] is None
            &&& out == flatten_spec(items, width, theme, rendered, items.len() as int, false)
        }
}

/// Render an event stream to width-fitted lines and the hyperlink runs that
/// survive wrapping: the blocks [`parse_events`] makes of it, flattened by
/// [`flatten_linked`] with `renderers` asked for code and HTML blocks.
pub fn events_to_linked_lines(
    events: Vec<MdEvent>,
    width: u16,
    theme: &Theme,
    sheet: &StyleSheet,
    highlighter: CodeHighlighter,
    renderers: &Renderers,
) -> (out: (Vec<Line>, Vec<BufferLink>))
    ensures
        rendered_from(
            event_views(events@),
            width as int,
            *theme,
            *sheet,
            highlighter is Plain,
            renderers.blocks@.len() as int,
            (lines_view(out.0@), link_views(out.1@)),
        ),
{
    let ghost evs = event_views(events@);
    let items = parse_events(events, theme, sheet, highlighter);
    let sl = items.as_slice();
    proof {
        assert(sl@ == items@);
    }
    let out = flatten_linked(sl, width, theme, sheet, renderers);
    proof {
        let iv = item_views(items@);
        assert(iv.map_values(|i: MdItemView| block_of(i)) =~= blocks_of(items@));
        assert forall|i: int| 0 <= i < iv.len() implies fallback_ok(#[trigger] iv[i], *theme, highlighter is Plain) by {
            assert(iv[i] == items@[i]@);
        }
        assert(iv.len() == items@.len());
        if renderers.blocks@.len() == 0 {
            let r = Seq::new(sl@.len(), |i: int| None::<Seq<LineView>>);
            assert(forall|i: int| 0 <= i < r.len() ==> r[i] is None);
            assert(rendered_from(evs, width as int, *theme, *sheet, highlighter is Plain, 0, (lines_view(out.0@), link_views(out.1@)))) by {
                assert(iv.map_values(|i: MdItemView| block_of(i)) == parse_spec(evs, *theme, *sheet));
            }
        } else {
            let r = choose|rendered: Seq<Option<Seq<LineView>>>|
                {
                    &&& rendered.len() == sl@.len()
                    &&& forall|i: int| 0 <= i < rendered.len() && rendered[i] is Some ==> renderable(item_views(sl@)[i])
                    &&& (lines_view(out.0@), link_views(out.1@)) == flatten_spec(
                        item_views(sl@),
                        width as int,
                        *theme,
                        rendered,
                        sl@.len() as int,
                        false,
                    )
                };
            assert(iv.map_values(|i: MdItemView| block_of(i)) == parse_spec(evs, *theme, *sheet));
        }
    }
    out
}

} // verus!
