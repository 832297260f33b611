//! A themed code block: an optional language label, a left rail, a code
//! background, and verbatim body lines that are never reflowed. Token colors
//! come from a [`Highlighter`] the host plugs in; without one the body is
//! plain code-colored text.

use vstd::prelude::*;
use crate::chars::{trim_chars, trim_ws};
use crate::components::text::sadd;
use crate::components::markdown::table::repeat;
use crate::graphemes::{chars_of, push_char, string_of};
use crate::style::{Modifier, Style, Theme};
use crate::text::{Alignment, Line, Span};
use crate::components::text::{max_line_cols, split_newlines, split_newlines_exec, line_width};
use crate::buffer::CellView;
use crate::geometry::{Rect, Size, sat_add};
use crate::surface::{Surface, fill_span, write_runs};
use crate::view::RenderCtx;
use crate::width::{cap16, str_cols, text_cols};

verus! {

/// Colors the body lines of a code block. Implemented by hosts: returns one
/// run of spans per body line, or `None` to leave the block plain.
pub trait Highlighter {
    fn highlight(&self, lang: &str, body: &[String], theme: &Theme) -> Option<Vec<Vec<Span>>>;
}

/// The highlighter a code block uses: none, or a host's.
#[derive(Clone, Copy)]
pub enum CodeHighlighter<'a> {
    Plain,
    With(&'a dyn Highlighter),
}

impl<'a> CodeHighlighter<'a> {
    /// The host's coloring of `body`, or `None` when plain.
    pub fn highlight(&self, lang: &str, body: &[String], theme: &Theme) -> (r: Option<Vec<Vec<Span>>>)
        ensures
            *self is Plain ==> r is None,
    {
        match self {
            CodeHighlighter::Plain => None,
            CodeHighlighter::With(h) => h.highlight(lang, body, theme),
        }
    }
}

/// The rail that frames every code line: a thin bar and a space.
pub open spec fn rail() -> Seq<char> {
    seq!['\u{258F}', ' ']
}

/// The ASCII digit for `d` (0 to 9).
pub open spec fn digit_char(d: int) -> char {
    if d <= 0 {
        '0'
    } else if d == 1 {
        '1'
    } else if d == 2 {
        '2'
    } else if d == 3 {
        '3'
    } else if d == 4 {
        '4'
    } else if d == 5 {
        '5'
    } else if d == 6 {
        '6'
    } else if d == 7 {
        '7'
    } else if d == 8 {
        '8'
    } else {
        '9'
    }
}

/// The decimal digits of `n`.
pub open spec fn decimal(n: nat) -> Seq<char>
    decreases n,
{
    if n < 10 {
        seq![digit_char(n as int)]
    } else {
        decimal(n / 10).push(digit_char((n % 10) as int))
    }
}

pub(crate) fn digit(d: usize) -> (c: char)
    ensures
        c == digit_char(d as int),
{
    if d == 0 {
        '0'
    } else if d == 1 {
        '1'
    } else if d == 2 {
        '2'
    } else if d == 3 {
        '3'
    } else if d == 4 {
        '4'
    } else if d == 5 {
        '5'
    } else if d == 6 {
        '6'
    } else if d == 7 {
        '7'
    } else if d == 8 {
        '8'
    } else {
        '9'
    }
}

/// `n` in decimal.
pub fn decimal_string(n: usize) -> (s: String)
    ensures
        s@ == decimal(n as nat),
    decreases n,
{
    if n < 10 {
        let mut s = String::new();
        push_char(&mut s, digit(n));
        proof {
            assert(s@ =~= seq![digit_char(n as int)]);
        }
        s
    } else {
        let mut s = decimal_string(n / 10);
        push_char(&mut s, digit(n % 10));
        s
    }
}

/// `s` right-aligned in a field of `w` columns of spaces.
pub open spec fn pad_left(s: Seq<char>, w: int) -> Seq<char> {
    repeat(' ', w - s.len()) + s
}

/// The gutter's width: enough digits for the last line number plus a space
/// either side, when a gutter starting at `gutter` is shown.
pub open spec fn gutter_width(gutter: Option<usize>, n: int) -> Option<int> {
    match gutter {
        Some(start) => Some(decimal((start + if n > 0 { n - 1 } else { 0 }) as nat).len() + 2int),
        None => None,
    }
}

/// `fg` over the code background.
pub open spec fn on_code(theme: Theme, fg: crate::style::Color) -> Style {
    Style { fg: Some(fg), bg: Some(theme.code.background), ..Style::spec_empty() }
}

/// The language label's style: label color, italic, on the code background.
pub open spec fn label_style(theme: Theme) -> Style {
    Style {
        add_modifier: Modifier { bits: 0 }.spec_union(Modifier { bits: 4 }),
        sub_modifier: Modifier { bits: 0 }.spec_difference(Modifier { bits: 4 }),
        ..on_code(theme, theme.code.label)
    }
}

/// A rendered line as values: spans (text, style), base style, alignment.
pub type LineView = (Seq<(Seq<char>, Style)>, Style, Option<Alignment>);

/// An unstyled, unaligned line of `spans`.
pub open spec fn plain_line(spans: Seq<(Seq<char>, Style)>) -> LineView {
    (spans, Style::spec_empty(), None)
}

/// The intrinsic width of a row: gutter (capped at `u16::MAX`), rail and
/// `text`, saturating.
pub open spec fn row_width(gw: Option<int>, text: Seq<char>) -> int {
    let g = match gw {
        Some(w) => if w > 65535 { 65535 } else { w },
        None => 0,
    };
    sadd(sadd(g, cap16(text_cols(rail()) as int)), cap16(text_cols(text) as int))
}

/// The language-label row: a blank gutter, then the rail and the label.
pub open spec fn label_row(label: Seq<char>, gw: Option<int>, theme: Theme) -> (LineView, int) {
    let gutter = match gw {
        Some(w) => seq![(repeat(' ', w), on_code(theme, theme.code.label))],
        None => seq![],
    };
    (plain_line(gutter + seq![(rail() + label, label_style(theme))]), row_width(gw, label))
}

/// Body row `k`: the right-aligned line number (with a gutter), the rail,
/// and the highlighted spans over the code background, or the source line
/// in the plain code color when the highlighter gave nothing for it.
pub open spec fn body_row(
    k: int,
    source: Seq<char>,
    gutter: Option<usize>,
    gw: Option<int>,
    hl: Option<Seq<(Seq<char>, Style)>>,
    theme: Theme,
) -> (LineView, int) {
    let num = match (gutter, gw) {
        (Some(start), Some(w)) => seq![
            (seq![' '] + pad_left(decimal((start + k) as nat), w - 2) + seq![' '], on_code(theme, theme.code.label)),
        ],
        _ => seq![],
    };
    let body = match hl {
        Some(cells) => if cells.len() > 0 {
            cells.map_values(|c: (Seq<char>, Style)| (c.0, Style { bg: Some(theme.code.background), ..c.1 }))
        } else {
            seq![(source, on_code(theme, theme.code.text))]
        },
        None => seq![(source, on_code(theme, theme.code.text))],
    };
    (plain_line(num + seq![(rail(), on_code(theme, theme.code.label))] + body), row_width(gw, source))
}

/// The highlighted spans of line `k`, if the highlighter produced them.
pub open spec fn hl_line(hl: Option<Seq<Seq<(Seq<char>, Style)>>>, k: int) -> Option<Seq<(Seq<char>, Style)>> {
    match hl {
        Some(lines) => if 0 <= k < lines.len() {
            Some(lines[k])
        } else {
            None
        },
        None => None,
    }
}

/// The rows of a code block: the label row (when shown and the trimmed
/// language is not empty), then one row per body line.
pub open spec fn code_rows_spec(
    lang: Seq<char>,
    body: Seq<Seq<char>>,
    theme: Theme,
    show_label: bool,
    gutter: Option<usize>,
    hl: Option<Seq<Seq<(Seq<char>, Style)>>>,
) -> Seq<(LineView, int)> {
    let label = trim_ws(lang);
    let gw = gutter_width(gutter, body.len() as int);
    let head = if show_label && label.len() > 0 { seq![label_row(label, gw, theme)] } else { seq![] };
    head + Seq::new(body.len(), |k: int| body_row(k, body[k], gutter, gw, hl_line(hl, k), theme))
}

/// A prepared code row and its intrinsic display width.
#[derive(Debug)]
pub struct CodeRow {
    pub line: Line,
    pub width: u16,
}

pub open spec fn line_spans_view(l: Line) -> LineView {
    (l.spans@.map_values(|s: Span| (s.content@, s.style)), l.style, l.alignment)
}

pub open spec fn code_rows_view(v: Seq<CodeRow>) -> Seq<(LineView, int)> {
    v.map_values(|r: CodeRow| (line_spans_view(r.line), r.width as int))
}

pub open spec fn strings_view(v: Seq<String>) -> Seq<Seq<char>> {
    v.map_values(|s: String| s@)
}

pub open spec fn hl_view(h: Option<Vec<Vec<Span>>>) -> Option<Seq<Seq<(Seq<char>, Style)>>> {
    match h {
        Some(lines) => Some(lines@.map_values(|l: Vec<Span>| l@.map_values(|s: Span| (s.content@, s.style)))),
        None => None,
    }
}

fn string_from(s: &str) -> (r: String)
    ensures
        r@ == s@,
{
    s.to_owned()
}

fn rail_string() -> (r: String)
    ensures
        r@ == rail(),
{
    let mut r = String::new();
    push_char(&mut r, '\u{258F}');
    push_char(&mut r, ' ');
    proof {
        assert(r@ =~= rail());
    }
    r
}

fn spaces(n: usize) -> (r: String)
    ensures
        r@ == repeat(' ', n as int),
{
    let mut r = String::new();
    let mut i: usize = 0;
    while i < n
        invariant
            i <= n,
            r@ == repeat(' ', i as int),
        decreases n - i,
    {
        push_char(&mut r, ' ');
        i = i + 1;
    }
    r
}

fn cap_u16(w: Option<usize>) -> (r: u16)
    ensures
        r == match w {
            Some(x) => if x > 65535 { 65535 } else { x as int },
            None => 0int,
        },
{
    match w {
        Some(x) => if x > 65535 { 65535 } else { x as u16 },
        None => 0,
    }
}

/// The rows of a code block given what the highlighter returned for it (see
/// [`code_rows_spec`]).
pub fn code_rows_from(
    lang: &str,
    body: &[String],
    theme: &Theme,
    show_label: bool,
    gutter: Option<usize>,
    highlighted: Option<Vec<Vec<Span>>>,
) -> (rows: Vec<CodeRow>)
    requires
        gutter matches Some(start) ==> start + body@.len() <= usize::MAX,
    ensures
        code_rows_view(rows@) == code_rows_spec(lang@, strings_view(body@), *theme, show_label, gutter, hl_view(highlighted)),
{
    let ghost bv = strings_view(body@);
    let ghost hv = hl_view(highlighted);
    let label_style_v = Style::new().fg(theme.code.label).bg(theme.code.background).add_modifier(Modifier::italic());
    let rail_style = Style::new().fg(theme.code.label).bg(theme.code.background);
    let plain = Style::new().fg(theme.code.text).bg(theme.code.background);
    let gutter_width_v: Option<usize> = match gutter {
        Some(start) => {
            let last = start + if body.len() > 0 { body.len() - 1 } else { 0 };
            let digits = decimal_string(last);
            proof {
                assert(digits@.len() <= usize::MAX - 2) by {
                    lemma_decimal_len(last as nat);
                }
            }
            Some(digits.as_str().unicode_len() + 2)
        },
        None => None,
    };
    let ghost gw = gutter_width(gutter, bv.len() as int);
    proof {
        assert(match gutter_width_v {
            Some(x) => gw == Some(x as int),
            None => gw is None,
        });
    }
    let gcap = cap_u16(gutter_width_v);
    let rail_cols = str_cols("\u{258F} ");
    proof {
        reveal_strlit("\u{258F} ");
        assert("\u{258F} "@ =~= rail());
    }
    let mut out: Vec<CodeRow> = Vec::new();
    let lang_chars = chars_of(lang);
    let label_chars = trim_chars(&lang_chars);
    let lsl = label_chars.as_slice();
    proof {
        assert(lsl@ == label_chars@);
    }
    let label = string_of(lsl);
    let ghost head_spec = if show_label && label@.len() > 0 { seq![label_row(label@, gw, *theme)] } else { seq![] };
    if show_label && label_chars.len() > 0 {
        let mut spans: Vec<Span> = Vec::new();
        if let Some(w) = gutter_width_v {
            spans.push(Span::owned(spaces(w), rail_style));
        }
        let mut text = rail_string();
        text.append(label.as_str());
        spans.push(Span::owned(text, label_style_v));
        let width = gcap.saturating_add(rail_cols).saturating_add(str_cols(label.as_str()));
        let ghost sv = spans@.map_values(|s: Span| (s.content@, s.style));
        let line = Line::from_spans(spans);
        out.push(CodeRow { line, width });
        proof {
            let lr = label_row(label@, gw, *theme);
            assert(label_style_v == label_style(*theme));
            assert(sv =~= lr.0.0);
            assert(width as int == lr.1);
            assert(line_spans_view(line) =~= lr.0);
            assert(code_rows_view(out@) =~= head_spec);
        }
    } else {
        proof {
            assert(code_rows_view(out@) =~= head_spec);
        }
    }
    let ghost target = code_rows_spec(lang@, bv, *theme, show_label, gutter, hv);
    proof {
        assert(label@ == trim_ws(lang@));
    }
    let mut row: usize = 0;
    while row < body.len()
        invariant
            row <= body@.len(),
            bv == strings_view(body@),
            hv == hl_view(highlighted),
            gw == gutter_width(gutter, bv.len() as int),
            gcap == match gutter_width_v {
                Some(x) => if x > 65535 { 65535 } else { x as int },
                None => 0int,
            },
            match gutter_width_v {
                Some(x) => gw == Some(x as int),
                None => gw is None,
            },
            rail_cols == cap16(text_cols(rail()) as int),
            gutter matches Some(start) ==> start + body@.len() <= usize::MAX,
            rail_style == on_code(*theme, theme.code.label),
            plain == on_code(*theme, theme.code.text),
            target == code_rows_spec(lang@, bv, *theme, show_label, gutter, hv),
            code_rows_view(out@) == head_spec + Seq::new(
                row as nat,
                |k: int| body_row(k, bv[k], gutter, gw, hl_line(hv, k), *theme),
            ),
        decreases body@.len() - row,
    {
        let source = &body[row];
        let mut spans: Vec<Span> = Vec::new();
        let ghost num_spec = match (gutter, gw) {
            (Some(start), Some(w)) => seq![
                (seq![' '] + pad_left(decimal((start + row) as nat), w - 2) + seq![' '], on_code(*theme, theme.code.label)),
            ],
            _ => Seq::<(Seq<char>, Style)>::empty(),
        };
        match (gutter, gutter_width_v) {
            (Some(start), Some(w)) => {
                let n = decimal_string(start + row);
                let mut text = String::new();
                push_char(&mut text, ' ');
                let field = w - 2;
                let nlen = n.as_str().unicode_len();
                if nlen < field {
                    text.append(spaces(field - nlen).as_str());
                }
                text.append(n.as_str());
                push_char(&mut text, ' ');
                proof {
                    assert(text@ =~= seq![' '] + pad_left(n@, field as int) + seq![' ']);
                }
                spans.push(Span::owned(text, rail_style));
            },
            _ => {},
        }
        let ghost sv0 = spans@.map_values(|s: Span| (s.content@, s.style));
        proof {
            assert(sv0 =~= num_spec);
        }
        spans.push(Span::owned(rail_string(), rail_style));
        let ghost sv1 = spans@.map_values(|s: Span| (s.content@, s.style));
        proof {
            assert(sv1 =~= num_spec + seq![(rail(), on_code(*theme, theme.code.label))]);
        }
        let mut used_highlight = false;
        match &highlighted {
            Some(lines) => {
                if row < lines.len() && lines[row].len() > 0 {
                    let cells = &lines[row];
                    let mut q: usize = 0;
                    while q < cells.len()
                        invariant
                            q <= cells@.len(),
                            spans@.map_values(|s: Span| (s.content@, s.style)) == sv1 + cells@.take(q as int).map_values(
                                |s: Span| (s.content@, Style { bg: Some(theme.code.background), ..s.style }),
                            ),
                        decreases cells@.len() - q,
                    {
                        let ghost pre = spans@.map_values(|s: Span| (s.content@, s.style));
                        let cell = &cells[q];
                        spans.push(Span::owned(cell.content.clone(), cell.style.bg(theme.code.background)));
                        proof {
                            assert(spans@.map_values(|s: Span| (s.content@, s.style)) =~= pre.push(
                                (cell.content@, Style { bg: Some(theme.code.background), ..cell.style }),
                            ));
                            assert(cells@.take(q as int + 1).map_values(
                                |s: Span| (s.content@, Style { bg: Some(theme.code.background), ..s.style }),
                            ) =~= cells@.take(q as int).map_values(
                                |s: Span| (s.content@, Style { bg: Some(theme.code.background), ..s.style }),
                            ).push((cell.content@, Style { bg: Some(theme.code.background), ..cell.style })));
                        }
                        q = q + 1;
                    }
                    proof {
                        assert(cells@.take(q as int) =~= cells@);
                    }
                    used_highlight = true;
                }
            },
            None => {},
        }
        if !used_highlight {
            spans.push(Span::owned(source.clone(), plain));
        }
        let width = gcap.saturating_add(rail_cols).saturating_add(str_cols(source.as_str()));
        let line = Line::from_spans(spans);
        let ghost pre_out = code_rows_view(out@);
        out.push(CodeRow { line, width });
        proof {
            let expected = body_row(row as int, bv[row as int], gutter, gw, hl_line(hv, row as int), *theme);
            assert(bv[row as int] == source@);
            assert(line_spans_view(line) =~= expected.0);
            assert(code_rows_view(out@) =~= pre_out.push(expected));
            assert(Seq::new((row + 1) as nat, |k: int| body_row(k, bv[k], gutter, gw, hl_line(hv, k), *theme))
                =~= Seq::new(row as nat, |k: int| body_row(k, bv[k], gutter, gw, hl_line(hv, k), *theme)).push(expected));
        }
        row = row + 1;
    }
    proof {
        assert(code_rows_view(out@) =~= target);
    }
    out
}

pub open spec fn pow10(k: nat) -> nat
    decreases k,
{
    if k == 0 {
        1
    } else {
        10 * pow10((k - 1) as nat)
    }
}

proof fn lemma_decimal_len_bound(n: nat, k: nat)
    requires
        n < pow10(k),
    ensures
        decimal(n).len() <= if k >= 1 { k } else { 1 },
    decreases n,
{
    if n >= 10 {
        assert(k >= 1) by {
            if k == 0 {
                assert(pow10(0) == 1);
            }
        }
        let k1 = (k - 1) as nat;
        assert(n / 10 < pow10(k1)) by (nonlinear_arith)
            requires
                n < 10 * pow10(k1),
                n >= 10,
        ;
        lemma_decimal_len_bound(n / 10, k1);
        if k1 == 0 {
            assert(pow10(0) == 1);
        }
    }
}

proof fn lemma_decimal_len(n: nat)
    requires
        n <= usize::MAX,
    ensures
        1 <= decimal(n).len() <= 20,
{
    reveal_with_fuel(pow10, 21);
    assert(pow10(20) == 100000000000000000000nat);
    lemma_decimal_len_bound(n, 20);
}

/// Build the rows of a code block: an optional language-label row, then
/// one verbatim row per body line, colored by `highlighter` where it
/// answers. `gutter` is the first line number when a right-aligned
/// line-number column should precede the rail.
pub fn code_block_rows(
    lang: &str,
    body: &[String],
    theme: &Theme,
    highlighter: CodeHighlighter,
    show_label: bool,
    gutter: Option<usize>,
) -> (rows: Vec<CodeRow>)
    requires
        gutter matches Some(start) ==> start + body@.len() <= usize::MAX,
    ensures
        highlighter is Plain ==> code_rows_view(rows@) == code_rows_spec(
            lang@,
            strings_view(body@),
            *theme,
            show_label,
            gutter,
            None,
        ),
        exists|h: Option<Seq<Seq<(Seq<char>, Style)>>>|
            code_rows_view(rows@) == code_rows_spec(lang@, strings_view(body@), *theme, show_label, gutter, h),
{
    let trimmed = trim_chars(&chars_of(lang));
    let tsl = trimmed.as_slice();
    let label = string_of(tsl);
    let highlighted = highlighter.highlight(label.as_str(), body, theme);
    let ghost h = hl_view(highlighted);
    let rows = code_rows_from(lang, body, theme, show_label, gutter, highlighted);
    proof {
        assert(code_rows_view(rows@) == code_rows_spec(lang@, strings_view(body@), *theme, show_label, gutter, h));
    }
    rows
}

/// The lines of a code block (see [`code_block_rows`]), without their widths.
pub fn code_block_lines(
    lang: &str,
    body: &[String],
    theme: &Theme,
    highlighter: CodeHighlighter,
    show_label: bool,
    gutter: Option<usize>,
) -> (lines: Vec<Line>)
    requires
        gutter matches Some(start) ==> start + body@.len() <= usize::MAX,
    ensures
        exists|h: Option<Seq<Seq<(Seq<char>, Style)>>>|
            lines@.map_values(|l: Line| line_spans_view(l)) == code_rows_spec(
                lang@,
                strings_view(body@),
                *theme,
                show_label,
                gutter,
                h,
            ).map_values(|r: (LineView, int)| r.0),
        highlighter is Plain ==> lines@.map_values(|l: Line| line_spans_view(l)) == code_rows_spec(
            lang@,
            strings_view(body@),
            *theme,
            show_label,
            gutter,
            None,
        ).map_values(|r: (LineView, int)| r.0),
{
    let rows = code_block_rows(lang, body, theme, highlighter, show_label, gutter);
    let ghost rv = code_rows_view(rows@);
    let mut lines: Vec<Line> = Vec::new();
    let mut i: usize = 0;
    while i < rows.len()
        invariant
            i <= rows@.len(),
            rv == code_rows_view(rows@),
            lines@.map_values(|l: Line| line_spans_view(l)) == rv.take(i as int).map_values(|r: (LineView, int)| r.0),
        decreases rows@.len() - i,
    {
        let ghost pre = lines@.map_values(|l: Line| line_spans_view(l));
        let line = rows[i].line.clone();
        proof {
            assert(line_spans_view(line) =~= line_spans_view(rows@[i as int].line));
        }
        lines.push(line);
        proof {
            assert(lines@.map_values(|l: Line| line_spans_view(l)) =~= pre.push(rv[i as int].0));
            assert(rv.take(i as int + 1).map_values(|r: (LineView, int)| r.0) =~= rv.take(i as int).map_values(
                |r: (LineView, int)| r.0,
            ).push(rv[i as int].0));
        }
        i = i + 1;
    }
    proof {
        assert(rv.take(i as int) =~= rv);
    }
    lines
}


/// A themed code block view: a language label, a left rail, a full-width
/// code background and verbatim body lines, optionally with a right-aligned
/// line-number gutter.
pub struct CodeBlock<'a> {
    lang: String,
    body: Vec<String>,
    highlighter: CodeHighlighter<'a>,
    show_label: bool,
    start_line: Option<usize>,
}

impl<'a> CodeBlock<'a> {
    /// Line numbers never run past `usize::MAX`.
    #[verifier::type_invariant]
    spec fn numbers_fit(self) -> bool {
        self.start_line matches Some(s) ==> s + self.body@.len() <= usize::MAX
    }

    pub closed spec fn spec_lang(self) -> Seq<char> {
        self.lang@
    }

    pub closed spec fn spec_body(self) -> Seq<Seq<char>> {
        strings_view(self.body@)
    }

    pub closed spec fn spec_show_label(self) -> bool {
        self.show_label
    }

    pub closed spec fn spec_start_line(self) -> Option<usize> {
        self.start_line
    }

    pub closed spec fn spec_plain(self) -> bool {
        self.highlighter is Plain
    }

    /// A code block for `source` in language `lang` (empty for none); the
    /// source is split at newlines into body lines.
    pub fn new(lang: &str, source: &str) -> (b: CodeBlock<'a>)
        ensures
            b.spec_lang() == lang@,
            b.spec_body() == split_newlines(source@),
            b.spec_show_label(),
            b.spec_start_line() is None,
            b.spec_plain(),
    {
        CodeBlock {
            lang: lang.to_owned(),
            body: split_newlines_exec(source),
            highlighter: CodeHighlighter::Plain,
            show_label: true,
            start_line: None,
        }
    }

    /// Color the body with `highlighter`.
    pub fn highlighter(self, highlighter: &'a dyn Highlighter) -> (b: CodeBlock<'a>)
        ensures
            b.spec_lang() == self.spec_lang(),
            b.spec_body() == self.spec_body(),
            b.spec_show_label() == self.spec_show_label(),
            b.spec_start_line() == self.spec_start_line(),
            !b.spec_plain(),
    {
        proof {
            use_type_invariant(&self);
        }
        CodeBlock { highlighter: CodeHighlighter::With(highlighter), ..self }
    }

    /// Show or hide the language-label row (shown by default).
    pub fn label(self, show: bool) -> (b: CodeBlock<'a>)
        ensures
            b.spec_lang() == self.spec_lang(),
            b.spec_body() == self.spec_body(),
            b.spec_show_label() == show,
            b.spec_start_line() == self.spec_start_line(),
            b.spec_plain() == self.spec_plain(),
    {
        proof {
            use_type_invariant(&self);
        }
        CodeBlock { show_label: show, ..self }
    }

    /// Show or hide the line-number gutter; it counts from the start line
    /// already set, or from 1.
    pub fn line_numbers(self, show: bool) -> (b: CodeBlock<'a>)
        requires
            show && self.spec_start_line() is None ==> self.spec_body().len() < usize::MAX,
        ensures
            b.spec_lang() == self.spec_lang(),
            b.spec_body() == self.spec_body(),
            b.spec_show_label() == self.spec_show_label(),
            b.spec_start_line() == if show {
                match self.spec_start_line() {
                    Some(s) => Some(s),
                    None => Some(1usize),
                }
            } else {
                None
            },
            b.spec_plain() == self.spec_plain(),
    {
        proof {
            use_type_invariant(&self);
        }
        let start = if show {
            match self.start_line {
                Some(s) => Some(s),
                None => Some(1usize),
            }
        } else {
            None
        };
        CodeBlock { start_line: start, ..self }
    }

    /// Number the gutter from `first` (showing it).
    pub fn start_line(self, first: usize) -> (b: CodeBlock<'a>)
        requires
            first + self.spec_body().len() <= usize::MAX,
        ensures
            b.spec_lang() == self.spec_lang(),
            b.spec_body() == self.spec_body(),
            b.spec_show_label() == self.spec_show_label(),
            b.spec_start_line() == Some(first),
            b.spec_plain() == self.spec_plain(),
    {
        CodeBlock { start_line: Some(first), ..self }
    }

    /// The block's lines under `theme`.
    pub fn lines(&self, theme: &Theme) -> (lines: Vec<Line>)
        ensures
            exists|h: Option<Seq<Seq<(Seq<char>, Style)>>>|
                lines@.map_values(|l: Line| line_spans_view(l)) == code_rows_spec(
                    self.spec_lang(),
                    self.spec_body(),
                    *theme,
                    self.spec_show_label(),
                    self.spec_start_line(),
                    h,
                ).map_values(|r: (LineView, int)| r.0),
            self.spec_plain() ==> lines@.map_values(|l: Line| line_spans_view(l)) == code_rows_spec(
                self.spec_lang(),
                self.spec_body(),
                *theme,
                self.spec_show_label(),
                self.spec_start_line(),
                None,
            ).map_values(|r: (LineView, int)| r.0),
    {
        proof {
            use_type_invariant(self);
        }
        let body = self.body.as_slice();
        let lang = self.lang.as_str();
        proof {
            assert(body@ == self.body@);
            assert(lang@ == self.lang@);
        }
        let lines = code_block_lines(lang, body, theme, self.highlighter, self.show_label, self.start_line);
        proof {
            let h = choose|h: Option<Seq<Seq<(Seq<char>, Style)>>>|
                lines@.map_values(|l: Line| line_spans_view(l)) == code_rows_spec(
                    lang@,
                    strings_view(body@),
                    *theme,
                    self.show_label,
                    self.start_line,
                    h,
                ).map_values(|r: (LineView, int)| r.0);
            assert(lines@.map_values(|l: Line| line_spans_view(l)) == code_rows_spec(
                self.spec_lang(),
                self.spec_body(),
                *theme,
                self.spec_show_label(),
                self.spec_start_line(),
                h,
            ).map_values(|r: (LineView, int)| r.0));
        }
        lines
    }
}

fn widest(lines: &Vec<Line>) -> (w: u16)
    ensures
        w == max_line_cols(lines@),
{
    let mut w: u16 = 0;
    let mut i: usize = 0;
    while i < lines.len()
        invariant
            i <= lines@.len(),
            w == max_line_cols(lines@.take(i as int)),
        decreases lines@.len() - i,
    {
        proof {
            assert(lines@.take(i as int + 1).drop_last() =~= lines@.take(i as int));
        }
        let lw = line_width(&lines[i]);
        if lw > w {
            w = lw;
        }
        i = i + 1;
    }
    proof {
        assert(lines@.take(i as int) =~= lines@);
    }
    w
}

/// The span runs of each row.
pub open spec fn row_runs(rows: Seq<(LineView, int)>) -> Seq<Seq<(Seq<char>, Style)>> {
    rows.map_values(|r: (LineView, int)| r.0.0)
}

/// Rows `r` on drawn into `area`, row `r` on the area's row `r`: each row
/// first set to blanks in the code background across the area's width, then
/// its spans written from the left edge, cut at the right edge; drawing
/// stops at the area's bottom.
pub open spec fn code_cells(
    barea: Rect,
    cells: Seq<CellView>,
    clip: Rect,
    area: Rect,
    rows: Seq<Seq<(Seq<char>, Style)>>,
    background: Style,
    r: int,
) -> Seq<CellView>
    decreases rows.len() - r,
{
    if r < 0 || r >= rows.len() {
        cells
    } else {
        let y = sat_add(area.y as int, if r > 65535 { 65535 } else { r });
        if y >= area.spec_bottom() {
            cells
        } else {
            let blank = fill_span(barea, cells, clip, area.x as int, area.spec_right(), y, ' ', background);
            let c = write_runs(barea, blank, clip, rows[r], area.x as int, y, area.spec_right(), 0);
            code_cells(barea, c, clip, area, rows, background, r + 1)
        }
    }
}

impl<'a> crate::view::View for CodeBlock<'a> {
    /// As wide as its widest line under the default theme (at most the
    /// available width), one row per line.
    fn measure(&self, available: Size, ctx: &RenderCtx) -> (s: Size)
        ensures
            exists|lines: Seq<Line>|
                {
                    &&& exists|h: Option<Seq<Seq<(Seq<char>, Style)>>>|
                        lines.map_values(|l: Line| line_spans_view(l)) == code_rows_spec(
                            self.spec_lang(),
                            self.spec_body(),
                            Theme::spec_default(),
                            self.spec_show_label(),
                            self.spec_start_line(),
                            h,
                        ).map_values(|r: (LineView, int)| r.0)
                    &&& s.width == if max_line_cols(lines) < available.width {
                        max_line_cols(lines)
                    } else {
                        available.width as int
                    }
                    &&& s.height == lines.len() % 65536
                },
    {
        let theme = Theme::new();
        let lines = self.lines(&theme);
        let w = widest(&lines);
        let width = if w < available.width { w } else { available.width };
        Size { width, height: (lines.len() % 65536) as u16 }
    }

    /// Fills each of its rows with the code background across the area,
    /// then draws the row's spans from the left edge, clipped.
    fn render(&self, area: Rect, surface: &mut Surface, ctx: &RenderCtx)
        ensures
            exists|h: Option<Seq<Seq<(Seq<char>, Style)>>>|
                final(surface).buffer.cells() == code_cells(
                    old(surface).buffer.area,
                    old(surface).buffer.cells(),
                    old(surface).clip,
                    area,
                    row_runs(
                        code_rows_spec(
                            self.spec_lang(),
                            self.spec_body(),
                            ctx.theme,
                            self.spec_show_label(),
                            self.spec_start_line(),
                            h,
                        ),
                    ),
                    Style { bg: Some(ctx.theme.code.background), ..Style::spec_empty() },
                    0,
                ),
            self.spec_plain() ==> final(surface).buffer.cells() == code_cells(
                old(surface).buffer.area,
                old(surface).buffer.cells(),
                old(surface).clip,
                area,
                row_runs(
                    code_rows_spec(
                        self.spec_lang(),
                        self.spec_body(),
                        ctx.theme,
                        self.spec_show_label(),
                        self.spec_start_line(),
                        None,
                    ),
                ),
                Style { bg: Some(ctx.theme.code.background), ..Style::spec_empty() },
                0,
            ),
    {
        let lines = self.lines(&ctx.theme);
        let background = Style::new().bg(ctx.theme.code.background);
        let ghost rows = lines@.map_values(|l: Line| l.spans@.map_values(|s: Span| (s.content@, s.style)));
        let ghost h = choose|h: Option<Seq<Seq<(Seq<char>, Style)>>>|
            lines@.map_values(|l: Line| line_spans_view(l)) == code_rows_spec(
                self.spec_lang(),
                self.spec_body(),
                ctx.theme,
                self.spec_show_label(),
                self.spec_start_line(),
                h,
            ).map_values(|r: (LineView, int)| r.0);
        proof {
            let full = code_rows_spec(
                self.spec_lang(),
                self.spec_body(),
                ctx.theme,
                self.spec_show_label(),
                self.spec_start_line(),
                h,
            );
            assert(lines@.map_values(|l: Line| line_spans_view(l)).len() == full.len());
            assert forall|i: int| 0 <= i < rows.len() implies #[trigger] rows[i] == row_runs(full)[i] by {
                assert(lines@.map_values(|l: Line| line_spans_view(l))[i] == full.map_values(
                    |r: (LineView, int)| r.0,
                )[i]);
            }
            assert(rows =~= row_runs(full));
            if self.spec_plain() {
                let plain = code_rows_spec(
                    self.spec_lang(),
                    self.spec_body(),
                    ctx.theme,
                    self.spec_show_label(),
                    self.spec_start_line(),
                    None,
                );
                assert(lines@.map_values(|l: Line| line_spans_view(l)).len() == plain.len());
                assert forall|i: int| 0 <= i < rows.len() implies #[trigger] rows[i] == row_runs(plain)[i] by {
                    assert(lines@.map_values(|l: Line| line_spans_view(l))[i] == plain.map_values(
                        |r: (LineView, int)| r.0,
                    )[i]);
                }
                assert(rows =~= row_runs(plain));
            }
        }
        let ghost target = code_cells(
            surface.buffer.area,
            surface.buffer.cells(),
            surface.clip,
            area,
            rows,
            background,
            0,
        );
        let mut row: usize = 0;
        while row < lines.len()
            invariant_except_break
                surface.wf(),
                surface.buffer.area == old(surface).buffer.area,
                surface.clip == old(surface).clip,
                row <= lines@.len(),
                rows == lines@.map_values(|l: Line| l.spans@.map_values(|s: Span| (s.content@, s.style))),
                background == (Style { bg: Some(ctx.theme.code.background), ..Style::spec_empty() }),
                code_cells(
                    surface.buffer.area,
                    surface.buffer.cells(),
                    surface.clip,
                    area,
                    rows,
                    background,
                    row as int,
                ) == target,
            ensures
                surface.wf(),
                surface.buffer.area == old(surface).buffer.area,
                surface.clip == old(surface).clip,
                surface.buffer.cells() == target,
            decreases lines@.len() - row,
        {
            let offset: u16 = if row > 65535 { 65535 } else { row as u16 };
            let y = area.y.saturating_add(offset);
            if y >= area.bottom() {
                break;
            }
            let right = area.right();
            let ghost blank = fill_span(
                surface.buffer.area,
                surface.buffer.cells(),
                surface.clip,
                area.x as int,
                area.spec_right(),
                y as int,
                ' ',
                background,
            );
            let mut x = area.x;
            while x < right
                invariant
                    surface.wf(),
                    surface.buffer.area == old(surface).buffer.area,
                    surface.clip == old(surface).clip,
                    right == area.spec_right(),
                    area.x <= x <= right,
                    fill_span(
                        surface.buffer.area,
                        surface.buffer.cells(),
                        surface.clip,
                        x as int,
                        area.spec_right(),
                        y as int,
                        ' ',
                        background,
                    ) == blank,
                decreases right - x,
            {
                surface.set(x, y, ' ', background);
                x = x + 1;
            }
            let line = &lines[row];
            let ghost runs = rows[row as int];
            proof {
                assert(runs == line.spans@.map_values(|s: Span| (s.content@, s.style)));
            }
            let ghost c_end = write_runs(
                surface.buffer.area,
                surface.buffer.cells(),
                surface.clip,
                runs,
                area.x as int,
                y as int,
                area.spec_right(),
                0,
            );
            let mut x = area.x;
            let mut k: usize = 0;
            while k < line.spans.len()
                invariant_except_break
                    surface.wf(),
                    surface.buffer.area == old(surface).buffer.area,
                    surface.clip == old(surface).clip,
                    right == area.spec_right(),
                    k <= line.spans@.len(),
                    runs == line.spans@.map_values(|s: Span| (s.content@, s.style)),
                    write_runs(
                        surface.buffer.area,
                        surface.buffer.cells(),
                        surface.clip,
                        runs,
                        x as int,
                        y as int,
                        area.spec_right(),
                        k as int,
                    ) == c_end,
                ensures
                    surface.wf(),
                    surface.buffer.area == old(surface).buffer.area,
                    surface.clip == old(surface).clip,
                    surface.buffer.cells() == c_end,
                decreases line.spans@.len() - k,
            {
                if x >= right {
                    break;
                }
                proof {
                    assert(runs[k as int] == (line.spans@[k as int].content@, line.spans@[k as int].style));
                }
                x = surface.set_string(x, y, line.spans[k].content.as_str(), line.spans[k].style);
                k = k + 1;
            }
            row = row + 1;
        }
    }
}

} // verus!
