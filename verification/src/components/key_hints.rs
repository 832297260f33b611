//! Compact, responsive key/action hints: on a narrow row the highest-priority
//! hints that fit whole are kept, in their declared order.

use vstd::prelude::*;
use vstd::string::StringExecFns;
use crate::chars::sat_usize;
use crate::buffer::CellView;
use crate::geometry::{Rect, Size};
use crate::graphemes::push_char;
use crate::style::{Modifier, Style, Theme};
use crate::surface::{Surface, runs_col, write_runs};
use crate::view::RenderCtx;
use crate::width::{cap16, str_cols, text_cols};

verus! {

/// A key/action hint with a fitting priority.
#[derive(Clone, Debug, PartialEq, Eq)]
pub struct KeyHint {
    /// Display-ready key sequence.
    pub key: String,
    /// Human-readable action label.
    pub label: String,
    /// Higher values are kept first when space is tight.
    pub priority: i32,
}

/// Columns a hint takes: ` key ` then ` label`.
pub open spec fn hint_width(h: KeyHint) -> int {
    cap16(text_cols(h.key@) as int) + cap16(text_cols(h.label@) as int) + 3
}

impl KeyHint {
    /// A hint at the default priority, zero.
    pub fn new(key: &str, label: &str) -> (h: KeyHint)
        ensures
            h.key@ == key@,
            h.label@ == label@,
            h.priority == 0,
    {
        KeyHint { key: key.to_owned(), label: label.to_owned(), priority: 0 }
    }

    /// Assign a fitting priority.
    pub fn priority(self, priority: i32) -> (h: KeyHint)
        ensures
            h.priority == priority,
            h.key == self.key && h.label == self.label,
    {
        KeyHint { priority, ..self }
    }

    /// Columns this hint takes.
    pub fn width(&self) -> (w: usize)
        ensures
            w == hint_width(*self),
    {
        str_cols(self.key.as_str()) as usize + str_cols(self.label.as_str()) as usize + 3
    }
}

/// `order` with hint `i` inserted before the first entry of strictly lower
/// priority: every entry already there came earlier, so ties stay in
/// declaration order.
pub open spec fn insert_by_priority(hints: Seq<KeyHint>, order: Seq<usize>, i: usize) -> Seq<usize>
    decreases order.len(),
{
    if order.len() == 0 {
        seq![i]
    } else if hints[order[0] as int].priority < hints[i as int].priority {
        seq![i] + order
    } else {
        seq![order[0]] + insert_by_priority(hints, order.drop_first(), i)
    }
}

/// The order hints are considered in: highest priority first, ties in
/// declaration order.
pub open spec fn fit_order(hints: Seq<KeyHint>, n: nat) -> Seq<usize>
    decreases n,
{
    if n == 0 {
        seq![]
    } else {
        insert_by_priority(hints, fit_order(hints, (n - 1) as nat), (n - 1) as usize)
    }
}

/// Greedy fitting along `order`: a hint is kept when it (plus two columns
/// of separation after the first kept hint) still fits in `width`. Returns
/// the columns used and the kept hints, in consideration order.
pub open spec fn greedy_fit(hints: Seq<KeyHint>, order: Seq<usize>, width: int) -> (int, Seq<usize>)
    decreases order.len(),
{
    if order.len() == 0 {
        (0, seq![])
    } else {
        let (used, kept) = greedy_fit(hints, order.drop_last(), width);
        let i = order.last();
        let extra = hint_width(hints[i as int]) + if kept.len() > 0 { 2int } else { 0int };
        if sat_usize(used + extra) <= width {
            (sat_usize(used + extra), kept.push(i))
        } else {
            (used, kept)
        }
    }
}

/// The indices below `n` that `kept` holds, ascending.
pub open spec fn ascending_members(kept: Seq<usize>, n: nat) -> Seq<usize>
    decreases n,
{
    if n == 0 {
        seq![]
    } else {
        let pre = ascending_members(kept, (n - 1) as nat);
        if kept.contains((n - 1) as usize) {
            pre.push((n - 1) as usize)
        } else {
            pre
        }
    }
}

/// The hints shown in `width` columns, in declaration order.
pub open spec fn fitted_hints(hints: Seq<KeyHint>, width: int) -> Seq<usize> {
    ascending_members(greedy_fit(hints, fit_order(hints, hints.len()), width).1, hints.len())
}

/// The runs one shown hint writes: a two-space gap before every hint but the
/// first, the key padded by a space each side in bold accent, then a space
/// and the label, muted.
pub open spec fn hint_runs(h: KeyHint, gap: bool, theme: Theme) -> Seq<(Seq<char>, Style)> {
    let accent = Style { fg: Some(theme.accent), ..Style::spec_empty() };
    let key_style = Style {
        add_modifier: accent.add_modifier.spec_union(Modifier { bits: 1 }),
        sub_modifier: accent.sub_modifier.spec_difference(Modifier { bits: 1 }),
        ..accent
    };
    let label_style = Style { fg: Some(theme.muted), ..Style::spec_empty() };
    let body = seq![
        (seq![' '] + h.key@ + seq![' '], key_style),
        (seq![' '], label_style),
        (h.label@, label_style),
    ];
    if gap {
        seq![(seq![' ', ' '], label_style)] + body
    } else {
        body
    }
}

/// The hints at positions `p` on of `shown`, written from column `x` of row
/// `y` one after the other, cut only by the clip.
pub open spec fn hints_cells(
    barea: Rect,
    cells: Seq<CellView>,
    clip: Rect,
    y: int,
    hints: Seq<KeyHint>,
    shown: Seq<usize>,
    theme: Theme,
    x: int,
    p: int,
) -> Seq<CellView>
    decreases shown.len() - p,
{
    if p < 0 || p >= shown.len() {
        cells
    } else {
        let runs = hint_runs(hints[shown[p] as int], p > 0, theme);
        let c = write_runs(barea, cells, clip, runs, x, y, 65536, 0);
        let x2 = runs_col(barea, cells, clip, runs, x, y, 65536, 0);
        hints_cells(barea, c, clip, y, hints, shown, theme, x2, p + 1)
    }
}

/// A one-line row of key and action labels.
pub struct KeyHints {
    pub hints: Vec<KeyHint>,
}

impl KeyHints {
    /// Hints from `(key, action)` pairs at equal priority.
    pub fn new(pairs: &[(&str, &str)]) -> (k: KeyHints)
        ensures
            k.hints@.len() == pairs@.len(),
            forall|i: int|
                0 <= i < pairs@.len() ==> (#[trigger] k.hints@[i]).key@ == pairs@[i].0@ && k.hints@[i].label@
                    == pairs@[i].1@ && k.hints@[i].priority == 0,
    {
        let mut hints: Vec<KeyHint> = Vec::new();
        let mut i: usize = 0;
        while i < pairs.len()
            invariant
                i <= pairs@.len(),
                hints@.len() == i,
                forall|j: int|
                    0 <= j < i ==> (#[trigger] hints@[j]).key@ == pairs@[j].0@ && hints@[j].label@ == pairs@[j].1@
                        && hints@[j].priority == 0,
            decreases pairs@.len() - i,
        {
            let (key, label) = pairs[i];
            hints.push(KeyHint::new(key, label));
            i = i + 1;
        }
        KeyHints { hints }
    }

    /// Hints with explicit priorities.
    pub fn prioritized(hints: Vec<KeyHint>) -> (k: KeyHints)
        ensures
            k.hints == hints,
    {
        KeyHints { hints }
    }

    fn order(&self) -> (o: Vec<usize>)
        ensures
            o@ == fit_order(self.hints@, self.hints@.len()),
    {
        let mut order: Vec<usize> = Vec::new();
        let mut i: usize = 0;
        while i < self.hints.len()
            invariant
                i <= self.hints@.len(),
                order@ == fit_order(self.hints@, i as nat),
                forall|k: int| 0 <= k < order@.len() ==> #[trigger] order@[k] < i,
            decreases self.hints@.len() - i,
        {
            let p = self.hints[i].priority;
            let mut k: usize = 0;
            proof {
                assert(order@.skip(0) =~= order@);
                assert(order@.take(0) + insert_by_priority(self.hints@, order@, i) =~= insert_by_priority(
                    self.hints@,
                    order@,
                    i,
                ));
            }
            while k < order.len() && !(self.hints[order[k]].priority < p)
                invariant
                    k <= order@.len(),
                    i < self.hints@.len(),
                    p == self.hints@[i as int].priority,
                    forall|j: int| 0 <= j < order@.len() ==> #[trigger] order@[j] < i,
                    insert_by_priority(self.hints@, order@, i) == order@.take(k as int) + insert_by_priority(
                        self.hints@,
                        order@.skip(k as int),
                        i,
                    ),
                decreases order@.len() - k,
            {
                proof {
                    let rest = order@.skip(k as int);
                    assert(rest.drop_first() =~= order@.skip(k + 1));
                    assert(order@.take(k + 1) =~= order@.take(k as int) + seq![rest[0]]);
                    assert(order@.take(k as int) + insert_by_priority(self.hints@, rest, i) =~= order@.take(k + 1)
                        + insert_by_priority(self.hints@, order@.skip(k + 1), i));
                }
                k = k + 1;
            }
            let ghost before = order@;
            order.insert(k, i);
            proof {
                let rest = before.skip(k as int);
                if k < before.len() {
                    assert(insert_by_priority(self.hints@, rest, i) == seq![i] + rest);
                } else {
                    assert(rest.len() == 0);
                }
                assert(order@ =~= before.take(k as int) + (seq![i] + rest));
                assert(order@ =~= fit_order(self.hints@, (i + 1) as nat));
            }
            i = i + 1;
        }
        order
    }

    /// The hints shown in `width` columns: the highest-priority hints that
    /// fit whole, in their declared order.
    pub fn fitted(&self, width: usize) -> (r: Vec<usize>)
        ensures
            r@ == fitted_hints(self.hints@, width as int),
    {
        let order = self.order();
        let mut keep: Vec<bool> = Vec::new();
        let mut n: usize = 0;
        while n < self.hints.len()
            invariant
                n <= self.hints@.len(),
                keep@.len() == n,
                forall|j: int| 0 <= j < n ==> !#[trigger] keep@[j],
            decreases self.hints@.len() - n,
        {
            keep.push(false);
            n = n + 1;
        }
        let mut used: usize = 0;
        let mut count: usize = 0;
        let ghost mut kept: Seq<usize> = seq![];
        let mut c: usize = 0;
        proof {
            lemma_fit_order_indices(self.hints@, self.hints@.len());
        }
        while c < order.len()
            invariant
                c <= order@.len(),
                order@ == fit_order(self.hints@, self.hints@.len()),
                forall|k: int| 0 <= k < order@.len() ==> #[trigger] order@[k] < self.hints@.len(),
                keep@.len() == self.hints@.len(),
                greedy_fit(self.hints@, order@.take(c as int), width as int) == (used as int, kept),
                count == kept.len(),
                kept.len() <= c,
                forall|j: usize| j < keep@.len() ==> #[trigger] keep@[j as int] == kept.contains(j),
            decreases order@.len() - c,
        {
            proof {
                assert(order@.take(c + 1).drop_last() =~= order@.take(c as int));
            }
            let i = order[c];
            let extra = self.hints[i].width() + if count > 0 { 2 } else { 0 };
            if used.saturating_add(extra) <= width {
                used = used.saturating_add(extra);
                keep.set(i, true);
                proof {
                    let old_kept = kept;
                    kept = kept.push(i);
                    assert forall|j: usize| j < keep@.len() implies #[trigger] keep@[j as int] == kept.contains(j) by {
                        if j == i {
                            assert(kept[kept.len() - 1] == i);
                        } else {
                            if kept.contains(j) {
                                let p = choose|p: int| 0 <= p < kept.len() && kept[p] == j;
                                assert(kept[kept.len() - 1] == i);
                                assert(p != kept.len() - 1);
                                assert(old_kept[p] == kept[p]);
                            }
                            if old_kept.contains(j) {
                                let p = choose|p: int| 0 <= p < old_kept.len() && old_kept[p] == j;
                                assert(kept[p] == j);
                            }
                        }
                    }
                }
                count = count + 1;
            }
            c = c + 1;
        }
        proof {
            assert(order@.take(c as int) =~= order@);
        }
        let mut r: Vec<usize> = Vec::new();
        let mut j: usize = 0;
        while j < keep.len()
            invariant
                j <= keep@.len(),
                keep@.len() == self.hints@.len(),
                forall|t: usize| t < keep@.len() ==> #[trigger] keep@[t as int] == kept.contains(t),
                r@ == ascending_members(kept, j as nat),
            decreases keep@.len() - j,
        {
            if keep[j] {
                r.push(j);
            }
            j = j + 1;
        }
        r
    }
}

proof fn lemma_insert_by_priority_members(hints: Seq<KeyHint>, order: Seq<usize>, i: usize, bound: int)
    requires
        forall|k: int| 0 <= k < order.len() ==> #[trigger] order[k] < bound,
        i < bound,
    ensures
        insert_by_priority(hints, order, i).len() == order.len() + 1,
        forall|k: int|
            0 <= k < insert_by_priority(hints, order, i).len() ==> #[trigger] insert_by_priority(hints, order, i)[k]
                < bound,
    decreases order.len(),
{
    if order.len() > 0 && !(hints[order[0] as int].priority < hints[i as int].priority) {
        lemma_insert_by_priority_members(hints, order.drop_first(), i, bound);
        let tail = insert_by_priority(hints, order.drop_first(), i);
        assert forall|k: int| 0 <= k < (seq![order[0]] + tail).len() implies #[trigger] (seq![order[0]] + tail)[k]
            < bound by {
            if k > 0 {
                assert((seq![order[0]] + tail)[k] == tail[k - 1]);
            }
        }
    }
}

proof fn lemma_fit_order_indices(hints: Seq<KeyHint>, n: nat)
    ensures
        fit_order(hints, n).len() == n,
        forall|k: int| 0 <= k < fit_order(hints, n).len() ==> #[trigger] fit_order(hints, n)[k] < n,
    decreases n,
{
    if n > 0 {
        lemma_fit_order_indices(hints, (n - 1) as nat);
        lemma_insert_by_priority_members(hints, fit_order(hints, (n - 1) as nat), (n - 1) as usize, n as int);
    }
}

/// The width every hint takes together, with two columns between them.
pub open spec fn all_hints_width(hints: Seq<KeyHint>) -> int
    decreases hints.len(),
{
    if hints.len() == 0 {
        0
    } else {
        sat_usize(all_hints_width(hints.drop_last()) + hint_width(hints.last()) + if hints.len() > 1 {
            2int
        } else {
            0int
        })
    }
}

impl crate::view::View for KeyHints {
    /// Every hint side by side, within the available width; one row.
    fn measure(&self, available: Size, ctx: &RenderCtx) -> (s: Size)
        ensures
            s.width == crate::geometry::min(all_hints_width(self.hints@), available.width as int),
            s.height == if available.height > 0 { 1int } else { 0int },
    {
        let mut total: usize = 0;
        let mut i: usize = 0;
        while i < self.hints.len()
            invariant
                i <= self.hints@.len(),
                total == all_hints_width(self.hints@.take(i as int)),
            decreases self.hints@.len() - i,
        {
            proof {
                assert(self.hints@.take(i + 1).drop_last() =~= self.hints@.take(i as int));
            }
            let gap: usize = if i > 0 { 2 } else { 0 };
            total = total.saturating_add(self.hints[i].width()).saturating_add(gap);
            i = i + 1;
        }
        proof {
            assert(self.hints@.take(i as int) =~= self.hints@);
        }
        let width: u16 = if total < available.width as usize { total as u16 } else { available.width };
        Size::new(width, if available.height > 0 { 1 } else { 0 })
    }

    /// The hints that fit the area's width, in declaration order, on its
    /// first row.
    fn render(&self, area: Rect, surface: &mut Surface, ctx: &RenderCtx)
        ensures
            final(surface).buffer.cells() == if area.width == 0 || area.height == 0 {
                old(surface).buffer.cells()
            } else {
                hints_cells(
                    old(surface).buffer.area,
                    old(surface).buffer.cells(),
                    old(surface).clip,
                    area.y as int,
                    self.hints@,
                    fitted_hints(self.hints@, area.width as int),
                    ctx.theme,
                    area.x as int,
                    0,
                )
            },
    {
        if area.is_empty() {
            return;
        }
        let key_style = Style::new().fg(ctx.theme.accent).add_modifier(Modifier::bold());
        let label_style = Style::new().fg(ctx.theme.muted);
        let shown = self.fitted(area.width as usize);
        let count = self.hints.len();
        proof {
            lemma_fitted_ascending(
                greedy_fit(self.hints@, fit_order(self.hints@, self.hints@.len()), area.width as int).1,
                self.hints@.len(),
            );
            reveal_strlit("  ");
            reveal_strlit(" ");
            assert("  "@ =~= seq![' ', ' ']);
            assert(" "@ =~= seq![' ']);
        }
        let ghost target = hints_cells(
            surface.buffer.area,
            surface.buffer.cells(),
            surface.clip,
            area.y as int,
            self.hints@,
            shown@,
            ctx.theme,
            area.x as int,
            0,
        );
        let mut x = area.x;
        let mut position: usize = 0;
        while position < shown.len()
            invariant
                surface.wf(),
                surface.buffer.area == old(surface).buffer.area,
                surface.clip == old(surface).clip,
                position <= shown@.len(),
                forall|a: int| 0 <= a < shown@.len() ==> #[trigger] shown@[a] < self.hints@.len(),
                "  "@ == seq![' ', ' '],
                " "@ == seq![' '],
                label_style == (Style { fg: Some(ctx.theme.muted), ..Style::spec_empty() }),
                key_style == (Style {
                    add_modifier: Modifier { bits: 0 }.spec_union(Modifier { bits: 1 }),
                    sub_modifier: Modifier { bits: 0 }.spec_difference(Modifier { bits: 1 }),
                    ..Style { fg: Some(ctx.theme.accent), ..Style::spec_empty() }
                }),
                hints_cells(
                    surface.buffer.area,
                    surface.buffer.cells(),
                    surface.clip,
                    area.y as int,
                    self.hints@,
                    shown@,
                    ctx.theme,
                    x as int,
                    position as int,
                ) == target,
            ensures
                surface.wf(),
                surface.buffer.area == old(surface).buffer.area,
                surface.clip == old(surface).clip,
                surface.buffer.cells() == target,
            decreases shown@.len() - position,
        {
            let index = shown[position];
            if index >= self.hints.len() {
                break;
            }
            let hint = &self.hints[index];
            let ghost runs = hint_runs(*hint, position > 0, ctx.theme);
            let ghost c_end = write_runs(
                surface.buffer.area,
                surface.buffer.cells(),
                surface.clip,
                runs,
                x as int,
                area.y as int,
                65536,
                0,
            );
            let ghost x_end = runs_col(
                surface.buffer.area,
                surface.buffer.cells(),
                surface.clip,
                runs,
                x as int,
                area.y as int,
                65536,
                0,
            );
            let ghost off: int = if position > 0 { 1 } else { 0 };
            if position > 0 {
                proof {
                    assert(runs[0] == ("  "@, label_style));
                }
                x = surface.set_string(x, area.y, "  ", label_style);
            }
            let mut key = String::new();
            push_char(&mut key, ' ');
            key.append(hint.key.as_str());
            push_char(&mut key, ' ');
            proof {
                assert(key@ =~= seq![' '] + hint.key@ + seq![' ']);
                assert(runs[off] == (key@, key_style));
                assert(runs[off + 1] == (" "@, label_style));
                assert(runs[off + 2] == (hint.label@, label_style));
                assert(runs.len() == off + 3);
            }
            proof {
                assert(write_runs(surface.buffer.area, surface.buffer.cells(), surface.clip, runs, x as int, area.y as int, 65536, off) == c_end);
                assert(runs_col(surface.buffer.area, surface.buffer.cells(), surface.clip, runs, x as int, area.y as int, 65536, off) == x_end);
            }
            x = surface.set_string(x, area.y, key.as_str(), key_style);
            proof {
                assert(write_runs(surface.buffer.area, surface.buffer.cells(), surface.clip, runs, x as int, area.y as int, 65536, off + 1) == c_end);
                assert(runs_col(surface.buffer.area, surface.buffer.cells(), surface.clip, runs, x as int, area.y as int, 65536, off + 1) == x_end);
            }
            x = surface.set_string(x, area.y, " ", label_style);
            proof {
                assert(write_runs(surface.buffer.area, surface.buffer.cells(), surface.clip, runs, x as int, area.y as int, 65536, off + 2) == c_end);
                assert(runs_col(surface.buffer.area, surface.buffer.cells(), surface.clip, runs, x as int, area.y as int, 65536, off + 2) == x_end);
            }
            x = surface.set_string(x, area.y, hint.label.as_str(), label_style);
            proof {
                assert(write_runs(surface.buffer.area, surface.buffer.cells(), surface.clip, runs, x as int, area.y as int, 65536, off + 3) == c_end);
                assert(runs_col(surface.buffer.area, surface.buffer.cells(), surface.clip, runs, x as int, area.y as int, 65536, off + 3) == x_end);
                assert(surface.buffer.cells() == c_end);
            }
            position = position + 1;
        }
    }
}

/// Greedy fitting never uses more than the width it is given: no hint is
/// ever painted in part.
pub proof fn lemma_fit_within_width(hints: Seq<KeyHint>, order: Seq<usize>, width: int)
    requires
        width >= 0,
    ensures
        greedy_fit(hints, order, width).0 <= width,
        greedy_fit(hints, order, width).1.len() <= order.len(),
    decreases order.len(),
{
    if order.len() > 0 {
        lemma_fit_within_width(hints, order.drop_last(), width);
    }
}

/// The shown hints keep their declaration order.
pub proof fn lemma_fitted_ascending(kept: Seq<usize>, n: nat)
    requires
        n <= usize::MAX,
    ensures
        forall|a: int, b: int|
            0 <= a < b < ascending_members(kept, n).len() ==> #[trigger] ascending_members(kept, n)[a]
                < #[trigger] ascending_members(kept, n)[b],
        forall|a: int| 0 <= a < ascending_members(kept, n).len() ==> #[trigger] ascending_members(kept, n)[a] < n,
    decreases n,
{
    if n > 0 {
        lemma_fitted_ascending(kept, (n - 1) as nat);
        let pre = ascending_members(kept, (n - 1) as nat);
        let cur = ascending_members(kept, n);
        if kept.contains((n - 1) as usize) {
            assert(cur == pre.push((n - 1) as usize));
            assert forall|a: int| 0 <= a < cur.len() implies #[trigger] cur[a] < n by {
                if a < pre.len() {
                    assert(cur[a] == pre[a]);
                }
            }
            assert forall|a: int, b: int| 0 <= a < b < cur.len() implies #[trigger] cur[a] < #[trigger] cur[b] by {
                assert(cur[a] == pre[a]);
                if b < pre.len() {
                    assert(cur[b] == pre[b]);
                }
            }
        }
    }
}

} // verus!
