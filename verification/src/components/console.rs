//! A bounded log of captured output lines and the panel that shows its tail.

use vstd::prelude::*;
use crate::buffer::{CellView, restyled};
use crate::geometry::{Rect, Size, sat_add, sat_sub};
use crate::graphemes::{chars_of, string_of};
use crate::style::{Modifier, Style, Theme};
use crate::surface::{Surface, clipped_write, stack_rows};
use crate::view::RenderCtx;
use super::text::{split_newlines, split_newlines_exec};

verus! {

/// Lines kept when no capacity is given.
pub const DEFAULT_CAPACITY: usize = 500;

/// `line` without one trailing carriage return.
pub open spec fn strip_cr(line: Seq<char>) -> Seq<char> {
    if line.len() > 0 && line.last() == '\r' { line.drop_last() } else { line }
}

/// The newest `cap` lines.
pub open spec fn keep_last(lines: Seq<Seq<char>>, cap: int) -> Seq<Seq<char>> {
    if lines.len() > cap { lines.skip(lines.len() - cap) } else { lines }
}

/// Append a finished line (CR stripped) and evict the oldest beyond capacity.
pub open spec fn commit(lines: Seq<Seq<char>>, cap: int, line: Seq<char>) -> Seq<Seq<char>> {
    keep_last(lines.push(strip_cr(line)), cap)
}

/// Feed newline-separated pieces: every piece but the last completes a line
/// (the first joined to what was pending); the last stays pending.
pub open spec fn feed(lines: Seq<Seq<char>>, cap: int, pending: Seq<char>, parts: Seq<Seq<char>>) -> (Seq<Seq<char>>, Seq<char>)
    decreases parts.len(),
{
    if parts.len() == 0 {
        (lines, pending)
    } else if parts.len() == 1 {
        (lines, pending + parts[0])
    } else {
        feed(commit(lines, cap, pending + parts[0]), cap, seq![], parts.drop_first())
    }
}

/// A ring of captured lines, newest last, plus an unfinished pending line.
pub struct ConsoleLog {
    pub lines: Vec<String>,
    pub capacity: usize,
    pub pending: String,
}

impl ConsoleLog {
    pub open spec fn spec_lines(&self) -> Seq<Seq<char>> {
        self.lines@.map_values(|l: String| l@)
    }

    /// Never more lines than the capacity, which is at least one.
    pub open spec fn wf(&self) -> bool {
        self.capacity >= 1 && self.lines@.len() <= self.capacity
    }

    /// An empty log keeping the newest `capacity` lines (at least one).
    pub fn new(capacity: usize) -> (log: ConsoleLog)
        ensures
            log.wf(),
            log.spec_lines().len() == 0,
            log.capacity == if capacity >= 1 { capacity } else { 1 },
            log.pending@.len() == 0,
    {
        ConsoleLog {
            lines: Vec::new(),
            capacity: if capacity >= 1 { capacity } else { 1 },
            pending: String::new(),
        }
    }

    fn commit_pending(&mut self)
        requires
            old(self).wf(),
        ensures
            final(self).wf(),
            final(self).capacity == old(self).capacity,
            final(self).spec_lines() == commit(old(self).spec_lines(), old(self).capacity as int, old(self).pending@),
            final(self).pending@.len() == 0,
    {
        let line = self.pending.clone();
        let cs = chars_of(line.as_str());
        let kept = if cs.len() > 0 && cs[cs.len() - 1] == '\r' {
            let mut trimmed = cs.clone();
            trimmed.pop();
            string_of(trimmed.as_slice())
        } else {
            line
        };
        proof {
            assert(kept@ =~= strip_cr(line@));
        }
        let ghost pre = self.spec_lines();
        self.lines.push(kept);
        proof {
            assert(self.spec_lines() =~= pre.push(strip_cr(line@)));
        }
        if self.lines.len() > self.capacity {
            let ghost before = self.spec_lines();
            self.lines.remove(0);
            proof {
                assert(self.spec_lines() =~= before.skip(1));
            }
        }
        self.pending = String::new();
    }

    fn feed_parts(&mut self, parts: &Vec<String>)
        requires
            old(self).wf(),
        ensures
            final(self).wf(),
            final(self).capacity == old(self).capacity,
            (final(self).spec_lines(), final(self).pending@) == feed(
                old(self).spec_lines(),
                old(self).capacity as int,
                old(self).pending@,
                parts@.map_values(|p: String| p@),
            ),
    {
        let ghost all = parts@.map_values(|p: String| p@);
        let ghost target = feed(self.spec_lines(), self.capacity as int, self.pending@, all);
        let mut i: usize = 0;
        proof {
            assert(all.skip(0) =~= all);
        }
        let ghost p0 = self.pending@;
        while i < parts.len()
            invariant
                i <= parts@.len(),
                self.wf(),
                self.capacity == old(self).capacity,
                all == parts@.map_values(|p: String| p@),
                i < parts@.len() ==> feed(self.spec_lines(), self.capacity as int, self.pending@, all.skip(i as int)) == target,
                i == parts@.len() ==> (self.spec_lines(), self.pending@) == target,
            decreases parts@.len() - i,
        {
            let ghost before = self.pending@;
            self.pending.append(parts[i].as_str());
            if i + 1 < parts.len() {
                proof {
                    assert(all.skip(i as int).drop_first() =~= all.skip(i as int + 1));
                    assert(all.skip(i as int)[0] == parts@[i as int]@);
                }
                self.commit_pending();
                proof {
                    assert(self.pending@ =~= Seq::<char>::empty());
                }
            } else {
                proof {
                    assert(all.skip(i as int).len() == 1);
                    assert(all.skip(i as int)[0] == parts@[i as int]@);
                }
            }
            i = i + 1;
        }
    }

    /// Record `text` as complete line(s): the first newline-separated piece
    /// finishes any pending partial line, every piece becomes its own line.
    pub fn line(&mut self, text: &str)
        requires
            old(self).wf(),
        ensures
            final(self).wf(),
            final(self).capacity == old(self).capacity,
            final(self).pending@.len() == 0,
            ({
                let f = feed(old(self).spec_lines(), old(self).capacity as int, old(self).pending@, split_newlines(text@));
                final(self).spec_lines() == commit(f.0, old(self).capacity as int, f.1)
            }),
    {
        let parts = split_newlines_exec(text);
        self.feed_parts(&parts);
        self.commit_pending();
    }

    /// Take raw output: every newline completes a line, and a trailing partial
    /// line stays pending until its newline arrives.
    pub fn write_str(&mut self, text: &str)
        requires
            old(self).wf(),
        ensures
            final(self).wf(),
            final(self).capacity == old(self).capacity,
            (final(self).spec_lines(), final(self).pending@) == feed(
                old(self).spec_lines(),
                old(self).capacity as int,
                old(self).pending@,
                split_newlines(text@),
            ),
    {
        let parts = split_newlines_exec(text);
        self.feed_parts(&parts);
    }

    /// Forget every line and the pending partial.
    pub fn clear(&mut self)
        ensures
            final(self).spec_lines().len() == 0,
            final(self).pending@.len() == 0,
            final(self).capacity == old(self).capacity,
    {
        self.lines = Vec::new();
        self.pending = String::new();
    }

    /// Number of complete lines held.
    pub fn len(&self) -> (n: usize)
        ensures
            n == self.lines@.len(),
    {
        self.lines.len()
    }

    /// Whether no complete line is held.
    pub fn is_empty(&self) -> (b: bool)
        ensures
            b == (self.lines@.len() == 0),
    {
        self.lines.len() == 0
    }

    /// A copy of the complete lines, oldest first.
    pub fn snapshot(&self) -> (v: Vec<String>)
        ensures
            v@.map_values(|l: String| l@) == self.spec_lines(),
    {
        let mut v: Vec<String> = Vec::new();
        let mut i: usize = 0;
        while i < self.lines.len()
            invariant
                i <= self.lines@.len(),
                v@.map_values(|l: String| l@) == self.spec_lines().take(i as int),
            decreases self.lines@.len() - i,
        {
            let ghost pre = v@.map_values(|l: String| l@);
            v.push(self.lines[i].clone());
            proof {
                assert(v@.map_values(|l: String| l@) =~= pre.push(self.spec_lines()[i as int]));
                assert(self.spec_lines().take(i as int + 1) =~= self.spec_lines().take(i as int).push(self.spec_lines()[i as int]));
            }
            i = i + 1;
        }
        proof {
            assert(self.spec_lines().take(i as int) =~= self.spec_lines());
        }
        v
    }
}

impl Default for ConsoleLog {
    fn default() -> (log: ConsoleLog)
        ensures
            log.wf(),
            log.spec_lines().len() == 0,
            log.capacity == DEFAULT_CAPACITY,
            log.pending@.len() == 0,
    {
        ConsoleLog::new(DEFAULT_CAPACITY)
    }
}

/// The title row's style: accent on the surface colour, bold.
pub open spec fn console_title_style(theme: Theme) -> Style {
    let base = Style { fg: Some(theme.accent), bg: Some(theme.surface), ..Style::spec_empty() };
    Style {
        add_modifier: base.add_modifier.spec_union(Modifier { bits: 1 }),
        sub_modifier: base.sub_modifier.spec_difference(Modifier { bits: 1 }),
        ..base
    }
}

/// What the panel draws into a non-empty `area`: the whole clip restyled
/// to text on surface, the title (if any) on the first row, then as many
/// of the newest lines as the rows below it hold, oldest of them first.
pub open spec fn console_cells(
    barea: Rect,
    cells: Seq<CellView>,
    clip: Rect,
    area: Rect,
    title: Option<Seq<char>>,
    lines: Seq<Seq<char>>,
    theme: Theme,
) -> Seq<CellView> {
    let fill = Style { fg: Some(theme.text), bg: Some(theme.surface), ..Style::spec_empty() };
    let filled = restyled(barea, cells, clip.spec_intersection(barea), fill);
    let titled = match title {
        Some(t) => clipped_write(barea, filled, clip, area.x as int, area.y as int, t, console_title_style(theme)).0,
        None => filled,
    };
    let (top, height) = match title {
        Some(t) => (sat_add(area.y as int, 1), sat_sub(area.height as int, 1)),
        None => (area.y as int, area.height as int),
    };
    if height == 0 {
        titled
    } else {
        let start = sat_sub(lines.len() as int, height);
        stack_rows(barea, titled, clip, lines.subrange(start, lines.len() as int), area.x as int, top, fill, 0)
    }
}

/// A panel showing the tail of a [`ConsoleLog`], with an optional title row.
pub struct Console<'a> {
    pub log: &'a ConsoleLog,
    pub title: Option<String>,
}

impl<'a> Console<'a> {
    /// A panel over `log`.
    pub fn new(log: &'a ConsoleLog) -> (c: Console<'a>)
        ensures
            c.log == log,
            c.title.is_none(),
    {
        Console { log, title: None }
    }

    /// A title drawn on the first row.
    pub fn title(self, title: &str) -> (c: Console<'a>)
        ensures
            c.log == self.log,
            c.title matches Some(t) && t@ == title@,
    {
        Console { log: self.log, title: Some(title.to_owned()) }
    }
}

impl<'a> crate::view::View for Console<'a> {
    /// Everything offered.
    fn measure(&self, available: Size, ctx: &RenderCtx) -> (s: Size)
        ensures
            s == available,
    {
        available
    }

    fn render(&self, area: Rect, surface: &mut Surface, ctx: &RenderCtx)
        ensures
            final(surface).buffer.cells() == if area.width == 0 || area.height == 0 {
                old(surface).buffer.cells()
            } else {
                console_cells(
                    old(surface).buffer.area,
                    old(surface).buffer.cells(),
                    old(surface).clip,
                    area,
                    match self.title {
                        Some(t) => Some(t@),
                        None => None,
                    },
                    self.log.spec_lines(),
                    ctx.theme,
                )
            },
    {
        if area.is_empty() {
            return;
        }
        let fill = Style::new().fg(ctx.theme.text).bg(ctx.theme.surface);
        surface.fill(fill);
        let mut body = area;
        match &self.title {
            Some(title) => {
                surface.set_string(
                    area.x,
                    area.y,
                    title.as_str(),
                    Style::new().fg(ctx.theme.accent).bg(ctx.theme.surface).add_modifier(Modifier::bold()),
                );
                body = Rect::new(area.x, area.y.saturating_add(1), area.width, area.height.saturating_sub(1));
            },
            None => {},
        }
        if body.is_empty() {
            return;
        }
        let n = self.log.lines.len();
        let visible = body.height as usize;
        let start = n.saturating_sub(visible);
        let ghost rows = self.log.spec_lines().subrange(start as int, n as int);
        let ghost target = stack_rows(
            surface.buffer.area,
            surface.buffer.cells(),
            surface.clip,
            rows,
            body.x as int,
            body.y as int,
            fill,
            0,
        );
        let mut i = start;
        while i < n
            invariant
                start <= i <= n,
                n == self.log.lines@.len(),
                n - start <= body.height,
                rows == self.log.spec_lines().subrange(start as int, n as int),
                surface.wf(),
                surface.buffer.area == old(surface).buffer.area,
                surface.clip == old(surface).clip,
                target == stack_rows(
                    surface.buffer.area,
                    surface.buffer.cells(),
                    surface.clip,
                    rows,
                    body.x as int,
                    body.y as int,
                    fill,
                    i - start,
                ),
            decreases n - i,
        {
            let y = body.y.saturating_add((i - start) as u16);
            proof {
                assert(rows[i - start] == self.log.lines@[i as int]@);
                assert(y == sat_add(body.y as int, i - start));
            }
            surface.set_string(body.x, y, self.log.lines[i].as_str(), fill);
            i = i + 1;
        }
    }
}

} // verus!
