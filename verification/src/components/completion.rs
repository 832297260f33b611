//! Generic completion and command-palette state: candidates, fuzzy ranking,
//! and a selection that survives refreshes of the candidate list.
//!
//! [`CompletionState`] owns only query, ranking and selection. The editor and
//! the meaning of an accepted item stay with the host, which replaces its
//! token with [`CompletionItem::replacement_text`] on submission.

use vstd::prelude::*;
use vstd::string::StringExecFns;
use crate::event::{Event, InputOutcome};
use crate::buffer::{CellView, flat_index, restyled};
use crate::geometry::{Padding, Rect, Size, max, min, sat_add, sat_sub};
use crate::graphemes::{chars_of, lowercase, push_char, string_of, to_lowercase};
use crate::style::{BorderStyle, Modifier, Style, Theme};
use crate::surface::{Surface, clipped_write, paint_cell};
use crate::text::Line;
use crate::view::RenderCtx;
use crate::width::{cap16, str_cols, text_cols};
use super::boxed::Boxed;
use super::window::{Scrollbar, SelectionAnchor, VirtualWindow, scrollbar_cell, spec_anchor_window, thumb};
use super::select::{SelectNavigation, SelectState, spec_clamp, spec_select_event};
use crate::chars::{
    find_from, lemma_find_from_none, lemma_utf8_len_nonneg, occurs_at, same_chars, sat_usize, trim_chars,
    trim_ws, utf8_char_width, utf8_len,
};

verus! {

/// The first index at or after `from` holding `ch`.
pub open spec fn next_match(c: Seq<char>, from: int, ch: char) -> Option<int>
    decreases c.len() - from,
{
    if from < 0 || from >= c.len() {
        None
    } else if c[from] == ch {
        Some(from)
    } else {
        next_match(c, from + 1, ch)
    }
}

/// Matching `q` as a subsequence of `c` from `from`, each character at its
/// earliest position: the summed gaps skipped between matches, or `None`
/// when some character is not found.
pub open spec fn fuzzy_gap(c: Seq<char>, q: Seq<char>, from: int, gap: int) -> Option<int>
    decreases q.len(),
{
    if q.len() == 0 {
        Some(gap)
    } else {
        match next_match(c, from, q[0]) {
            None => None,
            Some(p) => fuzzy_gap(c, q.drop_first(), p + 1, sat_usize(gap + (p - from))),
        }
    }
}

/// How well `query` matches `candidate`, case-insensitively, lower is
/// better: 0 for an empty query or an exact match, 1 for a prefix, 10 plus
/// the byte offset for a substring, 100 plus the skipped characters for a
/// subsequence, and no score otherwise.
pub open spec fn spec_fuzzy_score(candidate: Seq<char>, query: Seq<char>) -> Option<usize> {
    let c = lowercase(candidate);
    let q = lowercase(trim_ws(query));
    if q.len() == 0 || c == q {
        Some(0usize)
    } else if q.len() <= c.len() && c.subrange(0, q.len() as int) == q {
        Some(1usize)
    } else {
        match find_from(c, q, 0) {
            Some(i) => Some(sat_usize(10 + sat_usize(utf8_len(c.take(i)))) as usize),
            None => match fuzzy_gap(c, q, 0, 0) {
                Some(g) => Some(sat_usize(100 + g) as usize),
                None => None,
            },
        }
    }
}

/// Case-insensitive fuzzy score of `candidate` against `query` (see
/// [`spec_fuzzy_score`]).
pub fn fuzzy_score(candidate: &str, query: &str) -> (r: Option<usize>)
    ensures
        r == spec_fuzzy_score(candidate@, query@),
{
    let c = chars_of(to_lowercase(candidate).as_str());
    let raw = chars_of(query);
    let trimmed = trim_chars(&raw);
    let q = chars_of(to_lowercase(string_of(trimmed.as_slice()).as_str()).as_str());
    if q.len() == 0 || same_chars(&c, &q) {
        return Some(0);
    }
    if q.len() <= c.len() && occurs_at(&c, &q, 0) {
        return Some(1);
    }
    // Substring: the first occurrence, reported as a byte offset.
    let ghost spec_c = lowercase(candidate@);
    let ghost spec_q = lowercase(trim_ws(query@));
    let mut i: usize = 0;
    let mut bytes: usize = 0;
    if q.len() <= c.len() {
        let last = c.len() - q.len();
        while i <= last
            invariant
                last + q@.len() == c@.len(),
                last < c.len(),
                q@.len() > 0,
                i <= last + 1,
                c@ == spec_c && q@ == spec_q,
                spec_c == lowercase(candidate@) && spec_q == lowercase(trim_ws(query@)),
                spec_c != spec_q,
                !(spec_q.len() <= spec_c.len() && spec_c.subrange(0, spec_q.len() as int) == spec_q),
                find_from(c@, q@, 0) == find_from(c@, q@, i as int),
                bytes == sat_usize(utf8_len(c@.take(i as int))),
            decreases last + 1 - i,
        {
            if occurs_at(&c, &q, i) {
                proof {
                    assert(find_from(c@, q@, i as int) == Some(i as int));
                }
                return Some(10usize.saturating_add(bytes));
            }
            proof {
                assert(c@.take(i + 1).drop_last() =~= c@.take(i as int));
            }
            bytes = bytes.saturating_add(utf8_char_width(c[i]));
            i = i + 1;
        }
    }
    proof {
        lemma_find_from_none(c@, q@, i as int);
        assert(q@.skip(0) =~= q@);
    }
    // Subsequence: each query character at its earliest later position.
    let mut from: usize = 0;
    let mut gap: usize = 0;
    let mut k: usize = 0;
    while k < q.len()
        invariant
            k <= q@.len(),
            from <= c@.len(),
            c@ == spec_c && q@ == spec_q,
            spec_c == lowercase(candidate@) && spec_q == lowercase(trim_ws(query@)),
            spec_q.len() > 0,
            spec_c != spec_q,
            !(spec_q.len() <= spec_c.len() && spec_c.subrange(0, spec_q.len() as int) == spec_q),
            find_from(spec_c, spec_q, 0).is_none(),
            fuzzy_gap(c@, q@, 0, 0) == fuzzy_gap(c@, q@.skip(k as int), from as int, gap as int),
        decreases q@.len() - k,
    {
        let needle = q[k];
        let mut p: usize = from;
        while p < c.len() && c[p] != needle
            invariant
                from <= p <= c@.len(),
                k < q@.len(),
                needle == q@[k as int],
                c@ == spec_c && q@ == spec_q,
                spec_c == lowercase(candidate@) && spec_q == lowercase(trim_ws(query@)),
                spec_q.len() > 0,
                spec_c != spec_q,
                !(spec_q.len() <= spec_c.len() && spec_c.subrange(0, spec_q.len() as int) == spec_q),
                find_from(spec_c, spec_q, 0).is_none(),
                fuzzy_gap(c@, q@, 0, 0) == fuzzy_gap(c@, q@.skip(k as int), from as int, gap as int),
                next_match(c@, from as int, needle) == next_match(c@, p as int, needle),
            decreases c@.len() - p,
        {
            p = p + 1;
        }
        proof {
            assert(q@.skip(k as int)[0] == needle);
            assert(q@.skip(k as int).drop_first() =~= q@.skip(k + 1));
        }
        if p >= c.len() {
            return None;
        }
        gap = gap.saturating_add(p - from);
        from = p + 1;
        k = k + 1;
    }
    proof {
        assert(q@.skip(k as int).len() == 0);
    }
    Some(100usize.saturating_add(gap))
}

/// `best` lowered to `s` (kept when already no worse).
pub open spec fn keep_min(best: Option<usize>, s: usize) -> Option<usize> {
    match best {
        None => Some(s),
        Some(c) => Some(if c <= s { c } else { s }),
    }
}

/// A score with a penalty added (saturating).
pub open spec fn penalized(score: Option<usize>, add: int) -> Option<usize> {
    match score {
        Some(s) => Some(sat_usize(s + add) as usize),
        None => None,
    }
}

/// `best` merged with a candidate score.
pub open spec fn merged(best: Option<usize>, candidate: Option<usize>) -> Option<usize> {
    match candidate {
        Some(s) => keep_min(best, s),
        None => best,
    }
}

/// The best of `best` and every keyword's score plus 100.
pub open spec fn keywords_best(keywords: Seq<Seq<char>>, query: Seq<char>, best: Option<usize>) -> Option<usize>
    decreases keywords.len(),
{
    if keywords.len() == 0 {
        best
    } else {
        merged(
            keywords_best(keywords.drop_last(), query, best),
            penalized(spec_fuzzy_score(keywords.last(), query), 100),
        )
    }
}

/// An item's score against `query`: the best of its label, its detail plus
/// 200, and its keywords plus 100.
pub open spec fn item_score(item: CompletionItem, query: Seq<char>) -> Option<usize> {
    let base = spec_fuzzy_score(item.label@, query);
    let with_detail = match item.detail {
        Some(d) => merged(base, penalized(spec_fuzzy_score(d@, query), 200)),
        None => base,
    };
    keywords_best(item.keywords@.map_values(|k: String| k@), query, with_detail)
}

/// One candidate: a label, optional detail, the text inserted on acceptance,
/// and extra search terms.
#[derive(Clone, Debug, PartialEq, Eq)]
pub struct CompletionItem {
    pub label: String,
    pub detail: Option<String>,
    pub replacement: String,
    pub keywords: Vec<String>,
}

impl CompletionItem {
    /// An item whose inserted replacement is its displayed `label`.
    pub fn new(label: &str) -> (item: CompletionItem)
        ensures
            item.label@ == label@,
            item.replacement@ == label@,
            item.detail.is_none(),
            item.keywords@.len() == 0,
    {
        CompletionItem {
            label: label.to_owned(),
            detail: None,
            replacement: label.to_owned(),
            keywords: Vec::new(),
        }
    }

    /// Secondary text shown after the label and searched at lower priority.
    pub fn detail(self, detail: &str) -> (item: CompletionItem)
        ensures
            item.detail matches Some(d) && d@ == detail@,
            item.label == self.label && item.replacement == self.replacement && item.keywords == self.keywords,
    {
        CompletionItem { detail: Some(detail.to_owned()), ..self }
    }

    /// The text inserted when this item is accepted.
    pub fn replacement(self, replacement: &str) -> (item: CompletionItem)
        ensures
            item.replacement@ == replacement@,
            item.label == self.label && item.detail == self.detail && item.keywords == self.keywords,
    {
        CompletionItem { replacement: replacement.to_owned(), ..self }
    }

    /// An alternate search term that is not rendered.
    pub fn keyword(self, keyword: &str) -> (item: CompletionItem)
        ensures
            item.keywords@.map_values(|k: String| k@) == self.keywords@.map_values(|k: String| k@).push(keyword@),
            item.label == self.label && item.detail == self.detail && item.replacement == self.replacement,
    {
        let mut item = self;
        let ghost before = item.keywords@;
        item.keywords.push(keyword.to_owned());
        proof {
            assert(item.keywords@.map_values(|k: String| k@) =~= before.map_values(|k: String| k@).push(keyword@));
        }
        item
    }

    /// The display label.
    pub fn label(&self) -> (r: &str)
        ensures
            r@ == self.label@,
    {
        self.label.as_str()
    }

    /// The optional secondary description.
    pub fn detail_text(&self) -> (r: Option<&str>)
        ensures
            match self.detail {
                Some(d) => r matches Some(t) && t@ == d@,
                None => r.is_none(),
            },
    {
        match &self.detail {
            Some(d) => Some(d.as_str()),
            None => None,
        }
    }

    /// The text the host inserts on acceptance.
    pub fn replacement_text(&self) -> (r: &str)
        ensures
            r@ == self.replacement@,
    {
        self.replacement.as_str()
    }

    fn score(&self, query: &str) -> (r: Option<usize>)
        ensures
            r == item_score(*self, query@),
    {
        let mut best = fuzzy_score(self.label.as_str(), query);
        match &self.detail {
            Some(detail) => {
                match fuzzy_score(detail.as_str(), query) {
                    Some(score) => {
                        let score = score.saturating_add(200);
                        best = Some(
                            match best {
                                Some(current) => if current <= score { current } else { score },
                                None => score,
                            },
                        );
                    },
                    None => {},
                }
            },
            None => {},
        }
        let ghost kws = self.keywords@.map_values(|k: String| k@);
        let ghost start = best;
        let mut i: usize = 0;
        while i < self.keywords.len()
            invariant
                i <= self.keywords@.len(),
                kws == self.keywords@.map_values(|k: String| k@),
                best == keywords_best(kws.take(i as int), query@, start),
            decreases self.keywords@.len() - i,
        {
            proof {
                assert(kws.take(i + 1).drop_last() =~= kws.take(i as int));
            }
            match fuzzy_score(self.keywords[i].as_str(), query) {
                Some(score) => {
                    let score = score.saturating_add(100);
                    best = Some(
                        match best {
                            Some(current) => if current <= score { current } else { score },
                            None => score,
                        },
                    );
                },
                None => {},
            }
            i = i + 1;
        }
        proof {
            assert(kws.take(i as int) =~= kws);
        }
        best
    }
}

/// `a` ranks before `b`: a better (lower) score, or an equal score and an
/// earlier position in the collection.
pub open spec fn ranked_before(items: Seq<CompletionItem>, query: Seq<char>, a: int, b: int) -> bool {
    let sa = item_score(items[a], query).unwrap();
    let sb = item_score(items[b], query).unwrap();
    sa < sb || (sa == sb && a < b)
}

/// `m` lists exactly the indices of the items that `query` matches, best
/// first, ties in collection order.
pub open spec fn is_ranking(m: Seq<usize>, items: Seq<CompletionItem>, query: Seq<char>) -> bool {
    &&& forall|k: int| 0 <= k < m.len() ==> #[trigger] m[k] < items.len() && item_score(items[m[k] as int], query) is Some
    &&& forall|i: int| 0 <= i < items.len() && #[trigger] item_score(items[i], query) is Some ==> m.contains(i as usize)
    &&& forall|a: int, b: int| 0 <= a < b < m.len() ==> ranked_before(items, query, #[trigger] m[a] as int, #[trigger] m[b] as int)
}

/// The first position at or after `i` holding `key`.
pub open spec fn first_key(keys: Seq<Seq<char>>, key: Seq<char>, i: int) -> Option<int>
    decreases keys.len() - i,
{
    if i < 0 || i >= keys.len() {
        None
    } else if keys[i] == key {
        Some(i)
    } else {
        first_key(keys, key, i + 1)
    }
}

/// The selection after a refresh: nothing without matches; the first result
/// when the query changed; otherwise the previously selected item where it
/// still matches, else the old position clamped into range.
pub open spec fn synced_selection(
    old_selected: Option<usize>,
    previous: Option<Seq<char>>,
    query_changed: bool,
    keys: Seq<Seq<char>>,
) -> Option<usize> {
    if keys.len() == 0 {
        None
    } else if query_changed {
        Some(0usize)
    } else {
        match (match previous {
            Some(k) => first_key(keys, k, 0),
            None => None,
        }) {
            Some(p) => Some(p as usize),
            None => match spec_clamp(old_selected, keys.len() as int) {
                Some(x) => Some(x),
                None => Some(0usize),
            },
        }
    }
}

/// The replacement of each ranked match.
pub open spec fn keys_of(matches: Seq<usize>, items: Seq<CompletionItem>) -> Seq<Seq<char>> {
    matches.map_values(|m: usize| items[m as int].replacement@)
}

/// Host-owned query, ranking and selection for a completion popup.
#[derive(Clone, Debug)]
pub struct CompletionState {
    pub query: String,
    pub matches: Vec<usize>,
    pub match_keys: Vec<String>,
    pub selection: SelectState,
}

impl CompletionState {
    /// The replacement of the selected match, as last synchronized.
    pub open spec fn previous_key(&self) -> Option<Seq<char>> {
        match self.selection.selected {
            Some(i) => if i < self.match_keys@.len() {
                Some(self.match_keys@[i as int]@)
            } else {
                None
            },
            None => None,
        }
    }

    /// An empty state; call [`sync`](Self::sync) with the candidates before
    /// rendering or handling input.
    pub fn new() -> (s: CompletionState)
        ensures
            s.query@.len() == 0,
            s.matches@.len() == 0,
            s.match_keys@.len() == 0,
            s.selection.selected == Some(0usize),
    {
        CompletionState {
            query: String::new(),
            matches: Vec::new(),
            match_keys: Vec::new(),
            selection: SelectState::new(),
        }
    }

    /// Recompute the ranked matches for `query`. A changed query resets the
    /// cursor to the first result; refreshing the same query keeps the
    /// selected item where it still matches.
    pub fn sync(&mut self, query: &str, items: &[CompletionItem])
        ensures
            final(self).query@ == query@,
            is_ranking(final(self).matches@, items@, query@),
            final(self).match_keys@.map_values(|k: String| k@) == keys_of(final(self).matches@, items@),
            final(self).selection.selected == synced_selection(
                old(self).selection.selected,
                old(self).previous_key(),
                old(self).query@ != query@,
                keys_of(final(self).matches@, items@),
            ),
    {
        let previous: Option<String> = match self.selection.selected() {
            Some(s) => if s < self.match_keys.len() {
                Some(self.match_keys[s].clone())
            } else {
                None
            },
            None => None,
        };
        let query_owned = query.to_owned();
        let query_changed = !(self.query == query_owned);
        // Rank: insert each matching index after every entry scoring no worse.
        let mut matches: Vec<usize> = Vec::new();
        let mut scores: Vec<usize> = Vec::new();
        let mut i: usize = 0;
        while i < items.len()
            invariant
                i <= items@.len(),
                matches@.len() == scores@.len(),
                forall|k: int|
                    0 <= k < matches@.len() ==> #[trigger] matches@[k] < i && item_score(
                        items@[matches@[k] as int],
                        query@,
                    ) == Some(scores@[k]),
                forall|j: int| 0 <= j < i && #[trigger] item_score(items@[j], query@) is Some ==> matches@.contains(j as usize),
                forall|a: int, b: int|
                    0 <= a < b < matches@.len() ==> #[trigger] scores@[a] < #[trigger] scores@[b] || (scores@[a]
                        == scores@[b] && matches@[a] < matches@[b]),
            decreases items@.len() - i,
        {
            match items[i].score(query) {
                Some(sc) => {
                    let mut k: usize = 0;
                    while k < scores.len() && scores[k] <= sc
                        invariant
                            k <= scores@.len(),
                            forall|j: int| 0 <= j < k ==> #[trigger] scores@[j] <= sc,
                        decreases scores@.len() - k,
                    {
                        k = k + 1;
                    }
                    let ghost m0 = matches@;
                    let ghost s0 = scores@;
                    matches.insert(k, i);
                    scores.insert(k, sc);
                    proof {
                        assert(matches@ =~= m0.insert(k as int, i));
                        assert(scores@ =~= s0.insert(k as int, sc));
                        assert forall|j: int| k <= j < s0.len() implies sc < #[trigger] s0[j] by {
                            assert(s0[k as int] > sc);
                            if j > k {
                                assert(s0[k as int] < s0[j] || (s0[k as int] == s0[j] && m0[k as int] < m0[j]));
                            }
                        }
                        assert forall|a: int, b: int|
                            0 <= a < b < matches@.len() implies #[trigger] scores@[a] < #[trigger] scores@[b] || (
                            scores@[a] == scores@[b] && matches@[a] < matches@[b]) by {
                            if a < k && b == k {
                                assert(m0[a] < i);
                            } else if a < k && b > k {
                                assert(scores@[b] == s0[b - 1]);
                            } else if a == k && b > k {
                                assert(scores@[b] == s0[b - 1]);
                            } else if a > k {
                                assert(scores@[a] == s0[a - 1] && scores@[b] == s0[b - 1]);
                            }
                        }
                        assert forall|j: int| 0 <= j < i + 1 && #[trigger] item_score(items@[j], query@) is Some implies matches@.contains(
                            j as usize,
                        ) by {
                            if j == i {
                                assert(matches@[k as int] == i);
                            } else {
                                let p = choose|p: int| 0 <= p < m0.len() && m0[p] == j as usize;
                                if p < k {
                                    assert(matches@[p] == j as usize);
                                } else {
                                    assert(matches@[p + 1] == j as usize);
                                }
                            }
                        }
                    }
                },
                None => {},
            }
            i = i + 1;
        }
        proof {
            assert forall|a: int, b: int| 0 <= a < b < matches@.len() implies ranked_before(
                items@,
                query@,
                #[trigger] matches@[a] as int,
                #[trigger] matches@[b] as int,
            ) by {
                assert(scores@[a] < scores@[b] || (scores@[a] == scores@[b] && matches@[a] < matches@[b]));
            }
        }
        let mut keys: Vec<String> = Vec::new();
        let mut k: usize = 0;
        while k < matches.len()
            invariant
                k <= matches@.len(),
                forall|j: int| 0 <= j < matches@.len() ==> #[trigger] matches@[j] < items@.len(),
                keys@.map_values(|s: String| s@) == keys_of(matches@.take(k as int), items@),
            decreases matches@.len() - k,
        {
            let ghost prev = keys@;
            keys.push(items[matches[k]].replacement.clone());
            proof {
                assert(keys@.map_values(|s: String| s@) =~= prev.map_values(|s: String| s@).push(
                    items@[matches@[k as int] as int].replacement@,
                ));
                assert(keys_of(matches@.take(k + 1), items@) =~= keys_of(matches@.take(k as int), items@).push(
                    items@[matches@[k as int] as int].replacement@,
                ));
            }
            k = k + 1;
        }
        proof {
            assert(matches@.take(k as int) =~= matches@);
        }
        let ghost kv = keys_of(matches@, items@);
        self.matches = matches;
        self.match_keys = keys;
        self.query = query_owned;
        if self.matches.len() == 0 {
            self.selection.select(None);
        } else if query_changed {
            self.selection.select(Some(0));
        } else {
            let mut found: Option<usize> = None;
            match &previous {
                Some(key) => {
                    let mut p: usize = 0;
                    while p < self.match_keys.len()
                        invariant_except_break
                            p <= self.match_keys@.len(),
                            first_key(kv, key@, 0) == first_key(kv, key@, p as int),
                            found.is_none(),
                        invariant
                            self.match_keys@.map_values(|s: String| s@) == kv,
                        ensures
                            found matches Some(x) && first_key(kv, key@, 0) == Some(x as int)
                                || found.is_none() && first_key(kv, key@, 0).is_none(),
                        decreases self.match_keys@.len() - p,
                    {
                        if self.match_keys[p] == *key {
                            proof {
                                assert(kv[p as int] == self.match_keys@[p as int]@);
                            }
                            found = Some(p);
                            break;
                        }
                        p = p + 1;
                    }
                },
                None => {},
            }
            match found {
                Some(p) => {
                    self.selection.select(Some(p));
                },
                None => {
                    self.selection.clamp(self.matches.len());
                    if self.selection.selected().is_none() {
                        self.selection.select(Some(0));
                    }
                },
            }
        }
    }

    /// The current query text.
    pub fn query(&self) -> (r: &str)
        ensures
            r@ == self.query@,
    {
        self.query.as_str()
    }

    /// Number of matching candidates.
    pub fn len(&self) -> (r: usize)
        ensures
            r == self.matches@.len(),
    {
        self.matches.len()
    }

    /// Whether the query has no matches.
    pub fn is_empty(&self) -> (b: bool)
        ensures
            b == (self.matches@.len() == 0),
    {
        self.matches.len() == 0
    }

    /// Ranked indices into the collection last passed to [`sync`](Self::sync).
    pub fn matched_indices(&self) -> (r: &[usize])
        ensures
            r@ == self.matches@,
    {
        self.matches.as_slice()
    }

    /// The selection within the ranked match list.
    pub fn selection(&self) -> (r: &SelectState)
        ensures
            *r == self.selection,
    {
        &self.selection
    }

    /// Arrow navigation, Enter acceptance and Esc cancellation.
    pub fn handle(&mut self, event: &Event) -> (r: InputOutcome)
        ensures
            final(self).query == old(self).query && final(self).matches == old(self).matches,
            final(self).match_keys == old(self).match_keys,
            (final(self).selection.selected, r) == spec_select_event(
                old(self).selection.selected,
                *event,
                old(self).matches@.len() as int,
                SelectNavigation { vim: false, ctrl_n_p: false, tab: false, numeric: false },
            ),
    {
        self.handle_with(event, SelectNavigation::default())
    }

    /// Input handling with an explicit navigation policy.
    pub fn handle_with(&mut self, event: &Event, navigation: SelectNavigation) -> (r: InputOutcome)
        ensures
            final(self).query == old(self).query && final(self).matches == old(self).matches,
            final(self).match_keys == old(self).match_keys,
            (final(self).selection.selected, r) == spec_select_event(
                old(self).selection.selected,
                *event,
                old(self).matches@.len() as int,
                navigation,
            ),
    {
        let len = self.matches.len();
        self.selection.handle_with(event, len, navigation)
    }

    /// The collection index of the selected match.
    pub fn selected_index(&self) -> (r: Option<usize>)
        ensures
            r == match self.selection.selected {
                Some(s) => if s < self.matches@.len() {
                    Some(self.matches@[s as int])
                } else {
                    None
                },
                None => None,
            },
    {
        match self.selection.selected() {
            Some(s) => if s < self.matches.len() {
                Some(self.matches[s])
            } else {
                None
            },
            None => None,
        }
    }

    /// The selected candidate of `items`, the collection last synchronized;
    /// `None` for a different, shorter slice.
    pub fn selected<'a>(&self, items: &'a [CompletionItem]) -> (r: Option<&'a CompletionItem>)
        ensures
            r == match self.selection.selected {
                Some(s) => if s < self.matches@.len() && self.matches@[s as int] < items@.len() {
                    Some(&items@[self.matches@[s as int] as int])
                } else {
                    None
                },
                None => None,
            },
    {
        match self.selected_index() {
            Some(index) => if index < items.len() {
                Some(&items[index])
            } else {
                None
            },
            None => None,
        }
    }
}

impl Default for CompletionState {
    fn default() -> (s: CompletionState)
        ensures
            s.query@.len() == 0,
            s.matches@.len() == 0,
            s.match_keys@.len() == 0,
            s.selection.selected == Some(0usize),
    {
        CompletionState::new()
    }
}

proof fn lemma_first_key_found(keys: Seq<Seq<char>>, key: Seq<char>, i: int, j: int)
    requires
        0 <= i <= j < keys.len(),
        keys[j] == key,
    ensures
        first_key(keys, key, i) matches Some(p) && i <= p <= j && keys[p] == key,
    decreases j - i,
{
    if keys[i] != key {
        lemma_first_key_found(keys, key, i + 1, j);
    }
}

/// Refreshing with an unchanged query keeps the selected item: when the
/// replacement selected before is still among the ranked matches, the
/// selection [`CompletionState::sync`] computes points at a match with that
/// same replacement.
pub proof fn lemma_refresh_keeps_selected_item(
    old_selected: Option<usize>,
    previous: Seq<char>,
    keys: Seq<Seq<char>>,
)
    requires
        keys.contains(previous),
        keys.len() <= usize::MAX,
    ensures
        synced_selection(old_selected, Some(previous), false, keys) matches Some(p) && p < keys.len()
            && keys[p as int] == previous,
{
    let j = choose|j: int| 0 <= j < keys.len() && keys[j] == previous;
    lemma_first_key_found(keys, previous, 0, j);
}

/// A changed query selects the first ranked result, and no matches select
/// nothing.
pub proof fn lemma_changed_query_selects_first(
    old_selected: Option<usize>,
    previous: Option<Seq<char>>,
    query_changed: bool,
    keys: Seq<Seq<char>>,
)
    ensures
        keys.len() == 0 ==> synced_selection(old_selected, previous, query_changed, keys).is_none(),
        keys.len() > 0 && query_changed ==> synced_selection(old_selected, previous, query_changed, keys)
            == Some(0usize),
{
}

/// Folding keyword scores into `best`: the result is no worse than `best`
/// and than any keyword's score plus 100, is `None` only when all of them
/// are, and is one of them.
proof fn lemma_keywords_best(keywords: Seq<Seq<char>>, query: Seq<char>, best: Option<usize>)
    ensures
        best is Some ==> (keywords_best(keywords, query, best) is Some && keywords_best(keywords, query, best).unwrap()
            <= best.unwrap()),
        forall|i: int|
            0 <= i < keywords.len() && (#[trigger] spec_fuzzy_score(keywords[i], query)) is Some ==> (keywords_best(
                keywords,
                query,
                best,
            ) is Some && keywords_best(keywords, query, best).unwrap() <= spec_fuzzy_score(keywords[i], query).unwrap()
                + 100),
        keywords_best(keywords, query, best) is None <==> (best is None && forall|i: int|
            0 <= i < keywords.len() ==> (#[trigger] spec_fuzzy_score(keywords[i], query)) is None),
        keywords_best(keywords, query, best) is Some ==> (best == keywords_best(keywords, query, best) || exists|i: int|
            0 <= i < keywords.len() && (#[trigger] spec_fuzzy_score(keywords[i], query)) is Some
                && keywords_best(keywords, query, best).unwrap() == sat_usize(
                spec_fuzzy_score(keywords[i], query).unwrap() + 100,
            )),
    decreases keywords.len(),
{
    if keywords.len() > 0 {
        let ks = keywords.drop_last();
        lemma_keywords_best(ks, query, best);
        let n = keywords.len() - 1;
        assert forall|i: int| 0 <= i < n implies #[trigger] keywords[i] == ks[i] by {}
        let r = keywords_best(keywords, query, best);
        let prev = keywords_best(ks, query, best);
        if r is None {
            assert forall|i: int| 0 <= i < keywords.len() implies (#[trigger] spec_fuzzy_score(keywords[i], query)) is None by {
                if i < n {
                    assert(keywords[i] == ks[i]);
                }
            }
        }
        if r is Some {
            if prev != r {
                if best != r {
                    assert(spec_fuzzy_score(keywords[n], query) is Some);
                }
            } else if best != r {
                let i = choose|i: int|
                    0 <= i < ks.len() && (#[trigger] spec_fuzzy_score(ks[i], query)) is Some && prev.unwrap()
                        == sat_usize(spec_fuzzy_score(ks[i], query).unwrap() + 100);
                assert(keywords[i] == ks[i]);
            }
        }
    }
}

/// How an item scores against a query, from the scores of its texts: a
/// label match scores at most the label's score, a detail match at most the
/// detail's score plus 200, a keyword match at most the keyword's score plus
/// 100; the item is unmatched exactly when none of them matches, and its
/// score is one of those candidates.
pub proof fn lemma_item_score_sources(item: CompletionItem, query: Seq<char>)
    ensures
        spec_fuzzy_score(item.label@, query) is Some ==> (item_score(item, query) is Some && item_score(
            item,
            query,
        ).unwrap() <= spec_fuzzy_score(item.label@, query).unwrap()),
        item.detail is Some && spec_fuzzy_score(item.detail.unwrap()@, query) is Some ==> (item_score(item, query) is Some
            && item_score(item, query).unwrap() <= spec_fuzzy_score(item.detail.unwrap()@, query).unwrap() + 200),
        forall|i: int|
            0 <= i < item.keywords@.len() && (#[trigger] spec_fuzzy_score(item.keywords@[i]@, query)) is Some ==> (
            item_score(item, query) is Some && item_score(item, query).unwrap() <= spec_fuzzy_score(
                item.keywords@[i]@,
                query,
            ).unwrap() + 100),
        item_score(item, query) is None <==> ({
            &&& spec_fuzzy_score(item.label@, query) is None
            &&& item.detail is Some ==> spec_fuzzy_score(item.detail.unwrap()@, query) is None
            &&& forall|i: int|
                0 <= i < item.keywords@.len() ==> (#[trigger] spec_fuzzy_score(item.keywords@[i]@, query)) is None
        }),
        item_score(item, query) is Some ==> ({
            ||| spec_fuzzy_score(item.label@, query) == item_score(item, query)
            ||| (item.detail is Some && spec_fuzzy_score(item.detail.unwrap()@, query) is Some && item_score(
                item,
                query,
            ).unwrap() == sat_usize(spec_fuzzy_score(item.detail.unwrap()@, query).unwrap() + 200))
            ||| exists|i: int|
                0 <= i < item.keywords@.len() && (#[trigger] spec_fuzzy_score(item.keywords@[i]@, query)) is Some
                    && item_score(item, query).unwrap() == sat_usize(
                    spec_fuzzy_score(item.keywords@[i]@, query).unwrap() + 100,
                )
        }),
{
    let ks = item.keywords@.map_values(|k: String| k@);
    let base = spec_fuzzy_score(item.label@, query);
    let labelled_or_detailed = if item.detail is Some {
        merged(base, penalized(spec_fuzzy_score(item.detail.unwrap()@, query), 200))
    } else {
        base
    };
    lemma_keywords_best(ks, query, labelled_or_detailed);
    assert forall|i: int| 0 <= i < item.keywords@.len() implies #[trigger] ks[i] == item.keywords@[i]@ by {}
    let r = item_score(item, query);
    assert(r == keywords_best(ks, query, labelled_or_detailed));
    if r is None {
        assert forall|i: int| 0 <= i < item.keywords@.len() implies (#[trigger] spec_fuzzy_score(item.keywords@[i]@, query)) is None by {
            assert(ks[i] == item.keywords@[i]@);
            assert(spec_fuzzy_score(ks[i], query) is None);
        }
    }
    if r is Some {
        if labelled_or_detailed != r {
            let i = choose|i: int|
                0 <= i < ks.len() && (#[trigger] spec_fuzzy_score(ks[i], query)) is Some && r.unwrap() == sat_usize(
                    spec_fuzzy_score(ks[i], query).unwrap() + 100,
                );
            assert(ks[i] == item.keywords@[i]@);
        }
    }
    assert forall|i: int|
        0 <= i < item.keywords@.len() && (#[trigger] spec_fuzzy_score(item.keywords@[i]@, query)) is Some implies (
        item_score(item, query) is Some && item_score(item, query).unwrap() <= spec_fuzzy_score(item.keywords@[i]@, query).unwrap()
            + 100) by {
        assert(ks[i] == item.keywords@[i]@);
        assert(spec_fuzzy_score(ks[i], query) is Some);
    }
}

/// The fuzzy score orders its tiers: 0 exactly for an empty query or an
/// exact (case-insensitive) match, 1 exactly for a proper prefix, at least 10
/// for any other match, and at least 100 when the query is not a substring.
pub proof fn lemma_fuzzy_score_tiers(candidate: Seq<char>, query: Seq<char>)
    ensures
        (spec_fuzzy_score(candidate, query) == Some(0usize)) <==> exact_match(candidate, query),
        (spec_fuzzy_score(candidate, query) == Some(1usize)) <==> (!exact_match(candidate, query)
            && prefix_match(candidate, query)),
        (spec_fuzzy_score(candidate, query) is Some && !exact_match(candidate, query) && !prefix_match(
            candidate,
            query,
        )) ==> spec_fuzzy_score(candidate, query).unwrap() >= 10,
        (spec_fuzzy_score(candidate, query) is Some && !exact_match(candidate, query) && !prefix_match(
            candidate,
            query,
        ) && find_from(lowercase(candidate), lowercase(trim_ws(query)), 0).is_none())
            ==> spec_fuzzy_score(candidate, query).unwrap() >= 100,
{
    let c = lowercase(candidate);
    let q = lowercase(trim_ws(query));
    if !exact_match(candidate, query) && !prefix_match(candidate, query) {
        match find_from(c, q, 0) {
            Some(i) => {
                lemma_utf8_len_nonneg(c.take(i));
            },
            None => {
                lemma_fuzzy_gap_nonneg(c, q, 0, 0);
            },
        }
    }
}

proof fn lemma_next_match_after(c: Seq<char>, from: int, ch: char)
    ensures
        next_match(c, from, ch) matches Some(p) ==> p >= from,
    decreases c.len() - from,
{
    if 0 <= from < c.len() && c[from] != ch {
        lemma_next_match_after(c, from + 1, ch);
    }
}

proof fn lemma_fuzzy_gap_nonneg(c: Seq<char>, q: Seq<char>, from: int, gap: int)
    requires
        gap >= 0,
    ensures
        fuzzy_gap(c, q, from, gap) matches Some(g) ==> g >= 0,
    decreases q.len(),
{
    if q.len() > 0 {
        lemma_next_match_after(c, from, q[0]);
        match next_match(c, from, q[0]) {
            Some(p) => lemma_fuzzy_gap_nonneg(c, q.drop_first(), p + 1, sat_usize(gap + (p - from))),
            None => {},
        }
    }
}

/// The query, trimmed and lowercased, is empty or equals the lowercased
/// candidate.
pub open spec fn exact_match(candidate: Seq<char>, query: Seq<char>) -> bool {
    let q = lowercase(trim_ws(query));
    q.len() == 0 || lowercase(candidate) == q
}

/// The query, trimmed and lowercased, starts the lowercased candidate.
pub open spec fn prefix_match(candidate: Seq<char>, query: Seq<char>) -> bool {
    let c = lowercase(candidate);
    let q = lowercase(trim_ws(query));
    q.len() <= c.len() && c.subrange(0, q.len() as int) == q
}

/// The ranked `matches` that index into `len` items, in order.
pub open spec fn palette_indices(matches: Seq<usize>, len: int) -> Seq<usize>
    decreases matches.len(),
{
    if matches.len() == 0 {
        seq![]
    } else {
        let pre = palette_indices(matches.drop_last(), len);
        if matches.last() < len {
            pre.push(matches.last())
        } else {
            pre
        }
    }
}

/// Two items with the same fields.
pub open spec fn same_item(a: CompletionItem, b: CompletionItem) -> bool {
    &&& a.label == b.label
    &&& a.detail == b.detail
    &&& a.replacement == b.replacement
    &&& a.keywords@ == b.keywords@
}

/// `rows` holds, in order, copies of the items `matches` names.
pub open spec fn rows_of(rows: Seq<CompletionItem>, matches: Seq<usize>, items: Seq<CompletionItem>) -> bool {
    let idx = palette_indices(matches, items.len() as int);
    &&& rows.len() == idx.len()
    &&& forall|i: int| 0 <= i < rows.len() ==> #[trigger] idx[i] < items.len() && same_item(rows[i], items[idx[i] as int])
}

impl CompletionItem {
    /// A field-for-field copy.
    pub fn duplicate(&self) -> (c: CompletionItem)
        ensures
            same_item(c, *self),
    {
        let detail = match &self.detail {
            Some(d) => Some(d.clone()),
            None => None,
        };
        let mut keywords: Vec<String> = Vec::new();
        let mut i: usize = 0;
        while i < self.keywords.len()
            invariant
                i <= self.keywords@.len(),
                keywords@ == self.keywords@.take(i as int),
            decreases self.keywords@.len() - i,
        {
            keywords.push(self.keywords[i].clone());
            proof {
                assert(keywords@ =~= self.keywords@.take(i + 1));
            }
            i = i + 1;
        }
        proof {
            assert(keywords@ =~= self.keywords@);
        }
        CompletionItem { label: self.label.clone(), detail, replacement: self.replacement.clone(), keywords }
    }
}

/// A framed, ranked completion popup: a snapshot of a [`CompletionState`]'s
/// matches for one frame.
pub struct CompletionPalette {
    pub title: String,
    pub query: String,
    pub rows: Vec<CompletionItem>,
    pub selected: Option<usize>,
    pub viewport: u16,
    pub show_query: bool,
    pub empty_message: String,
}

impl CompletionPalette {
    /// Snapshot the matches of `state` from `items`, titled " Completions ",
    /// eight rows tall, with "No matches" for an empty result.
    pub fn new(items: &[CompletionItem], state: &CompletionState) -> (p: CompletionPalette)
        ensures
            p.title@ == " Completions "@,
            p.query@ == state.query@,
            rows_of(p.rows@, state.matches@, items@),
            p.selected == state.selection.selected,
            p.viewport == 8,
            !p.show_query,
            p.empty_message@ == "No matches"@,
    {
        let mut rows: Vec<CompletionItem> = Vec::new();
        let mut k: usize = 0;
        while k < state.matches.len()
            invariant
                k <= state.matches@.len(),
                rows_of(rows@, state.matches@.take(k as int), items@),
            decreases state.matches@.len() - k,
        {
            proof {
                assert(state.matches@.take(k + 1).drop_last() =~= state.matches@.take(k as int));
            }
            let index = state.matches[k];
            if index < items.len() {
                let ghost before = rows@;
                rows.push(items[index].duplicate());
                proof {
                    let idx = palette_indices(state.matches@.take(k + 1), items@.len() as int);
                    assert(idx == palette_indices(state.matches@.take(k as int), items@.len() as int).push(index));
                    assert forall|i: int| 0 <= i < rows@.len() implies #[trigger] idx[i] < items@.len() && same_item(
                        rows@[i],
                        items@[idx[i] as int],
                    ) by {
                        if i < before.len() {
                            assert(rows@[i] == before[i]);
                        }
                    }
                }
            }
            k = k + 1;
        }
        proof {
            assert(state.matches@.take(k as int) =~= state.matches@);
        }
        CompletionPalette {
            title: " Completions ".to_owned(),
            query: state.query.clone(),
            rows,
            selected: state.selection.selected(),
            viewport: 8,
            show_query: false,
            empty_message: "No matches".to_owned(),
        }
    }

    /// The frame title, padded with one space on each side.
    pub fn title(self, title: &str) -> (p: CompletionPalette)
        ensures
            p.title@ == seq![' '] + title@ + seq![' '],
            p.query == self.query && p.rows == self.rows && p.selected == self.selected,
            p.viewport == self.viewport && p.show_query == self.show_query && p.empty_message == self.empty_message,
    {
        let mut t = String::new();
        push_char(&mut t, ' ');
        t.append(title);
        push_char(&mut t, ' ');
        proof {
            assert(t@ =~= seq![' '] + title@ + seq![' ']);
        }
        CompletionPalette { title: t, ..self }
    }

    /// Cap the visible candidate rows (at least one).
    pub fn viewport(self, rows: u16) -> (p: CompletionPalette)
        ensures
            p.viewport == if rows > 1 { rows } else { 1 },
            p.title == self.title && p.query == self.query && p.rows == self.rows && p.selected == self.selected,
            p.show_query == self.show_query && p.empty_message == self.empty_message,
    {
        CompletionPalette { viewport: if rows > 1 { rows } else { 1 }, ..self }
    }

    /// Show the query as a first row, as a standalone command palette does.
    pub fn show_query(self, show: bool) -> (p: CompletionPalette)
        ensures
            p.show_query == show,
            p.title == self.title && p.query == self.query && p.rows == self.rows && p.selected == self.selected,
            p.viewport == self.viewport && p.empty_message == self.empty_message,
    {
        CompletionPalette { show_query: show, ..self }
    }

    /// Replace the empty-result message.
    pub fn empty_message(self, message: &str) -> (p: CompletionPalette)
        ensures
            p.empty_message@ == message@,
            p.title == self.title && p.query == self.query && p.rows == self.rows && p.selected == self.selected,
            p.viewport == self.viewport && p.show_query == self.show_query,
    {
        CompletionPalette { empty_message: message.to_owned(), ..self }
    }

    fn panel(&self) -> (b: Boxed<CompletionBody<'_>>)
        ensures
            b.child.rows@ == self.rows@,
            b.child.selected == self.selected,
            b.child.viewport == self.viewport,
            b.child.show_query == self.show_query,
            self.is_panel(b),
    {
        let body = CompletionBody {
            query: self.query.as_str(),
            rows: self.rows.as_slice(),
            selected: self.selected,
            viewport: self.viewport,
            show_query: self.show_query,
            empty_message: self.empty_message.as_str(),
        };
        Boxed::new(body).title(Line::raw(self.title.as_str())).padding(Padding::symmetric(1, 0)).background(
            Style::new(),
        )
    }
}

impl CompletionPalette {
    /// Whether `b` is this palette's frame: a rounded box, padded one column
    /// each side, on the empty style, titled with the palette's title, around
    /// a body over its query, rows, selection, viewport and empty message.
    pub open spec fn is_panel(&self, b: Boxed<CompletionBody>) -> bool {
        &&& b.child.query@ == self.query@
        &&& b.child.rows@ == self.rows@
        &&& b.child.selected == self.selected
        &&& b.child.viewport == self.viewport
        &&& b.child.show_query == self.show_query
        &&& b.child.empty_message@ == self.empty_message@
        &&& b.border == BorderStyle::Rounded
        &&& b.border_color.is_none()
        &&& b.padding == Some(Padding { top: 0, right: 1, bottom: 0, left: 1 })
        &&& b.background == Some(Style::spec_empty())
        &&& b.title_bottom.is_none()
        &&& b.title matches Some(t) && t.spans@.len() == 1 && t.spans@[0].content@ == self.title@
            && t.spans@[0].style == Style::spec_empty() && t.style == Style::spec_empty() && t.alignment.is_none()
    }
}

impl crate::view::View for CompletionPalette {
    fn measure(&self, available: Size, ctx: &RenderCtx) -> (s: Size) {
        self.panel().measure(available, ctx)
    }

    /// Its frame drawn around the body.
    fn render(&self, area: Rect, surface: &mut Surface, ctx: &RenderCtx)
        ensures
            exists|b: Boxed<CompletionBody>, r: &mut Surface|
                #![trigger call_ensures(<Boxed<CompletionBody> as crate::view::View>::render, (&b, area, r, ctx), ())]
                self.is_panel(b) && mut_ref_current(r) == *old(surface) && mut_ref_future(r) == *final(surface)
                    && call_ensures(<Boxed<CompletionBody> as crate::view::View>::render, (&b, area, r, ctx), ()),
    {
        let panel = self.panel();
        panel.render(area, surface, ctx);
    }
}

/// The framed body of a [`CompletionPalette`].
pub struct CompletionBody<'a> {
    pub query: &'a str,
    pub rows: &'a [CompletionItem],
    pub selected: Option<usize>,
    pub viewport: u16,
    pub show_query: bool,
    pub empty_message: &'a str,
}

impl<'a> CompletionBody<'a> {
    /// The rows shown: up to `viewport` of them, centered on the selection.
    pub fn window(&self) -> (w: VirtualWindow)
        ensures
            w == crate::components::window::spec_anchor_window(
                SelectionAnchor::Center,
                self.rows@.len() as int,
                self.viewport as int,
                self.selected,
            ),
    {
        SelectionAnchor::Center.window(self.rows.len(), self.viewport as usize, self.selected)
    }

    /// Columns a row takes: caret, label, and the detail after two spaces.
    pub fn row_width(item: &CompletionItem) -> (w: u16)
        ensures
            w == row_cols(*item),
    {
        let detail: u16 = match &item.detail {
            Some(text) => str_cols(text.as_str()).saturating_add(2),
            None => 0,
        };
        str_cols(item.label.as_str()).saturating_add(detail).saturating_add(2)
    }
}

/// Columns a completion row takes: caret, label, and the detail after two
/// spaces, saturating.
pub open spec fn row_cols(item: CompletionItem) -> int {
    let detail = match item.detail {
        Some(text) => sat_add(cap16(text_cols(text@) as int), 2),
        None => 0,
    };
    sat_add(sat_add(cap16(text_cols(item.label@) as int), detail), 2)
}

/// The widest of the first `k` rows.
pub open spec fn widest_row(rows: Seq<CompletionItem>, k: int) -> int
    decreases k,
{
    if k <= 0 {
        0
    } else {
        max(widest_row(rows, k - 1), row_cols(rows[k - 1]))
    }
}

/// What a completion body asks for: the wider of the query line and the
/// rows (or the empty message), and one row per visible row (one for the
/// message) plus the query line, each clamped to what is available.
pub open spec fn body_size(b: CompletionBody, available: Size) -> Size {
    let query_width = if b.show_query {
        sat_add(cap16(text_cols(b.query@) as int), 2)
    } else {
        0
    };
    let rows_width = if b.rows@.len() == 0 {
        cap16(text_cols(b.empty_message@) as int)
    } else {
        widest_row(b.rows@, b.rows@.len() as int)
    };
    let rows = if b.rows@.len() == 0 {
        1
    } else {
        let n = spec_anchor_window(SelectionAnchor::Center, b.rows@.len() as int, b.viewport as int, b.selected).len;
        if n < 65535 {
            n as int
        } else {
            65535
        }
    };
    let widest = max(query_width, rows_width);
    let tall = sat_add(rows, if b.show_query { 1 } else { 0 });
    Size { width: min(widest, available.width as int) as u16, height: min(tall, available.height as int) as u16 }
}

/// One completion row on row `y`: the selected row restyled across the row
/// width, then the caret (`› ` when selected), the label and, when the label
/// ends short of the row width, two spaces and the detail.
pub open spec fn completion_row(
    barea: Rect,
    cells: Seq<CellView>,
    clip: Rect,
    list_area: Rect,
    row_width: int,
    item: CompletionItem,
    selected: bool,
    theme: Theme,
    y: int,
) -> Seq<CellView> {
    let muted = Style { fg: Some(theme.muted), ..Style::spec_empty() };
    let base = if selected {
        Style {
            fg: Some(theme.selection_fg),
            bg: Some(theme.selection_bg),
            add_modifier: Modifier { bits: 1 },
            ..Style::spec_empty()
        }
    } else {
        Style { fg: Some(theme.text), ..Style::spec_empty() }
    };
    let row = Rect { x: list_area.x, y: y as u16, width: row_width as u16, height: 1 };
    let c0 = if selected {
        restyled(barea, cells, row.spec_intersection(clip).spec_intersection(barea), base)
    } else {
        cells
    };
    let a = clipped_write(barea, c0, clip, list_area.x as int, y, if selected { seq!['›', ' '] } else { seq![' ', ' '] }, base);
    let b = clipped_write(barea, a.0, clip, a.1, y, item.label@, base);
    match item.detail {
        Some(d) => if b.1 < sat_add(list_area.x as int, row_width) {
            let ds = if selected { base } else { muted };
            let g = clipped_write(barea, b.0, clip, b.1, y, seq![' ', ' '], ds);
            clipped_write(barea, g.0, clip, g.1, y, d@, ds).0
        } else {
            b.0
        },
        None => b.0,
    }
}

/// The window's rows from `index` on, one per row of `list_area`.
pub open spec fn completion_rows(
    barea: Rect,
    cells: Seq<CellView>,
    clip: Rect,
    list_area: Rect,
    b: CompletionBody,
    w: VirtualWindow,
    theme: Theme,
    row_width: int,
    index: int,
) -> Seq<CellView>
    decreases sat_usize(w.start + w.len) - index,
{
    if index < w.start || index >= sat_usize(w.start + w.len) || index >= b.rows@.len() || index - w.start >= 65536 {
        cells
    } else {
        let row_y = sat_add(list_area.y as int, index - w.start);
        if row_y >= list_area.spec_bottom() {
            cells
        } else {
            let c = completion_row(
                barea,
                cells,
                clip,
                list_area,
                row_width,
                b.rows@[index],
                b.selected == Some(index as usize),
                theme,
                row_y,
            );
            completion_rows(barea, c, clip, list_area, b, w, theme, row_width, index + 1)
        }
    }
}

/// The first row below the query line (the area's top without one).
pub open spec fn completion_top(b: CompletionBody, area: Rect) -> int {
    if b.show_query { sat_add(area.y as int, 1) } else { area.y as int }
}

/// The rows the list may use below the query line.
pub open spec fn completion_list_area(b: CompletionBody, area: Rect) -> Rect {
    let top = completion_top(b, area);
    Rect { x: area.x, y: top as u16, width: area.width, height: (area.spec_bottom() - top) as u16 }
}

/// The text a non-empty body draws: the query line (`› ` in the accent,
/// then the query), then the empty message (muted) when there are no
/// rows, else the rows of its window, one column narrower when the window
/// overflows.
pub open spec fn completion_text(barea: Rect, cells: Seq<CellView>, clip: Rect, area: Rect, b: CompletionBody, theme: Theme) -> Seq<CellView> {
    let text = Style { fg: Some(theme.text), ..Style::spec_empty() };
    let q = if b.show_query {
        let a = clipped_write(barea, cells, clip, area.x as int, area.y as int, seq!['›', ' '], Style { fg: Some(theme.accent), ..Style::spec_empty() });
        clipped_write(barea, a.0, clip, sat_add(area.x as int, 2), area.y as int, b.query@, text).0
    } else {
        cells
    };
    let top = completion_top(b, area);
    if top >= area.spec_bottom() {
        q
    } else if b.rows@.len() == 0 {
        clipped_write(barea, q, clip, area.x as int, top, b.empty_message@, Style { fg: Some(theme.muted), ..Style::spec_empty() }).0
    } else {
        let w = spec_anchor_window(SelectionAnchor::Center, b.rows@.len() as int, b.viewport as int, b.selected);
        let rw = if w.len < w.total { sat_sub(area.width as int, 1) } else { area.width as int };
        completion_rows(barea, q, clip, completion_list_area(b, area), b, w, theme, rw, w.start as int)
    }
}

/// The body's scrollbar cell at `(x, y)`: in the last column beside an
/// overflowing window, as tall as the rows the window shows (within the
/// list area).
pub open spec fn completion_bar(area: Rect, b: CompletionBody, theme: Theme, x: int, y: int) -> Option<(char, Style)> {
    let top = completion_top(b, area);
    let w = spec_anchor_window(SelectionAnchor::Center, b.rows@.len() as int, b.viewport as int, b.selected);
    let la = completion_list_area(b, area);
    if top < area.spec_bottom() && b.rows@.len() > 0 && w.len < w.total && sat_sub(area.width as int, 1) < area.width {
        let h = if (la.height as int) < w.len { la.height as int } else { w.len as int };
        scrollbar_cell(
            Rect { x: (la.spec_right() - 1) as u16, y: la.y, width: 1, height: h as u16 },
            thumb(w, h),
            theme.muted,
            theme.dim,
            x,
            y,
        )
    } else {
        None
    }
}

impl<'a> crate::view::View for CompletionBody<'a> {
    fn measure(&self, available: Size, ctx: &RenderCtx) -> (s: Size)
        ensures
            s == body_size(*self, available),
    {
        let query_width: u16 = if self.show_query { str_cols(self.query).saturating_add(2) } else { 0 };
        let mut rows_width: u16 = 0;
        if self.rows.len() == 0 {
            rows_width = str_cols(self.empty_message);
        } else {
            let mut k: usize = 0;
            while k < self.rows.len()
                invariant
                    k <= self.rows@.len(),
                    rows_width == widest_row(self.rows@, k as int),
                decreases self.rows@.len() - k,
            {
                let w = Self::row_width(&self.rows[k]);
                if w > rows_width {
                    rows_width = w;
                }
                k = k + 1;
            }
        }
        let rows: u16 = if self.rows.len() == 0 {
            1
        } else {
            let n = self.window().len();
            if n < 65535 { n as u16 } else { 65535 }
        };
        let widest = if query_width > rows_width { query_width } else { rows_width };
        let tall = rows.saturating_add(if self.show_query { 1 } else { 0 });
        Size::new(
            if widest < available.width { widest } else { available.width },
            if tall < available.height { tall } else { available.height },
        )
    }

    fn render(&self, area: Rect, surface: &mut Surface, ctx: &RenderCtx)
        ensures
            forall|x: int, y: int|
                old(surface).buffer.area.holds(x, y) ==> #[trigger] final(surface).buffer.at(x, y) == if area.width
                    == 0 || area.height == 0 {
                    old(surface).buffer.at(x, y)
                } else {
                    paint_cell(
                        completion_text(
                            old(surface).buffer.area,
                            old(surface).buffer.cells(),
                            old(surface).clip,
                            area,
                            *self,
                            ctx.theme,
                        )[flat_index(old(surface).buffer.area, x, y)],
                        completion_bar(area, *self, ctx.theme, x, y),
                        old(surface).clip,
                        x,
                        y,
                    )
                },
    {
        if area.is_empty() {
            return;
        }
        proof {
            reveal_strlit("› ");
            reveal_strlit("  ");
            assert("› "@ =~= seq!['›', ' ']);
            assert("  "@ =~= seq![' ', ' ']);
        }
        let ghost base = *surface;
        let ghost full = completion_text(surface.buffer.area, surface.buffer.cells(), surface.clip, area, *self, ctx.theme);
        let text_style = Style::new().fg(ctx.theme.text);
        let mut y = area.y;
        if self.show_query {
            surface.set_string(area.x, y, "› ", Style::new().fg(ctx.theme.accent));
            surface.set_string(area.x.saturating_add(2), y, self.query, text_style);
            y = y.saturating_add(1);
        }
        if y >= area.bottom() {
            return;
        }
        if self.rows.len() == 0 {
            surface.set_string(area.x, y, self.empty_message, ctx.theme.muted_style());
            return;
        }
        let window = self.window();
        let list_area = Rect::new(area.x, y, area.width, area.bottom() - y);
        let overflow = window.overflows();
        let row_width = if overflow { list_area.width.saturating_sub(1) } else { list_area.width };
        proof {
            assert(list_area == completion_list_area(*self, area));
        }
        let mut index: usize = window.start();
        let end = window.end();
        while index < end
            invariant_except_break
                surface.wf(),
                surface.buffer.area == base.buffer.area,
                surface.clip == base.clip,
                "› "@ == seq!['›', ' '],
                "  "@ == seq![' ', ' '],
                end == sat_usize(window.start + window.len),
                text_style == (Style { fg: Some(ctx.theme.text), ..Style::spec_empty() }),
                completion_rows(
                    surface.buffer.area,
                    surface.buffer.cells(),
                    surface.clip,
                    list_area,
                    *self,
                    window,
                    ctx.theme,
                    row_width as int,
                    index as int,
                ) == full,
            ensures
                surface.wf(),
                surface.buffer.area == base.buffer.area,
                surface.clip == base.clip,
                surface.buffer.cells() == full,
            decreases end - index,
        {
            if index >= self.rows.len() || index < window.start() {
                break;
            }
            let visible = index - window.start();
            if visible >= 65536 {
                break;
            }
            let row_y = list_area.y.saturating_add(visible as u16);
            if row_y >= list_area.bottom() {
                break;
            }
            let item = &self.rows[index];
            let selected = match self.selected {
                Some(s) => s == index,
                None => false,
            };
            let base = if selected { ctx.theme.selection_style() } else { text_style };
            if selected {
                let prev = surface.narrow(Rect::new(list_area.x, row_y, row_width, 1));
                surface.fill(base);
                surface.restore_clip(prev);
            }
            let caret = if selected { "› " } else { "  " };
            let mut x = surface.set_string(list_area.x, row_y, caret, base);
            x = surface.set_string(x, row_y, item.label.as_str(), base);
            match &item.detail {
                Some(detail) => {
                    if x < list_area.x.saturating_add(row_width) {
                        let detail_style = if selected { base } else { ctx.theme.muted_style() };
                        x = surface.set_string(x, row_y, "  ", detail_style);
                        surface.set_string(x, row_y, detail.as_str(), detail_style);
                    }
                },
                None => {},
            }
            index = index + 1;
        }
        if overflow && row_width < list_area.width {
            let len = window.len();
            let h = if (list_area.height as usize) < len { list_area.height } else { len as u16 };
            let bar = Scrollbar::vertical(window);
            crate::view::View::render(&bar, Rect::new(list_area.right() - 1, list_area.y, 1, h), surface, ctx);
        }
    }
}


} // verus!
