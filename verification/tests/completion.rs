use tuika::buffer::{Buffer, Cell};
use tuika::components::completion::{fuzzy_score, CompletionItem, CompletionPalette, CompletionState};
use tuika::components::dialog_presets::{
    ChoiceDialog, ChoiceDialogState, ConfirmDialog, ConfirmDialogState, DialogCopy,
    MultiChoiceDialog, MultiChoiceDialogState,
};
use tuika::event::{Event, InputOutcome, Key, KeyCode};
use tuika::geometry::{Position, Rect, Size};
use tuika::style::{CodeTheme, Color, Theme};
use tuika::surface::Surface;
use tuika::view::{RenderCtx, View};

fn at(buffer: &Buffer, x: u16, y: u16) -> &Cell {
    buffer
        .cell(Position::new(x, y))
        .expect("position out of the buffer's area")
}

fn grid(buffer: &Buffer) -> String {
    (buffer.area.y..buffer.area.bottom())
        .map(|y| {
            (buffer.area.x..buffer.area.right())
                .map(|x| at(buffer, x, y).symbol().to_string())
                .collect::<String>()
        })
        .collect::<Vec<_>>()
        .join("\n")
}

fn render<V: View>(view: &V, width: u16, height: u16, theme: &Theme) -> Buffer {
    let buffer = Buffer::empty(Rect::new(0, 0, width, height));
    let area = buffer.area;
    let mut surface = Surface::new(buffer, area);
    view.render(area, &mut surface, &RenderCtx::new(theme));
    surface.into_buffer()
}

fn rainbow_theme() -> Theme {
    Theme {
        text: Color::Indexed(1),
        muted: Color::Indexed(2),
        dim: Color::Indexed(3),
        accent: Color::Indexed(4),
        border: Color::Indexed(5),
        border_focused: Color::Indexed(9),
        surface: Color::Indexed(6),
        selection_bg: Color::Indexed(7),
        selection_fg: Color::Indexed(8),
        code: CodeTheme::new(),
    }
}

fn key(code: KeyCode) -> Event {
    Event::Key(Key::new(code))
}

fn items() -> Vec<CompletionItem> {
    vec![
        CompletionItem::new("status").detail("show session configuration"),
        CompletionItem::new("approvals")
            .detail("change approval policy")
            .keyword("permissions"),
        CompletionItem::new("model").replacement("model gpt-5"),
    ]
}

#[test]
fn sync_ranks_prefix_substring_keyword_and_fuzzy_matches() {
    let items = items();
    let mut state = CompletionState::new();
    state.sync("sta", &items);
    assert_eq!(state.matched_indices(), &[0]);
    state.sync("permissions", &items);
    assert_eq!(state.matched_indices(), &[1]);
    state.sync("aprv", &items);
    assert_eq!(state.matched_indices(), &[1]);
    state.sync("", &items);
    assert_eq!(state.matched_indices(), &[0, 1, 2]);
}

#[test]
fn changed_query_resets_selection_and_same_query_preserves_item() {
    let mut items = items();
    let mut state = CompletionState::new();
    state.sync("", &items);
    assert_eq!(state.handle(&key(KeyCode::Down)), InputOutcome::Changed);
    assert_eq!(
        state.selected(&items).map(CompletionItem::label),
        Some("approvals")
    );

    items.insert(0, CompletionItem::new("about"));
    state.sync("", &items);
    assert_eq!(
        state.selected(&items).map(CompletionItem::label),
        Some("approvals")
    );

    state.sync("mod", &items);
    assert_eq!(
        state.selected(&items).map(CompletionItem::label),
        Some("model")
    );
}

#[test]
fn navigation_submits_and_empty_results_ignore_input() {
    let items = items();
    let mut state = CompletionState::new();
    state.sync("", &items);
    assert_eq!(state.handle(&key(KeyCode::Enter)), InputOutcome::Submitted);
    assert_eq!(state.selected(&items).unwrap().replacement_text(), "status");

    state.sync("missing", &items);
    assert_eq!(state.handle(&key(KeyCode::Down)), InputOutcome::Ignored);
    assert!(state.selected(&items).is_none());
}

#[test]
fn fuzzy_scoring_orders_exact_before_prefix_before_subsequence() {
    assert_eq!(fuzzy_score("model", "model"), Some(0));
    assert_eq!(fuzzy_score("models", "model"), Some(1));
    assert!(fuzzy_score("my model", "model").unwrap() >= 10);
    assert!(fuzzy_score("multi option dialog", "mod").unwrap() >= 100);
    assert_eq!(fuzzy_score("status", "xyz"), None);
}

#[test]
fn fuzzy_scores_have_exact_values() {
    // Case and surrounding whitespace in the query are ignored.
    assert_eq!(fuzzy_score("Model", "  MODEL "), Some(0));
    // A substring scores 10 plus its byte offset.
    assert_eq!(fuzzy_score("my model", "model"), Some(13));
    assert_eq!(fuzzy_score("é model", "model"), Some(13));
    // A subsequence scores 100 plus the characters skipped between matches.
    assert_eq!(fuzzy_score("multi option dialog", "mod"), Some(100 + 5 + 6));
    assert_eq!(fuzzy_score("anything", ""), Some(0));
}

#[test]
fn item_accessors_and_builders() {
    let item = CompletionItem::new("model")
        .detail("pick one")
        .replacement("model gpt-5")
        .keyword("llm");
    assert_eq!(item.label(), "model");
    assert_eq!(item.detail_text(), Some("pick one"));
    assert_eq!(item.replacement_text(), "model gpt-5");
    assert_eq!(CompletionItem::new("x").detail_text(), None);
    assert_eq!(CompletionItem::new("x").replacement_text(), "x");
}

#[test]
fn ranking_breaks_score_ties_by_collection_order() {
    let items = vec![
        CompletionItem::new("beta"),
        CompletionItem::new("alpha"),
        CompletionItem::new("b"),
    ];
    let mut state = CompletionState::new();
    // "b" is an exact match for item 2 (score 0) and a prefix of item 0
    // (score 1); item 1 holds "b" only as a subsequence... it has none.
    state.sync("b", &items);
    assert_eq!(state.matched_indices(), &[2, 0]);
    state.sync("a", &items);
    // alpha (prefix, 1) before beta (substring at byte 3, 13).
    assert_eq!(state.matched_indices(), &[1, 0]);
    assert_eq!(state.len(), 2);
    assert!(!state.is_empty());
    assert_eq!(state.query(), "a");
    assert_eq!(state.selected_index(), Some(1));
}

#[test]
fn confirm_defaults_safe_and_submits_selected_action() {
    let mut state = ConfirmDialogState::new();
    assert!(!state.confirmed());
    assert_eq!(state.handle(&key(KeyCode::Right)), InputOutcome::Changed);
    assert!(state.confirmed());
    assert_eq!(state.handle(&key(KeyCode::Enter)), InputOutcome::Submitted);
    assert_eq!(state.handle(&key(KeyCode::Esc)), InputOutcome::Cancelled);
}

#[test]
fn choice_and_multi_choice_keep_values_in_host_state() {
    let mut choice = ChoiceDialogState::new();
    assert_eq!(choice.handle(&key(KeyCode::Down), 3), InputOutcome::Changed);
    assert_eq!(choice.selected(), Some(1));
    assert_eq!(choice.handle(&key(KeyCode::Enter), 3), InputOutcome::Submitted);

    let mut multi = MultiChoiceDialogState::new();
    assert_eq!(multi.handle(&key(KeyCode::Char(' ')), 3), InputOutcome::Changed);
    assert!(multi.contains(0));
    assert_eq!(multi.handle(&key(KeyCode::Enter), 3), InputOutcome::Submitted);
    assert_eq!(multi.selected(), vec![0]);
}

#[test]
fn dialog_builders_snapshot_state_and_size_to_options() {
    let mut confirm_state = ConfirmDialogState::new();
    let _ = confirm_state.handle(&key(KeyCode::Right));
    let confirm = ConfirmDialog::new("Apply changes?", "Update three files?", &confirm_state)
        .confirm_label("Apply")
        .size(40, 9)
        .dim_backdrop(false)
        .focus_owner("confirm");
    assert_eq!(confirm.selected, 1);
    assert_eq!(confirm.cancel_label, "Cancel");
    assert_eq!(confirm.confirm_label, "Apply");
    assert_eq!((confirm.width, confirm.height), (40, 9));
    assert!(!confirm.dim);
    assert_eq!(confirm.owner.as_deref(), Some("confirm"));

    let choice = ChoiceDialog::new(
        "Model",
        "Choose a model",
        vec!["Fast".to_string(), "Deep".to_string()],
        &ChoiceDialogState::new(),
    );
    assert_eq!((choice.width, choice.height, choice.viewport), (56, 8, 8));
    assert_eq!(choice.selected, Some(0));
    assert_eq!(choice.viewport(0).viewport, 1);

    let many: Vec<String> = (0..20).map(|i| format!("option {i}")).collect();
    let mut multi_state = MultiChoiceDialogState::new();
    let _ = multi_state.handle(&key(KeyCode::Char(' ')), 20);
    let multi = MultiChoiceDialog::new("Tools", "Allow tools", many, &multi_state);
    assert_eq!(multi.height, 14);
    assert_eq!(multi.checked, vec![0]);
    assert_eq!(multi.cursor, Some(0));
}

#[test]
fn dialog_copy_wraps_each_paragraph() {
    let copy = DialogCopy::new("one two three\n\nfour".to_string());
    assert_eq!(copy.lines(7), vec!["one two", "three", "", "four"]);
    assert!(copy.lines(0).is_empty());
    let size = copy.measure(Size::new(7, 3), &RenderCtx::new(&Theme::default()));
    assert_eq!((size.width, size.height), (7, 3));
}

#[test]
fn palette_renders_query_rows_and_empty_state() {
    let items = items();
    let mut state = CompletionState::new();
    state.sync("app", &items);
    let palette = CompletionPalette::new(&items, &state)
        .title("Commands")
        .show_query(true);
    let rendered = grid(&render(&palette, 42, 5, &Theme::default()));
    assert!(rendered.contains("Commands"));
    assert!(rendered.contains("› app"));
    assert!(rendered.contains("approvals"));

    state.sync("none", &items);
    let empty = CompletionPalette::new(&items, &state).empty_message("Nothing found");
    assert!(grid(&render(&empty, 24, 3, &Theme::default())).contains("Nothing found"));
}

#[test]
fn palette_handles_tiny_sizes() {
    let items = items();
    let mut state = CompletionState::new();
    state.sync("", &items);
    for width in 0..5 {
        for height in 0..4 {
            let _ = render(&CompletionPalette::new(&items, &state), width, height, &Theme::default());
        }
    }
}

#[test]
fn palette_uses_theme_slots_for_chrome_selection_and_details() {
    let items = items();
    let mut state = CompletionState::new();
    state.sync("", &items);
    let theme = rainbow_theme();
    let buffer = render(&CompletionPalette::new(&items, &state), 42, 5, &theme);

    assert_eq!(at(&buffer, 0, 0).fg, theme.border);
    assert_eq!(at(&buffer, 2, 1).fg, theme.selection_fg);
    assert_eq!(at(&buffer, 2, 1).bg, theme.selection_bg);
    assert_eq!(at(&buffer, 4, 2).fg, theme.text);
    assert_eq!(at(&buffer, 15, 2).fg, theme.muted);
}

#[test]
fn palette_snapshots_matches_and_measures_its_rows() {
    let items = items();
    let mut state = CompletionState::new();
    state.sync("", &items);
    let palette = CompletionPalette::new(&items, &state).viewport(0);
    assert_eq!(palette.viewport, 1);
    assert_eq!(palette.rows.len(), 3);
    assert_eq!(palette.title, " Completions ");
    // Widest row: caret + "status" + "  show session configuration", plus
    // the frame's border and padding; one visible row plus the border.
    let size = palette.measure(Size::new(80, 20), &RenderCtx::new(&Theme::default()));
    assert_eq!((size.width, size.height), (2 + 6 + 2 + 26 + 4, 3));
}

#[test]
fn score_order_is_total_and_stable() {
    let mut ranked = [(2usize, 1usize), (0, 1), (1, 0)];
    ranked.sort_by(|(left_index, left_score), (right_index, right_score)| {
        let ordering: std::cmp::Ordering = left_score.cmp(right_score).then_with(|| left_index.cmp(right_index));
        ordering
    });
    assert_eq!(ranked, [(1, 0), (0, 1), (2, 1)]);
}
