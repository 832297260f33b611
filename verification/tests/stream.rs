use tuika::components::markdown::stream::stable_boundary;

#[test]
fn stable_boundary_never_splits_open_code_fence() {
    let src = "```\ncode\n\nmore code";
    assert_eq!(stable_boundary(src, 0), 0);
    let closed = "```\ncode\n```\n\nafter";
    assert!(stable_boundary(closed, 0) > 0);
}

#[test]
fn a_fence_line_with_an_info_string_does_not_close_a_fence() {
    assert_eq!(stable_boundary("```\n```rust\ncode\n\nmore", 0), 0);
    assert_eq!(stable_boundary("````\n```\ncode\n\nmore", 0), 0);
    assert!(stable_boundary("```\ncode\n`````\n\nafter", 0) > 0);
    assert_eq!(stable_boundary("~~~\n```\ncode\n\nmore", 0), 0);
}

#[test]
fn a_blank_line_between_list_items_does_not_settle_the_prefix() {
    assert_eq!(stable_boundary("1. one\n\n2. two\n", 0), 0);
    assert_eq!(stable_boundary("- one\nlazy continuation\n\n- two\n", 0), 0);
    let ended = "- one\n\nparagraph\n";
    assert_eq!(stable_boundary(ended, 0), "- one\n\n".len());
    assert_eq!(stable_boundary("- one\n\n  still the item\n", 0), 0);
}

#[test]
fn an_in_flight_line_does_not_end_a_list() {
    let settled = "1. one\n\n";
    assert_eq!(stable_boundary(&format!("{settled}1"), 0), 0);
    assert_eq!(stable_boundary(&format!("{settled}1. two\n"), 0), 0);
    assert_eq!(
        stable_boundary(&format!("{settled}paragraph\n"), 0),
        settled.len()
    );
}

#[test]
fn boundary_sits_just_past_the_last_blank_line() {
    let src = "First paragraph.\n\nSecond a";
    assert_eq!(stable_boundary(src, 0), "First paragraph.\n\n".len());
    let two = "a\n\nb\n\nc";
    assert_eq!(stable_boundary(two, 0), "a\n\nb\n\n".len());
}

#[test]
fn an_unterminated_blank_tail_settles_nothing() {
    assert_eq!(stable_boundary("para\n   ", 0), 0);
    assert_eq!(stable_boundary("", 0), 0);
}

#[test]
fn scanning_starts_at_the_given_offset() {
    let src = "a\n\nb\n\nc";
    assert_eq!(stable_boundary(src, 3), 6);
    assert_eq!(stable_boundary(src, 6), 6);
    assert_eq!(stable_boundary(src, src.len()), src.len());
}

#[test]
fn offsets_count_bytes_of_wide_characters() {
    let src = "é\n\nx";
    assert_eq!(stable_boundary(src, 0), 4);
    let fenced = "~~~~ ✓\n\n~~~\n\n";
    assert_eq!(stable_boundary(fenced, 0), 0);
}
