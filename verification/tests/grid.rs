use tuika::buffer::Buffer;
use tuika::components::grid::Grid;
use tuika::components::text::Text;
use tuika::geometry::{Padding, Position, Rect, Size};
use tuika::style::Theme;
use tuika::surface::Surface;
use tuika::text::Line;
use tuika::view::{RenderCtx, View};

fn ctx() -> RenderCtx {
    RenderCtx::new(&Theme::default())
}

#[test]
fn grid_rounds_track_boundaries_without_losing_cells() {
    let grid = Grid::new(3).cell(Text::raw("a")).cell(Text::raw("b")).cell(Text::raw("c"));
    let rects = grid.solve(Rect::new(0, 0, 10, 1), &ctx());
    assert_eq!(rects.iter().map(|rect| rect.width).collect::<Vec<_>>(), [3, 3, 4]);
    assert_eq!(rects.last().unwrap().right(), 10);
}

#[test]
fn rows_are_as_tall_as_their_tallest_cell() {
    let grid = Grid::new(2)
        .cell(Text::new(vec![Line::raw("a"), Line::raw("b")]))
        .cell(Text::raw("c"))
        .cell(Text::raw("d"));
    let rects = grid.solve(Rect::new(0, 0, 10, 10), &ctx());
    assert_eq!(
        rects,
        vec![Rect::new(0, 0, 5, 2), Rect::new(5, 0, 5, 2), Rect::new(0, 2, 5, 1)]
    );
}

#[test]
fn gaps_and_padding_shift_the_tracks() {
    let grid = Grid::new(2)
        .gap(1)
        .padding(Padding::all(1))
        .cell(Text::raw("a"))
        .cell(Text::raw("b"))
        .cell(Text::raw("c"));
    let rects = grid.solve(Rect::new(0, 0, 11, 6), &ctx());
    assert_eq!(
        rects,
        vec![Rect::new(1, 1, 4, 1), Rect::new(6, 1, 4, 1), Rect::new(1, 3, 4, 1)]
    );
}

#[test]
fn rows_past_the_bottom_are_clamped_to_it() {
    let grid = Grid::new(1).cell(Text::raw("a")).cell(Text::raw("b")).cell(Text::raw("c"));
    let rects = grid.solve(Rect::new(0, 0, 4, 2), &ctx());
    assert_eq!(
        rects,
        vec![Rect::new(0, 0, 4, 1), Rect::new(0, 1, 4, 1), Rect::new(0, 2, 4, 0)]
    );
}

#[test]
fn zero_columns_means_one() {
    let grid = Grid::new(0).cell(Text::raw("a")).cell(Text::raw("b"));
    let rects = grid.solve(Rect::new(0, 0, 6, 4), &ctx());
    assert_eq!(rects, vec![Rect::new(0, 0, 6, 1), Rect::new(0, 1, 6, 1)]);
}

#[test]
fn empty_grid_places_nothing_and_measures_its_padding() {
    let grid: Grid<Text> = Grid::new(2).padding(Padding::symmetric(2, 1));
    assert!(grid.solve(Rect::new(0, 0, 10, 10), &ctx()).is_empty());
    assert_eq!(grid.measure(Size::new(10, 10), &ctx()), Size::new(4, 2));
}

#[test]
fn place_uses_the_given_row_heights() {
    let grid = Grid::new(2).row_gap(1).cell(Text::raw("a")).cell(Text::raw("b")).cell(Text::raw("c"));
    let rects = grid.place(Rect::new(0, 0, 8, 10), &[3, 2]);
    assert_eq!(
        rects,
        vec![Rect::new(0, 0, 4, 3), Rect::new(4, 0, 4, 3), Rect::new(0, 4, 4, 2)]
    );
}

#[test]
fn measure_spans_the_cells_and_clamps_to_the_available_space() {
    let grid = Grid::new(2).column_gap(2).cell(Text::raw("ab")).cell(Text::raw("c"));
    assert_eq!(grid.measure(Size::new(10, 5), &ctx()), Size::new(10, 1));
    let tall = Grid::new(1).cell(Text::raw("a")).cell(Text::raw("b")).cell(Text::raw("c"));
    assert_eq!(tall.measure(Size::new(3, 2), &ctx()), Size::new(3, 2));
}

#[test]
fn render_draws_each_cell_in_its_rectangle() {
    let grid = Grid::new(2).cell(Text::raw("left")).cell(Text::raw("right"));
    let area = Rect::new(0, 0, 10, 1);
    let mut surface = Surface::new(Buffer::empty(area), area);
    grid.render(area, &mut surface, &ctx());
    let buffer = surface.into_buffer();
    let row: String = (0..10)
        .map(|x| buffer.cell(Position::new(x, 0)).unwrap().symbol().to_string())
        .collect();
    assert_eq!(row, "left right");
}
