use termica::block::BlockId;
use termica::block_selection::BlockCursor;
use termica::pane_selection::{
    extend_multiclick_selection_endpoints, pane_selection_text, BlockSlice, PaneCursor,
    PaneSelection,
};
use termica::terminal::{Color, NamedColor, StyledCell, StyledLine};

fn cell(c: char) -> StyledCell {
    StyledCell {
        c,
        fg: Color::Named(NamedColor::Foreground),
        bg: Color::Named(NamedColor::Background),
        flags: 0,
    }
}

fn line(s: &str) -> StyledLine {
    StyledLine { cells: s.chars().map(cell).collect() }
}

fn snap(rows: &[&str]) -> Vec<StyledLine> {
    rows.iter().map(|r| line(r)).collect()
}

fn pc(block_id: u64, row: usize, col: usize) -> PaneCursor {
    PaneCursor::new(BlockId(block_id), row, col)
}

fn sel(anchor: PaneCursor, head: PaneCursor) -> PaneSelection {
    PaneSelection::new(anchor, head)
}

#[test]
fn pane_cursor_orders_by_block_id_first() {
    assert!(pc(1, 100, 100) < pc(2, 0, 0));
}

#[test]
fn pane_cursor_within_same_block_orders_by_row_then_col() {
    assert!(pc(5, 0, 99) < pc(5, 1, 0));
    assert!(pc(5, 1, 3) < pc(5, 1, 4));
}

#[test]
fn pane_selection_ordered_returns_endpoints_in_pane_order() {
    let s = sel(pc(2, 0, 0), pc(1, 0, 0));
    let (start, end) = s.ordered();
    assert_eq!(start, pc(1, 0, 0));
    assert_eq!(end, pc(2, 0, 0));
}

#[test]
fn pane_selection_already_ordered_passes_through() {
    let s = sel(pc(1, 0, 0), pc(2, 3, 4));
    let (start, end) = s.ordered();
    assert_eq!(start, pc(1, 0, 0));
    assert_eq!(end, pc(2, 3, 4));
}

#[test]
fn pane_selection_is_empty_when_anchor_equals_head() {
    let s = sel(pc(1, 2, 3), pc(1, 2, 3));
    assert!(s.is_empty());
}

#[test]
fn pane_selection_is_within_one_block_iff_same_block_id() {
    assert!(sel(pc(1, 0, 0), pc(1, 5, 9)).is_within_one_block());
    assert!(!sel(pc(1, 0, 0), pc(2, 0, 0)).is_within_one_block());
}

#[test]
fn block_range_for_above_selection_returns_none() {
    let s = sel(pc(5, 0, 0), pc(7, 3, 4));
    assert!(s.block_range_for(BlockId(4), 10).is_none());
}

#[test]
fn block_range_for_below_selection_returns_none() {
    let s = sel(pc(5, 0, 0), pc(7, 3, 4));
    assert!(s.block_range_for(BlockId(8), 10).is_none());
}

#[test]
fn block_range_for_within_one_block_returns_exact_range() {
    let s = sel(pc(5, 1, 3), pc(5, 4, 7));
    let (start, end) = s.block_range_for(BlockId(5), 10).unwrap();
    assert_eq!(start, BlockCursor::new(1, 3));
    assert_eq!(end, BlockCursor::new(4, 7));
}

#[test]
fn block_range_for_start_block_runs_from_anchor_to_end_of_block() {
    let s = sel(pc(5, 2, 3), pc(7, 1, 0));
    let (start, end) = s.block_range_for(BlockId(5), 8).unwrap();
    assert_eq!(start, BlockCursor::new(2, 3));
    assert_eq!(end.row, 7);
    assert_eq!(end.col, usize::MAX);
}

#[test]
fn block_range_for_middle_block_runs_full_block() {
    let s = sel(pc(5, 0, 0), pc(7, 0, 0));
    let (start, end) = s.block_range_for(BlockId(6), 4).unwrap();
    assert_eq!(start, BlockCursor::new(0, 0));
    assert_eq!(end.row, 3);
    assert_eq!(end.col, usize::MAX);
}

#[test]
fn block_range_for_end_block_runs_from_block_start_to_head() {
    let s = sel(pc(5, 0, 0), pc(7, 2, 5));
    let (start, end) = s.block_range_for(BlockId(7), 10).unwrap();
    assert_eq!(start, BlockCursor::new(0, 0));
    assert_eq!(end, BlockCursor::new(2, 5));
}

#[test]
fn block_range_for_empty_selection_returns_none() {
    let s = sel(pc(5, 1, 2), pc(5, 1, 2));
    assert!(s.block_range_for(BlockId(5), 10).is_none());
}

#[test]
fn block_range_for_reverse_selection_normalises_via_ordered() {
    let s = sel(pc(7, 2, 0), pc(5, 1, 4));
    let (start, end) = s.block_range_for(BlockId(6), 5).unwrap();
    assert_eq!(start, BlockCursor::new(0, 0));
    assert_eq!(end.row, 4);
}

#[test]
fn pane_selection_text_empty_for_degenerate_selection() {
    let s = sel(pc(1, 0, 0), pc(1, 0, 0));
    let block = snap(&["hello"]);
    let blocks = vec![BlockSlice::new(BlockId(1), "", &block)];
    assert_eq!(pane_selection_text(&blocks, &s), "");
}

#[test]
fn pane_selection_text_within_one_block_matches_block_selection() {
    let snapshot = snap(&["hello world", "second line"]);
    let s = sel(pc(1, 0, 6), pc(1, 1, 6));
    let blocks = vec![BlockSlice::new(BlockId(1), "", &snapshot)];
    assert_eq!(pane_selection_text(&blocks, &s), "world\nsecond");
}

#[test]
fn pane_selection_text_spans_two_blocks() {
    let snap1 = snap(&["abc", "def"]);
    let snap2 = snap(&["ghi"]);
    let blocks =
        vec![BlockSlice::new(BlockId(1), "", &snap1), BlockSlice::new(BlockId(2), "", &snap2)];
    let s = sel(pc(1, 0, 2), pc(2, 0, 2));
    assert_eq!(pane_selection_text(&blocks, &s), "c\ndef\ngh");
}

#[test]
fn pane_selection_text_spans_three_blocks_with_middle_full() {
    let snap1 = snap(&["alpha", "beta"]);
    let snap2 = snap(&["gamma"]);
    let snap3 = snap(&["delta"]);
    let blocks = vec![
        BlockSlice::new(BlockId(1), "", &snap1),
        BlockSlice::new(BlockId(2), "", &snap2),
        BlockSlice::new(BlockId(3), "", &snap3),
    ];
    let s = sel(pc(1, 0, 3), pc(3, 0, 4));
    assert_eq!(pane_selection_text(&blocks, &s), "ha\nbeta\ngamma\ndelt");
}

#[test]
fn pane_selection_text_reverse_drag_yields_same_payload() {
    let snap1 = snap(&["abc"]);
    let snap2 = snap(&["def"]);
    let blocks =
        vec![BlockSlice::new(BlockId(1), "", &snap1), BlockSlice::new(BlockId(2), "", &snap2)];
    let forward = sel(pc(1, 0, 0), pc(2, 0, 3));
    let backward = sel(pc(2, 0, 3), pc(1, 0, 0));
    assert_eq!(pane_selection_text(&blocks, &forward), pane_selection_text(&blocks, &backward));
    assert_eq!(pane_selection_text(&blocks, &forward), "abc\ndef");
}

#[test]
fn pane_selection_text_handles_command_lines_in_start_block() {
    let snap1 = snap(&["out"]);
    let snap2 = snap(&["xyz"]);
    let blocks = vec![
        BlockSlice::new(BlockId(1), "echo a\necho b", &snap1),
        BlockSlice::new(BlockId(2), "", &snap2),
    ];
    let s = sel(pc(1, 0, 5), pc(2, 0, 3));
    assert_eq!(pane_selection_text(&blocks, &s), "a\necho b\nout\nxyz");
}

#[test]
fn pane_selection_text_skips_unselected_blocks() {
    let snap1 = snap(&["one"]);
    let snap2 = snap(&["two"]);
    let snap3 = snap(&["three"]);
    let snap5 = snap(&["five"]);
    let blocks = vec![
        BlockSlice::new(BlockId(1), "", &snap1),
        BlockSlice::new(BlockId(2), "", &snap2),
        BlockSlice::new(BlockId(3), "", &snap3),
        BlockSlice::new(BlockId(5), "", &snap5),
    ];
    let s = sel(pc(2, 0, 0), pc(3, 0, 5));
    assert_eq!(pane_selection_text(&blocks, &s), "two\nthree");
}

#[test]
fn pane_selection_text_single_block_falls_through_to_within_block_helper() {
    let snap1 = snap(&["hello   "]);
    let blocks = vec![BlockSlice::new(BlockId(7), "", &snap1)];
    let s = sel(pc(7, 0, 0), pc(7, 0, 8));
    assert_eq!(pane_selection_text(&blocks, &s), "hello");
}

fn bc(row: usize, col: usize) -> BlockCursor {
    BlockCursor::new(row, col)
}

#[test]
fn extend_multiclick_same_block_unions_word_ranges() {
    let anchor = BlockId(5);
    let a_bounds = (bc(0, 0), bc(0, 3));
    let h_bounds = (bc(0, 10), bc(0, 15));
    let (anc, head) = extend_multiclick_selection_endpoints(anchor, a_bounds, anchor, h_bounds);
    assert_eq!(anc, PaneCursor::new(BlockId(5), 0, 0));
    assert_eq!(head, PaneCursor::new(BlockId(5), 0, 15));
}

#[test]
fn extend_multiclick_same_block_reverse_drag_unions_outward() {
    let b = BlockId(5);
    let a_bounds = (bc(2, 10), bc(2, 15));
    let h_bounds = (bc(0, 0), bc(0, 3));
    let (anc, head) = extend_multiclick_selection_endpoints(b, a_bounds, b, h_bounds);
    assert_eq!(anc, PaneCursor::new(BlockId(5), 0, 0));
    assert_eq!(head, PaneCursor::new(BlockId(5), 2, 15));
}

#[test]
fn extend_multiclick_cross_block_forward_keeps_both_full_words() {
    let a_bounds = (bc(0, 0), bc(0, 3));
    let h_bounds = (bc(0, 10), bc(0, 15));
    let (anc, head) =
        extend_multiclick_selection_endpoints(BlockId(5), a_bounds, BlockId(7), h_bounds);
    assert_eq!(anc, PaneCursor::new(BlockId(5), 0, 0));
    assert_eq!(head, PaneCursor::new(BlockId(7), 0, 15));
}

#[test]
fn extend_multiclick_cross_block_backward_keeps_both_full_words() {
    let a_bounds = (bc(0, 10), bc(0, 15));
    let h_bounds = (bc(0, 0), bc(0, 3));
    let (anc, head) =
        extend_multiclick_selection_endpoints(BlockId(7), a_bounds, BlockId(5), h_bounds);
    assert_eq!(anc, PaneCursor::new(BlockId(7), 0, 15));
    assert_eq!(head, PaneCursor::new(BlockId(5), 0, 0));

    let s = PaneSelection::new(anc, head);
    let (start, end) = s.ordered();
    assert_eq!(start.block_id, BlockId(5));
    assert_eq!(end.block_id, BlockId(7));
    assert_eq!(end.col, 15, "block 7 selection ends at the word's right edge");
}

#[test]
fn extend_multiclick_cross_block_with_degenerate_head_bounds_uses_pointer_col() {
    let a_bounds = (bc(0, 0), bc(0, 3));
    let h_bounds = (bc(0, 7), bc(0, 7));
    let (anc, head) =
        extend_multiclick_selection_endpoints(BlockId(5), a_bounds, BlockId(7), h_bounds);
    assert_eq!(anc, PaneCursor::new(BlockId(5), 0, 0));
    assert_eq!(head, PaneCursor::new(BlockId(7), 0, 7));
}

#[test]
fn extend_multiclick_line_mode_uses_same_far_edge_rule() {
    let a_bounds = (bc(0, 0), bc(0, 20));
    let h_bounds = (bc(2, 0), bc(2, 14));
    let (anc, head) =
        extend_multiclick_selection_endpoints(BlockId(5), a_bounds, BlockId(7), h_bounds);
    assert_eq!(anc, PaneCursor::new(BlockId(5), 0, 0));
    assert_eq!(head, PaneCursor::new(BlockId(7), 2, 14));
}

#[test]
fn a_block_range_is_clipped_to_the_block() {
    let cursor = |block: u64, row: usize, col: usize| PaneCursor::new(BlockId(block), row, col);
    let s = PaneSelection::new(cursor(5, 8, 0), cursor(7, 1, 0));
    let (start, end) = s.block_range_for(BlockId(5), 8).unwrap();
    assert_eq!(start, BlockCursor::new(7, usize::MAX));
    assert_eq!(end, BlockCursor::new(7, usize::MAX));
    let s = PaneSelection::new(cursor(5, 2, 3), cursor(5, 8, 0));
    let (start, end) = s.block_range_for(BlockId(5), 8).unwrap();
    assert_eq!(start, BlockCursor::new(2, 3));
    assert_eq!(end, BlockCursor::new(7, usize::MAX));
}
