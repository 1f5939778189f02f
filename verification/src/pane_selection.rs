//! Selecting text across the blocks of a pane.

use vstd::prelude::*;

use crate::block::BlockId;
use crate::block_selection::{
    block_rows, block_selection_text, command_lines, cursor_le, cursor_not_after, output_rows,
    selected_piece, selected_rows_text, selected_upto, split_command, BlockCursor, BlockSelection,
};
use crate::terminal::StyledLine;

verus! {

/// A position in a pane: a block and a position in it.
#[derive(Debug, Clone, Copy, PartialEq, Eq, PartialOrd, Ord, Structural)]
pub struct PaneCursor {
    pub block_id: BlockId,
    pub row: usize,
    pub col: usize,
}

/// Does `a` stand before `b`, or at it, in the pane's reading order: by block,
/// then row, then column?
pub open spec fn pane_le(a: PaneCursor, b: PaneCursor) -> bool {
    a.block_id.0 < b.block_id.0 || (a.block_id.0 == b.block_id.0 && (a.row < b.row || (a.row
        == b.row && a.col <= b.col)))
}

/// Does `a` stand before `b`, or at it, in the pane's reading order?
pub fn pane_not_after(a: PaneCursor, b: PaneCursor) -> (r: bool)
    ensures
        r == pane_le(a, b),
{
    a.block_id.0 < b.block_id.0 || (a.block_id.0 == b.block_id.0 && (a.row < b.row || (a.row
        == b.row && a.col <= b.col)))
}

/// The position `bc` of block `block_id`.
pub open spec fn pane_cursor(block_id: BlockId, bc: BlockCursor) -> PaneCursor {
    PaneCursor { block_id, row: bc.row, col: bc.col }
}

impl PaneCursor {
    /// The position at a row and a column of a block.
    pub fn new(block_id: BlockId, row: usize, col: usize) -> (r: PaneCursor)
        ensures
            r == (PaneCursor { block_id, row, col }),
    {
        PaneCursor { block_id, row, col }
    }

    /// The position `bc` of a block.
    pub fn in_block(block_id: BlockId, bc: BlockCursor) -> (r: PaneCursor)
        ensures
            r == pane_cursor(block_id, bc),
    {
        PaneCursor { block_id, row: bc.row, col: bc.col }
    }
}

/// A selection in a pane. `anchor` is where it began, `head` follows the
/// pointer; either may come first.
#[derive(Debug, Clone, Copy, PartialEq, Eq, Structural)]
pub struct PaneSelection {
    pub anchor: PaneCursor,
    pub head: PaneCursor,
}

/// The two ends of a selection in reading order.
pub open spec fn ordered_ends(s: PaneSelection) -> (PaneCursor, PaneCursor) {
    if pane_le(s.anchor, s.head) {
        (s.anchor, s.head)
    } else {
        (s.head, s.anchor)
    }
}

/// The end of a block of `total_rows` rows: behind the last column of its last
/// row.
pub open spec fn block_end(total_rows: usize) -> BlockCursor {
    BlockCursor {
        row: if total_rows > 0 {
            (total_rows - 1) as usize
        } else {
            0
        },
        col: usize::MAX,
    }
}

/// The position, or the end of the block where it lies behind that.
pub open spec fn clipped(c: BlockCursor, total_rows: usize) -> BlockCursor {
    earlier(c, block_end(total_rows))
}

/// The part of a selection that lies in block `block_id`, which has
/// `total_rows` rows, clipped to those rows. A block between the two ends is
/// selected whole.
pub open spec fn block_part(s: PaneSelection, block_id: BlockId, total_rows: usize) -> Option<
    (BlockCursor, BlockCursor),
> {
    let (start, end) = ordered_ends(s);
    if s.anchor == s.head || block_id.0 < start.block_id.0 || block_id.0 > end.block_id.0 {
        None
    } else {
        Some(
            (
                if block_id == start.block_id {
                    clipped(BlockCursor { row: start.row, col: start.col }, total_rows)
                } else {
                    BlockCursor { row: 0, col: 0 }
                },
                if block_id == end.block_id {
                    clipped(BlockCursor { row: end.row, col: end.col }, total_rows)
                } else {
                    block_end(total_rows)
                },
            ),
        )
    }
}

/// The position, or the end of the block where it lies behind that.
fn clip(c: BlockCursor, total_rows: usize) -> (r: BlockCursor)
    ensures
        r == clipped(c, total_rows),
{
    let row: usize = if total_rows > 0 {
        total_rows - 1
    } else {
        0
    };
    let end = BlockCursor::new(row, usize::MAX);
    if cursor_not_after(c, end) {
        c
    } else {
        end
    }
}

impl PaneSelection {
    /// The selection from `anchor` to `head`.
    pub fn new(anchor: PaneCursor, head: PaneCursor) -> (r: PaneSelection)
        ensures
            r == (PaneSelection { anchor, head }),
    {
        PaneSelection { anchor, head }
    }

    /// The two ends in reading order.
    pub fn ordered(&self) -> (r: (PaneCursor, PaneCursor))
        ensures
            r == ordered_ends(*self),
    {
        if pane_not_after(self.anchor, self.head) {
            (self.anchor, self.head)
        } else {
            (self.head, self.anchor)
        }
    }

    /// Does the selection cover nothing?
    pub fn is_empty(&self) -> (r: bool)
        ensures
            r == (self.anchor == self.head),
    {
        self.anchor == self.head
    }

    /// Are both ends in one block?
    pub fn is_within_one_block(&self) -> (r: bool)
        ensures
            r == (self.anchor.block_id == self.head.block_id),
    {
        self.anchor.block_id == self.head.block_id
    }

    /// The part of the selection that lies in block `block_id`, which has
    /// `block_total_rows` rows; `None` where none does. Its start is not behind
    /// its end, and both lie within the block.
    pub fn block_range_for(&self, block_id: BlockId, block_total_rows: usize) -> (r: Option<
        (BlockCursor, BlockCursor),
    >)
        ensures
            r == block_part(*self, block_id, block_total_rows),
            r matches Some((start, end)) ==> cursor_le(start, end) && cursor_le(
                end,
                block_end(block_total_rows),
            ),
    {
        if self.is_empty() {
            return None;
        }
        let (start, end) = self.ordered();
        if block_id.0 < start.block_id.0 || block_id.0 > end.block_id.0 {
            return None;
        }
        let first = if block_id == start.block_id {
            clip(BlockCursor::new(start.row, start.col), block_total_rows)
        } else {
            BlockCursor::new(0, 0)
        };
        let last = if block_id == end.block_id {
            clip(BlockCursor::new(end.row, end.col), block_total_rows)
        } else {
            clip(BlockCursor::new(usize::MAX, usize::MAX), block_total_rows)
        };
        Some((first, last))
    }
}

/// The earlier of two positions.
pub open spec fn earlier(a: BlockCursor, b: BlockCursor) -> BlockCursor {
    if cursor_le(a, b) {
        a
    } else {
        b
    }
}

/// The later of two positions.
pub open spec fn later(a: BlockCursor, b: BlockCursor) -> BlockCursor {
    if cursor_le(a, b) {
        b
    } else {
        a
    }
}

/// The ends of a selection that was begun on a word or line and dragged: each
/// end is the edge of its word or line that faces away from the other end.
pub open spec fn dragged_ends(
    anchor_block: BlockId,
    anchor: (BlockCursor, BlockCursor),
    head_block: BlockId,
    head: (BlockCursor, BlockCursor),
) -> (PaneCursor, PaneCursor) {
    if anchor_block == head_block {
        (
            pane_cursor(anchor_block, earlier(anchor.0, head.0)),
            pane_cursor(anchor_block, later(anchor.1, head.1)),
        )
    } else if head_block.0 > anchor_block.0 {
        (pane_cursor(anchor_block, anchor.0), pane_cursor(head_block, head.1))
    } else {
        (pane_cursor(anchor_block, anchor.1), pane_cursor(head_block, head.0))
    }
}

/// The ends of a selection that was begun on a word or line and dragged, given
/// the bounds of the word or line at either end.
pub fn extend_multiclick_selection_endpoints(
    anchor_block: BlockId,
    anchor_word_bounds: (BlockCursor, BlockCursor),
    head_block: BlockId,
    head_word_bounds: (BlockCursor, BlockCursor),
) -> (r: (PaneCursor, PaneCursor))
    ensures
        r == dragged_ends(anchor_block, anchor_word_bounds, head_block, head_word_bounds),
{
    let (a_start, a_end) = anchor_word_bounds;
    let (h_start, h_end) = head_word_bounds;
    if anchor_block == head_block {
        let start = if cursor_not_after(a_start, h_start) {
            a_start
        } else {
            h_start
        };
        let end = if cursor_not_after(a_end, h_end) {
            h_end
        } else {
            a_end
        };
        return (
            PaneCursor::in_block(anchor_block, start),
            PaneCursor::in_block(anchor_block, end),
        );
    }
    if head_block.0 > anchor_block.0 {
        (PaneCursor::in_block(anchor_block, a_start), PaneCursor::in_block(head_block, h_end))
    } else {
        (PaneCursor::in_block(anchor_block, a_end), PaneCursor::in_block(head_block, h_start))
    }
}

/// What a selection needs of a block: its number, its command and its output.
pub struct BlockSlice<'a> {
    pub block_id: BlockId,
    pub command: &'a str,
    pub snapshot: &'a [StyledLine],
}

/// The rows of a slice.
pub open spec fn slice_rows(b: BlockSlice<'_>) -> Seq<Seq<char>> {
    block_rows(b.command@, b.snapshot@)
}

/// There are fewer rows than a `usize` counts.
pub open spec fn countable(b: BlockSlice<'_>) -> bool {
    slice_rows(b).len() <= usize::MAX
}

impl<'a> BlockSlice<'a> {
    /// A block's number, command and output.
    pub fn new(block_id: BlockId, command: &'a str, snapshot: &'a [StyledLine]) -> (r: BlockSlice<
        'a,
    >)
        ensures
            r.block_id == block_id,
            r.command == command,
            r.snapshot == snapshot,
    {
        BlockSlice { block_id, command, snapshot }
    }

    /// The number of lines of the command, and of rows of the output.
    pub fn rows(&self) -> (r: (usize, usize))
        ensures
            r.0 == command_lines(self.command@).len(),
            r.1 == self.snapshot@.len(),
    {
        let lines = split_command(self.command);
        assert(crate::lines::runs_view(lines@).len() == lines@.len());
        (lines.len(), self.snapshot.len())
    }

    /// The number of rows in all.
    pub fn total_rows(&self) -> (r: usize)
        requires
            countable(*self),
        ensures
            r == slice_rows(*self).len(),
    {
        let (c, s) = self.rows();
        assert(output_rows(self.snapshot@).len() == self.snapshot@.len());
        c + s
    }
}

/// What a block gives to the text of a selection: nothing where no part of the
/// selection lies in it.
pub open spec fn block_text(b: BlockSlice<'_>, s: PaneSelection) -> Seq<char> {
    match block_part(s, b.block_id, slice_rows(b).len() as usize) {
        Some((start, end)) => selected_rows_text(slice_rows(b), start, end),
        None => Seq::empty(),
    }
}

/// The texts that are not empty, joined by newlines.
pub open spec fn join_texts(a: Seq<char>, b: Seq<char>) -> Seq<char> {
    if b.len() == 0 {
        a
    } else if a.len() == 0 {
        b
    } else {
        a.push('\n') + b
    }
}

/// The text of a selection over `blocks`, top to bottom.
pub open spec fn selection_text(blocks: Seq<BlockSlice<'_>>, s: PaneSelection) -> Seq<char>
    decreases blocks.len(),
{
    if blocks.len() == 0 {
        Seq::empty()
    } else {
        join_texts(selection_text(blocks.drop_last(), s), block_text(blocks.last(), s))
    }
}

/// The text that a selection covers in `blocks`, which are given top to
/// bottom. What the blocks give is joined by newlines; a block that gives
/// nothing is passed over.
pub fn pane_selection_text(blocks: &[BlockSlice<'_>], sel: &PaneSelection) -> (r: String)
    requires
        forall|i: int| 0 <= i < blocks@.len() ==> countable(#[trigger] blocks@[i]),
    ensures
        r@ == selection_text(blocks@, *sel),
{
    let mut out = String::new();
    let mut first = true;
    let mut i: usize = 0;
    while i < blocks.len()
        invariant
            i <= blocks@.len(),
            forall|k: int| 0 <= k < blocks@.len() ==> countable(#[trigger] blocks@[k]),
            out@ == selection_text(blocks@.take(i as int), *sel),
            first == (out@.len() == 0),
        decreases blocks@.len() - i,
    {
        let b = &blocks[i];
        assert(blocks@.take(i + 1).drop_last() =~= blocks@.take(i as int));
        assert(blocks@.take(i + 1).last() == blocks@[i as int]);
        assert(countable(blocks@[i as int]));
        let total: usize = b.total_rows();
        if let Some((start, end)) = sel.block_range_for(b.block_id, total) {
            let part = BlockSelection::new(b.block_id, start, end);
            let text = block_selection_text(b.command, b.snapshot, &part);
            if !text.as_str().is_empty() {
                let ghost before = out@;
                if !first {
                    out.push('\n');
                }
                vstd::string::StringExecFns::append(&mut out, text.as_str());
                first = false;
                assert(out@ =~= join_texts(before, text@));
            }
        }
        i += 1;
    }
    assert(blocks@.take(i as int) =~= blocks@);
    out
}

// ---- laws --------------------------------------------------------------

/// The reading order is a total order.
pub proof fn law_reading_order_is_total(a: PaneCursor, b: PaneCursor, c: PaneCursor)
    ensures
        pane_le(a, a),
        pane_le(a, b) || pane_le(b, a),
        pane_le(a, b) && pane_le(b, a) ==> a == b,
        pane_le(a, b) && pane_le(b, c) ==> pane_le(a, c),
{
}

/// The ends come out in reading order.
pub proof fn law_ordered_ends_are_ordered(s: PaneSelection)
    ensures
        pane_le(ordered_ends(s).0, ordered_ends(s).1),
{
}

/// Dragging backwards selects what dragging forwards does.
pub proof fn law_direction_does_not_matter(
    blocks: Seq<BlockSlice<'_>>,
    a: PaneCursor,
    b: PaneCursor,
)
    ensures
        selection_text(blocks, PaneSelection { anchor: a, head: b }) == selection_text(
            blocks,
            PaneSelection { anchor: b, head: a },
        ),
    decreases blocks.len(),
{
    law_reading_order_is_total(a, b, a);
    if blocks.len() > 0 {
        law_direction_does_not_matter(blocks.drop_last(), a, b);
    }
}

/// A selection that covers nothing has no text.
pub proof fn law_empty_selection_has_no_text(blocks: Seq<BlockSlice<'_>>, a: PaneCursor)
    ensures
        selection_text(blocks, PaneSelection { anchor: a, head: a }).len() == 0,
    decreases blocks.len(),
{
    if blocks.len() > 0 {
        law_empty_selection_has_no_text(blocks.drop_last(), a);
    }
}

/// Clipping drops nothing: a position behind the last row of a block selects
/// what the end of the block does.
pub proof fn law_clipping_keeps_the_text(
    rows: Seq<Seq<char>>,
    start: BlockCursor,
    end: BlockCursor,
)
    requires
        rows.len() <= usize::MAX,
        forall|i: int| 0 <= i < rows.len() ==> (#[trigger] rows[i]).len() <= usize::MAX,
        cursor_le(start, end),
    ensures
        selected_rows_text(
            rows,
            clipped(start, rows.len() as usize),
            clipped(end, rows.len() as usize),
        ) == selected_rows_text(rows, start, end),
{
    let n = rows.len() as usize;
    let first = clipped(start, n);
    let last = clipped(end, n);
    if n > 0 {
        if start.row >= n {
            assert(rows[n - 1].len() <= usize::MAX);
            assert(selected_rows_text(rows, first, last) =~= Seq::<char>::empty());
        } else {
            lemma_clipped_upto(rows, start, end, n as int);
        }
    }
}

/// Clipping the end of a selection changes none of its rows.
proof fn lemma_clipped_upto(
    rows: Seq<Seq<char>>,
    start: BlockCursor,
    end: BlockCursor,
    upto: int,
)
    requires
        0 < rows.len() <= usize::MAX,
        forall|i: int| 0 <= i < rows.len() ==> (#[trigger] rows[i]).len() <= usize::MAX,
        start.row < rows.len(),
        upto <= rows.len(),
    ensures
        selected_upto(rows, start, clipped(end, rows.len() as usize), upto) == selected_upto(
            rows,
            start,
            end,
            upto,
        ),
    decreases upto - start.row,
{
    if upto > start.row {
        assert(rows[upto - 1].len() <= usize::MAX);
        assert(selected_piece(rows, start, clipped(end, rows.len() as usize), upto - 1)
            == selected_piece(rows, start, end, upto - 1));
        if upto > start.row + 1 {
            lemma_clipped_upto(rows, start, end, upto - 1);
        }
    }
}

/// Blocks above or below the selection give nothing.
pub proof fn law_blocks_outside_give_nothing(b: BlockSlice<'_>, s: PaneSelection)
    requires
        b.block_id.0 < ordered_ends(s).0.block_id.0 || b.block_id.0 > ordered_ends(
            s,
        ).1.block_id.0,
    ensures
        block_text(b, s).len() == 0,
{
}

/// However a word or line selection is dragged, the words at both of its ends
/// stay selected whole.
pub proof fn law_drag_keeps_both_words(
    anchor_block: BlockId,
    anchor: (BlockCursor, BlockCursor),
    head_block: BlockId,
    head: (BlockCursor, BlockCursor),
)
    requires
        cursor_le(anchor.0, anchor.1),
        cursor_le(head.0, head.1),
    ensures
        ({
            let (a, h) = dragged_ends(anchor_block, anchor, head_block, head);
            let (start, end) = ordered_ends(PaneSelection { anchor: a, head: h });
            &&& pane_le(start, pane_cursor(anchor_block, anchor.0))
            &&& pane_le(pane_cursor(anchor_block, anchor.1), end)
            &&& pane_le(start, pane_cursor(head_block, head.0))
            &&& pane_le(pane_cursor(head_block, head.1), end)
        }),
{
}

/// Positions of a pane are read block by block, in a block row by row, and in a row from
/// left to right.
pub proof fn law_reading_order_in_a_pane(a: PaneCursor, b: PaneCursor)
    ensures
        a.block_id.0 < b.block_id.0 ==> pane_le(a, b) && !pane_le(b, a),
        a.block_id == b.block_id && a.row < b.row ==> pane_le(a, b) && !pane_le(b, a),
        a.block_id == b.block_id && a.row == b.row ==> (pane_le(a, b) <==> a.col <= b.col),
        ordered_ends(PaneSelection { anchor: a, head: b }) == (if pane_le(a, b) {
            (a, b)
        } else {
            (b, a)
        }),
        pane_cursor(a.block_id, BlockCursor { row: a.row, col: a.col }) == a,
{
}

/// Which part of a block is selected. In the block of the first end, what follows it; in
/// the block of the last end, what stands before it; a block between the two whole; and
/// a block above the first or below the last not at all. The part stays within the rows
/// of the block.
pub proof fn law_which_part_is_selected(
    first: PaneCursor,
    last: PaneCursor,
    block_id: BlockId,
    total_rows: usize,
)
    requires
        pane_le(first, last),
        first != last,
        total_rows > 0,
    ensures
        ({
            let part = block_part(
                PaneSelection { anchor: first, head: last },
                block_id,
                total_rows,
            );
            let bottom = total_rows - 1;
            &&& block_id.0 < first.block_id.0 || block_id.0 > last.block_id.0 <==> part is None
            &&& part is Some && block_id == first.block_id && first.row <= bottom
                ==> part.unwrap().0.row == first.row && part.unwrap().0.col == first.col
            &&& part is Some && block_id == first.block_id && first.row > bottom
                ==> part.unwrap().0.row == bottom && part.unwrap().0.col == usize::MAX
            &&& part is Some && block_id != first.block_id ==> part.unwrap().0.row == 0
                && part.unwrap().0.col == 0
            &&& part is Some && block_id == last.block_id && last.row <= bottom
                ==> part.unwrap().1.row == last.row && part.unwrap().1.col == last.col
            &&& part is Some && (block_id != last.block_id || last.row > bottom)
                ==> part.unwrap().1.row == bottom && part.unwrap().1.col == usize::MAX
        }),
{
}

/// A selection that was dragged from one word to another reaches from the one that comes
/// first to the end of the other: in one block from the earlier start to the later end,
/// over several blocks from the near edge of either word.
pub proof fn law_where_a_drag_ends(
    block: BlockId,
    other: BlockId,
    anchor: (BlockCursor, BlockCursor),
    head: (BlockCursor, BlockCursor),
)
    ensures
        ({
            let (a, h) = dragged_ends(block, anchor, block, head);
            &&& a.block_id == block && h.block_id == block
            &&& cursor_le(anchor.0, head.0) ==> a == pane_cursor(block, anchor.0)
            &&& !cursor_le(anchor.0, head.0) ==> a == pane_cursor(block, head.0)
            &&& cursor_le(anchor.1, head.1) ==> h == pane_cursor(block, head.1)
            &&& !cursor_le(anchor.1, head.1) ==> h == pane_cursor(block, anchor.1)
        }),
        block.0 < other.0 ==> dragged_ends(block, anchor, other, head) == (
            pane_cursor(block, anchor.0),
            pane_cursor(other, head.1),
        ),
        block.0 > other.0 ==> dragged_ends(block, anchor, other, head) == (
            pane_cursor(block, anchor.1),
            pane_cursor(other, head.0),
        ),
{
}

/// What the blocks give is joined by newlines, and a block that gives nothing leaves no
/// empty line.
pub proof fn law_texts_are_joined(a: Seq<char>, b: Seq<char>, c: Seq<char>)
    ensures
        a.len() > 0 && b.len() > 0 ==> join_texts(a, b) == a + seq!['\n'] + b,
        join_texts(a, Seq::empty()) == a,
        join_texts(Seq::empty(), b) == b,
        join_texts(join_texts(a, b), c) == join_texts(a, join_texts(b, c)),
{
    assert(a.push('\n') =~= a + seq!['\n']);
    assert(b.len() == 0 ==> b =~= Seq::<char>::empty());
    assert(join_texts(join_texts(a, b), c) =~= join_texts(a, join_texts(b, c)));
}

/// The text of a selection is that of the upper blocks and then that of the lower ones;
/// of one block it is what the rows between the ends of its part give.
pub proof fn law_text_block_by_block(
    upper: Seq<BlockSlice<'_>>,
    lower: Seq<BlockSlice<'_>>,
    b: BlockSlice<'_>,
    s: PaneSelection,
)
    ensures
        selection_text(upper + lower, s) == join_texts(
            selection_text(upper, s),
            selection_text(lower, s),
        ),
        match block_part(s, b.block_id, slice_rows(b).len() as usize) {
            Some((start, end)) => selection_text(seq![b], s) == selected_rows_text(
                block_rows(b.command@, b.snapshot@),
                start,
                end,
            ),
            None => selection_text(seq![b], s).len() == 0,
        },
    decreases lower.len(),
{
    assert(seq![b].drop_last() =~= Seq::<BlockSlice<'_>>::empty());
    assert(selection_text(seq![b].drop_last(), s) == Seq::<char>::empty());
    assert(seq![b].last() == b);
    law_texts_are_joined(Seq::empty(), block_text(b, s), Seq::empty());
    if lower.len() == 0 {
        assert(upper + lower =~= upper);
        law_texts_are_joined(selection_text(upper, s), Seq::empty(), Seq::empty());
    } else {
        law_text_block_by_block(upper, lower.drop_last(), b, s);
        assert((upper + lower).drop_last() =~= upper + lower.drop_last());
        assert((upper + lower).last() == lower.last());
        law_texts_are_joined(
            selection_text(upper, s),
            selection_text(lower.drop_last(), s),
            block_text(lower.last(), s),
        );
    }
}

} // verus!
