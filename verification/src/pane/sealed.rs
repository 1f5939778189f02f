//! What is asked of the finished blocks of a pane.

use crate::block::BlockId;
use crate::block_selection::{
    block_rows, chars_of_cells, classified_by, command_lines, effective_row_len,
    selected_rows_text, split_command, typed_len, word_around, word_range_in_chars, BlockCursor,
};
use crate::lines::runs_view;
use crate::pane_selection::{
    block_part, countable, join_texts, law_texts_are_joined, pane_selection_text as text_of_slices,
    selection_text, BlockSlice, PaneSelection,
};
use crate::terminal::{cell_chars, StyledLine};
use vstd::prelude::*;

verus! {

/// A finished block: its command and its output.
#[derive(Debug, Clone, PartialEq, Eq)]
pub struct SealedBlock {
    pub id: BlockId,
    pub command: String,
    pub snapshot: Vec<StyledLine>,
}

/// The place of the first block with a number.
pub open spec fn find_block(blocks: Seq<SealedBlock>, id: BlockId) -> Option<int>
    decreases blocks.len(),
{
    if blocks.len() == 0 {
        None
    } else {
        match find_block(blocks.drop_last(), id) {
            Some(i) => Some(i),
            None => if blocks.last().id == id {
                Some(blocks.len() - 1)
            } else {
                None
            },
        }
    }
}

/// The block found is there, and has the number.
pub proof fn lemma_find_block(blocks: Seq<SealedBlock>, id: BlockId)
    ensures
        match find_block(blocks, id) {
            Some(i) => 0 <= i < blocks.len() && blocks[i].id == id && forall|j: int|
                0 <= j < i ==> (#[trigger] blocks[j]).id != id,
            None => forall|j: int| 0 <= j < blocks.len() ==> (#[trigger] blocks[j]).id != id,
        },
    decreases blocks.len(),
{
    if blocks.len() > 0 {
        lemma_find_block(blocks.drop_last(), id);
        let rest = blocks.drop_last();
        assert forall|j: int| 0 <= j < rest.len() implies rest[j] == blocks[j] by {}
        if find_block(rest, id) is None && blocks.last().id != id {
            assert forall|j: int| 0 <= j < blocks.len() implies (#[trigger] blocks[j]).id != id by {
                if j < rest.len() {
                    assert(rest[j].id != id);
                }
            }
        }
        if find_block(rest, id) is None {
            assert forall|j: int| 0 <= j < blocks.len() - 1 implies (#[trigger] blocks[j]).id
                != id by {
                assert(rest[j].id != id);
            }
        } else {
            let i = find_block(rest, id).unwrap();
            assert forall|j: int| 0 <= j < i implies (#[trigger] blocks[j]).id != id by {
                assert(rest[j].id != id);
            }
        }
    }
}

/// The place of the first block with a number.
fn position(blocks: &Vec<SealedBlock>, id: BlockId) -> (r: Option<usize>)
    ensures
        match r {
            Some(i) => i < blocks@.len() && find_block(blocks@, id) == Some(i as int),
            None => find_block(blocks@, id) is None,
        },
{
    let mut i: usize = 0;
    proof {
        lemma_find_block(blocks@, id);
    }
    while i < blocks.len()
        invariant
            i <= blocks@.len(),
            forall|j: int| 0 <= j < i ==> (#[trigger] blocks@[j]).id != id,
            match find_block(blocks@, id) {
                Some(i) => 0 <= i < blocks@.len() && blocks@[i].id == id && forall|j: int|
                    0 <= j < i ==> (#[trigger] blocks@[j]).id != id,
                None => forall|j: int| 0 <= j < blocks@.len() ==> (#[trigger] blocks@[j]).id != id,
            },
        decreases blocks@.len() - i,
    {
        if blocks[i].id == id {
            return Some(i);
        }
        i += 1;
    }
    None
}

/// The rows of a block: those of its command, then those of its output.
pub open spec fn sealed_rows(b: SealedBlock) -> Seq<Seq<char>> {
    block_rows(b.command@, b.snapshot@)
}

/// The number of rows of a block: of its command, and of its output.
pub fn sealed_block_rows(blocks: &Vec<SealedBlock>, block_id: BlockId) -> (r: Option<(usize, usize)>)
    ensures
        match find_block(blocks@, block_id) {
            Some(i) => r == Some(
                (
                    command_lines(blocks@[i].command@).len() as usize,
                    blocks@[i].snapshot@.len() as usize,
                ),
            ),
            None => r is None,
        },
{
    match position(blocks, block_id) {
        Some(i) => {
            let lines = split_command(blocks[i].command.as_str());
            assert(runs_view(lines@).len() == lines@.len());
            Some((lines.len(), blocks[i].snapshot.len()))
        },
        None => None,
    }
}

/// The length of a row: all of a row of the command, and an output row without
/// the spaces behind its text.
pub open spec fn row_len(b: SealedBlock, row: int) -> Option<nat> {
    let command = command_lines(b.command@);
    if 0 <= row < command.len() {
        Some(command[row].len())
    } else if 0 <= row - command.len() < b.snapshot@.len() {
        Some(typed_len(cell_chars(b.snapshot@[row - command.len()].cells@)))
    } else {
        None
    }
}

/// The length of a row of a block.
pub fn sealed_row_len(blocks: &Vec<SealedBlock>, block_id: BlockId, row: usize) -> (r: Option<usize>)
    ensures
        match find_block(blocks@, block_id) {
            Some(i) => match row_len(blocks@[i], row as int) {
                Some(n) => r == Some(n as usize),
                None => r is None,
            },
            None => r is None,
        },
{
    let i: usize = match position(blocks, block_id) {
        Some(i) => i,
        None => return None,
    };
    let lines = split_command(blocks[i].command.as_str());
    assert(runs_view(lines@).len() == lines@.len());
    if row < lines.len() {
        assert(runs_view(lines@)[row as int] == lines@[row as int]@);
        return Some(lines[row].len());
    }
    let at: usize = row - lines.len();
    if at < blocks[i].snapshot.len() {
        Some(effective_row_len(&blocks[i].snapshot[at].cells))
    } else {
        None
    }
}

/// The characters of a row, where the block has it.
pub open spec fn row_chars(b: SealedBlock, row: int) -> Option<Seq<char>> {
    let command = command_lines(b.command@);
    if 0 <= row < command.len() {
        Some(command[row])
    } else if 0 <= row - command.len() < b.snapshot@.len() {
        Some(cell_chars(b.snapshot@[row - command.len()].cells@))
    } else {
        None
    }
}

/// The characters of a row of a block.
fn chars_of_row(block: &SealedBlock, row: usize) -> (r: Option<Vec<char>>)
    ensures
        match r {
            Some(v) => row_chars(*block, row as int) == Some(v@),
            None => row_chars(*block, row as int) is None,
        },
{
    let mut lines = split_command(block.command.as_str());
    assert(runs_view(lines@).len() == lines@.len());
    if row < lines.len() {
        assert(runs_view(lines@)[row as int] == lines@[row as int]@);
        return Some(lines.remove(row));
    }
    let at: usize = row - lines.len();
    if at < block.snapshot.len() {
        Some(chars_of_cells(&block.snapshot[at].cells))
    } else {
        None
    }
}

/// The word under a cursor in a block. Which characters make up words, the
/// predicate says.
pub fn sealed_word_range<F: Fn(char) -> bool>(
    blocks: &Vec<SealedBlock>,
    block_id: BlockId,
    cursor: BlockCursor,
    is_word_char: &F,
) -> (r: Option<(BlockCursor, BlockCursor)>)
    requires
        forall|c: char| call_requires(*is_word_char, (c,)),
    ensures
        find_block(blocks@, block_id) is None ==> r is None,
        find_block(blocks@, block_id) is Some ==> {
            let chars = row_chars(
                blocks@[find_block(blocks@, block_id).unwrap()],
                cursor.row as int,
            );
            &&& (r is Some) == (chars is Some)
            &&& r is Some ==> {
                &&& r.unwrap().0.row == cursor.row
                &&& r.unwrap().1.row == cursor.row
                &&& forall|w: spec_fn(char) -> bool|
                    #![trigger classified_by(is_word_char, w)]
                    classified_by(is_word_char, w) ==> (
                        r.unwrap().0.col as int,
                        r.unwrap().1.col as int,
                    ) == word_around(chars.unwrap().map_values(w), cursor.col as int)
            }
        },
{
    let i: usize = match position(blocks, block_id) {
        Some(i) => i,
        None => return None,
    };
    match chars_of_row(&blocks[i], cursor.row) {
        Some(chars) => {
            let (a, b) = word_range_in_chars(chars.as_slice(), cursor.col, is_word_char);
            Some((BlockCursor::new(cursor.row, a), BlockCursor::new(cursor.row, b)))
        },
        None => None,
    }
}

/// The whole row under a cursor in a block.
pub fn sealed_line_range(blocks: &Vec<SealedBlock>, block_id: BlockId, cursor: BlockCursor) -> (r:
    Option<(BlockCursor, BlockCursor)>)
    ensures
        find_block(blocks@, block_id) is None ==> r is None,
        find_block(blocks@, block_id) is Some ==> {
            let chars = row_chars(
                blocks@[find_block(blocks@, block_id).unwrap()],
                cursor.row as int,
            );
            &&& (r is Some) == (chars is Some)
            &&& r is Some ==> {
                &&& r.unwrap().0 == (BlockCursor { row: cursor.row, col: 0 })
                &&& r.unwrap().1.row == cursor.row
                &&& r.unwrap().1.col == chars.unwrap().len()
            }
        },
{
    let i: usize = match position(blocks, block_id) {
        Some(i) => i,
        None => return None,
    };
    match chars_of_row(&blocks[i], cursor.row) {
        Some(chars) => {
            Some((BlockCursor::new(cursor.row, 0), BlockCursor::new(cursor.row, chars.len())))
        },
        None => None,
    }
}

/// The part of a selection that lies in a block; none without a selection.
pub fn pane_selection_range_for_block(
    sel: Option<&PaneSelection>,
    block_id: BlockId,
    block_total_rows: usize,
) -> (r: Option<(BlockCursor, BlockCursor)>)
    ensures
        r == (match sel {
            Some(s) => block_part(*s, block_id, block_total_rows),
            None => None,
        }),
{
    match sel {
        Some(s) => s.block_range_for(block_id, block_total_rows),
        None => None,
    }
}

/// What a block gives to the text of a selection.
pub open spec fn piece_of(b: SealedBlock, s: PaneSelection) -> Seq<char> {
    match block_part(s, b.id, sealed_rows(b).len() as usize) {
        Some((start, end)) => selected_rows_text(sealed_rows(b), start, end),
        None => Seq::empty(),
    }
}

/// The text of a selection over finished blocks, top to bottom.
pub open spec fn sealed_text(blocks: Seq<SealedBlock>, s: PaneSelection) -> Seq<char>
    decreases blocks.len(),
{
    if blocks.len() == 0 {
        Seq::empty()
    } else {
        join_texts(sealed_text(blocks.drop_last(), s), piece_of(blocks.last(), s))
    }
}

/// Slices of blocks give what the blocks give.
proof fn lemma_slices_text(
    blocks: Seq<SealedBlock>,
    slices: Seq<BlockSlice<'_>>,
    s: PaneSelection,
)
    requires
        slices.len() == blocks.len(),
        forall|i: int|
            0 <= i < blocks.len() ==> {
                &&& (#[trigger] slices[i]).block_id == blocks[i].id
                &&& slices[i].command@ == blocks[i].command@
                &&& slices[i].snapshot@ == blocks[i].snapshot@
            },
    ensures
        selection_text(slices, s) == sealed_text(blocks, s),
    decreases blocks.len(),
{
    if blocks.len() > 0 {
        let some = slices.drop_last();
        assert forall|i: int| 0 <= i < blocks.drop_last().len() implies {
            &&& (#[trigger] some[i]).block_id == blocks.drop_last()[i].id
            &&& some[i].command@ == blocks.drop_last()[i].command@
            &&& some[i].snapshot@ == blocks.drop_last()[i].snapshot@
        } by {
            assert(some[i] == slices[i]);
        }
        lemma_slices_text(blocks.drop_last(), some, s);
        assert(slices[blocks.len() - 1].block_id == blocks.last().id);
    }
}

/// The text that a selection covers; none where there is no selection, or it
/// covers no text, or the blocks it covers are gone.
pub fn pane_selection_text(blocks: &Vec<SealedBlock>, sel: Option<&PaneSelection>) -> (r: Option<
    String,
>)
    requires
        forall|i: int|
            0 <= i < blocks@.len() ==> sealed_rows(#[trigger] blocks@[i]).len() <= usize::MAX,
    ensures
        match sel {
            None => r is None,
            Some(s) => {
                let text = if s.anchor == s.head {
                    Seq::<char>::empty()
                } else {
                    sealed_text(blocks@, *s)
                };
                if text.len() == 0 {
                    r is None
                } else {
                    r is Some && r.unwrap()@ == text
                }
            },
        },
{
    let s = match sel {
        Some(s) => s,
        None => return None,
    };
    if s.is_empty() {
        return None;
    }
    let mut slices: Vec<BlockSlice<'_>> = Vec::new();
    let mut i: usize = 0;
    while i < blocks.len()
        invariant
            i <= blocks@.len(),
            slices@.len() == i,
            forall|k: int|
                0 <= k < blocks@.len() ==> sealed_rows(#[trigger] blocks@[k]).len() <= usize::MAX,
            forall|k: int|
                0 <= k < i ==> {
                    &&& (#[trigger] slices@[k]).block_id == blocks@[k].id
                    &&& slices@[k].command@ == blocks@[k].command@
                    &&& slices@[k].snapshot@ == blocks@[k].snapshot@
                },
        decreases blocks@.len() - i,
    {
        slices.push(
            BlockSlice::new(
                blocks[i].id,
                blocks[i].command.as_str(),
                blocks[i].snapshot.as_slice(),
            ),
        );
        i += 1;
    }
    assert forall|k: int| 0 <= k < slices@.len() implies countable(#[trigger] slices@[k]) by {
        assert(sealed_rows(blocks@[k]).len() <= usize::MAX);
    }
    let text = text_of_slices(slices.as_slice(), s);
    proof {
        lemma_slices_text(blocks@, slices@, *s);
    }
    if text.as_str().is_empty() {
        None
    } else {
        Some(text)
    }
}

// ---- laws --------------------------------------------------------------

/// The rows of a finished block are those of its command and then those of its output;
/// behind them there is none. A row of the command counts whole, a row of the output
/// without the spaces at its end.
pub proof fn law_rows_of_a_finished_block(b: SealedBlock, row: int)
    requires
        0 <= row,
    ensures
        ({
            let rows = block_rows(b.command@, b.snapshot@);
            let n = command_lines(b.command@).len() as int;
            &&& row < rows.len() ==> row_chars(b, row) == Some(rows[row])
            &&& row >= rows.len() ==> row_chars(b, row) is None && row_len(b, row) is None
            &&& row < n ==> row_len(b, row) == Some(rows[row].len())
            &&& n <= row < rows.len() ==> row_len(b, row) == Some(typed_len(rows[row]))
            &&& sealed_rows(b) == rows
        }),
{
}

/// The first block with a number is the one that is meant by it.
pub proof fn law_block_is_found_by_its_number(blocks: Seq<SealedBlock>, id: BlockId, i: int)
    requires
        0 <= i < blocks.len(),
        blocks[i].id == id,
        forall|j: int| 0 <= j < i ==> (#[trigger] blocks[j]).id != id,
    ensures
        find_block(blocks, id) == Some(i),
{
    lemma_find_block(blocks, id);
}

/// The text over finished blocks is what each gives between the ends of its part, joined
/// by newlines, top to bottom.
pub proof fn law_text_over_finished_blocks(
    upper: Seq<SealedBlock>,
    lower: Seq<SealedBlock>,
    b: SealedBlock,
    s: PaneSelection,
)
    ensures
        sealed_text(upper + lower, s) == join_texts(sealed_text(upper, s), sealed_text(lower, s)),
        match block_part(s, b.id, sealed_rows(b).len() as usize) {
            Some((start, end)) => sealed_text(seq![b], s) == selected_rows_text(
                block_rows(b.command@, b.snapshot@),
                start,
                end,
            ),
            None => sealed_text(seq![b], s).len() == 0,
        },
    decreases lower.len(),
{
    assert(seq![b].drop_last() =~= Seq::<SealedBlock>::empty());
    assert(sealed_text(seq![b].drop_last(), s) == Seq::<char>::empty());
    assert(seq![b].last() == b);
    law_texts_are_joined(Seq::empty(), piece_of(b, s), Seq::empty());
    if lower.len() == 0 {
        assert(upper + lower =~= upper);
        law_texts_are_joined(sealed_text(upper, s), Seq::empty(), Seq::empty());
    } else {
        law_text_over_finished_blocks(upper, lower.drop_last(), b, s);
        assert((upper + lower).drop_last() =~= upper + lower.drop_last());
        assert((upper + lower).last() == lower.last());
        law_texts_are_joined(
            sealed_text(upper, s),
            sealed_text(lower.drop_last(), s),
            piece_of(lower.last(), s),
        );
    }
}

} // verus!
