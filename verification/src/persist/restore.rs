//! Bringing back what a pane had shown.

use crate::block::{
    chips_view, law_chips_keep_what_is_known, meta_chips, meta_of, BlockId, BlockMeta, ChipView,
    MetaView,
};
use crate::history::db::ChunkRow;
use crate::persist::chunk::{
    decode_chunk, decoded, framable, is_chunk_of, law_chunk_round_trip, ChunkError,
};
use crate::persist::store::{PaneRowId, SessionId};
use crate::persist::writer::{is_prepared, PreparedChunk, SealedSnapshot, WriterCursor};
use crate::terminal::{line_cells, StyledCell, StyledLine};
use vstd::prelude::*;

verus! {

/// Why a chunk could not be loaded.
#[derive(Debug, Clone, Copy, PartialEq, Eq, Structural)]
pub enum LoadError {
    /// Its file could not be read.
    Io,
    /// Its file holds no chunk.
    Decode(ChunkError),
}

/// What came of loading a chunk, as mathematics.
pub type LoadedView = Result<Seq<Seq<StyledCell>>, LoadError>;

/// What loading gives, from what the file held; none where it could not be read.
pub open spec fn loaded(contents: Option<Seq<u8>>) -> LoadedView {
    match contents {
        None => Err(LoadError::Io),
        Some(bytes) => match decoded(bytes) {
            Ok(lines) => Ok(lines),
            Err(e) => Err(LoadError::Decode(e)),
        },
    }
}

/// The view of what came of loading a chunk.
pub open spec fn load_view(r: Result<Vec<StyledLine>, LoadError>) -> LoadedView {
    match r {
        Ok(lines) => Ok(line_cells(lines@)),
        Err(e) => Err(e),
    }
}

/// The view of what a file held.
pub open spec fn contents_view(contents: Option<Vec<u8>>) -> Option<Seq<u8>> {
    match contents {
        Some(bytes) => Some(bytes@),
        None => None,
    }
}

/// Loads a chunk from what its file held.
pub fn load_chunk(contents: &Option<Vec<u8>>) -> (r: Result<Vec<StyledLine>, LoadError>)
    ensures
        load_view(r) == loaded(contents_view(*contents)),
{
    match contents {
        None => Err(LoadError::Io),
        Some(bytes) => match decode_chunk(bytes.as_slice()) {
            Ok(lines) => Ok(lines),
            Err(e) => Err(LoadError::Decode(e)),
        },
    }
}

/// A block that was brought back.
#[derive(Debug, Clone, PartialEq, Eq)]
pub struct RestoredBlock {
    pub id: BlockId,
    /// Which of the rows it came from.
    pub row: usize,
    pub lines: Vec<StyledLine>,
    pub start_time: i64,
    pub end_time: i64,
    /// Its command, exit code, directory and git state.
    pub meta: BlockMeta,
}

/// A block that was brought back, as mathematics.
pub struct RestoredView {
    pub id: int,
    pub row: int,
    pub lines: Seq<Seq<StyledCell>>,
    pub start_time: i64,
    pub end_time: i64,
    pub meta: MetaView,
}

/// The view of a block.
pub open spec fn restored_view(b: RestoredBlock) -> RestoredView {
    RestoredView {
        id: b.id.0 as int,
        row: b.row as int,
        lines: line_cells(b.lines@),
        start_time: b.start_time,
        end_time: b.end_time,
        meta: b.meta@,
    }
}

/// The view of blocks.
pub open spec fn blocks_view(blocks: Seq<RestoredBlock>) -> Seq<RestoredView> {
    blocks.map_values(|b: RestoredBlock| restored_view(b))
}

/// The blocks of some chunks: one for each that could be loaded, in order, with
/// numbers from 0 on, and with what the chips of its row say of it. A chunk that could not be loaded leaves no gap in the
/// numbers: the next block, which takes the number behind them, would else meet
/// one that is taken.
pub open spec fn restored(
    rows: Seq<ChunkRow>,
    results: Seq<LoadedView>,
    chips: Seq<Seq<ChipView>>,
) -> Seq<RestoredView>
    decreases rows.len(),
{
    if rows.len() == 0 || results.len() != rows.len() || chips.len() != rows.len() {
        Seq::empty()
    } else {
        let before = restored(rows.drop_last(), results.drop_last(), chips.drop_last());
        match results.last() {
            Ok(lines) => before.push(
                RestoredView {
                    id: before.len() as int,
                    row: rows.len() - 1,
                    lines,
                    start_time: rows.last().start_time,
                    end_time: rows.last().end_time,
                    meta: meta_of(chips.last()),
                },
            ),
            Err(_) => before,
        }
    }
}

/// The view of what came of loading chunks.
pub open spec fn load_views(results: Seq<Result<Vec<StyledLine>, LoadError>>) -> Seq<LoadedView> {
    results.map_values(|r: Result<Vec<StyledLine>, LoadError>| load_view(r))
}

/// The views of the chips of several chunks.
pub open spec fn all_chips(chips: Seq<Vec<(String, String)>>) -> Seq<Seq<ChipView>> {
    chips.map_values(|c: Vec<(String, String)>| chips_view(c@))
}

/// A copy of lines.
fn copy_lines(lines: &Vec<StyledLine>) -> (r: Vec<StyledLine>)
    ensures
        line_cells(r@) == line_cells(lines@),
{
    let mut out: Vec<StyledLine> = Vec::new();
    let mut i: usize = 0;
    while i < lines.len()
        invariant
            i <= lines@.len(),
            out@.len() == i,
            forall|k: int| 0 <= k < i ==> (#[trigger] out@[k])@ == lines@[k]@,
        decreases lines@.len() - i,
    {
        let mut cells: Vec<StyledCell> = Vec::new();
        let from = &lines[i].cells;
        let mut j: usize = 0;
        while j < from.len()
            invariant
                j <= from@.len(),
                cells@ == from@.take(j as int),
            decreases from@.len() - j,
        {
            cells.push(from[j]);
            j += 1;
            assert(from@.take(j as int) =~= from@.take(j - 1).push(from@[j - 1]));
        }
        assert(cells@ =~= from@);
        out.push(StyledLine { cells });
        i += 1;
    }
    assert(line_cells(out@) =~= line_cells(lines@));
    out
}

/// Makes the blocks of chunks that were loaded.
pub fn number_blocks(
    rows: &Vec<ChunkRow>,
    results: &Vec<Result<Vec<StyledLine>, LoadError>>,
    chips: &Vec<Vec<(String, String)>>,
) -> (r: Vec<RestoredBlock>)
    requires
        results@.len() == rows@.len(),
        chips@.len() == rows@.len(),
    ensures
        blocks_view(r@) == restored(rows@, load_views(results@), all_chips(chips@)),
{
    let mut blocks: Vec<RestoredBlock> = Vec::new();
    let ghost views = load_views(results@);
    let ghost said = all_chips(chips@);
    let n: usize = rows.len();
    let mut i: usize = 0;
    assert(blocks_view(blocks@) =~= restored(rows@.take(0), views.take(0), said.take(0)));
    while i < n
        invariant
            i <= n,
            n == rows@.len(),
            results@.len() == rows@.len(),
            chips@.len() == rows@.len(),
            views == load_views(results@),
            said == all_chips(chips@),
            blocks@.len() <= i,
            blocks_view(blocks@) == restored(
                rows@.take(i as int),
                views.take(i as int),
                said.take(i as int),
            ),
        decreases n - i,
    {
        assert(rows@.take(i + 1).drop_last() =~= rows@.take(i as int));
        assert(views.take(i + 1).drop_last() =~= views.take(i as int));
        assert(said.take(i + 1).drop_last() =~= said.take(i as int));
        assert(views[i as int] == load_view(results@[i as int]));
        assert(said[i as int] == chips_view(chips@[i as int]@));
        let ghost before = blocks@;
        if let Ok(lines) = &results[i] {
            let block = RestoredBlock {
                id: BlockId(blocks.len() as u64),
                row: i,
                lines: copy_lines(lines),
                start_time: rows[i].start_time,
                end_time: rows[i].end_time,
                meta: BlockMeta::from_chips(&chips[i]),
            };
            blocks.push(block);
            assert(blocks_view(blocks@) =~= blocks_view(before).push(restored_view(block)));
        }
        i += 1;
    }
    assert(rows@.take(i as int) =~= rows@);
    assert(views.take(i as int) =~= views);
    assert(said.take(i as int) =~= said);
    blocks
}

/// What loading gives, for each file.
pub open spec fn all_loaded(contents: Seq<Option<Vec<u8>>>) -> Seq<LoadedView> {
    contents.map_values(|c: Option<Vec<u8>>| loaded(contents_view(c)))
}

/// Brings back the blocks of a pane from its chunks, oldest first: `contents`
/// holds what the file of each row held, or none where it could not be read, and
/// `chips` the chips of each row. A chunk that cannot be loaded is passed over.
pub fn restore_blocks(
    rows: &Vec<ChunkRow>,
    contents: &Vec<Option<Vec<u8>>>,
    chips: &Vec<Vec<(String, String)>>,
) -> (r: Vec<RestoredBlock>)
    requires
        contents@.len() == rows@.len(),
        chips@.len() == rows@.len(),
    ensures
        blocks_view(r@) == restored(rows@, all_loaded(contents@), all_chips(chips@)),
{
    let mut results: Vec<Result<Vec<StyledLine>, LoadError>> = Vec::new();
    let mut i: usize = 0;
    while i < contents.len()
        invariant
            i <= contents@.len(),
            results@.len() == i,
            forall|k: int|
                0 <= k < i ==> load_view(#[trigger] results@[k]) == loaded(
                    contents_view(contents@[k]),
                ),
        decreases contents@.len() - i,
    {
        results.push(load_chunk(&contents[i]));
        i += 1;
    }
    assert(load_views(results@) =~= all_loaded(contents@));
    number_blocks(rows, &results, chips)
}

// ---- laws --------------------------------------------------------------

/// The blocks that are brought back are numbered from 0 on without a gap,
/// whatever could not be loaded, and keep the order of their rows.
pub proof fn law_restored_numbers_have_no_gap(
    rows: Seq<ChunkRow>,
    results: Seq<LoadedView>,
    chips: Seq<Seq<ChipView>>,
)
    requires
        results.len() == rows.len(),
        chips.len() == rows.len(),
    ensures
        ({
            let all = restored(rows, results, chips);
            &&& all.len() <= rows.len()
            &&& forall|i: int|
                0 <= i < all.len() ==> (#[trigger] all[i]).id == i && 0 <= all[i].row < rows.len()
            &&& forall|i: int, j: int|
                0 <= i < j < all.len() ==> (#[trigger] all[i]).row < (#[trigger] all[j]).row
        }),
    decreases rows.len(),
{
    if rows.len() > 0 {
        let before = restored(rows.drop_last(), results.drop_last(), chips.drop_last());
        law_restored_numbers_have_no_gap(
            rows.drop_last(),
            results.drop_last(),
            chips.drop_last(),
        );
        let all = restored(rows, results, chips);
        assert forall|i: int| 0 <= i < all.len() implies (#[trigger] all[i]).id == i && 0 <= all[i].row
            < rows.len() by {
            if i < before.len() {
                assert(all[i] == before[i]);
            }
        }
        assert forall|i: int, j: int| 0 <= i < j < all.len() implies (#[trigger] all[i]).row < (
        #[trigger] all[j]).row by {
            assert(all[i] == before[i]);
            if j < before.len() {
                assert(all[j] == before[j]);
            }
        }
    }
}

/// Every block that is brought back has the lines of its chunk, and the times
/// and the chips of its row.
pub proof fn law_restored_block_matches_its_row(
    rows: Seq<ChunkRow>,
    results: Seq<LoadedView>,
    chips: Seq<Seq<ChipView>>,
)
    requires
        results.len() == rows.len(),
        chips.len() == rows.len(),
    ensures
        forall|i: int|
            0 <= i < restored(rows, results, chips).len() ==> {
                let b = #[trigger] restored(rows, results, chips)[i];
                &&& 0 <= b.row < rows.len()
                &&& results[b.row] == Ok::<_, LoadError>(b.lines)
                &&& b.start_time == rows[b.row].start_time
                &&& b.end_time == rows[b.row].end_time
                &&& b.meta == meta_of(chips[b.row])
            },
    decreases rows.len(),
{
    if rows.len() > 0 {
        let before = restored(rows.drop_last(), results.drop_last(), chips.drop_last());
        law_restored_block_matches_its_row(
            rows.drop_last(),
            results.drop_last(),
            chips.drop_last(),
        );
        let all = restored(rows, results, chips);
        assert forall|i: int| 0 <= i < all.len() implies ({
            let b = #[trigger] all[i];
            &&& 0 <= b.row < rows.len()
            &&& results[b.row] == Ok::<_, LoadError>(b.lines)
            &&& b.start_time == rows[b.row].start_time
            &&& b.end_time == rows[b.row].end_time
            &&& b.meta == meta_of(chips[b.row])
        }) by {
            if i < before.len() {
                assert(all[i] == before[i]);
            }
        }
    }
}

/// Where every chunk can be loaded, every chunk gives its block.
pub proof fn law_readable_chunks_are_all_restored(
    rows: Seq<ChunkRow>,
    results: Seq<LoadedView>,
    chips: Seq<Seq<ChipView>>,
)
    requires
        results.len() == rows.len(),
        chips.len() == rows.len(),
        forall|i: int| 0 <= i < results.len() ==> (#[trigger] results[i]) is Ok,
    ensures
        restored(rows, results, chips).len() == rows.len(),
        forall|i: int|
            0 <= i < rows.len() ==> (#[trigger] restored(rows, results, chips)[i]).row == i,
    decreases rows.len(),
{
    if rows.len() > 0 {
        let some = results.drop_last();
        assert forall|i: int| 0 <= i < some.len() implies (#[trigger] some[i]) is Ok by {
            assert(results[i] is Ok);
        }
        law_readable_chunks_are_all_restored(rows.drop_last(), some, chips.drop_last());
        assert(results[results.len() - 1] is Ok);
        let before = restored(rows.drop_last(), some, chips.drop_last());
        let all = restored(rows, results, chips);
        assert forall|i: int| 0 <= i < rows.len() implies (#[trigger] all[i]).row == i by {
            if i < before.len() {
                assert(all[i] == before[i]);
            }
        }
    }
}

/// Can every line of the block be written down?
pub open spec fn writable(block: SealedSnapshot) -> bool {
    forall|i: int| 0 <= i < block.lines@.len() ==> framable((#[trigger] block.lines@[i])@)
}

/// Loading gives back what was written: the file of a block's chunk loads to the
/// lines of the block, and its chips say what was known of it.
pub proof fn law_written_block_loads(
    c: PreparedChunk,
    session: SessionId,
    pane: PaneRowId,
    at: WriterCursor,
    block: SealedSnapshot,
)
    requires
        is_prepared(c, session, pane, at, block),
        writable(block),
    ensures
        loaded(Some(c.bytes@)) == Ok::<_, LoadError>(line_cells(block.lines@)),
        meta_of(chips_view(c.chips@)) == block.meta@,
{
    let lines = line_cells(block.lines@);
    assert forall|i: int| 0 <= i < lines.len() implies framable(#[trigger] lines[i]) by {
        assert(lines[i] == block.lines@[i]@);
    }
    law_chunk_round_trip(lines, true, c.bytes@);
    law_chips_keep_what_is_known(block.meta@, chips_view(c.chips@));
}

/// Do the file and the chips hold a block as it was written? The chips may come
/// back in any order.
pub open spec fn holds_block(
    contents: Option<Seq<u8>>,
    chips: Seq<ChipView>,
    block: SealedSnapshot,
) -> bool {
    &&& contents matches Some(bytes) && is_chunk_of(line_cells(block.lines@), true, bytes)
    &&& forall|c: ChipView| #[trigger] chips.contains(c) <==> meta_chips(block.meta@).contains(c)
}

/// A pane comes back as it was: where the files and chips hold its blocks, the
/// blocks that are brought back have the lines of those blocks, in order and all of
/// them, and each its command, exit code, directory and git state.
pub proof fn law_written_pane_is_restored(
    rows: Seq<ChunkRow>,
    contents: Seq<Option<Vec<u8>>>,
    chips: Seq<Seq<ChipView>>,
    blocks: Seq<SealedSnapshot>,
)
    requires
        rows.len() == blocks.len(),
        contents.len() == blocks.len(),
        chips.len() == blocks.len(),
        forall|i: int| 0 <= i < blocks.len() ==> writable(#[trigger] blocks[i]),
        forall|i: int|
            0 <= i < blocks.len() ==> holds_block(
                contents_view(contents[i]),
                chips[i],
                #[trigger] blocks[i],
            ),
    ensures
        restored(rows, all_loaded(contents), chips).len() == blocks.len(),
        forall|i: int|
            0 <= i < blocks.len() ==> {
                let b = #[trigger] restored(rows, all_loaded(contents), chips)[i];
                b.lines == line_cells(blocks[i].lines@) && b.meta == blocks[i].meta@
            },
{
    let results = all_loaded(contents);
    assert forall|i: int| 0 <= i < results.len() implies (#[trigger] results[i]) == Ok::<
        _,
        LoadError,
    >(line_cells(blocks[i].lines@)) by {
        assert(holds_block(contents_view(contents[i]), chips[i], blocks[i]));
        let lines = line_cells(blocks[i].lines@);
        assert(writable(blocks[i]));
        assert forall|k: int| 0 <= k < lines.len() implies framable(#[trigger] lines[k]) by {
            assert(lines[k] == blocks[i].lines@[k]@);
        }
        law_chunk_round_trip(lines, true, contents[i].unwrap()@);
    }
    law_readable_chunks_are_all_restored(rows, results, chips);
    law_restored_block_matches_its_row(rows, results, chips);
    let all = restored(rows, results, chips);
    assert forall|i: int| 0 <= i < blocks.len() implies ({
        let b = #[trigger] all[i];
        b.lines == line_cells(blocks[i].lines@) && b.meta == blocks[i].meta@
    }) by {
        assert(all[i].row == i);
        assert(results[i] == Ok::<_, LoadError>(line_cells(blocks[i].lines@)));
        assert(holds_block(contents_view(contents[i]), chips[i], blocks[i]));
        law_chips_keep_what_is_known(blocks[i].meta@, chips[i]);
    }
}

/// A file that cannot be read, and one that holds no chunk, are told apart; any other
/// gives the lines that it holds.
pub proof fn law_what_loading_gives(bytes: Seq<u8>)
    ensures
        loaded(None) == Err::<Seq<Seq<StyledCell>>, LoadError>(LoadError::Io),
        match decoded(bytes) {
            Ok(lines) => loaded(Some(bytes)) == Ok::<_, LoadError>(lines),
            Err(e) => loaded(Some(bytes)) == Err::<Seq<Seq<StyledCell>>, LoadError>(
                LoadError::Decode(e),
            ),
        },
{
}

/// A chunk that can be loaded is brought back, whatever becomes of the others; one that
/// cannot is passed over.
pub proof fn law_each_readable_chunk_is_restored(
    rows: Seq<ChunkRow>,
    results: Seq<LoadedView>,
    chips: Seq<Seq<ChipView>>,
    r: int,
)
    requires
        results.len() == rows.len(),
        chips.len() == rows.len(),
        0 <= r < rows.len(),
    ensures
        results[r] is Ok <==> exists|i: int|
            0 <= i < restored(rows, results, chips).len() && (#[trigger] restored(
                rows,
                results,
                chips,
            )[i]).row == r,
    decreases rows.len(),
{
    let all = restored(rows, results, chips);
    let before = restored(rows.drop_last(), results.drop_last(), chips.drop_last());
    law_restored_block_matches_its_row(rows, results, chips);
    if r < rows.len() - 1 {
        law_each_readable_chunk_is_restored(
            rows.drop_last(),
            results.drop_last(),
            chips.drop_last(),
            r,
        );
        if results[r] is Ok {
            let i = choose|i: int| 0 <= i < before.len() && (#[trigger] before[i]).row == r;
            assert(all[i] == before[i]);
        }
    } else if results[r] is Ok {
        assert(all[before.len() as int].row == r);
    }
}

/// What [`restore_blocks`] brings back of files that hold the blocks of a pane: every
/// block, in order and numbered from 0, cell for cell, with its command and exit code and
/// the times of its row.
pub proof fn law_pane_as_restored(
    rows: Vec<ChunkRow>,
    contents: Vec<Option<Vec<u8>>>,
    chips: Vec<Vec<(String, String)>>,
    blocks: Seq<SealedSnapshot>,
    out: Vec<RestoredBlock>,
    i: int,
)
    requires
        call_ensures(restore_blocks, (&rows, &contents, &chips), out),
        rows@.len() == blocks.len(),
        contents@.len() == blocks.len(),
        chips@.len() == blocks.len(),
        forall|k: int| 0 <= k < blocks.len() ==> writable(#[trigger] blocks[k]),
        forall|k: int|
            0 <= k < blocks.len() ==> holds_block(
                contents_view(contents@[k]),
                chips_view(chips@[k]@),
                #[trigger] blocks[k],
            ),
    ensures
        out@.len() == blocks.len(),
        0 <= i < blocks.len() ==> {
            let b = out@[i];
            &&& b.id.0 == i
            &&& b.row == i
            &&& line_cells(b.lines@) == line_cells(blocks[i].lines@)
            &&& b.meta.command@ == blocks[i].meta.command@
            &&& b.meta.exit == blocks[i].meta.exit
            &&& b.start_time == rows@[i].start_time
            &&& b.end_time == rows@[i].end_time
        },
{
    let said = all_chips(chips@);
    let results = all_loaded(contents@);
    assert forall|k: int| 0 <= k < blocks.len() implies holds_block(
        contents_view(contents@[k]),
        said[k],
        #[trigger] blocks[k],
    ) by {
        assert(said[k] == chips_view(chips@[k]@));
    }
    law_written_pane_is_restored(rows@, contents@, said, blocks);
    law_restored_numbers_have_no_gap(rows@, results, said);
    law_restored_block_matches_its_row(rows@, results, said);
    let all = restored(rows@, results, said);
    assert(blocks_view(out@) == all);
    assert(out@.len() == all.len());
    if 0 <= i < blocks.len() {
        assert(blocks_view(out@)[i] == restored_view(out@[i]));
        let b = all[i];
        assert(b.lines == line_cells(blocks[i].lines@) && b.meta == blocks[i].meta@);
        assert(b.id == i);
        lemma_rows_in_order(all, rows@.len() as int, i);
    }
}

/// As many rows as there are, in order, are those rows.
proof fn lemma_rows_in_order(all: Seq<RestoredView>, n: int, i: int)
    requires
        all.len() == n,
        0 <= i < n,
        forall|k: int| 0 <= k < n ==> 0 <= (#[trigger] all[k]).row < n,
        forall|k: int, m: int| 0 <= k < m < n ==> (#[trigger] all[k]).row < (#[trigger] all[m]).row,
    ensures
        all[i].row == i,
{
    lemma_row_at_least(all, n, i);
    lemma_row_at_most(all, n, i);
}

/// A row has at least as many before it as its block.
proof fn lemma_row_at_least(all: Seq<RestoredView>, n: int, i: int)
    requires
        all.len() == n,
        0 <= i < n,
        forall|k: int| 0 <= k < n ==> 0 <= (#[trigger] all[k]).row < n,
        forall|k: int, m: int| 0 <= k < m < n ==> (#[trigger] all[k]).row < (#[trigger] all[m]).row,
    ensures
        all[i].row >= i,
    decreases i,
{
    if i > 0 {
        lemma_row_at_least(all, n, i - 1);
        assert(all[i - 1].row < all[i].row);
    }
}

/// A row has at least as many behind it as its block.
proof fn lemma_row_at_most(all: Seq<RestoredView>, n: int, i: int)
    requires
        all.len() == n,
        0 <= i < n,
        forall|k: int| 0 <= k < n ==> 0 <= (#[trigger] all[k]).row < n,
        forall|k: int, m: int| 0 <= k < m < n ==> (#[trigger] all[k]).row < (#[trigger] all[m]).row,
    ensures
        all[i].row <= i,
    decreases n - i,
{
    if i < n - 1 {
        lemma_row_at_most(all, n, i + 1);
        assert(all[i].row < all[i + 1].row);
    } else {
        assert(all[i].row < n);
    }
}

} // verus!
