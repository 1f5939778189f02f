//! Selecting text inside one block.
//!
//! The rows of a block are the lines of its command, if it has one, followed
//! by the rows of its output.

use vstd::prelude::*;

use crate::block::BlockId;
use crate::lines::{copy_range, runs_view};
use crate::terminal::{cell_chars, StyledCell, StyledLine};
use crate::text::{chars_of, find_char, first_index, string_of};

verus! {

/// A position in a block: a row and a column, either of which may be one past
/// the end.
#[derive(Debug, Clone, Copy, PartialEq, Eq, PartialOrd, Ord, Structural)]
pub struct BlockCursor {
    pub row: usize,
    pub col: usize,
}

impl BlockCursor {
    /// The position at a row and a column.
    pub fn new(row: usize, col: usize) -> (r: BlockCursor)
        ensures
            r == (BlockCursor { row, col }),
    {
        BlockCursor { row, col }
    }
}

/// Does `a` stand before `b`, or at it, in reading order?
pub open spec fn cursor_le(a: BlockCursor, b: BlockCursor) -> bool {
    a.row < b.row || (a.row == b.row && a.col <= b.col)
}

/// Does `a` stand before `b`, or at it, in reading order?
pub fn cursor_not_after(a: BlockCursor, b: BlockCursor) -> (r: bool)
    ensures
        r == cursor_le(a, b),
{
    a.row < b.row || (a.row == b.row && a.col <= b.col)
}

/// A selection inside one block.
#[derive(Debug, Clone, Copy, PartialEq, Eq, Structural)]
pub struct BlockSelection {
    pub block_id: BlockId,
    pub start: BlockCursor,
    pub end: BlockCursor,
}

impl BlockSelection {
    /// The selection from `start` to `end`.
    pub fn new(block_id: BlockId, start: BlockCursor, end: BlockCursor) -> (r: BlockSelection)
        ensures
            r == (BlockSelection { block_id, start, end }),
    {
        BlockSelection { block_id, start, end }
    }
}

// ---- the rows of a block -----------------------------------------------

/// The parts of `s` between newlines.
pub open spec fn split_lines(s: Seq<char>) -> Seq<Seq<char>>
    decreases s.len(),
{
    match first_index(s, '\n', 0) {
        Some(i) if 0 <= i < s.len() => seq![s.take(i)] + split_lines(s.skip(i + 1)),
        _ => seq![s],
    }
}

/// The lines of a command; an empty command has none.
pub open spec fn command_lines(command: Seq<char>) -> Seq<Seq<char>> {
    if command.len() == 0 {
        Seq::empty()
    } else {
        split_lines(command)
    }
}

/// The characters of each row of an output.
pub open spec fn output_rows(snapshot: Seq<StyledLine>) -> Seq<Seq<char>> {
    snapshot.map_values(|l: StyledLine| cell_chars(l@))
}

/// The rows of a block.
pub open spec fn block_rows(command: Seq<char>, snapshot: Seq<StyledLine>) -> Seq<Seq<char>> {
    command_lines(command) + output_rows(snapshot)
}

/// The lines of a command.
pub fn split_command(command: &str) -> (out: Vec<Vec<char>>)
    ensures
        runs_view(out@) == command_lines(command@),
{
    let chars = chars_of(command);
    let mut out: Vec<Vec<char>> = Vec::new();
    if chars.len() == 0 {
        assert(runs_view(out@) =~= Seq::empty());
        return out;
    }
    let ghost goal = split_lines(command@);
    let mut start: usize = 0;
    assert(command@.skip(0) =~= command@);
    assert(runs_view(out@) + split_lines(command@.skip(0)) =~= goal);
    loop
        invariant
            start <= chars@.len(),
            chars@ == command@,
            command@.len() > 0,
            goal == split_lines(command@),
            runs_view(out@) + split_lines(command@.skip(start as int)) == goal,
        decreases chars@.len() - start,
    {
        let rest = vstd::slice::slice_subrange(chars.as_slice(), start, chars.len());
        let ghost before = out@;
        let ghost tail = command@.skip(start as int);
        assert(rest@ =~= tail);
        match find_char(rest, '\n', 0) {
            Some(i) => {
                out.push(copy_range(rest, 0, i));
                assert(rest@.subrange(0, i as int) =~= tail.take(i as int));
                assert(tail.skip(i + 1) =~= command@.skip(start + i + 1));
                assert(runs_view(out@) =~= runs_view(before).push(tail.take(i as int)));
                assert(runs_view(out@) + split_lines(tail.skip(i + 1)) =~= runs_view(before)
                    + split_lines(tail));
                start = start + i + 1;
            },
            None => {
                out.push(copy_range(rest, 0, rest.len()));
                assert(rest@.subrange(0, rest@.len() as int) =~= tail);
                assert(runs_view(out@) =~= runs_view(before) + split_lines(tail));
                return out;
            },
        }
    }
}

/// The characters of a row of cells.
pub fn chars_of_cells(cells: &Vec<StyledCell>) -> (r: Vec<char>)
    ensures
        r@ == cell_chars(cells@),
{
    let mut out: Vec<char> = Vec::new();
    let mut i: usize = 0;
    while i < cells.len()
        invariant
            i <= cells@.len(),
            out@ == cell_chars(cells@).take(i as int),
        decreases cells@.len() - i,
    {
        out.push(cells[i].c);
        i += 1;
        assert(out@ =~= cell_chars(cells@).take(i as int));
    }
    assert(out@ =~= cell_chars(cells@));
    out
}

/// The rows of a block.
pub fn collect_rows(command: &str, snapshot: &[StyledLine]) -> (out: Vec<Vec<char>>)
    ensures
        runs_view(out@) == block_rows(command@, snapshot@),
{
    let mut out = split_command(command);
    let ghost lines = runs_view(out@);
    let ghost rows = output_rows(snapshot@);
    let mut i: usize = 0;
    assert(lines =~= lines + rows.take(0));
    while i < snapshot.len()
        invariant
            i <= snapshot@.len(),
            rows == output_rows(snapshot@),
            runs_view(out@) == lines + rows.take(i as int),
        decreases snapshot@.len() - i,
    {
        let ghost before = out@;
        out.push(chars_of_cells(&snapshot[i].cells));
        assert(runs_view(out@) =~= runs_view(before).push(rows[i as int]));
        assert(rows.take(i + 1) =~= rows.take(i as int).push(rows[i as int]));
        assert(runs_view(out@) =~= lines + rows.take(i + 1));
        i += 1;
    }
    assert(rows.take(i as int) =~= rows);
    out
}

// ---- text --------------------------------------------------------------

/// The text without trailing spaces.
pub open spec fn without_trailing_spaces(s: Seq<char>) -> Seq<char>
    decreases s.len(),
{
    if s.len() > 0 && s.last() == ' ' {
        without_trailing_spaces(s.drop_last())
    } else {
        s
    }
}

/// The smaller of two numbers.
pub open spec fn least(a: int, b: int) -> int {
    if a <= b {
        a
    } else {
        b
    }
}

/// The columns `from..to` of a row, as far as it goes, without trailing
/// spaces.
pub open spec fn row_piece(row: Seq<char>, from: int, to: int) -> Seq<char> {
    let end = least(to, row.len() as int);
    if from >= end {
        Seq::empty()
    } else {
        without_trailing_spaces(row.subrange(from, end))
    }
}

/// What row `i` gives to a selection from `start` to `end`.
pub open spec fn selected_piece(
    rows: Seq<Seq<char>>,
    start: BlockCursor,
    end: BlockCursor,
    i: int,
) -> Seq<char> {
    row_piece(
        rows[i],
        if i == start.row {
            start.col as int
        } else {
            0
        },
        if i == end.row {
            end.col as int
        } else {
            rows[i].len() as int
        },
    )
}

/// The text of the rows `start.row..upto` of a selection, joined by newlines.
pub open spec fn selected_upto(
    rows: Seq<Seq<char>>,
    start: BlockCursor,
    end: BlockCursor,
    upto: int,
) -> Seq<char>
    decreases upto - start.row,
{
    if upto <= start.row {
        Seq::empty()
    } else if upto == start.row + 1 {
        selected_piece(rows, start, end, upto - 1)
    } else {
        selected_upto(rows, start, end, upto - 1).push('\n') + selected_piece(
            rows,
            start,
            end,
            upto - 1,
        )
    }
}

/// The text of a selection from `start` to `end`.
pub open spec fn selected_rows_text(
    rows: Seq<Seq<char>>,
    start: BlockCursor,
    end: BlockCursor,
) -> Seq<char> {
    selected_upto(rows, start, end, least(end.row + 1, rows.len() as int))
}

/// Appends `piece` to `out`.
fn append_chars(out: &mut Vec<char>, piece: &[char])
    ensures
        final(out)@ == old(out)@ + piece@,
{
    let mut i: usize = 0;
    while i < piece.len()
        invariant
            i <= piece@.len(),
            out@ == old(out)@ + piece@.take(i as int),
        decreases piece@.len() - i,
    {
        out.push(piece[i]);
        i += 1;
        assert(piece@.take(i as int) =~= piece@.take(i - 1).push(piece@[i - 1]));
    }
    assert(piece@.take(i as int) =~= piece@);
}

/// The columns `from..to` of a row, without trailing spaces.
fn cut_row(row: &Vec<char>, from: usize, to: usize) -> (r: Vec<char>)
    ensures
        r@ == row_piece(row@, from as int, to as int),
{
    let limit: usize = if to <= row.len() {
        to
    } else {
        row.len()
    };
    if from >= limit {
        return Vec::new();
    }
    let mut end: usize = limit;
    while end > from && row[end - 1] == ' '
        invariant
            from <= end <= limit <= row@.len(),
            without_trailing_spaces(row@.subrange(from as int, limit as int))
                == without_trailing_spaces(row@.subrange(from as int, end as int)),
        decreases end,
    {
        assert(row@.subrange(from as int, end as int).drop_last() =~= row@.subrange(
            from as int,
            end - 1,
        ));
        end -= 1;
    }
    copy_range(row.as_slice(), from, end)
}

/// The text of a selection, row by row: each row without trailing spaces, the
/// rows joined by newlines.
pub fn block_selection_text(command: &str, snapshot: &[StyledLine], sel: &BlockSelection) -> (r:
    String)
    ensures
        r@ == selected_rows_text(block_rows(command@, snapshot@), sel.start, sel.end),
{
    let rows = collect_rows(command, snapshot);
    let ghost all = block_rows(command@, snapshot@);
    let mut out: Vec<char> = Vec::new();
    let mut i: usize = sel.start.row;
    while i < rows.len() && i <= sel.end.row
        invariant
            runs_view(rows@) == all,
            sel.start.row <= i,
            i <= rows@.len() || i == sel.start.row,
            i <= sel.end.row + 1 || i == sel.start.row,
            out@ == selected_upto(all, sel.start, sel.end, i as int),
        decreases rows@.len() - i,
    {
        assert(all[i as int] == rows@[i as int]@);
        let from: usize = if i == sel.start.row {
            sel.start.col
        } else {
            0
        };
        let to: usize = if i == sel.end.row {
            sel.end.col
        } else {
            rows[i].len()
        };
        let piece = cut_row(&rows[i], from, to);
        if i > sel.start.row {
            out.push('\n');
        }
        append_chars(&mut out, piece.as_slice());
        assert(out@ =~= selected_upto(all, sel.start, sel.end, i + 1));
        i += 1;
    }
    assert(selected_upto(all, sel.start, sel.end, i as int) == selected_rows_text(
        all,
        sel.start,
        sel.end,
    ));
    string_of(out.as_slice())
}

// ---- rows --------------------------------------------------------------

/// The length of a row up to its last cell that is not a space.
pub open spec fn typed_len(row: Seq<char>) -> nat {
    without_trailing_spaces(row).len()
}

/// The length of a row up to its last cell that is not a space.
pub fn effective_row_len(cells: &Vec<StyledCell>) -> (r: usize)
    ensures
        r == typed_len(cell_chars(cells@)),
        r <= cells@.len(),
{
    let ghost row = cell_chars(cells@);
    let mut n: usize = cells.len();
    assert(row.take(n as int) =~= row);
    while n > 0 && cells[n - 1].c == ' '
        invariant
            n <= cells@.len(),
            row == cell_chars(cells@),
            without_trailing_spaces(row) == without_trailing_spaces(row.take(n as int)),
        decreases n,
    {
        assert(row.take(n as int).drop_last() =~= row.take(n - 1));
        n -= 1;
    }
    n
}

/// The start of the run of word characters that ends before `at`.
pub open spec fn word_start(word: Seq<bool>, at: int) -> int
    decreases at,
{
    if 0 < at <= word.len() && word[at - 1] {
        word_start(word, at - 1)
    } else {
        at
    }
}

/// The end of the run of word characters that begins at `at`.
pub open spec fn word_stop(word: Seq<bool>, at: int) -> int
    decreases word.len() - at,
{
    if 0 <= at < word.len() && word[at] {
        word_stop(word, at + 1)
    } else {
        at
    }
}

/// The word around column `col`, where `word[i]` says whether column `i` holds a
/// word character; `(col, col)` where column `col` holds none or lies past the
/// end.
pub open spec fn word_around(word: Seq<bool>, col: int) -> (int, int) {
    if 0 <= col < word.len() && word[col] {
        (word_start(word, col), word_stop(word, col))
    } else {
        (col, col)
    }
}

/// Does the predicate say of every character what `is_word` says?
pub open spec fn classified_by<F: Fn(char) -> bool>(
    is_word_char: &F,
    is_word: spec_fn(char) -> bool,
) -> bool {
    forall|c: char, b: bool| #[trigger] call_ensures(*is_word_char, (c,), b) ==> b == is_word(c)
}

/// The word around column `col` of classified columns.
pub fn word_range(word: &Vec<bool>, col: usize) -> (r: (usize, usize))
    ensures
        (r.0 as int, r.1 as int) == word_around(word@, col as int),
{
    if col >= word.len() || !word[col] {
        return (col, col);
    }
    let mut start: usize = col;
    while start > 0 && word[start - 1]
        invariant
            start <= col < word@.len(),
            word_start(word@, col as int) == word_start(word@, start as int),
        decreases start,
    {
        start -= 1;
    }
    let mut end: usize = col;
    while end < word.len() && word[end]
        invariant
            col <= end <= word@.len(),
            word_stop(word@, col as int) == word_stop(word@, end as int),
        decreases word@.len() - end,
    {
        end += 1;
    }
    (start, end)
}

/// The word around column `col` of a row. The predicate says which characters
/// make up words.
pub fn word_range_in_chars<F: Fn(char) -> bool>(chars: &[char], col: usize, is_word_char: &F) -> (r:
    (usize, usize))
    requires
        forall|c: char| call_requires(*is_word_char, (c,)),
    ensures
        forall|w: spec_fn(char) -> bool|
            #![trigger classified_by(is_word_char, w)]
            classified_by(is_word_char, w) ==> (r.0 as int, r.1 as int) == word_around(
                chars@.map_values(w),
                col as int,
            ),
{
    let mut word: Vec<bool> = Vec::new();
    let mut i: usize = 0;
    while i < chars.len()
        invariant
            i <= chars@.len(),
            word@.len() == i,
            forall|c: char| call_requires(*is_word_char, (c,)),
            forall|k: int| 0 <= k < i ==> call_ensures(*is_word_char, (chars@[k],), #[trigger] word@[k]),
        decreases chars@.len() - i,
    {
        let b = is_word_char(chars[i]);
        word.push(b);
        i += 1;
    }
    assert forall|w: spec_fn(char) -> bool|
        #![trigger classified_by(is_word_char, w)]
        classified_by(is_word_char, w) implies word@ == chars@.map_values(w) by {
        assert forall|k: int| 0 <= k < word@.len() implies word@[k] == chars@.map_values(w)[k] by {
            assert(call_ensures(*is_word_char, (chars@[k],), word@[k]));
        }
        assert(word@ =~= chars@.map_values(w));
    }
    word_range(&word, col)
}

/// A word that is found is a maximal run of word characters around the column.
pub proof fn law_word_is_maximal(word: Seq<bool>, col: int)
    requires
        0 <= col < word.len(),
        word[col],
    ensures
        ({
            let (a, b) = word_around(word, col);
            &&& 0 <= a <= col < b <= word.len()
            &&& forall|k: int| a <= k < b ==> #[trigger] word[k]
            &&& a > 0 ==> !word[a - 1]
            &&& b < word.len() ==> !word[b]
        }),
{
    lemma_word_start(word, col);
    lemma_word_stop(word, col);
}

/// The run before `at` holds word characters only.
proof fn lemma_word_start(word: Seq<bool>, at: int)
    requires
        0 <= at <= word.len(),
    ensures
        0 <= word_start(word, at) <= at,
        forall|k: int| word_start(word, at) <= k < at ==> #[trigger] word[k],
        word_start(word, at) > 0 ==> !word[word_start(word, at) - 1],
    decreases at,
{
    if at > 0 && word[at - 1] {
        lemma_word_start(word, at - 1);
    }
}

/// The run from `at` holds word characters only.
proof fn lemma_word_stop(word: Seq<bool>, at: int)
    requires
        0 <= at <= word.len(),
    ensures
        at <= word_stop(word, at) <= word.len(),
        at < word.len() && word[at] ==> at < word_stop(word, at),
        forall|k: int| at <= k < word_stop(word, at) ==> #[trigger] word[k],
        word_stop(word, at) < word.len() ==> !word[word_stop(word, at)],
    decreases word.len() - at,
{
    if at < word.len() && word[at] {
        lemma_word_stop(word, at + 1);
    }
}

// ---- laws --------------------------------------------------------------

/// Positions are read row by row, and in a row from left to right.
pub proof fn law_reading_order_in_a_block(a: BlockCursor, b: BlockCursor)
    ensures
        a.row < b.row ==> cursor_le(a, b) && !cursor_le(b, a),
        a.row == b.row ==> (cursor_le(a, b) <==> a.col <= b.col),
{
}

/// A command is cut at its newlines and nowhere else.
pub proof fn law_command_is_cut_at_newlines(line: Seq<char>, rest: Seq<char>)
    requires
        !line.contains('\n'),
    ensures
        split_lines(line) == seq![line],
        split_lines(line + seq!['\n'] + rest) == seq![line] + split_lines(rest),
        line.len() > 0 ==> command_lines(line) == seq![line],
        command_lines(line + seq!['\n'] + rest) == seq![line] + split_lines(rest),
        command_lines(Seq::<char>::empty()).len() == 0,
{
    crate::text::lemma_first_index(line, '\n', 0);
    if let Some(i) = first_index(line, '\n', 0) {
        assert(line.contains(line[i]));
    }
    let all = line + seq!['\n'] + rest;
    crate::text::lemma_first_index(all, '\n', 0);
    assert(all[line.len() as int] == '\n');
    let i = first_index(all, '\n', 0).unwrap();
    if i < line.len() {
        assert(line.contains(line[i]));
    }
    assert(all.take(i) =~= line);
    assert(all.skip(i + 1) =~= rest);
}

/// The rows of a block are the lines of its command and below them the rows of its
/// output, character by character.
pub proof fn law_command_stands_above_the_output(
    command: Seq<char>,
    snapshot: Seq<StyledLine>,
    i: int,
    k: int,
)
    ensures
        ({
            let rows = block_rows(command, snapshot);
            let n = command_lines(command).len() as int;
            &&& rows.len() == n + snapshot.len()
            &&& 0 <= i < n ==> rows[i] == command_lines(command)[i]
            &&& n <= i < rows.len() ==> rows[i].len() == snapshot[i - n]@.len() && (0 <= k
                < rows[i].len() ==> rows[i][k] == snapshot[i - n]@[k].c)
        }),
{
}

/// Only spaces at the end are left out, and all of them.
pub proof fn law_spaces_at_the_end(s: Seq<char>)
    ensures
        ({
            let r = without_trailing_spaces(s);
            &&& r.len() <= s.len()
            &&& r == s.take(r.len() as int)
            &&& forall|k: int| r.len() <= k < s.len() ==> #[trigger] s[k] == ' '
            &&& r.len() > 0 ==> r.last() != ' '
            &&& typed_len(s) == r.len()
        }),
    decreases s.len(),
{
    if s.len() > 0 && s.last() == ' ' {
        law_spaces_at_the_end(s.drop_last());
        let r = without_trailing_spaces(s);
        assert(s.drop_last().take(r.len() as int) =~= s.take(r.len() as int));
        assert forall|k: int| r.len() <= k < s.len() implies #[trigger] s[k] == ' ' by {
            if k < s.len() - 1 {
                assert(s.drop_last()[k] == ' ');
            }
        }
    } else {
        assert(s.take(s.len() as int) =~= s);
    }
}

/// What a row gives: its columns from the first up to the second, as far as the row
/// goes, without the spaces behind them.
pub proof fn law_what_a_row_gives(row: Seq<char>, from: int, to: int)
    requires
        0 <= from,
    ensures
        from < to <= row.len() ==> row_piece(row, from, to) == without_trailing_spaces(
            row.subrange(from, to),
        ),
        from < row.len() <= to ==> row_piece(row, from, to) == without_trailing_spaces(
            row.skip(from),
        ),
        to <= from || row.len() <= from ==> row_piece(row, from, to).len() == 0,
{
    if from < row.len() <= to {
        assert(row.subrange(from, row.len() as int) =~= row.skip(from));
    }
}

/// A selection inside one row is what that row gives between its columns. One over
/// several rows is the first row from the first column on, a newline, and the selection
/// of the rows below from their beginning on.
pub proof fn law_selected_row_by_row(rows: Seq<Seq<char>>, start: BlockCursor, end: BlockCursor)
    requires
        start.row < rows.len(),
    ensures
        start.row == end.row ==> selected_rows_text(rows, start, end) == row_piece(
            rows[start.row as int],
            start.col as int,
            end.col as int,
        ),
        start.row < end.row && start.row + 1 < rows.len() ==> selected_rows_text(rows, start, end)
            == row_piece(
            rows[start.row as int],
            start.col as int,
            rows[start.row as int].len() as int,
        ) + seq!['\n'] + selected_rows_text(
            rows,
            BlockCursor { row: (start.row + 1) as usize, col: 0 },
            end,
        ),
        start.row < end.row && start.row + 1 == rows.len() ==> selected_rows_text(rows, start, end)
            == row_piece(
            rows[start.row as int],
            start.col as int,
            rows[start.row as int].len() as int,
        ),
{
    if start.row < end.row && start.row + 1 < rows.len() {
        lemma_selected_from_the_front(
            rows,
            start,
            end,
            least(end.row + 1, rows.len() as int),
        );
    }
}

/// A selection of several rows begins with its first.
proof fn lemma_selected_from_the_front(
    rows: Seq<Seq<char>>,
    start: BlockCursor,
    end: BlockCursor,
    upto: int,
)
    requires
        start.row + 1 < upto <= rows.len(),
        start.row < end.row,
        upto <= end.row + 1,
        start.row + 1 <= usize::MAX,
    ensures
        selected_upto(rows, start, end, upto) == selected_piece(rows, start, end, start.row as int)
            + seq!['\n'] + selected_upto(
            rows,
            BlockCursor { row: (start.row + 1) as usize, col: 0 },
            end,
            upto,
        ),
    decreases upto - start.row,
{
    let next = BlockCursor { row: (start.row + 1) as usize, col: 0 };
    let first = selected_piece(rows, start, end, start.row as int);
    assert(selected_piece(rows, start, end, upto - 1) == selected_piece(rows, next, end, upto - 1));
    if upto == start.row + 2 {
        assert(selected_upto(rows, start, end, upto - 1) == first);
        assert(selected_upto(rows, start, end, upto) =~= first + seq!['\n'] + selected_upto(
            rows,
            next,
            end,
            upto,
        ));
    } else {
        lemma_selected_from_the_front(rows, start, end, upto - 1);
        assert(selected_upto(rows, start, end, upto) =~= first + seq!['\n'] + selected_upto(
            rows,
            next,
            end,
            upto,
        ));
    }
}

/// Where no word character stands, there is no word.
pub proof fn law_no_word_between_words(word: Seq<bool>, col: int)
    requires
        0 <= col,
        col >= word.len() || !word[col],
    ensures
        word_around(word, col) == (col, col),
{
}

/// A selection that starts behind the last row, or ends above the row in which it starts,
/// is empty.
pub proof fn law_selections_of_nothing(rows: Seq<Seq<char>>, start: BlockCursor, end: BlockCursor)
    requires
        start.row >= rows.len() || end.row < start.row,
    ensures
        selected_rows_text(rows, start, end).len() == 0,
{
}

} // verus!
