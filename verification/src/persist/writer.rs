//! Writing down what a pane has shown.

use crate::block::{chips_view, meta_chips, BlockId, BlockMeta};
use crate::persist::chunk::{encode_chunk, is_chunk_of};
use crate::persist::store::{
    pane_dir_name, pane_name, session_dir_name, session_name, session_pane_path, PaneRowId,
    SessionId,
};
use crate::terminal::{line_cells, StyledLine};
use crate::text::{all_digits, decimal, decimal_text, digits_value, is_digit, lemma_decimal_value};
use vstd::prelude::*;
use vstd::string::*;

verus! {

/// A finished block, ready to be written down.
#[derive(Debug, Clone, PartialEq, Eq)]
pub struct SealedSnapshot {
    pub block_id: BlockId,
    /// The output, as logical lines.
    pub lines: Vec<StyledLine>,
    /// How wide the pane was.
    pub emit_cols: u16,
    pub start_time_ms: i64,
    pub end_time_ms: i64,
    /// Its command, exit code, directory and git state.
    pub meta: BlockMeta,
}

// ---- names -------------------------------------------------------------

/// So many zeros.
pub open spec fn zeros(n: nat) -> Seq<char> {
    Seq::new(n, |i: int| '0')
}

/// A number in at least eight digits.
pub open spec fn eight_digits(n: nat) -> Seq<char> {
    let digits = decimal(n);
    if digits.len() >= 8 {
        digits
    } else {
        zeros((8 - digits.len()) as nat) + digits
    }
}

/// The file of a session's chunk number `seq`.
pub open spec fn chunk_name(seq: u64) -> Seq<char> {
    eight_digits(seq as nat) + ".chunk.tmck"@
}

/// The file in which a chunk is written before it is moved to its place.
pub open spec fn temp_chunk_name(seq: u64) -> Seq<char> {
    "."@ + chunk_name(seq) + ".tmp"@
}

/// The path of a chunk below the data directory.
pub open spec fn chunk_path(session: SessionId, pane: PaneRowId, seq: u64) -> Seq<char> {
    "scrollback/"@ + session_name(session) + "/"@ + pane_name(pane) + "/"@ + chunk_name(seq)
}

/// The file of a session's chunk number `seq`.
pub fn chunk_file_name(seq: u64) -> (r: String)
    ensures
        r@ == chunk_name(seq),
{
    let digits = decimal_text(seq);
    let n: usize = digits.as_str().unicode_len();
    let mut out = String::new();
    if n < 8 {
        let missing: usize = 8 - n;
        let mut i: usize = 0;
        assert(out@ =~= zeros(0));
        while i < missing
            invariant
                i <= missing,
                out@ == zeros(i as nat),
            decreases missing - i,
        {
            out.push('0');
            i += 1;
            assert(out@ =~= zeros(i as nat));
        }
    }
    out.append(digits.as_str());
    assert(out@ =~= eight_digits(seq as nat));
    out.append(".chunk.tmck");
    out
}

/// The file in which a chunk is written before it is moved to its place.
pub fn temp_file_name(seq: u64) -> (r: String)
    ensures
        r@ == temp_chunk_name(seq),
{
    let mut out = ".".to_owned();
    out.append(chunk_file_name(seq).as_str());
    out.append(".tmp");
    out
}

/// The path of a chunk below the data directory.
pub fn relative_path(session: SessionId, pane: PaneRowId, seq: u64) -> (r: String)
    ensures
        r@ == chunk_path(session, pane, seq),
{
    let mut out = "scrollback/".to_owned();
    out.append(session_dir_name(session).as_str());
    out.append("/");
    out.append(pane_dir_name(pane).as_str());
    out.append("/");
    out.append(chunk_file_name(seq).as_str());
    out
}

// ---- the writer --------------------------------------------------------

/// Where a pane's writer stands: the number of the next chunk in the session,
/// and the number of logical lines that the pane has written down.
#[derive(Debug, Clone, Copy, PartialEq, Eq, Structural)]
pub struct WriterCursor {
    pub next_seq: u64,
    pub line: u64,
}

/// A chunk to be written: the file, and what the index says of it.
#[derive(Debug, Clone)]
pub struct PreparedChunk {
    pub file_name: String,
    pub temp_name: String,
    pub bytes: Vec<u8>,
    /// The path in the index, below the data directory.
    pub path: String,
    pub start_line: i64,
    pub end_line: i64,
    pub emit_cols: i64,
    pub start_time: i64,
    pub end_time: i64,
    pub compressed: bool,
    pub byte_size: i64,
    /// What the index says of the block besides: name and value of each chip.
    pub chips: Vec<(String, String)>,
}

/// Does the chunk hold the block, at the given place?
pub open spec fn is_prepared(
    c: PreparedChunk,
    session: SessionId,
    pane: PaneRowId,
    at: WriterCursor,
    block: SealedSnapshot,
) -> bool {
    &&& c.file_name@ == chunk_name(at.next_seq)
    &&& c.temp_name@ == temp_chunk_name(at.next_seq)
    &&& c.path@ == chunk_path(session, pane, at.next_seq)
    &&& is_chunk_of(line_cells(block.lines@), true, c.bytes@)
    &&& c.start_line == at.line
    &&& c.end_line == at.line + block.lines@.len()
    &&& c.emit_cols == block.emit_cols
    &&& c.start_time == block.start_time_ms
    &&& c.end_time == block.end_time_ms
    &&& c.compressed
    &&& c.bytes@.len() <= i64::MAX ==> c.byte_size == c.bytes@.len()
    &&& chips_view(c.chips@) == meta_chips(block.meta@)
}

/// A cursor after a chunk of `lines` lines was written.
pub open spec fn cursor_after(at: WriterCursor, lines: nat) -> WriterCursor {
    WriterCursor { next_seq: (at.next_seq + 1) as u64, line: (at.line + lines) as u64 }
}

impl WriterCursor {
    /// The cursor of a new session. A new pane starts at line 0, one that is
    /// taken up again behind its last line.
    pub fn starting_at(start_line: u64) -> (r: WriterCursor)
        ensures
            r == (WriterCursor { next_seq: 1, line: start_line }),
    {
        WriterCursor { next_seq: 1, line: start_line }
    }

    /// Makes the next chunk of a block, with its chips. Every block gets one,
    /// with output or without: its command and exit code are worth restoring.
    pub fn prepare(&self, session: SessionId, pane: PaneRowId, block: &SealedSnapshot) -> (r:
        PreparedChunk)
        requires
            self.line + block.lines@.len() <= i64::MAX,
            forall|i: int|
                0 <= i < block.lines@.len() ==> (#[trigger] block.lines@[i])@.len() <= u32::MAX,
        ensures
            is_prepared(r, session, pane, *self, *block),
    {
        let lines: u64 = block.lines.len() as u64;
        let bytes = encode_chunk(block.lines.as_slice(), true);
        let byte_size: i64 = bytes.len() as i64;
        PreparedChunk {
            file_name: chunk_file_name(self.next_seq),
            temp_name: temp_file_name(self.next_seq),
            path: relative_path(session, pane, self.next_seq),
            start_line: self.line as i64,
            end_line: (self.line + lines) as i64,
            emit_cols: block.emit_cols as i64,
            start_time: block.start_time_ms,
            end_time: block.end_time_ms,
            compressed: true,
            byte_size,
            chips: block.meta.to_chips(),
            bytes,
        }
    }

    /// Moves on behind a chunk that was written, or stays where one was not.
    pub fn advance(&mut self, written: Option<u64>)
        requires
            written matches Some(lines) ==> old(self).line + lines <= u64::MAX
                && old(self).next_seq < u64::MAX,
        ensures
            *final(self) == (match written {
                Some(lines) => cursor_after(*old(self), lines as nat),
                None => *old(self),
            }),
    {
        if let Some(lines) = written {
            self.line = self.line + lines;
            self.next_seq = self.next_seq + 1;
        }
    }
}

// ---- laws --------------------------------------------------------------

/// The cursor after chunks of so many lines each.
pub open spec fn cursor_after_all(at: WriterCursor, counts: Seq<nat>) -> WriterCursor
    decreases counts.len(),
{
    if counts.len() == 0 {
        at
    } else {
        cursor_after(cursor_after_all(at, counts.drop_last()), counts.last())
    }
}

/// All the lines of some chunks.
pub open spec fn line_count(counts: Seq<nat>) -> nat
    decreases counts.len(),
{
    if counts.len() == 0 {
        0
    } else {
        line_count(counts.drop_last()) + counts.last()
    }
}

/// The chunks of a pane follow each other without a gap and without overlap:
/// after any number of them, the next starts at the line behind them all, and
/// its number is the next one.
pub proof fn law_chunks_are_contiguous(at: WriterCursor, counts: Seq<nat>)
    requires
        at.line + line_count(counts) <= u64::MAX,
        at.next_seq + counts.len() <= u64::MAX,
    ensures
        cursor_after_all(at, counts).line == at.line + line_count(counts),
        cursor_after_all(at, counts).next_seq == at.next_seq + counts.len(),
    decreases counts.len(),
{
    if counts.len() > 0 {
        law_chunks_are_contiguous(at, counts.drop_last());
    }
}

/// Zeros in front change no number.
proof fn lemma_zeros_value(n: nat, digits: Seq<char>)
    ensures
        digits_value(zeros(n) + digits) == digits_value(digits),
    decreases digits.len(), n,
{
    let s = zeros(n) + digits;
    if digits.len() == 0 {
        assert(s =~= zeros(n));
        if n > 0 {
            let less = (n - 1) as nat;
            assert(s.drop_last() =~= zeros(less) + digits);
            lemma_zeros_value(less, digits);
        } else {
            assert(s =~= digits);
        }
    } else {
        lemma_zeros_value(n, digits.drop_last());
        assert(s.drop_last() =~= zeros(n) + digits.drop_last());
    }
}

/// A number in eight digits or more writes that number.
proof fn lemma_eight_digits_value(n: nat)
    ensures
        digits_value(eight_digits(n)) == n,
        all_digits(eight_digits(n)),
{
    lemma_decimal_value(n);
    let digits = decimal(n);
    if digits.len() < 8 {
        let missing = (8 - digits.len()) as nat;
        lemma_zeros_value(missing, digits);
        let all = eight_digits(n);
        assert forall|i: int| 0 <= i < all.len() implies is_digit(#[trigger] all[i]) by {
            if i >= missing {
                assert(all[i] == digits[i - missing]);
            }
        }
    }
}

/// Two chunks of a session never share a file.
pub proof fn law_chunk_names_are_distinct(a: u64, b: u64)
    requires
        chunk_name(a) == chunk_name(b),
    ensures
        a == b,
{
    lemma_eight_digits_value(a as nat);
    lemma_eight_digits_value(b as nat);
    let x = eight_digits(a as nat);
    let y = eight_digits(b as nat);
    let tail = ".chunk.tmck"@;
    assert(chunk_name(a).len() == x.len() + tail.len());
    assert(chunk_name(b).len() == y.len() + tail.len());
    assert(x =~= chunk_name(a).take(x.len() as int));
    assert(y =~= chunk_name(b).take(y.len() as int));
}

/// A block without output takes a number, but no line.
pub proof fn law_empty_block_takes_no_line(at: WriterCursor)
    ensures
        cursor_after(at, 0).line == at.line,
{
}

/// The name of a chunk's file is its number in at least eight digits, with no more zeros
/// in front than that takes, and the ending `.chunk.tmck`. While it is written it is
/// hidden, and ends in `.tmp` besides.
pub proof fn law_names_of_chunk_files(seq: u64)
    ensures
        ({
            let name = chunk_name(seq);
            let n = name.len() - 11;
            let digits = name.take(n);
            &&& n >= 8
            &&& all_digits(digits)
            &&& digits_value(digits) == seq
            &&& n > 8 ==> digits[0] != '0'
            &&& name.skip(n) == ".chunk.tmck"@
            &&& temp_chunk_name(seq) == seq!['.'] + name + ".tmp"@
        }),
{
    reveal_strlit(".chunk.tmck");
    reveal_strlit(".");
    lemma_eight_digits_value(seq as nat);
    let digits = eight_digits(seq as nat);
    let name = chunk_name(seq);
    let n = name.len() - 11;
    assert(name.take(n) =~= digits);
    assert(name.skip(n) =~= ".chunk.tmck"@);
    assert("."@ =~= seq!['.']);
    lemma_decimal_value(seq as nat);
    if n > 8 {
        assert(digits == decimal(seq as nat));
        if seq == 0 {
            assert(decimal(0).len() == 1);
        }
        crate::text::law_numerals(0, seq as nat);
    }
}

/// The index finds a chunk where it was written: its path, below the data directory, is
/// that of the directory of its pane and session with the name of its file.
pub proof fn law_index_finds_the_chunk(
    root: Seq<char>,
    session: SessionId,
    pane: PaneRowId,
    seq: u64,
)
    requires
        root.len() > 0,
        root.last() != '/',
    ensures
        root + seq!['/'] + chunk_path(session, pane, seq) == session_pane_path(root, session, pane)
            + seq!['/'] + chunk_name(seq),
{
    reveal_strlit("scrollback/");
    reveal_strlit("scrollback");
    reveal_strlit("/");
    crate::persist::store::law_where_scrollback_lies(root, session, pane);
    assert("/"@ =~= seq!['/']);
    assert("scrollback/"@ =~= "scrollback"@ + seq!['/']);
    assert(root + seq!['/'] + chunk_path(session, pane, seq) =~= session_pane_path(
        root,
        session,
        pane,
    ) + seq!['/'] + chunk_name(seq));
}

/// What the index says of a chunk: the lines behind those that the pane had, one for each
/// line of the block; the width, the times and the size; and that it is compressed. The
/// chunk holds the lines of the block, and its chips what is known of it.
pub proof fn law_what_the_index_says(
    c: PreparedChunk,
    session: SessionId,
    pane: PaneRowId,
    at: WriterCursor,
    block: SealedSnapshot,
)
    requires
        is_prepared(c, session, pane, at, block),
    ensures
        c.start_line == at.line,
        c.end_line - c.start_line == block.lines@.len(),
        c.end_line == at.line + block.lines@.len(),
        c.emit_cols == block.emit_cols,
        c.start_time == block.start_time_ms,
        c.end_time == block.end_time_ms,
        c.compressed,
        c.bytes@.len() <= i64::MAX ==> c.byte_size == c.bytes@.len(),
        c.file_name@ == chunk_name(at.next_seq),
        c.temp_name@ == temp_chunk_name(at.next_seq),
        c.path@ == chunk_path(session, pane, at.next_seq),
        is_chunk_of(line_cells(block.lines@), true, c.bytes@),
        chips_view(c.chips@) == meta_chips(block.meta@),
{
}

/// A chunk that was written takes one number and its lines.
pub proof fn law_chunk_takes_its_lines(at: WriterCursor, lines: nat)
    requires
        at.line + lines <= u64::MAX,
        at.next_seq < u64::MAX,
    ensures
        cursor_after(at, lines).line == at.line + lines,
        cursor_after(at, lines).next_seq == at.next_seq + 1,
{
}

} // verus!
