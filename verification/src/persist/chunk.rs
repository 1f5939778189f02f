//! The scrollback chunk format.
//!
//! A chunk holds a contiguous range of a pane's transcript as logical lines:
//! what the program emitted between hard newlines, whatever the width of the
//! grid was.
//!
//! ```text
//! header (16 bytes): "TMCK", version u32 le, flags u32 le, reserved u32 le
//! body (zstd-compressed where flags bit 0 is set): record*
//! record: line_len u32 le, style_len u32 le, line bytes (UTF-8), style bytes
//! style:  run_count u32 le, run_count x { len u32 le, fg, bg, flags u16 le }
//! color:  0x00 u16 le (named) | 0x01 u8 u8 u8 (rgb) | 0x02 u8 (indexed)
//! ```

use vstd::prelude::*;
use vstd::string::*;
use vstd::utf8::{
    decode_utf8, encode_utf8, encode_utf8_decode_utf8, encode_utf8_valid_utf8, valid_utf8,
};

use crate::terminal::{
    cell_chars, known_flags, line_cells, Color, NamedColor, Rgb, StyledCell, StyledLine, FLAG_ALL,
    FLAG_LEADING_WIDE_CHAR_SPACER, FLAG_WIDE_CHAR_SPACER, FLAG_WRAPLINE,
};
use crate::text::{chars_of, decimal, decimal_text, utf8_text};

verus! {

/// The first four bytes of every chunk: `TMCK`.
pub const CHUNK_MAGIC: [u8; 4] = [0x54, 0x4d, 0x43, 0x4b];

/// The version of the format.
pub const CHUNK_VERSION: u32 = 1;

/// `flags` bit 0: the body is compressed.
pub const FLAG_COMPRESSED: u32 = 1;

/// The bytes that begin a record: its two length fields.
pub const RECORD_HEAD: usize = 8;

/// The compression level used on seal.
pub const ZSTD_LEVEL: i32 = 3;

/// A color as it is stored in a chunk.
#[derive(Debug, Clone, Copy, PartialEq, Eq, Structural)]
pub enum ChunkColor {
    /// A named color, by number.
    Named(u16),
    /// A 24-bit color.
    Rgb(u8, u8, u8),
    /// A palette index.
    Indexed(u8),
}

/// Everything that can go wrong in decoding a chunk.
#[derive(Debug, Clone, Copy, PartialEq, Eq, Structural)]
pub enum ChunkError {
    /// The first four bytes are not `TMCK`.
    BadMagic,
    /// The header declares another version.
    BadVersion(u32),
    /// The bytes ran out inside a field.
    Truncated,
    /// Bytes remained after the last complete record, too few for the head of
    /// another; or, inside a record, after its last style run.
    TrailingBytes,
    /// A color tag is not one of 0, 1, 2.
    BadColorTag(u8),
    /// No named color has this number.
    UnknownNamedColor(u16),
    /// The line bytes are not UTF-8.
    BadUtf8,
    /// The line has another number of characters than of styled cells.
    CellCountMismatch { chars: usize, cells: usize },
    /// The body could not be decompressed.
    Decompress,
}

/// A digit of a hexadecimal number.
pub open spec fn hex_char(d: u8) -> char {
    if d < 10 {
        (d + '0' as int) as char
    } else {
        (d - 10 + 'a' as int) as char
    }
}

/// A byte as a hexadecimal number.
pub open spec fn hex_number(b: u8) -> Seq<char> {
    if b < 16 {
        seq![hex_char(b)]
    } else {
        seq![hex_char(b / 16), hex_char(b % 16)]
    }
}

/// What is said of an error.
pub open spec fn chunk_error_text(e: ChunkError) -> Seq<char> {
    match e {
        ChunkError::BadMagic => "bad chunk magic (not TMCK)"@,
        ChunkError::BadVersion(v) => "unsupported chunk version "@ + decimal(v as nat),
        ChunkError::Truncated => "chunk truncated"@,
        ChunkError::TrailingBytes => "trailing garbage after last chunk record"@,
        ChunkError::BadColorTag(t) => "invalid color tag 0x"@ + hex_number(t),
        ChunkError::UnknownNamedColor(d) => "unknown named-color discriminant "@ + decimal(
            d as nat,
        ),
        ChunkError::BadUtf8 => "line bytes are not valid UTF-8"@,
        ChunkError::CellCountMismatch { chars, cells } => "cell-count mismatch: "@ + decimal(
            chars as nat,
        ) + " chars but "@ + decimal(cells as nat) + " styled cells"@,
        ChunkError::Decompress => "zstd decompression failed"@,
    }
}

/// A digit of a hexadecimal number.
fn hex_digit_char(d: u8) -> (r: char)
    requires
        d < 16,
    ensures
        r == hex_char(d),
{
    if d < 10 {
        (d + 48u8) as char
    } else {
        (d - 10 + 97u8) as char
    }
}

impl ChunkError {
    /// What is said of the error.
    pub fn message(&self) -> (r: String)
        ensures
            r@ == chunk_error_text(*self),
    {
        match *self {
            ChunkError::BadMagic => "bad chunk magic (not TMCK)".to_owned(),
            ChunkError::BadVersion(v) => {
                let mut out = "unsupported chunk version ".to_owned();
                out.append(decimal_text(v as u64).as_str());
                out
            },
            ChunkError::Truncated => "chunk truncated".to_owned(),
            ChunkError::TrailingBytes => "trailing garbage after last chunk record".to_owned(),
            ChunkError::BadColorTag(t) => {
                let mut out = "invalid color tag 0x".to_owned();
                let ghost head = out@;
                if t >= 16 {
                    out.push(hex_digit_char(t / 16));
                }
                out.push(hex_digit_char(t % 16));
                assert(out@ =~= head + hex_number(t));
                out
            },
            ChunkError::UnknownNamedColor(d) => {
                let mut out = "unknown named-color discriminant ".to_owned();
                out.append(decimal_text(d as u64).as_str());
                out
            },
            ChunkError::BadUtf8 => "line bytes are not valid UTF-8".to_owned(),
            ChunkError::CellCountMismatch { chars, cells } => {
                let mut out = "cell-count mismatch: ".to_owned();
                out.append(decimal_text(chars as u64).as_str());
                out.append(" chars but ");
                out.append(decimal_text(cells as u64).as_str());
                out.append(" styled cells");
                out
            },
            ChunkError::Decompress => "zstd decompression failed".to_owned(),
        }
    }
}

// ---- named colors ----------------------------------------------------

/// The number of a named color: 0 to 15 for the sixteen palette colors, 256
/// on for the others.
pub open spec fn named_number(n: NamedColor) -> u16 {
    match n {
        NamedColor::Black => 0,
        NamedColor::Red => 1,
        NamedColor::Green => 2,
        NamedColor::Yellow => 3,
        NamedColor::Blue => 4,
        NamedColor::Magenta => 5,
        NamedColor::Cyan => 6,
        NamedColor::White => 7,
        NamedColor::BrightBlack => 8,
        NamedColor::BrightRed => 9,
        NamedColor::BrightGreen => 10,
        NamedColor::BrightYellow => 11,
        NamedColor::BrightBlue => 12,
        NamedColor::BrightMagenta => 13,
        NamedColor::BrightCyan => 14,
        NamedColor::BrightWhite => 15,
        NamedColor::Foreground => 256,
        NamedColor::Background => 257,
        NamedColor::Cursor => 258,
        NamedColor::DimBlack => 259,
        NamedColor::DimRed => 260,
        NamedColor::DimGreen => 261,
        NamedColor::DimYellow => 262,
        NamedColor::DimBlue => 263,
        NamedColor::DimMagenta => 264,
        NamedColor::DimCyan => 265,
        NamedColor::DimWhite => 266,
        NamedColor::BrightForeground => 267,
        NamedColor::DimForeground => 268,
    }
}

/// The number of a named color.
pub fn named_to_u16(n: NamedColor) -> (r: u16)
    ensures
        r == named_number(n),
{
    match n {
        NamedColor::Black => 0,
        NamedColor::Red => 1,
        NamedColor::Green => 2,
        NamedColor::Yellow => 3,
        NamedColor::Blue => 4,
        NamedColor::Magenta => 5,
        NamedColor::Cyan => 6,
        NamedColor::White => 7,
        NamedColor::BrightBlack => 8,
        NamedColor::BrightRed => 9,
        NamedColor::BrightGreen => 10,
        NamedColor::BrightYellow => 11,
        NamedColor::BrightBlue => 12,
        NamedColor::BrightMagenta => 13,
        NamedColor::BrightCyan => 14,
        NamedColor::BrightWhite => 15,
        NamedColor::Foreground => 256,
        NamedColor::Background => 257,
        NamedColor::Cursor => 258,
        NamedColor::DimBlack => 259,
        NamedColor::DimRed => 260,
        NamedColor::DimGreen => 261,
        NamedColor::DimYellow => 262,
        NamedColor::DimBlue => 263,
        NamedColor::DimMagenta => 264,
        NamedColor::DimCyan => 265,
        NamedColor::DimWhite => 266,
        NamedColor::BrightForeground => 267,
        NamedColor::DimForeground => 268,
    }
}

/// Is `d` the number of a named color?
pub open spec fn is_named_number(d: u16) -> bool {
    d <= 15 || 256 <= d <= 268
}

/// The named color with number `d`.
pub fn named_from_u16(d: u16) -> (r: Option<NamedColor>)
    ensures
        match r {
            Some(n) => is_named_number(d) && named_number(n) == d,
            None => !is_named_number(d),
        },
{
    match d {
        0 => Some(NamedColor::Black),
        1 => Some(NamedColor::Red),
        2 => Some(NamedColor::Green),
        3 => Some(NamedColor::Yellow),
        4 => Some(NamedColor::Blue),
        5 => Some(NamedColor::Magenta),
        6 => Some(NamedColor::Cyan),
        7 => Some(NamedColor::White),
        8 => Some(NamedColor::BrightBlack),
        9 => Some(NamedColor::BrightRed),
        10 => Some(NamedColor::BrightGreen),
        11 => Some(NamedColor::BrightYellow),
        12 => Some(NamedColor::BrightBlue),
        13 => Some(NamedColor::BrightMagenta),
        14 => Some(NamedColor::BrightCyan),
        15 => Some(NamedColor::BrightWhite),
        256 => Some(NamedColor::Foreground),
        257 => Some(NamedColor::Background),
        258 => Some(NamedColor::Cursor),
        259 => Some(NamedColor::DimBlack),
        260 => Some(NamedColor::DimRed),
        261 => Some(NamedColor::DimGreen),
        262 => Some(NamedColor::DimYellow),
        263 => Some(NamedColor::DimBlue),
        264 => Some(NamedColor::DimMagenta),
        265 => Some(NamedColor::DimCyan),
        266 => Some(NamedColor::DimWhite),
        267 => Some(NamedColor::BrightForeground),
        268 => Some(NamedColor::DimForeground),
        _ => None,
    }
}

/// The stored form of a color.
pub open spec fn stored_color(c: Color) -> ChunkColor {
    match c {
        Color::Named(n) => ChunkColor::Named(named_number(n)),
        Color::Spec(rgb) => ChunkColor::Rgb(rgb.r, rgb.g, rgb.b),
        Color::Indexed(i) => ChunkColor::Indexed(i),
    }
}

/// Is `s` the stored form of some color?
pub open spec fn storable(s: ChunkColor) -> bool {
    s matches ChunkColor::Named(d) ==> is_named_number(d)
}

/// The named color with a given number, where there is one.
pub open spec fn named_of(d: u16) -> NamedColor {
    choose|n: NamedColor| named_number(n) == d
}

/// The color that a stored form stands for.
pub open spec fn loaded_color(s: ChunkColor) -> Result<Color, ChunkError> {
    match s {
        ChunkColor::Named(d) => if is_named_number(d) {
            Ok(Color::Named(named_of(d)))
        } else {
            Err(ChunkError::UnknownNamedColor(d))
        },
        ChunkColor::Rgb(r, g, b) => Ok(Color::Spec(Rgb { r, g, b })),
        ChunkColor::Indexed(i) => Ok(Color::Indexed(i)),
    }
}

/// Two named colors with the same number are the same color.
proof fn lemma_named_number_injective(a: NamedColor, b: NamedColor)
    requires
        named_number(a) == named_number(b),
    ensures
        a == b,
{
}

impl ChunkColor {
    /// The stored form of a color.
    pub fn from_ansi(c: Color) -> (r: ChunkColor)
        ensures
            r == stored_color(c),
    {
        match c {
            Color::Named(n) => ChunkColor::Named(named_to_u16(n)),
            Color::Spec(rgb) => ChunkColor::Rgb(rgb.r, rgb.g, rgb.b),
            Color::Indexed(i) => ChunkColor::Indexed(i),
        }
    }

    /// The color that this stored form stands for; an unknown named color is
    /// refused rather than guessed.
    pub fn to_ansi(self) -> (r: Result<Color, ChunkError>)
        ensures
            r == loaded_color(self),
            r matches Ok(c) ==> stored_color(c) == self,
    {
        match self {
            ChunkColor::Named(d) => match named_from_u16(d) {
                Some(n) => {
                    proof {
                        lemma_named_number_injective(n, named_of(d));
                    }
                    Ok(Color::Named(n))
                },
                None => Err(ChunkError::UnknownNamedColor(d)),
            },
            ChunkColor::Rgb(r, g, b) => Ok(Color::Spec(Rgb { r, g, b })),
            ChunkColor::Indexed(i) => Ok(Color::Indexed(i)),
        }
    }
}

/// Loading the stored form of a color gives the color back.
pub proof fn law_color_store_load(c: Color)
    ensures
        loaded_color(stored_color(c)) == Ok::<Color, ChunkError>(c),
{
    if let Color::Named(n) = c {
        lemma_named_number_injective(n, named_of(named_number(n)));
    }
}

// ---- the format, as bytes ---------------------------------------------

/// Two bytes, least significant first.
pub open spec fn le16(x: u16) -> Seq<u8> {
    seq![(x % 256) as u8, (x / 256) as u8]
}

/// Four bytes, least significant first.
pub open spec fn le32(x: u32) -> Seq<u8> {
    seq![
        (x % 256) as u8,
        (x / 256 % 256) as u8,
        (x / 65536 % 256) as u8,
        (x / 16777216) as u8,
    ]
}

/// The number that two bytes write.
pub open spec fn value16(b: Seq<u8>) -> u16
    recommends
        b.len() == 2,
{
    (b[0] + 256 * b[1]) as u16
}

/// The number that four bytes write.
pub open spec fn value32(b: Seq<u8>) -> u32
    recommends
        b.len() == 4,
{
    (b[0] + 256 * b[1] + 65536 * b[2] + 16777216 * b[3]) as u32
}

/// A length as the format's 32-bit field holds it.
pub open spec fn length_field(n: nat) -> u32 {
    (n % 0x1_0000_0000) as u32
}

/// The bytes of a stored color.
pub open spec fn color_bytes(c: ChunkColor) -> Seq<u8> {
    match c {
        ChunkColor::Named(d) => seq![0u8] + le16(d),
        ChunkColor::Rgb(r, g, b) => seq![1u8, r, g, b],
        ChunkColor::Indexed(i) => seq![2u8, i],
    }
}

/// The style of a cell: everything but its character.
#[derive(Clone, Copy)]
pub struct Style {
    pub fg: Color,
    pub bg: Color,
    pub flags: u16,
}

/// The style of a cell.
pub open spec fn style_of(c: StyledCell) -> Style {
    Style { fg: c.fg, bg: c.bg, flags: c.flags }
}

/// The style of each cell.
pub open spec fn styles_of(cells: Seq<StyledCell>) -> Seq<Style> {
    cells.map_values(|c: StyledCell| style_of(c))
}

/// A run of cells with one style.
#[derive(Clone, Copy)]
pub struct StyleRun {
    pub len: u32,
    pub fg: ChunkColor,
    pub bg: ChunkColor,
    pub flags: u16,
}

/// Does a run have the style of a cell?
pub open spec fn run_matches(run: StyleRun, cell: StyledCell) -> bool {
    run.fg == stored_color(cell.fg) && run.bg == stored_color(cell.bg) && run.flags == cell.flags
}

/// The maximal runs of equal style, in order.
pub open spec fn runs_of(cells: Seq<StyledCell>) -> Seq<StyleRun>
    decreases cells.len(),
{
    if cells.len() == 0 {
        Seq::empty()
    } else {
        let before = runs_of(cells.drop_last());
        let cell = cells.last();
        if before.len() > 0 && run_matches(before.last(), cell) {
            let last = before.last();
            before.drop_last().push(
                StyleRun { len: (last.len + 1) as u32, fg: last.fg, bg: last.bg, flags: last.flags },
            )
        } else {
            before.push(
                StyleRun {
                    len: 1,
                    fg: stored_color(cell.fg),
                    bg: stored_color(cell.bg),
                    flags: cell.flags,
                },
            )
        }
    }
}

/// The bytes of a style run.
pub open spec fn run_bytes(run: StyleRun) -> Seq<u8> {
    le32(run.len) + color_bytes(run.fg) + color_bytes(run.bg) + le16(run.flags)
}

/// The bytes of all style runs, one after the other.
pub open spec fn all_run_bytes(runs: Seq<StyleRun>) -> Seq<u8>
    decreases runs.len(),
{
    if runs.len() == 0 {
        Seq::empty()
    } else {
        all_run_bytes(runs.drop_last()) + run_bytes(runs.last())
    }
}

/// The style block of a line.
pub open spec fn style_bytes(cells: Seq<StyledCell>) -> Seq<u8> {
    le32(runs_of(cells).len() as u32) + all_run_bytes(runs_of(cells))
}

/// The text block of a line.
pub open spec fn text_bytes(cells: Seq<StyledCell>) -> Seq<u8> {
    encode_utf8(cell_chars(cells))
}

/// The record of one line.
pub open spec fn line_bytes(cells: Seq<StyledCell>) -> Seq<u8> {
    le32(length_field(text_bytes(cells).len())) + le32(length_field(style_bytes(cells).len()))
        + text_bytes(cells) + style_bytes(cells)
}

/// The records of all lines, one after the other.
pub open spec fn body_bytes(lines: Seq<Seq<StyledCell>>) -> Seq<u8>
    decreases lines.len(),
{
    if lines.len() == 0 {
        Seq::empty()
    } else {
        body_bytes(lines.drop_last()) + line_bytes(lines.last())
    }
}

/// The header of a chunk.
pub open spec fn header_bytes(flags: u32) -> Seq<u8> {
    CHUNK_MAGIC@ + le32(CHUNK_VERSION) + le32(flags) + le32(0)
}

/// Is `bytes` a chunk that holds `lines`? The body stands in it as it is,
/// or, where compression was asked for and gave a frame, as that frame.
pub open spec fn is_chunk_of(lines: Seq<Seq<StyledCell>>, compress: bool, bytes: Seq<u8>) -> bool {
    match zstd_frame(body_bytes(lines), ZSTD_LEVEL) {
        Some(frame) if compress => {
            &&& bytes == header_bytes(FLAG_COMPRESSED) + frame
            &&& zstd_contents(frame) == Some(body_bytes(lines))
        },
        _ => bytes == header_bytes(0) + body_bytes(lines),
    }
}

// ---- compression -----------------------------------------------------

/// The frame that `zstd::stream::encode_all` makes of `data` at `level`, if it
/// makes one.
pub uninterp spec fn zstd_frame(data: Seq<u8>, level: i32) -> Option<Seq<u8>>;

/// What `zstd::stream::decode_all` gets out of `frame`, if anything.
pub uninterp spec fn zstd_contents(frame: Seq<u8>) -> Option<Seq<u8>>;

/// `zstd::stream::encode_all` makes a frame that decompresses to what it was
/// made of, or fails. Want of memory is left aside.
#[verifier::external_body]
fn zstd_compress(data: &[u8], level: i32) -> (r: Option<Vec<u8>>)
    ensures
        match r {
            Some(frame) => zstd_frame(data@, level) == Some(frame@) && zstd_contents(frame@)
                == Some(data@),
            None => zstd_frame(data@, level) is None,
        },
{
    zstd::stream::encode_all(data, level).ok()
}

/// `zstd::stream::decode_all` gives the contents of a frame, or an error
/// where the bytes are no frame. Want of memory is left aside.
#[verifier::external_body]
fn zstd_decompress(frame: &[u8]) -> (r: Option<Vec<u8>>)
    ensures
        match r {
            Some(data) => zstd_contents(frame@) == Some(data@),
            None => zstd_contents(frame@) is None,
        },
{
    zstd::stream::decode_all(frame).ok()
}

// ---- encode ----------------------------------------------------------

/// Appends `bytes` to `out`.
fn put_bytes(out: &mut Vec<u8>, bytes: &[u8])
    ensures
        final(out)@ == old(out)@ + bytes@,
{
    let mut i: usize = 0;
    while i < bytes.len()
        invariant
            i <= bytes@.len(),
            out@ == old(out)@ + bytes@.take(i as int),
        decreases bytes@.len() - i,
    {
        out.push(bytes[i]);
        i += 1;
        assert(bytes@.take(i as int) =~= bytes@.take(i - 1).push(bytes@[i - 1]));
    }
    assert(bytes@.take(i as int) =~= bytes@);
}

/// Appends two bytes, least significant first.
fn put_u16(out: &mut Vec<u8>, x: u16)
    ensures
        final(out)@ == old(out)@ + le16(x),
{
    out.push((x % 256) as u8);
    out.push((x / 256) as u8);
    assert(out@ =~= old(out)@ + le16(x));
}

/// Appends four bytes, least significant first.
fn put_u32(out: &mut Vec<u8>, x: u32)
    ensures
        final(out)@ == old(out)@ + le32(x),
{
    out.push((x % 256) as u8);
    out.push((x / 256 % 256) as u8);
    out.push((x / 65536 % 256) as u8);
    out.push((x / 16777216) as u8);
    assert(out@ =~= old(out)@ + le32(x));
}

/// Appends the bytes of a stored color.
pub fn encode_color(out: &mut Vec<u8>, c: ChunkColor)
    ensures
        final(out)@ == old(out)@ + color_bytes(c),
{
    match c {
        ChunkColor::Named(d) => {
            out.push(0u8);
            put_u16(out, d);
        },
        ChunkColor::Rgb(r, g, b) => {
            out.push(1u8);
            out.push(r);
            out.push(g);
            out.push(b);
        },
        ChunkColor::Indexed(i) => {
            out.push(2u8);
            out.push(i);
        },
    }
    assert(out@ =~= old(out)@ + color_bytes(c));
}

/// There are no more runs than cells, and no run is longer than the line.
proof fn lemma_runs_bounded(cells: Seq<StyledCell>)
    requires
        cells.len() <= u32::MAX,
    ensures
        runs_of(cells).len() <= cells.len(),
        forall|i: int| 0 <= i < runs_of(cells).len() ==> (#[trigger] runs_of(cells)[i]).len
            <= cells.len(),
    decreases cells.len(),
{
    if cells.len() > 0 {
        lemma_runs_bounded(cells.drop_last());
    }
}

/// The maximal runs of equal style of a line.
fn collect_runs(cells: &[StyledCell]) -> (runs: Vec<StyleRun>)
    requires
        cells@.len() <= u32::MAX,
    ensures
        runs@ == runs_of(cells@),
{
    let mut runs: Vec<StyleRun> = Vec::new();
    let mut i: usize = 0;
    while i < cells.len()
        invariant
            i <= cells@.len() <= u32::MAX,
            runs@ == runs_of(cells@.take(i as int)),
        decreases cells@.len() - i,
    {
        let cell = cells[i];
        let fg = ChunkColor::from_ansi(cell.fg);
        let bg = ChunkColor::from_ansi(cell.bg);
        proof {
            lemma_runs_bounded(cells@.take(i as int));
            assert(cells@.take(i + 1).drop_last() =~= cells@.take(i as int));
        }
        let n: usize = runs.len();
        if n > 0 && runs[n - 1].fg == fg && runs[n - 1].bg == bg && runs[n - 1].flags
            == cell.flags {
            let last = runs[n - 1];
            assert(last == runs_of(cells@.take(i as int))[n - 1]);
            let longer = StyleRun { len: last.len + 1, fg: last.fg, bg: last.bg, flags: last.flags };
            runs.set(n - 1, longer);
            assert(runs@ =~= runs_of(cells@.take(i + 1)));
        } else {
            runs.push(StyleRun { len: 1, fg, bg, flags: cell.flags });
            assert(runs@ =~= runs_of(cells@.take(i + 1)));
        }
        i += 1;
    }
    assert(cells@.take(i as int) =~= cells@);
    runs
}

/// Appends the style block of a line.
fn encode_style_runs(out: &mut Vec<u8>, cells: &[StyledCell])
    requires
        cells@.len() <= u32::MAX,
    ensures
        final(out)@ == old(out)@ + style_bytes(cells@),
{
    let runs = collect_runs(cells);
    proof {
        lemma_runs_bounded(cells@);
    }
    put_u32(out, runs.len() as u32);
    let ghost start = out@;
    let mut i: usize = 0;
    while i < runs.len()
        invariant
            i <= runs@.len(),
            out@ == start + all_run_bytes(runs@.take(i as int)),
        decreases runs@.len() - i,
    {
        let run = runs[i];
        put_u32(out, run.len);
        encode_color(out, run.fg);
        encode_color(out, run.bg);
        put_u16(out, run.flags);
        assert(runs@.take(i + 1).drop_last() =~= runs@.take(i as int));
        assert(out@ =~= start + all_run_bytes(runs@.take(i + 1)));
        i += 1;
    }
    assert(runs@.take(i as int) =~= runs@);
    assert(out@ =~= old(out)@ + style_bytes(cells@));
}

/// The UTF-8 text of a line.
fn line_text(cells: &[StyledCell]) -> (r: String)
    ensures
        r@ == cell_chars(cells@),
{
    let mut out = String::new();
    let mut i: usize = 0;
    while i < cells.len()
        invariant
            i <= cells@.len(),
            out@ == cell_chars(cells@.take(i as int)),
        decreases cells@.len() - i,
    {
        out.push(cells[i].c);
        i += 1;
        assert(out@ =~= cell_chars(cells@.take(i as int)));
    }
    assert(cells@.take(i as int) =~= cells@);
    out
}

/// A length as the format's 32-bit field holds it.
fn wrap_length(n: usize) -> (r: u32)
    ensures
        r == length_field(n as nat),
{
    (n as u64 % 0x1_0000_0000u64) as u32
}

/// Appends the record of one line.
fn encode_logical_line(out: &mut Vec<u8>, line: &StyledLine)
    requires
        line@.len() <= u32::MAX,
    ensures
        final(out)@ == old(out)@ + line_bytes(line@),
{
    let text = line_text(line.cells.as_slice());
    let utf8 = text.as_str().as_bytes();
    let mut style: Vec<u8> = Vec::new();
    encode_style_runs(&mut style, line.cells.as_slice());
    assert(style@ =~= style_bytes(line@));
    put_u32(out, wrap_length(utf8.len()));
    put_u32(out, wrap_length(style.len()));
    put_bytes(out, utf8);
    put_bytes(out, style.as_slice());
    assert(out@ =~= old(out)@ + line_bytes(line@));
}

/// The body of a chunk: its lines, one after the other.
pub fn encode_body(lines: &[StyledLine]) -> (body: Vec<u8>)
    requires
        forall|i: int| 0 <= i < lines@.len() ==> (#[trigger] lines@[i])@.len() <= u32::MAX,
    ensures
        body@ == body_bytes(line_cells(lines@)),
{
    let ghost all = line_cells(lines@);
    let mut body: Vec<u8> = Vec::new();
    let mut i: usize = 0;
    while i < lines.len()
        invariant
            i <= lines@.len(),
            all == line_cells(lines@),
            forall|k: int| 0 <= k < lines@.len() ==> (#[trigger] lines@[k])@.len() <= u32::MAX,
            body@ == body_bytes(all.take(i as int)),
        decreases lines@.len() - i,
    {
        encode_logical_line(&mut body, &lines[i]);
        assert(all.take(i + 1).drop_last() =~= all.take(i as int));
        i += 1;
    }
    assert(all.take(i as int) =~= all);
    body
}

/// A chunk of a body, or of the frame that was made of it.
pub fn with_header(body: &[u8], frame: Option<&[u8]>) -> (out: Vec<u8>)
    ensures
        out@ == (match frame {
            Some(f) => header_bytes(FLAG_COMPRESSED) + f@,
            None => header_bytes(0) + body@,
        }),
{
    let flags: u32 = match frame {
        Some(_) => FLAG_COMPRESSED,
        None => 0,
    };
    let mut out: Vec<u8> = Vec::new();
    put_bytes(&mut out, &CHUNK_MAGIC);
    put_u32(&mut out, CHUNK_VERSION);
    put_u32(&mut out, flags);
    put_u32(&mut out, 0);
    assert(out@ =~= header_bytes(flags));
    match frame {
        Some(f) => put_bytes(&mut out, f),
        None => put_bytes(&mut out, body),
    }
    out
}

/// Serializes logical lines into a chunk. With `compress` the body is
/// compressed; the header never is.
pub fn encode_chunk(lines: &[StyledLine], compress: bool) -> (out: Vec<u8>)
    requires
        forall|i: int| 0 <= i < lines@.len() ==> (#[trigger] lines@[i])@.len() <= u32::MAX,
    ensures
        is_chunk_of(line_cells(lines@), compress, out@),
{
    let body = encode_body(lines);
    if compress {
        if let Some(frame) = zstd_compress(body.as_slice(), ZSTD_LEVEL) {
            return with_header(body.as_slice(), Some(frame.as_slice()));
        }
    }
    with_header(body.as_slice(), None)
}

// ---- what a byte string decodes to -------------------------------------

/// A value read off the front of some bytes, and the bytes after it.
pub type Parsed<T> = Result<(T, Seq<u8>), ChunkError>;

/// The first `n` bytes.
pub open spec fn read_block(b: Seq<u8>, n: nat) -> Parsed<Seq<u8>> {
    if b.len() < n {
        Err(ChunkError::Truncated)
    } else {
        Ok((b.take(n as int), b.skip(n as int)))
    }
}

/// One byte.
pub open spec fn read_u8(b: Seq<u8>) -> Parsed<u8> {
    match read_block(b, 1) {
        Ok((block, rest)) => Ok((block[0], rest)),
        Err(e) => Err(e),
    }
}

/// A 16-bit number.
pub open spec fn read_u16(b: Seq<u8>) -> Parsed<u16> {
    match read_block(b, 2) {
        Ok((block, rest)) => Ok((value16(block), rest)),
        Err(e) => Err(e),
    }
}

/// A 32-bit number.
#[verifier::opaque]
pub open spec fn read_u32(b: Seq<u8>) -> Parsed<u32> {
    match read_block(b, 4) {
        Ok((block, rest)) => Ok((value32(block), rest)),
        Err(e) => Err(e),
    }
}

/// A stored color.
pub open spec fn read_stored_color(b: Seq<u8>) -> Parsed<ChunkColor> {
    match read_u8(b) {
        Err(e) => Err(e),
        Ok((tag, rest)) => if tag == 0 {
            match read_u16(rest) {
                Ok((d, rest)) => Ok((ChunkColor::Named(d), rest)),
                Err(e) => Err(e),
            }
        } else if tag == 1 {
            match read_block(rest, 3) {
                Ok((rgb, rest)) => Ok((ChunkColor::Rgb(rgb[0], rgb[1], rgb[2]), rest)),
                Err(e) => Err(e),
            }
        } else if tag == 2 {
            match read_u8(rest) {
                Ok((i, rest)) => Ok((ChunkColor::Indexed(i), rest)),
                Err(e) => Err(e),
            }
        } else {
            Err(ChunkError::BadColorTag(tag))
        },
    }
}

/// A color.
pub open spec fn read_loaded_color(b: Seq<u8>) -> Parsed<Color> {
    match read_stored_color(b) {
        Err(e) => Err(e),
        Ok((stored, rest)) => match loaded_color(stored) {
            Ok(c) => Ok((c, rest)),
            Err(e) => Err(e),
        },
    }
}

/// The length and the style of one run.
pub open spec fn read_run(b: Seq<u8>) -> Parsed<(u32, Style)> {
    match read_u32(b) {
        Err(e) => Err(e),
        Ok((len, rest)) => match read_loaded_color(rest) {
            Err(e) => Err(e),
            Ok((fg, rest)) => match read_loaded_color(rest) {
                Err(e) => Err(e),
                Ok((bg, rest)) => match read_u16(rest) {
                    Err(e) => Err(e),
                    Ok((bits, rest)) => Ok(
                        ((len, Style { fg, bg, flags: bits & FLAG_ALL }), rest),
                    ),
                },
            },
        },
    }
}

/// `n` copies of one style.
pub open spec fn repeat_style(n: nat, style: Style) -> Seq<Style> {
    Seq::new(n, |i: int| style)
}

/// The styles that `n` runs spell out, after those in `before`.
pub open spec fn read_runs(b: Seq<u8>, n: nat, before: Seq<Style>) -> Parsed<Seq<Style>>
    decreases n,
{
    if n == 0 {
        Ok((before, b))
    } else {
        match read_run(b) {
            Err(e) => Err(e),
            Ok(((len, style), rest)) => read_runs(
                rest,
                (n - 1) as nat,
                before + repeat_style(len as nat, style),
            ),
        }
    }
}

/// The styles of a style block, which the runs must fill.
pub open spec fn read_styles(b: Seq<u8>) -> Result<Seq<Style>, ChunkError> {
    match read_u32(b) {
        Err(e) => Err(e),
        Ok((n, rest)) => match read_runs(rest, n as nat, Seq::empty()) {
            Err(e) => Err(e),
            Ok((styles, rest)) => if rest.len() > 0 {
                Err(ChunkError::TrailingBytes)
            } else {
                Ok(styles)
            },
        },
    }
}

/// The cell with a given character and style.
pub open spec fn styled(c: char, style: Style) -> StyledCell {
    StyledCell { c, fg: style.fg, bg: style.bg, flags: style.flags }
}

/// The cells with the given characters and styles.
pub open spec fn cells_from(chars: Seq<char>, styles: Seq<Style>) -> Seq<StyledCell> {
    Seq::new(chars.len(), |i: int| styled(chars[i], styles[i]))
}

/// The cells of a line, from its two blocks.
#[verifier::opaque]
pub open spec fn read_cells(text: Seq<u8>, style: Seq<u8>) -> Result<Seq<StyledCell>, ChunkError> {
    if !valid_utf8(text) {
        Err(ChunkError::BadUtf8)
    } else {
        match read_styles(style) {
            Err(e) => Err(e),
            Ok(styles) => {
                let chars = decode_utf8(text);
                if chars.len() != styles.len() {
                    Err(
                        ChunkError::CellCountMismatch {
                            chars: chars.len() as usize,
                            cells: styles.len() as usize,
                        },
                    )
                } else {
                    Ok(cells_from(chars, styles))
                }
            },
        }
    }
}

/// One line.
#[verifier::opaque]
pub open spec fn read_line(b: Seq<u8>) -> Parsed<Seq<StyledCell>> {
    match read_u32(b) {
        Err(e) => Err(e),
        Ok((text_len, rest)) => match read_u32(rest) {
            Err(e) => Err(e),
            Ok((style_len, rest)) => match read_block(rest, text_len as nat) {
                Err(e) => Err(e),
                Ok((text, rest)) => match read_block(rest, style_len as nat) {
                    Err(e) => Err(e),
                    Ok((style, rest)) => match read_cells(text, style) {
                        Err(e) => Err(e),
                        Ok(cells) => Ok((cells, rest)),
                    },
                },
            },
        },
    }
}

/// Reading a line uses up bytes.
pub proof fn lemma_read_line_shrinks(b: Seq<u8>)
    ensures
        read_line(b) matches Ok((_, rest)) ==> rest.len() < b.len(),
{
    reveal(read_line);
    reveal(read_u32);
}

/// All the lines of a body, after those in `before`. What remains after a
/// complete record must be another one: bytes too few for the head of a record
/// are no record that was cut short.
pub open spec fn read_body(b: Seq<u8>, before: Seq<Seq<StyledCell>>) -> Result<
    Seq<Seq<StyledCell>>,
    ChunkError,
>
    decreases b.len(),
{
    if b.len() == 0 {
        Ok(before)
    } else if before.len() > 0 && b.len() < RECORD_HEAD {
        Err(ChunkError::TrailingBytes)
    } else {
        proof {
            lemma_read_line_shrinks(b);
        }
        match read_line(b) {
            Err(e) => Err(e),
            Ok((cells, rest)) => read_body(rest, before.push(cells)),
        }
    }
}

/// What the header of a chunk says: is the rest compressed, and what is it?
pub open spec fn read_header(bytes: Seq<u8>) -> Parsed<bool> {
    match read_block(bytes, 4) {
        Err(e) => Err(e),
        Ok((magic, rest)) => if magic != CHUNK_MAGIC@ {
            Err(ChunkError::BadMagic)
        } else {
            match read_u32(rest) {
                Err(e) => Err(e),
                Ok((version, rest)) => if version != CHUNK_VERSION {
                    Err(ChunkError::BadVersion(version))
                } else {
                    match read_u32(rest) {
                        Err(e) => Err(e),
                        Ok((flags, rest)) => match read_u32(rest) {
                            Err(e) => Err(e),
                            Ok((_, body)) => Ok((flags & FLAG_COMPRESSED != 0, body)),
                        },
                    }
                },
            }
        },
    }
}

/// What the bytes of a chunk decode to.
pub open spec fn decoded(bytes: Seq<u8>) -> Result<Seq<Seq<StyledCell>>, ChunkError> {
    match read_header(bytes) {
        Err(e) => Err(e),
        Ok((compressed, body)) => if compressed {
            match zstd_contents(body) {
                Some(data) => read_body(data, Seq::empty()),
                None => Err(ChunkError::Decompress),
            }
        } else {
            read_body(body, Seq::empty())
        },
    }
}

// ---- decode ----------------------------------------------------------

/// A forward-only byte reader. A read past the end is
/// [`ChunkError::Truncated`] and reads nothing.
pub struct Cursor<'a> {
    bytes: &'a [u8],
    pos: usize,
}

impl<'a> Cursor<'a> {
    /// The position is within the bytes.
    pub closed spec fn wf(&self) -> bool {
        self.pos <= self.bytes@.len()
    }

    /// The bytes not read yet.
    pub closed spec fn left(&self) -> Seq<u8> {
        self.bytes@.skip(self.pos as int)
    }

    /// A reader at the start of some bytes.
    pub fn new(bytes: &'a [u8]) -> (r: Self)
        ensures
            r.wf(),
            r.left() == bytes@,
    {
        assert(bytes@.skip(0) =~= bytes@);
        Cursor { bytes, pos: 0 }
    }

    /// Has everything been read?
    pub fn is_empty(&self) -> (r: bool)
        requires
            self.wf(),
        ensures
            r == (self.left().len() == 0),
    {
        self.pos >= self.bytes.len()
    }

    /// The bytes not read yet.
    pub fn rest(&self) -> (r: &'a [u8])
        requires
            self.wf(),
        ensures
            r@ == self.left(),
    {
        vstd::slice::slice_subrange(self.bytes, self.pos, self.bytes.len())
    }

    /// The next `n` bytes.
    pub fn take(&mut self, n: usize) -> (r: Result<&'a [u8], ChunkError>)
        requires
            old(self).wf(),
        ensures
            final(self).wf(),
            match r {
                Ok(block) => read_block(old(self).left(), n as nat) == Ok::<_, ChunkError>(
                    (block@, final(self).left()),
                ),
                Err(e) => read_block(old(self).left(), n as nat) == Err::<
                    (Seq<u8>, Seq<u8>),
                    ChunkError,
                >(e) && final(self).left() == old(self).left(),
            },
    {
        if n > self.bytes.len() - self.pos {
            return Err(ChunkError::Truncated);
        }
        let end: usize = self.pos + n;
        let block = vstd::slice::slice_subrange(self.bytes, self.pos, end);
        self.pos = end;
        assert(block@ =~= old(self).left().take(n as int));
        assert(self.left() =~= old(self).left().skip(n as int));
        Ok(block)
    }

    /// The next byte.
    pub fn u8(&mut self) -> (r: Result<u8, ChunkError>)
        requires
            old(self).wf(),
        ensures
            final(self).wf(),
            match r {
                Ok(x) => read_u8(old(self).left()) == Ok::<_, ChunkError>((x, final(self).left())),
                Err(e) => read_u8(old(self).left()) == Err::<(u8, Seq<u8>), ChunkError>(e)
                    && final(self).left() == old(self).left(),
            },
    {
        let b = self.take(1)?;
        Ok(b[0])
    }

    /// The next two bytes, low byte first.
    pub fn u16(&mut self) -> (r: Result<u16, ChunkError>)
        requires
            old(self).wf(),
        ensures
            final(self).wf(),
            match r {
                Ok(x) => read_u16(old(self).left()) == Ok::<_, ChunkError>((x, final(self).left())),
                Err(e) => read_u16(old(self).left()) == Err::<(u16, Seq<u8>), ChunkError>(e)
                    && final(self).left() == old(self).left(),
            },
    {
        let b = self.take(2)?;
        Ok(b[0] as u16 + 256 * b[1] as u16)
    }

    /// The next four bytes, low byte first.
    pub fn u32(&mut self) -> (r: Result<u32, ChunkError>)
        requires
            old(self).wf(),
        ensures
            final(self).wf(),
            match r {
                Ok(x) => read_u32(old(self).left()) == Ok::<_, ChunkError>((x, final(self).left())),
                Err(e) => read_u32(old(self).left()) == Err::<(u32, Seq<u8>), ChunkError>(e)
                    && final(self).left() == old(self).left(),
            },
    {
        proof {
            reveal(read_u32);
        }
        let b = self.take(4)?;
        Ok(b[0] as u32 + 256 * b[1] as u32 + 65536 * b[2] as u32 + 16777216 * b[3] as u32)
    }
}

/// Reads a stored color.
pub fn read_color(cur: &mut Cursor<'_>) -> (r: Result<ChunkColor, ChunkError>)
    requires
        old(cur).wf(),
    ensures
        final(cur).wf(),
        match r {
            Ok(c) => read_stored_color(old(cur).left()) == Ok::<_, ChunkError>(
                (c, final(cur).left()),
            ),
            Err(e) => read_stored_color(old(cur).left()) == Err::<
                (ChunkColor, Seq<u8>),
                ChunkError,
            >(e),
        },
{
    let tag: u8 = cur.u8()?;
    match tag {
        0 => {
            let d: u16 = cur.u16()?;
            Ok(ChunkColor::Named(d))
        },
        1 => {
            let rgb = cur.take(3)?;
            Ok(ChunkColor::Rgb(rgb[0], rgb[1], rgb[2]))
        },
        2 => {
            let i: u8 = cur.u8()?;
            Ok(ChunkColor::Indexed(i))
        },
        _ => Err(ChunkError::BadColorTag(tag)),
    }
}

/// Reads the length and the style of one run.
fn decode_run(cur: &mut Cursor<'_>) -> (r: Result<(u32, Style), ChunkError>)
    requires
        old(cur).wf(),
    ensures
        final(cur).wf(),
        match r {
            Ok(run) => read_run(old(cur).left()) == Ok::<_, ChunkError>((run, final(cur).left())),
            Err(e) => read_run(old(cur).left()) == Err::<((u32, Style), Seq<u8>), ChunkError>(e),
        },
{
    let len: u32 = cur.u32()?;
    let fg = read_color(cur)?.to_ansi()?;
    let bg = read_color(cur)?.to_ansi()?;
    let bits: u16 = cur.u16()?;
    Ok((len, Style { fg, bg, flags: known_flags(bits) }))
}

/// The styles of a style block.
fn decode_styles(block: &[u8]) -> (r: Result<Vec<Style>, ChunkError>)
    ensures
        match r {
            Ok(styles) => read_styles(block@) == Ok::<_, ChunkError>(styles@),
            Err(e) => read_styles(block@) == Err::<Seq<Style>, ChunkError>(e),
        },
{
    let mut cur = Cursor::new(block);
    let count: u32 = cur.u32()?;
    let ghost start = cur.left();
    let mut styles: Vec<Style> = Vec::new();
    let mut i: u32 = 0;
    while i < count
        invariant
            i <= count,
            cur.wf(),
            read_u32(block@) == Ok::<_, ChunkError>((count, start)),
            read_runs(start, count as nat, Seq::empty()) == read_runs(
                cur.left(),
                (count - i) as nat,
                styles@,
            ),
        decreases count - i,
    {
        let (len, style) = decode_run(&mut cur)?;
        let ghost before = styles@;
        let mut k: u32 = 0;
        while k < len
            invariant
                k <= len,
                styles@ == before + repeat_style(k as nat, style),
            decreases len - k,
        {
            styles.push(style);
            k += 1;
            assert(styles@ =~= before + repeat_style(k as nat, style));
        }
        i += 1;
    }
    if !cur.is_empty() {
        return Err(ChunkError::TrailingBytes);
    }
    Ok(styles)
}

/// The cell with a given character and style.
fn styled_cell(c: char, style: Style) -> (r: StyledCell)
    ensures
        r == styled(c, style),
{
    StyledCell { c, fg: style.fg, bg: style.bg, flags: style.flags }
}

/// The cells of a line, from its two blocks.
fn decode_cells(text: &[u8], style: &[u8]) -> (r: Result<StyledLine, ChunkError>)
    ensures
        match r {
            Ok(line) => read_cells(text@, style@) == Ok::<_, ChunkError>(line@),
            Err(e) => read_cells(text@, style@) == Err::<Seq<StyledCell>, ChunkError>(e),
        },
{
    proof {
        reveal(read_cells);
    }
    let decoded_text = match utf8_text(text) {
        Some(t) => t,
        None => return Err(ChunkError::BadUtf8),
    };
    let chars = chars_of(decoded_text.as_str());
    let styles = decode_styles(style)?;
    if chars.len() != styles.len() {
        return Err(ChunkError::CellCountMismatch { chars: chars.len(), cells: styles.len() });
    }
    let mut cells: Vec<StyledCell> = Vec::new();
    let mut i: usize = 0;
    while i < chars.len()
        invariant
            i <= chars@.len(),
            chars@.len() == styles@.len(),
            cells@.len() == i,
            forall|k: int| 0 <= k < i ==> cells@[k] == styled(chars@[k], styles@[k]),
        decreases chars@.len() - i,
    {
        cells.push(styled_cell(chars[i], styles[i]));
        i += 1;
    }
    assert(cells@ =~= cells_from(chars@, styles@));
    Ok(StyledLine { cells })
}

/// Reads one line.
fn decode_logical_line(cur: &mut Cursor<'_>) -> (r: Result<StyledLine, ChunkError>)
    requires
        old(cur).wf(),
    ensures
        final(cur).wf(),
        match r {
            Ok(line) => read_line(old(cur).left()) == Ok::<_, ChunkError>(
                (line@, final(cur).left()),
            ),
            Err(e) => read_line(old(cur).left()) == Err::<
                (Seq<StyledCell>, Seq<u8>),
                ChunkError,
            >(e),
        },
{
    proof {
        reveal(read_line);
    }
    let text_len: u32 = cur.u32()?;
    let style_len: u32 = cur.u32()?;
    let text = cur.take(text_len as usize)?;
    let style = cur.take(style_len as usize)?;
    decode_cells(text, style)
}

/// All the lines of a body.
pub fn decode_body(body: &[u8]) -> (r: Result<Vec<StyledLine>, ChunkError>)
    ensures
        match r {
            Ok(lines) => read_body(body@, Seq::empty()) == Ok::<_, ChunkError>(line_cells(lines@)),
            Err(e) => read_body(body@, Seq::empty()) == Err::<Seq<Seq<StyledCell>>, ChunkError>(e),
        },
{
    let mut cur = Cursor::new(body);
    let mut lines: Vec<StyledLine> = Vec::new();
    assert(line_cells(lines@) =~= Seq::empty());
    while !cur.is_empty()
        invariant
            cur.wf(),
            read_body(body@, Seq::empty()) == read_body(cur.left(), line_cells(lines@)),
        decreases cur.left().len(),
    {
        proof {
            lemma_read_line_shrinks(cur.left());
        }
        if lines.len() > 0 && cur.rest().len() < RECORD_HEAD {
            return Err(ChunkError::TrailingBytes);
        }
        let line = decode_logical_line(&mut cur)?;
        let ghost before = lines@;
        lines.push(line);
        assert(line_cells(lines@) =~= line_cells(before).push(line@));
    }
    Ok(lines)
}

/// Reads the header of a chunk: is the rest compressed, and what is it?
pub fn decode_header(bytes: &[u8]) -> (r: Result<(bool, &[u8]), ChunkError>)
    ensures
        match r {
            Ok((compressed, body)) => read_header(bytes@) == Ok::<_, ChunkError>(
                (compressed, body@),
            ),
            Err(e) => read_header(bytes@) == Err::<(bool, Seq<u8>), ChunkError>(e),
        },
{
    let mut cur = Cursor::new(bytes);
    let magic = cur.take(4)?;
    if magic[0] != CHUNK_MAGIC[0] || magic[1] != CHUNK_MAGIC[1] || magic[2] != CHUNK_MAGIC[2]
        || magic[3] != CHUNK_MAGIC[3] {
        return Err(ChunkError::BadMagic);
    }
    assert(magic@ =~= CHUNK_MAGIC@);
    let version: u32 = cur.u32()?;
    if version != CHUNK_VERSION {
        return Err(ChunkError::BadVersion(version));
    }
    let flags: u32 = cur.u32()?;
    let _reserved: u32 = cur.u32()?;
    Ok((flags & FLAG_COMPRESSED != 0, cur.rest()))
}

/// Parses a chunk back into its logical lines.
pub fn decode_chunk(bytes: &[u8]) -> (r: Result<Vec<StyledLine>, ChunkError>)
    ensures
        match r {
            Ok(lines) => decoded(bytes@) == Ok::<_, ChunkError>(line_cells(lines@)),
            Err(e) => decoded(bytes@) == Err::<Seq<Seq<StyledCell>>, ChunkError>(e),
        },
{
    let (compressed, body) = decode_header(bytes)?;
    if compressed {
        match zstd_decompress(body) {
            Some(data) => decode_body(data.as_slice()),
            None => Err(ChunkError::Decompress),
        }
    } else {
        decode_body(body)
    }
}

// ---- round trip ------------------------------------------------------

/// Reading back two bytes gives the number they were written from.
proof fn lemma_read_le16(x: u16, tail: Seq<u8>)
    ensures
        read_u16(le16(x) + tail) == Ok::<_, ChunkError>((x, tail)),
{
    let b = le16(x) + tail;
    assert(b.take(2) =~= le16(x));
    assert(b.skip(2) =~= tail);
}

/// Reading back four bytes gives the number they were written from.
proof fn lemma_read_le32(x: u32, tail: Seq<u8>)
    ensures
        read_u32(le32(x) + tail) == Ok::<_, ChunkError>((x, tail)),
{
    reveal(read_u32);
    let b = le32(x) + tail;
    assert(b.take(4) =~= le32(x));
    assert(b.skip(4) =~= tail);
}

/// Reading back a stored color.
proof fn lemma_read_color(c: ChunkColor, tail: Seq<u8>)
    ensures
        read_stored_color(color_bytes(c) + tail) == Ok::<_, ChunkError>((c, tail)),
{
    let b = color_bytes(c) + tail;
    match c {
        ChunkColor::Named(d) => {
            assert(b.skip(1) =~= le16(d) + tail);
            lemma_read_le16(d, tail);
        },
        ChunkColor::Rgb(r, g, bl) => {
            assert(b.skip(1).take(3) =~= seq![r, g, bl]);
            assert(b.skip(1).skip(3) =~= tail);
        },
        ChunkColor::Indexed(i) => {
            assert(b.skip(1).take(1) =~= seq![i]);
            assert(b.skip(1).skip(1) =~= tail);
        },
    }
}

/// The style that a run stands for.
pub open spec fn run_style(run: StyleRun) -> Style {
    Style {
        fg: loaded_color(run.fg).unwrap(),
        bg: loaded_color(run.bg).unwrap(),
        flags: run.flags,
    }
}

/// A run whose colors and flags are known.
pub open spec fn run_wf(run: StyleRun) -> bool {
    storable(run.fg) && storable(run.bg) && run.flags & FLAG_ALL == run.flags
}

/// Reading back one run.
proof fn lemma_read_run(run: StyleRun, tail: Seq<u8>)
    requires
        run_wf(run),
    ensures
        read_run(run_bytes(run) + tail) == Ok::<_, ChunkError>(((run.len, run_style(run)), tail)),
{
    let after_bg = le16(run.flags) + tail;
    let after_fg = color_bytes(run.bg) + after_bg;
    let after_len = color_bytes(run.fg) + after_fg;
    assert(run_bytes(run) + tail =~= le32(run.len) + after_len);
    lemma_read_le32(run.len, after_len);
    lemma_read_color(run.fg, after_fg);
    lemma_read_color(run.bg, after_bg);
    lemma_read_le16(run.flags, tail);
}

/// The styles that runs spell out, one after the other.
pub open spec fn expand_runs(runs: Seq<StyleRun>) -> Seq<Style>
    decreases runs.len(),
{
    if runs.len() == 0 {
        Seq::empty()
    } else {
        expand_runs(runs.drop_last()) + repeat_style(runs.last().len as nat, run_style(runs.last()))
    }
}

/// The first run comes first, in the bytes and in the styles.
proof fn lemma_first_run(runs: Seq<StyleRun>)
    requires
        runs.len() > 0,
    ensures
        all_run_bytes(runs) == run_bytes(runs[0]) + all_run_bytes(runs.skip(1)),
        expand_runs(runs) == repeat_style(runs[0].len as nat, run_style(runs[0])) + expand_runs(
            runs.skip(1),
        ),
    decreases runs.len(),
{
    if runs.len() == 1 {
        assert(runs.drop_last() =~= Seq::<StyleRun>::empty());
        assert(runs.skip(1) =~= Seq::<StyleRun>::empty());
        assert(all_run_bytes(runs) =~= run_bytes(runs[0]) + all_run_bytes(runs.skip(1)));
        assert(expand_runs(runs) =~= repeat_style(runs[0].len as nat, run_style(runs[0]))
            + expand_runs(runs.skip(1)));
    } else {
        lemma_first_run(runs.drop_last());
        assert(runs.drop_last().skip(1) =~= runs.skip(1).drop_last());
        assert(all_run_bytes(runs) =~= run_bytes(runs[0]) + all_run_bytes(runs.skip(1)));
        assert(expand_runs(runs) =~= repeat_style(runs[0].len as nat, run_style(runs[0]))
            + expand_runs(runs.skip(1)));
    }
}

/// Reading back all runs.
proof fn lemma_read_runs(runs: Seq<StyleRun>, tail: Seq<u8>, before: Seq<Style>)
    requires
        forall|i: int| 0 <= i < runs.len() ==> run_wf(#[trigger] runs[i]),
    ensures
        read_runs(all_run_bytes(runs) + tail, runs.len(), before) == Ok::<_, ChunkError>(
            (before + expand_runs(runs), tail),
        ),
    decreases runs.len(),
{
    if runs.len() == 0 {
        assert(all_run_bytes(runs) + tail =~= tail);
        assert(before + expand_runs(runs) =~= before);
    } else {
        lemma_first_run(runs);
        let rest = all_run_bytes(runs.skip(1)) + tail;
        assert(all_run_bytes(runs) + tail =~= run_bytes(runs[0]) + rest);
        lemma_read_run(runs[0], rest);
        let first = repeat_style(runs[0].len as nat, run_style(runs[0]));
        lemma_read_runs(runs.skip(1), tail, before + first);
        assert(before + first + expand_runs(runs.skip(1)) =~= before + expand_runs(runs));
    }
}

/// The runs of a line are well-formed and spell out the styles of its cells.
proof fn lemma_expand_runs_of(cells: Seq<StyledCell>)
    requires
        cells.len() <= u32::MAX,
        forall|i: int| 0 <= i < cells.len() ==> (#[trigger] cells[i]).wf(),
    ensures
        forall|i: int| 0 <= i < runs_of(cells).len() ==> run_wf(#[trigger] runs_of(cells)[i]),
        expand_runs(runs_of(cells)) == styles_of(cells),
    decreases cells.len(),
{
    if cells.len() == 0 {
        assert(expand_runs(runs_of(cells)) =~= styles_of(cells));
    } else {
        let init = cells.drop_last();
        let cell = cells.last();
        lemma_expand_runs_of(init);
        lemma_runs_bounded(init);
        law_color_store_load(cell.fg);
        law_color_store_load(cell.bg);
        let before = runs_of(init);
        let runs = runs_of(cells);
        assert(styles_of(cells) =~= styles_of(init).push(style_of(cell)));
        assert(cells[cells.len() - 1].wf());
        if before.len() > 0 && run_matches(before.last(), cell) {
            assert(runs.drop_last() =~= before.drop_last());
            let n = before.last().len as nat;
            let style = run_style(before.last());
            assert(run_wf(before[before.len() - 1]));
            assert(before[before.len() - 1].len <= init.len());
            assert(style == style_of(cell));
            assert(repeat_style(n + 1, style) =~= repeat_style(n, style).push(style));
            assert(expand_runs(runs) =~= expand_runs(before).push(style));
        } else {
            assert(runs.drop_last() =~= before);
            assert(run_style(runs.last()) == style_of(cell));
            assert(repeat_style(1, style_of(cell)) =~= seq![style_of(cell)]);
            assert(expand_runs(runs) =~= expand_runs(before).push(style_of(cell)));
        }
        assert forall|i: int| 0 <= i < runs.len() implies run_wf(#[trigger] runs[i]) by {
            if i < before.len() {
                assert(run_wf(before[i]));
            }
        }
    }
}

/// A line that the format's 32-bit length fields can frame: known flags, and
/// no block longer than a `u32` counts.
pub open spec fn framable(cells: Seq<StyledCell>) -> bool {
    &&& cells.len() <= u32::MAX
    &&& text_bytes(cells).len() <= u32::MAX
    &&& style_bytes(cells).len() <= u32::MAX
    &&& forall|i: int| 0 <= i < cells.len() ==> (#[trigger] cells[i]).wf()
}

/// Reading back a style block.
proof fn lemma_read_styles(cells: Seq<StyledCell>)
    requires
        framable(cells),
    ensures
        read_styles(style_bytes(cells)) == Ok::<_, ChunkError>(styles_of(cells)),
{
    let runs = runs_of(cells);
    lemma_runs_bounded(cells);
    lemma_expand_runs_of(cells);
    lemma_read_le32(runs.len() as u32, all_run_bytes(runs));
    lemma_read_runs(runs, Seq::empty(), Seq::empty());
    assert(all_run_bytes(runs) + Seq::<u8>::empty() =~= all_run_bytes(runs));
    assert(Seq::<Style>::empty() + expand_runs(runs) =~= expand_runs(runs));
}

/// Reading back the two blocks of a line.
proof fn lemma_read_cells(cells: Seq<StyledCell>)
    requires
        framable(cells),
    ensures
        read_cells(text_bytes(cells), style_bytes(cells)) == Ok::<_, ChunkError>(cells),
{
    reveal(read_cells);
    encode_utf8_valid_utf8(cell_chars(cells));
    encode_utf8_decode_utf8(cell_chars(cells));
    lemma_read_styles(cells);
    let back = cells_from(cell_chars(cells), styles_of(cells));
    assert forall|i: int| 0 <= i < cells.len() implies back[i] == cells[i] by {
        assert(back[i] == styled(cell_chars(cells)[i], styles_of(cells)[i]));
        assert(cell_chars(cells)[i] == cells[i].c);
        assert(styles_of(cells)[i] == style_of(cells[i]));
    }
    assert(back =~= cells);
}

/// Concatenation is associative.
proof fn lemma_nest(a: Seq<u8>, b: Seq<u8>, c: Seq<u8>, d: Seq<u8>, e: Seq<u8>)
    ensures
        a + b + c + d + e == a + (b + (c + (d + e))),
{
    assert(a + b + c + d + e =~= a + (b + (c + (d + e))));
}

/// A block that stands at the front is read off it.
proof fn lemma_read_block(block: Seq<u8>, tail: Seq<u8>)
    ensures
        read_block(block + tail, block.len()) == Ok::<_, ChunkError>((block, tail)),
{
    assert((block + tail).take(block.len() as int) =~= block);
    assert((block + tail).skip(block.len() as int) =~= tail);
}

/// The length fields frame the two blocks of a line.
proof fn lemma_read_frame(text: Seq<u8>, style: Seq<u8>, tail: Seq<u8>)
    requires
        text.len() <= u32::MAX,
        style.len() <= u32::MAX,
    ensures
        read_line(
            le32(length_field(text.len())) + le32(length_field(style.len())) + text + style + tail,
        ) == (match read_cells(text, style) {
            Ok(cells) => Ok::<_, ChunkError>((cells, tail)),
            Err(e) => Err(e),
        }),
{
    reveal(read_line);
    let text_len = length_field(text.len());
    let style_len = length_field(style.len());
    let first = le32(text_len);
    let second = le32(style_len);
    lemma_nest(first, second, text, style, tail);
    lemma_read_le32(text_len, second + (text + (style + tail)));
    lemma_read_le32(style_len, text + (style + tail));
    lemma_read_block(text, style + tail);
    lemma_read_block(style, tail);
}

/// Reading back one line.
proof fn lemma_read_line(cells: Seq<StyledCell>, tail: Seq<u8>)
    requires
        framable(cells),
    ensures
        read_line(line_bytes(cells) + tail) == Ok::<_, ChunkError>((cells, tail)),
{
    lemma_read_cells(cells);
    lemma_read_frame(text_bytes(cells), style_bytes(cells), tail);
}

/// The first line comes first in the body.
proof fn lemma_first_line(lines: Seq<Seq<StyledCell>>)
    requires
        lines.len() > 0,
    ensures
        body_bytes(lines) == line_bytes(lines[0]) + body_bytes(lines.skip(1)),
    decreases lines.len(),
{
    if lines.len() == 1 {
        assert(lines.drop_last() =~= Seq::<Seq<StyledCell>>::empty());
        assert(lines.skip(1) =~= Seq::<Seq<StyledCell>>::empty());
    } else {
        lemma_first_line(lines.drop_last());
        assert(lines.drop_last().skip(1) =~= lines.skip(1).drop_last());
    }
    assert(body_bytes(lines) =~= line_bytes(lines[0]) + body_bytes(lines.skip(1)));
}

/// A record is at least as long as its head.
proof fn lemma_record_head(cells: Seq<StyledCell>)
    ensures
        line_bytes(cells).len() >= RECORD_HEAD,
{
}

/// Reading back the records of a body, and then what follows them.
proof fn lemma_read_records(
    lines: Seq<Seq<StyledCell>>,
    tail: Seq<u8>,
    before: Seq<Seq<StyledCell>>,
)
    requires
        forall|i: int| 0 <= i < lines.len() ==> framable(#[trigger] lines[i]),
    ensures
        read_body(body_bytes(lines) + tail, before) == read_body(tail, before + lines),
    decreases lines.len(),
{
    if lines.len() == 0 {
        assert(before + lines =~= before);
        assert(body_bytes(lines) + tail =~= tail);
    } else {
        let rest = body_bytes(lines.skip(1)) + tail;
        lemma_first_line(lines);
        lemma_record_head(lines[0]);
        assert(body_bytes(lines) + tail =~= line_bytes(lines[0]) + rest);
        lemma_read_line(lines[0], rest);
        lemma_read_records(lines.skip(1), tail, before.push(lines[0]));
        assert(before.push(lines[0]) + lines.skip(1) =~= before + lines);
    }
}

/// Reading back a body.
proof fn lemma_read_body(lines: Seq<Seq<StyledCell>>, before: Seq<Seq<StyledCell>>)
    requires
        forall|i: int| 0 <= i < lines.len() ==> framable(#[trigger] lines[i]),
    ensures
        read_body(body_bytes(lines), before) == Ok::<_, ChunkError>(before + lines),
{
    lemma_read_records(lines, Seq::empty(), before);
    assert(body_bytes(lines) + Seq::<u8>::empty() =~= body_bytes(lines));
}

/// What follows the header decides what a chunk decodes to.
proof fn lemma_after_header(flags: u32, body: Seq<u8>)
    ensures
        decoded(header_bytes(flags) + body) == (if flags & FLAG_COMPRESSED != 0 {
            match zstd_contents(body) {
                Some(data) => read_body(data, Seq::empty()),
                None => Err(ChunkError::Decompress),
            }
        } else {
            read_body(body, Seq::empty())
        }),
{
    let bytes = header_bytes(flags) + body;
    let after_flags = le32(0) + body;
    let after_version = le32(flags) + after_flags;
    let after_magic = le32(CHUNK_VERSION) + after_version;
    assert(bytes.take(4) =~= CHUNK_MAGIC@);
    assert(bytes.skip(4) =~= after_magic);
    lemma_read_le32(CHUNK_VERSION, after_version);
    lemma_read_le32(flags, after_flags);
    lemma_read_le32(0, body);
}

/// A chunk decodes to the lines it was made of, whether it was compressed or
/// not: no character, color or flag is lost.
pub proof fn law_chunk_round_trip(lines: Seq<Seq<StyledCell>>, compress: bool, bytes: Seq<u8>)
    requires
        is_chunk_of(lines, compress, bytes),
        forall|i: int| 0 <= i < lines.len() ==> framable(#[trigger] lines[i]),
    ensures
        decoded(bytes) == Ok::<_, ChunkError>(lines),
{
    let body = body_bytes(lines);
    lemma_read_body(lines, Seq::empty());
    assert(Seq::<Seq<StyledCell>>::empty() + lines =~= lines);
    lemma_after_header(0, body);
    if let Some(frame) = zstd_frame(body, ZSTD_LEVEL) {
        lemma_after_header(FLAG_COMPRESSED, frame);
    }
    assert(1u32 & 1u32 != 0) by (bit_vector);
    assert(0u32 & 1u32 == 0) by (bit_vector);
}

/// Stray bytes behind the last record of a chunk are reported as such.
pub proof fn law_stray_bytes_are_reported(lines: Seq<Seq<StyledCell>>, stray: Seq<u8>)
    requires
        lines.len() > 0,
        0 < stray.len() < RECORD_HEAD,
        forall|i: int| 0 <= i < lines.len() ==> framable(#[trigger] lines[i]),
    ensures
        decoded(header_bytes(0) + body_bytes(lines) + stray) == Err::<
            Seq<Seq<StyledCell>>,
            ChunkError,
        >(ChunkError::TrailingBytes),
{
    let body = body_bytes(lines) + stray;
    lemma_join_three(header_bytes(0), body_bytes(lines), stray);
    lemma_after_header(0, body);
    lemma_read_records(lines, stray, Seq::empty());
    assert(0u32 & 1u32 == 0) by (bit_vector);
}

/// The head of a record is read off it, whatever follows.
proof fn lemma_read_head(text_len: u32, style_len: u32, blocks: Seq<u8>)
    ensures
        read_line(le32(text_len) + (le32(style_len) + blocks)) == (match read_block(
            blocks,
            text_len as nat,
        ) {
            Err(e) => Err(e),
            Ok((text, rest)) => match read_block(rest, style_len as nat) {
                Err(e) => Err(e),
                Ok((style, rest)) => match read_cells(text, style) {
                    Err(e) => Err(e),
                    Ok(cells) => Ok((cells, rest)),
                },
            },
        }),
{
    reveal(read_line);
    lemma_read_le32(text_len, le32(style_len) + blocks);
    lemma_read_le32(style_len, blocks);
}

/// A record with a whole head, but not all of its two blocks, is cut short.
proof fn lemma_cut_record(text: Seq<u8>, style: Seq<u8>, kept: nat)
    requires
        text.len() <= u32::MAX,
        style.len() <= u32::MAX,
        kept < text.len() + style.len(),
    ensures
        read_line(
            le32(length_field(text.len())) + (le32(length_field(style.len())) + (text + style).take(
                kept as int,
            )),
        ) == Err::<(Seq<StyledCell>, Seq<u8>), ChunkError>(ChunkError::Truncated),
{
    let blocks = (text + style).take(kept as int);
    assert(length_field(text.len()) == text.len());
    assert(length_field(style.len()) == style.len());
    lemma_read_head(length_field(text.len()), length_field(style.len()), blocks);
}

/// A prefix that ends behind the first two parts keeps them.
proof fn lemma_take_nested(a: Seq<u8>, b: Seq<u8>, c: Seq<u8>, d: Seq<u8>, n: int)
    requires
        a.len() + b.len() <= n <= a.len() + b.len() + c.len() + d.len(),
    ensures
        (a + b + c + d).take(n) == a + (b + (c + d).take(n - a.len() - b.len())),
{
    assert((a + b + c + d).take(n) =~= a + (b + (c + d).take(n - a.len() - b.len())));
}

/// Concatenation of three is associative.
proof fn lemma_join_three(a: Seq<u8>, b: Seq<u8>, c: Seq<u8>)
    ensures
        a + b + c == a + (b + c),
{
    assert(a + b + c =~= a + (b + c));
}

/// A record that cannot be read behind others makes the chunk unreadable.
proof fn lemma_bad_last_record(lines: Seq<Seq<StyledCell>>, bad: Seq<u8>, e: ChunkError)
    requires
        bad.len() >= RECORD_HEAD,
        read_line(bad) == Err::<(Seq<StyledCell>, Seq<u8>), ChunkError>(e),
        forall|i: int| 0 <= i < lines.len() ==> framable(#[trigger] lines[i]),
    ensures
        decoded(header_bytes(0) + body_bytes(lines) + bad) == Err::<
            Seq<Seq<StyledCell>>,
            ChunkError,
        >(e),
{
    let body = body_bytes(lines) + bad;
    lemma_join_three(header_bytes(0), body_bytes(lines), bad);
    assert(0u32 & 1u32 == 0) by (bit_vector);
    lemma_after_header(0, body);
    lemma_read_records(lines, bad, Seq::empty());
}

/// What remains of a record that is cut behind its head.
proof fn lemma_cut_line(text: Seq<u8>, style: Seq<u8>, kept: nat)
    requires
        text.len() <= u32::MAX,
        style.len() <= u32::MAX,
        RECORD_HEAD <= kept < RECORD_HEAD + text.len() + style.len(),
    ensures
        read_line(
            (le32(length_field(text.len())) + le32(length_field(style.len())) + text + style).take(
                kept as int,
            ),
        ) == Err::<(Seq<StyledCell>, Seq<u8>), ChunkError>(ChunkError::Truncated),
{
    let first = le32(length_field(text.len()));
    let second = le32(length_field(style.len()));
    assert(first.len() == 4 && second.len() == 4);
    lemma_take_nested(first, second, text, style, kept as int);
    lemma_cut_record(text, style, (kept - 8) as nat);
}

/// A chunk whose last record is cut short is truncated: where the head of the
/// record is whole, but not all of the two blocks that it announces follows.
pub proof fn law_cut_record_is_truncated(
    lines: Seq<Seq<StyledCell>>,
    last: Seq<StyledCell>,
    kept: nat,
)
    requires
        RECORD_HEAD <= kept < line_bytes(last).len(),
        framable(last),
        forall|i: int| 0 <= i < lines.len() ==> framable(#[trigger] lines[i]),
    ensures
        decoded(header_bytes(0) + body_bytes(lines) + line_bytes(last).take(kept as int)) == Err::<
            Seq<Seq<StyledCell>>,
            ChunkError,
        >(ChunkError::Truncated),
{
    lemma_cut_line(text_bytes(last), style_bytes(last), kept);
    lemma_bad_last_record(lines, line_bytes(last).take(kept as int), ChunkError::Truncated);
}

// ---- grid rows to logical lines ----------------------------------------

/// Does the row soft-wrap into the next one?
pub open spec fn wraps(row: Seq<StyledCell>) -> bool {
    row.len() > 0 && row.last().flags & FLAG_WRAPLINE != 0
}

/// Is the cell a width artifact of a double-width character?
pub open spec fn is_spacer(cell: StyledCell) -> bool {
    cell.flags & (FLAG_WIDE_CHAR_SPACER | FLAG_LEADING_WIDE_CHAR_SPACER) != 0
}

/// The cell without the soft-wrap marker.
pub open spec fn unmarked(cell: StyledCell) -> StyledCell {
    StyledCell { c: cell.c, fg: cell.fg, bg: cell.bg, flags: cell.flags & !FLAG_WRAPLINE }
}

/// The cells of a row that belong to the logical line: all but the spacers,
/// without the soft-wrap marker.
pub open spec fn kept_cells(row: Seq<StyledCell>) -> Seq<StyledCell>
    decreases row.len(),
{
    if row.len() == 0 {
        Seq::empty()
    } else if is_spacer(row.last()) {
        kept_cells(row.drop_last())
    } else {
        kept_cells(row.drop_last()).push(unmarked(row.last()))
    }
}

/// Is the cell blank padding: a space in the default colors, without flags?
pub open spec fn default_blank(cell: StyledCell) -> bool {
    cell.c == ' ' && cell.fg == Color::Named(NamedColor::Foreground) && cell.bg == Color::Named(
        NamedColor::Background,
    ) && cell.flags == 0
}

/// The cells without trailing blank padding.
pub open spec fn trimmed(cells: Seq<StyledCell>) -> Seq<StyledCell>
    decreases cells.len(),
{
    if cells.len() > 0 && default_blank(cells.last()) {
        trimmed(cells.drop_last())
    } else {
        cells
    }
}

/// The logical lines of `rows`, where `open` is what an earlier soft-wrapped
/// row began.
pub open spec fn logical_lines(rows: Seq<Seq<StyledCell>>, open: Seq<StyledCell>) -> Seq<
    Seq<StyledCell>,
>
    decreases rows.len(),
{
    if rows.len() == 0 {
        if open.len() == 0 {
            Seq::empty()
        } else {
            seq![trimmed(open)]
        }
    } else {
        let line = open + kept_cells(rows[0]);
        if wraps(rows[0]) {
            logical_lines(rows.skip(1), line)
        } else {
            seq![trimmed(line)] + logical_lines(rows.skip(1), Seq::empty())
        }
    }
}

/// Is the cell blank padding?
fn is_default_blank(cell: &StyledCell) -> (r: bool)
    ensures
        r == default_blank(*cell),
{
    cell.c == ' ' && cell.fg == Color::Named(NamedColor::Foreground) && cell.bg == Color::Named(
        NamedColor::Background,
    ) && cell.flags == 0
}

/// Drops trailing blank padding.
fn trim_trailing_default(cells: &mut Vec<StyledCell>)
    ensures
        final(cells)@ == trimmed(old(cells)@),
{
    while cells.len() > 0 && is_default_blank(&cells[cells.len() - 1])
        invariant
            trimmed(cells@) == trimmed(old(cells)@),
        decreases cells@.len(),
    {
        let ghost before = cells@;
        let _ = cells.pop();
        assert(cells@ =~= before.drop_last());
    }
}

/// Collapses grid rows into width-independent logical lines.
///
/// Rows are joined where the earlier one's last cell carries the soft-wrap
/// marker; spacer cells are dropped, the marker is stripped, and trailing
/// blank padding is trimmed once for each logical line. An unfinished last
/// line is kept unless it is empty.
pub fn unwrap_rows(rows: &[StyledLine]) -> (out: Vec<StyledLine>)
    ensures
        line_cells(out@) == logical_lines(line_cells(rows@), Seq::empty()),
{
    let ghost all = line_cells(rows@);
    let ghost goal = logical_lines(all, Seq::empty());
    let mut out: Vec<StyledLine> = Vec::new();
    let mut current: Vec<StyledCell> = Vec::new();
    let mut i: usize = 0;
    assert(all.skip(0) =~= all);
    assert(goal =~= line_cells(out@) + logical_lines(all.skip(0), current@));
    while i < rows.len()
        invariant
            i <= rows@.len(),
            all == line_cells(rows@),
            goal == line_cells(out@) + logical_lines(all.skip(i as int), current@),
        decreases rows@.len() - i,
    {
        let cells = &rows[i].cells;
        let ghost row = all[i as int];
        let ghost open = current@;
        let ghost done = out@;
        assert(row == cells@);
        let continues = cells.len() > 0 && cells[cells.len() - 1].flags & FLAG_WRAPLINE != 0;
        let mut k: usize = 0;
        while k < cells.len()
            invariant
                k <= cells@.len(),
                current@ == open + kept_cells(cells@.take(k as int)),
            decreases cells@.len() - k,
        {
            let cell = cells[k];
            assert(cells@.take(k + 1).drop_last() =~= cells@.take(k as int));
            if cell.flags & (FLAG_WIDE_CHAR_SPACER | FLAG_LEADING_WIDE_CHAR_SPACER) == 0 {
                current.push(
                    StyledCell {
                        c: cell.c,
                        fg: cell.fg,
                        bg: cell.bg,
                        flags: cell.flags & !FLAG_WRAPLINE,
                    },
                );
            }
            assert(current@ =~= open + kept_cells(cells@.take(k + 1)));
            k += 1;
        }
        assert(cells@.take(k as int) =~= row);
        assert(all.skip(i as int)[0] == row);
        assert(all.skip(i as int).skip(1) =~= all.skip(i + 1));
        if !continues {
            trim_trailing_default(&mut current);
            out.push(StyledLine { cells: current });
            current = Vec::new();
            assert(line_cells(out@) =~= line_cells(done).push(trimmed(open + kept_cells(row))));
            assert(goal =~= line_cells(out@) + logical_lines(all.skip(i + 1), current@));
        }
        i += 1;
    }
    assert(all.skip(i as int) =~= Seq::empty());
    if current.len() > 0 {
        let ghost done = out@;
        let ghost open = current@;
        trim_trailing_default(&mut current);
        out.push(StyledLine { cells: current });
        assert(line_cells(out@) =~= line_cells(done).push(trimmed(open)));
    }
    assert(goal =~= line_cells(out@));
    out
}

/// Trimming leaves a prefix that does not end in padding.
proof fn lemma_trimmed(cells: Seq<StyledCell>)
    ensures
        trimmed(cells).len() <= cells.len(),
        trimmed(cells) == cells.take(trimmed(cells).len() as int),
        trimmed(cells).len() > 0 ==> !default_blank(trimmed(cells).last()),
        forall|i: int| trimmed(cells).len() <= i < cells.len() ==> default_blank(#[trigger] cells[i]),
    decreases cells.len(),
{
    if cells.len() > 0 && default_blank(cells.last()) {
        lemma_trimmed(cells.drop_last());
        assert forall|i: int| trimmed(cells).len() <= i < cells.len() implies default_blank(
            #[trigger] cells[i],
        ) by {
            if i < cells.len() - 1 {
                assert(cells.drop_last()[i] == cells[i]);
            }
        }
    }
    assert(trimmed(cells) =~= cells.take(trimmed(cells).len() as int));
}

/// A cell that may stand in a logical line: no width artifact, no marker.
pub open spec fn logical_cell(cell: StyledCell) -> bool {
    cell.flags & FLAG_WRAPLINE == 0 && !is_spacer(cell)
}

/// The kept cells of a row carry neither spacer flags nor the marker.
proof fn lemma_kept_cells(row: Seq<StyledCell>)
    ensures
        forall|i: int|
            0 <= i < kept_cells(row).len() ==> logical_cell(#[trigger] kept_cells(row)[i]),
    decreases row.len(),
{
    if row.len() > 0 {
        lemma_kept_cells(row.drop_last());
        let cell = row.last();
        let f = cell.flags;
        assert((f & !0x0010u16) & 0x0010u16 == 0) by (bit_vector);
        assert(f & (0x0040u16 | 0x0400u16) == 0 ==> (f & !0x0010u16) & (0x0040u16 | 0x0400u16)
            == 0) by (bit_vector);
        let kept = kept_cells(row);
        let before = kept_cells(row.drop_last());
        if !is_spacer(cell) {
            assert(logical_cell(unmarked(cell)));
            assert forall|i: int| 0 <= i < kept.len() implies logical_cell(#[trigger] kept[i]) by {
                if i < before.len() {
                    assert(kept[i] == before[i]);
                } else {
                    assert(kept[i] == unmarked(cell));
                }
            }
        }
    }
}

/// A line that a logical line may be: cells without artifacts, and no blank
/// padding at the end.
pub open spec fn clean_line(line: Seq<StyledCell>) -> bool {
    &&& forall|i: int| 0 <= i < line.len() ==> logical_cell(#[trigger] line[i])
    &&& line.len() > 0 ==> !default_blank(line.last())
}

/// Trimming makes a line of artifact-free cells clean.
proof fn lemma_trimmed_clean(line: Seq<StyledCell>)
    requires
        forall|i: int| 0 <= i < line.len() ==> logical_cell(#[trigger] line[i]),
    ensures
        clean_line(trimmed(line)),
{
    lemma_trimmed(line);
    let t = trimmed(line);
    assert forall|i: int| 0 <= i < t.len() implies logical_cell(#[trigger] t[i]) by {
        assert(t[i] == line[i]);
    }
}

/// The lines come out clean whatever an earlier row left open.
proof fn lemma_logical_lines_clean(rows: Seq<Seq<StyledCell>>, open: Seq<StyledCell>)
    requires
        forall|i: int| 0 <= i < open.len() ==> logical_cell(#[trigger] open[i]),
    ensures
        forall|n: int|
            0 <= n < logical_lines(rows, open).len() ==> clean_line(
                #[trigger] logical_lines(rows, open)[n],
            ),
    decreases rows.len(),
{
    lemma_trimmed_clean(open);
    if rows.len() > 0 {
        let line = open + kept_cells(rows[0]);
        lemma_kept_cells(rows[0]);
        assert forall|i: int| 0 <= i < line.len() implies logical_cell(#[trigger] line[i]) by {
            if i < open.len() {
                assert(line[i] == open[i]);
            } else {
                assert(line[i] == kept_cells(rows[0])[i - open.len()]);
            }
        }
        lemma_trimmed_clean(line);
        if wraps(rows[0]) {
            lemma_logical_lines_clean(rows.skip(1), line);
            assert(logical_lines(rows, open) == logical_lines(rows.skip(1), line));
        } else {
            let rest = logical_lines(rows.skip(1), Seq::empty());
            lemma_logical_lines_clean(rows.skip(1), Seq::empty());
            assert(logical_lines(rows, open) == seq![trimmed(line)] + rest);
            assert forall|n: int| 0 <= n < 1 + rest.len() implies clean_line(
                #[trigger] logical_lines(rows, open)[n],
            ) by {
                if n > 0 {
                    assert(logical_lines(rows, open)[n] == rest[n - 1]);
                } else {
                    assert(logical_lines(rows, open)[n] == trimmed(line));
                }
            }
        }
    }
}

/// The logical lines of any rows hold no spacer and no soft-wrap marker, and
/// none of them ends in blank padding.
pub proof fn law_logical_lines_are_clean(rows: Seq<Seq<StyledCell>>)
    ensures
        forall|n: int|
            0 <= n < logical_lines(rows, Seq::empty()).len() ==> clean_line(
                #[trigger] logical_lines(rows, Seq::empty())[n],
            ),
{
    lemma_logical_lines_clean(rows, Seq::empty());
}

/// Clean lines are their own logical lines.
proof fn lemma_clean_lines_stay(lines: Seq<Seq<StyledCell>>)
    requires
        forall|n: int| 0 <= n < lines.len() ==> clean_line(#[trigger] lines[n]),
    ensures
        logical_lines(lines, Seq::empty()) == lines,
    decreases lines.len(),
{
    if lines.len() > 0 {
        let line = lines[0];
        let rest = lines.skip(1);
        assert(clean_line(line));
        assert forall|n: int| 0 <= n < rest.len() implies clean_line(#[trigger] rest[n]) by {
            assert(clean_line(lines[n + 1]));
        }
        lemma_clean_lines_stay(rest);
        lemma_kept_cells_of_clean(line);
        if line.len() > 0 {
            assert(logical_cell(line[line.len() - 1]));
        }
        assert(Seq::<StyledCell>::empty() + line =~= line);
        assert(seq![line] + rest =~= lines);
    }
}

/// Unwrapping what was unwrapped changes nothing.
pub proof fn law_unwrapping_again_changes_nothing(rows: Seq<Seq<StyledCell>>)
    ensures
        logical_lines(logical_lines(rows, Seq::empty()), Seq::empty()) == logical_lines(
            rows,
            Seq::empty(),
        ),
{
    law_logical_lines_are_clean(rows);
    lemma_clean_lines_stay(logical_lines(rows, Seq::empty()));
}

/// A cell of the grid's own making: a space in the default colors.
pub open spec fn filler(flags: u16) -> StyledCell {
    StyledCell {
        c: ' ',
        fg: Color::Named(NamedColor::Foreground),
        bg: Color::Named(NamedColor::Background),
        flags,
    }
}

/// The row, made up to `width` cells with `cell`.
pub open spec fn filled(row: Seq<StyledCell>, width: nat, cell: StyledCell) -> Seq<StyledCell> {
    if row.len() < width {
        row + Seq::new((width - row.len()) as nat, |i: int| cell)
    } else {
        row
    }
}

/// A full row whose line goes on in the next one: a column that a
/// double-width character did not fit into holds a spacer, and the last cell
/// carries the soft-wrap marker.
pub open spec fn full_row(row: Seq<StyledCell>, width: nat) -> Seq<StyledCell> {
    let full = filled(row, width, filler(FLAG_LEADING_WIDE_CHAR_SPACER));
    let last = full.last();
    full.drop_last().push(
        StyledCell { c: last.c, fg: last.fg, bg: last.bg, flags: last.flags | FLAG_WRAPLINE },
    )
}

/// The columns that a cell of a logical line takes: a double-width character
/// is followed by a spacer.
pub open spec fn columns_of(cell: StyledCell) -> Seq<StyledCell> {
    if cell.flags & crate::terminal::FLAG_WIDE_CHAR != 0 {
        seq![cell, filler(FLAG_WIDE_CHAR_SPACER)]
    } else {
        seq![cell]
    }
}

/// The rows that show a logical line on a grid of `width` columns, where
/// `row` is what the first of them holds already.
pub open spec fn line_rows(line: Seq<StyledCell>, width: nat, row: Seq<StyledCell>) -> Seq<
    Seq<StyledCell>,
>
    decreases line.len(),
{
    if line.len() == 0 {
        seq![filled(row, width, filler(0))]
    } else if row.len() > 0 && row.len() + columns_of(line[0]).len() > width {
        seq![full_row(row, width)] + line_rows(line.skip(1), width, columns_of(line[0]))
    } else {
        line_rows(line.skip(1), width, row + columns_of(line[0]))
    }
}

/// The rows that show logical lines on a grid of `width` columns.
pub open spec fn grid_rows(lines: Seq<Seq<StyledCell>>, width: nat) -> Seq<Seq<StyledCell>>
    decreases lines.len(),
{
    if lines.len() == 0 {
        Seq::empty()
    } else {
        line_rows(lines[0], width, Seq::empty()) + grid_rows(lines.skip(1), width)
    }
}

/// What is kept of two stretches of a row is what is kept of each.
proof fn lemma_kept_cells_add(a: Seq<StyledCell>, b: Seq<StyledCell>)
    ensures
        kept_cells(a + b) == kept_cells(a) + kept_cells(b),
    decreases b.len(),
{
    if b.len() == 0 {
        assert(a + b =~= a);
        assert(kept_cells(a) + kept_cells(b) =~= kept_cells(a));
    } else {
        lemma_kept_cells_add(a, b.drop_last());
        assert((a + b).drop_last() =~= a + b.drop_last());
        assert((a + b).last() == b.last());
        assert(kept_cells(a + b) =~= kept_cells(a) + kept_cells(b));
    }
}

/// A run of spacers adds nothing to the line.
proof fn lemma_kept_cells_of_spacers(cells: Seq<StyledCell>)
    requires
        forall|i: int| 0 <= i < cells.len() ==> is_spacer(#[trigger] cells[i]),
    ensures
        kept_cells(cells) == Seq::<StyledCell>::empty(),
    decreases cells.len(),
{
    if cells.len() > 0 {
        assert(is_spacer(cells[cells.len() - 1]));
        assert forall|i: int| 0 <= i < cells.len() - 1 implies is_spacer(
            #[trigger] cells.drop_last()[i],
        ) by {
            assert(is_spacer(cells[i]));
        }
        lemma_kept_cells_of_spacers(cells.drop_last());
    }
}

/// Cells without artifacts are all kept as they are.
proof fn lemma_kept_cells_of_clean(cells: Seq<StyledCell>)
    requires
        forall|i: int| 0 <= i < cells.len() ==> logical_cell(#[trigger] cells[i]),
    ensures
        kept_cells(cells) == cells,
    decreases cells.len(),
{
    if cells.len() > 0 {
        assert(logical_cell(cells[cells.len() - 1]));
        assert forall|i: int| 0 <= i < cells.len() - 1 implies logical_cell(
            #[trigger] cells.drop_last()[i],
        ) by {
            assert(logical_cell(cells[i]));
        }
        lemma_kept_cells_of_clean(cells.drop_last());
        let f = cells.last().flags;
        assert(f & 0x0010u16 == 0 ==> f & !0x0010u16 == f) by (bit_vector);
        assert(unmarked(cells.last()) == cells.last());
        assert(kept_cells(cells) =~= cells);
    }
}

/// The columns of a cell hold that cell, and none of them is marked.
proof fn lemma_columns_of(cell: StyledCell)
    requires
        logical_cell(cell),
    ensures
        kept_cells(columns_of(cell)) == seq![cell],
        forall|i: int|
            0 <= i < columns_of(cell).len() ==> (#[trigger] columns_of(cell)[i]).flags
                & FLAG_WRAPLINE == 0,
{
    let one = seq![cell];
    lemma_kept_cells_of_clean(one);
    assert(0x0040u16 & (0x0040u16 | 0x0400u16) != 0 && 0x0040u16 & 0x0010u16 == 0)
        by (bit_vector);
    let spacer = seq![filler(FLAG_WIDE_CHAR_SPACER)];
    lemma_kept_cells_of_spacers(spacer);
    lemma_kept_cells_add(one, spacer);
    assert(one + spacer =~= seq![cell, filler(FLAG_WIDE_CHAR_SPACER)]);
    assert(one + Seq::<StyledCell>::empty() =~= one);
}

/// A full row wraps, and holds what the row held.
proof fn lemma_full_row(row: Seq<StyledCell>, width: nat)
    requires
        row.len() > 0,
    ensures
        wraps(full_row(row, width)),
        kept_cells(full_row(row, width)) == kept_cells(row),
{
    let spacer = filler(FLAG_LEADING_WIDE_CHAR_SPACER);
    let full = filled(row, width, spacer);
    let marked = full_row(row, width);
    assert(0x0400u16 & (0x0040u16 | 0x0400u16) != 0) by (bit_vector);
    if row.len() < width {
        let tail = Seq::new((width - row.len()) as nat, |i: int| spacer);
        lemma_kept_cells_of_spacers(tail);
        lemma_kept_cells_add(row, tail);
        assert(kept_cells(row) + Seq::<StyledCell>::empty() =~= kept_cells(row));
    }
    assert(kept_cells(full) == kept_cells(row));
    let f = full.last().flags;
    assert((f | 0x0010u16) & 0x0010u16 != 0) by (bit_vector);
    assert((f | 0x0010u16) & !0x0010u16 == f & !0x0010u16) by (bit_vector);
    assert((f | 0x0010u16) & (0x0040u16 | 0x0400u16) == f & (0x0040u16 | 0x0400u16))
        by (bit_vector);
    assert(marked.drop_last() =~= full.drop_last());
    assert(unmarked(marked.last()) == unmarked(full.last()));
}

/// Trailing padding makes no difference to the trimmed line.
proof fn lemma_trimmed_padded(cells: Seq<StyledCell>, n: nat)
    ensures
        trimmed(cells + Seq::new(n, |i: int| filler(0))) == trimmed(cells),
    decreases n,
{
    let padded = cells + Seq::new(n, |i: int| filler(0));
    if n == 0 {
        assert(padded =~= cells);
    } else {
        let less = cells + Seq::new((n - 1) as nat, |i: int| filler(0));
        lemma_trimmed_padded(cells, (n - 1) as nat);
        assert(padded.last() == filler(0));
        assert(padded.drop_last() =~= less);
    }
}

/// The rows of one line give that line, after what was open before it.
proof fn lemma_line_rows(
    line: Seq<StyledCell>,
    width: nat,
    row: Seq<StyledCell>,
    open: Seq<StyledCell>,
    rest: Seq<Seq<StyledCell>>,
)
    requires
        forall|i: int| 0 <= i < line.len() ==> logical_cell(#[trigger] line[i]),
        forall|i: int| 0 <= i < row.len() ==> (#[trigger] row[i]).flags & FLAG_WRAPLINE == 0,
    ensures
        logical_lines(line_rows(line, width, row) + rest, open) == seq![
            trimmed(open + kept_cells(row) + line),
        ] + logical_lines(rest, Seq::empty()),
    decreases line.len(),
{
    let rows = line_rows(line, width, row);
    if line.len() == 0 {
        let last = filled(row, width, filler(0));
        let held = open + kept_cells(row);
        assert((rows + rest)[0] == last);
        assert((rows + rest).skip(1) =~= rest);
        assert(held + line =~= held);
        assert(0u16 & 0x0010u16 == 0 && 0u16 & (0x0040u16 | 0x0400u16) == 0) by (bit_vector);
        if row.len() < width {
            let n = (width - row.len()) as nat;
            let pad = Seq::new(n, |i: int| filler(0));
            assert(forall|i: int| 0 <= i < pad.len() ==> logical_cell(#[trigger] pad[i]));
            lemma_kept_cells_of_clean(pad);
            lemma_kept_cells_add(row, pad);
            lemma_trimmed_padded(held, n);
            assert(open + kept_cells(last) =~= held + pad);
            assert(last.last() == filler(0));
        } else if row.len() > 0 {
            assert(row[row.len() - 1].flags & FLAG_WRAPLINE == 0);
        }
        assert(!wraps(last));
    } else {
        let shown = columns_of(line[0]);
        let after = line.skip(1);
        assert(logical_cell(line[0]));
        lemma_columns_of(line[0]);
        assert forall|i: int| 0 <= i < after.len() implies logical_cell(#[trigger] after[i]) by {
            assert(logical_cell(line[i + 1]));
        }
        assert(seq![line[0]] + after =~= line);
        if row.len() > 0 && row.len() + shown.len() > width {
            let held = open + kept_cells(row);
            lemma_full_row(row, width);
            lemma_line_rows(after, width, shown, held, rest);
            assert((rows + rest)[0] == full_row(row, width));
            assert((rows + rest).skip(1) =~= line_rows(after, width, shown) + rest);
            assert(held + kept_cells(shown) + after =~= held + line);
        } else {
            let next = row + shown;
            assert forall|i: int| 0 <= i < next.len() implies (#[trigger] next[i]).flags
                & FLAG_WRAPLINE == 0 by {
                if i < row.len() {
                    assert(next[i] == row[i]);
                } else {
                    assert(next[i] == shown[i - row.len()]);
                }
            }
            lemma_line_rows(after, width, next, open, rest);
            lemma_kept_cells_add(row, shown);
            assert(open + kept_cells(next) + after =~= open + kept_cells(row) + line);
        }
    }
}

/// Logical lines do not depend on the width: shown on a grid of any width,
/// with rows wrapped, padded and double-width characters spaced out, they
/// come back cell for cell.
pub proof fn law_lines_survive_every_width(lines: Seq<Seq<StyledCell>>, width: nat)
    requires
        forall|i: int| 0 <= i < lines.len() ==> clean_line(#[trigger] lines[i]),
    ensures
        logical_lines(grid_rows(lines, width), Seq::empty()) == lines,
    decreases lines.len(),
{
    if lines.len() > 0 {
        let line = lines[0];
        let after = lines.skip(1);
        assert(clean_line(line));
        assert forall|i: int| 0 <= i < after.len() implies clean_line(#[trigger] after[i]) by {
            assert(clean_line(lines[i + 1]));
        }
        law_lines_survive_every_width(after, width);
        lemma_line_rows(line, width, Seq::empty(), Seq::empty(), grid_rows(after, width));
        assert(Seq::<StyledCell>::empty() + kept_cells(Seq::empty()) + line =~= line);
        assert(trimmed(line) == line);
        assert(seq![line] + after =~= lines);
    }
}

/// Numbers stand with the least significant byte first.
pub proof fn law_numbers_in_bytes(x: u16, y: u32)
    ensures
        le16(x).len() == 2,
        x == le16(x)[0] + 256 * le16(x)[1],
        value16(le16(x)) == x,
        le32(y).len() == 4,
        y == le32(y)[0] + 256 * le32(y)[1] + 65536 * le32(y)[2] + 16777216 * le32(y)[3],
        value32(le32(y)) == y,
{
    lemma_read_le16(x, Seq::empty());
    lemma_read_le32(y, Seq::empty());
    assert(y == y % 256 + 256 * (y / 256 % 256) + 65536 * (y / 65536 % 256) + 16777216 * (y
        / 16777216));
}

/// The header of a chunk, byte by byte: `TMCK`, the version 1, the flags, and a field
/// that is not used. A compressed chunk has the lowest flag set.
pub proof fn law_header_of_a_chunk()
    ensures
        header_bytes(0) == seq![
            0x54u8, 0x4d, 0x43, 0x4b, 1, 0, 0, 0, 0, 0, 0, 0, 0, 0, 0, 0,
        ],
        header_bytes(FLAG_COMPRESSED) == seq![
            0x54u8, 0x4d, 0x43, 0x4b, 1, 0, 0, 0, 1, 0, 0, 0, 0, 0, 0, 0,
        ],
        ZSTD_LEVEL == 3,
{
    assert(header_bytes(0) =~= seq![
        0x54u8, 0x4d, 0x43, 0x4b, 1, 0, 0, 0, 0, 0, 0, 0, 0, 0, 0, 0,
    ]);
    assert(header_bytes(FLAG_COMPRESSED) =~= seq![
        0x54u8, 0x4d, 0x43, 0x4b, 1, 0, 0, 0, 1, 0, 0, 0, 0, 0, 0, 0,
    ]);
}

/// The numbers of the named colors: the eight colors from black to white, the eight
/// bright ones behind them in the same order, and from 256 on the foreground, the
/// background and the cursor, the eight dim ones in that order, and the bright and the
/// dim foreground.
pub proof fn law_numbers_of_named_colors()
    ensures
        named_number(NamedColor::Black) == 0,
        named_number(NamedColor::Red) == 1,
        named_number(NamedColor::Green) == 2,
        named_number(NamedColor::Yellow) == 3,
        named_number(NamedColor::Blue) == 4,
        named_number(NamedColor::Magenta) == 5,
        named_number(NamedColor::Cyan) == 6,
        named_number(NamedColor::White) == 7,
        named_number(NamedColor::BrightBlack) == named_number(NamedColor::Black) + 8,
        named_number(NamedColor::BrightRed) == named_number(NamedColor::Red) + 8,
        named_number(NamedColor::BrightGreen) == named_number(NamedColor::Green) + 8,
        named_number(NamedColor::BrightYellow) == named_number(NamedColor::Yellow) + 8,
        named_number(NamedColor::BrightBlue) == named_number(NamedColor::Blue) + 8,
        named_number(NamedColor::BrightMagenta) == named_number(NamedColor::Magenta) + 8,
        named_number(NamedColor::BrightCyan) == named_number(NamedColor::Cyan) + 8,
        named_number(NamedColor::BrightWhite) == named_number(NamedColor::White) + 8,
        named_number(NamedColor::Foreground) == 256,
        named_number(NamedColor::Background) == 257,
        named_number(NamedColor::Cursor) == 258,
        named_number(NamedColor::DimBlack) == named_number(NamedColor::Black) + 259,
        named_number(NamedColor::DimRed) == named_number(NamedColor::Red) + 259,
        named_number(NamedColor::DimGreen) == named_number(NamedColor::Green) + 259,
        named_number(NamedColor::DimYellow) == named_number(NamedColor::Yellow) + 259,
        named_number(NamedColor::DimBlue) == named_number(NamedColor::Blue) + 259,
        named_number(NamedColor::DimMagenta) == named_number(NamedColor::Magenta) + 259,
        named_number(NamedColor::DimCyan) == named_number(NamedColor::Cyan) + 259,
        named_number(NamedColor::DimWhite) == named_number(NamedColor::White) + 259,
        named_number(NamedColor::BrightForeground) == 267,
        named_number(NamedColor::DimForeground) == 268,
{
}

/// A number is that of a named color where some color has it.
pub proof fn law_which_numbers_are_colors(d: u16, n: NamedColor)
    ensures
        is_named_number(named_number(n)),
        !is_named_number(d) ==> named_number(n) != d,
        is_named_number(d) <==> d < 16 || (256 <= d && d < 269),
{
}

/// Colors in bytes: a named one by 0 and its number, one of 24 bits by 1 and its red,
/// green and blue, one of the palette by 2 and its index.
pub proof fn law_colors_in_bytes(n: NamedColor, r: u8, g: u8, b: u8, i: u8)
    ensures
        color_bytes(stored_color(Color::Spec(Rgb { r, g, b }))) == seq![1u8, r, g, b],
        color_bytes(stored_color(Color::Indexed(i))) == seq![2u8, i],
        ({
            let bytes = color_bytes(stored_color(Color::Named(n)));
            bytes.len() == 3 && bytes[0] == 0 && bytes[1] + 256 * bytes[2] == named_number(n)
        }),
{
}

/// What stands at the front of some bytes is read as a color by its tag, whatever
/// follows; any other tag is refused, and so is a color that is cut short.
pub proof fn law_colors_are_read_by_their_tag(b: Seq<u8>)
    ensures
        b.len() == 0 ==> read_stored_color(b) == Err::<(ChunkColor, Seq<u8>), ChunkError>(
            ChunkError::Truncated,
        ),
        b.len() > 0 && b[0] > 2 ==> read_stored_color(b) == Err::<
            (ChunkColor, Seq<u8>),
            ChunkError,
        >(ChunkError::BadColorTag(b[0])),
        b.len() >= 3 && b[0] == 0 ==> read_stored_color(b) == Ok::<_, ChunkError>(
            (ChunkColor::Named((b[1] + 256 * b[2]) as u16), b.skip(3)),
        ),
        b.len() >= 4 && b[0] == 1 ==> read_stored_color(b) == Ok::<_, ChunkError>(
            (ChunkColor::Rgb(b[1], b[2], b[3]), b.skip(4)),
        ),
        b.len() >= 2 && b[0] == 2 ==> read_stored_color(b) == Ok::<_, ChunkError>(
            (ChunkColor::Indexed(b[1]), b.skip(2)),
        ),
        0 < b.len() < 3 && b[0] == 0 || 0 < b.len() < 4 && b[0] == 1 || b.len() == 1 && b[0] == 2
            ==> read_stored_color(b) == Err::<(ChunkColor, Seq<u8>), ChunkError>(
            ChunkError::Truncated,
        ),
{
    if b.len() > 0 {
        let rest = b.skip(1);
        assert(b.take(1)[0] == b[0]);
        if b.len() >= 2 {
            assert(rest.take(1)[0] == b[1]);
            assert(rest.skip(1) =~= b.skip(2));
        }
        if b.len() >= 3 {
            assert(rest.take(2)[0] == b[1] && rest.take(2)[1] == b[2]);
            assert(rest.skip(2) =~= b.skip(3));
        }
        if b.len() >= 4 {
            assert(rest.take(3)[0] == b[1] && rest.take(3)[1] == b[2] && rest.take(3)[2] == b[3]);
            assert(rest.skip(3) =~= b.skip(4));
        }
    }
}

/// What a stored color stands for: a color of 24 bits and one of the palette for
/// themselves, a number for the color that has it; any other number is refused.
pub proof fn law_stored_colors_stand_for(n: NamedColor, d: u16, r: u8, g: u8, b: u8, i: u8)
    ensures
        loaded_color(ChunkColor::Named(named_number(n))) == Ok::<Color, ChunkError>(
            Color::Named(n),
        ),
        loaded_color(ChunkColor::Rgb(r, g, b)) == Ok::<Color, ChunkError>(
            Color::Spec(Rgb { r, g, b }),
        ),
        loaded_color(ChunkColor::Indexed(i)) == Ok::<Color, ChunkError>(Color::Indexed(i)),
        16 <= d < 256 || d > 268 ==> loaded_color(ChunkColor::Named(d)) == Err::<Color, ChunkError>(
            ChunkError::UnknownNamedColor(d),
        ),
{
    law_color_store_load(Color::Named(n));
}

/// Where four parts stand, of which the first two have four bytes.
proof fn lemma_four_parts(a: Seq<u8>, b: Seq<u8>, c: Seq<u8>, d: Seq<u8>)
    requires
        a.len() == 4,
        b.len() == 4,
    ensures
        ({
            let all = a + b + c + d;
            let n = c.len() as int;
            &&& all.len() == 8 + n + d.len()
            &&& all.subrange(0, 4) == a
            &&& all.subrange(4, 8) == b
            &&& all.subrange(8, 8 + n) == c
            &&& all.skip(8 + n) == d
        }),
{
    let all = a + b + c + d;
    let n = c.len() as int;
    assert(all.subrange(0, 4) =~= a);
    assert(all.subrange(4, 8) =~= b);
    assert(all.subrange(8, 8 + n) =~= c);
    assert(all.skip(8 + n) =~= d);
}

/// The record of a line: the length of its text and that of its styles, each in four
/// bytes; then its text in UTF-8, and its styles.
pub proof fn law_record_of_a_line(cells: Seq<StyledCell>)
    requires
        encode_utf8(cell_chars(cells)).len() <= u32::MAX,
        style_bytes(cells).len() <= u32::MAX,
    ensures
        ({
            let b = line_bytes(cells);
            let text = encode_utf8(cell_chars(cells));
            let style = style_bytes(cells);
            let n = text.len() as int;
            &&& b.len() == 8 + n + style.len()
            &&& value32(b.subrange(0, 4)) == n
            &&& value32(b.subrange(4, 8)) == style.len()
            &&& b.subrange(8, 8 + n) == text
            &&& b.skip(8 + n) == style
        }),
{
    let text = encode_utf8(cell_chars(cells));
    let style = style_bytes(cells);
    law_numbers_in_bytes(0, text.len() as u32);
    law_numbers_in_bytes(0, style.len() as u32);
    lemma_lengths_fit(text.len());
    lemma_lengths_fit(style.len());
    lemma_four_parts(le32(text.len() as u32), le32(style.len() as u32), text, style);
}

/// A length that 32 bits hold stands in its field as it is.
proof fn lemma_lengths_fit(n: nat)
    requires
        n <= u32::MAX,
    ensures
        length_field(n) == n,
{
}

/// The styles of a line: the number of its runs in four bytes, and then each run with
/// its length, its foreground, its background and its flags.
pub proof fn law_styles_of_a_line(cells: Seq<StyledCell>, run: StyleRun)
    ensures
        style_bytes(cells) == le32(runs_of(cells).len() as u32) + all_run_bytes(runs_of(cells)),
        run_bytes(run) == le32(run.len) + color_bytes(run.fg) + color_bytes(run.bg) + le16(
            run.flags,
        ),
{
}

/// Runs and records stand one behind the other, in order.
pub proof fn law_one_behind_the_other(
    runs: Seq<StyleRun>,
    run: StyleRun,
    a: Seq<Seq<StyledCell>>,
    b: Seq<Seq<StyledCell>>,
    line: Seq<StyledCell>,
)
    ensures
        all_run_bytes(runs.push(run)) == all_run_bytes(runs) + run_bytes(run),
        all_run_bytes(Seq::<StyleRun>::empty()).len() == 0,
        body_bytes(a + b) == body_bytes(a) + body_bytes(b),
        body_bytes(seq![line]) == line_bytes(line),
        body_bytes(Seq::<Seq<StyledCell>>::empty()).len() == 0,
    decreases b.len(),
{
    assert(runs.push(run).drop_last() =~= runs);
    let one = seq![line];
    assert(one.drop_last() =~= Seq::<Seq<StyledCell>>::empty());
    assert(one.last() == line);
    assert(body_bytes(one.drop_last()) == Seq::<u8>::empty());
    assert(body_bytes(one) =~= line_bytes(line));
    if b.len() == 0 {
        assert(a + b =~= a);
        assert(body_bytes(a) + body_bytes(b) =~= body_bytes(a));
    } else {
        law_one_behind_the_other(runs, run, a, b.drop_last(), line);
        assert((a + b).drop_last() =~= a + b.drop_last());
        assert((a + b).last() == b.last());
        assert(body_bytes(a + b) =~= body_bytes(a) + body_bytes(b));
    }
}

/// The runs of a line are as long as they can be: a cell joins the run before it where it
/// has its colors and flags, and else begins a run of its own.
pub proof fn law_runs_are_as_long_as_they_can_be(cells: Seq<StyledCell>, cell: StyledCell)
    requires
        cells.len() < u32::MAX,
    ensures
        ({
            let before = runs_of(cells);
            let after = runs_of(cells.push(cell));
            let joins = cells.len() > 0 && cells.last().fg == cell.fg && cells.last().bg == cell.bg
                && cells.last().flags == cell.flags;
            &&& joins ==> after.len() == before.len() && after.last().len == before.last().len + 1
                && after.last().fg == before.last().fg && after.last().bg == before.last().bg
                && after.last().flags == before.last().flags && after.drop_last()
                == before.drop_last()
            &&& !joins ==> after.len() == before.len() + 1 && after.drop_last() == before
                && after.last().len == 1 && after.last().fg == stored_color(cell.fg)
                && after.last().bg == stored_color(cell.bg) && after.last().flags == cell.flags
        }),
        runs_of(Seq::<StyledCell>::empty()).len() == 0,
{
    let all = cells.push(cell);
    assert(all.drop_last() =~= cells);
    assert(all.last() == cell);
    lemma_runs_bounded(cells);
    lemma_last_run(cells);
    let before = runs_of(cells);
    let after = runs_of(all);
    if cells.len() > 0 {
        lemma_stored_apart(cells.last().fg, cell.fg);
        lemma_stored_apart(cells.last().bg, cell.bg);
        if run_matches(before.last(), cell) {
            assert(after.drop_last() =~= before.drop_last());
        } else {
            assert(after.drop_last() =~= before);
        }
    } else {
        assert(before.len() == 0);
        assert(after.drop_last() =~= before);
    }
}

/// Different colors are stored differently.
proof fn lemma_stored_apart(a: Color, b: Color)
    ensures
        stored_color(a) == stored_color(b) ==> a == b,
{
    if stored_color(a) == stored_color(b) {
        law_color_store_load(a);
        law_color_store_load(b);
    }
}

/// The last run of a line has the style of its last cell.
proof fn lemma_last_run(cells: Seq<StyledCell>)
    requires
        cells.len() <= u32::MAX,
    ensures
        cells.len() > 0 ==> runs_of(cells).len() > 0 && run_matches(
            runs_of(cells).last(),
            cells.last(),
        ) && runs_of(cells).last().len <= cells.len(),
    decreases cells.len(),
{
    if cells.len() > 0 {
        lemma_last_run(cells.drop_last());
    }
}

/// What is no chunk, and why: bytes that run out in the header, other bytes than `TMCK`
/// at the front, another version than 1, and, where the lowest flag is set, a body that
/// cannot be decompressed.
pub proof fn law_what_is_no_chunk(b: Seq<u8>)
    ensures
        b.len() < 4 ==> decoded(b) == Err::<Seq<Seq<StyledCell>>, ChunkError>(
            ChunkError::Truncated,
        ),
        b.len() >= 4 && (b[0] != 0x54 || b[1] != 0x4d || b[2] != 0x43 || b[3] != 0x4b) ==> decoded(b)
            == Err::<Seq<Seq<StyledCell>>, ChunkError>(ChunkError::BadMagic),
        b.len() >= 8 && b[0] == 0x54 && b[1] == 0x4d && b[2] == 0x43 && b[3] == 0x4b && value32(
            b.subrange(4, 8),
        ) != 1 ==> decoded(b) == Err::<Seq<Seq<StyledCell>>, ChunkError>(
            ChunkError::BadVersion(value32(b.subrange(4, 8))),
        ),
        4 <= b.len() < 16 && b[0] == 0x54 && b[1] == 0x4d && b[2] == 0x43 && b[3] == 0x4b && (b.len()
            < 8 || value32(b.subrange(4, 8)) == 1) ==> decoded(b) == Err::<
            Seq<Seq<StyledCell>>,
            ChunkError,
        >(ChunkError::Truncated),
        b.len() >= 16 && b[0] == 0x54 && b[1] == 0x4d && b[2] == 0x43 && b[3] == 0x4b && value32(
            b.subrange(4, 8),
        ) == 1 ==> {
            let compressed = value32(b.subrange(8, 12)) & 1 != 0;
            let body = b.skip(16);
            &&& !compressed ==> decoded(b) == read_body(body, Seq::empty())
            &&& compressed && zstd_contents(body) is None ==> decoded(b) == Err::<
                Seq<Seq<StyledCell>>,
                ChunkError,
            >(ChunkError::Decompress)
            &&& compressed && zstd_contents(body) is Some ==> decoded(b) == read_body(
                zstd_contents(body).unwrap(),
                Seq::empty(),
            )
        },
{
    reveal(read_u32);
    if b.len() >= 4 {
        let magic = b.take(4);
        assert(magic[0] == b[0] && magic[1] == b[1] && magic[2] == b[2] && magic[3] == b[3]);
        if b[0] == 0x54 && b[1] == 0x4d && b[2] == 0x43 && b[3] == 0x4b {
            assert(magic =~= CHUNK_MAGIC@);
        }
        let one = b.skip(4);
        if b.len() >= 8 {
            assert(one.take(4) =~= b.subrange(4, 8));
            let two = one.skip(4);
            if b.len() >= 12 {
                assert(two.take(4) =~= b.subrange(8, 12));
                let three = two.skip(4);
                if b.len() >= 16 {
                    assert(three.skip(4) =~= b.skip(16));
                }
            }
        }
    }
}

/// A line whose text is no UTF-8 is refused; one whose styles are refused, for that
/// reason; and one with another number of characters than of styles, with both numbers.
/// Any other has a cell for each character, with the style of its place.
pub proof fn law_lines_are_checked(text: Seq<u8>, style: Seq<u8>, i: int)
    ensures
        !valid_utf8(text) ==> read_cells(text, style) == Err::<Seq<StyledCell>, ChunkError>(
            ChunkError::BadUtf8,
        ),
        valid_utf8(text) ==> (match read_styles(style) {
            Err(e) => read_cells(text, style) == Err::<Seq<StyledCell>, ChunkError>(e),
            Ok(styles) => {
                let chars = decode_utf8(text);
                if chars.len() != styles.len() {
                    chars.len() <= usize::MAX && styles.len() <= usize::MAX ==> read_cells(
                        text,
                        style,
                    ) == Err::<Seq<StyledCell>, ChunkError>(
                        ChunkError::CellCountMismatch {
                            chars: chars.len() as usize,
                            cells: styles.len() as usize,
                        },
                    )
                } else {
                    read_cells(text, style) matches Ok(cells) && cells.len() == chars.len() && (0
                        <= i < cells.len() ==> cells[i].c == chars[i] && cells[i].fg == styles[i].fg
                        && cells[i].bg == styles[i].bg && cells[i].flags == styles[i].flags)
                }
            },
        }),
{
    reveal(read_cells);
}

/// A run is read in the order in which it stands: its length, its foreground, its
/// background and its flags, of which the one that no cell has is dropped.
pub proof fn law_runs_are_read_in_order(run: StyleRun, fg: Color, bg: Color, rest: Seq<u8>)
    requires
        run.fg == stored_color(fg),
        run.bg == stored_color(bg),
    ensures
        read_run(run_bytes(run) + rest) matches Ok(((len, style), left)) && len == run.len
            && style.fg == fg && style.bg == bg && style.flags == run.flags & 0x7fff && left
            == rest,
{
    lemma_read_le32(run.len, color_bytes(run.fg) + (color_bytes(run.bg) + (le16(run.flags) + rest)));
    lemma_read_color(run.fg, color_bytes(run.bg) + (le16(run.flags) + rest));
    lemma_read_color(run.bg, le16(run.flags) + rest);
    lemma_read_le16(run.flags, rest);
    law_color_store_load(fg);
    law_color_store_load(bg);
    assert(run_bytes(run) + rest =~= le32(run.len) + (color_bytes(run.fg) + (color_bytes(run.bg) + (
    le16(run.flags) + rest))));
}

/// What is padding: a space in the default colors without any flag. What is padded with
/// anything else, such as a color behind it, is kept.
pub proof fn law_what_is_padding(cell: StyledCell)
    ensures
        default_blank(cell) <==> cell == (StyledCell {
            c: ' ',
            fg: Color::Named(NamedColor::Foreground),
            bg: Color::Named(NamedColor::Background),
            flags: 0,
        }),
{
}

/// Only padding at the end of a line is left out, and all of it.
pub proof fn law_padding_is_left_out(cells: Seq<StyledCell>)
    ensures
        ({
            let kept = trimmed(cells);
            &&& kept.len() <= cells.len()
            &&& kept == cells.take(kept.len() as int)
            &&& kept.len() > 0 ==> kept.last() != filler(0)
            &&& forall|i: int| kept.len() <= i < cells.len() ==> #[trigger] cells[i] == filler(0)
        }),
{
    lemma_trimmed(cells);
}

/// A row goes on in the next one where its last cell says so. Of its cells all are kept
/// but those that only fill up for a wide character, each with its character, its colors
/// and its flags, but for the one that says that the row goes on.
pub proof fn law_cells_of_a_row(a: Seq<StyledCell>, cell: StyledCell, b: Seq<StyledCell>)
    ensures
        wraps(a.push(cell)) <==> cell.flags & 0x0010 != 0,
        !wraps(Seq::<StyledCell>::empty()),
        is_spacer(cell) <==> cell.flags & 0x0040 != 0 || cell.flags & 0x0400 != 0,
        kept_cells(a + b) == kept_cells(a) + kept_cells(b),
        is_spacer(cell) ==> kept_cells(seq![cell]).len() == 0,
        !is_spacer(cell) ==> {
            let kept = kept_cells(seq![cell]);
            kept.len() == 1 && kept[0].c == cell.c && kept[0].fg == cell.fg && kept[0].bg == cell.bg
                && kept[0].flags == cell.flags & 0xffef
        },
{
    lemma_kept_cells_add(a, b);
    let f = cell.flags;
    assert(f & (0x0040u16 | 0x0400u16) != 0 <==> f & 0x0040u16 != 0 || f & 0x0400u16 != 0)
        by (bit_vector);
    assert(f & !0x0010u16 == f & 0xffefu16) by (bit_vector);
    let one = seq![cell];
    assert(one.drop_last() =~= Seq::<StyledCell>::empty());
    assert(one.last() == cell);
    assert(kept_cells(one.drop_last()) == Seq::<StyledCell>::empty());
    assert(a.push(cell).last() == cell);
}

/// Rows become lines from the top: a row that goes on is joined with the next, any other
/// ends a line, and what is open at the end is a line unless it is empty.
pub proof fn law_rows_become_lines(
    row: Seq<StyledCell>,
    rows: Seq<Seq<StyledCell>>,
    open: Seq<StyledCell>,
)
    ensures
        wraps(row) ==> logical_lines(seq![row] + rows, open) == logical_lines(
            rows,
            open + kept_cells(row),
        ),
        !wraps(row) ==> logical_lines(seq![row] + rows, open) == seq![
            trimmed(open + kept_cells(row)),
        ] + logical_lines(rows, Seq::empty()),
        open.len() > 0 ==> logical_lines(Seq::<Seq<StyledCell>>::empty(), open) == seq![
            trimmed(open),
        ],
        logical_lines(Seq::<Seq<StyledCell>>::empty(), Seq::empty()).len() == 0,
{
    let all = seq![row] + rows;
    assert(all.skip(1) =~= rows);
    assert(all[0] == row);
}

/// The value of a hexadecimal digit in lower case.
pub open spec fn hex_value_of(c: char) -> int {
    if '0' <= c <= '9' {
        c as int - '0' as int
    } else if 'a' <= c <= 'f' {
        c as int - 'a' as int + 10
    } else {
        -1
    }
}

/// A byte is told in hexadecimal, in lower case, without a zero in front.
pub proof fn law_bytes_in_hexadecimal(b: u8)
    ensures
        ({
            let s = hex_number(b);
            if b < 16 {
                s.len() == 1 && hex_value_of(s[0]) == b
            } else {
                s.len() == 2 && 16 * hex_value_of(s[0]) + hex_value_of(s[1]) == b && s[0] != '0'
            }
        }),
{
}

/// What is said of each error, with the number that it is about.
pub proof fn law_what_is_said_of_errors(v: u32, tag: u8, d: u16, chars: usize, cells: usize)
    ensures
        chunk_error_text(ChunkError::BadMagic) == "bad chunk magic (not TMCK)"@,
        chunk_error_text(ChunkError::BadVersion(v)) == "unsupported chunk version "@ + decimal(
            v as nat,
        ),
        chunk_error_text(ChunkError::Truncated) == "chunk truncated"@,
        chunk_error_text(ChunkError::TrailingBytes) == "trailing garbage after last chunk record"@,
        chunk_error_text(ChunkError::BadColorTag(tag)) == "invalid color tag 0x"@ + hex_number(tag),
        chunk_error_text(ChunkError::UnknownNamedColor(d)) == "unknown named-color discriminant "@
            + decimal(d as nat),
        chunk_error_text(ChunkError::BadUtf8) == "line bytes are not valid UTF-8"@,
        chunk_error_text(ChunkError::CellCountMismatch { chars, cells }) == "cell-count mismatch: "@
            + decimal(chars as nat) + " chars but "@ + decimal(cells as nat) + " styled cells"@,
        chunk_error_text(ChunkError::Decompress) == "zstd decompression failed"@,
{
}

/// A record that is whole but whose line is refused makes the chunk unreadable, for that
/// reason; what follows it is not looked at.
pub proof fn law_bad_record_is_reported(
    lines: Seq<Seq<StyledCell>>,
    text: Seq<u8>,
    style: Seq<u8>,
    more: Seq<u8>,
    e: ChunkError,
)
    requires
        text.len() <= u32::MAX,
        style.len() <= u32::MAX,
        read_cells(text, style) == Err::<Seq<StyledCell>, ChunkError>(e),
        forall|i: int| 0 <= i < lines.len() ==> framable(#[trigger] lines[i]),
    ensures
        ({
            let record = le32(text.len() as u32) + (le32(style.len() as u32) + (text + (style
                + more)));
            decoded(header_bytes(0) + body_bytes(lines) + record) == Err::<
                Seq<Seq<StyledCell>>,
                ChunkError,
            >(e)
        }),
{
    let blocks = text + (style + more);
    let record = le32(text.len() as u32) + (le32(style.len() as u32) + blocks);
    lemma_read_head(text.len() as u32, style.len() as u32, blocks);
    assert(blocks.take(text.len() as int) =~= text);
    assert(blocks.skip(text.len() as int) =~= style + more);
    assert((style + more).take(style.len() as int) =~= style);
    assert(record.len() >= RECORD_HEAD);
    lemma_bad_last_record(lines, record, e);
}

/// Bytes behind the last run of a line are refused.
pub proof fn law_stray_styles_are_reported(cells: Seq<StyledCell>, stray: Seq<u8>)
    requires
        framable(cells),
        stray.len() > 0,
    ensures
        read_styles(style_bytes(cells) + stray) == Err::<Seq<Style>, ChunkError>(
            ChunkError::TrailingBytes,
        ),
{
    let runs = runs_of(cells);
    lemma_runs_bounded(cells);
    lemma_expand_runs_of(cells);
    lemma_read_le32(runs.len() as u32, all_run_bytes(runs) + stray);
    lemma_read_runs(runs, stray, Seq::empty());
    lemma_join_three(le32(runs.len() as u32), all_run_bytes(runs), stray);
}

/// A compressed chunk is the header that says so and the frame that was made of the
/// lines, where one was made; any other chunk is the plain header and the lines.
pub proof fn law_what_a_chunk_is(lines: Seq<Seq<StyledCell>>, compress: bool, bytes: Seq<u8>)
    requires
        is_chunk_of(lines, compress, bytes),
    ensures
        !compress ==> bytes == header_bytes(0) + body_bytes(lines),
        compress ==> (match zstd_frame(body_bytes(lines), 3) {
            Some(frame) => bytes == header_bytes(1) + frame,
            None => bytes == header_bytes(0) + body_bytes(lines),
        }),
{
}

} // verus!
