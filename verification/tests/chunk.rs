use termica::persist::chunk::{
    decode_chunk, encode_chunk, encode_color, named_from_u16, read_color, unwrap_rows, ChunkColor,
    ChunkError, Cursor, CHUNK_MAGIC, CHUNK_VERSION, FLAG_COMPRESSED,
};
use termica::terminal::{
    Color, NamedColor, Rgb, StyledCell, StyledLine, FLAG_BOLD, FLAG_DIM, FLAG_INVERSE, FLAG_ITALIC,
    FLAG_LEADING_WIDE_CHAR_SPACER,
    FLAG_STRIKEOUT, FLAG_UNDERLINE, FLAG_WIDE_CHAR, FLAG_WIDE_CHAR_SPACER, FLAG_WRAPLINE,
};

const ALL_NAMED: &[NamedColor] = &[
    NamedColor::Black,
    NamedColor::Red,
    NamedColor::Green,
    NamedColor::Yellow,
    NamedColor::Blue,
    NamedColor::Magenta,
    NamedColor::Cyan,
    NamedColor::White,
    NamedColor::BrightBlack,
    NamedColor::BrightRed,
    NamedColor::BrightGreen,
    NamedColor::BrightYellow,
    NamedColor::BrightBlue,
    NamedColor::BrightMagenta,
    NamedColor::BrightCyan,
    NamedColor::BrightWhite,
    NamedColor::Foreground,
    NamedColor::Background,
    NamedColor::Cursor,
    NamedColor::DimBlack,
    NamedColor::DimRed,
    NamedColor::DimGreen,
    NamedColor::DimYellow,
    NamedColor::DimBlue,
    NamedColor::DimMagenta,
    NamedColor::DimCyan,
    NamedColor::DimWhite,
    NamedColor::BrightForeground,
    NamedColor::DimForeground,
];

fn fg_default() -> Color {
    Color::Named(NamedColor::Foreground)
}

fn bg_default() -> Color {
    Color::Named(NamedColor::Background)
}

fn cell(c: char) -> StyledCell {
    StyledCell { c, fg: fg_default(), bg: bg_default(), flags: 0 }
}

fn styled(c: char, fg: Color, bg: Color, flags: u16) -> StyledCell {
    StyledCell { c, fg, bg, flags }
}

fn line(s: &str) -> StyledLine {
    StyledLine { cells: s.chars().map(cell).collect() }
}

#[test]
fn named_color_roundtrips_every_variant() {
    for &n in ALL_NAMED {
        let cc = ChunkColor::from_ansi(Color::Named(n));
        let back = cc.to_ansi().expect("known named color round-trips");
        assert_eq!(back, Color::Named(n), "variant {n:?} must survive round-trip");
        if let ChunkColor::Named(d) = cc {
            assert_eq!(named_from_u16(d), Some(n));
        } else {
            panic!("named color did not encode as Named");
        }
    }
}

#[test]
fn rgb_and_indexed_roundtrip() {
    for c in [
        Color::Spec(Rgb { r: 0, g: 0, b: 0 }),
        Color::Spec(Rgb { r: 255, g: 128, b: 1 }),
        Color::Indexed(0),
        Color::Indexed(231),
        Color::Indexed(255),
    ] {
        assert_eq!(ChunkColor::from_ansi(c).to_ansi().unwrap(), c);
    }
}

#[test]
fn color_byte_encoding_roundtrips() {
    for c in [ChunkColor::Named(256), ChunkColor::Rgb(9, 8, 7), ChunkColor::Indexed(42)] {
        let mut buf = Vec::new();
        encode_color(&mut buf, c);
        let mut cur = Cursor::new(&buf);
        assert_eq!(read_color(&mut cur).unwrap(), c);
        assert!(cur.is_empty(), "color decode must consume exactly its bytes");
    }
}

#[test]
fn unknown_named_discriminant_errors() {
    assert_eq!(ChunkColor::Named(9999).to_ansi(), Err(ChunkError::UnknownNamedColor(9999)));
}

fn assert_roundtrip(lines: &[StyledLine]) {
    for compress in [false, true] {
        let bytes = encode_chunk(lines, compress);
        assert_eq!(&bytes[0..4], &CHUNK_MAGIC);
        let decoded = decode_chunk(&bytes).expect("valid chunk decodes");
        assert_eq!(decoded, lines, "compress={compress}");
    }
}

#[test]
fn single_line_roundtrip() {
    assert_roundtrip(&[line("hello world")]);
}

#[test]
fn multiline_mixed_styles_roundtrip() {
    let lines = vec![
        StyledLine {
            cells: vec![
                styled('E', Color::Named(NamedColor::Red), bg_default(), FLAG_BOLD),
                styled('r', Color::Named(NamedColor::Red), bg_default(), FLAG_BOLD),
                styled('r', Color::Indexed(196), bg_default(), 0),
                styled('!', Color::Spec(Rgb { r: 1, g: 2, b: 3 }), bg_default(), FLAG_ITALIC),
            ],
        },
        line("plain"),
        StyledLine {
            cells: vec![styled(
                '█',
                Color::Spec(Rgb { r: 10, g: 20, b: 30 }),
                Color::Named(NamedColor::Blue),
                FLAG_UNDERLINE | FLAG_DIM,
            )],
        },
    ];
    assert_roundtrip(&lines);
}

#[test]
fn empty_chunk_and_blank_lines_roundtrip() {
    assert_roundtrip(&[]);
    assert_roundtrip(&[StyledLine::default()]);
    assert_roundtrip(&[StyledLine::default(), line("x"), StyledLine::default()]);
}

#[test]
fn multibyte_chars_roundtrip() {
    assert_roundtrip(&[line("café — 日本語 🦀")]);
}

#[test]
fn compressed_sets_flag_and_shrinks_repetitive_body() {
    let big = StyledLine { cells: std::iter::repeat_n(cell('a'), 4096).collect() };
    let raw = encode_chunk(std::slice::from_ref(&big), false);
    let zipped = encode_chunk(std::slice::from_ref(&big), true);
    let flags = u32::from_le_bytes([zipped[8], zipped[9], zipped[10], zipped[11]]);
    assert_eq!(flags & FLAG_COMPRESSED, FLAG_COMPRESSED, "compressed flag must be set");
    assert_eq!(raw[8..12], [0, 0, 0, 0], "raw chunk must not set the flag");
    assert!(zipped.len() < raw.len(), "zstd must shrink a highly repetitive body");
}

#[test]
fn bad_magic_errors() {
    let mut bytes = encode_chunk(&[line("x")], false);
    bytes[0] = b'X';
    assert_eq!(decode_chunk(&bytes), Err(ChunkError::BadMagic));
}

#[test]
fn bad_version_errors() {
    let mut bytes = encode_chunk(&[line("x")], false);
    bytes[4] = 99;
    assert_eq!(decode_chunk(&bytes), Err(ChunkError::BadVersion(99)));
}

#[test]
fn truncated_header_errors() {
    assert_eq!(decode_chunk(b"TMC"), Err(ChunkError::Truncated));
    assert_eq!(decode_chunk(&CHUNK_MAGIC), Err(ChunkError::Truncated));
}

#[test]
fn truncated_body_errors() {
    let bytes = encode_chunk(&[line("hello")], false);
    assert_eq!(decode_chunk(&bytes[..bytes.len() - 1]), Err(ChunkError::Truncated));
}

#[test]
fn cell_count_mismatch_errors() {
    let mut body = Vec::new();
    let line_bytes = b"abc";
    let mut style = Vec::new();
    style.extend_from_slice(&1u32.to_le_bytes());
    style.extend_from_slice(&2u32.to_le_bytes());
    encode_color(&mut style, ChunkColor::Named(256));
    encode_color(&mut style, ChunkColor::Named(257));
    style.extend_from_slice(&0u16.to_le_bytes());
    body.extend_from_slice(&(line_bytes.len() as u32).to_le_bytes());
    body.extend_from_slice(&(style.len() as u32).to_le_bytes());
    body.extend_from_slice(line_bytes);
    body.extend_from_slice(&style);

    let mut bytes = Vec::new();
    bytes.extend_from_slice(&CHUNK_MAGIC);
    bytes.extend_from_slice(&CHUNK_VERSION.to_le_bytes());
    bytes.extend_from_slice(&0u32.to_le_bytes());
    bytes.extend_from_slice(&0u32.to_le_bytes());
    bytes.extend_from_slice(&body);

    assert_eq!(decode_chunk(&bytes), Err(ChunkError::CellCountMismatch { chars: 3, cells: 2 }));
}

struct Rng(u64);
impl Rng {
    fn next(&mut self) -> u64 {
        let mut x = self.0;
        x ^= x << 13;
        x ^= x >> 7;
        x ^= x << 17;
        self.0 = x;
        x
    }
    fn below(&mut self, n: u64) -> u64 {
        self.next() % n
    }
}

#[test]
fn property_random_lines_roundtrip() {
    let mut rng = Rng(0x1234_5678_9abc_def1);
    let palette_chars = ['a', 'b', 'Z', '0', ' ', '日', '🦀', '#'];
    let flag_pool = [
        0,
        FLAG_BOLD,
        FLAG_ITALIC,
        FLAG_UNDERLINE,
        FLAG_DIM,
        FLAG_INVERSE,
        FLAG_STRIKEOUT,
        FLAG_BOLD | FLAG_UNDERLINE,
    ];

    for _ in 0..200 {
        let line_count = rng.below(6) as usize;
        let mut lines = Vec::with_capacity(line_count);
        for _ in 0..line_count {
            let cell_count = rng.below(24) as usize;
            let mut cells = Vec::with_capacity(cell_count);
            for _ in 0..cell_count {
                let c = palette_chars[rng.below(palette_chars.len() as u64) as usize];
                let fg = match rng.below(3) {
                    0 => Color::Named(ALL_NAMED[rng.below(ALL_NAMED.len() as u64) as usize]),
                    1 => Color::Indexed(rng.below(256) as u8),
                    _ => Color::Spec(Rgb {
                        r: rng.below(256) as u8,
                        g: rng.below(256) as u8,
                        b: rng.below(256) as u8,
                    }),
                };
                let bg = match rng.below(2) {
                    0 => bg_default(),
                    _ => Color::Indexed(rng.below(256) as u8),
                };
                let flags = flag_pool[rng.below(flag_pool.len() as u64) as usize];
                cells.push(StyledCell { c, fg, bg, flags });
            }
            lines.push(StyledLine { cells });
        }

        for compress in [false, true] {
            let bytes = encode_chunk(&lines, compress);
            assert_eq!(decode_chunk(&bytes).unwrap(), lines);
        }
    }
}

fn wrapped_row(s: &str) -> StyledLine {
    let mut l = line(s);
    if let Some(last) = l.cells.last_mut() {
        last.flags |= FLAG_WRAPLINE;
    }
    l
}

#[test]
fn unwrap_joins_soft_wrapped_rows() {
    let rows = vec![wrapped_row("abcde"), line("fg")];
    let logical = unwrap_rows(&rows);
    assert_eq!(logical.len(), 1);
    let text = text_of(&logical[0]);
    assert_eq!(text, "abcdefg");
}

#[test]
fn unwrap_keeps_hard_newlines_separate() {
    let rows = vec![line("ab"), line("cd")];
    let logical = unwrap_rows(&rows);
    assert_eq!(logical.len(), 2);
    assert_eq!(text_of(&logical[0]), "ab");
    assert_eq!(text_of(&logical[1]), "cd");
}

#[test]
fn unwrap_strips_wrapline_flag_from_joined_cells() {
    let rows = vec![wrapped_row("ab"), line("c")];
    let logical = unwrap_rows(&rows);
    assert!(
        logical[0].cells.iter().all(|c| c.flags & FLAG_WRAPLINE == 0),
        "WRAPLINE must not survive into a logical line"
    );
}

#[test]
fn unwrap_trims_trailing_default_blanks_but_keeps_colored() {
    let mut padded = line("ab");
    padded.cells.push(cell(' '));
    padded.cells.push(cell(' '));
    let logical = unwrap_rows(std::slice::from_ref(&padded));
    assert_eq!(text_of(&logical[0]), "ab");

    let colored_bar = StyledLine {
        cells: vec![
            cell('a'),
            cell('b'),
            styled(' ', fg_default(), Color::Named(NamedColor::Red), 0),
        ],
    };
    let logical = unwrap_rows(std::slice::from_ref(&colored_bar));
    assert_eq!(logical[0].cells.len(), 3, "colored trailing space is kept");
}

#[test]
fn unwrap_drops_wide_char_spacers_keeps_wide_char() {
    let row = StyledLine {
        cells: vec![
            styled('日', fg_default(), bg_default(), FLAG_WIDE_CHAR),
            styled(' ', fg_default(), bg_default(), FLAG_WIDE_CHAR_SPACER),
            cell('x'),
        ],
    };
    let logical = unwrap_rows(std::slice::from_ref(&row));
    assert_eq!(logical[0].cells.len(), 2, "spacer cell is dropped");
    assert_eq!(logical[0].cells[0].c, '日');
    assert!(
        logical[0].cells[0].flags & FLAG_WIDE_CHAR != 0,
        "the wide char keeps its WIDE_CHAR flag"
    );
    assert_eq!(logical[0].cells[1].c, 'x');
}

#[test]
fn unwrap_then_encode_roundtrips() {
    let rows = vec![wrapped_row("hello "), line("world   "), line("next line")];
    let logical = unwrap_rows(&rows);
    let bytes = encode_chunk(&logical, true);
    assert_eq!(decode_chunk(&bytes).unwrap(), logical);
    assert_eq!(text_of(&logical[0]), "hello world");
    assert_eq!(text_of(&logical[1]), "next line");
}

#[test]
fn stray_bytes_after_the_last_record_are_trailing() {
    let one = vec![StyledLine { cells: Vec::new() }];
    let mut bytes = encode_chunk(&one, false);
    let whole = bytes.len();
    bytes.push(0);
    assert_eq!(decode_chunk(&bytes), Err(ChunkError::TrailingBytes));
    bytes.extend_from_slice(&[0; 6]);
    assert_eq!(decode_chunk(&bytes), Err(ChunkError::TrailingBytes));
    // Eight bytes are the head of another record, which is cut short.
    bytes.push(0);
    assert_eq!(decode_chunk(&bytes), Err(ChunkError::Truncated));
    // Without a complete record in front, a cut head is a cut record.
    assert_eq!(decode_chunk(&bytes[..17]), Err(ChunkError::Truncated));
    assert_eq!(decode_chunk(&bytes[..whole]), Ok(one));
}

#[test]
fn unwrapping_twice_is_unwrapping_once() {
    let rows = vec![wrapped_row("hello "), line("world   "), line("  "), line("next")];
    let once = unwrap_rows(&rows);
    assert_eq!(unwrap_rows(&once), once);
}

#[test]
fn one_line_at_two_widths_unwraps_the_same() {
    let wide = styled('日', fg_default(), bg_default(), FLAG_WIDE_CHAR);
    let spacer = styled(' ', fg_default(), bg_default(), FLAG_WIDE_CHAR_SPACER);
    let leading = styled(
        ' ',
        fg_default(),
        bg_default(),
        FLAG_LEADING_WIDE_CHAR_SPACER | FLAG_WRAPLINE,
    );
    let at_three = vec![
        StyledLine {
            cells: vec![cell('a'), cell('b'), leading],
        },
        StyledLine {
            cells: vec![wide, spacer, cell(' ')],
        },
    ];
    let at_six = vec![StyledLine {
        cells: vec![cell('a'), cell('b'), wide, spacer, cell(' '), cell(' ')],
    }];
    let expected = vec![StyledLine {
        cells: vec![cell('a'), cell('b'), wide],
    }];
    assert_eq!(unwrap_rows(&at_three), expected);
    assert_eq!(unwrap_rows(&at_six), expected);
}

fn text_of(line: &StyledLine) -> String {
    line.cells.iter().map(|c| c.c).collect()
}
