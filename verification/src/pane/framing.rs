//! How a command is put on the line to the shell.
//!
//! zsh and bash get it as it is. fish reads one line of the terminal at a time, so
//! it gets the command in base 64, where a newline is no newline.

use crate::integration::ShellSpec;
use vstd::prelude::*;
use vstd::utf8::encode_utf8;

verus! {

/// What interrupts the shell: Ctrl+C.
pub const INTERRUPT: u8 = 3;

/// The digit of base 64 for a number below 64.
pub open spec fn digit64(n: int) -> char {
    if n < 26 {
        (n + 'A' as int) as char
    } else if n < 52 {
        (n - 26 + 'a' as int) as char
    } else if n < 62 {
        (n - 52 + '0' as int) as char
    } else if n == 62 {
        '+'
    } else {
        '/'
    }
}

/// Bytes in base 64: four digits for three bytes, the last group filled up with
/// equals signs.
pub open spec fn base64(b: Seq<u8>) -> Seq<char>
    decreases b.len(),
{
    if b.len() == 0 {
        Seq::empty()
    } else if b.len() == 1 {
        seq![digit64(b[0] as int / 4), digit64(b[0] as int % 4 * 16), '=', '=']
    } else if b.len() == 2 {
        seq![
            digit64(b[0] as int / 4),
            digit64(b[0] as int % 4 * 16 + b[1] as int / 16),
            digit64(b[1] as int % 16 * 4),
            '=',
        ]
    } else {
        seq![
            digit64(b[0] as int / 4),
            digit64(b[0] as int % 4 * 16 + b[1] as int / 16),
            digit64(b[1] as int % 16 * 4 + b[2] as int / 64),
            digit64(b[2] as int % 64),
        ] + base64(b.skip(3))
    }
}

/// The line that has a shell run `text`, without its end.
pub open spec fn framed(shell: ShellSpec, text: Seq<char>) -> Seq<char> {
    match shell {
        ShellSpec::Fish => base64(encode_utf8(text)),
        _ => text,
    }
}

/// The bytes that have a shell run `text`: a line, ended as the Enter key ends it.
pub open spec fn submission(shell: ShellSpec, text: Seq<char>) -> Seq<u8> {
    encode_utf8(framed(shell, text).push('\r'))
}

/// The digit of base 64 for a number below 64.
fn base64_digit(n: u8) -> (r: char)
    requires
        n < 64,
    ensures
        r == digit64(n as int),
{
    if n < 26 {
        (n + 65u8) as char
    } else if n < 52 {
        (n - 26 + 97u8) as char
    } else if n < 62 {
        (n - 52 + 48u8) as char
    } else if n == 62 {
        '+'
    } else {
        '/'
    }
}

/// Bytes in base 64.
pub fn encode_base64(bytes: &[u8]) -> (r: String)
    ensures
        r@ == base64(bytes@),
{
    let mut out = String::new();
    let mut i: usize = 0;
    assert(bytes@.skip(0) =~= bytes@);
    assert(out@ + base64(bytes@) =~= base64(bytes@));
    while bytes.len() - i >= 3
        invariant
            i <= bytes@.len(),
            out@ + base64(bytes@.skip(i as int)) == base64(bytes@),
        decreases bytes@.len() - i,
    {
        let ghost rest = bytes@.skip(i as int);
        let ghost before = out@;
        let (x, y, z): (u8, u8, u8) = (bytes[i], bytes[i + 1], bytes[i + 2]);
        assert(rest[0] == x && rest[1] == y && rest[2] == z);
        out.push(base64_digit(x / 4));
        out.push(base64_digit(x % 4 * 16 + y / 16));
        out.push(base64_digit(y % 16 * 4 + z / 64));
        out.push(base64_digit(z % 64));
        i += 3;
        assert(rest.skip(3) =~= bytes@.skip(i as int));
        assert(out@ + base64(bytes@.skip(i as int)) =~= before + base64(rest));
    }
    let ghost rest = bytes@.skip(i as int);
    let ghost before = out@;
    let left: usize = bytes.len() - i;
    if left == 1 {
        let x: u8 = bytes[i];
        assert(rest[0] == x);
        out.push(base64_digit(x / 4));
        out.push(base64_digit(x % 4 * 16));
        out.push('=');
        out.push('=');
    } else if left == 2 {
        let (x, y): (u8, u8) = (bytes[i], bytes[i + 1]);
        assert(rest[0] == x && rest[1] == y);
        out.push(base64_digit(x / 4));
        out.push(base64_digit(x % 4 * 16 + y / 16));
        out.push(base64_digit(y % 16 * 4));
        out.push('=');
    }
    assert(out@ =~= before + base64(rest));
    out
}

/// The bytes that have a shell run `text`.
pub fn submission_bytes(text: &str, shell: ShellSpec) -> (r: Vec<u8>)
    ensures
        r@ == submission(shell, text@),
{
    let mut line = match shell {
        ShellSpec::Fish => encode_base64(text.as_bytes()),
        _ => text.to_owned(),
    };
    assert(line@ == framed(shell, text@));
    line.push('\r');
    vstd::slice::slice_to_vec(line.as_str().as_bytes())
}

// ---- laws --------------------------------------------------------------

/// Different numbers have different digits, and no digit is an equals sign.
proof fn lemma_digit64(m: int, n: int)
    requires
        0 <= m < 64,
        0 <= n < 64,
    ensures
        digit64(m) == digit64(n) ==> m == n,
        digit64(m) != '=',
        digit64(m) != '\n',
        digit64(m) != '\r',
{
}

/// However many lines a command has, fish gets it as one.
pub proof fn law_fish_gets_one_line(text: Seq<char>)
    ensures
        forall|i: int|
            0 <= i < framed(ShellSpec::Fish, text).len() ==> {
                let c = #[trigger] framed(ShellSpec::Fish, text)[i];
                c != '\n' && c != '\r'
            },
{
    lemma_base64_is_one_line(encode_utf8(text));
}

/// Base 64 holds no end of a line.
proof fn lemma_base64_is_one_line(b: Seq<u8>)
    ensures
        forall|i: int|
            0 <= i < base64(b).len() ==> (#[trigger] base64(b)[i]) != '\n' && base64(b)[i] != '\r',
    decreases b.len(),
{
    if b.len() > 0 {
        lemma_digit64(b[0] as int / 4, 0);
        lemma_digit64(b[0] as int % 4 * 16, 0);
        if b.len() > 1 {
            lemma_digit64(b[0] as int % 4 * 16 + b[1] as int / 16, 0);
            lemma_digit64(b[1] as int % 16 * 4, 0);
        }
        if b.len() > 2 {
            lemma_digit64(b[1] as int % 16 * 4 + b[2] as int / 64, 0);
            lemma_digit64(b[2] as int % 64, 0);
            let rest = base64(b.skip(3));
            lemma_base64_is_one_line(b.skip(3));
            assert forall|i: int| 0 <= i < base64(b).len() implies (#[trigger] base64(b)[i]) != '\n'
                && base64(b)[i] != '\r' by {
                if i >= 4 {
                    assert(base64(b)[i] == rest[i - 4]);
                }
            }
        }
    }
}

/// Nothing is lost in base 64: different bytes are written differently.
pub proof fn law_base64_keeps_the_bytes(a: Seq<u8>, b: Seq<u8>)
    requires
        base64(a) == base64(b),
    ensures
        a == b,
    decreases a.len(),
{
    let x = base64(a);
    let y = base64(b);
    assert(a.len() > 0 ==> x.len() > 0);
    assert(b.len() > 0 ==> y.len() > 0);
    if a.len() == 0 || b.len() == 0 {
        assert(x.len() == 0);
        assert(a =~= b);
    } else {
        assert(x[0] == y[0] && x[1] == y[1] && x[2] == y[2] && x[3] == y[3]);
        lemma_digit64(a[0] as int / 4, b[0] as int / 4);
        if a.len() >= 2 {
            lemma_digit64(a[1] as int % 16 * 4, 0);
        }
        if b.len() >= 2 {
            lemma_digit64(b[1] as int % 16 * 4, 0);
        }
        if a.len() >= 3 {
            lemma_digit64(a[1] as int % 16 * 4 + a[2] as int / 64, 0);
            lemma_digit64(a[2] as int % 64, 0);
        }
        if b.len() >= 3 {
            lemma_digit64(b[1] as int % 16 * 4 + b[2] as int / 64, 0);
            lemma_digit64(b[2] as int % 64, 0);
        }
        if a.len() == 1 {
            lemma_digit64(a[0] as int % 4 * 16, b[0] as int % 4 * 16);
        } else if a.len() == 2 {
            lemma_digit64(
                a[0] as int % 4 * 16 + a[1] as int / 16,
                b[0] as int % 4 * 16 + b[1] as int / 16,
            );
            lemma_digit64(a[1] as int % 16 * 4, b[1] as int % 16 * 4);
        } else {
            lemma_digit64(
                a[0] as int % 4 * 16 + a[1] as int / 16,
                b[0] as int % 4 * 16 + b[1] as int / 16,
            );
            lemma_digit64(
                a[1] as int % 16 * 4 + a[2] as int / 64,
                b[1] as int % 16 * 4 + b[2] as int / 64,
            );
            lemma_digit64(a[2] as int % 64, b[2] as int % 64);
            assert(base64(a.skip(3)) =~= x.skip(4));
            assert(base64(b.skip(3)) =~= y.skip(4));
            law_base64_keeps_the_bytes(a.skip(3), b.skip(3));
            assert forall|i: int| 3 <= i < a.len() implies a[i] == b[i] by {
                assert(a.skip(3)[i - 3] == b.skip(3)[i - 3]);
            }
        }
        assert(a.len() == b.len());
        assert(a =~= b);
    }
}

/// The number that a digit of base 64 stands for.
pub open spec fn value64(c: char) -> int {
    if 'A' <= c <= 'Z' {
        c as int - 'A' as int
    } else if 'a' <= c <= 'z' {
        c as int - 'a' as int + 26
    } else if '0' <= c <= '9' {
        c as int - '0' as int + 52
    } else if c == '+' {
        62
    } else if c == '/' {
        63
    } else {
        -1
    }
}

/// The bytes of four digits: a number of 24 bits, which is three bytes, less one for
/// each equals sign.
pub open spec fn group64(a: char, b: char, c: char, d: char) -> Seq<u8> {
    let n = value64(a) * 0x40000 + value64(b) * 0x1000 + (if c == '=' {
        0
    } else {
        value64(c) * 0x40
    }) + (if d == '=' {
        0
    } else {
        value64(d)
    });
    let x = (n / 0x10000) as u8;
    let y = (n / 0x100 % 0x100) as u8;
    let z = (n % 0x100) as u8;
    if c == '=' {
        seq![x]
    } else if d == '=' {
        seq![x, y]
    } else {
        seq![x, y, z]
    }
}

/// What base 64 is decoded to, four digits at a time.
pub open spec fn decoded64(s: Seq<char>) -> Seq<u8>
    decreases s.len(),
{
    if s.len() < 4 {
        Seq::empty()
    } else {
        group64(s[0], s[1], s[2], s[3]) + decoded64(s.skip(4))
    }
}

/// Each digit stands for its number.
proof fn lemma_value64(n: int)
    requires
        0 <= n < 64,
    ensures
        value64(digit64(n)) == n,
        digit64(n) != '=',
{
}

/// Three bytes in four parts make up the number of the bytes.
proof fn lemma_parts(x: int, y: int, z: int)
    requires
        0 <= x < 0x100,
        0 <= y < 0x100,
        0 <= z < 0x100,
    ensures
        x / 4 * 0x40000 + (x % 4 * 16 + y / 16) * 0x1000 + (y % 16 * 4 + z / 64) * 0x40 + z % 64 == x
            * 0x10000 + y * 0x100 + z,
{
    let (a, b) = (x / 4, x % 4);
    let (c, d) = (y / 16, y % 16);
    let (e, f) = (z / 64, z % 64);
    assert(x == 4 * a + b);
    assert(y == 16 * c + d);
    assert(z == 64 * e + f);
}

/// The number of three bytes is taken apart into them.
proof fn lemma_apart(x: int, y: int, z: int)
    requires
        0 <= x < 0x100,
        0 <= y < 0x100,
        0 <= z < 0x100,
    ensures
        (x * 0x10000 + y * 0x100 + z) / 0x10000 == x,
        (x * 0x10000 + y * 0x100 + z) / 0x100 == x * 0x100 + y,
        (x * 0x100 + y) % 0x100 == y,
        (x * 0x10000 + y * 0x100 + z) % 0x100 == z,
{
}

/// Four digits of three bytes give the bytes back.
proof fn lemma_group(x: u8, y: u8, z: u8)
    ensures
        group64(
            digit64(x as int / 4),
            digit64(x as int % 4 * 16 + y as int / 16),
            digit64(y as int % 16 * 4 + z as int / 64),
            digit64(z as int % 64),
        ) == seq![x, y, z],
        group64(
            digit64(x as int / 4),
            digit64(x as int % 4 * 16 + y as int / 16),
            digit64(y as int % 16 * 4),
            '=',
        ) == seq![x, y],
        group64(digit64(x as int / 4), digit64(x as int % 4 * 16), '=', '=') == seq![x],
{
    lemma_value64(x as int / 4);
    lemma_value64(x as int % 4 * 16);
    lemma_value64(x as int % 4 * 16 + y as int / 16);
    lemma_value64(y as int % 16 * 4);
    lemma_value64(y as int % 16 * 4 + z as int / 64);
    lemma_value64(z as int % 64);
    lemma_parts(x as int, y as int, z as int);
    lemma_parts(x as int, y as int, 0);
    lemma_parts(x as int, 0, 0);
    lemma_apart(x as int, y as int, z as int);
    lemma_apart(x as int, y as int, 0);
    lemma_apart(x as int, 0, 0);
}

/// Base 64 is decoded to the bytes that it was made of.
pub proof fn law_base64_is_decoded(b: Seq<u8>)
    ensures
        decoded64(base64(b)) == b,
    decreases b.len(),
{
    let s = base64(b);
    if b.len() == 0 {
        assert(decoded64(s) =~= b);
    } else {
        let y = if b.len() > 1 {
            b[1]
        } else {
            0
        };
        let z = if b.len() > 2 {
            b[2]
        } else {
            0
        };
        lemma_group(b[0], y, z);
        let rest = if b.len() >= 3 {
            b.skip(3)
        } else {
            Seq::empty()
        };
        assert(s.skip(4) =~= base64(rest));
        law_base64_is_decoded(rest);
        assert(decoded64(s) == group64(s[0], s[1], s[2], s[3]) + rest);
        assert(decoded64(s) =~= b);
    }
}

/// Every shell gets the whole command and one carriage return behind it: zsh and bash
/// the text itself, fish one line that base 64 decodes to the text.
pub proof fn law_shells_get_the_whole_command(shell: ShellSpec, text: Seq<char>)
    ensures
        submission(shell, text) == encode_utf8(framed(shell, text) + seq!['\r']),
        shell == ShellSpec::Zsh || shell == ShellSpec::Bash ==> framed(shell, text) == text,
        shell == ShellSpec::Fish ==> decoded64(framed(shell, text)) == encode_utf8(text),
        INTERRUPT == 'C' as int - 0x40,
{
    assert(framed(shell, text).push('\r') =~= framed(shell, text) + seq!['\r']);
    law_base64_is_decoded(encode_utf8(text));
}

} // verus!
