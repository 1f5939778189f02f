//! Cutting text into lines.

use vstd::prelude::*;

use crate::text::{find_char, first_index};

verus! {

/// The pieces of `s`, each up to and with a newline; the last may lack one.
pub open spec fn pieces(s: Seq<char>) -> Seq<Seq<char>>
    decreases s.len(),
{
    if s.len() == 0 {
        Seq::empty()
    } else {
        match first_index(s, '\n', 0) {
            Some(i) if 0 <= i < s.len() => seq![s.take(i + 1)] + pieces(s.skip(i + 1)),
            _ => seq![s],
        }
    }
}

/// A piece without its newline.
pub open spec fn without_newline(p: Seq<char>) -> Seq<char> {
    if p.len() > 0 && p.last() == '\n' {
        p.drop_last()
    } else {
        p
    }
}

/// A piece without its line ending, `\n` or `\r\n`.
pub open spec fn without_ending(p: Seq<char>) -> Seq<char> {
    if p.len() > 0 && p.last() == '\n' {
        if p.len() > 1 && p[p.len() - 2] == '\r' {
            p.take(p.len() - 2)
        } else {
            p.drop_last()
        }
    } else {
        p
    }
}

/// The lines of a text, split at `\n`.
pub open spec fn newline_lines(s: Seq<char>) -> Seq<Seq<char>> {
    pieces(s).map_values(|p: Seq<char>| without_newline(p))
}

/// The lines of a text, split at `\n` or `\r\n`.
pub open spec fn text_lines(s: Seq<char>) -> Seq<Seq<char>> {
    pieces(s).map_values(|p: Seq<char>| without_ending(p))
}

/// The views of character runs.
pub open spec fn runs_view(v: Seq<Vec<char>>) -> Seq<Seq<char>> {
    v.map_values(|p: Vec<char>| p@)
}

/// A copy of `s[from..to]`.
pub fn copy_range(s: &[char], from: usize, to: usize) -> (r: Vec<char>)
    requires
        from <= to <= s@.len(),
    ensures
        r@ == s@.subrange(from as int, to as int),
{
    vstd::slice::slice_to_vec(vstd::slice::slice_subrange(s, from, to))
}

/// Cuts `s` into pieces and takes from each the ending: `\n`, and with
/// `carriage` a `\r` before it.
fn cut(s: &[char], carriage: bool) -> (r: Vec<Vec<char>>)
    ensures
        runs_view(r@) == (if carriage {
            text_lines(s@)
        } else {
            newline_lines(s@)
        }),
{
    let ghost trim = |p: Seq<char>|
        if carriage {
            without_ending(p)
        } else {
            without_newline(p)
        };
    let ghost goal = pieces(s@).map_values(trim);
    let mut out: Vec<Vec<char>> = Vec::new();
    let mut start: usize = 0;
    assert(s@.skip(0) =~= s@);
    assert(goal =~= runs_view(out@) + pieces(s@.skip(0)).map_values(trim));
    while start < s.len()
        invariant
            start <= s@.len(),
            goal == runs_view(out@) + pieces(s@.skip(start as int)).map_values(trim),
            trim == (|p: Seq<char>|
                if carriage {
                    without_ending(p)
                } else {
                    without_newline(p)
                }),
        decreases s@.len() - start,
    {
        let ghost rest = s@.skip(start as int);
        let ghost before = out@;
        let rest_slice = vstd::slice::slice_subrange(s, start, s.len());
        assert(rest_slice@ =~= rest);
        match find_char(rest_slice, '\n', 0) {
            Some(i) => {
                let end: usize = if carriage && i > 0 && rest_slice[i - 1] == '\r' {
                    start + i - 1
                } else {
                    start + i
                };
                out.push(copy_range(s, start, end));
                let ghost piece = rest.take(i + 1);
                assert(piece.last() == '\n');
                assert(s@.subrange(start as int, end as int) =~= trim(piece));
                assert(rest.skip(i + 1) =~= s@.skip(start + i + 1));
                let ghost tail = pieces(rest.skip(i + 1));
                assert(pieces(rest) == seq![piece] + tail);
                assert((seq![piece] + tail).map_values(trim) =~= seq![trim(piece)]
                    + tail.map_values(trim));
                assert(runs_view(out@) =~= runs_view(before).push(trim(piece)));
                assert(goal =~= runs_view(out@) + tail.map_values(trim));
                start = start + i + 1;
            },
            None => {
                out.push(copy_range(s, start, s.len()));
                assert(s@.subrange(start as int, s@.len() as int) =~= rest);
                assert(pieces(rest) == seq![rest]);
                assert(rest.last() != '\n');
                assert(trim(rest) == rest);
                assert(seq![rest].map_values(trim) =~= seq![rest]);
                assert(runs_view(out@) =~= runs_view(before).push(rest));
                assert(s@.skip(s@.len() as int) =~= Seq::empty());
                assert(goal =~= runs_view(out@) + pieces(s@.skip(s@.len() as int)).map_values(
                    trim,
                ));
                start = s.len();
            },
        }
    }
    assert(s@.skip(start as int) =~= Seq::empty());
    assert(goal =~= runs_view(out@));
    assert(goal =~= (if carriage {
        text_lines(s@)
    } else {
        newline_lines(s@)
    }));
    out
}

/// The lines of a text, split at `\n`.
pub fn split_newline_lines(s: &[char]) -> (r: Vec<Vec<char>>)
    ensures
        runs_view(r@) == newline_lines(s@),
{
    cut(s, false)
}

/// The lines of a text, split at `\n` or `\r\n`.
pub fn split_text_lines(s: &[char]) -> (r: Vec<Vec<char>>)
    ensures
        runs_view(r@) == text_lines(s@),
{
    cut(s, true)
}

// ---- laws --------------------------------------------------------------

/// A text is cut at its newlines and nowhere else: a line, a newline and a rest give
/// that line and the lines of the rest; a last line needs no newline; and there are no
/// lines in nothing.
pub proof fn law_lines_end_at_newlines(line: Seq<char>, rest: Seq<char>)
    requires
        !line.contains('\n'),
    ensures
        newline_lines(line + seq!['\n'] + rest) == seq![line] + newline_lines(rest),
        line.len() > 0 ==> newline_lines(line) == seq![line],
        newline_lines(Seq::<char>::empty()).len() == 0,
        line.len() == 0 || line.last() != '\r' ==> text_lines(line + seq!['\n'] + rest) == seq![line]
            + text_lines(rest),
        text_lines(line + seq!['\r', '\n'] + rest) == seq![line] + text_lines(rest),
        line.len() > 0 ==> text_lines(line) == seq![line],
        text_lines(Seq::<char>::empty()).len() == 0,
{
    assert forall|k: int| 0 <= k < line.len() implies #[trigger] line[k] != '\n' by {
        assert(line.contains(line[k]));
    }
    lemma_first_piece(line, rest);
    let plain = line + seq!['\n'] + rest;
    let piece = line + seq!['\n'];
    assert(without_newline(piece) =~= line);
    assert(newline_lines(plain) =~= seq![line] + newline_lines(rest));
    if line.len() == 0 || line.last() != '\r' {
        assert(piece.len() > 1 ==> piece[piece.len() - 2] == line.last());
        assert(without_ending(piece) =~= line);
        assert(text_lines(plain) =~= seq![line] + text_lines(rest));
    }
    let carriage = line + seq!['\r'];
    assert(!carriage.contains('\n')) by {
        assert forall|k: int| 0 <= k < carriage.len() implies carriage[k] != '\n' by {}
    }
    lemma_first_piece(carriage, rest);
    assert(carriage + seq!['\n'] + rest =~= line + seq!['\r', '\n'] + rest);
    let long = carriage + seq!['\n'];
    assert(long[long.len() - 2] == '\r');
    assert(without_ending(long) =~= line);
    assert(text_lines(line + seq!['\r', '\n'] + rest) =~= seq![line] + text_lines(rest));
    if line.len() > 0 {
        crate::text::lemma_first_index(line, '\n', 0);
        assert(pieces(line) == seq![line]);
        assert(newline_lines(line) =~= seq![line]);
        assert(text_lines(line) =~= seq![line]);
    }
}

/// The first piece of a text.
proof fn lemma_first_piece(line: Seq<char>, rest: Seq<char>)
    requires
        !line.contains('\n'),
    ensures
        pieces(line + seq!['\n'] + rest) == seq![line + seq!['\n']] + pieces(rest),
{
    let s = line + seq!['\n'] + rest;
    crate::text::lemma_first_index(s, '\n', 0);
    assert(s[line.len() as int] == '\n');
    let i = first_index(s, '\n', 0).unwrap();
    if i < line.len() {
        assert(line.contains(line[i]));
    }
    assert(s.take(i + 1) =~= line + seq!['\n']);
    assert(s.skip(i + 1) =~= rest);
}

} // verus!
