//! What the terminal grid shows.

use vstd::prelude::*;

use crate::lines::runs_view;

verus! {

/// The grid of the terminal emulator.
#[verifier::external_type_specification]
#[verifier::external_body]
#[verifier::reject_recursive_types(T)]
pub struct ExGrid<T>(alacritty_terminal::grid::Grid<T>);

/// A cell of that grid.
#[verifier::external_type_specification]
#[verifier::external_body]
pub struct ExCell(alacritty_terminal::term::cell::Cell);

/// The characters that a grid shows, row by row from the top.
pub uninterp spec fn shown_rows(
    g: alacritty_terminal::grid::Grid<alacritty_terminal::term::cell::Cell>,
) -> Seq<Seq<char>>;

/// How many lines a grid is scrolled back.
pub uninterp spec fn shown_offset(
    g: alacritty_terminal::grid::Grid<alacritty_terminal::term::cell::Cell>,
) -> nat;

/// How many lines a grid keeps above its screen.
pub uninterp spec fn kept_lines(
    g: alacritty_terminal::grid::Grid<alacritty_terminal::term::cell::Cell>,
) -> nat;

/// Are the lines that a grid shows lines that it keeps, and does `i32` hold their
/// numbers as counted from the end of the screen? Line 0 is the top of the screen;
/// lines that are scrolled back have negative numbers. A grid can be scrolled back
/// further than it keeps lines: where only the lower part of the screen scrolls, no
/// line enters the history, but the offset grows.
pub open spec fn numbered(
    g: alacritty_terminal::grid::Grid<alacritty_terminal::term::cell::Cell>,
) -> bool {
    shown_rows(g).len() + shown_offset(g) <= i32::MAX && shown_offset(g) <= kept_lines(g)
}

/// `Grid::display_offset` gives the number of lines scrolled back.
#[verifier::external_body]
fn display_offset(
    g: &alacritty_terminal::grid::Grid<alacritty_terminal::term::cell::Cell>,
) -> (r: usize)
    ensures
        r == shown_offset(*g),
{
    g.display_offset()
}

/// `Dimensions::history_size` gives the number of lines kept above the screen.
#[verifier::external_body]
fn history_size(
    g: &alacritty_terminal::grid::Grid<alacritty_terminal::term::cell::Cell>,
) -> (r: usize)
    ensures
        r == kept_lines(*g),
{
    alacritty_terminal::grid::Dimensions::history_size(g)
}

/// `Dimensions::screen_lines` gives the number of rows that a grid shows.
#[verifier::external_body]
fn screen_lines(
    g: &alacritty_terminal::grid::Grid<alacritty_terminal::term::cell::Cell>,
) -> (r: usize)
    ensures
        r == shown_rows(*g).len(),
{
    alacritty_terminal::grid::Dimensions::screen_lines(g)
}

/// `Dimensions::columns` gives the length of every row that a grid shows.
#[verifier::external_body]
fn columns(
    g: &alacritty_terminal::grid::Grid<alacritty_terminal::term::cell::Cell>,
) -> (r: usize)
    ensures
        forall|i: int| 0 <= i < shown_rows(*g).len() ==> (#[trigger] shown_rows(*g)[i]).len() == r,
{
    alacritty_terminal::grid::Dimensions::columns(g)
}

/// Indexing a `Grid` by a `Point` gives the cell at that line and column; the
/// line is counted from the top of the screen, so the row that is shown at
/// `row` has the number `row` less the display offset. The grid holds the lines
/// of the screen and those that it keeps above it; indexing any other panics.
#[verifier::external_body]
fn char_at(
    g: &alacritty_terminal::grid::Grid<alacritty_terminal::term::cell::Cell>,
    line: i32,
    column: usize,
) -> (r: char)
    requires
        numbered(*g),
        0 <= line + shown_offset(*g) < shown_rows(*g).len(),
        column < shown_rows(*g)[line + shown_offset(*g)].len(),
    ensures
        r == shown_rows(*g)[line + shown_offset(*g)][column as int],
{
    g[alacritty_terminal::index::Point::new(
        alacritty_terminal::index::Line(line),
        alacritty_terminal::index::Column(column),
    )].c
}

/// The rows that a grid shows, as plain values.
#[derive(Debug, Clone, PartialEq, Eq)]
pub struct Viewport {
    /// How many lines the grid is scrolled back.
    pub offset: i32,
    /// The characters of each row, from the top.
    pub rows: Vec<Vec<char>>,
}

impl Viewport {
    /// The line numbers fit.
    pub open spec fn wf(&self) -> bool {
        0 <= self.offset && self.rows@.len() <= i32::MAX
    }

    /// The characters, row by row.
    pub open spec fn text(&self) -> Seq<Seq<char>> {
        runs_view(self.rows@)
    }
}

/// Reads the rows that a grid shows. `None` where it is scrolled back further
/// than it keeps lines, or where their numbers do not fit.
pub fn read_viewport(
    g: &alacritty_terminal::grid::Grid<alacritty_terminal::term::cell::Cell>,
) -> (r: Option<Viewport>)
    ensures
        match r {
            Some(v) => numbered(*g) && v.wf() && v.text() == shown_rows(*g) && v.offset
                == shown_offset(*g),
            None => !numbered(*g),
        },
{
    let offset: usize = display_offset(g);
    let lines: usize = screen_lines(g);
    let max: usize = i32::MAX as usize;
    if offset > max || lines > max - offset || offset > history_size(g) {
        return None;
    }
    let cols: usize = columns(g);
    let mut rows: Vec<Vec<char>> = Vec::new();
    let mut i: usize = 0;
    while i < lines
        invariant
            i <= lines <= i32::MAX,
            numbered(*g),
            lines == shown_rows(*g).len(),
            offset == shown_offset(*g),
            forall|k: int|
                0 <= k < shown_rows(*g).len() ==> (#[trigger] shown_rows(*g)[k]).len() == cols,
            rows@.len() == i,
            forall|k: int| 0 <= k < i ==> (#[trigger] rows@[k])@ == shown_rows(*g)[k],
        decreases lines - i,
    {
        let line: i32 = i as i32 - offset as i32;
        let mut row: Vec<char> = Vec::new();
        let mut c: usize = 0;
        assert(shown_rows(*g)[i as int].len() == cols);
        while c < cols
            invariant
                c <= cols,
                i < lines,
                numbered(*g),
                lines == shown_rows(*g).len(),
                line + shown_offset(*g) == i,
                shown_rows(*g)[i as int].len() == cols,
                row@ == shown_rows(*g)[i as int].take(c as int),
            decreases cols - c,
        {
            row.push(char_at(g, line, c));
            c += 1;
            assert(row@ =~= shown_rows(*g)[i as int].take(c as int));
        }
        assert(row@ =~= shown_rows(*g)[i as int]);
        rows.push(row);
        i += 1;
    }
    let v = Viewport { offset: offset as i32, rows };
    assert(v.text() =~= shown_rows(*g));
    Some(v)
}

// ---- laws --------------------------------------------------------------

/// A grid is read where it keeps all the lines that it shows and their numbers fit; what
/// is read are its rows and how far it is scrolled back.
pub proof fn law_what_is_read_of_a_grid(
    g: &alacritty_terminal::grid::Grid<alacritty_terminal::term::cell::Cell>,
    r: Option<Viewport>,
    i: int,
    k: int,
)
    requires
        call_ensures(read_viewport, (g,), r),
    ensures
        r is Some <==> shown_offset(*g) <= kept_lines(*g) && shown_rows(*g).len() + shown_offset(*g)
            <= i32::MAX,
        r matches Some(v) ==> v.offset == shown_offset(*g) && v.rows@.len() == shown_rows(*g).len()
            && (0 <= i < v.rows@.len() ==> v.rows@[i]@ == shown_rows(*g)[i]),
{
    if let Some(v) = r {
        if 0 <= i < v.rows@.len() {
            assert(v.text()[i] == v.rows@[i]@);
        }
    }
}

} // verus!
