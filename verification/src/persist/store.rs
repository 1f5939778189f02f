//! Where a session keeps its scrollback.

use crate::paths::{join_path, joined_path};
use crate::text::{decimal, decimal_int, is_digit, lemma_decimal_value, signed_text};
use vstd::prelude::*;
use vstd::string::*;

verus! {

/// The number of a session: one run of a shell.
#[derive(Debug, Clone, Copy, PartialEq, Eq, Hash, PartialOrd, Ord, Structural)]
pub struct SessionId(pub i64);

/// The number of a pane in the store. A pane outlives its sessions.
#[derive(Debug, Clone, Copy, PartialEq, Eq, Hash, PartialOrd, Ord, Structural)]
pub struct PaneRowId(pub i64);

/// The name of a session's directory.
pub open spec fn session_name(session: SessionId) -> Seq<char> {
    "session-"@ + decimal_int(session.0 as int)
}

/// The name of a pane's directory.
pub open spec fn pane_name(pane: PaneRowId) -> Seq<char> {
    "pane-"@ + decimal_int(pane.0 as int)
}

/// The directory of a session, below the data directory.
pub open spec fn session_path(root: Seq<char>, session: SessionId) -> Seq<char> {
    joined_path(joined_path(root, "scrollback"@), session_name(session))
}

/// The directory of a pane of a session, below the data directory.
pub open spec fn session_pane_path(root: Seq<char>, session: SessionId, pane: PaneRowId) -> Seq<
    char,
> {
    joined_path(session_path(root, session), pane_name(pane))
}

/// The name of a session's directory.
pub fn session_dir_name(session: SessionId) -> (r: String)
    ensures
        r@ == session_name(session),
{
    let mut out = "session-".to_owned();
    out.append(signed_text(session.0).as_str());
    out
}

/// The name of a pane's directory.
pub fn pane_dir_name(pane: PaneRowId) -> (r: String)
    ensures
        r@ == pane_name(pane),
{
    let mut out = "pane-".to_owned();
    out.append(signed_text(pane.0).as_str());
    out
}

/// The directory of a session: where its lock lies.
pub fn session_dir(root: &str, session: SessionId) -> (r: String)
    ensures
        r@ == session_path(root@, session),
{
    let scrollback = join_path(root, "scrollback");
    let name = session_dir_name(session);
    join_path(scrollback.as_str(), name.as_str())
}

/// The directory of a pane of a session: where its chunks lie.
pub fn session_pane_dir(root: &str, session: SessionId, pane: PaneRowId) -> (r: String)
    ensures
        r@ == session_pane_path(root@, session, pane),
{
    let dir = session_dir(root, session);
    let name = pane_dir_name(pane);
    join_path(dir.as_str(), name.as_str())
}

/// A session that was begun: its rows in the store, the directory of its chunks,
/// and the line at which it goes on.
#[derive(Debug, Clone, PartialEq, Eq)]
pub struct SessionRecord {
    pub pane_row: PaneRowId,
    pub session: SessionId,
    pub dir: String,
    pub start_line: u64,
}

impl SessionRecord {
    /// The record of a session, below the data directory `root`.
    pub fn new(root: &str, pane_row: PaneRowId, session: SessionId, start_line: u64) -> (r:
        SessionRecord)
        ensures
            r.pane_row == pane_row,
            r.session == session,
            r.dir@ == session_pane_path(root@, session, pane_row),
            r.start_line == start_line,
    {
        SessionRecord {
            pane_row,
            session,
            dir: session_pane_dir(root, session, pane_row),
            start_line,
        }
    }
}

// ---- laws --------------------------------------------------------------

/// A numeral tells its number.
proof fn lemma_decimal_int_injective(a: int, b: int)
    requires
        decimal_int(a) == decimal_int(b),
    ensures
        a == b,
{
    let x = if a < 0 {
        (-a) as nat
    } else {
        a as nat
    };
    let y = if b < 0 {
        (-b) as nat
    } else {
        b as nat
    };
    lemma_decimal_value(x);
    lemma_decimal_value(y);
    if a < 0 && b < 0 {
        assert(decimal_int(a).skip(1) =~= decimal(x));
        assert(decimal_int(b).skip(1) =~= decimal(y));
    } else if a < 0 {
        assert(decimal_int(a)[0] == '-');
        assert(is_digit(decimal(y)[0]));
    } else if b < 0 {
        assert(decimal_int(b)[0] == '-');
        assert(is_digit(decimal(x)[0]));
    }
}

/// Two sessions never share a directory name, nor do two panes.
pub proof fn law_directories_are_distinct(
    s: SessionId,
    t: SessionId,
    p: PaneRowId,
    q: PaneRowId,
)
    ensures
        session_name(s) == session_name(t) ==> s == t,
        pane_name(p) == pane_name(q) ==> p == q,
{
    if session_name(s) == session_name(t) {
        let n = "session-"@.len() as int;
        assert(session_name(s).skip(n) =~= decimal_int(s.0 as int));
        assert(session_name(t).skip(n) =~= decimal_int(t.0 as int));
        lemma_decimal_int_injective(s.0 as int, t.0 as int);
    }
    if pane_name(p) == pane_name(q) {
        let n = "pane-"@.len() as int;
        assert(pane_name(p).skip(n) =~= decimal_int(p.0 as int));
        assert(pane_name(q).skip(n) =~= decimal_int(q.0 as int));
        lemma_decimal_int_injective(p.0 as int, q.0 as int);
    }
}

/// Where scrollback lies: below the data directory in `scrollback`, there in a directory
/// for the session, and there in one for the pane.
pub proof fn law_where_scrollback_lies(root: Seq<char>, session: SessionId, pane: PaneRowId)
    requires
        root.len() > 0,
        root.last() != '/',
    ensures
        ({
            let dir = root + seq!['/'] + "scrollback"@ + seq!['/'] + "session-"@ + decimal_int(
                session.0 as int,
            );
            &&& session_path(root, session) == dir
            &&& session_pane_path(root, session, pane) == dir + seq!['/'] + "pane-"@ + decimal_int(
                pane.0 as int,
            )
        }),
{
    reveal_strlit("scrollback");
    reveal_strlit("session-");
    reveal_strlit("pane-");
    let top = root.push('/') + "scrollback"@;
    assert(joined_path(root, "scrollback"@) == top);
    assert(top.last() == 'k');
    let dir = root + seq!['/'] + "scrollback"@ + seq!['/'] + "session-"@ + decimal_int(
        session.0 as int,
    );
    assert(session_name(session)[0] == 's');
    assert(session_path(root, session) =~= dir);
    crate::text::law_numerals(session.0 as int, 0);
    lemma_numeral_ends_in_a_digit(session.0 as int);
    assert(dir.last() == decimal_int(session.0 as int).last());
    assert(pane_name(pane)[0] == 'p');
    assert(session_pane_path(root, session, pane) =~= dir + seq!['/'] + "pane-"@ + decimal_int(
        pane.0 as int,
    ));
}

/// A numeral ends in a digit.
proof fn lemma_numeral_ends_in_a_digit(n: int)
    ensures
        decimal_int(n).len() > 0,
        decimal_int(n).last() != '/',
{
    let size = if n < 0 {
        (-n) as nat
    } else {
        n as nat
    };
    lemma_decimal_value(size);
    assert(is_digit(decimal(size)[decimal(size).len() - 1]));
    assert(decimal_int(n).last() == decimal(size).last());
}

} // verus!
