//! Finding file paths in terminal text.

use vstd::prelude::*;

use crate::grid::{numbered, read_viewport, shown_offset, shown_rows, Viewport};
use crate::links::{links_view, match_scheme_at, scheme_at, LinkSpan, LinkView, Point};
use crate::text::{
    alphanumeric, chars_of, is_alphanumeric, is_whitespace, string_between, string_of, whitespace,
};

verus! {

// ---- paths as text -----------------------------------------------------

/// The path `rest` as seen from the directory `base`: itself where it is
/// absolute, else below `base`, with one slash between.
pub open spec fn joined_path(base: Seq<char>, rest: Seq<char>) -> Seq<char> {
    if rest.len() > 0 && rest[0] == '/' {
        rest
    } else if base.len() == 0 || base.last() == '/' {
        base + rest
    } else {
        base.push('/') + rest
    }
}

/// The path `rest` as seen from the directory `base`.
pub fn join_path(base: &str, rest: &str) -> (r: String)
    ensures
        r@ == joined_path(base@, rest@),
{
    let tail = chars_of(rest);
    if tail.len() > 0 && tail[0] == '/' {
        return string_of(tail.as_slice());
    }
    let mut out = chars_of(base);
    if out.len() > 0 && out[out.len() - 1] != '/' {
        out.push('/');
    }
    let ghost head = out@;
    let mut i: usize = 0;
    while i < tail.len()
        invariant
            i <= tail@.len(),
            out@ == head + tail@.take(i as int),
        decreases tail@.len() - i,
    {
        out.push(tail[i]);
        i += 1;
        assert(tail@.take(i as int) =~= tail@.take(i - 1).push(tail@[i - 1]));
    }
    assert(tail@.take(i as int) =~= tail@);
    string_of(out.as_slice())
}

// ---- candidates --------------------------------------------------------

/// The end of the word that begins at `from`.
pub open spec fn word_end(s: Seq<char>, from: int) -> int
    decreases s.len() - from,
{
    if 0 <= from < s.len() && !whitespace(s[from]) {
        word_end(s, from + 1)
    } else {
        from
    }
}

/// Is `c` more often glue around a path than part of it?
pub open spec fn path_junk(c: char) -> bool {
    c == ',' || c == ';' || c == ':' || c == ')' || c == ']' || c == '}' || c == '\'' || c == '"' || c
        == '!' || c == '?' || c == '`' || c == '>'
}

/// `end`, moved back over junk as far as `floor`.
pub open spec fn junk_trimmed_end(s: Seq<char>, floor: int, end: int) -> int
    decreases end - floor,
{
    if end > floor && path_junk(s[end - 1]) {
        junk_trimmed_end(s, floor, end - 1)
    } else {
        end
    }
}

/// May `s[from..to]` be a path: does it start with a tilde, or hold a letter, a
/// digit or an underscore? `alnum[i]` says whether `s[i]` is a letter or digit.
pub open spec fn path_shaped(s: Seq<char>, alnum: Seq<bool>, from: int, to: int) -> bool {
    from < to && (s[from] == '~' || exists|k: int|
        from <= k < to && (#[trigger] alnum[k] || s[k] == '_'))
}

/// The path that a token names: absolute, below the home directory (`~`,
/// `~/...`), or below the working directory. `None` where the directory that it
/// is below is not known.
pub open spec fn resolved(token: Seq<char>, cwd: Option<Seq<char>>, home: Option<Seq<char>>) -> Option<
    Seq<char>,
> {
    if token.len() == 0 {
        None
    } else if token[0] == '/' {
        Some(token)
    } else if token.len() >= 2 && token[0] == '~' && token[1] == '/' {
        match home {
            Some(h) => Some(joined_path(h, token.skip(2))),
            None => None,
        }
    } else if token == seq!['~'] {
        home
    } else {
        match cwd {
            Some(c) => Some(joined_path(c, token)),
            None => None,
        }
    }
}

/// A path in a row: its first and last column, and the path that it names.
pub struct PathView {
    pub first: int,
    pub last: int,
    pub path: Seq<char>,
}

/// What was answered about the paths of a row: does the path exist that stands
/// from one column up to another?
pub type Answers = spec_fn(int, int, Seq<char>) -> bool;

/// The answers of one who says of a path the same wherever it stands.
pub open spec fn fixed(exists_at: spec_fn(Seq<char>) -> bool) -> Answers {
    |from: int, to: int, path: Seq<char>| exists_at(path)
}

/// What `s[from..to]` gives where it is tried: the path that it names, if that
/// is said to exist.
pub open spec fn tried(
    s: Seq<char>,
    from: int,
    to: int,
    cwd: Option<Seq<char>>,
    home: Option<Seq<char>>,
    said: Answers,
) -> Option<PathView> {
    match resolved(s.subrange(from, to), cwd, home) {
        Some(path) if said(from, to, path) => Some(PathView { first: from, last: to - 1, path }),
        _ => None,
    }
}

/// What the word from `from` to `to` gives: the path that it names without the
/// junk at its end, or, where that does not exist and the word then ends in a
/// full stop, without that too. A word that begins with a URL scheme gives
/// nothing.
pub open spec fn word_path(
    s: Seq<char>,
    alnum: Seq<bool>,
    from: int,
    to: int,
    cwd: Option<Seq<char>>,
    home: Option<Seq<char>>,
    said: Answers,
) -> Option<PathView> {
    let end = junk_trimmed_end(s, from, to);
    if scheme_at(s.take(to), from) is Some || !path_shaped(s, alnum, from, end) {
        None
    } else {
        match tried(s, from, end, cwd, home, said) {
            Some(p) => Some(p),
            None => if end - from >= 2 && s[end - 1] == '.' && path_shaped(
                s,
                alnum,
                from,
                end - 1,
            ) {
                tried(s, from, end - 1, cwd, home, said)
            } else {
                None
            },
        }
    }
}

/// The end of a word lies within the row.
pub proof fn lemma_word_end(s: Seq<char>, from: int)
    requires
        0 <= from <= s.len(),
    ensures
        from <= word_end(s, from) <= s.len(),
        from < s.len() && !whitespace(s[from]) ==> from < word_end(s, from),
    decreases s.len() - from,
{
    if from < s.len() && !whitespace(s[from]) {
        lemma_word_end(s, from + 1);
    }
}

/// The paths of a row from column `i` on, left to right, where `said` tells
/// which paths exist.
pub open spec fn paths_from(
    s: Seq<char>,
    alnum: Seq<bool>,
    i: int,
    cwd: Option<Seq<char>>,
    home: Option<Seq<char>>,
    said: Answers,
) -> Seq<PathView>
    decreases s.len() - i,
{
    if i < 0 || i >= s.len() {
        Seq::empty()
    } else if whitespace(s[i]) {
        paths_from(s, alnum, i + 1, cwd, home, said)
    } else {
        proof {
            lemma_word_end(s, i);
        }
        let to = word_end(s, i);
        let rest = paths_from(s, alnum, to, cwd, home, said);
        match word_path(s, alnum, i, to, cwd, home, said) {
            Some(p) => seq![p] + rest,
            None => rest,
        }
    }
}

// ---- what the predicate is asked ---------------------------------------

/// Does a word begin at `from`?
pub open spec fn word_start(s: Seq<char>, from: int) -> bool {
    0 <= from < s.len() && !whitespace(s[from]) && (from == 0 || whitespace(s[from - 1]))
}

/// The end of the word that begins at `from`, without the junk.
pub open spec fn bare_end(s: Seq<char>, from: int) -> int {
    junk_trimmed_end(s, from, word_end(s, from))
}

/// Is `s[from..to]` a word without the junk at its end, or without a full stop
/// before that too, and does the word begin with no URL scheme? Of nothing else
/// is it asked whether it exists.
pub open spec fn candidate(s: Seq<char>, from: int, to: int) -> bool {
    &&& word_start(s, from)
    &&& scheme_at(s.take(word_end(s, from)), from) is None
    &&& from < to
    &&& to == bare_end(s, from) || (to == bare_end(s, from) - 1 && s[to] == '.')
}

/// May the predicate be asked about every candidate of a row?
pub open spec fn may_ask<F: Fn(&str) -> bool>(
    is_existing: &F,
    s: Seq<char>,
    cwd: Option<Seq<char>>,
    home: Option<Seq<char>>,
) -> bool {
    forall|from: int, to: int, q: &str|
        #![trigger candidate(s, from, to), call_requires(*is_existing, (q,))]
        candidate(s, from, to) && resolved(s.subrange(from, to), cwd, home) == Some(q@)
            ==> call_requires(*is_existing, (q,))
}

/// Is it asked whether the path at `s[from..to]` exists? A word without its full
/// stop is tried only where the word with it gives nothing.
pub open spec fn asked(
    s: Seq<char>,
    alnum: Seq<bool>,
    from: int,
    to: int,
    cwd: Option<Seq<char>>,
    home: Option<Seq<char>>,
    said: Answers,
) -> bool {
    &&& candidate(s, from, to)
    &&& path_shaped(s, alnum, from, to)
    &&& to == bare_end(s, from) || tried(s, from, bare_end(s, from), cwd, home, said) is None
}

/// Did the predicate answer so about a path?
pub open spec fn answer<F: Fn(&str) -> bool>(is_existing: &F, path: Seq<char>, b: bool) -> bool {
    exists|q: &str| q@ == path && #[trigger] call_ensures(*is_existing, (q,), b)
}

/// Is the answer about the path at `s[from..to]`, if it names one, the
/// predicate's own?
pub open spec fn answered_at<F: Fn(&str) -> bool>(
    is_existing: &F,
    s: Seq<char>,
    from: int,
    to: int,
    cwd: Option<Seq<char>>,
    home: Option<Seq<char>>,
    said: Answers,
) -> bool {
    match resolved(s.subrange(from, to), cwd, home) {
        Some(path) => answer(is_existing, path, said(from, to, path)),
        None => true,
    }
}

/// Are the answers the predicate's own, wherever it was asked?
pub open spec fn answered<F: Fn(&str) -> bool>(
    is_existing: &F,
    s: Seq<char>,
    alnum: Seq<bool>,
    cwd: Option<Seq<char>>,
    home: Option<Seq<char>>,
    said: Answers,
) -> bool {
    forall|from: int, to: int|
        #[trigger] asked(s, alnum, from, to, cwd, home, said) ==> answered_at(
            is_existing,
            s,
            from,
            to,
            cwd,
            home,
            said,
        )
}

/// Are these the paths of a row, by what the predicate answered where it was
/// asked?
pub open spec fn row_found<F: Fn(&str) -> bool>(
    is_existing: &F,
    s: Seq<char>,
    alnum: Seq<bool>,
    cwd: Option<Seq<char>>,
    home: Option<Seq<char>>,
    found: Seq<PathView>,
) -> bool {
    exists|said: Answers|
        #[trigger] answered(is_existing, s, alnum, cwd, home, said) && found == paths_from(
            s,
            alnum,
            0,
            cwd,
            home,
            said,
        )
}

/// Does the predicate say of every path what `exists_at` says?
pub open spec fn decided_by<F: Fn(&str) -> bool>(
    is_existing: &F,
    exists_at: spec_fn(Seq<char>) -> bool,
) -> bool {
    forall|p: &str, b: bool| #[trigger] call_ensures(*is_existing, (p,), b) ==> b == exists_at(p@)
}

/// The views of triples of first column, last column and path.
pub open spec fn paths_view(paths: Seq<(usize, usize, String)>) -> Seq<PathView> {
    paths.map_values(
        |t: (usize, usize, String)| PathView { first: t.0 as int, last: t.1 as int, path: t.2@ },
    )
}

/// The view of an optional directory.
pub open spec fn dir_view(dir: Option<&str>) -> Option<Seq<char>> {
    match dir {
        Some(d) => Some(d@),
        None => None,
    }
}

/// Is `c` more often glue around a path than part of it?
fn is_path_junk(c: char) -> (r: bool)
    ensures
        r == path_junk(c),
{
    c == ',' || c == ';' || c == ':' || c == ')' || c == ']' || c == '}' || c == '\'' || c == '"' || c
        == '!' || c == '?' || c == '`' || c == '>'
}

/// `to`, moved back over junk as far as `from`.
pub fn trim_trailing_junk(chars: &[char], from: usize, to: usize) -> (r: usize)
    requires
        from <= to <= chars@.len(),
    ensures
        r == junk_trimmed_end(chars@, from as int, to as int),
        from <= r <= to,
{
    let mut end: usize = to;
    while end > from && is_path_junk(chars[end - 1])
        invariant
            from <= end <= to <= chars@.len(),
            junk_trimmed_end(chars@, from as int, to as int) == junk_trimmed_end(
                chars@,
                from as int,
                end as int,
            ),
        decreases end,
    {
        end -= 1;
    }
    end
}

/// May `chars[from..to]` be a path?
pub fn is_path_shaped(chars: &[char], alnum: &[bool], from: usize, to: usize) -> (r: bool)
    requires
        from <= to <= chars@.len(),
        alnum@.len() == chars@.len(),
    ensures
        r == path_shaped(chars@, alnum@, from as int, to as int),
{
    if from == to {
        return false;
    }
    if chars[from] == '~' {
        return true;
    }
    let mut k: usize = from;
    while k < to
        invariant
            from <= k <= to <= chars@.len(),
            alnum@.len() == chars@.len(),
            forall|m: int| from <= m < k ==> !(#[trigger] alnum@[m]) && chars@[m] != '_',
        decreases to - k,
    {
        if alnum[k] || chars[k] == '_' {
            assert(alnum@[k as int] || chars@[k as int] == '_');
            return true;
        }
        k += 1;
    }
    false
}

/// The path that a token names.
pub fn resolve(token: &str, cwd: Option<&str>, home: Option<&str>) -> (r: Option<String>)
    ensures
        match r {
            Some(p) => resolved(token@, dir_view(cwd), dir_view(home)) == Some(p@),
            None => resolved(token@, dir_view(cwd), dir_view(home)) is None,
        },
{
    let chars = chars_of(token);
    let n: usize = chars.len();
    if n == 0 {
        return None;
    }
    if chars[0] == '/' {
        return Some(token.to_owned());
    }
    if n >= 2 && chars[0] == '~' && chars[1] == '/' {
        let rest = string_between(chars.as_slice(), 2, n);
        assert(rest@ =~= token@.skip(2));
        return match home {
            Some(h) => Some(join_path(h, rest.as_str())),
            None => None,
        };
    }
    if n == 1 && chars[0] == '~' {
        assert(token@ =~= seq!['~']);
        return match home {
            Some(h) => Some(h.to_owned()),
            None => None,
        };
    }
    assert(token@ != seq!['~']) by {
        if n == 1 {
            assert(token@[0] != seq!['~'][0]);
        }
    }
    match cwd {
        Some(c) => Some(join_path(c, token)),
        None => None,
    }
}

/// Tries `chars[from..to]`: the path that it names, if the predicate says that
/// it exists.
fn resolve_and_check<F: Fn(&str) -> bool>(
    chars: &[char],
    from: usize,
    to: usize,
    cwd: Option<&str>,
    home: Option<&str>,
    is_existing: &F,
) -> (r: Option<String>)
    requires
        from < to <= chars@.len(),
        forall|q: &str|
            #![trigger call_requires(*is_existing, (q,))]
            resolved(chars@.subrange(from as int, to as int), dir_view(cwd), dir_view(home))
                == Some(q@) ==> call_requires(*is_existing, (q,)),
    ensures
        match resolved(chars@.subrange(from as int, to as int), dir_view(cwd), dir_view(home)) {
            Some(path) => answer(is_existing, path, r is Some) && (r matches Some(p) ==> p@ == path),
            None => r is None,
        },
{
    let token = string_between(chars, from, to);
    match resolve(token.as_str(), cwd, home) {
        Some(p) => {
            let ok = is_existing(p.as_str());
            if ok {
                Some(p)
            } else {
                None
            }
        },
        None => None,
    }
}

/// The view of what a word gave.
spec fn found_view(r: Option<(usize, usize, String)>) -> Option<PathView> {
    match r {
        Some((first, last, p)) => Some(
            PathView { first: first as int, last: last as int, path: p@ },
        ),
        None => None,
    }
}

/// Are the answers about the word that begins at `from` the predicate's own?
spec fn word_answered<F: Fn(&str) -> bool>(
    is_existing: &F,
    s: Seq<char>,
    alnum: Seq<bool>,
    from: int,
    cwd: Option<Seq<char>>,
    home: Option<Seq<char>>,
    said: Answers,
) -> bool {
    forall|to: int|
        #[trigger] asked(s, alnum, from, to, cwd, home, said) ==> answered_at(
            is_existing,
            s,
            from,
            to,
            cwd,
            home,
            said,
        )
}

/// Finds the path that the word from `from` to `to` gives.
fn find_word_path<F: Fn(&str) -> bool>(
    chars: &[char],
    alnum: &[bool],
    from: usize,
    to: usize,
    cwd: Option<&str>,
    home: Option<&str>,
    is_existing: &F,
) -> (r: Option<(usize, usize, String)>)
    requires
        from < to <= chars@.len(),
        word_start(chars@, from as int),
        to == word_end(chars@, from as int),
        alnum@.len() == chars@.len(),
        may_ask(is_existing, chars@, dir_view(cwd), dir_view(home)),
    ensures
        exists|said: Answers|
            #[trigger] word_answered(
                is_existing,
                chars@,
                alnum@,
                from as int,
                dir_view(cwd),
                dir_view(home),
                said,
            ) && found_view(r) == word_path(
                chars@,
                alnum@,
                from as int,
                to as int,
                dir_view(cwd),
                dir_view(home),
                said,
            ),
{
    let ghost (s, marks, c, h) = (chars@, alnum@, dir_view(cwd), dir_view(home));
    let ghost never: Answers = |f: int, t: int, p: Seq<char>| false;
    let word = vstd::slice::slice_subrange(chars, 0, to);
    assert(word@ =~= chars@.take(to as int));
    if match_scheme_at(word, from).is_some() {
        assert(word_answered(is_existing, s, marks, from as int, c, h, never));
        return None;
    }
    let end: usize = trim_trailing_junk(chars, from, to);
    if !is_path_shaped(chars, alnum, from, end) {
        assert(word_answered(is_existing, s, marks, from as int, c, h, never));
        return None;
    }
    assert(candidate(s, from as int, end as int));
    if let Some(p) = resolve_and_check(chars, from, end, cwd, home, is_existing) {
        let ghost said: Answers = |f: int, t: int, p: Seq<char>| t == end;
        assert(word_answered(is_existing, s, marks, from as int, c, h, said));
        return Some((from, end - 1, p));
    }
    if end - from >= 2 && chars[end - 1] == '.' && is_path_shaped(chars, alnum, from, end - 1) {
        assert(candidate(s, from as int, end - 1));
        if let Some(p) = resolve_and_check(chars, from, end - 1, cwd, home, is_existing) {
            let ghost said: Answers = |f: int, t: int, p: Seq<char>| t == end - 1;
            assert(word_answered(is_existing, s, marks, from as int, c, h, said));
            return Some((from, end - 2, p));
        }
    }
    assert(word_answered(is_existing, s, marks, from as int, c, h, never));
    None
}

/// Do two lots of answers agree on the words that begin before column `upto`?
spec fn agree_before(a: Answers, b: Answers, upto: int) -> bool {
    forall|from: int, to: int, path: Seq<char>|
        from < upto ==> #[trigger] a(from, to, path) == b(from, to, path)
}

/// Are the answers about the words that begin before column `upto` the
/// predicate's own?
spec fn answered_before<F: Fn(&str) -> bool>(
    is_existing: &F,
    s: Seq<char>,
    alnum: Seq<bool>,
    upto: int,
    cwd: Option<Seq<char>>,
    home: Option<Seq<char>>,
    said: Answers,
) -> bool {
    forall|from: int|
        from < upto ==> #[trigger] word_answered(is_existing, s, alnum, from, cwd, home, said)
}

/// Are these the paths of the words that begin before column `upto`, by these
/// answers and whatever is answered about the others?
spec fn found_before(
    found: Seq<PathView>,
    s: Seq<char>,
    alnum: Seq<bool>,
    upto: int,
    cwd: Option<Seq<char>>,
    home: Option<Seq<char>>,
    said: Answers,
) -> bool {
    forall|a: Answers|
        #[trigger] agree_before(a, said, upto) ==> found + paths_from(s, alnum, upto, cwd, home, a)
            == paths_from(s, alnum, 0, cwd, home, a)
}

/// The answers `said`, but for the word that begins at `at`.
spec fn with_word(said: Answers, at: int, word: Answers) -> Answers {
    |from: int, to: int, path: Seq<char>|
        if from == at {
            word(from, to, path)
        } else {
            said(from, to, path)
        }
}

/// What is asked about a word, what is answered and what the word gives depend
/// on the answers about that word alone.
proof fn lemma_word_alone<F: Fn(&str) -> bool>(
    is_existing: &F,
    s: Seq<char>,
    alnum: Seq<bool>,
    from: int,
    cwd: Option<Seq<char>>,
    home: Option<Seq<char>>,
    a: Answers,
    b: Answers,
)
    requires
        forall|to: int, path: Seq<char>| #[trigger] a(from, to, path) == b(from, to, path),
    ensures
        forall|to: int|
            #[trigger] word_path(s, alnum, from, to, cwd, home, a) == word_path(
                s,
                alnum,
                from,
                to,
                cwd,
                home,
                b,
            ),
        word_answered(is_existing, s, alnum, from, cwd, home, a) == word_answered(
            is_existing,
            s,
            alnum,
            from,
            cwd,
            home,
            b,
        ),
{
    assert forall|to: int| #[trigger]
        tried(s, from, to, cwd, home, a) == tried(s, from, to, cwd, home, b) by {}
    assert forall|to: int| #[trigger]
        asked(s, alnum, from, to, cwd, home, a) == asked(s, alnum, from, to, cwd, home, b) by {
        assert(tried(s, from, bare_end(s, from), cwd, home, a) == tried(
            s,
            from,
            bare_end(s, from),
            cwd,
            home,
            b,
        ));
    }
    assert forall|to: int|
        answered_at(is_existing, s, from, to, cwd, home, a) == #[trigger] answered_at(
            is_existing,
            s,
            from,
            to,
            cwd,
            home,
            b,
        ) by {}
    assert forall|to: int|
        #[trigger] word_path(s, alnum, from, to, cwd, home, a) == word_path(
            s,
            alnum,
            from,
            to,
            cwd,
            home,
            b,
        ) by {
        let end = junk_trimmed_end(s, from, to);
        assert(tried(s, from, end, cwd, home, a) == tried(s, from, end, cwd, home, b));
        assert(tried(s, from, end - 1, cwd, home, a) == tried(s, from, end - 1, cwd, home, b));
    }
    if word_answered(is_existing, s, alnum, from, cwd, home, a) {
        assert forall|to: int| #[trigger] asked(s, alnum, from, to, cwd, home, b) implies
            answered_at(is_existing, s, from, to, cwd, home, b) by {
            assert(asked(s, alnum, from, to, cwd, home, a));
        }
    }
    if word_answered(is_existing, s, alnum, from, cwd, home, b) {
        assert forall|to: int| #[trigger] asked(s, alnum, from, to, cwd, home, a) implies
            answered_at(is_existing, s, from, to, cwd, home, a) by {
            assert(asked(s, alnum, from, to, cwd, home, b));
        }
    }
}

/// One word more: its answers join those before it, and its path those found.
proof fn lemma_next_word<F: Fn(&str) -> bool>(
    is_existing: &F,
    s: Seq<char>,
    alnum: Seq<bool>,
    start: int,
    cwd: Option<Seq<char>>,
    home: Option<Seq<char>>,
    said: Answers,
    word: Answers,
    found: Seq<PathView>,
)
    requires
        word_start(s, start),
        answered_before(is_existing, s, alnum, start, cwd, home, said),
        found_before(found, s, alnum, start, cwd, home, said),
        word_answered(is_existing, s, alnum, start, cwd, home, word),
    ensures
        ({
            let to = word_end(s, start);
            let all = with_word(said, start, word);
            let more = match word_path(s, alnum, start, to, cwd, home, word) {
                Some(p) => found.push(p),
                None => found,
            };
            &&& answered_before(is_existing, s, alnum, to, cwd, home, all)
            &&& found_before(more, s, alnum, to, cwd, home, all)
        }),
{
    let to = word_end(s, start);
    let all = with_word(said, start, word);
    lemma_word_end(s, start);
    assert forall|from: int| from < to implies #[trigger] word_answered(
        is_existing,
        s,
        alnum,
        from,
        cwd,
        home,
        all,
    ) by {
        if from < start {
            lemma_word_alone(is_existing, s, alnum, from, cwd, home, said, all);
        } else if from == start {
            lemma_word_alone(is_existing, s, alnum, from, cwd, home, word, all);
        } else {
            lemma_inside_word(s, start, from - 1);
        }
    }
    let more = match word_path(s, alnum, start, to, cwd, home, word) {
        Some(p) => found.push(p),
        None => found,
    };
    assert forall|a: Answers| #[trigger] agree_before(a, all, to) implies more + paths_from(
        s,
        alnum,
        to,
        cwd,
        home,
        a,
    ) == paths_from(s, alnum, 0, cwd, home, a) by {
        assert(agree_before(a, said, start)) by {
            assert forall|f: int, t: int, p: Seq<char>| f < start implies #[trigger] a(f, t, p)
                == said(f, t, p) by {
                assert(a(f, t, p) == all(f, t, p));
            }
        }
        assert forall|t: int, p: Seq<char>| #[trigger] a(start, t, p) == word(start, t, p) by {
            assert(a(start, t, p) == all(start, t, p));
        }
        lemma_word_alone(is_existing, s, alnum, start, cwd, home, a, word);
        let rest = paths_from(s, alnum, to, cwd, home, a);
        assert(word_path(s, alnum, start, to, cwd, home, a) == word_path(
            s,
            alnum,
            start,
            to,
            cwd,
            home,
            word,
        ));
        assert(more + rest =~= found + paths_from(s, alnum, start, cwd, home, a));
    }
}

/// There is no white space inside a word.
proof fn lemma_inside_word(s: Seq<char>, from: int, k: int)
    requires
        0 <= from <= k < word_end(s, from),
    ensures
        k < s.len(),
        !whitespace(s[k]),
    decreases s.len() - from,
{
    if from < s.len() && !whitespace(s[from]) && k > from {
        lemma_inside_word(s, from + 1, k);
    }
}

/// Where the predicate says of every path what `exists_at` says, so do its
/// answers.
proof fn lemma_fixed_answers<F: Fn(&str) -> bool>(
    is_existing: &F,
    s: Seq<char>,
    alnum: Seq<bool>,
    i: int,
    cwd: Option<Seq<char>>,
    home: Option<Seq<char>>,
    said: Answers,
    exists_at: spec_fn(Seq<char>) -> bool,
)
    requires
        0 <= i,
        i == 0 || i >= s.len() || whitespace(s[i]) || whitespace(s[i - 1]),
        answered(is_existing, s, alnum, cwd, home, said),
        decided_by(is_existing, exists_at),
    ensures
        paths_from(s, alnum, i, cwd, home, said) == paths_from(
            s,
            alnum,
            i,
            cwd,
            home,
            fixed(exists_at),
        ),
    decreases s.len() - i,
{
    if i < s.len() {
        if whitespace(s[i]) {
            lemma_fixed_answers(is_existing, s, alnum, i + 1, cwd, home, said, exists_at);
        } else {
            let to = word_end(s, i);
            lemma_word_end(s, i);
            lemma_word_stops(s, i);
            lemma_fixed_answers(is_existing, s, alnum, to, cwd, home, said, exists_at);
            let end = junk_trimmed_end(s, i, to);
            lemma_junk_trimmed(s, i, to);
            if scheme_at(s.take(to), i) is None && path_shaped(s, alnum, i, end) {
                assert(asked(s, alnum, i, end, cwd, home, said));
                assert(answered_at(is_existing, s, i, end, cwd, home, said));
                assert(tried(s, i, end, cwd, home, said) == tried(
                    s,
                    i,
                    end,
                    cwd,
                    home,
                    fixed(exists_at),
                ));
                if tried(s, i, end, cwd, home, said) is None && end - i >= 2 && s[end - 1] == '.'
                    && path_shaped(s, alnum, i, end - 1) {
                    assert(asked(s, alnum, i, end - 1, cwd, home, said));
                    assert(answered_at(is_existing, s, i, end - 1, cwd, home, said));
                }
            }
        }
    }
}

/// A word ends at white space or at the end of the row.
proof fn lemma_word_stops(s: Seq<char>, from: int)
    requires
        0 <= from <= s.len(),
    ensures
        word_end(s, from) >= s.len() || whitespace(s[word_end(s, from)]),
    decreases s.len() - from,
{
    if from < s.len() && !whitespace(s[from]) {
        lemma_word_stops(s, from + 1);
    }
}

/// What is left without the junk lies within the word.
proof fn lemma_junk_trimmed(s: Seq<char>, floor: int, end: int)
    requires
        floor <= end,
    ensures
        floor <= junk_trimmed_end(s, floor, end) <= end,
    decreases end - floor,
{
    if end > floor && path_junk(s[end - 1]) {
        lemma_junk_trimmed(s, floor, end - 1);
    }
}

/// Finds the paths of a row, where `alnum[i]` says whether `chars[i]` is a
/// letter or digit.
pub fn find_paths_classified<F: Fn(&str) -> bool>(
    chars: &[char],
    alnum: &[bool],
    cwd: Option<&str>,
    home: Option<&str>,
    is_existing: &F,
) -> (out: Vec<(usize, usize, String)>)
    requires
        alnum@.len() == chars@.len(),
        may_ask(is_existing, chars@, dir_view(cwd), dir_view(home)),
    ensures
        row_found(is_existing, chars@, alnum@, dir_view(cwd), dir_view(home), paths_view(out@)),
        forall|o: spec_fn(Seq<char>) -> bool|
            #![trigger decided_by(is_existing, o)]
            decided_by(is_existing, o) ==> paths_view(out@) == paths_from(
                chars@,
                alnum@,
                0,
                dir_view(cwd),
                dir_view(home),
                fixed(o),
            ),
{
    let ghost (s, marks, c, h) = (chars@, alnum@, dir_view(cwd), dir_view(home));
    let total: usize = chars.len();
    let mut out: Vec<(usize, usize, String)> = Vec::new();
    let mut i: usize = 0;
    let ghost mut said: Answers = |f: int, t: int, p: Seq<char>| false;
    proof {
        assert forall|a: Answers| #[trigger] agree_before(a, said, 0) implies paths_view(out@)
            + paths_from(s, marks, 0, c, h, a) == paths_from(s, marks, 0, c, h, a) by {
            assert(paths_view(out@) + paths_from(s, marks, 0, c, h, a) =~= paths_from(
                s,
                marks,
                0,
                c,
                h,
                a,
            ));
        }
        assert forall|from: int| from < 0 implies #[trigger] word_answered(
            is_existing,
            s,
            marks,
            from,
            c,
            h,
            said,
        ) by {}
    }
    while i < total
        invariant
            i <= total,
            total == chars@.len(),
            alnum@.len() == chars@.len(),
            s == chars@,
            marks == alnum@,
            c == dir_view(cwd),
            h == dir_view(home),
            i == 0 || i == total || whitespace(s[i as int]) || whitespace(s[i - 1]),
            may_ask(is_existing, s, c, h),
            answered_before(is_existing, s, marks, i as int, c, h, said),
            found_before(paths_view(out@), s, marks, i as int, c, h, said),
        decreases total - i,
    {
        if is_whitespace(chars[i]) {
            proof {
                lemma_skip_space(is_existing, s, marks, i as int, c, h, said, paths_view(out@));
            }
            i += 1;
            continue;
        }
        let start: usize = i;
        while i < total && !is_whitespace(chars[i])
            invariant
                start <= i <= total,
                total == chars@.len(),
                s == chars@,
                start < total,
                !whitespace(s[start as int]),
                word_end(s, start as int) == word_end(s, i as int),
            decreases total - i,
        {
            i += 1;
        }
        proof {
            lemma_word_end(s, start as int);
        }
        let found = find_word_path(chars, alnum, start, i, cwd, home, is_existing);
        let ghost before = paths_view(out@);
        let ghost word: Answers = choose|w: Answers|
            #[trigger] word_answered(is_existing, s, marks, start as int, c, h, w) && found_view(
                found,
            ) == word_path(s, marks, start as int, i as int, c, h, w);
        proof {
            lemma_next_word(is_existing, s, marks, start as int, c, h, said, word, before);
            said = with_word(said, start as int, word);
        }
        if let Some(t) = found {
            out.push(t);
            assert(paths_view(out@) =~= before.push(
                PathView { first: t.0 as int, last: t.1 as int, path: t.2@ },
            ));
        }
    }
    proof {
        assert(agree_before(said, said, i as int));
        assert(paths_view(out@) =~= paths_view(out@) + paths_from(s, marks, i as int, c, h, said));
        assert(answered(is_existing, s, marks, c, h, said)) by {
            assert forall|from: int, to: int| #[trigger]
                asked(s, marks, from, to, c, h, said) implies answered_at(
                is_existing,
                s,
                from,
                to,
                c,
                h,
                said,
            ) by {
                assert(word_answered(is_existing, s, marks, from, c, h, said));
            }
        }
        assert forall|o: spec_fn(Seq<char>) -> bool|
            #![trigger decided_by(is_existing, o)]
            decided_by(is_existing, o) implies paths_view(out@) == paths_from(
            s,
            marks,
            0,
            c,
            h,
            fixed(o),
        ) by {
            lemma_fixed_answers(is_existing, s, marks, 0, c, h, said, o);
        }
    }
    out
}

/// White space is passed over.
proof fn lemma_skip_space<F: Fn(&str) -> bool>(
    is_existing: &F,
    s: Seq<char>,
    alnum: Seq<bool>,
    i: int,
    cwd: Option<Seq<char>>,
    home: Option<Seq<char>>,
    said: Answers,
    found: Seq<PathView>,
)
    requires
        0 <= i < s.len(),
        whitespace(s[i]),
        answered_before(is_existing, s, alnum, i, cwd, home, said),
        found_before(found, s, alnum, i, cwd, home, said),
    ensures
        answered_before(is_existing, s, alnum, i + 1, cwd, home, said),
        found_before(found, s, alnum, i + 1, cwd, home, said),
{
    assert forall|a: Answers| #[trigger] agree_before(a, said, i + 1) implies found + paths_from(
        s,
        alnum,
        i + 1,
        cwd,
        home,
        a,
    ) == paths_from(s, alnum, 0, cwd, home, a) by {
        assert(agree_before(a, said, i));
        assert(paths_from(s, alnum, i, cwd, home, a) == paths_from(
            s,
            alnum,
            i + 1,
            cwd,
            home,
            a,
        ));
    }
    assert forall|from: int| from < i + 1 implies #[trigger] word_answered(
        is_existing,
        s,
        alnum,
        from,
        cwd,
        home,
        said,
    ) by {}
}

/// Which characters are letters or digits.
pub open spec fn classes(s: Seq<char>) -> Seq<bool> {
    s.map_values(|c: char| alphanumeric(c))
}

/// Says of each character whether it is a letter or digit.
fn classify_chars(chars: &[char]) -> (r: Vec<bool>)
    ensures
        r@ == classes(chars@),
{
    let mut out: Vec<bool> = Vec::new();
    let mut i: usize = 0;
    while i < chars.len()
        invariant
            i <= chars@.len(),
            out@ == classes(chars@).take(i as int),
        decreases chars@.len() - i,
    {
        out.push(is_alphanumeric(chars[i]));
        i += 1;
        assert(out@ =~= classes(chars@).take(i as int));
    }
    assert(out@ =~= classes(chars@));
    out
}

/// Finds the paths of a row that exist: first column, last column, path.
///
/// The row is cut at white space; words that begin with a URL scheme and words
/// of punctuation alone are passed over, and glue at the end of a word is left
/// out.
pub fn find_paths_in_chars<F: Fn(&str) -> bool>(
    chars: &[char],
    cwd: Option<&str>,
    home: Option<&str>,
    is_existing: &F,
) -> (out: Vec<(usize, usize, String)>)
    requires
        may_ask(is_existing, chars@, dir_view(cwd), dir_view(home)),
    ensures
        row_found(
            is_existing,
            chars@,
            classes(chars@),
            dir_view(cwd),
            dir_view(home),
            paths_view(out@),
        ),
        forall|o: spec_fn(Seq<char>) -> bool|
            #![trigger decided_by(is_existing, o)]
            decided_by(is_existing, o) ==> paths_view(out@) == paths_from(
                chars@,
                classes(chars@),
                0,
                dir_view(cwd),
                dir_view(home),
                fixed(o),
            ),
{
    let alnum = classify_chars(chars);
    find_paths_classified(chars, alnum.as_slice(), cwd, home, is_existing)
}

/// The links of one row: its paths, at line `line`.
pub open spec fn row_path_links(paths: Seq<PathView>, line: i32) -> Seq<LinkView> {
    paths.map_values(
        |p: PathView|
            LinkView {
                start: Point { line, column: p.first as usize },
                end: Point { line, column: p.last as usize },
                url: p.path,
            },
    )
}

/// The paths of the first `n` rows of a viewport scrolled back by `offset`, where
/// `said` tells of each row which paths exist.
pub open spec fn viewport_paths(
    rows: Seq<Seq<char>>,
    offset: int,
    n: int,
    cwd: Option<Seq<char>>,
    home: Option<Seq<char>>,
    said: Seq<Answers>,
) -> Seq<LinkView>
    decreases n,
{
    if n <= 0 {
        Seq::empty()
    } else {
        viewport_paths(rows, offset, n - 1, cwd, home, said) + row_path_links(
            paths_from(rows[n - 1], classes(rows[n - 1]), 0, cwd, home, said[n - 1]),
            (n - 1 - offset) as i32,
        )
    }
}

/// Of each of `n` rows, the answers of one who says of a path the same wherever
/// it stands.
pub open spec fn fixed_rows(exists_at: spec_fn(Seq<char>) -> bool, n: nat) -> Seq<Answers> {
    Seq::new(n, |i: int| fixed(exists_at))
}

/// May the predicate be asked about every candidate of every row?
pub open spec fn may_ask_rows<F: Fn(&str) -> bool>(
    is_existing: &F,
    rows: Seq<Seq<char>>,
    cwd: Option<Seq<char>>,
    home: Option<Seq<char>>,
) -> bool {
    forall|i: int| 0 <= i < rows.len() ==> may_ask(is_existing, #[trigger] rows[i], cwd, home)
}

/// Are the answers about each of these rows the predicate's own?
pub open spec fn rows_answered<F: Fn(&str) -> bool>(
    is_existing: &F,
    rows: Seq<Seq<char>>,
    cwd: Option<Seq<char>>,
    home: Option<Seq<char>>,
    said: Seq<Answers>,
) -> bool {
    &&& said.len() == rows.len()
    &&& forall|i: int|
        0 <= i < rows.len() ==> answered(
            is_existing,
            #[trigger] rows[i],
            classes(rows[i]),
            cwd,
            home,
            said[i],
        )
}

/// Are these the paths of a viewport, by what the predicate answered where it
/// was asked?
pub open spec fn viewport_found<F: Fn(&str) -> bool>(
    is_existing: &F,
    rows: Seq<Seq<char>>,
    offset: int,
    cwd: Option<Seq<char>>,
    home: Option<Seq<char>>,
    found: Seq<LinkView>,
) -> bool {
    exists|said: Seq<Answers>|
        #[trigger] rows_answered(is_existing, rows, cwd, home, said) && found == viewport_paths(
            rows,
            offset,
            rows.len() as int,
            cwd,
            home,
            said,
        )
}

/// The paths of the first rows depend on the answers about those rows alone.
proof fn lemma_first_rows(
    rows: Seq<Seq<char>>,
    offset: int,
    n: int,
    cwd: Option<Seq<char>>,
    home: Option<Seq<char>>,
    said: Seq<Answers>,
    next: Answers,
)
    requires
        n <= said.len(),
    ensures
        viewport_paths(rows, offset, n, cwd, home, said.push(next)) == viewport_paths(
            rows,
            offset,
            n,
            cwd,
            home,
            said,
        ),
    decreases n,
{
    if n > 0 {
        lemma_first_rows(rows, offset, n - 1, cwd, home, said, next);
    }
}

/// Where the predicate says of every path what `exists_at` says, so do its
/// answers about the first `n` rows.
proof fn lemma_fixed_rows<F: Fn(&str) -> bool>(
    is_existing: &F,
    rows: Seq<Seq<char>>,
    offset: int,
    n: int,
    cwd: Option<Seq<char>>,
    home: Option<Seq<char>>,
    said: Seq<Answers>,
    exists_at: spec_fn(Seq<char>) -> bool,
)
    requires
        n <= rows.len(),
        rows_answered(is_existing, rows, cwd, home, said),
        decided_by(is_existing, exists_at),
    ensures
        viewport_paths(rows, offset, n, cwd, home, said) == viewport_paths(
            rows,
            offset,
            n,
            cwd,
            home,
            fixed_rows(exists_at, rows.len()),
        ),
    decreases n,
{
    if n > 0 {
        let row = rows[n - 1];
        lemma_fixed_rows(is_existing, rows, offset, n - 1, cwd, home, said, exists_at);
        lemma_fixed_answers(
            is_existing,
            row,
            classes(row),
            0,
            cwd,
            home,
            said[n - 1],
            exists_at,
        );
    }
}

/// Appends the paths found in one row as links.
fn push_row_links(out: &mut Vec<LinkSpan>, found: &Vec<(usize, usize, String)>, line: i32)
    ensures
        links_view(final(out)@) == links_view(old(out)@) + row_path_links(paths_view(found@), line),
{
    let ghost before = links_view(out@);
    let ghost links = row_path_links(paths_view(found@), line);
    let mut k: usize = 0;
    assert(before + links.take(0) =~= before);
    while k < found.len()
        invariant
            k <= found@.len(),
            links == row_path_links(paths_view(found@), line),
            links_view(out@) == before + links.take(k as int),
        decreases found@.len() - k,
    {
        assert(paths_view(found@)[k as int].first == found@[k as int].0);
        let link = LinkSpan {
            start: Point { line, column: found[k].0 },
            end: Point { line, column: found[k].1 },
            url: found[k].2.clone(),
        };
        let ghost done = out@;
        out.push(link);
        assert(links_view(out@) =~= links_view(done).push(link@));
        assert(link@ == links[k as int]);
        assert(links.take(k + 1) =~= links.take(k as int).push(link@));
        assert(links_view(out@) =~= before + links.take(k + 1));
        k += 1;
    }
    assert(links.take(k as int) =~= links);
}

/// Finds the paths of a viewport that exist, row by row.
pub fn scan_viewport_paths<F: Fn(&str) -> bool>(
    v: &Viewport,
    cwd: Option<&str>,
    home: Option<&str>,
    is_existing: &F,
) -> (out: Vec<LinkSpan>)
    requires
        v.wf(),
        may_ask_rows(is_existing, v.text(), dir_view(cwd), dir_view(home)),
    ensures
        viewport_found(
            is_existing,
            v.text(),
            v.offset as int,
            dir_view(cwd),
            dir_view(home),
            links_view(out@),
        ),
        forall|o: spec_fn(Seq<char>) -> bool|
            #![trigger decided_by(is_existing, o)]
            decided_by(is_existing, o) ==> links_view(out@) == viewport_paths(
                v.text(),
                v.offset as int,
                v.text().len() as int,
                dir_view(cwd),
                dir_view(home),
                fixed_rows(o, v.text().len()),
            ),
{
    let ghost (rows, offset, c, h) = (v.text(), v.offset as int, dir_view(cwd), dir_view(home));
    let mut out: Vec<LinkSpan> = Vec::new();
    let mut i: usize = 0;
    let ghost mut said: Seq<Answers> = Seq::empty();
    assert(links_view(out@) =~= Seq::empty());
    while i < v.rows.len()
        invariant
            i <= v.rows@.len(),
            v.wf(),
            rows == v.text(),
            offset == v.offset,
            c == dir_view(cwd),
            h == dir_view(home),
            may_ask_rows(is_existing, rows, c, h),
            said.len() == i,
            forall|k: int|
                0 <= k < i ==> answered(
                    is_existing,
                    #[trigger] rows[k],
                    classes(rows[k]),
                    c,
                    h,
                    said[k],
                ),
            links_view(out@) == viewport_paths(rows, offset, i as int, c, h, said),
        decreases v.rows@.len() - i,
    {
        let line: i32 = i as i32 - v.offset;
        assert(rows[i as int] == v.rows@[i as int]@);
        let found = find_paths_in_chars(v.rows[i].as_slice(), cwd, home, is_existing);
        push_row_links(&mut out, &found, line);
        proof {
            let row = rows[i as int];
            let next = choose|a: Answers|
                #[trigger] answered(is_existing, row, classes(row), c, h, a) && paths_view(found@)
                    == paths_from(row, classes(row), 0, c, h, a);
            lemma_first_rows(rows, offset, i as int, c, h, said, next);
            said = said.push(next);
        }
        i += 1;
    }
    proof {
        assert(rows_answered(is_existing, rows, c, h, said));
        assert forall|o: spec_fn(Seq<char>) -> bool|
            #![trigger decided_by(is_existing, o)]
            decided_by(is_existing, o) implies links_view(out@) == viewport_paths(
            rows,
            offset,
            rows.len() as int,
            c,
            h,
            fixed_rows(o, rows.len()),
        ) by {
            lemma_fixed_rows(is_existing, rows, offset, rows.len() as int, c, h, said, o);
        }
    }
    out
}

/// Finds the paths that a grid shows and that exist, row by row. The predicate
/// says which paths exist.
pub fn scan_visible_paths_with<F: Fn(&str) -> bool>(
    grid: &alacritty_terminal::grid::Grid<alacritty_terminal::term::cell::Cell>,
    cwd: Option<&str>,
    home: Option<&str>,
    is_existing: &F,
) -> (out: Vec<LinkSpan>)
    requires
        numbered(*grid),
        may_ask_rows(is_existing, shown_rows(*grid), dir_view(cwd), dir_view(home)),
    ensures
        viewport_found(
            is_existing,
            shown_rows(*grid),
            shown_offset(*grid) as int,
            dir_view(cwd),
            dir_view(home),
            links_view(out@),
        ),
        forall|o: spec_fn(Seq<char>) -> bool|
            #![trigger decided_by(is_existing, o)]
            decided_by(is_existing, o) ==> links_view(out@) == viewport_paths(
                shown_rows(*grid),
                shown_offset(*grid) as int,
                shown_rows(*grid).len() as int,
                dir_view(cwd),
                dir_view(home),
                fixed_rows(o, shown_rows(*grid).len()),
            ),
{
    match read_viewport(grid) {
        Some(v) => scan_viewport_paths(&v, cwd, home, is_existing),
        None => Vec::new(),
    }
}

/// Finds the paths that a grid shows and that exist. `None` where it is scrolled
/// back further than it keeps lines, or where their numbers do not fit.
pub fn visible_paths_with<F: Fn(&str) -> bool>(
    grid: &alacritty_terminal::grid::Grid<alacritty_terminal::term::cell::Cell>,
    cwd: Option<&str>,
    home: Option<&str>,
    is_existing: &F,
) -> (r: Option<Vec<LinkSpan>>)
    requires
        may_ask_rows(is_existing, shown_rows(*grid), dir_view(cwd), dir_view(home)),
    ensures
        r is Some == numbered(*grid),
        r matches Some(out) ==> viewport_found(
            is_existing,
            shown_rows(*grid),
            shown_offset(*grid) as int,
            dir_view(cwd),
            dir_view(home),
            links_view(out@),
        ),
        forall|o: spec_fn(Seq<char>) -> bool|
            #![trigger decided_by(is_existing, o)]
            decided_by(is_existing, o) && r is Some ==> links_view(r.unwrap()@) == viewport_paths(
                shown_rows(*grid),
                shown_offset(*grid) as int,
                shown_rows(*grid).len() as int,
                dir_view(cwd),
                dir_view(home),
                fixed_rows(o, shown_rows(*grid).len()),
            ),
{
    match read_viewport(grid) {
        Some(v) => Some(scan_viewport_paths(&v, cwd, home, is_existing)),
        None => None,
    }
}

// ---- laws --------------------------------------------------------------

/// A word that begins with a URL scheme is never a path: it belongs to the URL
/// finder.
pub proof fn law_urls_are_not_paths(
    s: Seq<char>,
    alnum: Seq<bool>,
    from: int,
    to: int,
    cwd: Option<Seq<char>>,
    home: Option<Seq<char>>,
    said: Answers,
)
    requires
        scheme_at(s.take(to), from) is Some,
    ensures
        word_path(s, alnum, from, to, cwd, home, said) is None,
{
}

/// A path that a row gives stands at a candidate, is the path that this names,
/// and was said to exist.
pub open spec fn confirmed<F: Fn(&str) -> bool>(
    is_existing: &F,
    s: Seq<char>,
    cwd: Option<Seq<char>>,
    home: Option<Seq<char>>,
    p: PathView,
) -> bool {
    &&& candidate(s, p.first, p.last + 1)
    &&& resolved(s.subrange(p.first, p.last + 1), cwd, home) == Some(p.path)
    &&& answer(is_existing, p.path, true)
}

/// Every path that is found was said to exist by the predicate, and stands at or
/// after the column where the search began, which is no column inside a word.
pub proof fn law_found_paths_exist<F: Fn(&str) -> bool>(
    is_existing: &F,
    s: Seq<char>,
    alnum: Seq<bool>,
    i: int,
    cwd: Option<Seq<char>>,
    home: Option<Seq<char>>,
    said: Answers,
)
    requires
        0 <= i,
        i == 0 || i >= s.len() || whitespace(s[i]) || whitespace(s[i - 1]),
        answered(is_existing, s, alnum, cwd, home, said),
    ensures
        forall|k: int|
            0 <= k < paths_from(s, alnum, i, cwd, home, said).len() ==> confirmed(
                is_existing,
                s,
                cwd,
                home,
                #[trigger] paths_from(s, alnum, i, cwd, home, said)[k],
            ) && paths_from(s, alnum, i, cwd, home, said)[k].first >= i,
    decreases s.len() - i,
{
    let all = paths_from(s, alnum, i, cwd, home, said);
    if i < s.len() {
        if whitespace(s[i]) {
            law_found_paths_exist(is_existing, s, alnum, i + 1, cwd, home, said);
            assert(all == paths_from(s, alnum, i + 1, cwd, home, said));
        } else {
            lemma_word_end(s, i);
            lemma_word_stops(s, i);
            let to = word_end(s, i);
            law_found_paths_exist(is_existing, s, alnum, to, cwd, home, said);
            let rest = paths_from(s, alnum, to, cwd, home, said);
            match word_path(s, alnum, i, to, cwd, home, said) {
                Some(p) => {
                    lemma_junk_trimmed(s, i, to);
                    assert(asked(s, alnum, p.first, p.last + 1, cwd, home, said));
                    assert(answered_at(is_existing, s, p.first, p.last + 1, cwd, home, said));
                    assert(all == seq![p] + rest);
                    assert forall|k: int| 0 <= k < all.len() implies confirmed(
                        is_existing,
                        s,
                        cwd,
                        home,
                        #[trigger] all[k],
                    ) && all[k].first >= i by {
                        if k > 0 {
                            assert(all[k] == rest[k - 1]);
                        } else {
                            assert(all[k] == p);
                        }
                    }
                },
                None => {
                    assert(all == rest);
                },
            }
        }
    }
}

/// A path below a directory has one slash between the two; an absolute one is itself.
pub proof fn law_joined_paths(base: Seq<char>, rest: Seq<char>)
    ensures
        rest.len() > 0 && rest[0] == '/' ==> joined_path(base, rest) == rest,
        (rest.len() == 0 || rest[0] != '/') && base.len() > 0 && base.last() != '/' ==> joined_path(
            base,
            rest,
        ) == base + seq!['/'] + rest,
        (rest.len() == 0 || rest[0] != '/') && (base.len() == 0 || base.last() == '/')
            ==> joined_path(base, rest) == base + rest,
{
    assert(base.push('/') =~= base + seq!['/']);
}

/// What a word names: `/...` itself, `~/...` what stands below the home directory, `~`
/// the home directory, and anything else what stands below the working directory.
pub proof fn law_what_a_word_names(
    rest: Seq<char>,
    word: Seq<char>,
    cwd: Option<Seq<char>>,
    home: Option<Seq<char>>,
)
    ensures
        resolved(seq!['/'] + rest, cwd, home) == Some(seq!['/'] + rest),
        match home {
            Some(h) => {
                &&& resolved(seq!['~'], cwd, home) == Some(h)
                &&& (rest.len() == 0 || rest[0] != '/') && h.len() > 0 && h.last() != '/'
                    ==> resolved(seq!['~', '/'] + rest, cwd, home) == Some(h + seq!['/'] + rest)
                &&& resolved(seq!['~', '/'] + rest, cwd, home) == Some(joined_path(h, rest))
            },
            None => resolved(seq!['~'], cwd, home) is None && resolved(
                seq!['~', '/'] + rest,
                cwd,
                home,
            ) is None,
        },
        word.len() > 0 && word[0] != '/' && word[0] != '~' ==> (match cwd {
            Some(c) => {
                &&& c.len() > 0 && c.last() != '/' ==> resolved(word, cwd, home) == Some(
                    c + seq!['/'] + word,
                )
                &&& c.len() > 0 && c.last() == '/' ==> resolved(word, cwd, home) == Some(c + word)
            },
            None => resolved(word, cwd, home) is None,
        }),
        resolved(Seq::<char>::empty(), cwd, home) is None,
        word.len() >= 2 && word[0] == '~' && word[1] != '/' ==> (match cwd {
            Some(c) => resolved(word, cwd, home) == Some(joined_path(c, word)),
            None => resolved(word, cwd, home) is None,
        }),
{
    let below = seq!['~', '/'] + rest;
    assert(below.skip(2) =~= rest);
    assert(below != seq!['~']) by {
        assert(below.len() >= 2);
    }
    if let Some(h) = home {
        law_joined_paths(h, rest);
    }
    if let Some(c) = cwd {
        law_joined_paths(c, word);
    }
    if word.len() > 0 && word[0] != '~' {
        assert(word[0] != seq!['~'][0]);
    }
}

/// The glue at the end of a word is left out: of the characters `, ; : ) ] } ' " ! ? ` >`
/// as many as stand there, and no other.
pub proof fn law_glue_is_left_out(s: Seq<char>, from: int, to: int)
    requires
        0 <= from <= to <= s.len(),
    ensures
        ({
            let end = junk_trimmed_end(s, from, to);
            &&& from <= end <= to
            &&& forall|k: int|
                end <= k < to ==> {
                    let c = #[trigger] s[k];
                    c == ',' || c == ';' || c == ':' || c == ')' || c == ']' || c == '}' || c
                        == '\'' || c == '"' || c == '!' || c == '?' || c == '`' || c == '>'
                }
            &&& end > from ==> {
                let c = s[end - 1];
                c != ',' && c != ';' && c != ':' && c != ')' && c != ']' && c != '}' && c != '\''
                    && c != '"' && c != '!' && c != '?' && c != '`' && c != '>'
            }
        }),
    decreases to - from,
{
    if to > from && path_junk(s[to - 1]) {
        law_glue_is_left_out(s, from, to - 1);
    }
}

/// A word may be a path where it starts with a tilde or holds a letter, a digit or an
/// underscore; punctuation alone is none.
pub proof fn law_what_may_be_a_path(s: Seq<char>, alnum: Seq<bool>, from: int, to: int, k: int)
    requires
        0 <= from <= to <= s.len(),
        alnum.len() == s.len(),
    ensures
        path_shaped(s, alnum, from, to) ==> from < to && (s[from] == '~' || exists|m: int|
            from <= m < to && (#[trigger] alnum[m] || s[m] == '_')),
        from < to && s[from] == '~' ==> path_shaped(s, alnum, from, to),
        from <= k < to && (alnum[k] || s[k] == '_') ==> path_shaped(s, alnum, from, to),
{
    if from <= k < to && (alnum[k] || s[k] == '_') {
        assert(alnum[k] == alnum[k]);
    }
}

/// What a word gives. One that begins with a URL scheme, and one of punctuation alone,
/// give nothing. Any other gives the path that it names without the glue, where that is
/// said to exist; and where it is not, and the word then ends in a full stop, the path
/// that it names without that, where that is said to exist.
pub proof fn law_what_a_word_gives(
    s: Seq<char>,
    alnum: Seq<bool>,
    from: int,
    to: int,
    cwd: Option<Seq<char>>,
    home: Option<Seq<char>>,
    said: Answers,
)
    requires
        0 <= from < to <= s.len(),
        alnum.len() == s.len(),
    ensures
        ({
            let end = junk_trimmed_end(s, from, to);
            let given = word_path(s, alnum, from, to, cwd, home, said);
            let whole = resolved(s.subrange(from, end), cwd, home);
            let short = resolved(s.subrange(from, end - 1), cwd, home);
            let there = scheme_at(s.take(to), from) is None && path_shaped(s, alnum, from, end);
            let whole_there = whole is Some && said(from, end, whole.unwrap());
            let short_there = end >= from + 2 && s[end - 1] == '.' && path_shaped(
                s,
                alnum,
                from,
                end - 1,
            ) && short is Some && said(from, end - 1, short.unwrap());
            match given {
                Some(p) => {
                    &&& there && p.first == from
                    &&& whole_there ==> p.last == end - 1 && p.path == whole.unwrap()
                    &&& !whole_there ==> short_there && p.last == end - 2 && p.path == short.unwrap()
                },
                None => !there || (!whole_there && !short_there),
            }
        }),
{
}

/// No path is missed, and none is made up: the paths of a row are what its words give,
/// in order. A word stands between white space and the ends of the row.
pub proof fn law_each_word_is_tried(
    s: Seq<char>,
    alnum: Seq<bool>,
    from: int,
    cwd: Option<Seq<char>>,
    home: Option<Seq<char>>,
    said: Answers,
)
    requires
        0 <= from < s.len(),
    ensures
        whitespace(s[from]) ==> paths_from(s, alnum, from, cwd, home, said) == paths_from(
            s,
            alnum,
            from + 1,
            cwd,
            home,
            said,
        ),
        !whitespace(s[from]) ==> {
            let to = word_end(s, from);
            let rest = paths_from(s, alnum, to, cwd, home, said);
            &&& from < to <= s.len()
            &&& forall|k: int| from <= k < to ==> !whitespace(#[trigger] s[k])
            &&& to < s.len() ==> whitespace(s[to])
            &&& match word_path(s, alnum, from, to, cwd, home, said) {
                Some(p) => paths_from(s, alnum, from, cwd, home, said) == seq![p] + rest,
                None => paths_from(s, alnum, from, cwd, home, said) == rest,
            }
        },
        paths_from(s, alnum, s.len() as int, cwd, home, said).len() == 0,
{
    lemma_word_end(s, from);
    lemma_word_stops(s, from);
    if !whitespace(s[from]) {
        let to = word_end(s, from);
        assert forall|k: int| from <= k < to implies !whitespace(#[trigger] s[k]) by {
            lemma_inside_word(s, from, k);
        }
    }
}

/// Each path on a screen stands in a row that is shown, at the columns where it was
/// found, and its line is the number of that row less the lines scrolled back.
pub proof fn law_paths_stand_where_they_are_shown(
    rows: Seq<Seq<char>>,
    offset: int,
    n: int,
    cwd: Option<Seq<char>>,
    home: Option<Seq<char>>,
    said: Seq<Answers>,
    k: int,
)
    requires
        0 <= offset,
        n <= rows.len(),
        rows.len() + offset <= i32::MAX,
        0 <= k < viewport_paths(rows, offset, n, cwd, home, said).len(),
    ensures
        ({
            let l = viewport_paths(rows, offset, n, cwd, home, said)[k];
            let r = l.start.line + offset;
            let found = paths_from(rows[r], classes(rows[r]), 0, cwd, home, said[r]);
            &&& 0 <= r < n
            &&& l.end.line == l.start.line
            &&& exists|j: int|
                0 <= j < found.len() && l.url == (#[trigger] found[j]).path && l.start.column
                    == found[j].first as usize && l.end.column == found[j].last as usize
        }),
    decreases n,
{
    if n > 0 {
        let before = viewport_paths(rows, offset, n - 1, cwd, home, said);
        let row = rows[n - 1];
        let found = paths_from(row, classes(row), 0, cwd, home, said[n - 1]);
        let links = row_path_links(found, (n - 1 - offset) as i32);
        if k < before.len() {
            law_paths_stand_where_they_are_shown(rows, offset, n - 1, cwd, home, said, k);
            assert(viewport_paths(rows, offset, n, cwd, home, said)[k] == before[k]);
        } else {
            let j = k - before.len();
            let all = viewport_paths(rows, offset, n, cwd, home, said);
            assert(all == before + links);
            assert(all[k] == links[j]);
            assert(0 <= j < found.len());
            let l = all[k];
            assert(l.start.line + offset == n - 1);
            assert(l.url == found[j].path && l.start.column == found[j].first as usize
                && l.end.column == found[j].last as usize);
        }
    }
}

/// Every path of every row that is shown is a link on the screen.
pub proof fn law_every_shown_path_is_a_link(
    rows: Seq<Seq<char>>,
    offset: int,
    n: int,
    cwd: Option<Seq<char>>,
    home: Option<Seq<char>>,
    said: Seq<Answers>,
    r: int,
    j: int,
)
    requires
        0 <= r < n <= rows.len(),
        0 <= offset,
        rows.len() + offset <= i32::MAX,
        0 <= j < paths_from(rows[r], classes(rows[r]), 0, cwd, home, said[r]).len(),
    ensures
        exists|k: int|
            #![trigger viewport_paths(rows, offset, n, cwd, home, said)[k]]
            0 <= k < viewport_paths(rows, offset, n, cwd, home, said).len() && ({
                let l = viewport_paths(rows, offset, n, cwd, home, said)[k];
                let p = paths_from(rows[r], classes(rows[r]), 0, cwd, home, said[r])[j];
                &&& l.url == p.path
                &&& l.start.line == r - offset && l.end.line == r - offset
                &&& l.start.column == p.first as usize && l.end.column == p.last as usize
            }),
    decreases n,
{
    let all = viewport_paths(rows, offset, n, cwd, home, said);
    let before = viewport_paths(rows, offset, n - 1, cwd, home, said);
    let row = rows[n - 1];
    let found = paths_from(row, classes(row), 0, cwd, home, said[n - 1]);
    let links = row_path_links(found, (n - 1 - offset) as i32);
    assert(all == before + links);
    if r < n - 1 {
        law_every_shown_path_is_a_link(rows, offset, n - 1, cwd, home, said, r, j);
        let p = paths_from(rows[r], classes(rows[r]), 0, cwd, home, said[r])[j];
        let k = choose|k: int|
            #![trigger before[k]]
            0 <= k < before.len() && ({
                let l = before[k];
                &&& l.url == p.path
                &&& l.start.line == r - offset && l.end.line == r - offset
                &&& l.start.column == p.first as usize && l.end.column == p.last as usize
            });
        assert(all[k] == before[k]);
    } else {
        assert(all[before.len() + j] == links[j]);
    }
}

/// What [`find_paths_in_chars`] gives where the predicate is fixed: the columns of each
/// path that exists and the path that stands there.
pub proof fn law_paths_as_found<F: Fn(&str) -> bool>(
    chars: &[char],
    cwd: Option<&str>,
    home: Option<&str>,
    is_existing: &F,
    exists_at: spec_fn(Seq<char>) -> bool,
    out: Vec<(usize, usize, String)>,
    k: int,
)
    requires
        call_ensures(find_paths_in_chars::<F>, (chars, cwd, home, is_existing), out),
        decided_by(is_existing, exists_at),
        0 <= k < out@.len(),
    ensures
        ({
            let (first, last, path) = out@[k];
            &&& first <= last < chars@.len()
            &&& exists_at(path@)
            &&& resolved(
                chars@.subrange(first as int, last + 1),
                match cwd {
                    Some(d) => Some(d@),
                    None => None,
                },
                match home {
                    Some(d) => Some(d@),
                    None => None,
                },
            ) == Some(path@)
        }),
{
    let s = chars@;
    let (c, h) = (dir_view(cwd), dir_view(home));
    let found = paths_view(out@);
    assert(row_found(is_existing, s, classes(s), c, h, found));
    let said = choose|said: Answers|
        #[trigger] answered(is_existing, s, classes(s), c, h, said) && found == paths_from(
            s,
            classes(s),
            0,
            c,
            h,
            said,
        );
    law_found_paths_exist(is_existing, s, classes(s), 0, c, h, said);
    let p = paths_from(s, classes(s), 0, c, h, said)[k];
    assert(confirmed(is_existing, s, c, h, p));
    assert(p == found[k]);
    assert(found[k].first == out@[k].0 && found[k].last == out@[k].1 && found[k].path
        == out@[k].2@);
    let q = choose|q: &str| q@ == p.path && #[trigger] call_ensures(*is_existing, (q,), true);
    assert(exists_at(q@));
    lemma_word_end(s, p.first);
    lemma_junk_trimmed(s, p.first, word_end(s, p.first));
}

} // verus!
