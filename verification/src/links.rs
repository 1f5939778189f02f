//! Finding URLs in terminal text.

use vstd::prelude::*;

use crate::grid::{numbered, read_viewport, shown_offset, shown_rows, Viewport};
use crate::text::{
    chars_occur_at, chars_of, control, is_control, is_whitespace, occurs_at, string_between,
    whitespace,
};

verus! {

/// A position in the grid.
#[derive(Debug, Clone, Copy, PartialEq, Eq, Structural)]
pub struct Point {
    pub line: i32,
    pub column: usize,
}

impl Point {
    /// The position at a line and a column.
    pub fn new(line: i32, column: usize) -> (r: Point)
        ensures
            r == (Point { line, column }),
    {
        Point { line, column }
    }
}

/// A URL in the grid: its first and last cell, on one line, and its text.
#[derive(Debug, Clone, PartialEq, Eq)]
pub struct LinkSpan {
    pub start: Point,
    pub end: Point,
    pub url: String,
}

/// A URL in the grid, as mathematics.
pub struct LinkView {
    pub start: Point,
    pub end: Point,
    pub url: Seq<char>,
}

impl View for LinkSpan {
    type V = LinkView;

    open spec fn view(&self) -> LinkView {
        LinkView { start: self.start, end: self.end, url: self.url@ }
    }
}

/// The views of links.
pub open spec fn links_view(links: Seq<LinkSpan>) -> Seq<LinkView> {
    links.map_values(|l: LinkSpan| l@)
}

impl LinkSpan {
    /// Is `p` one of the link's cells?
    pub fn contains(&self, p: Point) -> (r: bool)
        ensures
            r == (p.line == self.start.line && self.start.column <= p.column <= self.end.column),
    {
        p.line == self.start.line && p.column >= self.start.column && p.column <= self.end.column
    }
}

/// The length of the URL scheme that stands at `i`, if one does. The longer
/// of two that share a beginning comes first.
pub open spec fn scheme_at(s: Seq<char>, i: int) -> Option<nat> {
    if occurs_at(s, "https://"@, i) {
        Some(8)
    } else if occurs_at(s, "http://"@, i) {
        Some(7)
    } else if occurs_at(s, "ftp://"@, i) {
        Some(6)
    } else if occurs_at(s, "file://"@, i) {
        Some(7)
    } else if occurs_at(s, "mailto:"@, i) {
        Some(7)
    } else {
        None
    }
}

/// Does `text` stand in `chars` at `i`?
pub fn text_at(chars: &[char], text: &str, i: usize) -> (r: bool)
    ensures
        r == occurs_at(chars@, text@, i as int),
{
    chars_occur_at(chars, chars_of(text).as_slice(), i)
}

/// The length of the URL scheme that stands at `i`, if one does.
pub fn match_scheme_at(chars: &[char], i: usize) -> (r: Option<usize>)
    ensures
        match r {
            Some(n) => scheme_at(chars@, i as int) == Some(n as nat) && i + n <= chars@.len()
                && n > 0,
            None => scheme_at(chars@, i as int) is None,
        },
{
    proof {
        lemma_scheme_lengths();
    }
    if text_at(chars, "https://", i) {
        Some(8)
    } else if text_at(chars, "http://", i) {
        Some(7)
    } else if text_at(chars, "ftp://", i) {
        Some(6)
    } else if text_at(chars, "file://", i) {
        Some(7)
    } else if text_at(chars, "mailto:", i) {
        Some(7)
    } else {
        None
    }
}

/// The lengths of the schemes.
proof fn lemma_scheme_lengths()
    ensures
        "https://"@.len() == 8,
        "http://"@.len() == 7,
        "ftp://"@.len() == 6,
        "file://"@.len() == 7,
        "mailto:"@.len() == 7,
{
    reveal_strlit("https://");
    reveal_strlit("http://");
    reveal_strlit("ftp://");
    reveal_strlit("file://");
    reveal_strlit("mailto:");
}

/// May `c` stand in a URL?
pub open spec fn url_char(c: char) -> bool {
    !whitespace(c) && !control(c) && c != '<' && c != '>' && c != '"' && c != '`' && c != '|' && c
        != '\\' && c != '^' && c != '{' && c != '}'
}

/// May `c` stand in a URL?
pub fn is_url_char(c: char) -> (r: bool)
    ensures
        r == url_char(c),
{
    !is_whitespace(c) && !is_control(c) && c != '<' && c != '>' && c != '"' && c != '`' && c != '|'
        && c != '\\' && c != '^' && c != '{' && c != '}'
}

/// Does `c` more often end a sentence than a URL?
pub open spec fn url_punctuation(c: char) -> bool {
    c == '.' || c == ',' || c == ';' || c == ':' || c == '!' || c == '?' || c == ')' || c == ']'
        || c == '}' || c == '\'' || c == '"'
}

/// Does `c` more often end a sentence than a URL?
fn is_url_punctuation(c: char) -> (r: bool)
    ensures
        r == url_punctuation(c),
{
    c == '.' || c == ',' || c == ';' || c == ':' || c == '!' || c == '?' || c == ')' || c == ']'
        || c == '}' || c == '\'' || c == '"'
}

/// The end of the run of URL characters from `from` on.
pub open spec fn url_run_end(s: Seq<char>, from: int) -> int
    decreases s.len() - from,
{
    if 0 <= from < s.len() && url_char(s[from]) {
        url_run_end(s, from + 1)
    } else {
        from
    }
}

/// `end`, moved back over punctuation as far as `floor`.
pub open spec fn url_trimmed_end(s: Seq<char>, floor: int, end: int) -> int
    decreases end - floor,
{
    if end > floor && url_punctuation(s[end - 1]) {
        url_trimmed_end(s, floor, end - 1)
    } else {
        end
    }
}

/// The end of the URL whose scheme of length `n` stands at `i`.
pub open spec fn url_end(s: Seq<char>, i: int, n: nat) -> int {
    url_trimmed_end(s, i + n, url_run_end(s, i + n))
}

/// A URL in a row: its first and last column, and its text.
pub struct UrlView {
    pub first: int,
    pub last: int,
    pub url: Seq<char>,
}

/// The URLs of a row from column `i` on, left to right. A scheme with nothing
/// after it is none.
pub open spec fn urls_from(s: Seq<char>, i: int) -> Seq<UrlView>
    decreases s.len() - i,
{
    if i < 0 || i >= s.len() {
        Seq::empty()
    } else {
        match scheme_at(s, i) {
            Some(n) if url_end(s, i, n) > i + n && url_end(s, i, n) <= s.len() => {
                let end = url_end(s, i, n);
                seq![UrlView { first: i, last: end - 1, url: s.subrange(i, end) }] + urls_from(
                    s,
                    end,
                )
            },
            _ => urls_from(s, i + 1),
        }
    }
}

/// The views of triples of first column, last column and text.
pub open spec fn urls_view(urls: Seq<(usize, usize, String)>) -> Seq<UrlView> {
    urls.map_values(
        |t: (usize, usize, String)| UrlView { first: t.0 as int, last: t.1 as int, url: t.2@ },
    )
}

/// A URL ends within the row.
proof fn lemma_url_end_bounds(s: Seq<char>, from: int)
    requires
        0 <= from <= s.len(),
    ensures
        from <= url_run_end(s, from) <= s.len(),
        forall|k: int| from <= k < url_run_end(s, from) ==> url_char(#[trigger] s[k]),
    decreases s.len() - from,
{
    if from < s.len() && url_char(s[from]) {
        lemma_url_end_bounds(s, from + 1);
    }
}

/// Trimming stays above the floor and leaves no punctuation at the end.
proof fn lemma_url_trim_bounds(s: Seq<char>, floor: int, end: int)
    requires
        0 <= floor <= end <= s.len(),
    ensures
        floor <= url_trimmed_end(s, floor, end) <= end,
        url_trimmed_end(s, floor, end) > floor ==> !url_punctuation(
            s[url_trimmed_end(s, floor, end) - 1],
        ),
    decreases end - floor,
{
    if end > floor && url_punctuation(s[end - 1]) {
        lemma_url_trim_bounds(s, floor, end - 1);
    }
}

/// Finds the URLs of a row: first column, last column, text.
///
/// Punctuation at the end that is more likely the sentence's is left out.
pub fn find_urls_in_chars(chars: &[char]) -> (out: Vec<(usize, usize, String)>)
    ensures
        urls_view(out@) == urls_from(chars@, 0),
{
    let ghost s = chars@;
    let total: usize = chars.len();
    let mut out: Vec<(usize, usize, String)> = Vec::new();
    let mut i: usize = 0;
    assert(urls_view(out@) + urls_from(s, 0) =~= urls_from(s, 0));
    while i < total
        invariant
            i <= total,
            total == chars@.len(),
            s == chars@,
            urls_view(out@) + urls_from(s, i as int) == urls_from(s, 0),
        decreases total - i,
    {
        if let Some(n) = match_scheme_at(chars, i) {
            let floor: usize = i + n;
            let mut end: usize = floor;
            while end < total && is_url_char(chars[end])
                invariant
                    floor <= end <= total,
                    total == chars@.len(),
                    s == chars@,
                    url_run_end(s, floor as int) == url_run_end(s, end as int),
                decreases total - end,
            {
                end += 1;
            }
            while end > floor && is_url_punctuation(chars[end - 1])
                invariant
                    floor <= end <= total,
                    total == chars@.len(),
                    s == chars@,
                    url_trimmed_end(s, floor as int, url_run_end(s, floor as int))
                        == url_trimmed_end(s, floor as int, end as int),
                decreases end,
            {
                end -= 1;
            }
            assert(end == url_end(s, i as int, n as nat));
            if end > floor {
                let ghost before = out@;
                let url = string_between(chars, i, end);
                let ghost v = UrlView { first: i as int, last: end - 1, url: url@ };
                out.push((i, end - 1, url));
                assert(urls_view(out@) =~= urls_view(before).push(v));
                assert(urls_view(out@) + urls_from(s, end as int) =~= urls_view(before) + urls_from(
                    s,
                    i as int,
                ));
                i = end;
                continue;
            }
        }
        i += 1;
    }
    assert(urls_view(out@) =~= urls_from(s, 0));
    out
}

/// The links of one row: its URLs, at line `line`.
pub open spec fn row_links(row: Seq<char>, line: i32) -> Seq<LinkView> {
    urls_from(row, 0).map_values(
        |u: UrlView|
            LinkView {
                start: Point { line, column: u.first as usize },
                end: Point { line, column: u.last as usize },
                url: u.url,
            },
    )
}

/// The links of the first `n` rows of a viewport scrolled back by `offset`.
pub open spec fn viewport_links(rows: Seq<Seq<char>>, offset: int, n: int) -> Seq<LinkView>
    decreases n,
{
    if n <= 0 {
        Seq::empty()
    } else {
        viewport_links(rows, offset, n - 1) + row_links(rows[n - 1], (n - 1 - offset) as i32)
    }
}

/// Finds the URLs of a viewport, row by row.
pub fn scan_viewport_links(v: &Viewport) -> (out: Vec<LinkSpan>)
    requires
        v.wf(),
    ensures
        links_view(out@) == viewport_links(v.text(), v.offset as int, v.text().len() as int),
{
    let mut out: Vec<LinkSpan> = Vec::new();
    let mut i: usize = 0;
    assert(links_view(out@) =~= Seq::empty());
    while i < v.rows.len()
        invariant
            i <= v.rows@.len(),
            v.wf(),
            links_view(out@) == viewport_links(v.text(), v.offset as int, i as int),
        decreases v.rows@.len() - i,
    {
        let line: i32 = i as i32 - v.offset;
        let found = find_urls_in_chars(v.rows[i].as_slice());
        let ghost row = v.text()[i as int];
        let ghost before = links_view(out@);
        let ghost links = row_links(row, line);
        assert(row == v.rows@[i as int]@);
        let mut k: usize = 0;
        while k < found.len()
            invariant
                k <= found@.len(),
                urls_view(found@) == urls_from(row, 0),
                links == row_links(row, line),
                links_view(out@) == before + links.take(k as int),
            decreases found@.len() - k,
        {
            assert(urls_view(found@)[k as int].first == found@[k as int].0);
            let link = LinkSpan {
                start: Point { line, column: found[k].0 },
                end: Point { line, column: found[k].1 },
                url: found[k].2.clone(),
            };
            let ghost done = out@;
            out.push(link);
            assert(links_view(out@) =~= links_view(done).push(link@));
            assert(link@ == links[k as int]);
            assert(links.take(k + 1) =~= links.take(k as int).push(link@));
            assert(links_view(out@) =~= before + links.take(k + 1));
            k += 1;
        }
        assert(urls_view(found@).len() == found@.len());
        assert(links.take(k as int) =~= links);
        i += 1;
    }
    out
}

/// Finds the URLs that a grid shows, row by row.
pub fn scan_visible_links(
    grid: &alacritty_terminal::grid::Grid<alacritty_terminal::term::cell::Cell>,
) -> (out: Vec<LinkSpan>)
    requires
        numbered(*grid),
    ensures
        links_view(out@) == viewport_links(
            shown_rows(*grid),
            shown_offset(*grid) as int,
            shown_rows(*grid).len() as int,
        ),
{
    match read_viewport(grid) {
        Some(v) => scan_viewport_links(&v),
        None => Vec::new(),
    }
}

/// Finds the URLs that a grid shows. `None` where it is scrolled back further than
/// it keeps lines, or where their numbers do not fit.
pub fn visible_links(
    grid: &alacritty_terminal::grid::Grid<alacritty_terminal::term::cell::Cell>,
) -> (r: Option<Vec<LinkSpan>>)
    ensures
        match r {
            Some(out) => numbered(*grid) && links_view(out@) == viewport_links(
                shown_rows(*grid),
                shown_offset(*grid) as int,
                shown_rows(*grid).len() as int,
            ),
            None => !numbered(*grid),
        },
{
    match read_viewport(grid) {
        Some(v) => Some(scan_viewport_links(&v)),
        None => None,
    }
}

// ---- laws --------------------------------------------------------------

/// Is `u` a URL of the row: a scheme, something after it that may stand in a
/// URL, and no punctuation at the end?
pub open spec fn is_url_of(s: Seq<char>, u: UrlView) -> bool {
    &&& 0 <= u.first <= u.last < s.len()
    &&& u.url == s.subrange(u.first, u.last + 1)
    &&& scheme_at(s, u.first) matches Some(n) && u.first + n <= u.last && (forall|k: int|
        u.first + n <= k <= u.last ==> url_char(#[trigger] s[k]))
    &&& !url_punctuation(s[u.last])
}

/// A scheme ends within the row.
proof fn lemma_scheme_fits(s: Seq<char>, i: int)
    ensures
        scheme_at(s, i) matches Some(n) ==> 0 <= i && i + n <= s.len() && n > 0,
{
    lemma_scheme_lengths();
}

/// What is found from `i` on stands at or after `i`, in order and apart, and
/// each is a URL.
pub proof fn law_urls_are_urls_in_order(s: Seq<char>, i: int)
    requires
        0 <= i,
    ensures
        forall|k: int|
            0 <= k < urls_from(s, i).len() ==> is_url_of(s, #[trigger] urls_from(s, i)[k])
                && urls_from(s, i)[k].first >= i,
        forall|k: int, m: int|
            0 <= k < m < urls_from(s, i).len() ==> (#[trigger] urls_from(s, i)[k]).last < (
            #[trigger] urls_from(s, i)[m]).first,
    decreases s.len() - i,
{
    let all = urls_from(s, i);
    if i < s.len() {
        lemma_scheme_fits(s, i);
        match scheme_at(s, i) {
            Some(n) if url_end(s, i, n) > i + n && url_end(s, i, n) <= s.len() => {
                let end = url_end(s, i, n);
                lemma_url_end_bounds(s, i + n);
                lemma_url_trim_bounds(s, i + n, url_run_end(s, i + n));
                law_urls_are_urls_in_order(s, end);
                let rest = urls_from(s, end);
                let first = UrlView { first: i, last: end - 1, url: s.subrange(i, end) };
                assert(all == seq![first] + rest);
                assert(is_url_of(s, first));
                assert forall|k: int| 0 <= k < all.len() implies is_url_of(s, #[trigger] all[k])
                    && all[k].first >= i by {
                    if k > 0 {
                        assert(all[k] == rest[k - 1]);
                    } else {
                        assert(all[k] == first);
                    }
                }
                assert forall|k: int, m: int| 0 <= k < m < all.len() implies (#[trigger] all[k]).last
                    < (#[trigger] all[m]).first by {
                    assert(all[m] == rest[m - 1]);
                    if k > 0 {
                        assert(all[k] == rest[k - 1]);
                    }
                }
            },
            _ => {
                law_urls_are_urls_in_order(s, i + 1);
                assert(all == urls_from(s, i + 1));
            },
        }
    }
}

/// No URL is missed: a scheme that has something of a URL after it stands in
/// one of the URLs found.
pub proof fn law_no_url_is_missed(s: Seq<char>, i: int, p: int)
    requires
        0 <= i <= p,
        scheme_at(s, p) matches Some(n) && url_end(s, p, n) > p + n,
    ensures
        exists|k: int|
            0 <= k < urls_from(s, i).len() && (#[trigger] urls_from(s, i)[k]).first <= p
                <= urls_from(s, i)[k].last,
    decreases s.len() - i,
{
    let all = urls_from(s, i);
    lemma_scheme_fits(s, p);
    lemma_scheme_fits(s, i);
    match scheme_at(s, i) {
        Some(n) if url_end(s, i, n) > i + n && url_end(s, i, n) <= s.len() => {
            let end = url_end(s, i, n);
            let first = UrlView { first: i, last: end - 1, url: s.subrange(i, end) };
            let rest = urls_from(s, end);
            assert(all == seq![first] + rest);
            assert(all[0] == first);
            if p >= end {
                law_no_url_is_missed(s, end, p);
                let k = choose|k: int|
                    0 <= k < rest.len() && (#[trigger] rest[k]).first <= p <= rest[k].last;
                assert(all[k + 1] == rest[k]);
            }
        },
        _ => {
            if p == i {
                let n = scheme_at(s, i)->0;
                lemma_url_end_bounds(s, i + n);
                lemma_url_trim_bounds(s, i + n, url_run_end(s, i + n));
            } else {
                law_no_url_is_missed(s, i + 1, p);
            }
        },
    }
}

/// The five schemes, each with its length, and no other.
pub proof fn law_five_schemes(s: Seq<char>, i: int)
    ensures
        occurs_at(s, "https://"@, i) ==> scheme_at(s, i) == Some(8nat),
        occurs_at(s, "http://"@, i) ==> scheme_at(s, i) == Some(7nat),
        occurs_at(s, "ftp://"@, i) ==> scheme_at(s, i) == Some(6nat),
        occurs_at(s, "file://"@, i) ==> scheme_at(s, i) == Some(7nat),
        occurs_at(s, "mailto:"@, i) ==> scheme_at(s, i) == Some(7nat),
        scheme_at(s, i) is Some ==> occurs_at(s, "https://"@, i) || occurs_at(s, "http://"@, i)
            || occurs_at(s, "ftp://"@, i) || occurs_at(s, "file://"@, i) || occurs_at(
            s,
            "mailto:"@,
            i,
        ),
{
    lemma_scheme_lengths();
    reveal_strlit("https://");
    reveal_strlit("http://");
    reveal_strlit("ftp://");
    reveal_strlit("file://");
    reveal_strlit("mailto:");
    crate::text::law_occurs_character_by_character(s, "https://"@, i);
    crate::text::law_occurs_character_by_character(s, "http://"@, i);
    crate::text::law_occurs_character_by_character(s, "ftp://"@, i);
    crate::text::law_occurs_character_by_character(s, "file://"@, i);
    crate::text::law_occurs_character_by_character(s, "mailto:"@, i);
    if occurs_at(s, "https://"@, i) {
        assert("https://"@[4] == s[i + 4]);
        assert("https://"@[0] == s[i + 0]);
    }
    if occurs_at(s, "http://"@, i) {
        assert("http://"@[4] == s[i + 4]);
        assert("http://"@[0] == s[i + 0]);
    }
    if occurs_at(s, "ftp://"@, i) {
        assert("ftp://"@[0] == s[i + 0]);
        assert("ftp://"@[1] == s[i + 1]);
    }
    if occurs_at(s, "file://"@, i) {
        assert("file://"@[0] == s[i + 0]);
        assert("file://"@[1] == s[i + 1]);
    }
    if occurs_at(s, "mailto:"@, i) {
        assert("mailto:"@[0] == s[i + 0]);
    }
}

/// Where the run of characters ends, no URL character stands.
proof fn lemma_run_stops(s: Seq<char>, from: int)
    requires
        0 <= from <= s.len(),
    ensures
        url_run_end(s, from) == s.len() || !url_char(s[url_run_end(s, from)]),
    decreases s.len() - from,
{
    if from < s.len() && url_char(s[from]) {
        lemma_run_stops(s, from + 1);
    }
}

/// What is trimmed off is punctuation.
proof fn lemma_trimmed_is_punctuation(s: Seq<char>, floor: int, end: int, k: int)
    requires
        0 <= floor <= end <= s.len(),
        url_trimmed_end(s, floor, end) <= k < end,
    ensures
        url_punctuation(s[k]),
    decreases end - floor,
{
    if end > floor && url_punctuation(s[end - 1]) && k < end - 1 {
        lemma_trimmed_is_punctuation(s, floor, end - 1, k);
    }
}

/// Could nothing behind column `last` belong to a URL? Up to `stop` the punctuation of
/// a sentence stands there, and at `stop` the end of the row, white space, a control
/// character or one of `< > " ` | \ ^ { }`.
pub open spec fn nothing_more(s: Seq<char>, last: int, stop: int) -> bool {
    &&& last < stop <= s.len()
    &&& forall|m: int|
        last < m < stop ==> {
            let c = #[trigger] s[m];
            c == '.' || c == ',' || c == ';' || c == ':' || c == '!' || c == '?' || c == ')' || c
                == ']' || c == '}' || c == '\'' || c == '"'
        }
    &&& stop < s.len() ==> {
        let c = s[stop];
        whitespace(c) || control(c) || c == '<' || c == '>' || c == '"' || c == '`' || c == '|' || c
            == '\\' || c == '^' || c == '{' || c == '}'
    }
}

/// A URL reaches as far as it may. From its scheme on it holds no white space, no
/// control character and none of `< > " ` | \ ^ { }`, and it does not end in the
/// punctuation of a sentence. Behind it stands such punctuation alone, and then the
/// end of the row, white space, a control character or one of the characters above.
pub proof fn law_urls_reach_as_far_as_they_may(s: Seq<char>, i: int, k: int)
    requires
        0 <= i,
        0 <= k < urls_from(s, i).len(),
    ensures
        ({
            let u = urls_from(s, i)[k];
            let n = scheme_at(s, u.first).unwrap();
            &&& scheme_at(s, u.first) is Some
            &&& forall|m: int|
                u.first + n <= m <= u.last ==> {
                    let c = #[trigger] s[m];
                    !whitespace(c) && !control(c) && c != '<' && c != '>' && c != '"' && c != '`'
                        && c != '|' && c != '\\' && c != '^' && c != '{' && c != '}'
                }
            &&& ({
                let c = s[u.last];
                c != '.' && c != ',' && c != ';' && c != ':' && c != '!' && c != '?' && c != ')'
                    && c != ']' && c != '}' && c != '\'' && c != '"'
            })
            &&& exists|stop: int| #[trigger] nothing_more(s, u.last, stop)
        }),
    decreases s.len() - i,
{
    law_urls_are_urls_in_order(s, i);
    let all = urls_from(s, i);
    if i < s.len() {
        lemma_scheme_fits(s, i);
        match scheme_at(s, i) {
            Some(n) if url_end(s, i, n) > i + n && url_end(s, i, n) <= s.len() => {
                let end = url_end(s, i, n);
                let rest = urls_from(s, end);
                let first = UrlView { first: i, last: end - 1, url: s.subrange(i, end) };
                assert(all == seq![first] + rest);
                if k > 0 {
                    assert(all[k] == rest[k - 1]);
                    law_urls_reach_as_far_as_they_may(s, end, k - 1);
                } else {
                    assert(all[k] == first);
                    let stop = url_run_end(s, i + n);
                    lemma_url_end_bounds(s, i + n);
                    lemma_url_trim_bounds(s, i + n, stop);
                    lemma_run_stops(s, i + n);
                    assert forall|m: int| first.last < m < stop implies url_punctuation(
                        #[trigger] s[m],
                    ) by {
                        lemma_trimmed_is_punctuation(s, i + n, stop, m);
                    }
                    assert(nothing_more(s, first.last, stop));
                }
            },
            _ => {
                assert(all == urls_from(s, i + 1));
                law_urls_reach_as_far_as_they_may(s, i + 1, k);
            },
        }
    }
}

/// Where a run of URL characters reaches at least.
proof fn lemma_run_reaches(s: Seq<char>, from: int, q: int)
    requires
        0 <= from <= q < s.len(),
        forall|m: int| from <= m <= q ==> url_char(#[trigger] s[m]),
    ensures
        url_run_end(s, from) > q,
    decreases q - from,
{
    assert(url_char(s[from]));
    if from < q {
        lemma_run_reaches(s, from + 1, q);
    } else {
        if from + 1 < s.len() {
            lemma_url_end_bounds(s, from + 1);
        }
    }
}

/// A URL that stands in a row is found whole: where a scheme stands at `p`, none of
/// the characters behind it up to `q` is white space, a control character or one of
/// `< > " ` | \ ^ { }`, and the one at `q` is no punctuation of a sentence, then one of
/// the URLs found holds everything from `p` to `q`.
pub proof fn law_urls_are_found_whole(s: Seq<char>, i: int, p: int, q: int)
    requires
        0 <= i <= p <= q < s.len(),
        scheme_at(s, p) is Some,
        p + scheme_at(s, p).unwrap() <= q,
        forall|m: int|
            p + scheme_at(s, p).unwrap() <= m <= q ==> {
                let c = #[trigger] s[m];
                !whitespace(c) && !control(c) && c != '<' && c != '>' && c != '"' && c != '`' && c
                    != '|' && c != '\\' && c != '^' && c != '{' && c != '}'
            },
        ({
            let c = s[q];
            c != '.' && c != ',' && c != ';' && c != ':' && c != '!' && c != '?' && c != ')' && c
                != ']' && c != '}' && c != '\'' && c != '"'
        }),
    ensures
        exists|k: int|
            0 <= k < urls_from(s, i).len() && (#[trigger] urls_from(s, i)[k]).first <= p && q
                <= urls_from(s, i)[k].last,
{
    let n = scheme_at(s, p).unwrap();
    lemma_scheme_fits(s, p);
    lemma_run_reaches(s, p + n, q);
    lemma_url_end_bounds(s, p + n);
    lemma_url_trim_bounds(s, p + n, url_run_end(s, p + n));
    if url_end(s, p, n) <= q {
        lemma_trimmed_is_punctuation(s, p + n, url_run_end(s, p + n), q);
    }
    law_no_url_is_missed(s, i, p);
    let k = choose|k: int|
        0 <= k < urls_from(s, i).len() && (#[trigger] urls_from(s, i)[k]).first <= p
            <= urls_from(s, i)[k].last;
    let u = urls_from(s, i)[k];
    law_urls_are_urls_in_order(s, i);
    law_urls_reach_as_far_as_they_may(s, i, k);
    if u.last < q {
        let stop = choose|stop: int| #[trigger] nothing_more(s, u.last, stop);
        lemma_scheme_chars(s, p);
        assert(stop <= q) by {
            if stop > q {
                assert(url_punctuation(s[q]));
            }
        }
        if stop < p + n {
            assert(url_char(s[stop]));
        }
    }
}

/// The characters of a scheme may stand in a URL.
proof fn lemma_scheme_chars(s: Seq<char>, i: int)
    requires
        scheme_at(s, i) is Some,
    ensures
        forall|m: int| i <= m < i + scheme_at(s, i).unwrap() ==> url_char(#[trigger] s[m]),
{
    lemma_scheme_lengths();
    reveal_strlit("https://");
    reveal_strlit("http://");
    reveal_strlit("ftp://");
    reveal_strlit("file://");
    reveal_strlit("mailto:");
    let n = scheme_at(s, i).unwrap();
    let word = if occurs_at(s, "https://"@, i) {
        "https://"@
    } else if occurs_at(s, "http://"@, i) {
        "http://"@
    } else if occurs_at(s, "ftp://"@, i) {
        "ftp://"@
    } else if occurs_at(s, "file://"@, i) {
        "file://"@
    } else {
        "mailto:"@
    };
    assert(occurs_at(s, word, i));
    assert forall|m: int| i <= m < i + n implies url_char(#[trigger] s[m]) by {
        assert(s.subrange(i, i + n)[m - i] == word[m - i]);
        assert(url_char(word[0]) && url_char(word[1]) && url_char(word[2]) && url_char(word[3])
            && url_char(word[4]) && url_char(word[5]));
        let j = m - i;
        assert(j == 0 || j == 1 || j == 2 || j == 3 || j == 4 || j == 5 || j == 6 || j == 7);
    }
}

/// Each link on a screen stands in a row that is shown, at the columns of its text,
/// and its line is the number of that row less the lines scrolled back.
pub proof fn law_links_stand_where_they_are_shown(
    rows: Seq<Seq<char>>,
    offset: int,
    n: int,
    k: int,
)
    requires
        0 <= offset,
        n <= rows.len(),
        rows.len() + offset <= i32::MAX,
        forall|r: int| 0 <= r < rows.len() ==> (#[trigger] rows[r]).len() <= usize::MAX,
        0 <= k < viewport_links(rows, offset, n).len(),
    ensures
        ({
            let l = viewport_links(rows, offset, n)[k];
            let r = l.start.line + offset;
            &&& 0 <= r < n
            &&& l.end.line == l.start.line
            &&& l.start.column <= l.end.column < rows[r].len()
            &&& l.url == rows[r].subrange(l.start.column as int, l.end.column + 1)
        }),
    decreases n,
{
    if n > 0 {
        let before = viewport_links(rows, offset, n - 1);
        let row = rows[n - 1];
        let links = row_links(row, (n - 1 - offset) as i32);
        if k < before.len() {
            law_links_stand_where_they_are_shown(rows, offset, n - 1, k);
        } else {
            law_urls_are_urls_in_order(row, 0);
            let u = urls_from(row, 0)[k - before.len()];
            assert(is_url_of(row, u));
            assert(viewport_links(rows, offset, n)[k] == links[k - before.len()]);
        }
    }
}

/// Every URL of every row that is shown is a link on the screen.
pub proof fn law_every_shown_url_is_a_link(
    rows: Seq<Seq<char>>,
    offset: int,
    n: int,
    r: int,
    j: int,
)
    requires
        0 <= r < n <= rows.len(),
        0 <= offset,
        rows.len() + offset <= i32::MAX,
        forall|q: int| 0 <= q < rows.len() ==> (#[trigger] rows[q]).len() <= usize::MAX,
        0 <= j < urls_from(rows[r], 0).len(),
    ensures
        exists|k: int|
            #![trigger viewport_links(rows, offset, n)[k]]
            0 <= k < viewport_links(rows, offset, n).len() && ({
                let l = viewport_links(rows, offset, n)[k];
                let u = urls_from(rows[r], 0)[j];
                &&& l.url == u.url
                &&& l.start.line == r - offset && l.end.line == r - offset
                &&& l.start.column == u.first && l.end.column == u.last
            }),
    decreases n,
{
    let all = viewport_links(rows, offset, n);
    let before = viewport_links(rows, offset, n - 1);
    let links = row_links(rows[n - 1], (n - 1 - offset) as i32);
    assert(all == before + links);
    if r < n - 1 {
        law_every_shown_url_is_a_link(rows, offset, n - 1, r, j);
        let k = choose|k: int|
            #![trigger before[k]]
            0 <= k < before.len() && ({
                let l = before[k];
                let u = urls_from(rows[r], 0)[j];
                &&& l.url == u.url
                &&& l.start.line == r - offset && l.end.line == r - offset
                &&& l.start.column == u.first && l.end.column == u.last
            });
        assert(all[k] == before[k]);
    } else {
        law_urls_are_urls_in_order(rows[r], 0);
        assert(is_url_of(rows[r], urls_from(rows[r], 0)[j]));
        assert(all[before.len() + j] == links[j]);
    }
}

/// What [`find_urls_in_chars`] gives: the columns of each URL and its text, which is
/// what stands there, from its scheme on.
pub proof fn law_urls_as_found(chars: &[char], out: Vec<(usize, usize, String)>, k: int)
    requires
        call_ensures(find_urls_in_chars, (chars,), out),
        0 <= k < out@.len(),
    ensures
        ({
            let (first, last, url) = out@[k];
            &&& first <= last < chars@.len()
            &&& url@ == chars@.subrange(first as int, last + 1)
            &&& scheme_at(chars@, first as int) is Some
            &&& exists|stop: int| #[trigger] nothing_more(chars@, last as int, stop)
        }),
{
    law_urls_are_urls_in_order(chars@, 0);
    law_urls_reach_as_far_as_they_may(chars@, 0, k);
    assert(urls_view(out@)[k] == UrlView {
        first: out@[k].0 as int,
        last: out@[k].1 as int,
        url: out@[k].2@,
    });
    assert(is_url_of(chars@, urls_from(chars@, 0)[k]));
}

/// A URL that stands in a row is among those that [`find_urls_in_chars`] gives.
pub proof fn law_no_url_is_passed_over(
    chars: &[char],
    out: Vec<(usize, usize, String)>,
    p: int,
    q: int,
)
    requires
        call_ensures(find_urls_in_chars, (chars,), out),
        0 <= p <= q < chars@.len(),
        scheme_at(chars@, p) is Some,
        p + scheme_at(chars@, p).unwrap() <= q,
        forall|m: int|
            p + scheme_at(chars@, p).unwrap() <= m <= q ==> {
                let c = #[trigger] chars@[m];
                !whitespace(c) && !control(c) && c != '<' && c != '>' && c != '"' && c != '`' && c
                    != '|' && c != '\\' && c != '^' && c != '{' && c != '}'
            },
        ({
            let c = chars@[q];
            c != '.' && c != ',' && c != ';' && c != ':' && c != '!' && c != '?' && c != ')' && c
                != ']' && c != '}' && c != '\'' && c != '"'
        }),
    ensures
        exists|k: int|
            0 <= k < out@.len() && (#[trigger] out@[k]).0 <= p && q <= out@[k].1,
{
    law_urls_are_found_whole(chars@, 0, p, q);
    let urls = urls_from(chars@, 0);
    let k = choose|k: int|
        0 <= k < urls.len() && (#[trigger] urls[k]).first <= p && q <= urls[k].last;
    assert(urls_view(out@)[k].first == out@[k].0 && urls_view(out@)[k].last == out@[k].1);
}

/// A point is on a link where it is on its line, between its ends.
pub proof fn law_points_on_a_link(link: LinkSpan, p: Point, r: bool)
    requires
        call_ensures(LinkSpan::contains, (&link, p), r),
    ensures
        r ==> p.line == link.start.line && link.start.column <= p.column && p.column
            <= link.end.column,
        !r ==> p.line != link.start.line || p.column < link.start.column || p.column
            > link.end.column,
{
}

} // verus!
