//! Ranking and filtering for the history overlay.
//!
//! A query is cut at white space; every word must stand somewhere in the
//! command, whatever the case. What matches is ordered by the directory (the
//! current one first), then by the number of whole-word hits, then by whether
//! the words stand in the order of the query, then by recency; entries equal
//! in all of these keep their order.

use vstd::prelude::*;

use crate::history::db::Entry;
use crate::json::strings_view;
use crate::text::{
    ascii_alphanumeric, chars_occur, chars_occur_at, chars_of, is_whitespace, lowercase,
    lowercase_chars, occurs, occurs_at, same_text, string_between, whitespace,
};

verus! {

// ---- the words of a query ----------------------------------------------

/// The length of the run of non-blank characters at the front.
pub open spec fn word_len(s: Seq<char>) -> nat
    decreases s.len(),
{
    if s.len() == 0 || whitespace(s[0]) {
        0
    } else {
        1 + word_len(s.skip(1))
    }
}

/// A word is no longer than the text.
pub proof fn lemma_word_len(s: Seq<char>)
    ensures
        word_len(s) <= s.len(),
        s.len() > 0 && !whitespace(s[0]) ==> word_len(s) > 0,
        forall|i: int| 0 <= i < word_len(s) ==> !whitespace(#[trigger] s[i]),
        word_len(s) < s.len() ==> whitespace(s[word_len(s) as int]),
    decreases s.len(),
{
    if s.len() > 0 && !whitespace(s[0]) {
        lemma_word_len(s.skip(1));
        assert forall|i: int| 0 <= i < word_len(s) implies !whitespace(#[trigger] s[i]) by {
            if i > 0 {
                assert(s[i] == s.skip(1)[i - 1]);
            }
        }
    }
}

/// The maximal runs of non-blank characters, in order.
pub open spec fn words_of(s: Seq<char>) -> Seq<Seq<char>>
    decreases s.len(),
{
    if s.len() == 0 {
        Seq::empty()
    } else if whitespace(s[0]) {
        words_of(s.skip(1))
    } else {
        proof {
            lemma_word_len(s);
        }
        seq![s.take(word_len(s) as int)] + words_of(s.skip(word_len(s) as int))
    }
}

/// The maximal runs of non-blank characters, in order.
pub fn split_words(s: &str) -> (out: Vec<String>)
    ensures
        strings_view(out@) == words_of(s@),
{
    let chars = chars_of(s);
    let ghost goal = words_of(s@);
    let mut out: Vec<String> = Vec::new();
    let mut i: usize = 0;
    assert(s@.skip(0) =~= s@);
    assert(goal =~= strings_view(out@) + words_of(s@.skip(0)));
    while i < chars.len()
        invariant
            i <= chars@.len(),
            chars@ == s@,
            goal == strings_view(out@) + words_of(s@.skip(i as int)),
        decreases chars@.len() - i,
    {
        let ghost rest = s@.skip(i as int);
        if is_whitespace(chars[i]) {
            assert(rest.skip(1) =~= s@.skip(i + 1));
            i += 1;
            continue;
        }
        let start: usize = i;
        proof {
            lemma_word_len(rest);
        }
        while i < chars.len() && !is_whitespace(chars[i])
            invariant
                start <= i <= chars@.len(),
                chars@ == s@,
                rest == s@.skip(start as int),
                word_len(rest) == (i - start) + word_len(s@.skip(i as int)),
            decreases chars@.len() - i,
        {
            assert(s@.skip(i as int).skip(1) =~= s@.skip(i + 1));
            i += 1;
        }
        let ghost before = out@;
        out.push(string_between(chars.as_slice(), start, i));
        assert(word_len(rest) == i - start);
        assert(s@.subrange(start as int, i as int) =~= rest.take(i - start));
        assert(rest.skip(i - start) =~= s@.skip(i as int));
        assert(strings_view(out@) =~= strings_view(before).push(rest.take(i - start)));
        assert(goal =~= strings_view(out@) + words_of(s@.skip(i as int)));
    }
    assert(s@.skip(i as int) =~= Seq::empty());
    assert(goal =~= strings_view(out@));
    out
}

/// The words of a query, each in lower case.
pub open spec fn query_words(query: Seq<char>) -> Seq<Seq<char>> {
    words_of(query).map_values(|w: Seq<char>| lowercase_chars(w))
}

/// The words of a query, each in lower case.
pub fn split_query_words(query: &str) -> (out: Vec<String>)
    ensures
        strings_view(out@) == query_words(query@),
{
    let words = split_words(query);
    let mut out: Vec<String> = Vec::new();
    let mut i: usize = 0;
    while i < words.len()
        invariant
            i <= words@.len(),
            strings_view(words@) == words_of(query@),
            out@.len() == i,
            forall|k: int| 0 <= k < i ==> (#[trigger] out@[k])@ == lowercase_chars(words@[k]@),
        decreases words@.len() - i,
    {
        out.push(lowercase(words[i].as_str()));
        i += 1;
    }
    assert forall|k: int| 0 <= k < out@.len() implies strings_view(out@)[k] == query_words(
        query@,
    )[k] by {
        assert(words_of(query@)[k] == words@[k]@);
        assert(out@[k]@ == lowercase_chars(words@[k]@));
    }
    assert(strings_view(out@) =~= query_words(query@));
    out
}

// ---- hits ------------------------------------------------------------

/// Is `c` part of a word: an ASCII letter, a digit or an underscore?
pub open spec fn word_char(c: char) -> bool {
    ascii_alphanumeric(c) || c == '_'
}

/// Is `c` part of a word?
pub fn is_word_char(c: char) -> (r: bool)
    ensures
        r == word_char(c),
{
    ('0' <= c && c <= '9') || ('a' <= c && c <= 'z') || ('A' <= c && c <= 'Z') || c == '_'
}

/// Does `word` stand at `at` with no word character on either side?
pub open spec fn whole_word_at(text: Seq<char>, word: Seq<char>, at: int) -> bool {
    &&& occurs_at(text, word, at)
    &&& at == 0 || !word_char(text[at - 1])
    &&& at + word.len() == text.len() || !word_char(text[at + word.len()])
}

/// The number of whole-word hits from `from` on, read left to right without
/// overlap. An occurrence inside a longer word is none, and hides none.
pub open spec fn whole_word_hits(text: Seq<char>, word: Seq<char>, from: int) -> nat
    decreases text.len() - from,
{
    if word.len() == 0 || from < 0 || from + word.len() > text.len() {
        0
    } else if whole_word_at(text, word, from) {
        1 + whole_word_hits(text, word, from + word.len())
    } else {
        whole_word_hits(text, word, from + 1)
    }
}

/// The number of whole-word hits of `word` in `text`, without overlap.
pub fn count_whole_word_hits(text: &[char], word: &[char]) -> (count: usize)
    ensures
        count == whole_word_hits(text@, word@, 0),
        count <= text@.len(),
{
    if word.len() == 0 {
        return 0;
    }
    let total: usize = text.len();
    let mut count: usize = 0;
    let mut i: usize = 0;
    while i <= total && word.len() <= total - i
        invariant
            total == text@.len(),
            word@.len() > 0,
            i <= total,
            count <= i,
            count + whole_word_hits(text@, word@, i as int) == whole_word_hits(text@, word@, 0),
        decreases total - i,
    {
        let end: usize = i + word.len();
        if chars_occur_at(text, word, i) && (i == 0 || !is_word_char(text[i - 1])) && (end == total
            || !is_word_char(text[end])) {
            count += 1;
            i = end;
        } else {
            i += 1;
        }
    }
    count
}

/// The position of the first occurrence of `needle` at or after `from`.
pub open spec fn first_occurrence<A>(hay: Seq<A>, needle: Seq<A>, from: int) -> Option<int>
    decreases hay.len() + 1 - from,
{
    if from < 0 || from + needle.len() > hay.len() {
        None
    } else if occurs_at(hay, needle, from) {
        Some(from)
    } else {
        first_occurrence(hay, needle, from + 1)
    }
}

/// An occurrence that is found is one, and none stands before it.
pub proof fn lemma_first_occurrence<A>(hay: Seq<A>, needle: Seq<A>, from: int)
    requires
        0 <= from,
    ensures
        match first_occurrence(hay, needle, from) {
            Some(at) => from <= at && occurs_at(hay, needle, at) && forall|k: int|
                from <= k < at ==> !occurs_at(hay, needle, k),
            None => forall|k: int| from <= k ==> !occurs_at(hay, needle, k),
        },
    decreases hay.len() + 1 - from,
{
    if from + needle.len() <= hay.len() && !occurs_at(hay, needle, from) {
        lemma_first_occurrence(hay, needle, from + 1);
    }
}

/// The position of the first occurrence of `needle` at or after `from`.
pub fn find_chars(hay: &[char], needle: &[char], from: usize) -> (r: Option<usize>)
    ensures
        match r {
            Some(at) => first_occurrence(hay@, needle@, from as int) == Some(at as int) && at
                + needle@.len() <= hay@.len(),
            None => first_occurrence(hay@, needle@, from as int) is None,
        },
{
    let total: usize = hay.len();
    let mut i: usize = from;
    while i <= total && needle.len() <= total - i
        invariant
            total == hay@.len(),
            from <= i,
            i <= total || i == from,
            first_occurrence(hay@, needle@, from as int) == first_occurrence(
                hay@,
                needle@,
                i as int,
            ),
        decreases total + 1 - i,
    {
        if chars_occur_at(hay, needle, i) {
            return Some(i);
        }
        if i == total {
            assert(needle@.len() == 0);
            assert(hay@.subrange(i as int, i as int) =~= needle@);
            return None;
        }
        i += 1;
    }
    None
}

/// Do the words stand in the text one after the other, from `from` on?
pub open spec fn in_order(text: Seq<char>, words: Seq<Seq<char>>, from: int) -> bool
    decreases words.len(),
{
    words.len() == 0 || match first_occurrence(text, words[0], from) {
        Some(at) => in_order(text, words.skip(1), at + words[0].len()),
        None => false,
    }
}

/// Do the words stand in the text one after the other?
pub fn words_appear_in_order(text: &[char], words: &Vec<Vec<char>>) -> (r: bool)
    ensures
        r == in_order(text@, words@.map_values(|w: Vec<char>| w@), 0),
{
    let ghost all = words@.map_values(|w: Vec<char>| w@);
    let total: usize = text.len();
    let mut cursor: usize = 0;
    let mut i: usize = 0;
    assert(all.skip(0) =~= all);
    while i < words.len()
        invariant
            i <= words@.len(),
            total == text@.len(),
            all == words@.map_values(|w: Vec<char>| w@),
            in_order(text@, all, 0) == in_order(text@, all.skip(i as int), cursor as int),
        decreases words@.len() - i,
    {
        assert(all.skip(i as int)[0] == words@[i as int]@);
        assert(all.skip(i as int).skip(1) =~= all.skip(i + 1));
        match find_chars(text, words[i].as_slice(), cursor) {
            Some(at) => {
                cursor = at + words[i].len();
            },
            None => return false,
        }
        i += 1;
    }
    true
}

// ---- ranking -----------------------------------------------------------

/// Does every word stand in the text?
pub open spec fn matches_words(text: Seq<char>, words: Seq<Seq<char>>) -> bool {
    forall|k: int| 0 <= k < words.len() ==> occurs(text, #[trigger] words[k])
}

/// The whole-word hits of all words, added up.
pub open spec fn total_hits(text: Seq<char>, words: Seq<Seq<char>>) -> nat
    decreases words.len(),
{
    if words.len() == 0 {
        0
    } else {
        total_hits(text, words.drop_last()) + whole_word_hits(text, words.last(), 0)
    }
}

/// Is the entry's directory the current one?
pub open spec fn same_cwd(current: Option<Seq<char>>, cwd: Option<String>) -> bool {
    match (current, cwd) {
        (Some(a), Some(b)) => a == b@,
        _ => false,
    }
}

/// What the place of an entry in the ranking depends on.
pub struct RankKey {
    pub cwd_match: bool,
    pub whole_words: nat,
    pub in_order: bool,
    pub started_at_ms: int,
    pub index: int,
}

/// The key of entry `i`, whose text in lower case is `lowered[i]`.
pub open spec fn rank_key(
    entries: Seq<Entry>,
    lowered: Seq<Seq<char>>,
    words: Seq<Seq<char>>,
    current: Option<Seq<char>>,
    i: int,
) -> RankKey {
    RankKey {
        cwd_match: same_cwd(current, entries[i].cwd),
        whole_words: total_hits(lowered[i], words),
        in_order: in_order(lowered[i], words, 0),
        started_at_ms: entries[i].started_at_ms as int,
        index: i,
    }
}

/// Does the entry with key `a` come before the one with key `b`?
pub open spec fn ranks_before(a: RankKey, b: RankKey) -> bool {
    if a.cwd_match != b.cwd_match {
        a.cwd_match
    } else if a.whole_words != b.whole_words {
        a.whole_words > b.whole_words
    } else if a.in_order != b.in_order {
        a.in_order
    } else if a.started_at_ms != b.started_at_ms {
        a.started_at_ms > b.started_at_ms
    } else {
        a.index < b.index
    }
}

/// Is `r` the ranking of `entries`: the best `limit` of those that match, and
/// nothing else, best first?
pub open spec fn is_ranking(
    entries: Seq<Entry>,
    lowered: Seq<Seq<char>>,
    words: Seq<Seq<char>>,
    current: Option<Seq<char>>,
    limit: nat,
    r: Seq<usize>,
) -> bool {
    &&& r.len() <= limit
    &&& forall|i: int|
        0 <= i < r.len() ==> (#[trigger] r[i]) < entries.len() && matches_words(
            lowered[r[i] as int],
            words,
        )
    &&& forall|i: int, j: int|
        0 <= i < j < r.len() ==> ranks_before(
            rank_key(entries, lowered, words, current, #[trigger] r[i] as int),
            rank_key(entries, lowered, words, current, #[trigger] r[j] as int),
        )
    &&& forall|k: int|
        0 <= k < entries.len() && matches_words(#[trigger] lowered[k], words) ==> r.contains(
            k as usize,
        ) || (r.len() == limit && forall|i: int|
            0 <= i < r.len() ==> ranks_before(
                rank_key(entries, lowered, words, current, #[trigger] r[i] as int),
                rank_key(entries, lowered, words, current, k),
            ))
}

/// A matching entry with what its place depends on.
struct Hit {
    idx: usize,
    cwd_match: bool,
    whole_words: u128,
    in_order: bool,
    started_at_ms: i64,
}

impl Hit {
    spec fn key(self) -> RankKey {
        RankKey {
            cwd_match: self.cwd_match,
            whole_words: self.whole_words as nat,
            in_order: self.in_order,
            started_at_ms: self.started_at_ms as int,
            index: self.idx as int,
        }
    }

    /// Does this hit come before a later entry `other`?
    fn outranks(&self, other: &Hit) -> (r: bool)
        requires
            self.idx < other.idx,
        ensures
            r == ranks_before(self.key(), other.key()),
    {
        if self.cwd_match != other.cwd_match {
            self.cwd_match
        } else if self.whole_words != other.whole_words {
            self.whole_words > other.whole_words
        } else if self.in_order != other.in_order {
            self.in_order
        } else {
            self.started_at_ms >= other.started_at_ms
        }
    }
}

/// The characters of each string.
fn split_chars(strings: &Vec<String>) -> (r: Vec<Vec<char>>)
    ensures
        r@.map_values(|w: Vec<char>| w@) == strings_view(strings@),
{
    let mut out: Vec<Vec<char>> = Vec::new();
    let mut i: usize = 0;
    while i < strings.len()
        invariant
            i <= strings@.len(),
            out@.len() == i,
            forall|k: int| 0 <= k < i ==> (#[trigger] out@[k])@ == strings@[k]@,
        decreases strings@.len() - i,
    {
        out.push(chars_of(strings[i].as_str()));
        i += 1;
    }
    assert(out@.map_values(|w: Vec<char>| w@) =~= strings_view(strings@));
    out
}

/// Does every word stand in the text?
fn has_all_words(text: &[char], words: &Vec<Vec<char>>) -> (r: bool)
    ensures
        r == matches_words(text@, words@.map_values(|w: Vec<char>| w@)),
{
    let ghost all = words@.map_values(|w: Vec<char>| w@);
    let mut i: usize = 0;
    while i < words.len()
        invariant
            i <= words@.len(),
            all == words@.map_values(|w: Vec<char>| w@),
            forall|k: int| 0 <= k < i ==> occurs(text@, #[trigger] all[k]),
        decreases words@.len() - i,
    {
        assert(all[i as int] == words@[i as int]@);
        if !chars_occur(text, words[i].as_slice()) {
            return false;
        }
        i += 1;
    }
    true
}

/// The whole-word hits of all words, added up.
fn add_hits(text: &[char], words: &Vec<Vec<char>>) -> (r: u128)
    ensures
        r == total_hits(text@, words@.map_values(|w: Vec<char>| w@)),
{
    let ghost all = words@.map_values(|w: Vec<char>| w@);
    let count: usize = words.len();
    let mut sum: u128 = 0;
    let mut i: usize = 0;
    while i < count
        invariant
            i <= count,
            count == words@.len(),
            all == words@.map_values(|w: Vec<char>| w@),
            sum == total_hits(text@, all.take(i as int)),
            sum <= i * 0xffff_ffff_ffff_ffff,
        decreases count - i,
    {
        let n: usize = count_whole_word_hits(text, words[i].as_slice());
        assert(all.take(i + 1).drop_last() =~= all.take(i as int));
        assert(all.take(i + 1).last() == words@[i as int]@);
        assert(i * 0xffff_ffff_ffff_ffff + 0xffff_ffff_ffff_ffff <= u128::MAX) by (nonlinear_arith)
            requires
                i <= 0xffff_ffff_ffff_ffffu64,
        ;
        sum = sum + n as u128;
        i += 1;
    }
    assert(all.take(i as int) =~= all);
    sum
}

/// Are the hits those of `entries[..upto]`, best first?
spec fn sorted_hits(
    entries: Seq<Entry>,
    lowered: Seq<Seq<char>>,
    words: Seq<Seq<char>>,
    current: Option<Seq<char>>,
    upto: int,
    hits: Seq<Hit>,
) -> bool {
    &&& forall|i: int|
        0 <= i < hits.len() ==> (#[trigger] hits[i]).idx < upto && matches_words(
            lowered[hits[i].idx as int],
            words,
        ) && hits[i].key() == rank_key(entries, lowered, words, current, hits[i].idx as int)
    &&& forall|i: int, j: int|
        0 <= i < j < hits.len() ==> ranks_before(
            (#[trigger] hits[i]).key(),
            (#[trigger] hits[j]).key(),
        )
    &&& forall|k: int|
        0 <= k < upto && matches_words(#[trigger] lowered[k], words) ==> exists|i: int|
            0 <= i < hits.len() && (#[trigger] hits[i]).idx == k
}

/// Puts a hit of a later entry in its place.
fn insert_hit(hits: &mut Vec<Hit>, hit: Hit)
    requires
        forall|i: int| 0 <= i < old(hits)@.len() ==> (#[trigger] old(hits)@[i]).idx < hit.idx,
        forall|i: int, j: int|
            0 <= i < j < old(hits)@.len() ==> ranks_before(
                (#[trigger] old(hits)@[i]).key(),
                (#[trigger] old(hits)@[j]).key(),
            ),
    ensures
        exists|at: int|
            0 <= at <= old(hits)@.len() && final(hits)@ == #[trigger] old(hits)@.insert(at, hit),
        forall|i: int, j: int|
            0 <= i < j < final(hits)@.len() ==> ranks_before(
                (#[trigger] final(hits)@[i]).key(),
                (#[trigger] final(hits)@[j]).key(),
            ),
{
    let ghost before = hits@;
    let mut at: usize = hits.len();
    while at > 0 && !hits[at - 1].outranks(&hit)
        invariant
            at <= hits@.len(),
            hits@ == before,
            forall|i: int| 0 <= i < hits@.len() ==> (#[trigger] hits@[i]).idx < hit.idx,
            forall|i: int| at <= i < hits@.len() ==> !ranks_before((#[trigger] hits@[i]).key(), hit.key()),
        decreases at,
    {
        at -= 1;
    }
    hits.insert(at, hit);
    let ghost after = hits@;
    assert(after == before.insert(at as int, hit));
    assert forall|i: int, j: int| 0 <= i < j < after.len() implies ranks_before(
        (#[trigger] after[i]).key(),
        (#[trigger] after[j]).key(),
    ) by {
        if i < at && j < at {
            assert(after[i] == before[i] && after[j] == before[j]);
        } else if i < at && j == at {
            assert(after[i] == before[i]);
            assert(ranks_before(before[at - 1].key(), hit.key()));
            if i < at - 1 {
                assert(ranks_before(before[i].key(), before[at - 1].key()));
            }
        } else if i < at {
            assert(after[i] == before[i] && after[j] == before[j - 1]);
        } else if i == at {
            assert(after[j] == before[j - 1]);
            assert(!ranks_before(before[j - 1].key(), hit.key()));
        } else {
            assert(after[i] == before[i - 1] && after[j] == before[j - 1]);
        }
    }
}

/// Ranks entries whose texts in lower case are given.
pub fn rank_lowered(
    entries: &[Entry],
    lowered: &Vec<String>,
    words: &Vec<String>,
    current_cwd: Option<&str>,
    limit: usize,
) -> (r: Vec<usize>)
    requires
        lowered@.len() == entries@.len(),
    ensures
        is_ranking(
            entries@,
            strings_view(lowered@),
            strings_view(words@),
            cwd_view(current_cwd),
            limit as nat,
            r@,
        ),
{
    let ghost low = strings_view(lowered@);
    let ghost ws = strings_view(words@);
    let ghost cur = cwd_view(current_cwd);
    let word_chars = split_chars(words);
    let mut hits: Vec<Hit> = Vec::new();
    let mut i: usize = 0;
    while i < entries.len()
        invariant
            i <= entries@.len(),
            lowered@.len() == entries@.len(),
            low == strings_view(lowered@),
            word_chars@.map_values(|w: Vec<char>| w@) == ws,
            cur == cwd_view(current_cwd),
            sorted_hits(entries@, low, ws, cur, i as int, hits@),
        decreases entries@.len() - i,
    {
        let text = chars_of(lowered[i].as_str());
        assert(text@ == low[i as int]);
        if has_all_words(text.as_slice(), &word_chars) {
            let cwd_match = match (current_cwd, &entries[i].cwd) {
                (Some(a), Some(b)) => same_text(a, b.as_str()),
                _ => false,
            };
            let hit = Hit {
                idx: i,
                cwd_match,
                whole_words: add_hits(text.as_slice(), &word_chars),
                in_order: words_appear_in_order(text.as_slice(), &word_chars),
                started_at_ms: entries[i].started_at_ms,
            };
            let ghost before = hits@;
            insert_hit(&mut hits, hit);
            proof {
                let at = choose|at: int|
                    0 <= at <= before.len() && hits@ == #[trigger] before.insert(at, hit);
                assert(hits@[at] == hit);
                assert forall|k: int|
                    0 <= k < i + 1 && matches_words(#[trigger] low[k], ws) implies exists|n: int|
                    0 <= n < hits@.len() && (#[trigger] hits@[n]).idx == k by {
                    if k < i {
                        let n = choose|n: int| 0 <= n < before.len() && (#[trigger] before[n]).idx == k;
                        if n < at {
                            assert(hits@[n] == before[n]);
                        } else {
                            assert(hits@[n + 1] == before[n]);
                        }
                    }
                }
                assert forall|n: int| 0 <= n < hits@.len() implies (#[trigger] hits@[n]).idx < i + 1
                    && matches_words(low[hits@[n].idx as int], ws) && hits@[n].key() == rank_key(
                    entries@,
                    low,
                    ws,
                    cur,
                    hits@[n].idx as int,
                ) by {
                    if n < at {
                        assert(hits@[n] == before[n]);
                    } else if n > at {
                        assert(hits@[n] == before[n - 1]);
                    }
                }
            }
        }
        i += 1;
    }
    let mut out: Vec<usize> = Vec::new();
    let mut k: usize = 0;
    while k < hits.len() && k < limit
        invariant
            k <= hits@.len(),
            k <= limit,
            out@.len() == k,
            forall|n: int| 0 <= n < k ==> #[trigger] out@[n] == hits@[n].idx,
        decreases hits@.len() - k,
    {
        out.push(hits[k].idx);
        k += 1;
    }
    proof {
        assert forall|a: int, b: int| 0 <= a < b < out@.len() implies ranks_before(
            rank_key(entries@, low, ws, cur, #[trigger] out@[a] as int),
            rank_key(entries@, low, ws, cur, #[trigger] out@[b] as int),
        ) by {
            assert(ranks_before(hits@[a].key(), hits@[b].key()));
        }
        assert forall|e: int|
            0 <= e < entries@.len() && matches_words(#[trigger] low[e], ws) implies out@.contains(
            e as usize,
        ) || (out@.len() == limit && forall|a: int|
            0 <= a < out@.len() ==> ranks_before(
                rank_key(entries@, low, ws, cur, #[trigger] out@[a] as int),
                rank_key(entries@, low, ws, cur, e),
            )) by {
            let n = choose|n: int| 0 <= n < hits@.len() && (#[trigger] hits@[n]).idx == e;
            if n < out@.len() {
                assert(out@[n] == e as usize);
            } else {
                assert forall|a: int| 0 <= a < out@.len() implies ranks_before(
                    rank_key(entries@, low, ws, cur, #[trigger] out@[a] as int),
                    rank_key(entries@, low, ws, cur, e),
                ) by {
                    assert(ranks_before(hits@[a].key(), hits@[n].key()));
                }
            }
        }
    }
    out
}

/// The view of an optional directory.
pub open spec fn cwd_view(cwd: Option<&str>) -> Option<Seq<char>> {
    match cwd {
        Some(s) => Some(s@),
        None => None,
    }
}

/// The texts of entries, in lower case.
pub open spec fn lowered_texts(entries: Seq<Entry>) -> Seq<Seq<char>> {
    entries.map_values(|e: Entry| lowercase_chars(e.text@))
}

/// Ranks `entries` against `query`: the indices of the best `limit`, best
/// first.
pub fn rank(entries: &[Entry], query: &str, current_cwd: Option<&str>, limit: usize) -> (r: Vec<
    usize,
>)
    ensures
        is_ranking(
            entries@,
            lowered_texts(entries@),
            query_words(query@),
            cwd_view(current_cwd),
            limit as nat,
            r@,
        ),
{
    let words = split_query_words(query);
    let mut lowered: Vec<String> = Vec::new();
    let mut i: usize = 0;
    while i < entries.len()
        invariant
            i <= entries@.len(),
            lowered@.len() == i,
            forall|k: int| 0 <= k < i ==> (#[trigger] lowered@[k])@ == lowercase_chars(entries@[k].text@),
        decreases entries@.len() - i,
    {
        lowered.push(lowercase(entries[i].text.as_str()));
        i += 1;
    }
    assert(strings_view(lowered@) =~= lowered_texts(entries@));
    rank_lowered(entries, &lowered, &words, current_cwd, limit)
}

// ---- laws --------------------------------------------------------------

/// The order of the ranking is strict and total: of two different entries one
/// comes first, and never both.
pub proof fn law_ranking_order_is_total(a: RankKey, b: RankKey, c: RankKey)
    ensures
        !ranks_before(a, a),
        ranks_before(a, b) ==> !ranks_before(b, a),
        a.index != b.index ==> ranks_before(a, b) || ranks_before(b, a),
        ranks_before(a, b) && ranks_before(b, c) ==> ranks_before(a, c),
{
}

/// An entry of one ranking that stands where the other ranking agrees so far
/// is not beaten by the entry that stands there in the other.
proof fn lemma_ranked_first(
    entries: Seq<Entry>,
    lowered: Seq<Seq<char>>,
    words: Seq<Seq<char>>,
    current: Option<Seq<char>>,
    limit: nat,
    r1: Seq<usize>,
    r2: Seq<usize>,
    i: int,
)
    requires
        is_ranking(entries, lowered, words, current, limit, r1),
        is_ranking(entries, lowered, words, current, limit, r2),
        entries.len() <= usize::MAX,
        0 <= i < r1.len(),
        i <= r2.len(),
        forall|n: int| 0 <= n < i ==> r1[n] == r2[n],
    ensures
        i < r2.len(),
        r1[i] == r2[i] || ranks_before(
            rank_key(entries, lowered, words, current, r2[i] as int),
            rank_key(entries, lowered, words, current, r1[i] as int),
        ),
{
    let a = r1[i];
    assert(matches_words(lowered[a as int], words));
    assert forall|n: int| 0 <= n < i implies r2[n] != a by {
        assert(ranks_before(
            rank_key(entries, lowered, words, current, r1[n] as int),
            rank_key(entries, lowered, words, current, r1[i] as int),
        ));
    }
    if r2.contains(a) {
        let j = choose|j: int| 0 <= j < r2.len() && r2[j] == a;
        if j > i {
            assert(ranks_before(
                rank_key(entries, lowered, words, current, r2[i] as int),
                rank_key(entries, lowered, words, current, r2[j] as int),
            ));
        }
    } else {
        assert((a as int) as usize == a);
        assert(r2.len() == limit);
        assert(ranks_before(
            rank_key(entries, lowered, words, current, r2[i] as int),
            rank_key(entries, lowered, words, current, a as int),
        ));
    }
}

/// There is one ranking only: entries, query, directory and limit decide it.
pub proof fn law_ranking_is_unique(
    entries: Seq<Entry>,
    lowered: Seq<Seq<char>>,
    words: Seq<Seq<char>>,
    current: Option<Seq<char>>,
    limit: nat,
    r1: Seq<usize>,
    r2: Seq<usize>,
)
    requires
        is_ranking(entries, lowered, words, current, limit, r1),
        is_ranking(entries, lowered, words, current, limit, r2),
        entries.len() <= usize::MAX,
    ensures
        r1 == r2,
{
    lemma_rankings_agree(entries, lowered, words, current, limit, r1, r2, r1.len() as int);
    if r2.len() > r1.len() {
        lemma_ranked_first(entries, lowered, words, current, limit, r2, r1, r1.len() as int);
    }
    assert(r1 =~= r2);
}

/// A smaller limit gives a prefix: the best few of a ranking are the ranking of
/// the best few.
pub proof fn law_smaller_limit_gives_a_prefix(
    entries: Seq<Entry>,
    lowered: Seq<Seq<char>>,
    words: Seq<Seq<char>>,
    current: Option<Seq<char>>,
    small: nat,
    large: nat,
    few: Seq<usize>,
    many: Seq<usize>,
)
    requires
        is_ranking(entries, lowered, words, current, small, few),
        is_ranking(entries, lowered, words, current, large, many),
        small <= large,
        entries.len() <= usize::MAX,
    ensures
        few == (if small < many.len() {
            many.take(small as int)
        } else {
            many
        }),
{
    let n = if small < many.len() {
        small as int
    } else {
        many.len() as int
    };
    let best = many.take(n);
    assert forall|k: int|
        0 <= k < entries.len() && matches_words(#[trigger] lowered[k], words) implies best.contains(
        k as usize,
    ) || (best.len() == small && forall|i: int|
        0 <= i < best.len() ==> ranks_before(
            rank_key(entries, lowered, words, current, #[trigger] best[i] as int),
            rank_key(entries, lowered, words, current, k),
        )) by {
        if many.contains(k as usize) {
            let j = choose|j: int| 0 <= j < many.len() && many[j] == k as usize;
            if j < n {
                assert(best[j] == k as usize);
            } else {
                assert forall|i: int| 0 <= i < best.len() implies ranks_before(
                    rank_key(entries, lowered, words, current, #[trigger] best[i] as int),
                    rank_key(entries, lowered, words, current, k),
                ) by {
                    assert(best[i] == many[i]);
                    assert(many[j] as int == k);
                }
            }
        } else {
            assert forall|i: int| 0 <= i < best.len() implies ranks_before(
                rank_key(entries, lowered, words, current, #[trigger] best[i] as int),
                rank_key(entries, lowered, words, current, k),
            ) by {
                assert(best[i] == many[i]);
            }
        }
    }
    assert forall|i: int, j: int| 0 <= i < j < best.len() implies ranks_before(
        rank_key(entries, lowered, words, current, #[trigger] best[i] as int),
        rank_key(entries, lowered, words, current, #[trigger] best[j] as int),
    ) by {
        assert(best[i] == many[i] && best[j] == many[j]);
    }
    assert forall|i: int| 0 <= i < best.len() implies (#[trigger] best[i]) < entries.len()
        && matches_words(lowered[best[i] as int], words) by {
        assert(best[i] == many[i]);
    }
    assert(is_ranking(entries, lowered, words, current, small, best));
    law_ranking_is_unique(entries, lowered, words, current, small, few, best);
    assert(many.take(many.len() as int) =~= many);
}

/// Two rankings agree on the first `n` places.
proof fn lemma_rankings_agree(
    entries: Seq<Entry>,
    lowered: Seq<Seq<char>>,
    words: Seq<Seq<char>>,
    current: Option<Seq<char>>,
    limit: nat,
    r1: Seq<usize>,
    r2: Seq<usize>,
    n: int,
)
    requires
        is_ranking(entries, lowered, words, current, limit, r1),
        is_ranking(entries, lowered, words, current, limit, r2),
        entries.len() <= usize::MAX,
        0 <= n <= r1.len(),
    ensures
        n <= r2.len(),
        forall|i: int| 0 <= i < n ==> r1[i] == r2[i],
    decreases n,
{
    if n > 0 {
        lemma_rankings_agree(entries, lowered, words, current, limit, r1, r2, n - 1);
        lemma_ranked_first(entries, lowered, words, current, limit, r1, r2, n - 1);
        lemma_ranked_first(entries, lowered, words, current, limit, r2, r1, n - 1);
    }
}

/// An empty query drops nothing.
pub proof fn law_empty_query_matches_everything(text: Seq<char>, query: Seq<char>)
    requires
        forall|i: int| 0 <= i < query.len() ==> whitespace(#[trigger] query[i]),
    ensures
        matches_words(text, query_words(query)),
{
    lemma_blank_has_no_words(query);
}

/// A blank text has no words.
proof fn lemma_blank_has_no_words(s: Seq<char>)
    requires
        forall|i: int| 0 <= i < s.len() ==> whitespace(#[trigger] s[i]),
    ensures
        words_of(s).len() == 0,
    decreases s.len(),
{
    if s.len() > 0 {
        assert(whitespace(s[0]));
        assert forall|i: int| 0 <= i < s.skip(1).len() implies whitespace(
            #[trigger] s.skip(1)[i],
        ) by {
            assert(s.skip(1)[i] == s[i + 1]);
        }
        lemma_blank_has_no_words(s.skip(1));
    }
}

/// The entries of the current directory come first: where one entry of a ranking was
/// run in it and another was not, the first stands before the second, whatever their
/// texts and times.
pub proof fn law_current_directory_comes_first(
    entries: Seq<Entry>,
    lowered: Seq<Seq<char>>,
    words: Seq<Seq<char>>,
    here: Seq<char>,
    limit: nat,
    r: Seq<usize>,
    i: int,
    j: int,
)
    requires
        is_ranking(entries, lowered, words, Some(here), limit, r),
        0 <= i < r.len(),
        0 <= j < r.len(),
        entries[r[i] as int].cwd matches Some(c) && c@ == here,
        !(entries[r[j] as int].cwd matches Some(c) && c@ == here),
    ensures
        i < j,
{
    if j < i {
        assert(ranks_before(
            rank_key(entries, lowered, words, Some(here), r[j] as int),
            rank_key(entries, lowered, words, Some(here), r[i] as int),
        ));
    }
    if i == j {
        assert(false);
    }
}

/// What decides between two entries of a ranking, in this order: whether the command
/// ran in the current directory; how many whole words of the query it holds; whether
/// it holds the words in the order of the query; which ran later; and which was given
/// first.
pub proof fn law_what_decides_a_ranking(
    entries: Seq<Entry>,
    lowered: Seq<Seq<char>>,
    words: Seq<Seq<char>>,
    current: Option<Seq<char>>,
    limit: nat,
    r: Seq<usize>,
    i: int,
    j: int,
)
    requires
        is_ranking(entries, lowered, words, current, limit, r),
        0 <= i < j < r.len(),
    ensures
        ({
            let (a, b) = (r[i] as int, r[j] as int);
            let here_a = current is Some && entries[a].cwd is Some && entries[a].cwd.unwrap()@
                == current.unwrap();
            let here_b = current is Some && entries[b].cwd is Some && entries[b].cwd.unwrap()@
                == current.unwrap();
            let (hits_a, hits_b) = (total_hits(lowered[a], words), total_hits(lowered[b], words));
            let (row_a, row_b) = (in_order(lowered[a], words, 0), in_order(lowered[b], words, 0));
            let (time_a, time_b) = (entries[a].started_at_ms, entries[b].started_at_ms);
            &&& here_b ==> here_a
            &&& here_a == here_b ==> hits_a >= hits_b
            &&& here_a == here_b && hits_a == hits_b ==> (row_b ==> row_a)
            &&& here_a == here_b && hits_a == hits_b && row_a == row_b ==> time_a >= time_b
            &&& here_a == here_b && hits_a == hits_b && row_a == row_b && time_a == time_b ==> a < b
        }),
{
    assert(ranks_before(
        rank_key(entries, lowered, words, current, r[i] as int),
        rank_key(entries, lowered, words, current, r[j] as int),
    ));
}

/// A ranking holds commands that hold every word of the query, each once, no more than
/// were asked for; and where one is missing, as many as were asked for are there, none
/// of which it would come before.
pub proof fn law_ranking_holds_what_matches(
    entries: Seq<Entry>,
    lowered: Seq<Seq<char>>,
    words: Seq<Seq<char>>,
    current: Option<Seq<char>>,
    limit: nat,
    r: Seq<usize>,
    k: int,
)
    requires
        is_ranking(entries, lowered, words, current, limit, r),
        entries.len() <= usize::MAX,
        0 <= k < entries.len(),
    ensures
        r.len() <= limit,
        forall|i: int, w: int|
            0 <= i < r.len() && 0 <= w < words.len() ==> occurs(
                lowered[(#[trigger] r[i]) as int],
                #[trigger] words[w],
            ),
        forall|i: int, j: int| 0 <= i < j < r.len() ==> #[trigger] r[i] != #[trigger] r[j],
        (forall|w: int| 0 <= w < words.len() ==> occurs(lowered[k], #[trigger] words[w])) && !(
        exists|i: int| 0 <= i < r.len() && #[trigger] r[i] == k) ==> r.len() == limit,
        (exists|i: int| 0 <= i < r.len() && #[trigger] r[i] == k) ==> forall|w: int|
            0 <= w < words.len() ==> occurs(lowered[k], #[trigger] words[w]),
{
    assert forall|i: int, j: int| 0 <= i < j < r.len() implies #[trigger] r[i]
        != #[trigger] r[j] by {
        assert(ranks_before(
            rank_key(entries, lowered, words, current, r[i] as int),
            rank_key(entries, lowered, words, current, r[j] as int),
        ));
    }
    assert forall|i: int, w: int| 0 <= i < r.len() && 0 <= w < words.len() implies occurs(
        lowered[(#[trigger] r[i]) as int],
        #[trigger] words[w],
    ) by {
        assert(matches_words(lowered[r[i] as int], words));
    }
    if forall|w: int| 0 <= w < words.len() ==> occurs(lowered[k], #[trigger] words[w]) {
        assert(matches_words(lowered[k], words));
        if r.contains(k as usize) {
            let i = choose|i: int| 0 <= i < r.len() && r[i] == k as usize;
            assert(r[i] == k);
        }
    }
}

/// A word of the query is found whole where neither a letter, a digit nor an
/// underscore of ASCII stands next to it.
pub proof fn law_whole_words(text: Seq<char>, word: Seq<char>, at: int)
    ensures
        whole_word_at(text, word, at) <==> {
            let end = at + word.len();
            &&& occurs_at(text, word, at)
            &&& at > 0 ==> {
                let c = text[at - 1];
                !('a' <= c <= 'z') && !('A' <= c <= 'Z') && !('0' <= c <= '9') && c != '_'
            }
            &&& end < text.len() ==> {
                let c = text[end];
                !('a' <= c <= 'z') && !('A' <= c <= 'Z') && !('0' <= c <= '9') && c != '_'
            }
        },
{
}

/// Whole words are counted from left to right: the first one that stands at or behind
/// `from` counts, and the count goes on behind it. Where none stands, the count is zero.
pub proof fn law_whole_words_are_counted(text: Seq<char>, word: Seq<char>, from: int, at: int)
    requires
        word.len() > 0,
        0 <= from <= at,
        forall|k: int| from <= k < at ==> !#[trigger] whole_word_at(text, word, k),
    ensures
        whole_word_at(text, word, at) ==> whole_word_hits(text, word, from) == 1 + whole_word_hits(
            text,
            word,
            at + word.len(),
        ),
        at + word.len() > text.len() ==> whole_word_hits(text, word, from) == 0,
    decreases at - from,
{
    if from < at {
        assert(!whole_word_at(text, word, from));
        if from + word.len() <= text.len() {
            law_whole_words_are_counted(text, word, from + 1, at);
        }
    }
}

/// The hits of all words of a query add up, whichever way it is taken apart.
pub proof fn law_hits_add_up(text: Seq<char>, a: Seq<Seq<char>>, b: Seq<Seq<char>>, w: Seq<char>)
    ensures
        total_hits(text, a + b) == total_hits(text, a) + total_hits(text, b),
        total_hits(text, seq![w]) == whole_word_hits(text, w, 0),
        total_hits(text, Seq::<Seq<char>>::empty()) == 0,
    decreases b.len(),
{
    assert(seq![w].drop_last() =~= Seq::<Seq<char>>::empty());
    assert(total_hits(text, seq![w].drop_last()) == 0);
    assert(seq![w].last() == w);
    if b.len() == 0 {
        assert(a + b =~= a);
    } else {
        law_hits_add_up(text, a, b.drop_last(), w);
        assert((a + b).drop_last() =~= a + b.drop_last());
        assert((a + b).last() == b.last());
    }
}

/// Do the words stand at these places, each behind the end of the one before, from
/// `from` on?
pub open spec fn placed(
    text: Seq<char>,
    words: Seq<Seq<char>>,
    places: Seq<int>,
    from: int,
) -> bool {
    &&& places.len() == words.len()
    &&& forall|k: int|
        0 <= k < words.len() ==> occurs_at(text, #[trigger] words[k], places[k]) && places[k] >= (
        if k == 0 {
            from
        } else {
            places[k - 1] + words[k - 1].len()
        })
}

/// A place in front of places for the other words.
proof fn lemma_place_in_front(
    text: Seq<char>,
    words: Seq<Seq<char>>,
    at: int,
    later: Seq<int>,
    from: int,
)
    requires
        words.len() > 0,
        from <= at,
        occurs_at(text, words[0], at),
        placed(text, words.skip(1), later, at + words[0].len()),
    ensures
        placed(text, words, seq![at] + later, from),
{
    let rest = words.skip(1);
    let places = seq![at] + later;
    assert forall|k: int| 0 <= k < words.len() implies occurs_at(
        text,
        #[trigger] words[k],
        places[k],
    ) && places[k] >= (if k == 0 {
        from
    } else {
        places[k - 1] + words[k - 1].len()
    }) by {
        if k > 0 {
            assert(rest[k - 1] == words[k]);
            assert(places[k] == later[k - 1]);
            if k > 1 {
                assert(rest[k - 2] == words[k - 1]);
                assert(places[k - 1] == later[k - 2]);
            }
        }
    }
}

/// The places behind the first one, which may be moved to the front.
proof fn lemma_places_behind(
    text: Seq<char>,
    words: Seq<Seq<char>>,
    places: Seq<int>,
    from: int,
    at: int,
)
    requires
        words.len() > 0,
        placed(text, words, places, from),
        at <= places[0],
    ensures
        placed(text, words.skip(1), places.skip(1), at + words[0].len()),
{
    let rest = words.skip(1);
    let later = places.skip(1);
    assert forall|k: int| 0 <= k < rest.len() implies occurs_at(text, #[trigger] rest[k], later[k])
        && later[k] >= (if k == 0 {
        at + words[0].len()
    } else {
        later[k - 1] + rest[k - 1].len()
    }) by {
        assert(rest[k] == words[k + 1]);
        assert(later[k] == places[k + 1]);
        if k > 0 {
            assert(rest[k - 1] == words[k]);
            assert(later[k - 1] == places[k]);
        }
    }
}

/// The words of a query stand in order in a text where there are places for them, each
/// behind the one before.
pub proof fn law_words_in_order(text: Seq<char>, words: Seq<Seq<char>>, from: int)
    requires
        0 <= from,
    ensures
        in_order(text, words, from) <==> exists|places: Seq<int>|
            #[trigger] placed(text, words, places, from),
    decreases words.len(),
{
    if words.len() == 0 {
        assert(placed(text, words, Seq::empty(), from));
    } else {
        lemma_first_occurrence(text, words[0], from);
        let rest = words.skip(1);
        if in_order(text, words, from) {
            let at = first_occurrence(text, words[0], from).unwrap();
            law_words_in_order(text, rest, at + words[0].len());
            let later = choose|places: Seq<int>|
                #[trigger] placed(text, rest, places, at + words[0].len());
            lemma_place_in_front(text, words, at, later, from);
        }
        if exists|places: Seq<int>| #[trigger] placed(text, words, places, from) {
            let places = choose|places: Seq<int>| #[trigger] placed(text, words, places, from);
            assert(occurs_at(text, words[0], places[0]) && places[0] >= from);
            let at = first_occurrence(text, words[0], from).unwrap();
            assert(at <= places[0]);
            lemma_places_behind(text, words, places, from, at);
            law_words_in_order(text, rest, at + words[0].len());
        }
    }
}

/// The length of the first word of a text where white space follows it.
proof fn lemma_first_word(a: Seq<char>, c: char, b: Seq<char>)
    requires
        whitespace(c),
    ensures
        word_len(a + seq![c] + b) == word_len(a),
    decreases a.len(),
{
    let all = a + seq![c] + b;
    if a.len() > 0 && !whitespace(a[0]) {
        assert(all.skip(1) =~= a.skip(1) + seq![c] + b);
        lemma_first_word(a.skip(1), c, b);
    } else {
        assert(all[0] == (if a.len() > 0 {
            a[0]
        } else {
            c
        }));
    }
}

/// White space parts words: on its two sides the words are those of either side. A
/// text without white space is one word.
pub proof fn law_white_space_parts_words(a: Seq<char>, c: char, b: Seq<char>)
    requires
        whitespace(c),
    ensures
        words_of(a + seq![c] + b) == words_of(a) + words_of(b),
        a.len() > 0 && (forall|i: int| 0 <= i < a.len() ==> !whitespace(#[trigger] a[i]))
            ==> words_of(a) == seq![a],
        words_of(Seq::<char>::empty()).len() == 0,
    decreases a.len(),
{
    let all = a + seq![c] + b;
    if a.len() == 0 {
        assert(all.skip(1) =~= b);
        assert(all[0] == c);
        assert(words_of(a) + words_of(b) =~= words_of(b));
    } else if whitespace(a[0]) {
        law_white_space_parts_words(a.skip(1), c, b);
        assert(all.skip(1) =~= a.skip(1) + seq![c] + b);
        assert(all[0] == a[0]);
    } else {
        lemma_first_word(a, c, b);
        lemma_word_len(a);
        let n = word_len(a) as int;
        assert(all[0] == a[0]);
        assert(all.take(n) =~= a.take(n));
        assert(all.skip(n) =~= a.skip(n) + seq![c] + b);
        law_white_space_parts_words(a.skip(n), c, b);
        assert(words_of(all) =~= words_of(a) + words_of(b));
        if forall|i: int| 0 <= i < a.len() ==> !whitespace(#[trigger] a[i]) {
            if n < a.len() {
                assert(whitespace(a[n]));
            }
            assert(a.take(n) =~= a);
            assert(a.skip(n) =~= Seq::<char>::empty());
            assert(words_of(a.skip(n)).len() == 0);
            assert(words_of(a) =~= seq![a]);
        }
    }
}

/// The case of a query does not matter: each of its words is looked for in lower case,
/// in the texts in lower case.
pub proof fn law_case_does_not_matter(query: Seq<char>, entries: Seq<Entry>, k: int)
    ensures
        query_words(query).len() == words_of(query).len(),
        0 <= k < words_of(query).len() ==> query_words(query)[k] == lowercase_chars(
            words_of(query)[k],
        ),
        lowered_texts(entries).len() == entries.len(),
        0 <= k < entries.len() ==> lowered_texts(entries)[k] == lowercase_chars(
            entries[k].text@,
        ),
{
}

/// What [`rank`] gives: of two entries of the result, one run in the current directory
/// never stands behind one that was not; and no entry stands there twice.
pub proof fn law_directory_first_as_ranked(
    entries: &[Entry],
    query: &str,
    here: &str,
    limit: usize,
    r: Vec<usize>,
    i: int,
    j: int,
)
    requires
        call_ensures(rank, (entries, query, Some(here), limit), r),
        0 <= i < j < r@.len(),
    ensures
        r@.len() <= limit,
        r@[i] < entries@.len(),
        r@[j] < entries@.len(),
        r@[i] != r@[j],
        (entries@[r@[j] as int].cwd matches Some(c) && c@ == here@) ==> (
        entries@[r@[i] as int].cwd matches Some(c) && c@ == here@),
{
    let lowered = lowered_texts(entries@);
    let words = query_words(query@);
    law_what_decides_a_ranking(
        entries@,
        lowered,
        words,
        Some(here@),
        limit as nat,
        r@,
        i,
        j,
    );
    assert(ranks_before(
        rank_key(entries@, lowered, words, Some(here@), r@[i] as int),
        rank_key(entries@, lowered, words, Some(here@), r@[j] as int),
    ));
}

} // verus!
