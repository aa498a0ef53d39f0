//! The interval that a log covers, read off its first and its last line.
//!
//! The reading is lenient on purpose: only the first line and the last
//! complete line have to begin with a timestamp, whatever stands between.

use vstd::prelude::*;
use vstd::slice::slice_subrange;
use crate::timestamp::{parse_timestamp, timestamp_of, Timestamp};

verus! {

pub const NEWLINE: u8 = 0x0a;

pub const SPACE: u8 = 0x20;

/// From `start` to `end`. Nothing orders the two: see `is_ordered`.
#[derive(Clone, Copy, Debug, PartialEq, Eq, Structural)]
pub struct TimeInterval {
    pub start: Timestamp,
    pub end: Timestamp,
}

impl TimeInterval {
    /// The interval does not end before it starts.
    pub open spec fn ordered(self) -> bool {
        self.start.spec_le(self.end)
    }

    /// The interval lies within `outer`.
    pub open spec fn within(self, outer: TimeInterval) -> bool {
        outer.start.spec_le(self.start) && self.end.spec_le(outer.end)
    }

    /// Whether the interval does not end before it starts. A log whose
    /// lines are out of order gives one that does, and it is for the caller
    /// to say what becomes of it.
    pub fn is_ordered(&self) -> (r: bool)
        ensures
            r == self.ordered(),
    {
        self.start.le(&self.end)
    }
}

/// `b` stands at `i` and nowhere before.
pub open spec fn is_first_at(s: Seq<u8>, b: u8, i: int) -> bool {
    &&& 0 <= i < s.len()
    &&& s[i] == b
    &&& forall|j: int| 0 <= j < i ==> s[j] != b
}

/// `b` stands at `i` and nowhere behind.
pub open spec fn is_last_at(s: Seq<u8>, b: u8, i: int) -> bool {
    &&& 0 <= i < s.len()
    &&& s[i] == b
    &&& forall|j: int| i < j < s.len() ==> s[j] != b
}

/// The first place of `b` in `s`.
pub open spec fn first_index(s: Seq<u8>, b: u8) -> Option<int> {
    if exists|i: int| is_first_at(s, b, i) {
        Some(choose|i: int| is_first_at(s, b, i))
    } else {
        None
    }
}

/// The last place of `b` in `s`.
pub open spec fn last_index(s: Seq<u8>, b: u8) -> Option<int> {
    if exists|i: int| is_last_at(s, b, i) {
        Some(choose|i: int| is_last_at(s, b, i))
    } else {
        None
    }
}

/// An index as a mathematical integer.
pub open spec fn place(r: Option<usize>) -> Option<int> {
    match r {
        Some(i) => Some(i as int),
        None => None,
    }
}

/// A first place is the only one.
pub proof fn lemma_first_index_at(s: Seq<u8>, b: u8, i: int)
    requires
        is_first_at(s, b, i),
    ensures
        first_index(s, b) == Some(i),
{
    let c = choose|c: int| is_first_at(s, b, c);
    assert(is_first_at(s, b, c));
    if c < i {
        assert(s[c] != b);
    }
    if i < c {
        assert(s[i] != b);
    }
}

/// A last place is the only one.
pub proof fn lemma_last_index_at(s: Seq<u8>, b: u8, i: int)
    requires
        is_last_at(s, b, i),
    ensures
        last_index(s, b) == Some(i),
{
    let c = choose|c: int| is_last_at(s, b, c);
    assert(is_last_at(s, b, c));
    if c < i {
        assert(s[i] != b);
    }
    if i < c {
        assert(s[c] != b);
    }
}

/// Where `b` stands nowhere, it has no first and no last place.
pub proof fn lemma_no_index(s: Seq<u8>, b: u8)
    requires
        forall|j: int| 0 <= j < s.len() ==> s[j] != b,
    ensures
        first_index(s, b) is None,
        last_index(s, b) is None,
{
    assert forall|i: int| !is_first_at(s, b, i) by {
        if 0 <= i < s.len() {
            assert(s[i] != b);
        }
    }
    assert forall|i: int| !is_last_at(s, b, i) by {
        if 0 <= i < s.len() {
            assert(s[i] != b);
        }
    }
}

/// The first place of `b` in `s`.
pub fn find_first(s: &[u8], b: u8) -> (r: Option<usize>)
    ensures
        place(r) == first_index(s@, b),
        r matches Some(i) ==> i < s@.len(),
{
    let n: usize = s.len();
    let mut i: usize = 0;
    while i < n
        invariant
            n == s@.len(),
            i <= n,
            forall|j: int| 0 <= j < i ==> s@[j] != b,
        decreases n - i,
    {
        if s[i] == b {
            proof {
                lemma_first_index_at(s@, b, i as int);
            }
            return Some(i);
        }
        i = i + 1;
    }
    proof {
        lemma_no_index(s@, b);
    }
    None
}

/// The last place of `b` in `s`.
pub fn find_last(s: &[u8], b: u8) -> (r: Option<usize>)
    ensures
        place(r) == last_index(s@, b),
        r matches Some(i) ==> i < s@.len(),
{
    let n: usize = s.len();
    let mut i: usize = n;
    while i > 0
        invariant
            n == s@.len(),
            i <= n,
            forall|j: int| i <= j < n ==> s@[j] != b,
        decreases i,
    {
        i = i - 1;
        if s[i] == b {
            proof {
                lemma_last_index_at(s@, b, i as int);
            }
            return Some(i);
        }
    }
    proof {
        lemma_no_index(s@, b);
    }
    None
}

/// The first line of a log and its last complete line.
///
/// The first line ends at the first newline. What follows the last newline
/// of the rest is dropped: it is empty where the log ends in a newline. The
/// last line is what then follows the last newline that is left. Each of
/// the three newlines must be there.
pub open spec fn edge_lines(text: Seq<u8>) -> Option<(Seq<u8>, Seq<u8>)> {
    match first_index(text, NEWLINE) {
        None => None,
        Some(i) => {
            let rest = text.subrange(i + 1, text.len() as int);
            match last_index(rest, NEWLINE) {
                None => None,
                Some(j) => {
                    let body = rest.subrange(0, j);
                    match last_index(body, NEWLINE) {
                        None => None,
                        Some(k) => Some(
                            (text.subrange(0, i), body.subrange(k + 1, body.len() as int)),
                        ),
                    }
                },
            }
        },
    }
}

/// A line up to its first space; the whole line where it has none.
pub open spec fn leading_token(line: Seq<u8>) -> Seq<u8> {
    match first_index(line, SPACE) {
        Some(i) => line.subrange(0, i),
        None => line,
    }
}

/// The interval of a log: from the timestamp that begins its first line to
/// the one that begins its last complete line. `None` where a line is
/// missing or a token is no timestamp.
pub open spec fn interval_of(text: Seq<u8>) -> Option<TimeInterval> {
    match edge_lines(text) {
        None => None,
        Some((first, last)) => match (
            timestamp_of(leading_token(first)),
            timestamp_of(leading_token(last)),
        ) {
            (Some(start), Some(end)) => Some(TimeInterval { start, end }),
            _ => None,
        },
    }
}

/// The first and the last complete line of `text`.
pub fn split_edge_lines<'a>(text: &'a [u8]) -> (r: Option<(&'a [u8], &'a [u8])>)
    ensures
        match r {
            Some((first, last)) => edge_lines(text@) == Some((first@, last@)),
            None => edge_lines(text@) is None,
        },
{
    let n: usize = text.len();
    let i: usize = match find_first(text, NEWLINE) {
        Some(i) => i,
        None => { return None; },
    };
    let rest = slice_subrange(text, i + 1, n);
    let j: usize = match find_last(rest, NEWLINE) {
        Some(j) => j,
        None => { return None; },
    };
    let body = slice_subrange(rest, 0, j);
    let k: usize = match find_last(body, NEWLINE) {
        Some(k) => k,
        None => { return None; },
    };
    Some((slice_subrange(text, 0, i), slice_subrange(body, k + 1, body.len())))
}

/// The token that begins `line`.
pub fn token<'a>(line: &'a [u8]) -> (r: &'a [u8])
    ensures
        r@ == leading_token(line@),
{
    match find_first(line, SPACE) {
        Some(i) => slice_subrange(line, 0, i),
        None => line,
    }
}

/// Reads the interval of a log off its first and last lines.
pub struct LogIntervalParser {}

impl LogIntervalParser {
    /// The interval that `text` covers, `None` where it has fewer than
    /// three newlines or where its first or last complete line does not
    /// begin with a timestamp. The lines between are not looked at, and an
    /// interval that ends before it starts is handed out as it is.
    pub fn parse(text: &[u8]) -> (r: Option<TimeInterval>)
        ensures
            r == interval_of(text@),
            r matches Some(iv) ==> iv.start.wf() && iv.end.wf(),
    {
        let (first, last) = match split_edge_lines(text) {
            Some(lines) => lines,
            None => { return None; },
        };
        let start: Timestamp = match parse_timestamp(token(first)) {
            Some(t) => t,
            None => { return None; },
        };
        let end: Timestamp = match parse_timestamp(token(last)) {
            Some(t) => t,
            None => { return None; },
        };
        Some(TimeInterval { start, end })
    }
}


/// How often `b` stands in `s`.
pub open spec fn count_of(s: Seq<u8>, b: u8) -> nat
    decreases s.len(),
{
    if s.len() == 0 {
        0
    } else {
        count_of(s.drop_last(), b) + if s.last() == b {
            1nat
        } else {
            0nat
        }
    }
}

/// The number of lines of a text: one for each newline, and one more for
/// what follows the last newline, unless that is empty.
pub open spec fn line_count(text: Seq<u8>) -> nat {
    if text.len() > 0 && text.last() != NEWLINE {
        count_of(text, NEWLINE) + 1
    } else {
        count_of(text, NEWLINE)
    }
}

/// The first line of a text: up to its first newline, all of it where it
/// has none.
pub open spec fn first_line(text: Seq<u8>) -> Seq<u8> {
    match first_index(text, NEWLINE) {
        Some(i) => text.subrange(0, i),
        None => text,
    }
}

/// Counting goes part by part.
pub proof fn lemma_count_concat(a: Seq<u8>, c: Seq<u8>, b: u8)
    ensures
        count_of(a + c, b) == count_of(a, b) + count_of(c, b),
    decreases c.len(),
{
    if c.len() == 0 {
        assert(a + c =~= a);
    } else {
        lemma_count_concat(a, c.drop_last(), b);
        assert((a + c).drop_last() =~= a + c.drop_last());
        assert((a + c).last() == c.last());
    }
}

/// The count is 0 exactly where `b` stands nowhere.
pub proof fn lemma_count_zero(s: Seq<u8>, b: u8)
    ensures
        count_of(s, b) == 0 <==> forall|j: int| 0 <= j < s.len() ==> s[j] != b,
    decreases s.len(),
{
    if s.len() > 0 {
        lemma_count_zero(s.drop_last(), b);
        if count_of(s, b) == 0 {
            assert forall|j: int| 0 <= j < s.len() implies s[j] != b by {
                if j < s.len() - 1 {
                    assert(s.drop_last()[j] == s[j]);
                }
            }
        }
        if forall|j: int| 0 <= j < s.len() ==> s[j] != b {
            assert forall|j: int| 0 <= j < s.drop_last().len() implies s.drop_last()[j] != b by {
                assert(s.drop_last()[j] == s[j]);
            }
            assert(s[s.len() - 1] != b);
        }
    }
}

/// Around any place, the count is that of the two sides and of the place.
pub proof fn lemma_count_split(s: Seq<u8>, b: u8, i: int)
    requires
        0 <= i < s.len(),
    ensures
        count_of(s, b) == count_of(s.subrange(0, i), b) + count_of(
            s.subrange(i + 1, s.len() as int),
            b,
        ) + if s[i] == b {
            1nat
        } else {
            0nat
        },
{
    let left = s.subrange(0, i);
    let mid = seq![s[i]];
    let right = s.subrange(i + 1, s.len() as int);
    assert(s =~= left + mid + right);
    lemma_count_concat(left + mid, right, b);
    lemma_count_concat(left, mid, b);
    assert(mid.drop_last() =~= Seq::<u8>::empty());
    assert(count_of(mid.drop_last(), b) == 0);
    assert(mid.last() == s[i]);
}

/// A byte that stands somewhere has a first and a last place, and each is
/// a place where it stands.
pub proof fn lemma_index_exists(s: Seq<u8>, b: u8)
    ensures
        count_of(s, b) > 0 <==> first_index(s, b) is Some,
        count_of(s, b) > 0 <==> last_index(s, b) is Some,
        first_index(s, b) matches Some(i) ==> is_first_at(s, b, i),
        last_index(s, b) matches Some(i) ==> is_last_at(s, b, i),
    decreases s.len(),
{
    lemma_count_zero(s, b);
    if count_of(s, b) == 0 {
        lemma_no_index(s, b);
    } else {
        let t = s.drop_last();
        lemma_index_exists(t, b);
        lemma_count_zero(t, b);
        if s.last() == b {
            lemma_last_index_at(s, b, s.len() - 1);
        } else {
            let i = last_index(t, b)->Some_0;
            assert(is_last_at(t, b, i));
            assert forall|j: int| i < j < s.len() implies s[j] != b by {
                if j < t.len() {
                    assert(t[j] == s[j]);
                }
            }
            assert(t[i] == s[i]);
            lemma_last_index_at(s, b, i);
        }
        if count_of(t, b) > 0 {
            let i = first_index(t, b)->Some_0;
            assert(is_first_at(t, b, i));
            assert forall|j: int| 0 <= j < i implies s[j] != b by {
                assert(t[j] == s[j]);
            }
            assert(t[i] == s[i]);
            lemma_first_index_at(s, b, i);
        } else {
            assert forall|j: int| 0 <= j < s.len() - 1 implies s[j] != b by {
                assert(t[j] == s[j]);
            }
            lemma_first_index_at(s, b, s.len() - 1);
        }
    }
}

/// A log has its two edge lines exactly where it holds three newlines.
pub proof fn lemma_edge_lines_need_three_newlines(text: Seq<u8>)
    ensures
        edge_lines(text) is Some <==> count_of(text, NEWLINE) >= 3,
{
    lemma_index_exists(text, NEWLINE);
    if let Some(i) = first_index(text, NEWLINE) {
        let head = text.subrange(0, i);
        let rest = text.subrange(i + 1, text.len() as int);
        lemma_count_split(text, NEWLINE, i);
        lemma_count_zero(head, NEWLINE);
        assert(count_of(text, NEWLINE) == 1 + count_of(rest, NEWLINE));
        lemma_index_exists(rest, NEWLINE);
        if let Some(j) = last_index(rest, NEWLINE) {
            let body = rest.subrange(0, j);
            let tail = rest.subrange(j + 1, rest.len() as int);
            lemma_count_split(rest, NEWLINE, j);
            lemma_count_zero(tail, NEWLINE);
            assert forall|m: int| 0 <= m < tail.len() implies tail[m] != NEWLINE by {
                assert(tail[m] == rest[j + 1 + m]);
            }
            assert(count_of(rest, NEWLINE) == 1 + count_of(body, NEWLINE));
            lemma_index_exists(body, NEWLINE);
        }
    }
}

/// A log of one line or of two has no interval, and no log with fewer than
/// three newlines has one.
pub proof fn lemma_short_log_has_no_interval(text: Seq<u8>)
    requires
        line_count(text) <= 2 || count_of(text, NEWLINE) < 3,
    ensures
        interval_of(text) is None,
{
    lemma_edge_lines_need_three_newlines(text);
}

/// A log whose first line does not begin with a timestamp has no interval.
pub proof fn lemma_first_token_decides(text: Seq<u8>)
    requires
        timestamp_of(leading_token(first_line(text))) is None,
    ensures
        interval_of(text) is None,
{
}

/// A byte stands nowhere in a text.
pub open spec fn free_of(s: Seq<u8>, b: u8) -> bool {
    forall|j: int| 0 <= j < s.len() ==> s[j] != b
}

/// The log made of a first line, anything at all between, and a last line,
/// each ended by a newline.
pub open spec fn framed_log(first: Seq<u8>, between: Seq<u8>, last: Seq<u8>) -> Seq<u8> {
    first + seq![NEWLINE] + between + seq![NEWLINE] + last + seq![NEWLINE]
}

/// The lines between the first and the last have no say: whatever they
/// hold, the edge lines are the first line and the last, and the interval
/// is read off these two.
pub proof fn lemma_between_lines_ignored(first: Seq<u8>, between: Seq<u8>, last: Seq<u8>)
    requires
        free_of(first, NEWLINE),
        free_of(last, NEWLINE),
    ensures
        edge_lines(framed_log(first, between, last)) == Some((first, last)),
        interval_of(framed_log(first, between, last)) == match (
            timestamp_of(leading_token(first)),
            timestamp_of(leading_token(last)),
        ) {
            (Some(start), Some(end)) => Some(TimeInterval { start, end }),
            _ => None,
        },
{
    let text = framed_log(first, between, last);
    let i = first.len() as int;
    assert(text[i] == NEWLINE);
    assert forall|j: int| 0 <= j < i implies text[j] != NEWLINE by {
        assert(text[j] == first[j]);
    }
    lemma_first_index_at(text, NEWLINE, i);
    let rest = text.subrange(i + 1, text.len() as int);
    assert(rest =~= between + seq![NEWLINE] + last + seq![NEWLINE]);
    let j = rest.len() - 1;
    lemma_last_index_at(rest, NEWLINE, j);
    let body = rest.subrange(0, j);
    assert(body =~= between + seq![NEWLINE] + last);
    let k = between.len() as int;
    assert(body[k] == NEWLINE);
    assert forall|m: int| k < m < body.len() implies body[m] != NEWLINE by {
        assert(body[m] == last[m - k - 1]);
    }
    lemma_last_index_at(body, NEWLINE, k);
    assert(text.subrange(0, i) =~= first);
    assert(body.subrange(k + 1, body.len() as int) =~= last);
}

} // verus!
