//! Timestamp extraction: the fixed shape `YYYY-MM-DD HH:MM:SS-ZZ` is searched
//! for in each line; the first match yields a `{date, hour}` bucket key.

use vstd::prelude::*;

verus! {

/// A bucket identity: the date and hour substrings of the first timestamp
/// found on a line. Two keys are equal iff both components are equal.
pub struct TimestampKey {
    pub date: String,
    pub hour: String,
}

/// A decimal digit character.
pub open spec fn is_digit(c: char) -> bool {
    48 <= c as u32 <= 57
}

/// The timestamp shape `YYYY-MM-DD HH:MM:SS-ZZ` stands in `s` at offset `i`:
/// 22 characters, with digits and literal separators at fixed positions.
pub open spec fn ts_shape_at(s: Seq<char>, i: int) -> bool {
    &&& 0 <= i
    &&& i + 22 <= s.len()
    &&& is_digit(s[i]) && is_digit(s[i + 1]) && is_digit(s[i + 2]) && is_digit(s[i + 3])
    &&& s[i + 4] == '-'
    &&& is_digit(s[i + 5]) && is_digit(s[i + 6])
    &&& s[i + 7] == '-'
    &&& is_digit(s[i + 8]) && is_digit(s[i + 9])
    &&& s[i + 10] == ' '
    &&& is_digit(s[i + 11]) && is_digit(s[i + 12])
    &&& s[i + 13] == ':'
    &&& is_digit(s[i + 14]) && is_digit(s[i + 15])
    &&& s[i + 16] == ':'
    &&& is_digit(s[i + 17]) && is_digit(s[i + 18])
    &&& s[i + 19] == '-'
    &&& is_digit(s[i + 20]) && is_digit(s[i + 21])
}

/// Some offset of `s` carries the timestamp shape.
pub open spec fn has_timestamp(s: Seq<char>) -> bool {
    exists|i: int| ts_shape_at(s, i)
}

/// `i` is the leftmost offset carrying the timestamp shape.
pub open spec fn is_first_ts_index(s: Seq<char>, i: int) -> bool {
    &&& ts_shape_at(s, i)
    &&& forall|j: int| 0 <= j < i ==> !ts_shape_at(s, j)
}

/// The leftmost offset carrying the timestamp shape (meaningful only when
/// `has_timestamp(s)` holds).
pub open spec fn first_ts_index(s: Seq<char>) -> int {
    choose|i: int| is_first_ts_index(s, i)
}

pub proof fn lemma_first_ts_index_unique(s: Seq<char>, i: int)
    requires
        is_first_ts_index(s, i),
    ensures
        first_ts_index(s) == i,
{
    assert(is_first_ts_index(s, first_ts_index(s)));
    let j = first_ts_index(s);
    if j < i {
        assert(!ts_shape_at(s, j));
    }
    if i < j {
        assert(!ts_shape_at(s, i));
    }
}

/// The bucket key of a line: the date (10 characters) and hour (2 characters)
/// substrings of the first timestamp match, or no key when no offset matches.
pub open spec fn key_of_line(s: Seq<char>) -> Option<(Seq<char>, Seq<char>)> {
    if has_timestamp(s) {
        let i = first_ts_index(s);
        Some((s.subrange(i, i + 10), s.subrange(i + 11, i + 13)))
    } else {
        None
    }
}

/// Checks whether the timestamp shape stands at offset `i` of `line`.
fn shape_at(line: &str, i: usize, n: usize) -> (r: bool)
    requires
        n == line@.len(),
        i + 22 <= n,
    ensures
        r == ts_shape_at(line@, i as int),
{
    let r = digit_at(line, i, n) && digit_at(line, i + 1, n) && digit_at(line, i + 2, n)
        && digit_at(line, i + 3, n) && line.get_char(i + 4) == '-' && digit_at(line, i + 5, n)
        && digit_at(line, i + 6, n) && line.get_char(i + 7) == '-' && digit_at(line, i + 8, n)
        && digit_at(line, i + 9, n) && line.get_char(i + 10) == ' ' && digit_at(line, i + 11, n)
        && digit_at(line, i + 12, n) && line.get_char(i + 13) == ':' && digit_at(line, i + 14, n)
        && digit_at(line, i + 15, n) && line.get_char(i + 16) == ':' && digit_at(line, i + 17, n)
        && digit_at(line, i + 18, n) && line.get_char(i + 19) == '-' && digit_at(line, i + 20, n)
        && digit_at(line, i + 21, n);
    r
}

/// Checks whether the character at offset `i` of `line` is a decimal digit.
fn digit_at(line: &str, i: usize, n: usize) -> (r: bool)
    requires
        n == line@.len(),
        i < n,
    ensures
        r == is_digit(line@[i as int]),
{
    let c = line.get_char(i);
    48 <= c as u32 && c as u32 <= 57
}

/// Finds the leftmost offset of `line` where the timestamp shape stands.
pub fn find_timestamp(line: &str) -> (r: Option<usize>)
    ensures
        match r {
            Some(i) => is_first_ts_index(line@, i as int) && i + 22 <= line@.len()
                && line@.len() <= usize::MAX,
            None => !has_timestamp(line@),
        },
{
    let n = line.unicode_len();
    if n < 22 {
        return None;
    }
    let mut i: usize = 0;
    while i <= n - 22
        invariant
            n == line@.len(),
            22 <= n,
            i <= n,
            forall|j: int| 0 <= j < i ==> !ts_shape_at(line@, j),
        decreases n - i,
    {
        if shape_at(line, i, n) {
            return Some(i);
        }
        i += 1;
    }
    assert(forall|j: int| i <= j ==> !ts_shape_at(line@, j));
    None
}

/// Extracts the bucket key of a line: the date and hour substrings of the
/// first timestamp match, or `None` when the line carries no timestamp.
pub fn extract_key(line: &str) -> (r: Option<TimestampKey>)
    ensures
        match r {
            Some(k) => key_of_line(line@) == Some((k.date@, k.hour@)),
            None => key_of_line(line@) is None,
        },
{
    match find_timestamp(line) {
        None => None,
        Some(i) => {
            proof {
                lemma_first_ts_index_unique(line@, i as int);
            }
            let date = line.substring_char(i, i + 10).to_owned();
            let hour = line.substring_char(i + 11, i + 13).to_owned();
            Some(TimestampKey { date, hour })
        },
    }
}

} // verus!
