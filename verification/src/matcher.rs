//! Error matching: a line counts as an error occurrence iff it contains the
//! configured keyword as a substring (case-sensitive, no word boundaries).

use vstd::prelude::*;

verus! {

/// `needle` stands somewhere in `hay` as a contiguous substring.
pub open spec fn contains_seq(hay: Seq<char>, needle: Seq<char>) -> bool {
    exists|i: int|
        0 <= i && i + needle.len() <= hay.len() && #[trigger] hay.subrange(i, i + needle.len())
            == needle
}

/// Checks whether `needle` stands at offset `i` of `hay`.
fn matches_at(hay: &str, needle: &str, i: usize, n: usize, m: usize) -> (r: bool)
    requires
        n == hay@.len(),
        m == needle@.len(),
        i + m <= n,
    ensures
        r == (hay@.subrange(i as int, i + m) == needle@),
{
    let mut j: usize = 0;
    while j < m
        invariant
            n == hay@.len(),
            m == needle@.len(),
            i + m <= n,
            j <= m,
            forall|t: int| 0 <= t < j ==> hay@[i + t] == needle@[t],
        decreases m - j,
    {
        if hay.get_char(i + j) != needle.get_char(j) {
            assert(hay@.subrange(i as int, i + m)[j as int] != needle@[j as int]);
            return false;
        }
        j += 1;
    }
    proof {
        assert(hay@.subrange(i as int, i + m) =~= needle@);
    }
    true
}

/// Decides whether `line` contains `keyword` as a substring.
pub fn contains_keyword(line: &str, keyword: &str) -> (r: bool)
    ensures
        r == contains_seq(line@, keyword@),
{
    let n = line.unicode_len();
    let m = keyword.unicode_len();
    if m > n {
        assert(!contains_seq(line@, keyword@));
        return false;
    }
    if m == 0 {
        proof {
            assert(line@.subrange(0, 0 + keyword@.len() as int) =~= keyword@);
        }
        return true;
    }
    let mut i: usize = 0;
    while i <= n - m
        invariant
            n == line@.len(),
            m == keyword@.len(),
            1 <= m <= n,
            i <= n - m + 1,
            forall|t: int|
                0 <= t < i ==> #[trigger] line@.subrange(t, t + m as int) != keyword@,
        decreases n - i,
    {
        if matches_at(line, keyword, i, n, m) {
            return true;
        }
        i += 1;
    }
    false
}

} // verus!
