//! Reporting: one line per displaced bucket, and one grand-total line after
//! the input is exhausted.

use vstd::prelude::*;
use crate::aggregator::Emission;

verus! {

/// The decimal digit character for `d` (meaningful for `d < 10`).
pub open spec fn digit_lit(d: nat) -> char {
    "0123456789"@[d as int]
}

/// The decimal representation of `n`, most significant digit first, with no
/// leading zeros (a single `0` for zero).
pub open spec fn dec_chars(n: nat) -> Seq<char>
    decreases n,
{
    if n < 10 {
        seq![digit_lit(n)]
    } else {
        dec_chars(n / 10).push(digit_lit(n % 10))
    }
}

/// The report line for a displaced bucket.
pub open spec fn bucket_line(date: Seq<char>, hour: Seq<char>, count: nat) -> Seq<char> {
    date + ", Hour: "@ + hour + " - Error Count: "@ + dec_chars(count)
}

/// The final line reporting the run total.
pub open spec fn total_line(total: nat) -> Seq<char> {
    "Total error count for current log: "@ + dec_chars(total)
}

/// Renders `n` in decimal.
pub fn u64_to_string(n: u64) -> (r: String)
    ensures
        r@ == dec_chars(n as nat),
    decreases n,
{
    proof {
        reveal_strlit("0123456789");
    }
    let digits = "0123456789";
    let d = (n % 10) as usize;
    let ds = digits.substring_char(d, d + 1);
    if n < 10 {
        proof {
            assert(ds@ =~= dec_chars(n as nat));
        }
        ds.to_owned()
    } else {
        let mut prefix = u64_to_string(n / 10);
        prefix.append(ds);
        proof {
            assert(prefix@ =~= dec_chars(n as nat));
        }
        prefix
    }
}

/// Renders the report line for a displaced bucket.
pub fn format_bucket_line(e: &Emission) -> (r: String)
    ensures
        r@ == bucket_line(e.date@, e.hour@, e.count as nat),
{
    let mut s = e.date.clone();
    s.append(", Hour: ");
    s.append(e.hour.as_str());
    s.append(" - Error Count: ");
    let num = u64_to_string(e.count);
    s.append(num.as_str());
    proof {
        assert(s@ =~= bucket_line(e.date@, e.hour@, e.count as nat));
    }
    s
}

/// Renders the final line reporting the run total.
pub fn format_total_line(total: u64) -> (r: String)
    ensures
        r@ == total_line(total as nat),
{
    let mut s = String::from_str("Total error count for current log: ");
    let num = u64_to_string(total);
    s.append(num.as_str());
    proof {
        assert(s@ =~= total_line(total as nat));
    }
    s
}

} // verus!
