//! The whole analysis run: content is split into newline-delimited lines,
//! decoded as UTF-8 (a line that cannot be decoded is skipped, and the run
//! continues), and fed line by line to the aggregator; each displaced bucket
//! becomes one report line, and one grand-total line closes the output.

use vstd::prelude::*;
use vstd::utf8::{decode_utf8, valid_utf8};
use crate::aggregator::{init_model, model_inv, step, AggModel, Aggregator};
use crate::report::{bucket_line, format_bucket_line, format_total_line, total_line};
use crate::timestamp::key_of_line;
use crate::aggregator::err_of;

verus! {

/// The aggregator state after the given lines were fed in order.
pub open spec fn run_state(lines: Seq<Seq<char>>, keyword: Seq<char>) -> AggModel
    decreases lines.len(),
{
    if lines.len() == 0 {
        init_model()
    } else {
        step(run_state(lines.drop_last(), keyword), lines.last(), keyword).0
    }
}

/// The report lines for the buckets displaced while the given lines were fed
/// in order. The bucket still open after the last line is absent.
pub open spec fn run_emissions(lines: Seq<Seq<char>>, keyword: Seq<char>) -> Seq<Seq<char>>
    decreases lines.len(),
{
    if lines.len() == 0 {
        Seq::empty()
    } else {
        let prev = run_emissions(lines.drop_last(), keyword);
        match step(run_state(lines.drop_last(), keyword), lines.last(), keyword).1 {
            Some(e) => prev.push(bucket_line(e.0, e.1, e.2)),
            None => prev,
        }
    }
}

/// The whole printed output of one run: one line per displaced bucket, then
/// the grand-total line.
pub open spec fn run_output(lines: Seq<Seq<char>>, keyword: Seq<char>) -> Seq<Seq<char>> {
    run_emissions(lines, keyword).push(total_line(run_state(lines, keyword).total))
}

/// Runs the analysis over decoded lines and returns the output lines.
pub fn analyze_lines(lines: &Vec<String>, keyword: &str) -> (r: Vec<String>)
    requires
        lines@.len() <= u64::MAX,
    ensures
        r.deep_view() == run_output(lines.deep_view(), keyword@),
{
    let ghost lseq = lines.deep_view();
    let mut agg = Aggregator::new();
    let mut out: Vec<String> = Vec::new();
    let n = lines.len();
    proof {
        assert(lseq.take(0) =~= Seq::<Seq<char>>::empty());
        assert(out.deep_view() =~= run_emissions(lseq.take(0), keyword@));
    }
    let mut idx: usize = 0;
    while idx < n
        invariant
            n == lines@.len(),
            n <= u64::MAX,
            lseq == lines.deep_view(),
            idx <= n,
            agg@ == run_state(lseq.take(idx as int), keyword@),
            out.deep_view() == run_emissions(lseq.take(idx as int), keyword@),
            agg@.total <= idx,
            model_inv(agg@),
        decreases n - idx,
    {
        proof {
            assert(lseq.take(idx + 1).drop_last() =~= lseq.take(idx as int));
            assert(lseq.take(idx + 1).last() == lines@[idx as int]@);
        }
        let line = &lines[idx];
        let em = agg.advance(line.as_str(), keyword);
        let ghost prev_out = out.deep_view();
        match em {
            Some(e) => {
                let bl = format_bucket_line(&e);
                out.push(bl);
                proof {
                    assert(out.deep_view() =~= prev_out.push(bucket_line(e.date@, e.hour@, e.count as nat)));
                }
            },
            None => {},
        }
        proof {
            assert(out.deep_view() =~= run_emissions(lseq.take(idx + 1), keyword@));
        }
        idx += 1;
    }
    proof {
        assert(lseq.take(n as int) =~= lseq);
    }
    let tl = format_total_line(agg.total());
    let ghost prev_out = out.deep_view();
    out.push(tl);
    proof {
        assert(out.deep_view() =~= prev_out.push(total_line(agg@.total)));
    }
    out
}

/// Strips one trailing carriage return, as the line producer does.
pub open spec fn strip_cr(l: Seq<u8>) -> Seq<u8> {
    if l.len() > 0 && l.last() == 13 {
        l.drop_last()
    } else {
        l
    }
}

/// The newline-delimited pieces of a byte stream, newline bytes themselves
/// excluded; a trailing newline opens no extra empty piece.
pub open spec fn raw_lines(s: Seq<u8>) -> Seq<Seq<u8>>
    decreases s.len(),
{
    if s.len() == 0 {
        Seq::empty()
    } else if s[0] == 10 {
        seq![Seq::<u8>::empty()] + raw_lines(s.skip(1))
    } else {
        let rest = raw_lines(s.skip(1));
        if rest.len() == 0 {
            seq![seq![s[0]]]
        } else {
            seq![seq![s[0]] + rest[0]] + rest.skip(1)
        }
    }
}

/// The text lines of a byte stream: newline-delimited, the newline stripped,
/// one trailing carriage return per line stripped too.
pub open spec fn lines_of_bytes(s: Seq<u8>) -> Seq<Seq<u8>> {
    raw_lines(s).map_values(|l: Seq<u8>| strip_cr(l))
}

/// Prepending newline-free bytes to a stream extends its first line.
proof fn lemma_raw_lines_prepend(c: Seq<u8>, s: Seq<u8>)
    requires
        forall|i: int| 0 <= i < c.len() ==> c[i] != 10,
    ensures
        raw_lines(c + s) == (if c.len() == 0 {
            raw_lines(s)
        } else if raw_lines(s).len() == 0 {
            seq![c]
        } else {
            seq![c + raw_lines(s)[0]] + raw_lines(s).skip(1)
        }),
    decreases c.len(),
{
    if c.len() == 0 {
        assert(c + s =~= s);
    } else {
        let cs = c + s;
        assert(cs.len() > 0 && cs[0] == c[0] && c[0] != 10);
        assert(cs.skip(1) =~= c.skip(1) + s);
        lemma_raw_lines_prepend(c.skip(1), s);
        let rest = raw_lines(cs.skip(1));
        let rs = raw_lines(s);
        if c.len() == 1 {
            assert(c.skip(1).len() == 0);
            if rs.len() == 0 {
                assert(raw_lines(cs) =~~= seq![c]) by {
                    assert(seq![cs[0]] =~= c);
                }
            } else {
                assert(raw_lines(cs) =~~= seq![c + rs[0]] + rs.skip(1)) by {
                    assert(seq![cs[0]] + rs[0] =~= c + rs[0]);
                }
            }
        } else {
            if rs.len() == 0 {
                assert(rest =~~= seq![c.skip(1)]);
                assert(raw_lines(cs) =~~= seq![c]) by {
                    assert(seq![cs[0]] + c.skip(1) =~= c);
                    assert((seq![c.skip(1)]).skip(1) =~~= Seq::<Seq<u8>>::empty());
                }
            } else {
                assert(rest =~~= seq![c.skip(1) + rs[0]] + rs.skip(1));
                assert(raw_lines(cs) =~~= seq![c + rs[0]] + rs.skip(1)) by {
                    assert(seq![cs[0]] + rest[0] =~= c + rs[0]);
                    assert(rest.skip(1) =~~= rs.skip(1));
                }
            }
        }
    }
}

/// Splits content into its text lines, as the line producer does: delimited
/// by newlines, the newline stripped, one trailing carriage return stripped.
pub fn split_bytes_lines(data: &[u8]) -> (r: Vec<Vec<u8>>)
    ensures
        r.deep_view() == lines_of_bytes(data@),
{
    let n = data.len();
    let mut out: Vec<Vec<u8>> = Vec::new();
    let ghost mut raws: Seq<Seq<u8>> = Seq::empty();
    let mut cur: Vec<u8> = Vec::new();
    let mut i: usize = 0;
    proof {
        assert(cur@ + data@.skip(0) =~= data@);
        assert(out.deep_view() =~= raws.map_values(|l: Seq<u8>| strip_cr(l)));
    }
    while i < n
        invariant
            n == data@.len(),
            i <= n,
            forall|t: int| 0 <= t < cur@.len() ==> cur@[t] != 10,
            raw_lines(data@) == raws + raw_lines(cur@ + data@.skip(i as int)),
            out.deep_view() == raws.map_values(|l: Seq<u8>| strip_cr(l)),
        decreases n - i,
    {
        let b = data[i];
        if b == 10 {
            proof {
                let s = data@.skip(i as int);
                lemma_raw_lines_prepend(cur@, s);
                assert(s.skip(1) =~= data@.skip(i + 1));
                assert(raw_lines(s) == seq![Seq::<u8>::empty()] + raw_lines(data@.skip(i + 1)));
                assert(raw_lines(s)[0] =~= Seq::<u8>::empty());
                assert(raw_lines(s).skip(1) =~~= raw_lines(data@.skip(i + 1)));
                if cur@.len() > 0 {
                    assert(cur@ + raw_lines(s)[0] =~= cur@);
                }
                assert(Seq::<u8>::empty() + data@.skip(i + 1) =~= data@.skip(i + 1));
                assert(raw_lines(cur@ + s) =~~= seq![cur@] + raw_lines(data@.skip(i + 1)));
                assert(raws + raw_lines(cur@ + s) =~~= raws.push(cur@) + raw_lines(
                    data@.skip(i + 1),
                ));
            }
            let ghost rawline = cur@;
            if cur.len() > 0 && cur[cur.len() - 1] == 13 {
                let _ = cur.pop();
            }
            proof {
                assert(cur@ =~= strip_cr(rawline));
                assert(cur.deep_view() =~= strip_cr(rawline));
            }
            let ghost prev_out = out.deep_view();
            let ghost old_raws = raws;
            out.push(cur);
            cur = Vec::new();
            proof {
                raws = old_raws.push(rawline);
                assert(out.deep_view() =~~= prev_out.push(strip_cr(rawline)));
                assert(raws.map_values(|l: Seq<u8>| strip_cr(l)) =~~= old_raws.map_values(
                    |l: Seq<u8>| strip_cr(l),
                ).push(strip_cr(rawline)));
                assert(out.deep_view() =~~= raws.map_values(|l: Seq<u8>| strip_cr(l)));
                assert(cur@ + data@.skip(i + 1) =~= data@.skip(i + 1));
            }
        } else {
            let ghost old_cur = cur@;
            cur.push(b);
            proof {
                assert(cur@ + data@.skip(i + 1) =~= old_cur + data@.skip(i as int));
            }
        }
        i += 1;
    }
    proof {
        assert(cur@ + data@.skip(n as int) =~= cur@);
    }
    if cur.len() > 0 {
        proof {
            lemma_raw_lines_prepend(cur@, Seq::<u8>::empty());
            assert(raw_lines(Seq::<u8>::empty()).len() == 0);
            assert(raw_lines(data@) == raws.push(cur@));
        }
        let ghost rawline = cur@;
        if cur[cur.len() - 1] == 13 {
            let _ = cur.pop();
        }
        proof {
            assert(cur@ =~= strip_cr(rawline));
            assert(cur.deep_view() =~= strip_cr(rawline));
        }
        let ghost prev_out = out.deep_view();
        let ghost old_raws = raws;
        out.push(cur);
        proof {
            raws = old_raws.push(rawline);
            assert(out.deep_view() =~~= prev_out.push(strip_cr(rawline)));
            assert(raws.map_values(|l: Seq<u8>| strip_cr(l)) =~~= old_raws.map_values(
                |l: Seq<u8>| strip_cr(l),
            ).push(strip_cr(rawline)));
            assert(out.deep_view() =~~= raws.map_values(|l: Seq<u8>| strip_cr(l)));
        }
    } else {
        proof {
            assert(raw_lines(cur@).len() == 0);
            assert(raw_lines(data@) =~~= raws);
        }
    }
    proof {
        assert(out.deep_view() =~~= lines_of_bytes(data@));
    }
    out
}

/// The decoded text of the given byte lines, in order; a line that is not
/// valid UTF-8 is skipped.
pub open spec fn decode_lines(ls: Seq<Seq<u8>>) -> Seq<Seq<char>>
    decreases ls.len(),
{
    if ls.len() == 0 {
        Seq::empty()
    } else {
        let prev = decode_lines(ls.drop_last());
        if valid_utf8(ls.last()) {
            prev.push(decode_utf8(ls.last()))
        } else {
            prev
        }
    }
}

/// Relies on `String::from_utf8` of std: it succeeds exactly on valid UTF-8
/// and decodes those bytes.
#[verifier::external_body]
pub(crate) fn decode_line(bytes: &Vec<u8>) -> (r: Option<String>)
    ensures
        r is Some <==> valid_utf8(bytes@),
        r matches Some(s) ==> s@ == decode_utf8(bytes@),
{
    match String::from_utf8(bytes.clone()) {
        Ok(s) => Some(s),
        Err(_) => None,
    }
}

/// Decodes byte lines to text lines, skipping the undecodable ones, as the
/// line producer's skip-and-continue policy asks.
pub fn decode_all(blines: &Vec<Vec<u8>>) -> (r: Vec<String>)
    ensures
        r.deep_view() == decode_lines(blines.deep_view()),
        r@.len() <= blines@.len(),
{
    let ghost bseq = blines.deep_view();
    let mut out: Vec<String> = Vec::new();
    let n = blines.len();
    proof {
        assert(bseq.take(0) =~= Seq::<Seq<u8>>::empty());
        assert(out.deep_view() =~= decode_lines(bseq.take(0)));
    }
    let mut i: usize = 0;
    while i < n
        invariant
            n == blines@.len(),
            bseq == blines.deep_view(),
            i <= n,
            out.deep_view() == decode_lines(bseq.take(i as int)),
            out@.len() <= i,
        decreases n - i,
    {
        proof {
            assert(bseq.take(i + 1).drop_last() =~= bseq.take(i as int));
            assert(bseq.take(i + 1).last() == blines@[i as int]@);
        }
        let ghost prev_out = out.deep_view();
        match decode_line(&blines[i]) {
            Some(s) => {
                out.push(s);
                proof {
                    assert(out.deep_view() =~= prev_out.push(decode_utf8(bseq.take(i + 1).last())));
                }
            },
            None => {},
        }
        proof {
            assert(out.deep_view() =~= decode_lines(bseq.take(i + 1)));
        }
        i += 1;
    }
    proof {
        assert(bseq.take(n as int) =~= bseq);
    }
    out
}

/// The text lines of a string: what the line producer yields when the
/// string's UTF-8 encoding is the byte stream.
pub open spec fn text_lines(s: Seq<char>) -> Seq<Seq<char>> {
    decode_lines(lines_of_bytes(vstd::utf8::encode_utf8(s)))
}

/// Splits text into its lines: newline-delimited, the newline stripped, one
/// trailing carriage return per line stripped.
pub fn split_text_lines(input: &str) -> (r: Vec<String>)
    ensures
        r.deep_view() == text_lines(input@),
{
    let blines = split_bytes_lines(input.as_bytes());
    decode_all(&blines)
}

/// The whole printed output of a run over uncompressed content.
pub open spec fn analysis_of_bytes(data: Seq<u8>, keyword: Seq<char>) -> Seq<Seq<char>> {
    run_output(decode_lines(lines_of_bytes(data)), keyword)
}

/// Byte content has at most one more line than bytes.
proof fn lemma_raw_lines_count(s: Seq<u8>)
    ensures
        raw_lines(s).len() <= s.len() + 1,
    decreases s.len(),
{
    if s.len() > 0 {
        lemma_raw_lines_count(s.skip(1));
    }
}

/// Runs the analysis over uncompressed content and returns the output lines.
pub fn analyze_bytes(data: &[u8], keyword: &str) -> (r: Vec<String>)
    requires
        data@.len() < u64::MAX,
    ensures
        r.deep_view() == analysis_of_bytes(data@, keyword@),
{
    let blines = split_bytes_lines(data);
    proof {
        lemma_raw_lines_count(data@);
    }
    let slines = decode_all(&blines);
    analyze_lines(&slines, keyword)
}

/// The summed error contributions of a block of lines: one per line that
/// contains the keyword.
pub open spec fn err_sum(block: Seq<Seq<char>>, keyword: Seq<char>) -> nat
    decreases block.len(),
{
    if block.len() == 0 {
        0
    } else {
        err_sum(block.drop_last(), keyword) + err_of(block.last(), keyword)
    }
}

/// Consecutive lines sharing the open bucket's key sum their error
/// contributions monotonically into that one bucket, and no emission occurs
/// until the key changes: feeding a whole block of lines keyed like the open
/// bucket emits nothing, keeps the key, and grows the count and the total by
/// the block's summed contribution.
pub proof fn lemma_same_key_block(
    lines: Seq<Seq<char>>,
    block: Seq<Seq<char>>,
    keyword: Seq<char>,
    k: (Seq<char>, Seq<char>),
)
    requires
        run_state(lines, keyword).key == Some(k),
        forall|i: int| 0 <= i < block.len() ==> key_of_line(#[trigger] block[i]) == Some(k),
    ensures
        run_emissions(lines + block, keyword) == run_emissions(lines, keyword),
        run_state(lines + block, keyword).key == Some(k),
        run_state(lines + block, keyword).count == run_state(lines, keyword).count + err_sum(
            block,
            keyword,
        ),
        run_state(lines + block, keyword).total == run_state(lines, keyword).total + err_sum(
            block,
            keyword,
        ),
    decreases block.len(),
{
    if block.len() == 0 {
        assert(lines + block =~= lines);
    } else {
        lemma_same_key_block(lines, block.drop_last(), keyword, k);
        assert((lines + block).drop_last() =~= lines + block.drop_last());
        assert((lines + block).last() == block.last());
        assert(key_of_line(block[block.len() - 1]) == Some(k));
    }
}

/// The analysis is a pure function of the content and the keyword: two runs
/// over the same unmodified content print identical output.
pub proof fn lemma_run_deterministic(
    r1: Seq<Seq<char>>,
    r2: Seq<Seq<char>>,
    data: Seq<u8>,
    keyword: Seq<char>,
)
    requires
        r1 == analysis_of_bytes(data, keyword),
        r2 == analysis_of_bytes(data, keyword),
    ensures
        r1 == r2,
{
}

/// When the last line opens a new bucket, that bucket is never emitted: the
/// emissions grow only by the displaced bucket's line (if a bucket was open),
/// while the grand total does reflect the last line's error contribution.
pub proof fn lemma_final_bucket_not_flushed(
    lines: Seq<Seq<char>>,
    l: Seq<char>,
    keyword: Seq<char>,
    k: (Seq<char>, Seq<char>),
)
    requires
        key_of_line(l) == Some(k),
        run_state(lines, keyword).key != Some(k),
    ensures
        ({
            let st = run_state(lines, keyword);
            let e = err_of(l, keyword);
            &&& run_state(lines.push(l), keyword) == (AggModel {
                key: Some(k),
                count: e,
                total: st.total + e,
            })
            &&& run_emissions(lines.push(l), keyword) == (match st.key {
                Some(pk) => run_emissions(lines, keyword).push(bucket_line(pk.0, pk.1, st.count)),
                None => run_emissions(lines, keyword),
            })
            &&& run_output(lines.push(l), keyword).last() == total_line(st.total + e)
        }),
{
    assert(lines.push(l).drop_last() =~= lines);
    assert(lines.push(l).last() == l);
}

} // verus!
