//! The decompression selector: a file whose name ends in `.gz` is read
//! through a transparent gzip decompressor; anything else is read raw.

use vstd::prelude::*;
use crate::analysis::{analysis_of_bytes, analyze_bytes};

verus! {

/// What gzip decompression yields on a well-formed stream: a function of the
/// compressed bytes alone.
pub uninterp spec fn gunzip_of(data: Seq<u8>) -> Seq<u8>;

/// Whether the bytes form a well-formed gzip stream, so that decompressing
/// them succeeds: a function of the compressed bytes alone.
pub uninterp spec fn gunzip_ok(data: Seq<u8>) -> bool;

/// Relies on `flate2::read::GzDecoder`: decompressing a gzip stream read from
/// a byte slice is deterministic, so both its success and its yield are
/// functions of the compressed bytes alone; a malformed stream fails.
#[verifier::external_body]
fn gunzip(data: &[u8]) -> (r: Option<Vec<u8>>)
    ensures
        r is Some <==> gunzip_ok(data@),
        r matches Some(v) ==> v@ == gunzip_of(data@),
{
    let mut decoder = flate2::read::GzDecoder::new(data);
    let mut out: Vec<u8> = Vec::new();
    match std::io::Read::read_to_end(&mut decoder, &mut out) {
        Ok(_) => Some(out),
        Err(_) => None,
    }
}

/// The whole printed output of a run over gzip-compressed content.
pub open spec fn analysis_of_gz(data: Seq<u8>, keyword: Seq<char>) -> Seq<Seq<char>> {
    analysis_of_bytes(gunzip_of(data), keyword)
}

/// Runs the analysis over gzip-compressed content. It succeeds on exactly the
/// well-formed streams whose decompressed length leaves the 64-bit line
/// counter headroom; `None` reports a malformed compressed stream (or content
/// too large for this machine).
pub fn analyze_gz(data: &[u8], keyword: &str) -> (r: Option<Vec<String>>)
    ensures
        r is Some <==> gunzip_ok(data@) && gunzip_of(data@).len() < u64::MAX,
        r matches Some(v) ==> v.deep_view() == analysis_of_gz(data@, keyword@),
{
    let plain = match gunzip(data) {
        Some(p) => p,
        None => {
            return None;
        },
    };
    // The run counts lines in a 64-bit counter, so content whose length
    // leaves it no headroom cannot be analyzed.
    if plain.len() == usize::MAX && u64::MAX == usize::MAX as u64 {
        return None;
    }
    assert(plain@.len() < u64::MAX);
    Some(analyze_bytes(plain.as_slice(), keyword))
}

/// The name selects decompression iff it ends with the `.gz` suffix.
pub open spec fn is_gz_name(name: Seq<char>) -> bool {
    &&& name.len() >= 3
    &&& name[name.len() - 3] == '.'
    &&& name[name.len() - 2] == 'g'
    &&& name[name.len() - 1] == 'z'
}

/// Decides from the file name alone whether content is gzip-compressed.
pub fn is_compressed_name(name: &str) -> (r: bool)
    ensures
        r == is_gz_name(name@),
{
    let n = name.unicode_len();
    if n < 3 {
        return false;
    }
    name.get_char(n - 3) == '.' && name.get_char(n - 2) == 'g' && name.get_char(n - 1) == 'z'
}

/// Runs the analysis over file content, decompressing it first when
/// `compressed` says so; `None` reports a malformed compressed stream.
pub fn analyze(data: &[u8], compressed: bool, keyword: &str) -> (r: Option<Vec<String>>)
    requires
        data@.len() < u64::MAX,
    ensures
        compressed ==> (r is Some <==> gunzip_ok(data@) && gunzip_of(data@).len() < u64::MAX),
        compressed ==> (r matches Some(v) ==> v.deep_view() == analysis_of_gz(data@, keyword@)),
        !compressed ==> (r matches Some(v) && v.deep_view() == analysis_of_bytes(
            data@,
            keyword@,
        )),
{
    if compressed {
        analyze_gz(data, keyword)
    } else {
        Some(analyze_bytes(data, keyword))
    }
}

/// A run over compressed content is a pure function of the bytes and the
/// keyword: two results that both meet `analyze_gz`'s contract agree on
/// whether they succeed and, when they do, on every output line.
pub proof fn lemma_gz_run_deterministic(
    r1: Option<Seq<Seq<char>>>,
    r2: Option<Seq<Seq<char>>>,
    data: Seq<u8>,
    keyword: Seq<char>,
)
    requires
        r1 is Some <==> gunzip_ok(data) && gunzip_of(data).len() < u64::MAX,
        r1 matches Some(v) ==> v == analysis_of_gz(data, keyword),
        r2 is Some <==> gunzip_ok(data) && gunzip_of(data).len() < u64::MAX,
        r2 matches Some(v) ==> v == analysis_of_gz(data, keyword),
    ensures
        r1 == r2,
{
    if r1 is Some {
        assert(r1 == Some(analysis_of_gz(data, keyword)));
        assert(r2 == Some(analysis_of_gz(data, keyword)));
    }
}

/// Round trip: the analysis of gzip-compressed content equals the analysis of
/// the equivalent uncompressed content.
pub proof fn lemma_round_trip(gz: Seq<u8>, plain: Seq<u8>, keyword: Seq<char>)
    requires
        gunzip_of(gz) == plain,
    ensures
        analysis_of_gz(gz, keyword) == analysis_of_bytes(plain, keyword),
{
}

} // verus!
