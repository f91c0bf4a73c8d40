//! Classification of a file's leading bytes: a non-empty prefix that decodes
//! as UTF-8 marks a text file; anything else is another kind of file.

use vstd::prelude::*;
use vstd::slice::slice_to_vec;
use vstd::utf8::valid_utf8;
use crate::analysis::decode_line;

verus! {

/// Decides whether the bytes read from a file mark it as a text file: some
/// bytes were read, and they decode as UTF-8.
pub fn is_text_content(data: &[u8]) -> (r: bool)
    ensures
        r == (data@.len() > 0 && valid_utf8(data@)),
{
    if data.len() == 0 {
        return false;
    }
    let v = slice_to_vec(data);
    decode_line(&v).is_some()
}

} // verus!
