//! Small helpers on byte strings.

use vstd::prelude::*;
use vstd::string::StringSliceAdditionalSpecFns;
use vstd::utf8::valid_utf8;

verus! {

/// Whether two byte strings hold the same bytes.
pub fn bytes_eq(a: &[u8], b: &[u8]) -> (res: bool)
    ensures
        res == (a@ == b@),
{
    if a.len() != b.len() {
        return false;
    }
    let mut i: usize = 0;
    while i < a.len()
        invariant
            a@.len() == b@.len(),
            i <= a@.len(),
            forall|j: int| 0 <= j < i ==> a@[j] == b@[j],
        decreases a@.len() - i,
    {
        if a[i] != b[i] {
            return false;
        }
        i += 1;
    }
    assert(a@ =~= b@);
    true
}

/// The text that `bytes` encode. This is `core::str::from_utf8`: it gives
/// a text exactly where the bytes are valid UTF-8, and the text is made of
/// those bytes.
#[verifier::external_body]
pub(crate) fn text_of(bytes: &[u8]) -> (res: Option<&str>)
    ensures
        res is Some == valid_utf8(bytes@),
        res matches Some(text) ==> text.spec_bytes() == bytes@,
{
    match core::str::from_utf8(bytes) {
        Ok(text) => Some(text),
        Err(_) => None,
    }
}

} // verus!
