//! What the standard library's `core::str::from_utf8` reports, taken as
//! plain values.
use vstd::prelude::*;
use vstd::utf8::*;
use crate::spec::invalid_sequence_len;

verus! {

/// The two fields of std's `core::str::Utf8Error`.
#[derive(Clone, Copy, Debug, PartialEq, Eq)]
pub struct StdUtf8Error {
    pub valid_up_to: usize,
    pub error_len: Option<usize>,
}

/// Calls `core::str::from_utf8` on `input` and copies the error's
/// `valid_up_to()` and `error_len()` out.
///
/// Trusted, as std documents the call: it succeeds exactly on valid UTF-8;
/// `valid_up_to` is the maximum index such that `from_utf8(&input[..index])`
/// would succeed; `error_len` is `None` when the end of the input was
/// reached unexpectedly (inside a sequence that is well-formed so far), and
/// otherwise `Some` of the length of the invalid byte sequence at
/// `valid_up_to`: the bytes before the unexpected one, or the unexpected
/// byte alone when it is the first (`invalid_sequence_len`).
#[verifier::external_body]
pub(crate) fn std_from_utf8(input: &[u8]) -> (res: Result<(), StdUtf8Error>)
    ensures
        res is Ok <==> valid_utf8(input@),
        res matches Err(e) ==> {
            &&& e.valid_up_to <= input@.len()
            &&& valid_utf8(input@.take(e.valid_up_to as int))
            &&& forall|j: int|
                e.valid_up_to < j <= input@.len() ==> !valid_utf8(#[trigger] input@.take(j))
            &&& e.error_len == invalid_sequence_len(input@.skip(e.valid_up_to as int))
        },
{
    match core::str::from_utf8(input) {
        Ok(_) => Ok(()),
        Err(e) => Err(StdUtf8Error { valid_up_to: e.valid_up_to(), error_len: e.error_len() }),
    }
}

} // verus!
