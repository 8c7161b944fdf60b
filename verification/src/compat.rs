//! Validation that, on invalid input, reports what std's `Utf8Error`
//! reports: the length of the longest valid prefix and the length of the
//! invalid sequence after it.
use vstd::prelude::*;
use vstd::utf8::*;
use crate::basic::padded_tail;
use crate::checker::{is_cont_byte, Utf8Checker, CHUNK_SIZE};
use crate::spec::{
    invalid_sequence_len,
    lead_width,
    lemma_first_scalar_is_wf,
    lemma_valid_prefix_is_longest,
    lemma_valid_prefix_step,
    second_ok,
    valid_prefix_len,
    wf_len,
};
use crate::window::{lemma_ascii_padding_keeps_validity, lemma_prefix_window_error};

verus! {

/// Where the input stops being valid UTF-8 and how.
#[derive(Clone, Copy, Debug, PartialEq, Eq)]
pub struct Utf8Error {
    valid_up_to: usize,
    error_len: Option<u8>,
}

impl View for Utf8Error {
    type V = (usize, Option<usize>);

    /// The pair (`valid_up_to`, `error_len`).
    closed spec fn view(&self) -> (usize, Option<usize>) {
        (
            self.valid_up_to,
            match self.error_len {
                Some(n) => Some(n as usize),
                None => None,
            },
        )
    }
}

impl Utf8Error {
    /// The length of the longest prefix of the input that is valid UTF-8.
    pub fn valid_up_to(&self) -> (r: usize)
        ensures
            r == self@.0,
    {
        self.valid_up_to
    }

    /// `None` when the input ends inside a sequence that is well-formed so
    /// far; else the length of the invalid sequence at `valid_up_to`.
    pub fn error_len(&self) -> (r: Option<usize>)
        ensures
            r == self@.1,
    {
        match self.error_len {
            Some(n) => Some(n as usize),
            None => None,
        }
    }
}

fn lead_width_of(b: u8) -> (w: usize)
    ensures
        w == lead_width(b),
{
    if b <= 0x7F {
        1
    } else if 0xC2 <= b && b <= 0xDF {
        2
    } else if 0xE0 <= b && b <= 0xEF {
        3
    } else if 0xF0 <= b && b <= 0xF4 {
        4
    } else {
        0
    }
}

fn second_byte_ok(b0: u8, b1: u8) -> (r: bool)
    ensures
        r == second_ok(b0, b1),
{
    if b0 == 0xE0 {
        0xA0 <= b1 && b1 <= 0xBF
    } else if b0 == 0xED {
        0x80 <= b1 && b1 <= 0x9F
    } else if b0 == 0xF0 {
        0x90 <= b1 && b1 <= 0xBF
    } else if b0 == 0xF4 {
        0x80 <= b1 && b1 <= 0x8F
    } else {
        is_cont_byte(b1)
    }
}

/// The length of the well-formed sequence at `input[i..]`, or 0.
fn sequence_len_at(input: &[u8], i: usize) -> (k: usize)
    requires
        i < input@.len(),
    ensures
        k == wf_len(input@.skip(i as int)),
{
    let ghost r = input@.skip(i as int);
    let n = input.len();
    let b0 = input[i];
    assert(r[0] == b0);
    let w = lead_width_of(b0);
    if w == 1 {
        return 1;
    }
    if w == 0 || i + 1 >= n {
        return 0;
    }
    let b1 = input[i + 1];
    assert(r[1] == b1);
    if w == 2 {
        return if is_cont_byte(b1) {
            2
        } else {
            0
        };
    }
    if !second_byte_ok(b0, b1) || i + 2 >= n {
        return 0;
    }
    let b2 = input[i + 2];
    assert(r[2] == b2);
    if !is_cont_byte(b2) {
        return 0;
    }
    if w == 3 {
        return 3;
    }
    if i + 3 >= n {
        return 0;
    }
    let b3 = input[i + 3];
    assert(r[3] == b3);
    if is_cont_byte(b3) {
        4
    } else {
        0
    }
}

/// What std reports as `error_len` for an invalid sequence at `input[i..]`.
fn invalid_len_at(input: &[u8], i: usize) -> (r: Option<u8>)
    requires
        i < input@.len(),
    ensures
        match r {
            Some(n) => invalid_sequence_len(input@.skip(i as int)) == Some(n as usize),
            None => invalid_sequence_len(input@.skip(i as int)) is None,
        },
{
    let ghost r = input@.skip(i as int);
    let n = input.len();
    let b0 = input[i];
    assert(r[0] == b0);
    let w = lead_width_of(b0);
    if w == 0 {
        return Some(1);
    }
    if i + 1 >= n {
        return None;
    }
    let b1 = input[i + 1];
    assert(r[1] == b1);
    if !second_byte_ok(b0, b1) {
        return Some(1);
    }
    if w == 2 {
        return Some(2);
    }
    if i + 2 >= n {
        return None;
    }
    let b2 = input[i + 2];
    assert(r[2] == b2);
    if !is_cont_byte(b2) {
        return Some(2);
    }
    if w == 3 {
        return Some(3);
    }
    if i + 3 >= n {
        return None;
    }
    let b3 = input[i + 3];
    assert(r[3] == b3);
    if !is_cont_byte(b3) {
        Some(3)
    } else {
        Some(4)
    }
}

/// Walks `input` sequence by sequence up to the first malformed one.
fn locate_error(input: &[u8]) -> (e: Utf8Error)
    requires
        !valid_utf8(input@),
    ensures
        e@.0 == valid_prefix_len(input@),
        e@.1 == invalid_sequence_len(input@.skip(valid_prefix_len(input@) as int)),
{
    proof {
        lemma_valid_prefix_is_longest(input@);
        assert(input@.skip(0) =~= input@);
    }
    let n = input.len();
    let mut i: usize = 0;
    while i < n
        invariant
            i <= n == input@.len(),
            valid_prefix_len(input@) == i + valid_prefix_len(input@.skip(i as int)),
            valid_prefix_len(input@) < n,
        decreases n - i,
    {
        let k = sequence_len_at(input, i);
        if k == 0 {
            let error_len = invalid_len_at(input, i);
            return Utf8Error { valid_up_to: i, error_len };
        }
        proof {
            lemma_first_scalar_is_wf(input@.skip(i as int));
            lemma_valid_prefix_step(input@, i as int);
        }
        i = i + k;
    }
    proof {
        assert(input@.skip(i as int).len() == 0);
    }
    Utf8Error { valid_up_to: i, error_len: None }
}

/// Checks `input` block by block and stops at the first block that shows
/// an error; the error is then located exactly.
pub fn from_utf8(input: &[u8]) -> (res: Result<(), Utf8Error>)
    ensures
        res is Ok <==> valid_utf8(input@),
        res matches Err(e) ==> e@.0 == valid_prefix_len(input@) && e@.1 == invalid_sequence_len(
            input@.skip(valid_prefix_len(input@) as int),
        ),
{
    let mut checker = Utf8Checker::new();
    let len = input.len();
    let mut pos: usize = 0;
    while len - pos >= CHUNK_SIZE
        invariant
            pos <= len == input@.len(),
            checker.inv(),
            checker@ == input@.subrange(0, pos as int),
        decreases len - pos,
    {
        checker.check_block(input, pos);
        assert(input@.subrange(0, pos as int) + input@.subrange(pos as int, pos + CHUNK_SIZE)
            =~= input@.subrange(0, pos + CHUNK_SIZE));
        pos = pos + CHUNK_SIZE;
        if checker.has_error() {
            proof {
                lemma_prefix_window_error(input@, pos as int);
            }
            return Err(locate_error(input));
        }
    }
    let ghost taken = checker@;
    if pos < len {
        let block = padded_tail(input, pos);
        checker.check_block(block.as_slice(), 0);
        proof {
            let pad = block@.subrange(len - pos, CHUNK_SIZE as int);
            assert(block@ =~= input@.subrange(pos as int, len as int) + pad);
            assert(block@.subrange(0, CHUNK_SIZE as int) =~= block@);
            assert(checker@ =~= input@ + pad);
            assert forall|t: int| 0 <= t < pad.len() implies #[trigger] pad[t] < 0x80 by {
                assert(pad[t] == block@[len - pos + t]);
            }
            lemma_ascii_padding_keeps_validity(input@, pad);
        }
    } else {
        assert(taken =~= input@);
    }
    checker.check_incomplete_pending();
    if checker.has_error() {
        Err(locate_error(input))
    } else {
        Ok(())
    }
}

} // verus!
