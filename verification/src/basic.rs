//! Validation that only tells whether the input is UTF-8.
use vstd::prelude::*;
use vstd::utf8::*;
use crate::checker::{Utf8Checker, CHUNK_SIZE};
use crate::window::lemma_ascii_padding_keeps_validity;

verus! {

/// The input is not valid UTF-8; nothing more is said.
#[derive(Clone, Copy, Debug, PartialEq, Eq)]
pub struct Utf8Error {}

/// Copies `input[start..]` into a block of `CHUNK_SIZE` bytes padded with
/// zeros.
pub fn padded_tail(input: &[u8], start: usize) -> (block: Vec<u8>)
    requires
        start <= input.len(),
        input.len() - start < CHUNK_SIZE,
    ensures
        block@.len() == CHUNK_SIZE,
        block@.subrange(0, input@.len() - start) == input@.subrange(
            start as int,
            input@.len() as int,
        ),
        forall|t: int| input@.len() - start <= t < CHUNK_SIZE ==> #[trigger] block@[t] == 0,
{
    let mut block: Vec<u8> = Vec::with_capacity(CHUNK_SIZE);
    let mut j = start;
    while j < input.len()
        invariant
            start <= j <= input@.len(),
            input@.len() - start < CHUNK_SIZE,
            block@ == input@.subrange(start as int, j as int),
        decreases input@.len() - j,
    {
        block.push(input[j]);
        j = j + 1;
    }
    let filled = block.len();
    while block.len() < CHUNK_SIZE
        invariant
            filled == input@.len() - start,
            filled <= block@.len() <= CHUNK_SIZE,
            block@.subrange(0, filled as int) == input@.subrange(start as int, input@.len() as int),
            forall|t: int| filled <= t < block@.len() ==> #[trigger] block@[t] == 0,
        decreases CHUNK_SIZE - block@.len(),
    {
        let ghost before = block@;
        block.push(0);
        assert(block@.subrange(0, filled as int) =~= before.subrange(0, filled as int));
    }
    block
}

/// Checks `input` block by block; the last, shorter block is padded with
/// zeros. `Ok` exactly when `input` is valid UTF-8.
pub fn from_utf8(input: &[u8]) -> (res: Result<(), Utf8Error>)
    ensures
        res is Ok <==> valid_utf8(input@),
{
    let mut checker = Utf8Checker::new();
    let len = input.len();
    let mut pos: usize = 0;
    while len - pos >= CHUNK_SIZE
        invariant
            pos <= len == input@.len(),
            checker.inv(),
            checker@ == input@.subrange(0, pos as int),
        decreases len - pos,
    {
        checker.check_block(input, pos);
        assert(input@.subrange(0, pos as int) + input@.subrange(pos as int, pos + CHUNK_SIZE)
            =~= input@.subrange(0, pos + CHUNK_SIZE));
        pos = pos + CHUNK_SIZE;
    }
    let ghost taken = checker@;
    if pos < len {
        let block = padded_tail(input, pos);
        checker.check_block(block.as_slice(), 0);
        proof {
            let pad = block@.subrange(len - pos, CHUNK_SIZE as int);
            assert(block@ =~= input@.subrange(pos as int, len as int) + pad);
            assert(block@.subrange(0, CHUNK_SIZE as int) =~= block@);
            assert(checker@ =~= input@ + pad);
            assert forall|t: int| 0 <= t < pad.len() implies #[trigger] pad[t] < 0x80 by {
                assert(pad[t] == block@[len - pos + t]);
            }
            lemma_ascii_padding_keeps_validity(input@, pad);
        }
    } else {
        assert(taken =~= input@);
    }
    checker.check_incomplete_pending();
    if checker.has_error() {
        Err(Utf8Error {})
    } else {
        Ok(())
    }
}

} // verus!
