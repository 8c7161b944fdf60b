//! Inputs for the search runners, once the random draws are made: the
//! biased input that ends a block open, and how an input is mutated between
//! rounds (flip one bit, append a byte, or drop the last one).
use vstd::prelude::*;
use vstd::utf8::valid_utf8;
use crate::spec::{lemma_longest_valid_prefix_unique, lemma_valid_step, valid_prefix_len};
use crate::window::{byte_before, lemma_ascii_padding_keeps_validity, lemma_window_check_decides_utf8};

verus! {

/// The most bytes that a mutation lets an input grow to.
pub const MAX_MUTATED_LEN: usize = 256;

/// One mutation step.
#[derive(Clone, Copy, Debug, PartialEq, Eq)]
pub enum Mutation {
    FlipBit,
    PushByte,
    PopByte,
    Keep,
}

/// The mutation that the drawn `choice` (0, 1 or 2) selects for an input of
/// `len` bytes: 0 flips a bit of a nonempty input, 1 appends a byte to an
/// input of fewer than `MAX_MUTATED_LEN` bytes, and otherwise the last byte
/// of a nonempty input is dropped.
pub open spec fn mutation_for(choice: u8, len: nat) -> Mutation {
    if choice == 0 && len > 0 {
        Mutation::FlipBit
    } else if choice == 1 && len < MAX_MUTATED_LEN {
        Mutation::PushByte
    } else if len > 0 {
        Mutation::PopByte
    } else {
        Mutation::Keep
    }
}

/// The length of an input of `len` bytes after `m`.
pub open spec fn mutated_len(m: Mutation, len: nat) -> nat {
    match m {
        Mutation::PushByte => len + 1,
        Mutation::PopByte => if len > 0 {
            (len - 1) as nat
        } else {
            0
        },
        _ => len,
    }
}

/// Mutation never grows an input past `MAX_MUTATED_LEN` bytes, changes its
/// length by at most one byte, and never drops a byte from an empty one; so
/// a chain of mutations from a biased input keeps every input within
/// `MAX_MUTATED_LEN` bytes. This holds whatever the other draws are.
pub proof fn lemma_mutation_keeps_len_bound(choice: u8, len: nat)
    ensures
        len <= MAX_MUTATED_LEN ==> mutated_len(mutation_for(choice, len), len) <= MAX_MUTATED_LEN,
        mutated_len(mutation_for(choice, len), len) <= len + 1,
        len <= mutated_len(mutation_for(choice, len), len) + 1,
        mutation_for(choice, len) == Mutation::PopByte ==> len > 0,
        mutation_for(choice, len) == Mutation::FlipBit ==> len > 0,
{
}

/// Selects the mutation for the drawn `choice`.
pub fn choose_mutation(choice: u8, len: usize) -> (m: Mutation)
    ensures
        m == mutation_for(choice, len as nat),
{
    if choice == 0 && len > 0 {
        Mutation::FlipBit
    } else if choice == 1 && len < MAX_MUTATED_LEN {
        Mutation::PushByte
    } else if len > 0 {
        Mutation::PopByte
    } else {
        Mutation::Keep
    }
}

/// Applies `m` with the drawn `index`, `bit` and `byte`.
pub fn apply_mutation(input: Vec<u8>, m: Mutation, index: usize, bit: u32, byte: u8) -> (out: Vec<
    u8,
>)
    requires
        m == Mutation::FlipBit ==> index < input@.len() && bit < 8,
        m == Mutation::PopByte ==> input@.len() > 0,
    ensures
        m == Mutation::FlipBit ==> out@ == input@.update(
            index as int,
            input@[index as int] ^ ((1u8 << bit) as u8),
        ),
        m == Mutation::PushByte ==> out@ == input@.push(byte),
        m == Mutation::PopByte ==> out@ == input@.drop_last(),
        m == Mutation::Keep ==> out@ == input@,
        out@.len() == mutated_len(m, input@.len()),
{
    let mut out = input;
    match m {
        Mutation::FlipBit => {
            let flipped = out[index] ^ (1u8 << bit);
            out.set(index, flipped);
        },
        Mutation::PushByte => {
            out.push(byte);
        },
        Mutation::PopByte => {
            out.pop();
        },
        Mutation::Keep => {},
    }
    out
}

/// The biased input: `64 * k - 1` ASCII bytes and then a byte of 0xC0 or
/// above, so that the input ends at a block's end inside a sequence that
/// it never completes. It is invalid, and only its last byte is.
pub fn biased_input(k: usize, body: Vec<u8>, tail: u8) -> (v: Vec<u8>)
    requires
        1 <= k <= 3,
        body@.len() == 64 * k - 1,
        forall|i: int| 0 <= i < body@.len() ==> #[trigger] body@[i] <= 0x7F,
        tail >= 0xC0,
    ensures
        v@ == body@.push(tail),
        v@.len() <= MAX_MUTATED_LEN,
        !valid_utf8(v@),
        valid_prefix_len(v@) == v@.len() - 1,
{
    let mut v = body;
    v.push(tail);
    proof {
        let s = v@;
        let n = s.len() as int;
        let empty = Seq::<u8>::empty();
        lemma_valid_step(empty);
        lemma_ascii_padding_keeps_validity(empty, body@);
        assert(empty + body@ =~= body@);
        assert(s.take(n - 1) =~= body@);
        lemma_window_check_decides_utf8(s);
        assert(byte_before(s, n, 1) == tail);
        assert(s.take(n) =~= s);
        lemma_longest_valid_prefix_unique(s, n - 1);
    }
    v
}

/// What each drawn choice does: 0 flips a bit of a nonempty input, 1 adds
/// a byte while there is room, and every other nonempty input loses its last
/// byte; an input is kept unchanged only when it is empty.
pub proof fn lemma_mutation_choices(choice: u8, len: nat)
    ensures
        choice == 0 && len > 0 ==> mutation_for(choice, len) == Mutation::FlipBit,
        choice == 1 && len < MAX_MUTATED_LEN ==> mutation_for(choice, len) == Mutation::PushByte,
        len > 0 && choice != 0 && !(choice == 1 && len < MAX_MUTATED_LEN) ==> mutation_for(
            choice,
            len,
        ) == Mutation::PopByte,
        mutation_for(choice, len) == Mutation::Keep ==> len == 0,
        len > 0 ==> mutated_len(mutation_for(choice, len), len) != len || mutation_for(choice, len)
            == Mutation::FlipBit,
{
}

} // verus!
