//! The block checker: it takes the input in blocks of `CHUNK_SIZE` bytes,
//! checks every four-byte window across block borders, and keeps whether
//! the last block ended inside an open sequence until that is folded into
//! the error at the end of the input.
use vstd::prelude::*;
use vstd::utf8::*;
use crate::spec::is_cont;
use crate::window::{
    byte_before,
    has_window_error,
    incomplete_tail,
    lemma_append_ascii,
    lemma_push_window,
    lemma_window_check_decides_utf8,
    local_error,
};

verus! {

/// The number of bytes the checker takes at a time.
pub const CHUNK_SIZE: usize = 64;

/// Whether `b` is a continuation byte.
pub fn is_cont_byte(b: u8) -> (r: bool)
    ensures
        r == is_cont(b),
{
    0x80 <= b && b <= 0xBF
}

/// Whether the window `p3 p2 p1 c` shows an error.
pub fn check_window(p3: u8, p2: u8, p1: u8, c: u8) -> (r: bool)
    ensures
        r == local_error(p3, p2, p1, c),
{
    let c_cont = is_cont_byte(c);
    let too_short = p1 >= 0xC0 && !c_cont;
    let too_long = p1 < 0x80 && c_cont;
    let overlong_2 = (p1 == 0xC0 || p1 == 0xC1) && c_cont;
    let overlong_3 = p1 == 0xE0 && 0x80 <= c && c < 0xA0;
    let surrogate = p1 == 0xED && 0xA0 <= c && c <= 0xBF;
    let overlong_4 = p1 == 0xF0 && 0x80 <= c && c < 0x90;
    let too_large = (p1 == 0xF4 && 0x90 <= c && c <= 0xBF) || (p1 >= 0xF5 && c_cont);
    let special = too_short || too_long || overlong_2 || overlong_3 || surrogate || overlong_4
        || too_large;
    let two_conts = is_cont_byte(p1) && c_cont;
    let must_be_cont = p2 >= 0xE0 || p3 >= 0xF0;
    special || (two_conts != must_be_cont)
}

/// The checker's state after it has taken some bytes.
pub struct Utf8Checker {
    prev1: u8,
    prev2: u8,
    prev3: u8,
    error: bool,
    incomplete: bool,
    seen: Ghost<Seq<u8>>,
}

impl View for Utf8Checker {
    type V = Seq<u8>;

    /// The bytes taken so far.
    closed spec fn view(&self) -> Seq<u8> {
        self.seen@
    }
}

impl Utf8Checker {
    /// The state reflects the bytes taken: the last three bytes, whether a
    /// window showed an error, and whether they end inside an open sequence.
    pub closed spec fn inv(&self) -> bool {
        let s = self.seen@;
        &&& self.prev1 == byte_before(s, s.len() as int, 1)
        &&& self.prev2 == byte_before(s, s.len() as int, 2)
        &&& self.prev3 == byte_before(s, s.len() as int, 3)
        &&& self.error == has_window_error(s)
        &&& self.incomplete == incomplete_tail(s)
    }

    /// The error flag.
    pub closed spec fn error_flag(&self) -> bool {
        self.error
    }

    /// A checker that has taken nothing.
    pub fn new() -> (c: Self)
        ensures
            c.inv(),
            c@ == Seq::<u8>::empty(),
    {
        Utf8Checker {
            prev1: 0,
            prev2: 0,
            prev3: 0,
            error: false,
            incomplete: false,
            seen: Ghost(Seq::empty()),
        }
    }

    /// Takes `data[start..end]` byte by byte.
    fn check_bytes(&mut self, data: &[u8], start: usize, end: usize)
        requires
            old(self).inv(),
            start <= end <= data@.len(),
        ensures
            final(self).inv(),
            final(self)@ == old(self)@ + data@.subrange(start as int, end as int),
    {
        let ghost s0 = self.seen@;
        let mut j = start;
        while j < end
            invariant
                start <= j <= end <= data@.len(),
                self.seen@ == s0 + data@.subrange(start as int, j as int),
                self.prev1 == byte_before(self.seen@, self.seen@.len() as int, 1),
                self.prev2 == byte_before(self.seen@, self.seen@.len() as int, 2),
                self.prev3 == byte_before(self.seen@, self.seen@.len() as int, 3),
                self.error == has_window_error(self.seen@),
            decreases end - j,
        {
            let c = data[j];
            let e = check_window(self.prev3, self.prev2, self.prev1, c);
            proof {
                lemma_push_window(self.seen@, c);
                assert(s0 + data@.subrange(start as int, j + 1) =~= (s0 + data@.subrange(
                    start as int,
                    j as int,
                )).push(c));
            }
            self.error = self.error || e;
            self.prev3 = self.prev2;
            self.prev2 = self.prev1;
            self.prev1 = c;
            self.seen = Ghost(self.seen@.push(c));
            j = j + 1;
        }
        self.incomplete = self.prev1 >= 0xC0 || self.prev2 >= 0xE0 || self.prev3 >= 0xF0;
    }

    /// Takes the block `data[start..start + CHUNK_SIZE]`. An all-ASCII block
    /// needs no window check: it only closes out a sequence left open.
    pub fn check_block(&mut self, data: &[u8], start: usize)
        requires
            old(self).inv(),
            start + CHUNK_SIZE <= data.len(),
        ensures
            final(self).inv(),
            final(self)@ == old(self)@ + data@.subrange(start as int, start + CHUNK_SIZE),
    {
        let end = start + CHUNK_SIZE;
        let mut ascii = true;
        let mut j = start;
        while j < end
            invariant
                start <= j <= end <= data@.len(),
                ascii == (forall|t: int| start <= t < j ==> #[trigger] data@[t] < 0x80),
            decreases end - j,
        {
            if data[j] >= 0x80 {
                ascii = false;
            }
            j = j + 1;
        }
        if ascii {
            let ghost block = data@.subrange(start as int, end as int);
            proof {
                lemma_append_ascii(self.seen@, block);
                let t = self.seen@ + block;
                assert(byte_before(t, t.len() as int, 1) == data@[end - 1]);
                assert(byte_before(t, t.len() as int, 2) == data@[end - 2]);
                assert(byte_before(t, t.len() as int, 3) == data@[end - 3]);
            }
            self.error = self.error || self.incomplete;
            self.prev1 = data[end - 1];
            self.prev2 = data[end - 2];
            self.prev3 = data[end - 3];
            self.incomplete = false;
            self.seen = Ghost(self.seen@ + block);
        } else {
            self.check_bytes(data, start, end);
        }
    }

    /// Folds a sequence left open at the end of the input into the error:
    /// the error flag then tells whether the bytes taken are invalid.
    pub fn check_incomplete_pending(&mut self)
        requires
            old(self).inv(),
        ensures
            final(self)@ == old(self)@,
            final(self).error_flag() == (has_window_error(old(self)@) || incomplete_tail(
                old(self)@,
            )),
            final(self).error_flag() == !valid_utf8(old(self)@),
    {
        proof {
            lemma_window_check_decides_utf8(self.seen@);
        }
        self.error = self.error || self.incomplete;
    }

    /// Whether the error flag is set.
    pub fn has_error(&self) -> (r: bool)
        ensures
            r == self.error_flag(),
            self.inv() ==> r == has_window_error(self@),
    {
        self.error
    }
}

} // verus!
