//! The byte-level grammar of UTF-8 (Unicode 15, table 3-7) and its
//! agreement with vstd's scalar-based definition `valid_utf8`.
use vstd::prelude::*;
use vstd::utf8::*;

verus! {

/// A continuation byte, `10xxxxxx`.
pub open spec fn is_cont(b: u8) -> bool {
    0x80 <= b && b <= 0xBF
}

/// How many bytes the well-formed sequence that `b` starts takes, or 0
/// when no well-formed sequence starts with `b` (80..C1 and F5..FF).
pub open spec fn lead_width(b: u8) -> int {
    if b <= 0x7F {
        1
    } else if 0xC2 <= b && b <= 0xDF {
        2
    } else if 0xE0 <= b && b <= 0xEF {
        3
    } else if 0xF0 <= b && b <= 0xF4 {
        4
    } else {
        0
    }
}

/// The range that table 3-7 allows for the second byte after lead `b0`.
pub open spec fn second_ok(b0: u8, b1: u8) -> bool {
    if b0 == 0xE0 {
        0xA0 <= b1 && b1 <= 0xBF
    } else if b0 == 0xED {
        0x80 <= b1 && b1 <= 0x9F
    } else if b0 == 0xF0 {
        0x90 <= b1 && b1 <= 0xBF
    } else if b0 == 0xF4 {
        0x80 <= b1 && b1 <= 0x8F
    } else {
        is_cont(b1)
    }
}

/// The length of the well-formed sequence at the start of `s`, or 0 when
/// `s` does not start with one.
pub open spec fn wf_len(s: Seq<u8>) -> int {
    if s.len() == 0 {
        0
    } else {
        let w = lead_width(s[0]);
        if w == 1 {
            1
        } else if w == 2 {
            if s.len() >= 2 && is_cont(s[1]) {
                2
            } else {
                0
            }
        } else if w == 3 {
            if s.len() >= 3 && second_ok(s[0], s[1]) && is_cont(s[2]) {
                3
            } else {
                0
            }
        } else if w == 4 {
            if s.len() >= 4 && second_ok(s[0], s[1]) && is_cont(s[2]) && is_cont(s[3]) {
                4
            } else {
                0
            }
        } else {
            0
        }
    }
}

/// The length of the longest prefix of `s` made of whole well-formed
/// sequences, taken greedily from the front.
pub open spec fn valid_prefix_len(s: Seq<u8>) -> nat
    decreases s.len(),
{
    if s.len() == 0 || wf_len(s) <= 0 {
        0
    } else {
        (wf_len(s) + valid_prefix_len(s.skip(wf_len(s)))) as nat
    }
}

/// What std's `Utf8Error::error_len` reports for the bytes `r` that follow
/// the valid prefix: `None` when `r` is a truncated but so far well-formed
/// sequence, else the length of the maximal part of `r` that could start
/// a well-formed sequence (at least 1).
pub open spec fn invalid_sequence_len(r: Seq<u8>) -> Option<usize> {
    let w = lead_width(r[0]);
    if w == 0 {
        Some(1usize)
    } else if r.len() < 2 {
        None
    } else if !second_ok(r[0], r[1]) {
        Some(1usize)
    } else if w == 2 {
        Some(2usize)
    } else if r.len() < 3 {
        None
    } else if !is_cont(r[2]) {
        Some(2usize)
    } else if w == 3 {
        Some(3usize)
    } else if r.len() < 4 {
        None
    } else if !is_cont(r[3]) {
        Some(3usize)
    } else {
        Some(4usize)
    }
}

/// The byte-range grammar and vstd's scalar definition agree on the first
/// sequence of `s`: on whether there is one and on its length.
pub proof fn lemma_first_scalar_is_wf(s: Seq<u8>)
    ensures
        valid_first_scalar(s) <==> wf_len(s) > 0,
        wf_len(s) > 0 ==> length_of_first_scalar(s) == wf_len(s),
        0 <= wf_len(s) <= 4,
        wf_len(s) <= s.len(),
{
    if s.len() >= 1 {
        let b0 = s[0];
        if s.len() >= 2 {
            let b1 = s[1];
            assert(is_leading_byte_width_2(b0) && is_continuation_byte(b1) ==> (0x80
                <= codepoint_width_2(b0, b1) <==> b0 >= 0xC2)) by (bit_vector);
            assert(is_leading_byte_width_2(b0) && is_continuation_byte(b1) ==> codepoint_width_2(
                b0,
                b1,
            ) < 0x800) by (bit_vector);
            if s.len() >= 3 {
                let b2 = s[2];
                assert(is_leading_byte_width_3(b0) && is_continuation_byte(b1)
                    && is_continuation_byte(b2) ==> (0x800 <= codepoint_width_3(b0, b1, b2) <==> (
                b0 != 0xE0 || b1 >= 0xA0))) by (bit_vector);
                assert(is_leading_byte_width_3(b0) && is_continuation_byte(b1)
                    && is_continuation_byte(b2) ==> ((0xD800 <= codepoint_width_3(b0, b1, b2)
                    && codepoint_width_3(b0, b1, b2) <= 0xDFFF) <==> (b0 == 0xED && b1 >= 0xA0)))
                    by (bit_vector);
                if s.len() >= 4 {
                    let b3 = s[3];
                    assert(is_leading_byte_width_4(b0) && is_continuation_byte(b1)
                        && is_continuation_byte(b2) && is_continuation_byte(b3) ==> ((0x10000
                        <= codepoint_width_4(b0, b1, b2, b3) && codepoint_width_4(b0, b1, b2, b3)
                        <= 0x10FFFF) <==> (b0 <= 0xF4 && (b0 != 0xF0 || b1 >= 0x90) && (b0 != 0xF4
                        || b1 <= 0x8F)))) by (bit_vector);
                }
            }
        }
    }
}

/// vstd's `valid_utf8` unfolded one step in terms of the byte grammar.
pub proof fn lemma_valid_step(s: Seq<u8>)
    ensures
        valid_utf8(s) <==> (s.len() == 0 || (wf_len(s) > 0 && valid_utf8(s.skip(wf_len(s))))),
{
    lemma_first_scalar_is_wf(s);
    if s.len() > 0 && wf_len(s) > 0 {
        assert(pop_first_scalar(s) =~= s.skip(wf_len(s)));
    }
}

/// A prefix of `s` that holds the first sequence of `s` starts with the
/// same sequence; a nonempty prefix of an `s` that starts with none starts
/// with none.
pub proof fn lemma_wf_len_prefix(s: Seq<u8>, j: int)
    requires
        1 <= j <= s.len(),
    ensures
        wf_len(s) > 0 && wf_len(s) <= j ==> wf_len(s.take(j)) == wf_len(s),
        wf_len(s) == 0 ==> wf_len(s.take(j)) == 0,
{
    let t = s.take(j);
    assert(t[0] == s[0]);
    if j >= 2 {
        assert(t[1] == s[1]);
    }
    if j >= 3 {
        assert(t[2] == s[2]);
    }
    if j >= 4 {
        assert(t[3] == s[3]);
    }
}

/// The greedy valid prefix is valid UTF-8.
pub proof fn lemma_valid_prefix_is_valid(s: Seq<u8>)
    ensures
        valid_prefix_len(s) <= s.len(),
        valid_utf8(s.take(valid_prefix_len(s) as int)),
    decreases s.len(),
{
    lemma_first_scalar_is_wf(s);
    let v = valid_prefix_len(s) as int;
    let t = s.take(v);
    if s.len() == 0 || wf_len(s) <= 0 {
        lemma_valid_step(t);
    } else {
        let k = wf_len(s);
        let rest = s.skip(k);
        lemma_valid_prefix_is_valid(rest);
        lemma_wf_len_prefix(s, v);
        lemma_valid_step(t);
        assert(t.skip(k) =~= rest.take(valid_prefix_len(rest) as int));
    }
}

/// No prefix longer than the greedy valid prefix is valid UTF-8.
pub proof fn lemma_longer_prefix_is_invalid(s: Seq<u8>, j: int)
    requires
        valid_prefix_len(s) < j <= s.len(),
    ensures
        !valid_utf8(s.take(j)),
    decreases s.len(),
{
    lemma_first_scalar_is_wf(s);
    let t = s.take(j);
    lemma_wf_len_prefix(s, j);
    lemma_valid_step(t);
    if wf_len(s) > 0 {
        let k = wf_len(s);
        let rest = s.skip(k);
        lemma_longer_prefix_is_invalid(rest, j - k);
        assert(t.skip(k) =~= rest.take(j - k));
    }
}

/// At the end of the greedy valid prefix of an invalid `s` there is a
/// nonempty rest that starts with no well-formed sequence.
pub proof fn lemma_valid_prefix_stops_at_malformed(s: Seq<u8>)
    ensures
        valid_prefix_len(s) < s.len() ==> wf_len(s.skip(valid_prefix_len(s) as int)) == 0,
    decreases s.len(),
{
    lemma_first_scalar_is_wf(s);
    if s.len() > 0 && wf_len(s) > 0 {
        let k = wf_len(s);
        let rest = s.skip(k);
        lemma_valid_prefix_stops_at_malformed(rest);
        lemma_valid_prefix_is_valid(rest);
        assert(s.skip(valid_prefix_len(s) as int) =~= rest.skip(valid_prefix_len(rest) as int));
    } else {
        assert(s.skip(0) =~= s);
    }
}

/// The greedy valid prefix is the longest prefix of `s` that is valid
/// UTF-8 (what std calls `valid_up_to`), and it is all of `s` exactly when
/// `s` is valid.
pub proof fn lemma_valid_prefix_is_longest(s: Seq<u8>)
    ensures
        valid_prefix_len(s) <= s.len(),
        valid_utf8(s.take(valid_prefix_len(s) as int)),
        forall|j: int| valid_prefix_len(s) < j <= s.len() ==> !valid_utf8(#[trigger] s.take(j)),
        valid_utf8(s) <==> valid_prefix_len(s) == s.len(),
        valid_prefix_len(s) < s.len() ==> wf_len(s.skip(valid_prefix_len(s) as int)) == 0,
{
    lemma_valid_prefix_is_valid(s);
    assert forall|j: int| valid_prefix_len(s) < j <= s.len() implies !valid_utf8(
        #[trigger] s.take(j),
    ) by {
        lemma_longer_prefix_is_invalid(s, j);
    }
    assert(s.take(s.len() as int) =~= s);
    lemma_valid_prefix_stops_at_malformed(s);
}

/// Any index with the two properties std documents for `valid_up_to` is
/// the greedy valid prefix.
pub proof fn lemma_longest_valid_prefix_unique(s: Seq<u8>, v: int)
    requires
        0 <= v <= s.len(),
        valid_utf8(s.take(v)),
        forall|j: int| v < j <= s.len() ==> !valid_utf8(#[trigger] s.take(j)),
    ensures
        v == valid_prefix_len(s),
{
    lemma_valid_prefix_is_longest(s);
    let w = valid_prefix_len(s) as int;
    if v < w {
        assert(!valid_utf8(s.take(w)));
    }
}

/// One step of the greedy walk.
pub proof fn lemma_valid_prefix_step(s: Seq<u8>, i: int)
    requires
        0 <= i < s.len(),
        wf_len(s.skip(i)) > 0,
    ensures
        valid_prefix_len(s.skip(i)) == wf_len(s.skip(i)) + valid_prefix_len(
            s.skip(i + wf_len(s.skip(i))),
        ),
{
    let r = s.skip(i);
    assert(r.skip(wf_len(r)) =~= s.skip(i + wf_len(r)));
}

/// What std documents of `error_len`: `None` only when the input ends 1 to
/// 3 bytes after `valid_up_to`, and otherwise an invalid sequence of 1 to 3
/// bytes.
pub proof fn lemma_error_len_range(s: Seq<u8>)
    requires
        !valid_utf8(s),
    ensures
        valid_prefix_len(s) < s.len(),
        match invalid_sequence_len(s.skip(valid_prefix_len(s) as int)) {
            None => 1 <= s.len() - valid_prefix_len(s) <= 3,
            Some(n) => 1 <= n <= 3,
        },
{
    lemma_valid_prefix_is_longest(s);
    let r = s.skip(valid_prefix_len(s) as int);
    assert(r.len() == s.len() - valid_prefix_len(s));
}

/// `p` is the start, or all, of the UTF-8 encoding of one scalar (vstd's
/// `valid_first_scalar`).
pub open spec fn starts_scalar(p: Seq<u8>) -> bool {
    exists|w: Seq<u8>|
        #![trigger valid_first_scalar(w), w.take(p.len() as int)]
        valid_first_scalar(w) && length_of_first_scalar(w) == w.len() && p.len() <= w.len()
            && w.take(p.len() as int) == p
}

/// The byte ranges that a start of a scalar's encoding keeps to.
spec fn table_prefix(p: Seq<u8>) -> bool {
    &&& p.len() >= 1
    &&& lead_width(p[0]) > 0
    &&& p.len() <= lead_width(p[0])
    &&& (p.len() >= 2 ==> second_ok(p[0], p[1]))
    &&& (p.len() >= 3 ==> is_cont(p[2]))
    &&& (p.len() >= 4 ==> is_cont(p[3]))
}

/// A second byte that table 3-7 allows after `b0`.
spec fn some_second(b0: u8) -> u8 {
    if b0 == 0xE0 {
        0xA0
    } else if b0 == 0xF0 {
        0x90
    } else {
        0x80
    }
}

proof fn lemma_starts_scalar_table(p: Seq<u8>)
    requires
        p.len() >= 1,
    ensures
        starts_scalar(p) <==> table_prefix(p),
{
    if table_prefix(p) {
        let b0 = p[0];
        let wl = lead_width(b0);
        let w = Seq::new(
            wl as nat,
            |i: int|
                if i < p.len() {
                    p[i]
                } else if i == 1 {
                    some_second(b0)
                } else {
                    0x80u8
                },
        );
        assert(w[0] == b0);
        assert(wf_len(w) == wl);
        lemma_first_scalar_is_wf(w);
        assert(w.take(p.len() as int) =~= p);
        assert(starts_scalar(p));
    }
    if starts_scalar(p) {
        let w = choose|w: Seq<u8>|
            #![trigger valid_first_scalar(w), w.take(p.len() as int)]
            valid_first_scalar(w) && length_of_first_scalar(w) == w.len() && p.len() <= w.len()
                && w.take(p.len() as int) == p;
        lemma_first_scalar_is_wf(w);
        assert(p[0] == w[0]);
        if p.len() >= 2 {
            assert(p[1] == w[1]);
        }
        if p.len() >= 3 {
            assert(p[2] == w[2]);
        }
        if p.len() >= 4 {
            assert(p[3] == w[3]);
        }
        assert(table_prefix(p));
    }
}

/// What `error_len` measures, said without `invalid_sequence_len`: after
/// the valid prefix of an invalid input, `None` exactly when the rest is the
/// cut-off start of one scalar's encoding; else `Some(n)` where the first
/// `n` bytes are the longest start of a scalar's encoding there (one byte
/// when no start is).
pub proof fn lemma_error_len_is_maximal_subpart(s: Seq<u8>)
    requires
        !valid_utf8(s),
    ensures
        ({
            let r = s.skip(valid_prefix_len(s) as int);
            match invalid_sequence_len(r) {
                None => starts_scalar(r),
                Some(n) => {
                    &&& 1 <= n <= r.len()
                    &&& !starts_scalar(r)
                    &&& (n == 1 || starts_scalar(r.take(n as int)))
                    &&& (starts_scalar(r.take(n as int)) ==> n < r.len() && !starts_scalar(
                        r.take(n + 1),
                    ))
                }
            }
        }),
{
    lemma_valid_prefix_is_longest(s);
    let r = s.skip(valid_prefix_len(s) as int);
    assert(r.len() >= 1);
    assert(wf_len(r) == 0);
    lemma_starts_scalar_table(r);
    let n1 = r.take(1);
    lemma_starts_scalar_table(n1);
    assert(n1[0] == r[0]);
    if r.len() >= 2 {
        let n2 = r.take(2);
        lemma_starts_scalar_table(n2);
        assert(n2[0] == r[0] && n2[1] == r[1]);
    }
    if r.len() >= 3 {
        let n3 = r.take(3);
        lemma_starts_scalar_table(n3);
        assert(n3[0] == r[0] && n3[1] == r[1] && n3[2] == r[2]);
    }
    if r.len() >= 4 {
        let n4 = r.take(4);
        lemma_starts_scalar_table(n4);
        assert(n4[0] == r[0] && n4[1] == r[1] && n4[2] == r[2] && n4[3] == r[3]);
    }
}

} // verus!
