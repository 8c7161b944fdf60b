//! UTF-8 validity as a check of every four-byte window plus a check of
//! the last three bytes. This is what the block checker computes; the
//! lemmas here prove that it decides vstd's `valid_utf8` exactly.
use vstd::prelude::*;
use vstd::utf8::*;
use crate::spec::{is_cont, lead_width, second_ok, wf_len, lemma_first_scalar_is_wf, lemma_valid_step};

verus! {

/// The error that the window `p3 p2 p1 c` shows at byte `c`, where `p1` is
/// the byte right before `c`: a malformed pair `p1 c` (too short, too long,
/// overlong, surrogate, above U+10FFFF), or a continuation byte where none
/// is due, or a missing one where `p2` or `p3` asks for one.
pub open spec fn local_error(p3: u8, p2: u8, p1: u8, c: u8) -> bool {
    let special = (p1 >= 0xC0 && !is_cont(c)) || (p1 < 0x80 && is_cont(c)) || ((p1 == 0xC0
        || p1 == 0xC1) && is_cont(c)) || (p1 == 0xE0 && 0x80 <= c && c < 0xA0) || (p1 == 0xED
        && 0xA0 <= c && c <= 0xBF) || (p1 == 0xF0 && 0x80 <= c && c < 0x90) || (p1 == 0xF4 && 0x90
        <= c && c <= 0xBF) || (p1 >= 0xF5 && is_cont(c));
    let two_conts = is_cont(p1) && is_cont(c);
    let must_be_cont = p2 >= 0xE0 || p3 >= 0xF0;
    special || (two_conts != must_be_cont)
}

/// The byte `k` places before index `i`, or 0 before the start.
pub open spec fn byte_before(s: Seq<u8>, i: int, k: int) -> u8 {
    if 0 <= i - k < s.len() {
        s[i - k]
    } else {
        0
    }
}

/// The window ending at byte `i` shows an error.
pub open spec fn error_at(s: Seq<u8>, i: int) -> bool {
    local_error(byte_before(s, i, 3), byte_before(s, i, 2), byte_before(s, i, 1), s[i])
}

/// Some window of `s` shows an error.
pub open spec fn has_window_error(s: Seq<u8>) -> bool {
    exists|i: int| 0 <= i < s.len() && #[trigger] error_at(s, i)
}

/// The three bytes before index `i` leave a sequence open.
pub open spec fn incomplete_at(s: Seq<u8>, i: int) -> bool {
    byte_before(s, i, 1) >= 0xC0 || byte_before(s, i, 2) >= 0xE0 || byte_before(s, i, 3) >= 0xF0
}

/// `s` ends inside a sequence that it leaves open.
pub open spec fn incomplete_tail(s: Seq<u8>) -> bool {
    incomplete_at(s, s.len() as int)
}

/// A boundary where nothing is left open: the windows of a well-formed
/// sequence that starts there show no error, and it ends at another one.
proof fn lemma_wf_windows_clean(s: Seq<u8>, i: int)
    requires
        0 <= i < s.len(),
        !incomplete_at(s, i),
        wf_len(s.skip(i)) > 0,
    ensures
        forall|j: int| i <= j < i + wf_len(s.skip(i)) ==> !#[trigger] error_at(s, j),
        !incomplete_at(s, i + wf_len(s.skip(i))),
        i + wf_len(s.skip(i)) <= s.len(),
{
    let r = s.skip(i);
    let k = wf_len(r);
    lemma_first_scalar_is_wf(r);
    let p1 = byte_before(s, i, 1);
    let p2 = byte_before(s, i, 2);
    let p3 = byte_before(s, i, 3);
    let b0 = s[i];
    assert(r[0] == b0);
    assert(!error_at(s, i));
    if k >= 2 {
        let b1 = s[i + 1];
        assert(r[1] == b1);
        assert(byte_before(s, i + 1, 1) == b0 && byte_before(s, i + 1, 2) == p1 && byte_before(
            s,
            i + 1,
            3,
        ) == p2);
        assert(!error_at(s, i + 1));
        if k >= 3 {
            let b2 = s[i + 2];
            assert(r[2] == b2);
            assert(byte_before(s, i + 2, 1) == b1 && byte_before(s, i + 2, 2) == b0
                && byte_before(s, i + 2, 3) == p1);
            assert(!error_at(s, i + 2));
            if k == 4 {
                let b3 = s[i + 3];
                assert(r[3] == b3);
                assert(byte_before(s, i + 3, 1) == b2 && byte_before(s, i + 3, 2) == b1
                    && byte_before(s, i + 3, 3) == b0);
                assert(!error_at(s, i + 3));
                assert(byte_before(s, i + 4, 1) == b3 && byte_before(s, i + 4, 2) == b2
                    && byte_before(s, i + 4, 3) == b1);
            } else {
                assert(byte_before(s, i + 3, 1) == b2 && byte_before(s, i + 3, 2) == b1
                    && byte_before(s, i + 3, 3) == b0);
            }
        } else {
            assert(byte_before(s, i + 2, 1) == b1 && byte_before(s, i + 2, 2) == b0
                && byte_before(s, i + 2, 3) == p1);
        }
    } else {
        assert(byte_before(s, i + 1, 1) == b0 && byte_before(s, i + 1, 2) == p1 && byte_before(
            s,
            i + 1,
            3,
        ) == p2);
    }
}

/// A boundary where nothing is left open and no well-formed sequence
/// starts: one of the next windows shows an error, or the input ends open.
proof fn lemma_malformed_is_seen(s: Seq<u8>, i: int)
    requires
        0 <= i < s.len(),
        !incomplete_at(s, i),
        wf_len(s.skip(i)) == 0,
    ensures
        (exists|j: int| i <= j < s.len() && #[trigger] error_at(s, j)) || incomplete_tail(s),
{
    let r = s.skip(i);
    let p1 = byte_before(s, i, 1);
    let p2 = byte_before(s, i, 2);
    let b0 = s[i];
    assert(r[0] == b0);
    let w = lead_width(b0);
    if is_cont(b0) {
        assert(error_at(s, i));
    } else if w == 1 {
        assert(false);
    } else if i + 1 == s.len() {
        assert(byte_before(s, s.len() as int, 1) == b0);
        assert(incomplete_tail(s));
    } else {
        let b1 = s[i + 1];
        assert(r[1] == b1);
        assert(byte_before(s, i + 1, 1) == b0 && byte_before(s, i + 1, 2) == p1 && byte_before(
            s,
            i + 1,
            3,
        ) == p2);
        if w == 0 || w == 2 || !second_ok(b0, b1) {
            assert(error_at(s, i + 1));
        } else if i + 2 == s.len() {
            assert(byte_before(s, s.len() as int, 2) == b0);
            assert(incomplete_tail(s));
        } else {
            let b2 = s[i + 2];
            assert(r[2] == b2);
            assert(byte_before(s, i + 2, 1) == b1 && byte_before(s, i + 2, 2) == b0
                && byte_before(s, i + 2, 3) == p1);
            if w == 3 || !is_cont(b2) {
                assert(error_at(s, i + 2));
            } else if i + 3 == s.len() {
                assert(byte_before(s, s.len() as int, 3) == b0);
                assert(incomplete_tail(s));
            } else {
                let b3 = s[i + 3];
                assert(r[3] == b3);
                assert(byte_before(s, i + 3, 1) == b2 && byte_before(s, i + 3, 2) == b1
                    && byte_before(s, i + 3, 3) == b0);
                assert(error_at(s, i + 3));
            }
        }
    }
}

/// From a boundary where nothing is left open, the rest is valid exactly
/// when no later window shows an error and the input does not end open.
proof fn lemma_windows_from(s: Seq<u8>, i: int)
    requires
        0 <= i <= s.len(),
        !incomplete_at(s, i),
    ensures
        valid_utf8(s.skip(i)) <==> ((forall|j: int| i <= j < s.len() ==> !#[trigger] error_at(s, j))
            && !incomplete_tail(s)),
    decreases s.len() - i,
{
    let r = s.skip(i);
    lemma_valid_step(r);
    if i == s.len() {
        assert(r.len() == 0);
    } else {
        let k = wf_len(r);
        if k > 0 {
            lemma_wf_windows_clean(s, i);
            lemma_windows_from(s, i + k);
            assert(r.skip(k) =~= s.skip(i + k));
        } else {
            lemma_malformed_is_seen(s, i);
        }
    }
}

/// The window check decides UTF-8: `s` is valid exactly when no window
/// shows an error and `s` does not end inside an open sequence.
pub proof fn lemma_window_check_decides_utf8(s: Seq<u8>)
    ensures
        valid_utf8(s) <==> (!has_window_error(s) && !incomplete_tail(s)),
{
    lemma_windows_from(s, 0);
    assert(s.skip(0) =~= s);
}

/// Appending one byte adds exactly the window that ends at it.
pub proof fn lemma_push_window(s: Seq<u8>, c: u8)
    ensures
        has_window_error(s.push(c)) == (has_window_error(s) || local_error(
            byte_before(s, s.len() as int, 3),
            byte_before(s, s.len() as int, 2),
            byte_before(s, s.len() as int, 1),
            c,
        )),
        byte_before(s.push(c), s.len() + 1int, 1) == c,
        byte_before(s.push(c), s.len() + 1int, 2) == byte_before(s, s.len() as int, 1),
        byte_before(s.push(c), s.len() + 1int, 3) == byte_before(s, s.len() as int, 2),
{
    let t = s.push(c);
    let n = s.len() as int;
    assert forall|i: int| 0 <= i < n implies error_at(t, i) == error_at(s, i) by {
        assert(byte_before(t, i, 1) == byte_before(s, i, 1));
        assert(byte_before(t, i, 2) == byte_before(s, i, 2));
        assert(byte_before(t, i, 3) == byte_before(s, i, 3));
    }
    assert(byte_before(t, n, 1) == byte_before(s, n, 1));
    assert(byte_before(t, n, 2) == byte_before(s, n, 2));
    assert(byte_before(t, n, 3) == byte_before(s, n, 3));
    if has_window_error(t) {
        let i = choose|i: int| 0 <= i < t.len() && #[trigger] error_at(t, i);
        if i < n {
            assert(error_at(s, i));
        }
    }
    if has_window_error(s) {
        let i = choose|i: int| 0 <= i < s.len() && #[trigger] error_at(s, i);
        assert(error_at(t, i));
    }
    if local_error(byte_before(s, n, 3), byte_before(s, n, 2), byte_before(s, n, 1), c) {
        assert(error_at(t, n));
    }
}

/// Appending ASCII bytes to `s` adds a window error exactly when `s` ended
/// open, and the result ends open only if `s` did.
pub proof fn lemma_append_ascii(s: Seq<u8>, a: Seq<u8>)
    requires
        a.len() >= 1,
        forall|t: int| 0 <= t < a.len() ==> #[trigger] a[t] < 0x80,
    ensures
        has_window_error(s + a) == (has_window_error(s) || incomplete_tail(s)),
        incomplete_tail(s + a) ==> incomplete_tail(s),
        a.len() >= 3 ==> !incomplete_tail(s + a),
{
    let t = s + a;
    let n = s.len() as int;
    let m = t.len() as int;
    assert forall|i: int| 0 <= i < n implies error_at(t, i) == error_at(s, i) by {
        assert(byte_before(t, i, 1) == byte_before(s, i, 1));
        assert(byte_before(t, i, 2) == byte_before(s, i, 2));
        assert(byte_before(t, i, 3) == byte_before(s, i, 3));
    }
    assert(t[n] == a[0]);
    assert(byte_before(t, n, 1) == byte_before(s, n, 1));
    assert(byte_before(t, n, 2) == byte_before(s, n, 2));
    assert(byte_before(t, n, 3) == byte_before(s, n, 3));
    assert(error_at(t, n) == incomplete_tail(s));
    assert forall|i: int| n < i < m && error_at(t, i) implies incomplete_tail(s) by {
        assert(t[i] == a[i - n]);
        assert(byte_before(t, i, 1) == a[i - n - 1]);
        if i - 2 >= n {
            assert(byte_before(t, i, 2) == a[i - n - 2]);
        } else {
            assert(byte_before(t, i, 2) == byte_before(s, n, 1));
        }
        if i - 3 >= n {
            assert(byte_before(t, i, 3) == a[i - n - 3]);
        } else if i - 3 == n - 1 {
            assert(byte_before(t, i, 3) == byte_before(s, n, 1));
        } else {
            assert(byte_before(t, i, 3) == byte_before(s, n, 2));
        }
    }
    if has_window_error(t) {
        let i = choose|i: int| 0 <= i < t.len() && #[trigger] error_at(t, i);
        if i < n {
            assert(error_at(s, i));
        }
    }
    if has_window_error(s) {
        let i = choose|i: int| 0 <= i < s.len() && #[trigger] error_at(s, i);
        assert(error_at(t, i));
    }
    assert(byte_before(t, m, 1) == a[a.len() - 1]);
    if a.len() >= 2 {
        assert(byte_before(t, m, 2) == a[a.len() - 2]);
    } else {
        assert(byte_before(t, m, 2) == byte_before(s, n, 1));
    }
    if a.len() >= 3 {
        assert(byte_before(t, m, 3) == a[a.len() - 3]);
    } else if a.len() == 2 {
        assert(byte_before(t, m, 3) == byte_before(s, n, 1));
    } else {
        assert(byte_before(t, m, 3) == byte_before(s, n, 2));
    }
}

/// Padding with ASCII bytes (such as the zeros after a short last block)
/// changes neither validity nor what the window check decides.
pub proof fn lemma_ascii_padding_keeps_validity(s: Seq<u8>, a: Seq<u8>)
    requires
        forall|t: int| 0 <= t < a.len() ==> #[trigger] a[t] < 0x80,
    ensures
        valid_utf8(s + a) == valid_utf8(s),
{
    lemma_window_check_decides_utf8(s);
    lemma_window_check_decides_utf8(s + a);
    if a.len() == 0 {
        assert(s + a =~= s);
    } else {
        lemma_append_ascii(s, a);
    }
}

/// A window error in a prefix is a window error of the whole input, which
/// is then not valid UTF-8.
pub proof fn lemma_prefix_window_error(s: Seq<u8>, p: int)
    requires
        0 <= p <= s.len(),
        has_window_error(s.take(p)),
    ensures
        has_window_error(s),
        !valid_utf8(s),
{
    let t = s.take(p);
    let i = choose|i: int| 0 <= i < t.len() && #[trigger] error_at(t, i);
    assert(byte_before(t, i, 1) == byte_before(s, i, 1));
    assert(byte_before(t, i, 2) == byte_before(s, i, 2));
    assert(byte_before(t, i, 3) == byte_before(s, i, 3));
    assert(error_at(s, i));
    lemma_window_check_decides_utf8(s);
}

} // verus!
