//! Properties that compare `basic::from_utf8` and `compat::from_utf8` with
//! the standard library's `core::str::from_utf8`, and the mapping of their
//! outcomes to what property-testing runners expect.
use vstd::prelude::*;
use vstd::string::StringExecFns;
use vstd::utf8::valid_utf8;
use crate::basic;
use crate::compat;
use crate::spec::{lemma_longest_valid_prefix_unique, lemma_valid_prefix_is_longest};
use crate::std_utf8::{std_from_utf8, StdUtf8Error};
use crate::text::{
    bool_str,
    bool_text,
    decimal,
    option_debug,
    push_decimal,
    push_option_debug,
    str_eq,
};

verus! {

/// The outcome of one property check on one input.
#[derive(Debug, Clone, PartialEq, Eq)]
pub enum PropertyResult {
    Pass,
    Fail(String),
    Discard,
}

/// The message of a `basic` mismatch.
pub open spec fn basic_mismatch_text(std_ok: bool, simd_ok: bool) -> Seq<char> {
    "basic::from_utf8 disagreed with std::str::from_utf8 (std_ok="@ + bool_text(std_ok)
        + ", simd_ok="@ + bool_text(simd_ok) + ")"@
}

/// The message of a `compat` mismatch between std's result and the
/// library's, or `None` when they agree.
pub open spec fn compat_mismatch_text(
    std_result: Result<(), StdUtf8Error>,
    simd_result: Result<(), (usize, Option<usize>)>,
) -> Option<Seq<char>> {
    match (std_result, simd_result) {
        (Ok(_), Ok(_)) => None,
        (Err(se), Err(ce)) => if se.valid_up_to != ce.0 {
            Some(
                "valid_up_to mismatch: std="@ + decimal(se.valid_up_to as nat) + " simd="@
                    + decimal(ce.0 as nat),
            )
        } else if se.error_len != ce.1 {
            Some(
                "error_len mismatch: std="@ + option_debug(se.error_len) + " simd="@
                    + option_debug(ce.1),
            )
        } else {
            None
        },
        (Ok(_), Err(ce)) => Some(
            "compat::from_utf8 errored on valid input (valid_up_to="@ + decimal(ce.0 as nat)
                + ", error_len="@ + option_debug(ce.1) + ")"@,
        ),
        (Err(se), Ok(_)) => Some(
            "compat::from_utf8 accepted invalid input (std valid_up_to="@ + decimal(
                se.valid_up_to as nat,
            ) + ", error_len="@ + option_debug(se.error_len) + ")"@,
        ),
    }
}

/// The view of the library's `compat` result.
pub open spec fn compat_result_view(r: Result<(), compat::Utf8Error>) -> Result<
    (),
    (usize, Option<usize>),
> {
    match r {
        Ok(_) => Ok(()),
        Err(e) => Err(e@),
    }
}

/// Compares whether std and `basic` accepted: `Pass` when they agree, else
/// `Fail` with both answers.
pub fn basic_verdict(std_ok: bool, simd_ok: bool) -> (r: PropertyResult)
    ensures
        match r {
            PropertyResult::Pass => std_ok == simd_ok,
            PropertyResult::Fail(m) => std_ok != simd_ok && m@ == basic_mismatch_text(
                std_ok,
                simd_ok,
            ),
            PropertyResult::Discard => false,
        },
{
    if std_ok == simd_ok {
        PropertyResult::Pass
    } else {
        let mut m = String::new();
        m.append("basic::from_utf8 disagreed with std::str::from_utf8 (std_ok=");
        m.append(bool_str(std_ok));
        m.append(", simd_ok=");
        m.append(bool_str(simd_ok));
        m.append(")");
        PropertyResult::Fail(m)
    }
}

/// Compares std's result with `compat`'s: validity first, then on errors
/// `valid_up_to`, then `error_len`.
pub fn compat_verdict(
    std_result: &Result<(), StdUtf8Error>,
    simd_result: &Result<(), compat::Utf8Error>,
) -> (r: PropertyResult)
    ensures
        match r {
            PropertyResult::Pass => compat_mismatch_text(
                *std_result,
                compat_result_view(*simd_result),
            ) is None,
            PropertyResult::Fail(m) => compat_mismatch_text(
                *std_result,
                compat_result_view(*simd_result),
            ) == Some(m@),
            PropertyResult::Discard => false,
        },
{
    match (std_result, simd_result) {
        (Ok(_), Ok(_)) => PropertyResult::Pass,
        (Err(se), Err(ce)) => {
            if se.valid_up_to != ce.valid_up_to() {
                let mut m = String::new();
                m.append("valid_up_to mismatch: std=");
                push_decimal(&mut m, se.valid_up_to as u128);
                m.append(" simd=");
                push_decimal(&mut m, ce.valid_up_to() as u128);
                return PropertyResult::Fail(m);
            }
            if se.error_len != ce.error_len() {
                let mut m = String::new();
                m.append("error_len mismatch: std=");
                push_option_debug(&mut m, se.error_len);
                m.append(" simd=");
                push_option_debug(&mut m, ce.error_len());
                return PropertyResult::Fail(m);
            }
            PropertyResult::Pass
        },
        (Ok(_), Err(ce)) => {
            let mut m = String::new();
            m.append("compat::from_utf8 errored on valid input (valid_up_to=");
            push_decimal(&mut m, ce.valid_up_to() as u128);
            m.append(", error_len=");
            push_option_debug(&mut m, ce.error_len());
            m.append(")");
            PropertyResult::Fail(m)
        },
        (Err(se), Ok(_)) => {
            let mut m = String::new();
            m.append("compat::from_utf8 accepted invalid input (std valid_up_to=");
            push_decimal(&mut m, se.valid_up_to as u128);
            m.append(", error_len=");
            push_option_debug(&mut m, se.error_len);
            m.append(")");
            PropertyResult::Fail(m)
        },
    }
}

/// `basic::from_utf8` accepts exactly what `core::str::from_utf8` accepts,
/// so this check passes on every input.
pub fn property_basic_matches_std(input: Vec<u8>) -> (r: PropertyResult)
    ensures
        r is Pass,
{
    let std_ok = std_from_utf8(input.as_slice()).is_ok();
    let simd_ok = basic::from_utf8(input.as_slice()).is_ok();
    basic_verdict(std_ok, simd_ok)
}

/// `compat::from_utf8` agrees with `core::str::from_utf8` on validity and,
/// on invalid input, on `valid_up_to` and `error_len`, so this check
/// passes on every input.
pub fn property_compat_matches_std(input: Vec<u8>) -> (r: PropertyResult)
    ensures
        r is Pass,
{
    let std_result = std_from_utf8(input.as_slice());
    let simd_result = compat::from_utf8(input.as_slice());
    proof {
        if let Err(se) = std_result {
            lemma_longest_valid_prefix_unique(input@, se.valid_up_to as int);
        }
    }
    compat_verdict(&std_result, &simd_result)
}

/// The outcome as a pass (`Ok`) or a failure with its message; a discarded
/// input counts as passed.
pub fn to_err(r: PropertyResult) -> (res: Result<(), String>)
    ensures
        match r {
            PropertyResult::Fail(m) => res matches Err(e) && e@ == m@,
            _ => res is Ok,
        },
{
    match r {
        PropertyResult::Pass | PropertyResult::Discard => Ok(()),
        PropertyResult::Fail(m) => Err(m),
    }
}

/// The outcome as a runner that can discard reads it: `Some(true)` for a
/// pass, `Some(false)` for a failure, `None` for a discarded input.
pub fn to_opt(r: PropertyResult) -> (res: Option<bool>)
    ensures
        res == match r {
            PropertyResult::Pass => Some(true),
            PropertyResult::Fail(_) => Some(false),
            PropertyResult::Discard => None::<bool>,
        },
{
    match r {
        PropertyResult::Pass => Some(true),
        PropertyResult::Fail(_) => Some(false),
        PropertyResult::Discard => None,
    }
}

/// 63 bytes `'a'` and a lead byte `0xF0` that the input ends before its
/// continuation bytes: exactly one block, open at its end.
pub fn eof_incomplete_input() -> (v: Vec<u8>)
    ensures
        v@ == Seq::new(63, |i: int| 0x61u8).push(0xF0u8),
{
    let mut v: Vec<u8> = Vec::new();
    let mut i: usize = 0;
    while i < 63
        invariant
            i <= 63,
            v@ == Seq::new(i as nat, |j: int| 0x61u8),
        decreases 63 - i,
    {
        v.push(0x61);
        i = i + 1;
        assert(v@ =~= Seq::new(i as nat, |j: int| 0x61u8));
    }
    v.push(0xF0);
    v
}

/// The error of a property name that the etna runner does not know.
pub open spec fn unknown_property_text(property: Seq<char>) -> Seq<char> {
    "Unknown property for etna: "@ + property
}

/// Runs the named property on the witness input (`eof_incomplete_input`):
/// both known properties pass on it; any other name is an error.
pub fn etna_check(property: &str) -> (r: Result<(), String>)
    ensures
        property@ == "BasicMatchesStd"@ ==> r is Ok,
        property@ == "CompatMatchesStd"@ ==> r is Ok,
        property@ != "BasicMatchesStd"@ && property@ != "CompatMatchesStd"@ ==> (r matches Err(
            e,
        ) && e@ == unknown_property_text(property@)),
{
    if str_eq(property, "BasicMatchesStd") {
        to_err(property_basic_matches_std(eof_incomplete_input()))
    } else if str_eq(property, "CompatMatchesStd") {
        to_err(property_compat_matches_std(eof_incomplete_input()))
    } else {
        let mut m = String::new();
        m.append("Unknown property for etna: ");
        m.append(property);
        Err(m)
    }
}

/// The `compat` comparison passes exactly when the two results are the
/// same: both accept, or both reject with equal `valid_up_to` and equal
/// `error_len` (a `None` on either side included). A differing
/// `valid_up_to` is reported first, whichever side is larger; with equal
/// `valid_up_to`, a differing `error_len` is reported.
pub proof fn lemma_compat_verdict_passes_only_on_agreement(
    std_result: Result<(), StdUtf8Error>,
    simd_result: Result<(), (usize, Option<usize>)>,
)
    ensures
        compat_mismatch_text(std_result, simd_result) is None <==> match (std_result, simd_result) {
            (Ok(_), Ok(_)) => true,
            (Err(se), Err(ce)) => se.valid_up_to == ce.0 && se.error_len == ce.1,
            _ => false,
        },
        match (std_result, simd_result) {
            (Err(se), Err(ce)) => {
                &&& se.valid_up_to != ce.0 ==> compat_mismatch_text(std_result, simd_result)
                    == Some(
                    "valid_up_to mismatch: std="@ + decimal(se.valid_up_to as nat) + " simd="@
                        + decimal(ce.0 as nat),
                )
                &&& se.valid_up_to == ce.0 && se.error_len != ce.1 ==> compat_mismatch_text(
                    std_result,
                    simd_result,
                ) == Some(
                    "error_len mismatch: std="@ + option_debug(se.error_len) + " simd="@
                        + option_debug(ce.1),
                )
            },
            _ => true,
        },
{
}

} // verus!
