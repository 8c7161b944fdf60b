use simdutf8::compat;
use simdutf8::etna::{
    basic_verdict, compat_verdict, eof_incomplete_input, property_basic_matches_std,
    property_compat_matches_std, to_err, to_opt, PropertyResult,
};
use simdutf8::std_utf8::StdUtf8Error;

fn fail_text(r: PropertyResult) -> String {
    match r {
        PropertyResult::Fail(m) => m,
        other => panic!("expected a failure, got {:?}", other),
    }
}

#[test]
fn basic_verdict_passes_on_agreement() {
    assert_eq!(basic_verdict(true, true), PropertyResult::Pass);
    assert_eq!(basic_verdict(false, false), PropertyResult::Pass);
}

#[test]
fn basic_verdict_reports_both_answers() {
    assert_eq!(
        fail_text(basic_verdict(false, true)),
        "basic::from_utf8 disagreed with std::str::from_utf8 (std_ok=false, simd_ok=true)"
    );
    assert_eq!(
        fail_text(basic_verdict(true, false)),
        "basic::from_utf8 disagreed with std::str::from_utf8 (std_ok=true, simd_ok=false)"
    );
}

fn compat_error(input: &[u8]) -> compat::Utf8Error {
    compat::from_utf8(input).unwrap_err()
}

#[test]
fn compat_verdict_reports_valid_up_to_mismatch() {
    let ce = compat_error(&[0, 159, 146, 150]);
    let se = StdUtf8Error { valid_up_to: 5, error_len: Some(1) };
    assert_eq!(fail_text(compat_verdict(&Err(se), &Err(ce))), "valid_up_to mismatch: std=5 simd=1");
}

#[test]
fn compat_verdict_reports_error_len_mismatch() {
    let ce = compat_error(&[0, 159, 146, 150]);
    let se = StdUtf8Error { valid_up_to: 1, error_len: Some(2) };
    assert_eq!(
        fail_text(compat_verdict(&Err(se), &Err(ce))),
        "error_len mismatch: std=Some(2) simd=Some(1)"
    );
    let ce = compat_error(&[0x61, 0xF1, 0x80]);
    let se = StdUtf8Error { valid_up_to: 1, error_len: Some(3) };
    assert_eq!(
        fail_text(compat_verdict(&Err(se), &Err(ce))),
        "error_len mismatch: std=Some(3) simd=None"
    );
}

#[test]
fn compat_verdict_reports_validity_mismatch() {
    let ce = compat_error(&[0, 159, 146, 150]);
    assert_eq!(
        fail_text(compat_verdict(&Ok(()), &Err(ce))),
        "compat::from_utf8 errored on valid input (valid_up_to=1, error_len=Some(1))"
    );
    let se = StdUtf8Error { valid_up_to: 12345678901, error_len: None };
    assert_eq!(
        fail_text(compat_verdict(&Err(se), &Ok(()))),
        "compat::from_utf8 accepted invalid input (std valid_up_to=12345678901, error_len=None)"
    );
}

#[test]
fn compat_verdict_passes_on_agreement() {
    let ce = compat_error(&[0, 159, 146, 150]);
    let se = StdUtf8Error { valid_up_to: 1, error_len: Some(1) };
    assert_eq!(compat_verdict(&Err(se), &Err(ce)), PropertyResult::Pass);
    assert_eq!(compat_verdict(&Ok(()), &Ok(())), PropertyResult::Pass);
}

#[test]
fn properties_pass_on_sample_inputs() {
    let samples: Vec<Vec<u8>> = vec![
        vec![],
        b"hello".to_vec(),
        vec![0xC3, 0x28],
        vec![0xE2, 0x82],
        vec![0xF4, 0x90, 0x80, 0x80],
        vec![0xEF, 0xBF, 0xBD],
        eof_incomplete_input(),
    ];
    for s in samples {
        assert_eq!(property_basic_matches_std(s.clone()), PropertyResult::Pass);
        assert_eq!(property_compat_matches_std(s), PropertyResult::Pass);
    }
}

#[test]
fn eof_incomplete_input_is_one_block_open_at_the_end() {
    let v = eof_incomplete_input();
    assert_eq!(v.len(), 64);
    assert!(v[..63].iter().all(|&b| b == b'a'));
    assert_eq!(v[63], 0xF0);
}

#[test]
fn outcomes_map_for_runners() {
    assert_eq!(to_opt(PropertyResult::Pass), Some(true));
    assert_eq!(to_opt(PropertyResult::Fail("x".to_string())), Some(false));
    assert_eq!(to_opt(PropertyResult::Discard), None);
    assert_eq!(to_err(PropertyResult::Pass), Ok(()));
    assert_eq!(to_err(PropertyResult::Discard), Ok(()));
    assert_eq!(to_err(PropertyResult::Fail("why".to_string())), Err("why".to_string()));
}
