use simdutf8::etna::{property_basic_matches_std, property_compat_matches_std, PropertyResult};

fn assert_pass(r: PropertyResult) {
    match r {
        PropertyResult::Pass => {}
        PropertyResult::Discard => panic!("unexpected Discard"),
        PropertyResult::Fail(msg) => panic!("{}", format!("property failed: {}", msg)),
    }
}

/// 64 bytes, exactly one block, ending in the 4-byte lead `0xF0` with no
/// continuation bytes.
fn eof_incomplete_f0() -> Vec<u8> {
    let mut v = vec![b'a'; 63];
    v.push(0xF0);
    v
}

/// 64 bytes, exactly one block, ending in `0xC0`, the smallest byte that
/// leaves a sequence open at the end of a block.
fn eof_incomplete_c0() -> Vec<u8> {
    let mut v = vec![b'a'; 63];
    v.push(0xC0);
    v
}

#[test]
fn witness_incomplete_eof_basic_case_f0_aligned() {
    assert_pass(property_basic_matches_std(eof_incomplete_f0()));
}

#[test]
fn witness_incomplete_eof_basic_case_c0_aligned() {
    assert_pass(property_basic_matches_std(eof_incomplete_c0()));
}

#[test]
fn witness_incomplete_eof_compat_case_f0_aligned() {
    assert_pass(property_compat_matches_std(eof_incomplete_f0()));
}

#[test]
fn witness_incomplete_eof_compat_case_c0_aligned() {
    assert_pass(property_compat_matches_std(eof_incomplete_c0()));
}
