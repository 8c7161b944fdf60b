use simdutf8::mutate::{apply_mutation, choose_mutation, Mutation};
use simdutf8::report::{json_line, record_outcome, Metrics};
use simdutf8::text::{json_str, push_decimal, push_option_debug};

#[test]
fn decimal_text() {
    for (n, text) in [(0u128, "0"), (7, "7"), (10, "10"), (1234567, "1234567")] {
        let mut s = String::new();
        push_decimal(&mut s, n);
        assert_eq!(s, text);
    }
    let mut s = String::from("n=");
    push_decimal(&mut s, u128::MAX);
    assert_eq!(s, format!("n={}", u128::MAX));
}

#[test]
fn option_debug_text() {
    let mut s = String::new();
    push_option_debug(&mut s, Some(3));
    push_option_debug(&mut s, None);
    assert_eq!(s, "Some(3)None");
}

#[test]
fn json_strings_are_escaped() {
    assert_eq!(json_str("plain"), "\"plain\"");
    assert_eq!(json_str("a\"b\\c\nd\re\tf"), "\"a\\\"b\\\\c\\nd\\re\\tf\"");
    assert_eq!(json_str("\u{1}\u{1f}x"), "\"\\u0001\\u001fx\"");
    assert_eq!(json_str("é ❤"), "\"é ❤\"");
    assert_eq!(json_str(""), "\"\"");
}

#[test]
fn json_line_of_a_run() {
    let m = Metrics { inputs: 200, elapsed_us: 1234 };
    assert_eq!(
        json_line("quickcheck", "BasicMatchesStd", "passed", m, None, None),
        "{\"status\":\"passed\",\"tests\":200,\"discards\":0,\"time\":\"1234us\",\"counterexample\":null,\"error\":null,\"tool\":\"quickcheck\",\"property\":\"BasicMatchesStd\"}"
    );
    let m = Metrics { inputs: 0, elapsed_us: 0 };
    assert_eq!(
        json_line("etna", "All", "failed", m, Some("([1, 2])"), Some("bad \"x\"")),
        "{\"status\":\"failed\",\"tests\":0,\"discards\":0,\"time\":\"0us\",\"counterexample\":\"([1, 2])\",\"error\":\"bad \\\"x\\\"\",\"tool\":\"etna\",\"property\":\"All\"}"
    );
}

#[test]
fn metrics_add_up() {
    let a = Metrics { inputs: 3, elapsed_us: 10 };
    let b = Metrics { inputs: 4, elapsed_us: 5 };
    let c = a.combine(b);
    assert_eq!((c.inputs, c.elapsed_us), (7, 15));
}

#[test]
fn first_failure_is_kept() {
    let z = Metrics { inputs: 1, elapsed_us: 2 };
    let (s, t) = record_outcome(Ok(()), z, Err("first".to_string()), z);
    assert_eq!(s, Err("first".to_string()));
    assert_eq!((t.inputs, t.elapsed_us), (2, 4));
    let (s, _) = record_outcome(s, t, Err("second".to_string()), z);
    assert_eq!(s, Err("first".to_string()));
    let (s, _) = record_outcome(Ok(()), z, Ok(()), z);
    assert_eq!(s, Ok(()));
}

#[test]
fn mutations() {
    assert_eq!(choose_mutation(0, 3), Mutation::FlipBit);
    assert_eq!(choose_mutation(0, 0), Mutation::Keep);
    assert_eq!(choose_mutation(1, 255), Mutation::PushByte);
    assert_eq!(choose_mutation(1, 256), Mutation::PopByte);
    assert_eq!(choose_mutation(2, 1), Mutation::PopByte);
    assert_eq!(choose_mutation(2, 0), Mutation::Keep);
    assert_eq!(apply_mutation(vec![0x10, 0x20], Mutation::FlipBit, 1, 7, 0), vec![0x10, 0xA0]);
    assert_eq!(apply_mutation(vec![0x10], Mutation::PushByte, 0, 0, 0xC3), vec![0x10, 0xC3]);
    assert_eq!(apply_mutation(vec![0x10, 0x20], Mutation::PopByte, 0, 0, 0), vec![0x10]);
    assert_eq!(apply_mutation(vec![], Mutation::Keep, 0, 0, 0), Vec::<u8>::new());
}
