use simdutf8::basic;
use simdutf8::compat;

fn check_against_std(input: &[u8]) {
    let std_result = core::str::from_utf8(input);
    let basic_result = basic::from_utf8(input);
    let compat_result = compat::from_utf8(input);
    assert_eq!(std_result.is_ok(), basic_result.is_ok(), "basic on {:?}", input);
    match (std_result, compat_result) {
        (Ok(_), Ok(())) => {}
        (Err(se), Err(ce)) => {
            assert_eq!(se.valid_up_to(), ce.valid_up_to(), "valid_up_to on {:?}", input);
            assert_eq!(se.error_len(), ce.error_len(), "error_len on {:?}", input);
        }
        (s, c) => panic!("validity differs on {:?}: std {:?}, compat {:?}", input, s, c),
    }
}

#[test]
fn all_one_and_two_byte_inputs_agree_with_std() {
    check_against_std(&[]);
    for a in 0..=255u8 {
        check_against_std(&[a]);
        for b in 0..=255u8 {
            check_against_std(&[a, b]);
        }
    }
}

#[test]
fn three_byte_inputs_agree_with_std() {
    let thirds = [0x00u8, 0x41, 0x7F, 0x80, 0x8F, 0x90, 0x9F, 0xA0, 0xBF, 0xC0, 0xC2, 0xE0, 0xF0, 0xFF];
    for a in 0xC0..=0xFFu8 {
        for b in 0..=255u8 {
            for &c in thirds.iter() {
                check_against_std(&[a, b, c]);
            }
        }
    }
}

#[test]
fn four_byte_inputs_agree_with_std() {
    let tails = [0x00u8, 0x41, 0x80, 0x8F, 0x90, 0xBF, 0xC0, 0xE0, 0xF0];
    for a in 0xE0..=0xFFu8 {
        for b in 0x70..=0xC5u8 {
            for &c in tails.iter() {
                for &d in tails.iter() {
                    check_against_std(&[a, b, c, d]);
                }
            }
        }
    }
}

#[test]
fn sequences_across_block_borders_agree_with_std() {
    let pieces: [&[u8]; 9] = [
        &[0xF0, 0x9F, 0x92, 0x96],
        &[0xE2, 0x82, 0xAC],
        &[0xC3, 0xA9],
        &[0xF0, 0x9F, 0x92],
        &[0xE2, 0x82],
        &[0xC3],
        &[0xED, 0xA0, 0x80],
        &[0x80],
        &[0xF4, 0x90, 0x80, 0x80],
    ];
    for len in [0usize, 1, 60, 61, 62, 63, 64, 65, 124, 125, 126, 127, 128, 129, 190, 191, 192] {
        for piece in pieces.iter() {
            let mut v = vec![b'x'; len];
            v.extend_from_slice(piece);
            check_against_std(&v);
            v.extend_from_slice(b"tail");
            check_against_std(&v);
            let mut w = vec![b'y'; len];
            w.extend_from_slice(piece);
            w.extend(std::iter::repeat(b'z').take(200));
            check_against_std(&w);
        }
    }
}

#[test]
fn valid_text_is_accepted() {
    let text = "Grüße, Jürgen ❤ — 𝄞 ✓ ".repeat(20);
    assert!(basic::from_utf8(text.as_bytes()).is_ok());
    assert!(compat::from_utf8(text.as_bytes()).is_ok());
}

#[test]
fn incomplete_lead_at_block_end_is_rejected() {
    let mut v = vec![b'a'; 63];
    v.push(0xF0);
    assert!(basic::from_utf8(&v).is_err());
    let e = compat::from_utf8(&v).unwrap_err();
    assert_eq!(e.valid_up_to(), 63);
    assert_eq!(e.error_len(), None);

    let mut w = vec![b'a'; 63];
    w.push(0xC0);
    assert!(basic::from_utf8(&w).is_err());
    let e = compat::from_utf8(&w).unwrap_err();
    assert_eq!(e.valid_up_to(), 63);
    assert_eq!(e.error_len(), Some(1));
}

#[test]
fn incomplete_sequence_after_ascii_block_is_rejected() {
    let mut v = vec![b'a'; 62];
    v.extend_from_slice(&[0xE2, 0x82]);
    v.extend(std::iter::repeat(b'b').take(64));
    assert!(basic::from_utf8(&v).is_err());
    let e = compat::from_utf8(&v).unwrap_err();
    assert_eq!(e.valid_up_to(), 62);
    assert_eq!(e.error_len(), Some(2));
}

#[test]
fn sparkle_heart_error_fields() {
    let e = compat::from_utf8(&[0, 159, 146, 150]).unwrap_err();
    assert_eq!(e.valid_up_to(), 1);
    assert_eq!(e.error_len(), Some(1));
    let e = compat::from_utf8(&[0x61, 0xF1, 0x80, 0x80]).unwrap_err();
    assert_eq!(e.valid_up_to(), 1);
    assert_eq!(e.error_len(), None);
    let e = compat::from_utf8(&[0x61, 0xF1, 0x80, 0x80, 0x61]).unwrap_err();
    assert_eq!(e.valid_up_to(), 1);
    assert_eq!(e.error_len(), Some(3));
    let e = compat::from_utf8(&[0xED, 0xA0, 0x80]).unwrap_err();
    assert_eq!(e.valid_up_to(), 0);
    assert_eq!(e.error_len(), Some(1));
}

#[test]
fn error_len_stays_within_three_bytes() {
    for a in 0x80..=0xFFu8 {
        for b in 0..=255u8 {
            for input in [vec![a, b], vec![b'q', a, b, 0x80], vec![a, 0x90, b]] {
                if let Err(e) = compat::from_utf8(&input) {
                    match e.error_len() {
                        Some(n) => assert!((1..=3).contains(&n)),
                        None => {
                            let rest = input.len() - e.valid_up_to();
                            assert!((1..=3).contains(&rest));
                        }
                    }
                }
            }
        }
    }
}

#[test]
fn ascii_padding_keeps_the_answer() {
    for a in 0x80..=0xFFu8 {
        let short = vec![b'k', a];
        let mut padded = short.clone();
        padded.extend_from_slice(&[0, 0, 0]);
        assert_eq!(basic::from_utf8(&short).is_ok(), basic::from_utf8(&padded).is_ok());
    }
}
