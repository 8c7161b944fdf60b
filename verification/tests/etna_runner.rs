use simdutf8::etna::etna_check;
use simdutf8::mutate::biased_input;
use simdutf8::text::{json_str, str_eq};

#[test]
fn etna_check_runs_known_properties() {
    assert_eq!(etna_check("BasicMatchesStd"), Ok(()));
    assert_eq!(etna_check("CompatMatchesStd"), Ok(()));
}

#[test]
fn etna_check_rejects_unknown_properties() {
    assert_eq!(etna_check("All"), Err("Unknown property for etna: All".to_string()));
    assert_eq!(etna_check("basic"), Err("Unknown property for etna: basic".to_string()));
    assert_eq!(etna_check(""), Err("Unknown property for etna: ".to_string()));
}

#[test]
fn strings_compare_by_characters() {
    assert!(str_eq("abc", "abc"));
    assert!(str_eq("", ""));
    assert!(!str_eq("abc", "abd"));
    assert!(!str_eq("abc", "ab"));
    assert!(str_eq("é❤", "é❤"));
}

#[test]
fn biased_input_is_invalid_only_at_its_end() {
    for k in 1..=3usize {
        for tail in [0xC0u8, 0xDF, 0xE0, 0xF0, 0xF4, 0xFF] {
            let body: Vec<u8> = (0..(64 * k - 1)).map(|i| (i % 128) as u8).collect();
            let v = biased_input(k, body.clone(), tail);
            assert_eq!(v.len(), 64 * k);
            assert_eq!(&v[..v.len() - 1], &body[..]);
            assert_eq!(v[v.len() - 1], tail);
            let e = core::str::from_utf8(&v).unwrap_err();
            assert_eq!(e.valid_up_to(), v.len() - 1);
        }
    }
}

#[test]
fn json_literal_reads_back() {
    let s = "q\"b\\s\n\r\t\u{0}\u{1f} ✓";
    let lit = json_str(s);
    assert_eq!(lit, "\"q\\\"b\\\\s\\n\\r\\t\\u0000\\u001f ✓\"");
    let inner = &lit[1..lit.len() - 1];
    let mut out = String::new();
    let mut chars = inner.chars();
    while let Some(c) = chars.next() {
        if c != '\\' {
            out.push(c);
            continue;
        }
        match chars.next().unwrap() {
            '"' => out.push('"'),
            '\\' => out.push('\\'),
            'n' => out.push('\n'),
            'r' => out.push('\r'),
            't' => out.push('\t'),
            'u' => {
                let hex: String = (0..4).map(|_| chars.next().unwrap()).collect();
                out.push(char::from_u32(u32::from_str_radix(&hex, 16).unwrap()).unwrap());
            }
            other => panic!("unexpected escape {other}"),
        }
    }
    assert_eq!(out, s);
}
