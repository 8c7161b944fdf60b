use simdutf8::checker::{check_window, Utf8Checker, CHUNK_SIZE};

fn witness(last: u8) -> Vec<u8> {
    let mut v = vec![b'a'; CHUNK_SIZE - 1];
    v.push(last);
    v
}

#[test]
fn open_end_is_seen_only_by_the_pending_check() {
    for last in [0xC0u8, 0xC2, 0xE0, 0xF0, 0xF4, 0xFF] {
        let v = witness(last);
        let mut c = Utf8Checker::new();
        c.check_block(&v, 0);
        assert!(!c.has_error(), "no window of {:02x} shows an error", last);
        c.check_incomplete_pending();
        assert!(c.has_error(), "the input ending in {:02x} is left open", last);
    }
}

#[test]
fn ascii_block_closes_an_open_sequence() {
    let mut v = witness(0xE2);
    v.extend(std::iter::repeat(b'b').take(CHUNK_SIZE));
    let mut c = Utf8Checker::new();
    c.check_block(&v, 0);
    assert!(!c.has_error());
    c.check_block(&v, CHUNK_SIZE);
    assert!(c.has_error());
}

#[test]
fn sequence_across_blocks_is_accepted() {
    let mut v = vec![b'a'; CHUNK_SIZE - 2];
    v.extend_from_slice(&[0xF0, 0x9F, 0x92, 0x96]);
    v.extend(std::iter::repeat(b'b').take(CHUNK_SIZE - 2));
    let mut c = Utf8Checker::new();
    c.check_block(&v, 0);
    c.check_block(&v, CHUNK_SIZE);
    c.check_incomplete_pending();
    assert!(!c.has_error());
}

#[test]
fn windows() {
    assert!(!check_window(0, 0, b'a', b'b'));
    assert!(check_window(0, 0, b'a', 0x80));
    assert!(check_window(0, 0, 0xC2, b'a'));
    assert!(!check_window(0, 0, 0xC2, 0x80));
    assert!(check_window(0, 0, 0xC1, 0x80));
    assert!(check_window(0, 0, 0xE0, 0x9F));
    assert!(!check_window(0, 0, 0xE0, 0xA0));
    assert!(check_window(0, 0, 0xED, 0xA0));
    assert!(check_window(0, 0, 0xF0, 0x8F));
    assert!(check_window(0, 0, 0xF4, 0x90));
    assert!(check_window(0, 0, 0xF5, 0x80));
    assert!(!check_window(0, 0xE2, 0x82, 0xAC));
    assert!(check_window(0, 0xE2, 0x82, b'a'));
    assert!(!check_window(0xF0, 0x9F, 0x92, 0x96));
    assert!(check_window(0, 0xC3, 0xA9, 0x80));
}
