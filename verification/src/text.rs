//! Text that the property checks and the run reports are made of: decimal
//! numbers, `Debug` of optional lengths, booleans and JSON strings.
use vstd::prelude::*;
use vstd::string::{StringExecFns, StringSliceAdditionalSpecFns};

verus! {

/// `String::push` appends one character.
pub assume_specification[ String::push ](string: &mut String, ch: char)
    ensures
        final(string)@ == old(string)@.push(ch),
;

/// The character of the decimal digit `d`.
pub open spec fn digit_char(d: int) -> char {
    (d + 48) as char
}

/// `n` written in decimal, as `Display` writes an unsigned integer.
pub open spec fn decimal(n: nat) -> Seq<char>
    decreases n,
{
    if n < 10 {
        seq![digit_char(n as int)]
    } else {
        decimal(n / 10).push(digit_char((n % 10) as int))
    }
}

/// `b` as `Display` writes it.
pub open spec fn bool_text(b: bool) -> Seq<char> {
    if b {
        "true"@
    } else {
        "false"@
    }
}

/// An optional length as `Debug` writes it.
pub open spec fn option_debug(o: Option<usize>) -> Seq<char> {
    match o {
        Some(n) => "Some("@ + decimal(n as nat) + ")"@,
        None => "None"@,
    }
}

/// Appends `n` in decimal.
pub fn push_decimal(out: &mut String, n: u128)
    ensures
        final(out)@ == old(out)@ + decimal(n as nat),
    decreases n,
{
    if n >= 10 {
        push_decimal(out, n / 10);
    }
    let d = (n % 10) as u8;
    out.push((d + 48) as char);
    assert(old(out)@ + decimal(n as nat) =~= out@);
}

/// `b` as text.
pub fn bool_str(b: bool) -> (r: &'static str)
    ensures
        r@ == bool_text(b),
{
    if b {
        "true"
    } else {
        "false"
    }
}

/// Appends an optional length as `Debug` writes it.
pub fn push_option_debug(out: &mut String, o: Option<usize>)
    ensures
        final(out)@ == old(out)@ + option_debug(o),
{
    match o {
        Some(n) => {
            out.append("Some(");
            push_decimal(out, n as u128);
            out.append(")");
            assert(out@ =~= old(out)@ + option_debug(o));
        },
        None => {
            out.append("None");
        },
    }
}

/// The lower-case hexadecimal digit for `d` (0 to 15).
pub open spec fn hex_digit(d: int) -> char {
    if d < 10 {
        (d + 48) as char
    } else {
        (d + 87) as char
    }
}

/// `c` as it stands inside a JSON string: quote, backslash, newline,
/// carriage return and tab escaped by name, other control characters as
/// `\u00XX`.
pub open spec fn json_escape_char(c: char) -> Seq<char> {
    if c == '"' {
        seq!['\\', '"']
    } else if c == '\\' {
        seq!['\\', '\\']
    } else if c == '\n' {
        seq!['\\', 'n']
    } else if c == '\r' {
        seq!['\\', 'r']
    } else if c == '\t' {
        seq!['\\', 't']
    } else if (c as u32) < 0x20 {
        seq![
            '\\',
            'u',
            '0',
            '0',
            hex_digit((c as u32 / 16) as int),
            hex_digit((c as u32 % 16) as int),
        ]
    } else {
        seq![c]
    }
}

/// The characters of `s`, each escaped for a JSON string.
pub open spec fn json_escape(s: Seq<char>) -> Seq<char>
    decreases s.len(),
{
    if s.len() == 0 {
        Seq::empty()
    } else {
        json_escape(s.drop_last()) + json_escape_char(s.last())
    }
}

/// `s` as a JSON string literal.
pub open spec fn json_string(s: Seq<char>) -> Seq<char> {
    seq!['"'] + json_escape(s) + seq!['"']
}

fn push_hex_digit(out: &mut String, d: u32)
    requires
        d < 16,
    ensures
        final(out)@ == old(out)@.push(hex_digit(d as int)),
{
    let b = d as u8;
    if b < 10 {
        out.push((b + 48) as char);
    } else {
        out.push((b + 87) as char);
    }
}

/// Appends `c` escaped for a JSON string.
fn push_json_char(out: &mut String, c: char)
    ensures
        final(out)@ == old(out)@ + json_escape_char(c),
{
    if c == '"' {
        out.push('\\');
        out.push('"');
    } else if c == '\\' {
        out.push('\\');
        out.push('\\');
    } else if c == '\n' {
        out.push('\\');
        out.push('n');
    } else if c == '\r' {
        out.push('\\');
        out.push('r');
    } else if c == '\t' {
        out.push('\\');
        out.push('t');
    } else if (c as u32) < 0x20 {
        let v = c as u32;
        out.push('\\');
        out.push('u');
        out.push('0');
        out.push('0');
        push_hex_digit(out, v / 16);
        push_hex_digit(out, v % 16);
    } else {
        out.push(c);
    }
    assert(final(out)@ =~= old(out)@ + json_escape_char(c));
}

/// `s` as a JSON string literal, quotes included.
pub fn json_str(s: &str) -> (r: String)
    ensures
        r@ == json_string(s@),
{
    broadcast use vstd::string::group_string_axioms;

    let mut out = String::new();
    out.push('"');
    for c in it: s.chars()
        invariant
            it.seq() == s@,
            out@ == seq!['"'] + json_escape(s@.take(it.index())),
    {
        let ghost i = it.index();
        proof {
            assert(s@.take(i + 1).drop_last() =~= s@.take(i));
        }
        push_json_char(&mut out, c);
        assert(out@ =~= seq!['"'] + json_escape(s@.take(i + 1)));
    }
    assert(s@.take(s@.len() as int) =~= s@);
    out.push('"');
    out
}

/// Whether two strings hold the same characters, compared byte by byte.
pub fn str_eq(a: &str, b: &str) -> (r: bool)
    ensures
        r == (a@ == b@),
{
    let x = a.as_bytes();
    let y = b.as_bytes();
    proof {
        vstd::utf8::encode_utf8_decode_utf8(a@);
        vstd::utf8::encode_utf8_decode_utf8(b@);
    }
    if x.len() != y.len() {
        return false;
    }
    let n = x.len();
    let mut i: usize = 0;
    while i < n
        invariant
            i <= n == x@.len() == y@.len(),
            x@ == a.spec_bytes(),
            y@ == b.spec_bytes(),
            forall|j: int| 0 <= j < i ==> x@[j] == y@[j],
        decreases n - i,
    {
        if x[i] != y[i] {
            assert(x@[i as int] != y@[i as int]);
            assert(x@ != y@);
            return false;
        }
        i = i + 1;
    }
    assert(x@ =~= y@);
    true
}

/// The value of a hexadecimal digit, or -1 for another character.
pub open spec fn hex_value(ch: char) -> int {
    if '0' <= ch && ch <= '9' {
        ch as int - 48
    } else if 'a' <= ch && ch <= 'f' {
        ch as int - 87
    } else if 'A' <= ch && ch <= 'F' {
        ch as int - 55
    } else {
        -1
    }
}

/// The four hexadecimal digits at the start of `t`, or -1.
pub open spec fn hex4_value(t: Seq<char>) -> int {
    if t.len() >= 4 && hex_value(t[0]) >= 0 && hex_value(t[1]) >= 0 && hex_value(t[2]) >= 0
        && hex_value(t[3]) >= 0 {
        hex_value(t[0]) * 4096 + hex_value(t[1]) * 256 + hex_value(t[2]) * 16 + hex_value(t[3])
    } else {
        -1
    }
}

/// The character that a one-letter JSON escape `\\e` stands for.
pub open spec fn json_short_escape(e: char) -> Option<char> {
    if e == '"' {
        Some('"')
    } else if e == '\\' {
        Some('\\')
    } else if e == '/' {
        Some('/')
    } else if e == 'b' {
        Some('\u{8}')
    } else if e == 'f' {
        Some('\u{c}')
    } else if e == 'n' {
        Some('\n')
    } else if e == 'r' {
        Some('\r')
    } else if e == 't' {
        Some('\t')
    } else {
        None
    }
}

/// Prepends `c` to a decoded rest.
pub open spec fn json_cons(c: char, rest: Option<Seq<char>>) -> Option<Seq<char>> {
    match rest {
        Some(r) => Some(seq![c] + r),
        None => None,
    }
}

/// The characters that the inside of a JSON string literal (RFC 8259)
/// stands for, or `None` when it is not the inside of one: an unescaped
/// quote or control character, an unknown escape, or a lone surrogate.
pub open spec fn json_unescape(t: Seq<char>) -> Option<Seq<char>>
    decreases t.len(),
{
    if t.len() == 0 {
        Some(Seq::empty())
    } else if t[0] == '\\' {
        if t.len() < 2 {
            None
        } else if json_short_escape(t[1]) is Some {
            json_cons(json_short_escape(t[1])->0, json_unescape(t.skip(2)))
        } else if t[1] == 'u' && hex4_value(t.skip(2)) >= 0 {
            let v = hex4_value(t.skip(2));
            if 0xD800 <= v && v <= 0xDBFF {
                let low = hex4_value(t.skip(8));
                if t.len() >= 12 && t[6] == '\\' && t[7] == 'u' && 0xDC00 <= low && low <= 0xDFFF {
                    json_cons(
                        (0x10000 + (v - 0xD800) * 1024 + (low - 0xDC00)) as char,
                        json_unescape(t.skip(12)),
                    )
                } else {
                    None
                }
            } else if 0xDC00 <= v && v <= 0xDFFF {
                None
            } else {
                json_cons(v as char, json_unescape(t.skip(6)))
            }
        } else {
            None
        }
    } else if t[0] == '"' || (t[0] as u32) < 0x20 {
        None
    } else {
        json_cons(t[0], json_unescape(t.skip(1)))
    }
}

/// The string that the JSON string literal `t` stands for, or `None` when
/// `t` is not exactly one JSON string literal.
pub open spec fn json_string_value(t: Seq<char>) -> Option<Seq<char>> {
    if t.len() >= 2 && t[0] == '"' && t[t.len() - 1] == '"' {
        json_unescape(t.subrange(1, t.len() - 1))
    } else {
        None
    }
}

proof fn lemma_json_escape_front(s: Seq<char>)
    requires
        s.len() > 0,
    ensures
        json_escape(s) == json_escape_char(s[0]) + json_escape(s.drop_first()),
    decreases s.len(),
{
    if s.len() == 1 {
        assert(s.drop_last() =~= Seq::<char>::empty());
        assert(s.drop_first() =~= Seq::<char>::empty());
        assert(json_escape(s) =~= json_escape_char(s[0]) + json_escape(s.drop_first()));
    } else {
        let d = s.drop_last();
        lemma_json_escape_front(d);
        assert(s.drop_first().drop_last() =~= d.drop_first());
        assert(s.drop_first().last() == s.last());
        assert(d[0] == s[0]);
        assert(json_escape(s) =~= json_escape_char(s[0]) + json_escape(s.drop_first()));
    }
}

proof fn lemma_hex_digit_value(d: int)
    requires
        0 <= d < 16,
    ensures
        hex_value(hex_digit(d)) == d,
{
    if d < 10 {
        assert(((d + 48) as char) as int == d + 48);
    } else {
        assert(((d + 87) as char) as int == d + 87);
    }
}

proof fn lemma_unescape_one(c: char, rest: Seq<char>)
    ensures
        json_unescape(json_escape_char(c) + rest) == json_cons(c, json_unescape(rest)),
{
    let e = json_escape_char(c);
    let t = e + rest;
    if c == '"' || c == '\\' || c == '\n' || c == '\r' || c == '\t' {
        assert(t[0] == '\\');
        assert(t.skip(2) =~= rest);
    } else if (c as u32) < 0x20 {
        let u = c as u32;
        lemma_hex_digit_value((u / 16) as int);
        lemma_hex_digit_value((u % 16) as int);
        assert(t[0] == '\\');
        assert(t[1] == 'u');
        let h = t.skip(2);
        assert(h[0] == '0' && h[1] == '0');
        assert(h[2] == hex_digit((u / 16) as int));
        assert(h[3] == hex_digit((u % 16) as int));
        assert(hex4_value(h) == u);
        assert(t.skip(6) =~= rest);
        vstd::utf8::char_u32_cast(c, u);
    } else {
        assert(t[0] == c);
        assert(t.skip(1) =~= rest);
    }
}

proof fn lemma_unescape_escape(s: Seq<char>)
    ensures
        json_unescape(json_escape(s)) == Some(s),
    decreases s.len(),
{
    if s.len() > 0 {
        lemma_json_escape_front(s);
        lemma_unescape_escape(s.drop_first());
        lemma_unescape_one(s[0], json_escape(s.drop_first()));
        assert(seq![s[0]] + s.drop_first() =~= s);
    }
}

/// Reading back what `json_str` writes: `json_string(s)` is exactly one JSON
/// string literal, and it stands for `s`.
pub proof fn lemma_json_string_round_trip(s: Seq<char>)
    ensures
        json_string_value(json_string(s)) == Some(s),
{
    let t = json_string(s);
    lemma_unescape_escape(s);
    assert(t.subrange(1, t.len() - 1) =~= json_escape(s));
}

} // verus!
