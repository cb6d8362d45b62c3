//! Texts in URLs.

use vstd::prelude::*;

verus! {

/// A byte that stands for itself in a URL.
pub open spec fn is_unreserved(b: u8) -> bool {
    ||| 0x30 <= b <= 0x39
    ||| 0x41 <= b <= 0x5a
    ||| 0x61 <= b <= 0x7a
    ||| b == 0x2d
    ||| b == 0x2e
    ||| b == 0x5f
    ||| b == 0x7e
}

/// The hexadecimal digit `n`, in capitals.
pub open spec fn hex_digit(n: int) -> char {
    if n < 10 {
        ('0' as int + n) as char
    } else {
        ('A' as int + n - 10) as char
    }
}

/// A byte in a URL: itself, or a percent sign and its two hexadecimal digits.
pub open spec fn percent_byte(b: u8) -> Seq<char> {
    if is_unreserved(b) {
        seq![b as char]
    } else {
        seq!['%', hex_digit(b as int / 16), hex_digit(b as int % 16)]
    }
}

/// The bytes in a URL, one after another.
pub open spec fn percent_bytes(bytes: Seq<u8>) -> Seq<char>
    decreases bytes.len(),
{
    if bytes.len() == 0 {
        seq![]
    } else {
        percent_bytes(bytes.drop_last()) + percent_byte(bytes.last())
    }
}

/// A text in a URL: its UTF-8 bytes.
pub open spec fn percent_encoded(s: Seq<char>) -> Seq<char> {
    percent_bytes(vstd::utf8::encode_utf8(s))
}

/// `urlencoding::encode` percent-encodes every byte of the text but the letters
/// and digits of ASCII and `-`, `_`, `.` and `~`.
#[verifier::external_body]
pub(crate) fn encode(s: &str) -> (r: String)
    ensures
        r@ == percent_encoded(s@),
{
    urlencoding::encode(s).into_owned()
}

/// A character that an encoded text can hold.
pub open spec fn is_encoded_char(c: char) -> bool {
    ||| '0' <= c <= '9'
    ||| 'A' <= c <= 'Z'
    ||| 'a' <= c <= 'z'
    ||| c == '-'
    ||| c == '.'
    ||| c == '_'
    ||| c == '~'
    ||| c == '%'
}

/// The encoded bytes hold nothing that has a meaning in a URL.
proof fn lemma_encoded_bytes(bytes: Seq<u8>)
    ensures
        forall|i: int|
            0 <= i < percent_bytes(bytes).len() ==> is_encoded_char(
                #[trigger] percent_bytes(bytes)[i],
            ),
    decreases bytes.len(),
{
    if bytes.len() > 0 {
        lemma_encoded_bytes(bytes.drop_last());
        let b = bytes.last();
        assert(forall|i: int|
            0 <= i < percent_byte(b).len() ==> is_encoded_char(#[trigger] percent_byte(b)[i]));
        let before = percent_bytes(bytes.drop_last());
        assert forall|i: int| 0 <= i < percent_bytes(bytes).len() implies is_encoded_char(
            #[trigger] percent_bytes(bytes)[i],
        ) by {
            if i >= before.len() {
                assert(percent_bytes(bytes)[i] == percent_byte(b)[i - before.len()]);
            }
        }
    }
}

/// An encoded text holds no character that has a meaning in a URL: it stays in the
/// path segment or the parameter that it is put into.
pub proof fn law_encoded_text_stays_in_place(s: Seq<char>)
    ensures
        forall|i: int|
            0 <= i < percent_encoded(s).len() ==> is_encoded_char(#[trigger] percent_encoded(s)[i]),
        !percent_encoded(s).contains('/'),
        !percent_encoded(s).contains('?'),
        !percent_encoded(s).contains('#'),
        !percent_encoded(s).contains('&'),
{
    lemma_encoded_bytes(vstd::utf8::encode_utf8(s));
}

/// The value of a hexadecimal digit.
pub open spec fn hex_value(c: char) -> int {
    if '0' <= c <= '9' {
        c as int - 48
    } else {
        c as int - 55
    }
}

/// The bytes that an encoded text stands for.
pub open spec fn decoded(s: Seq<char>) -> Seq<u8>
    decreases s.len(),
{
    if s.len() == 0 {
        seq![]
    } else if s[0] == '%' && s.len() >= 3 {
        seq![(hex_value(s[1]) * 16 + hex_value(s[2])) as u8] + decoded(s.skip(3))
    } else {
        seq![s[0] as u8] + decoded(s.skip(1))
    }
}

proof fn lemma_percent_front(bytes: Seq<u8>)
    requires
        bytes.len() > 0,
    ensures
        percent_bytes(bytes) == percent_byte(bytes[0]) + percent_bytes(bytes.skip(1)),
    decreases bytes.len(),
{
    if bytes.len() == 1 {
        assert(bytes.drop_last() =~= seq![]);
        assert(bytes.skip(1) =~= seq![]);
        assert(percent_bytes(bytes) =~= percent_byte(bytes[0]) + percent_bytes(bytes.skip(1)));
    } else {
        lemma_percent_front(bytes.drop_last());
        assert(bytes.drop_last().skip(1) =~= bytes.skip(1).drop_last());
        assert(percent_bytes(bytes) =~= percent_byte(bytes[0]) + percent_bytes(bytes.skip(1)));
    }
}

proof fn lemma_decoded(bytes: Seq<u8>)
    ensures
        decoded(percent_bytes(bytes)) == bytes,
    decreases bytes.len(),
{
    if bytes.len() > 0 {
        let b = bytes[0];
        let rest = percent_bytes(bytes.skip(1));
        lemma_percent_front(bytes);
        lemma_decoded(bytes.skip(1));
        let s = percent_byte(b) + rest;
        if is_unreserved(b) {
            assert(s[0] == b as char);
            assert(s.skip(1) =~= rest);
        } else {
            assert(s[0] == '%' && s[1] == hex_digit(b as int / 16) && s[2] == hex_digit(
                b as int % 16,
            ));
            assert(s.skip(3) =~= rest);
            assert(hex_value(hex_digit(b as int / 16)) == b as int / 16);
            assert(hex_value(hex_digit(b as int % 16)) == b as int % 16);
            assert(b as int / 16 * 16 + b as int % 16 == b as int);
        }
        assert(bytes =~= seq![b] + bytes.skip(1));
    }
}

/// A server that decodes an encoded text gets the bytes of the text, whatever they are.
pub proof fn law_encoding_is_undone(s: Seq<char>)
    ensures
        decoded(percent_encoded(s)) == vstd::utf8::encode_utf8(s),
{
    lemma_decoded(vstd::utf8::encode_utf8(s));
}

/// A character of ASCII in a URL: letters, digits and the four signs `-`, `.`, `_` and
/// `~` stand for themselves, and any other is a percent sign and the two digits of its
/// code point.
pub proof fn law_character_in_a_url(c: char)
    requires
        c as int <= 127,
    ensures
        ({
            let n = c as int;
            let plain = 48 <= n <= 57 || 65 <= n <= 90 || 97 <= n <= 122 || n == 45 || n == 46 || n
                == 95 || n == 126;
            let e = percent_encoded(seq![c]);
            &&& plain ==> e == seq![c]
            &&& !plain ==> e.len() == 3 && e[0] == '%' && hex_value(e[1]) == n / 16 && hex_value(
                e[2],
            ) == n % 16 && !('a' <= e[1] <= 'z') && !('a' <= e[2] <= 'z')
        }),
{
    let s = seq![c];
    assert(vstd::utf8::is_ascii_chars(s));
    vstd::utf8::is_ascii_chars_encode_utf8(s);
    let b = vstd::utf8::encode_utf8(s);
    assert(s[0] == c);
    assert(b.len() == 1 && b[0] == c as u8);
    assert(b.drop_last() =~= seq![]);
    reveal_with_fuel(percent_bytes, 2);
    assert(Seq::<char>::empty() + percent_byte(b[0]) =~= percent_byte(b[0]));
    assert(b.last() == b[0]);
    assert((c as u8) as int == c as int);
}

/// A text of ASCII characters is encoded character by character.
pub proof fn law_characters_are_encoded_apart(a: Seq<char>, c: char)
    requires
        vstd::utf8::is_ascii_chars(a),
        c as int <= 127,
    ensures
        percent_encoded(a.push(c)) == percent_encoded(a) + percent_encoded(seq![c]),
        percent_encoded(seq![]) == Seq::<char>::empty(),
{
    let s = a.push(c);
    let one = seq![c];
    let none = Seq::<char>::empty();
    assert(vstd::utf8::is_ascii_chars(one));
    assert(vstd::utf8::is_ascii_chars(none));
    assert forall|i: int| 0 <= i < s.len() implies '\0' <= #[trigger] s[i] <= '\u{7f}' by {
        if i < a.len() {
            assert(s[i] == a[i]);
        }
    }
    vstd::utf8::is_ascii_chars_encode_utf8(s);
    vstd::utf8::is_ascii_chars_encode_utf8(a);
    vstd::utf8::is_ascii_chars_encode_utf8(one);
    vstd::utf8::is_ascii_chars_encode_utf8(none);
    let x = vstd::utf8::encode_utf8(s);
    let y = vstd::utf8::encode_utf8(a);
    let z = vstd::utf8::encode_utf8(one);
    assert(x.drop_last() =~= y) by {
        assert forall|i: int| 0 <= i < y.len() implies x[i] == y[i] by {
            assert(s[i] == a[i]);
        }
    }
    assert(s[a.len() as int] == c && one[0] == c);
    assert(x.last() == z[0]);
    reveal_with_fuel(percent_bytes, 2);
    assert(z.drop_last() =~= seq![]);
    assert(z.last() == z[0]);
    assert(none + percent_byte(z[0]) =~= percent_byte(z[0]));
}

} // verus!
