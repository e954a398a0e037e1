//! How texts stand in addresses and in forms: byte by byte, with the bytes that have a
//! meaning there written as a percent sign and two hexadecimal digits.
use vstd::prelude::*;

use vstd::utf8::{encode_utf8, is_ascii_chars, is_ascii_chars_encode_utf8};

verus! {

/// A hexadecimal digit in upper case.
pub open spec fn upper_hex_digit(d: int) -> char {
    if d < 10 {
        (('0' as int) + d) as char
    } else {
        (('A' as int) + d - 10) as char
    }
}

/// A percent sign and the two hexadecimal digits of a byte.
pub open spec fn escaped(b: u8) -> Seq<char> {
    seq!['%', upper_hex_digit(b as int / 16), upper_hex_digit(b as int % 16)]
}

/// A letter or a digit.
pub open spec fn alphanumeric(b: int) -> bool {
    ||| ('0' as int) <= b <= ('9' as int)
    ||| ('A' as int) <= b <= ('Z' as int)
    ||| ('a' as int) <= b <= ('z' as int)
}

/// A byte that stands for itself in an address.
pub open spec fn unreserved(b: int) -> bool {
    ||| alphanumeric(b)
    ||| b == ('-' as int)
    ||| b == ('_' as int)
    ||| b == ('.' as int)
    ||| b == ('~' as int)
}

/// A byte that stands for itself in a form.
pub open spec fn kept_in_form(b: int) -> bool {
    ||| alphanumeric(b)
    ||| b == ('*' as int)
    ||| b == ('-' as int)
    ||| b == ('.' as int)
    ||| b == ('_' as int)
}

/// A byte as it stands in an address.
pub open spec fn address_byte(b: u8) -> Seq<char> {
    if unreserved(b as int) {
        seq![b as char]
    } else {
        escaped(b)
    }
}

/// A byte as it stands in a form, where a blank is a plus sign.
pub open spec fn form_byte(b: u8) -> Seq<char> {
    if kept_in_form(b as int) {
        seq![b as char]
    } else if b == (' ' as u8) {
        seq!['+']
    } else {
        escaped(b)
    }
}

/// Bytes as they stand in an address.
pub open spec fn address_bytes(b: Seq<u8>) -> Seq<char>
    decreases b.len(),
{
    if b.len() == 0 {
        Seq::empty()
    } else {
        address_bytes(b.drop_last()) + address_byte(b.last())
    }
}

/// Bytes as they stand in a form.
pub open spec fn form_bytes(b: Seq<u8>) -> Seq<char>
    decreases b.len(),
{
    if b.len() == 0 {
        Seq::empty()
    } else {
        form_bytes(b.drop_last()) + form_byte(b.last())
    }
}

/// A text as it stands in an address.
pub open spec fn percent_encoded(s: Seq<char>) -> Seq<char> {
    address_bytes(encode_utf8(s))
}

/// A name and its value as they stand in a form.
pub open spec fn form_pair(p: (Seq<char>, Seq<char>)) -> Seq<char> {
    form_bytes(encode_utf8(p.0)) + "="@ + form_bytes(encode_utf8(p.1))
}

/// Names and values as the text of a form.
pub open spec fn form_text(p: Seq<(Seq<char>, Seq<char>)>) -> Seq<char>
    decreases p.len(),
{
    if p.len() == 0 {
        Seq::empty()
    } else if p.len() == 1 {
        form_pair(p[0])
    } else {
        form_text(p.drop_last()) + "&"@ + form_pair(p.last())
    }
}

/// A character that can stand for itself, or begin an escape.
pub open spec fn plain_in_address(c: char) -> bool {
    unreserved(c as int) || c == '%'
}

/// A character that can stand for itself, for a blank, or begin an escape.
pub open spec fn plain_in_form(c: char) -> bool {
    kept_in_form(c as int) || c == '%' || c == '+'
}

proof fn lemma_kept_bytes(s: Seq<char>)
    requires
        is_ascii_chars(s),
        forall|i: int| 0 <= i < s.len() ==> unreserved(#[trigger] s[i] as int),
    ensures
        percent_encoded(s) == s,
    decreases s.len(),
{
    is_ascii_chars_encode_utf8(s);
    let b = encode_utf8(s);
    if s.len() > 0 {
        let t = s.drop_last();
        assert forall|i: int| 0 <= i < t.len() implies unreserved(#[trigger] t[i] as int) by {
            assert(t[i] == s[i]);
        }
        assert forall|i: int| 0 <= i < t.len() implies '\0' <= #[trigger] t[i] <= '\u{7f}' by {
            assert(t[i] == s[i]);
        }
        lemma_kept_bytes(t);
        is_ascii_chars_encode_utf8(t);
        assert(encode_utf8(t) =~= b.drop_last()) by {
            assert forall|i: int| 0 <= i < t.len() implies encode_utf8(t)[i] == b[i] by {
                assert(t[i] == s[i]);
            }
        }
        assert(s.last() as u8 == b.last());
        assert(b.last() as char == s.last());
        assert(t.push(s.last()) =~= s);
    } else {
        assert(percent_encoded(s) =~= s);
    }
}

/// A text of letters, digits and the four marks that stand for themselves is its own
/// encoding.
pub proof fn law_unreserved_text_is_kept(s: Seq<char>)
    requires
        forall|i: int| 0 <= i < s.len() ==> unreserved(#[trigger] s[i] as int),
    ensures
        percent_encoded(s) == s,
{
    assert forall|i: int| 0 <= i < s.len() implies '\0' <= #[trigger] s[i] <= '\u{7f}' by {
        assert(unreserved(s[i] as int));
    }
    lemma_kept_bytes(s);
}

proof fn lemma_escape(b: u8)
    ensures
        forall|i: int| 0 <= i < 3 ==> plain_in_address(#[trigger] escaped(b)[i]),
        forall|i: int| 0 <= i < 3 ==> plain_in_form(#[trigger] escaped(b)[i]),
{
    let hi = b as int / 16;
    let lo = b as int % 16;
    assert(0 <= hi < 16 && 0 <= lo < 16);
    assert(alphanumeric(upper_hex_digit(hi) as int));
    assert(alphanumeric(upper_hex_digit(lo) as int));
    assert(escaped(b)[0] == '%');
    assert(escaped(b)[1] == upper_hex_digit(hi));
    assert(escaped(b)[2] == upper_hex_digit(lo));
}

proof fn lemma_address_is_plain(b: Seq<u8>)
    ensures
        forall|i: int|
            0 <= i < address_bytes(b).len() ==> plain_in_address(#[trigger] address_bytes(b)[i]),
    decreases b.len(),
{
    if b.len() > 0 {
        lemma_address_is_plain(b.drop_last());
        lemma_escape(b.last());
        let head = address_bytes(b.drop_last());
        let tail = address_byte(b.last());
        assert forall|i: int| 0 <= i < address_bytes(b).len() implies plain_in_address(
            #[trigger] address_bytes(b)[i],
        ) by {
            if i < head.len() {
                assert(address_bytes(b)[i] == head[i]);
            } else {
                assert(address_bytes(b)[i] == tail[i - head.len()]);
            }
        }
    }
}

/// Nothing of an encoded text has a meaning in an address: it holds no ampersand, no
/// question mark, no equals sign and no blank.
pub proof fn law_encoded_text_is_plain(s: Seq<char>)
    ensures
        forall|i: int|
            0 <= i < percent_encoded(s).len() ==> plain_in_address(
                #[trigger] percent_encoded(s)[i],
            ),
{
    lemma_address_is_plain(encode_utf8(s));
}

proof fn lemma_form_is_plain(b: Seq<u8>)
    ensures
        forall|i: int|
            0 <= i < form_bytes(b).len() ==> plain_in_form(#[trigger] form_bytes(b)[i]),
    decreases b.len(),
{
    if b.len() > 0 {
        lemma_form_is_plain(b.drop_last());
        lemma_escape(b.last());
        let head = form_bytes(b.drop_last());
        let tail = form_byte(b.last());
        assert forall|i: int| 0 <= i < form_bytes(b).len() implies plain_in_form(
            #[trigger] form_bytes(b)[i],
        ) by {
            if i < head.len() {
                assert(form_bytes(b)[i] == head[i]);
            } else {
                assert(form_bytes(b)[i] == tail[i - head.len()]);
            }
        }
    }
}

/// Nothing of a name or a value has a meaning in a form: it holds no ampersand and no
/// equals sign, so the pairs can be told apart.
pub proof fn law_form_parts_are_plain(s: Seq<char>)
    ensures
        forall|i: int|
            0 <= i < form_bytes(encode_utf8(s)).len() ==> plain_in_form(
                #[trigger] form_bytes(encode_utf8(s))[i],
            ),
{
    lemma_form_is_plain(encode_utf8(s));
}

} // verus!
