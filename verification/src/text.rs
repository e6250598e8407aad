//! Turning bytes into text: decoding UTF-8, and writing bytes out as a list
//! of decimal numbers.

use vstd::prelude::*;
use vstd::utf8::{encode_utf8, is_ascii_chars, valid_utf8};

verus! {

/// The error `String::from_utf8` hands back; carried through, never inspected.
#[verifier::external_type_specification]
#[verifier::external_body]
pub struct ExFromUtf8Error(std::string::FromUtf8Error);

/// `String::from_utf8`: succeeds exactly on well-formed UTF-8, and the string
/// it then returns is made of the very bytes it was given.
#[verifier::external_body]
pub(crate) fn string_from_utf8(bytes: Vec<u8>) -> (r: Result<String, std::string::FromUtf8Error>)
    ensures
        r.is_ok() <==> valid_utf8(bytes@),
        r matches Ok(s) ==> encode_utf8(s@) == bytes@,
{
    String::from_utf8(bytes)
}

/// The character for the decimal digit `d`.
pub open spec fn digit_char(d: u8) -> char
    recommends
        d <= 9,
{
    ((48 + d) as u8) as char
}

/// A byte in decimal, without leading zeros.
pub open spec fn decimal_text(b: u8) -> Seq<char> {
    if b < 10 {
        seq![digit_char(b)]
    } else if b < 100 {
        seq![digit_char(b / 10), digit_char(b % 10)]
    } else {
        seq![digit_char(b / 100), digit_char((b / 10) % 10), digit_char(b % 10)]
    }
}

/// The bytes in decimal, separated by a comma and a space.
pub open spec fn items_text(bytes: Seq<u8>) -> Seq<char>
    decreases bytes.len(),
{
    if bytes.len() == 0 {
        Seq::empty()
    } else if bytes.len() == 1 {
        decimal_text(bytes[0])
    } else {
        items_text(bytes.drop_last()) + seq![',', ' '] + decimal_text(bytes.last())
    }
}

/// The bytes as a bracketed list, such as `[0, 13, 255]`.
pub open spec fn list_text(bytes: Seq<u8>) -> Seq<char> {
    seq!['['] + items_text(bytes) + seq![']']
}

/// ASCII text as bytes, one byte for each character.
pub open spec fn ascii_bytes(text: Seq<char>) -> Seq<u8> {
    Seq::new(text.len(), |i: int| text[i] as u8)
}

proof fn lemma_ascii_bytes_concat(a: Seq<char>, b: Seq<char>)
    ensures
        ascii_bytes(a + b) == ascii_bytes(a) + ascii_bytes(b),
{
    assert(ascii_bytes(a + b) =~= ascii_bytes(a) + ascii_bytes(b));
}

proof fn lemma_ascii_concat(a: Seq<char>, b: Seq<char>)
    requires
        is_ascii_chars(a),
        is_ascii_chars(b),
    ensures
        is_ascii_chars(a + b),
{
    assert forall|i: int| 0 <= i < (a + b).len() implies '\0' <= #[trigger] (a + b)[i]
        <= '\u{7f}' by {
        if i < a.len() {
            assert((a + b)[i] == a[i]);
        } else {
            assert((a + b)[i] == b[i - a.len()]);
        }
    }
}

proof fn lemma_decimal_text_ascii(b: u8)
    ensures
        is_ascii_chars(decimal_text(b)),
{
}

proof fn lemma_items_text_ascii(bytes: Seq<u8>)
    ensures
        is_ascii_chars(items_text(bytes)),
    decreases bytes.len(),
{
    if bytes.len() == 0 {
    } else if bytes.len() == 1 {
        lemma_decimal_text_ascii(bytes[0]);
    } else {
        lemma_items_text_ascii(bytes.drop_last());
        lemma_decimal_text_ascii(bytes.last());
        lemma_ascii_concat(items_text(bytes.drop_last()), seq![',', ' ']);
        lemma_ascii_concat(items_text(bytes.drop_last()) + seq![',', ' '], decimal_text(bytes.last()));
    }
}

/// A list of bytes is written in ASCII only.
pub proof fn lemma_list_text_ascii(bytes: Seq<u8>)
    ensures
        is_ascii_chars(list_text(bytes)),
{
    lemma_items_text_ascii(bytes);
    lemma_ascii_concat(seq!['['], items_text(bytes));
    lemma_ascii_concat(seq!['['] + items_text(bytes), seq![']']);
}

fn push_decimal(out: &mut Vec<u8>, b: u8)
    ensures
        final(out)@ == old(out)@ + ascii_bytes(decimal_text(b)),
{
    if b >= 100 {
        out.push(48 + b / 100);
    }
    if b >= 10 {
        out.push(48 + (b / 10) % 10);
    }
    out.push(48 + b % 10);
    assert(out@ =~= old(out)@ + ascii_bytes(decimal_text(b)));
}

/// Writes the bytes out as a bracketed list of decimal numbers.
pub fn byte_list_text(bytes: &[u8]) -> (s: String)
    ensures
        s@ == list_text(bytes@),
{
    let mut out: Vec<u8> = Vec::new();
    out.push(91);
    assert(out@ =~= ascii_bytes(seq!['['] + items_text(bytes@.subrange(0, 0))));
    let mut i: usize = 0;
    while i < bytes.len()
        invariant
            i <= bytes@.len(),
            out@ == ascii_bytes(seq!['['] + items_text(bytes@.subrange(0, i as int))),
        decreases bytes@.len() - i,
    {
        let ghost before = bytes@.subrange(0, i as int);
        let ghost now = bytes@.subrange(0, i + 1);
        let ghost open = seq!['['];
        proof {
            assert(now.drop_last() =~= before);
            assert(now.last() == bytes@[i as int]);
        }
        if i > 0 {
            out.push(44);
            out.push(32);
            proof {
                assert(out@ =~= ascii_bytes(open + items_text(before)) + ascii_bytes(
                    seq![',', ' '],
                ));
                lemma_ascii_bytes_concat(open + items_text(before), seq![',', ' ']);
            }
        }
        push_decimal(&mut out, bytes[i]);
        proof {
            let item = decimal_text(bytes@[i as int]);
            if i > 0 {
                let lead = open + items_text(before) + seq![',', ' '];
                lemma_ascii_bytes_concat(lead, item);
                assert(lead + item =~= open + items_text(now));
            } else {
                assert(items_text(before) =~= Seq::<char>::empty());
                lemma_ascii_bytes_concat(open + items_text(before), item);
                assert(open + items_text(before) + item =~= open + items_text(now));
            }
        }
        i += 1;
    }
    out.push(93);
    proof {
        broadcast use
            vstd::utf8::is_ascii_chars_encode_utf8,
            vstd::utf8::encode_utf8_valid_utf8,
            vstd::utf8::encode_utf8_decode_utf8,
        ;

        let text = list_text(bytes@);
        assert(bytes@.subrange(0, i as int) =~= bytes@);
        lemma_ascii_bytes_concat(seq!['['] + items_text(bytes@), seq![']']);
        assert(out@ =~= ascii_bytes(text));
        lemma_list_text_ascii(bytes@);
        assert(encode_utf8(text) =~= ascii_bytes(text));
    }
    match string_from_utf8(out) {
        Ok(s) => {
            proof {
                vstd::utf8::encode_utf8_decode_utf8(s@);
                vstd::utf8::encode_utf8_decode_utf8(list_text(bytes@));
            }
            s
        },
        Err(_) => {
            proof {
                broadcast use vstd::utf8::encode_utf8_valid_utf8;

                assert(false);
            }
            String::new()
        },
    }
}

} // verus!
