//! Binary-safe rendering of received frames.
//!
//! A frame is shown as text when its bytes are valid UTF-8, and as lowercase
//! hexadecimal otherwise. The same rendering serves topic and payload frames.

use vstd::prelude::*;
use vstd::string::StringSliceAdditionalSpecFns;
use vstd::utf8::{decode_utf8, encode_utf8_decode_utf8, valid_utf8};

verus! {

/// The lowercase hexadecimal digit that stands for a value below sixteen.
pub open spec fn hex_digit(n: int) -> char {
    if n == 0 {
        '0'
    } else if n == 1 {
        '1'
    } else if n == 2 {
        '2'
    } else if n == 3 {
        '3'
    } else if n == 4 {
        '4'
    } else if n == 5 {
        '5'
    } else if n == 6 {
        '6'
    } else if n == 7 {
        '7'
    } else if n == 8 {
        '8'
    } else if n == 9 {
        '9'
    } else if n == 10 {
        'a'
    } else if n == 11 {
        'b'
    } else if n == 12 {
        'c'
    } else if n == 13 {
        'd'
    } else if n == 14 {
        'e'
    } else {
        'f'
    }
}

/// Two lowercase hexadecimal digits per byte, high nibble first.
pub open spec fn hex_string(bytes: Seq<u8>) -> Seq<char> {
    Seq::new(
        2 * bytes.len(),
        |i: int|
            if i % 2 == 0 {
                hex_digit(bytes[i / 2] as int / 16)
            } else {
                hex_digit(bytes[i / 2] as int % 16)
            },
    )
}

/// What a frame looks like on output: its text when the bytes are valid
/// UTF-8, its hexadecimal form otherwise.
pub open spec fn display_text(bytes: Seq<u8>) -> Seq<char> {
    if valid_utf8(bytes) {
        decode_utf8(bytes)
    } else {
        hex_string(bytes)
    }
}

/// Calls `std::str::from_utf8`. Trusted: the call succeeds exactly on valid
/// UTF-8, and the string slice it then returns has the bytes that were passed.
#[verifier::external_body]
fn str_from_utf8(bytes: &[u8]) -> (r: Option<&str>)
    ensures
        r is Some <==> valid_utf8(bytes@),
        r matches Some(s) ==> s.spec_bytes() == bytes@,
{
    std::str::from_utf8(bytes).ok()
}

/// Tells whether `bytes` are valid UTF-8.
pub fn is_utf8(bytes: &[u8]) -> (ok: bool)
    ensures
        ok == valid_utf8(bytes@),
{
    str_from_utf8(bytes).is_some()
}

/// The digit for a value below sixteen, as a string. The digits below ten
/// serve decimal numbers as well.
pub(crate) fn digit_str(n: u8) -> (s: &'static str)
    requires
        n < 16,
    ensures
        s@ == seq![hex_digit(n as int)],
{
    proof {
        reveal_strlit("0");
        reveal_strlit("1");
        reveal_strlit("2");
        reveal_strlit("3");
        reveal_strlit("4");
        reveal_strlit("5");
        reveal_strlit("6");
        reveal_strlit("7");
        reveal_strlit("8");
        reveal_strlit("9");
        reveal_strlit("a");
        reveal_strlit("b");
        reveal_strlit("c");
        reveal_strlit("d");
        reveal_strlit("e");
        reveal_strlit("f");
    }
    let s = if n == 0 {
        "0"
    } else if n == 1 {
        "1"
    } else if n == 2 {
        "2"
    } else if n == 3 {
        "3"
    } else if n == 4 {
        "4"
    } else if n == 5 {
        "5"
    } else if n == 6 {
        "6"
    } else if n == 7 {
        "7"
    } else if n == 8 {
        "8"
    } else if n == 9 {
        "9"
    } else if n == 10 {
        "a"
    } else if n == 11 {
        "b"
    } else if n == 12 {
        "c"
    } else if n == 13 {
        "d"
    } else if n == 14 {
        "e"
    } else {
        "f"
    };
    assert(s@ =~= seq![hex_digit(n as int)]);
    s
}

/// Renders bytes as lowercase hexadecimal, two digits per byte.
pub fn to_hex(data: &[u8]) -> (text: String)
    ensures
        text@ == hex_string(data@),
{
    let mut text = String::new();
    let mut i: usize = 0;
    while i < data.len()
        invariant
            i <= data.len(),
            text@ == hex_string(data@.take(i as int)),
        decreases data.len() - i,
    {
        let b: u8 = data[i];
        let ghost before = text@;
        text.append(digit_str(b / 16));
        text.append(digit_str(b % 16));
        proof {
            let prev = data@.take(i as int);
            let next = data@.take(i as int + 1);
            assert(next.len() == prev.len() + 1);
            assert(text@ == before + seq![hex_digit(b as int / 16)] + seq![
                hex_digit(b as int % 16),
            ]);
            assert forall|k: int| 0 <= k < 2 * next.len() implies text@[k] == hex_string(next)[k] by {
                if k < 2 * prev.len() {
                    assert(text@[k] == hex_string(prev)[k]);
                    assert(prev[k / 2] == next[k / 2]);
                } else {
                    assert(k / 2 == i as int);
                    assert(next[k / 2] == b);
                }
            }
            assert(text@ =~= hex_string(next));
        }
        i = i + 1;
    }
    proof {
        assert(data@.take(data.len() as int) =~= data@);
    }
    text
}

/// Renders a received frame for output.
///
/// Valid UTF-8 comes out as the text it encodes; anything else comes out as
/// the lowercase hexadecimal form of the exact bytes.
pub fn bytes_to_display(data: &[u8]) -> (text: String)
    ensures
        text@ == display_text(data@),
{
    match str_from_utf8(data) {
        Some(s) => {
            proof {
                encode_utf8_decode_utf8(s@);
            }
            s.to_owned()
        },
        None => to_hex(data),
    }
}

} // verus!
