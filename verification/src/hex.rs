//! Hexadecimal text for fingerprints: 64 lowercase digits on output,
//! either case accepted on input.

use vstd::prelude::*;
use vstd::string::{StringExecFns, StringSliceAdditionalSpecFns};
use crate::model::ObjectId;

verus! {

/// Why a text is not the hexadecimal form of a fingerprint.
#[derive(Clone, Copy, Debug, PartialEq, Eq, Structural)]
pub enum HexError {
    /// The text holds a byte that is no hexadecimal digit; this is the first one.
    InvalidByte(u8),
    /// The text is not 64 bytes long; this is its length.
    InvalidLen(usize),
}

/// The lowercase hexadecimal digit for a value below 16.
pub open spec fn hex_digit(n: int) -> char {
    if n < 10 {
        ((48 + n) as u8) as char
    } else {
        ((87 + n) as u8) as char
    }
}

/// The lowercase hexadecimal form of a byte string: two digits per byte,
/// high nibble first.
pub open spec fn hex_string(bytes: Seq<u8>) -> Seq<char> {
    Seq::new(
        2 * bytes.len(),
        |i: int|
            if i % 2 == 0 {
                hex_digit(bytes[i / 2] as int / 16)
            } else {
                hex_digit(bytes[i / 2] as int % 16)
            },
    )
}

/// The value of a hexadecimal digit given as an ASCII byte, in either case.
pub open spec fn hex_value(b: u8) -> Option<u8> {
    if 48 <= b <= 57 {
        Some((b - 48) as u8)
    } else if 97 <= b <= 102 {
        Some((b - 87) as u8)
    } else if 65 <= b <= 70 {
        Some((b - 55) as u8)
    } else {
        None
    }
}

/// Every byte of the text is a hexadecimal digit.
pub open spec fn all_hex(text: Seq<u8>) -> bool {
    forall|i: int| 0 <= i < text.len() ==> (#[trigger] hex_value(text[i])) is Some
}

/// `k` is the position of the first byte of the text that is no hexadecimal digit.
pub open spec fn first_invalid_at(text: Seq<u8>, k: int) -> bool {
    &&& 0 <= k < text.len()
    &&& hex_value(text[k]) is None
    &&& forall|j: int| 0 <= j < k ==> (#[trigger] hex_value(text[j])) is Some
}

/// The bytes that a text of hexadecimal digits stands for.
pub open spec fn hex_decode(text: Seq<u8>) -> Seq<u8> {
    Seq::new(
        text.len() / 2,
        |i: int| (16 * hex_value(text[2 * i]).unwrap() + hex_value(text[2 * i + 1]).unwrap()) as u8,
    )
}

/// The text is the hexadecimal form of some fingerprint.
pub open spec fn is_fingerprint_text(text: Seq<u8>) -> bool {
    text.len() == 64 && all_hex(text)
}

/// The position of the first byte of the text that is no hexadecimal digit.
pub open spec fn first_invalid(text: Seq<u8>) -> int {
    choose|k: int| first_invalid_at(text, k)
}

/// The fingerprint that a text stands for, or why it stands for none: a
/// text that is not 64 bytes long is refused with its length, any other with
/// its first byte that is no hexadecimal digit.
pub open spec fn parsed_fingerprint(text: Seq<u8>) -> Result<Seq<u8>, HexError> {
    if text.len() != 64 {
        Err(HexError::InvalidLen(text.len() as usize))
    } else if all_hex(text) {
        Ok(hex_decode(text))
    } else {
        Err(HexError::InvalidByte(text[first_invalid(text)]))
    }
}

/// There is one first invalid byte, and [`first_invalid`] names it.
pub proof fn lemma_first_invalid(text: Seq<u8>, k: int)
    requires
        first_invalid_at(text, k),
    ensures
        first_invalid(text) == k,
        !all_hex(text),
{
    let j = first_invalid(text);
    assert(first_invalid_at(text, j));
    if j < k {
        assert(hex_value(text[j]) is Some);
    }
    if k < j {
        assert(hex_value(text[k]) is Some);
    }
}

/// The hexadecimal digit for a value below 16, as a text of one character.
fn digit_text(n: u8) -> (s: &'static str)
    requires
        n < 16,
    ensures
        s@ == seq![hex_digit(n as int)],
{
    match n {
        0 => {
            proof {
                reveal_strlit("0");
            }
            assert("0"@ =~= seq![hex_digit(n as int)]);
            "0"
        },
        1 => {
            proof {
                reveal_strlit("1");
            }
            assert("1"@ =~= seq![hex_digit(n as int)]);
            "1"
        },
        2 => {
            proof {
                reveal_strlit("2");
            }
            assert("2"@ =~= seq![hex_digit(n as int)]);
            "2"
        },
        3 => {
            proof {
                reveal_strlit("3");
            }
            assert("3"@ =~= seq![hex_digit(n as int)]);
            "3"
        },
        4 => {
            proof {
                reveal_strlit("4");
            }
            assert("4"@ =~= seq![hex_digit(n as int)]);
            "4"
        },
        5 => {
            proof {
                reveal_strlit("5");
            }
            assert("5"@ =~= seq![hex_digit(n as int)]);
            "5"
        },
        6 => {
            proof {
                reveal_strlit("6");
            }
            assert("6"@ =~= seq![hex_digit(n as int)]);
            "6"
        },
        7 => {
            proof {
                reveal_strlit("7");
            }
            assert("7"@ =~= seq![hex_digit(n as int)]);
            "7"
        },
        8 => {
            proof {
                reveal_strlit("8");
            }
            assert("8"@ =~= seq![hex_digit(n as int)]);
            "8"
        },
        9 => {
            proof {
                reveal_strlit("9");
            }
            assert("9"@ =~= seq![hex_digit(n as int)]);
            "9"
        },
        10 => {
            proof {
                reveal_strlit("a");
            }
            assert("a"@ =~= seq![hex_digit(n as int)]);
            "a"
        },
        11 => {
            proof {
                reveal_strlit("b");
            }
            assert("b"@ =~= seq![hex_digit(n as int)]);
            "b"
        },
        12 => {
            proof {
                reveal_strlit("c");
            }
            assert("c"@ =~= seq![hex_digit(n as int)]);
            "c"
        },
        13 => {
            proof {
                reveal_strlit("d");
            }
            assert("d"@ =~= seq![hex_digit(n as int)]);
            "d"
        },
        14 => {
            proof {
                reveal_strlit("e");
            }
            assert("e"@ =~= seq![hex_digit(n as int)]);
            "e"
        },
        _ => {
            proof {
                reveal_strlit("f");
            }
            assert("f"@ =~= seq![hex_digit(n as int)]);
            "f"
        },
    }
}

fn digit_value(b: u8) -> (v: Option<u8>)
    ensures
        v == hex_value(b),
        v matches Some(n) ==> n < 16,
{
    if 48 <= b && b <= 57 {
        Some(b - 48)
    } else if 97 <= b && b <= 102 {
        Some(b - 87)
    } else if 65 <= b && b <= 70 {
        Some(b - 55)
    } else {
        None
    }
}

/// Writes a byte string as lowercase hexadecimal text.
pub fn encode_hex(bytes: &[u8]) -> (text: String)
    ensures
        text@ == hex_string(bytes@),
        text@.len() == 2 * bytes@.len(),
{
    let mut text = String::new();
    let mut i: usize = 0;
    while i < bytes.len()
        invariant
            i <= bytes@.len(),
            text@ == hex_string(bytes@.take(i as int)),
        decreases bytes@.len() - i,
    {
        let b = bytes[i];
        let ghost hi = hex_digit(b as int / 16);
        let ghost lo = hex_digit(b as int % 16);
        let ghost before = text@;
        text.append(digit_text(b / 16));
        text.append(digit_text(b % 16));
        assert(text@ =~= hex_string(bytes@.take(i + 1))) by {
            assert(text@ =~= before.push(hi).push(lo));
            assert forall|k: int| 0 <= k < 2 * (i + 1) implies text@[k] == hex_string(
                bytes@.take(i + 1),
            )[k] by {
                if k < 2 * i {
                    assert(before[k] == hex_string(bytes@.take(i as int))[k]);
                    assert(bytes@.take(i as int)[k / 2] == bytes@.take(i + 1)[k / 2]);
                }
            }
        }
        i += 1;
    }
    assert(bytes@.take(i as int) =~= bytes@);
    text
}

impl ObjectId {
    /// The fingerprint as 64 lowercase hexadecimal characters.
    pub fn to_hex(&self) -> (text: String)
        ensures
            text@ == hex_string(self@),
            text@.len() == 64,
    {
        broadcast use vstd::array::group_array_axioms;
        encode_hex(self.0.as_slice())
    }

    /// Reads a fingerprint from its hexadecimal form. Uppercase and lowercase
    /// digits are accepted. A text that is not 64 bytes long is refused with
    /// its length; otherwise the first byte that is no digit is reported.
    pub fn from_hex(text: &str) -> (r: Result<ObjectId, HexError>)
        ensures
            match r {
                Ok(id) => parsed_fingerprint(text.spec_bytes()) == Ok::<Seq<u8>, HexError>(id@),
                Err(e) => parsed_fingerprint(text.spec_bytes()) == Err::<Seq<u8>, HexError>(e),
            },
            match r {
                Ok(id) => is_fingerprint_text(text.spec_bytes()) && id@ == hex_decode(
                    text.spec_bytes(),
                ),
                Err(HexError::InvalidLen(n)) => text.spec_bytes().len() != 64 && n
                    == text.spec_bytes().len(),
                Err(HexError::InvalidByte(b)) => text.spec_bytes().len() == 64 && exists|k: int|
                    first_invalid_at(text.spec_bytes(), k) && text.spec_bytes()[k] == b,
            },
    {
        Self::from_hex_bytes(text.as_bytes())
    }

    /// Reads a fingerprint from the bytes of its hexadecimal form.
    pub fn from_hex_bytes(text: &[u8]) -> (r: Result<ObjectId, HexError>)
        ensures
            match r {
                Ok(id) => parsed_fingerprint(text@) == Ok::<Seq<u8>, HexError>(id@),
                Err(e) => parsed_fingerprint(text@) == Err::<Seq<u8>, HexError>(e),
            },
            match r {
                Ok(id) => is_fingerprint_text(text@) && id@ == hex_decode(text@),
                Err(HexError::InvalidLen(n)) => text@.len() != 64 && n == text@.len(),
                Err(HexError::InvalidByte(b)) => text@.len() == 64 && exists|k: int|
                    first_invalid_at(text@, k) && text@[k] == b,
            },
    {
        broadcast use vstd::array::group_array_axioms;
        if text.len() != 64 {
            return Err(HexError::InvalidLen(text.len()));
        }
        let mut bytes: [u8; 32] = [0u8; 32];
        let mut i: usize = 0;
        while i < 32
            invariant
                i <= 32,
                text@.len() == 64,
                forall|j: int| 0 <= j < 2 * i ==> (#[trigger] hex_value(text@[j])) is Some,
                forall|j: int| 0 <= j < i ==> bytes@[j] == hex_decode(text@)[j],
            decreases 32 - i,
        {
            let hi = match digit_value(text[2 * i]) {
                Some(v) => v,
                None => {
                    assert(first_invalid_at(text@, 2 * i));
                    proof {
                        lemma_first_invalid(text@, 2 * i);
                    }
                    return Err(HexError::InvalidByte(text[2 * i]));
                },
            };
            let lo = match digit_value(text[2 * i + 1]) {
                Some(v) => v,
                None => {
                    assert(first_invalid_at(text@, 2 * i + 1));
                    proof {
                        lemma_first_invalid(text@, 2 * i + 1);
                    }
                    return Err(HexError::InvalidByte(text[2 * i + 1]));
                },
            };
            bytes[i] = 16 * hi + lo;
            i += 1;
        }
        let id = ObjectId(bytes);
        assert(id@ =~= hex_decode(text@));
        Ok(id)
    }
}

/// The hexadecimal form of a byte string consists of ASCII digits, and
/// decoding it gives the bytes back: what is written as a fingerprint is read
/// as that fingerprint.
pub proof fn lemma_hex_round_trip(bytes: Seq<u8>)
    ensures
        vstd::utf8::is_ascii_chars(hex_string(bytes)),
        all_hex(vstd::utf8::encode_utf8(hex_string(bytes))),
        hex_decode(vstd::utf8::encode_utf8(hex_string(bytes))) == bytes,
        bytes.len() == 32 ==> parsed_fingerprint(vstd::utf8::encode_utf8(hex_string(bytes)))
            == Ok::<Seq<u8>, HexError>(bytes),
{
    let chars = hex_string(bytes);
    assert(vstd::utf8::is_ascii_chars(chars)) by {
        assert forall|i: int| 0 <= i < chars.len() implies '\0' <= #[trigger] chars[i]
            <= '\u{7f}' by {}
    }
    vstd::utf8::is_ascii_chars_encode_utf8(chars);
    let text = vstd::utf8::encode_utf8(chars);
    assert forall|i: int| 0 <= i < text.len() implies (#[trigger] hex_value(text[i])) is Some by {
        assert(text[i] == chars[i] as u8);
    }
    assert forall|i: int| 0 <= i < bytes.len() implies hex_decode(text)[i] == bytes[i] by {
        assert(text[2 * i] == chars[2 * i] as u8);
        assert(text[2 * i + 1] == chars[2 * i + 1] as u8);
        let b = bytes[i];
        assert(hex_value(hex_digit(b as int / 16) as u8) == Some((b / 16) as u8));
        assert(hex_value(hex_digit(b as int % 16) as u8) == Some((b % 16) as u8));
    }
    assert(hex_decode(text) =~= bytes);
}

} // verus!
