//! Small operations on strings that the rest of the library builds on.

use vstd::prelude::*;
use vstd::string::{StrSliceExecFns, StringExecFns, StringSliceAdditionalSpecFns};
use crate::bytes::bytes_eq;

verus! {

/// Appends the character at `i` of `text` to `out`.
fn push_from(out: &mut String, text: &str, i: usize)
    requires
        i < text@.len() <= usize::MAX,
    ensures
        final(out)@ == old(out)@.push(text@[i as int]),
{
    let one = text.substring_char(i, i + 1);
    assert(one@ =~= seq![text@[i as int]]);
    out.append(one);
    assert(out@ =~= old(out)@.push(text@[i as int]));
}

/// Whether two texts hold the same characters: they do exactly when their
/// UTF-8 bytes are the same.
pub fn str_eq(a: &str, b: &str) -> (equal: bool)
    ensures
        equal == (a@ == b@),
{
    let equal = bytes_eq(a.as_bytes(), b.as_bytes());
    proof {
        vstd::utf8::encode_utf8_decode_utf8(a@);
        vstd::utf8::encode_utf8_decode_utf8(b@);
    }
    equal
}

/// The two texts joined into a new string.
pub fn join2(a: &str, b: &str) -> (joined: String)
    ensures
        joined@ == a@ + b@,
{
    let mut joined = a.to_owned();
    joined.append(b);
    joined
}

/// The three texts joined into a new string.
pub fn join3(a: &str, b: &str, c: &str) -> (joined: String)
    ensures
        joined@ == a@ + b@ + c@,
{
    let mut joined = a.to_owned();
    joined.append(b);
    joined.append(c);
    joined
}

/// A copy of an optional string.
pub fn clone_text(text: &Option<String>) -> (copy: Option<String>)
    ensures
        copy.deep_view() == text.deep_view(),
{
    match text {
        Some(s) => Some(s.clone()),
        None => None,
    }
}

/// A character with the uppercase ASCII letters made lowercase.
pub open spec fn lower_char(c: char) -> char {
    if 'A' <= c && c <= 'Z' {
        ((c as u8) + 32) as char
    } else {
        c
    }
}

/// A text with the uppercase ASCII letters made lowercase.
pub open spec fn lowered(text: Seq<char>) -> Seq<char> {
    Seq::new(text.len(), |i: int| lower_char(text[i]))
}

/// `prefix` is what `text` starts with.
pub open spec fn starts(text: Seq<char>, prefix: Seq<char>) -> bool {
    prefix.len() <= text.len() && forall|i: int| 0 <= i < prefix.len() ==> text[i] == prefix[i]
}

/// What follows the last `/` of a text: the whole text where it has none.
pub open spec fn last_segment(text: Seq<char>) -> Seq<char>
    decreases text.len(),
{
    if text.len() == 0 {
        text
    } else if text.last() == '/' {
        Seq::empty()
    } else {
        last_segment(text.drop_last()).push(text.last())
    }
}

/// The lowercase form of an uppercase ASCII letter, as a text of one character.
fn lower_letter(c: char) -> (s: &'static str)
    requires
        'A' <= c && c <= 'Z',
    ensures
        s@ == seq![lower_char(c)],
{
    match c {
        'A' => {
            proof {
                reveal_strlit("a");
            }
            assert("a"@ =~= seq![lower_char(c)]);
            "a"
        },
        'B' => {
            proof {
                reveal_strlit("b");
            }
            assert("b"@ =~= seq![lower_char(c)]);
            "b"
        },
        'C' => {
            proof {
                reveal_strlit("c");
            }
            assert("c"@ =~= seq![lower_char(c)]);
            "c"
        },
        'D' => {
            proof {
                reveal_strlit("d");
            }
            assert("d"@ =~= seq![lower_char(c)]);
            "d"
        },
        'E' => {
            proof {
                reveal_strlit("e");
            }
            assert("e"@ =~= seq![lower_char(c)]);
            "e"
        },
        'F' => {
            proof {
                reveal_strlit("f");
            }
            assert("f"@ =~= seq![lower_char(c)]);
            "f"
        },
        'G' => {
            proof {
                reveal_strlit("g");
            }
            assert("g"@ =~= seq![lower_char(c)]);
            "g"
        },
        'H' => {
            proof {
                reveal_strlit("h");
            }
            assert("h"@ =~= seq![lower_char(c)]);
            "h"
        },
        'I' => {
            proof {
                reveal_strlit("i");
            }
            assert("i"@ =~= seq![lower_char(c)]);
            "i"
        },
        'J' => {
            proof {
                reveal_strlit("j");
            }
            assert("j"@ =~= seq![lower_char(c)]);
            "j"
        },
        'K' => {
            proof {
                reveal_strlit("k");
            }
            assert("k"@ =~= seq![lower_char(c)]);
            "k"
        },
        'L' => {
            proof {
                reveal_strlit("l");
            }
            assert("l"@ =~= seq![lower_char(c)]);
            "l"
        },
        'M' => {
            proof {
                reveal_strlit("m");
            }
            assert("m"@ =~= seq![lower_char(c)]);
            "m"
        },
        'N' => {
            proof {
                reveal_strlit("n");
            }
            assert("n"@ =~= seq![lower_char(c)]);
            "n"
        },
        'O' => {
            proof {
                reveal_strlit("o");
            }
            assert("o"@ =~= seq![lower_char(c)]);
            "o"
        },
        'P' => {
            proof {
                reveal_strlit("p");
            }
            assert("p"@ =~= seq![lower_char(c)]);
            "p"
        },
        'Q' => {
            proof {
                reveal_strlit("q");
            }
            assert("q"@ =~= seq![lower_char(c)]);
            "q"
        },
        'R' => {
            proof {
                reveal_strlit("r");
            }
            assert("r"@ =~= seq![lower_char(c)]);
            "r"
        },
        'S' => {
            proof {
                reveal_strlit("s");
            }
            assert("s"@ =~= seq![lower_char(c)]);
            "s"
        },
        'T' => {
            proof {
                reveal_strlit("t");
            }
            assert("t"@ =~= seq![lower_char(c)]);
            "t"
        },
        'U' => {
            proof {
                reveal_strlit("u");
            }
            assert("u"@ =~= seq![lower_char(c)]);
            "u"
        },
        'V' => {
            proof {
                reveal_strlit("v");
            }
            assert("v"@ =~= seq![lower_char(c)]);
            "v"
        },
        'W' => {
            proof {
                reveal_strlit("w");
            }
            assert("w"@ =~= seq![lower_char(c)]);
            "w"
        },
        'X' => {
            proof {
                reveal_strlit("x");
            }
            assert("x"@ =~= seq![lower_char(c)]);
            "x"
        },
        'Y' => {
            proof {
                reveal_strlit("y");
            }
            assert("y"@ =~= seq![lower_char(c)]);
            "y"
        },
        _ => {
            proof {
                reveal_strlit("z");
            }
            assert("z"@ =~= seq![lower_char(c)]);
            "z"
        },
    }
}

/// The text with its uppercase ASCII letters made lowercase.
pub fn to_lower(text: &str) -> (out: String)
    ensures
        out@ == lowered(text@),
{
    let n = text.unicode_len();
    let mut out = String::new();
    let mut i: usize = 0;
    while i < n
        invariant
            i <= n,
            n == text@.len(),
            out@ == lowered(text@).take(i as int),
        decreases n - i,
    {
        let c = text.get_char(i);
        if 'A' <= c && c <= 'Z' {
            let ghost before = out@;
            out.append(lower_letter(c));
            assert(out@ =~= before.push(lower_char(c)));
        } else {
            push_from(&mut out, text, i);
        }
        assert(out@ =~= lowered(text@).take(i + 1));
        i += 1;
    }
    assert(lowered(text@).take(i as int) =~= lowered(text@));
    out
}

/// Whether `text` starts with `prefix`.
pub fn starts_with(text: &str, prefix: &str) -> (r: bool)
    ensures
        r == starts(text@, prefix@),
{
    let n = prefix.unicode_len();
    if n > text.unicode_len() {
        return false;
    }
    let mut i: usize = 0;
    while i < n
        invariant
            i <= n,
            n == prefix@.len(),
            n <= text@.len(),
            forall|k: int| 0 <= k < i ==> text@[k] == prefix@[k],
        decreases n - i,
    {
        if text.get_char(i) != prefix.get_char(i) {
            return false;
        }
        i += 1;
    }
    true
}

/// What follows the last `/` of `text`.
pub fn after_last_slash(text: &str) -> (out: String)
    ensures
        out@ == last_segment(text@),
{
    let n = text.unicode_len();
    let mut out = String::new();
    let mut i: usize = 0;
    assert(text@.take(0) =~= Seq::<char>::empty());
    while i < n
        invariant
            i <= n,
            n == text@.len(),
            out@ == last_segment(text@.take(i as int)),
        decreases n - i,
    {
        let c = text.get_char(i);
        assert(text@.take(i + 1).drop_last() =~= text@.take(i as int));
        if c == '/' {
            out = String::new();
        } else {
            push_from(&mut out, text, i);
        }
        i += 1;
    }
    assert(text@.take(i as int) =~= text@);
    out
}

} // verus!
