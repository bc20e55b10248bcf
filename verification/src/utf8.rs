//! Well-formedness of text. A chunk is emitted to the terminal only after its
//! bytes are validated as well-formed UTF-8; anything else is undecodable
//! output and terminates the replay.

use vstd::prelude::*;

verus! {

/// A UTF-8 continuation byte.
pub open spec fn is_cont(b: u8) -> bool {
    0x80 <= b < 0xC0
}

/// The bytes of `s` from `i` on form a well-formed UTF-8 suffix: a sequence
/// of scalar-value encodings, shortest form only, surrogates and values above
/// 0x10FFFF excluded.
pub open spec fn utf8_valid_from(s: Seq<u8>, i: int) -> bool
    decreases s.len() - i,
{
    if i >= s.len() {
        true
    } else {
        let b = s[i];
        if b < 0x80 {
            utf8_valid_from(s, i + 1)
        } else if 0xC2 <= b && b <= 0xDF {
            if i + 2 <= s.len() {
                is_cont(s[i + 1]) && utf8_valid_from(s, i + 2)
            } else {
                false
            }
        } else if b == 0xE0 {
            if i + 3 <= s.len() {
                0xA0 <= s[i + 1] < 0xC0 && is_cont(s[i + 2]) && utf8_valid_from(s, i + 3)
            } else {
                false
            }
        } else if 0xE1 <= b && b <= 0xEC || b == 0xEE || b == 0xEF {
            if i + 3 <= s.len() {
                is_cont(s[i + 1]) && is_cont(s[i + 2]) && utf8_valid_from(s, i + 3)
            } else {
                false
            }
        } else if b == 0xED {
            if i + 3 <= s.len() {
                0x80 <= s[i + 1] < 0xA0 && is_cont(s[i + 2]) && utf8_valid_from(s, i + 3)
            } else {
                false
            }
        } else if b == 0xF0 {
            if i + 4 <= s.len() {
                0x90 <= s[i + 1] < 0xC0 && is_cont(s[i + 2]) && is_cont(s[i + 3])
                    && utf8_valid_from(s, i + 4)
            } else {
                false
            }
        } else if 0xF1 <= b && b <= 0xF3 {
            if i + 4 <= s.len() {
                is_cont(s[i + 1]) && is_cont(s[i + 2]) && is_cont(s[i + 3]) && utf8_valid_from(
                    s,
                    i + 4,
                )
            } else {
                false
            }
        } else if b == 0xF4 {
            if i + 4 <= s.len() {
                0x80 <= s[i + 1] < 0x90 && is_cont(s[i + 2]) && is_cont(s[i + 3])
                    && utf8_valid_from(s, i + 4)
            } else {
                false
            }
        } else {
            false
        }
    }
}

/// `s` is well-formed UTF-8 text.
pub open spec fn is_utf8(s: Seq<u8>) -> bool {
    utf8_valid_from(s, 0)
}

/// Checks a continuation byte.
fn cont(b: u8) -> (r: bool)
    ensures
        r == is_cont(b),
{
    0x80 <= b && b < 0xC0
}

/// Checks that `v` is well-formed UTF-8 text, as `is_utf8` defines it.
pub fn validate_utf8(v: &Vec<u8>) -> (r: bool)
    ensures
        r == is_utf8(v@),
{
    let n = v.len();
    let mut i: usize = 0;
    while i < n
        invariant
            i <= n,
            n == v@.len(),
            is_utf8(v@) == utf8_valid_from(v@, i as int),
        decreases n - i,
    {
        let b = v[i];
        if b < 0x80 {
            i = i + 1;
        } else if 0xC2 <= b && b <= 0xDF {
            if n - i >= 2 && cont(v[i + 1]) {
                i = i + 2;
            } else {
                return false;
            }
        } else if b == 0xE0 {
            if n - i >= 3 && 0xA0 <= v[i + 1] && v[i + 1] < 0xC0 && cont(v[i + 2]) {
                i = i + 3;
            } else {
                return false;
            }
        } else if 0xE1 <= b && b <= 0xEC || b == 0xEE || b == 0xEF {
            if n - i >= 3 && cont(v[i + 1]) && cont(v[i + 2]) {
                i = i + 3;
            } else {
                return false;
            }
        } else if b == 0xED {
            if n - i >= 3 && 0x80 <= v[i + 1] && v[i + 1] < 0xA0 && cont(v[i + 2]) {
                i = i + 3;
            } else {
                return false;
            }
        } else if b == 0xF0 {
            if n - i >= 4 && 0x90 <= v[i + 1] && v[i + 1] < 0xC0 && cont(v[i + 2]) && cont(
                v[i + 3],
            ) {
                i = i + 4;
            } else {
                return false;
            }
        } else if 0xF1 <= b && b <= 0xF3 {
            if n - i >= 4 && cont(v[i + 1]) && cont(v[i + 2]) && cont(v[i + 3]) {
                i = i + 4;
            } else {
                return false;
            }
        } else if b == 0xF4 {
            if n - i >= 4 && 0x80 <= v[i + 1] && v[i + 1] < 0x90 && cont(v[i + 2]) && cont(
                v[i + 3],
            ) {
                i = i + 4;
            } else {
                return false;
            }
        } else {
            return false;
        }
    }
    true
}

} // verus!
