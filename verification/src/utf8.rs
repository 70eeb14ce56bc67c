//! UTF-8 validity: a specification of well-formed UTF-8 byte sequences
//! (RFC 3629: shortest forms only, no surrogates, nothing above U+10FFFF)
//! and a verified validator.

use vstd::prelude::*;

verus! {

/// A continuation byte of a multi-byte sequence.
pub open spec fn is_cont(b: u8) -> bool {
    0x80 <= b && b <= 0xBF
}

/// Well-formed UTF-8, defined one encoded scalar value at a time.
pub open spec fn is_utf8(s: Seq<u8>) -> bool
    decreases s.len(),
{
    if s.len() == 0 {
        true
    } else {
        let b0 = s[0];
        if b0 < 0x80 {
            is_utf8(s.skip(1))
        } else if b0 < 0xC2 {
            false
        } else if b0 <= 0xDF {
            s.len() >= 2 && is_cont(s[1]) && is_utf8(s.skip(2))
        } else if b0 == 0xE0 {
            s.len() >= 3 && 0xA0 <= s[1] && s[1] <= 0xBF && is_cont(s[2]) && is_utf8(s.skip(3))
        } else if b0 == 0xED {
            s.len() >= 3 && 0x80 <= s[1] && s[1] <= 0x9F && is_cont(s[2]) && is_utf8(s.skip(3))
        } else if b0 <= 0xEF {
            s.len() >= 3 && is_cont(s[1]) && is_cont(s[2]) && is_utf8(s.skip(3))
        } else if b0 == 0xF0 {
            s.len() >= 4 && 0x90 <= s[1] && s[1] <= 0xBF && is_cont(s[2]) && is_cont(s[3])
                && is_utf8(s.skip(4))
        } else if b0 <= 0xF3 {
            s.len() >= 4 && is_cont(s[1]) && is_cont(s[2]) && is_cont(s[3]) && is_utf8(s.skip(4))
        } else if b0 == 0xF4 {
            s.len() >= 4 && 0x80 <= s[1] && s[1] <= 0x8F && is_cont(s[2]) && is_cont(s[3])
                && is_utf8(s.skip(4))
        } else {
            false
        }
    }
}

/// Checks whether `bytes` is well-formed UTF-8.
pub fn validate_utf8(bytes: &[u8]) -> (r: bool)
    ensures
        r == is_utf8(bytes@),
{
    let n: usize = bytes.len();
    let mut i: usize = 0;
    proof {
        assert(bytes@.skip(0) =~= bytes@);
    }
    while i < n
        invariant
            i <= n,
            n == bytes@.len(),
            is_utf8(bytes@) == is_utf8(bytes@.skip(i as int)),
        decreases n - i,
    {
        let ghost pre = bytes@.skip(i as int);
        let b0 = bytes[i];
        if b0 < 0x80 {
            proof {
                assert(pre.skip(1) =~= bytes@.skip(i + 1));
            }
            i = i + 1;
        } else if b0 < 0xC2 {
            return false;
        } else if b0 <= 0xDF {
            if n - i < 2 || !cont(bytes[i + 1]) {
                return false;
            }
            proof {
                assert(pre.skip(2) =~= bytes@.skip(i + 2));
            }
            i = i + 2;
        } else if b0 <= 0xEF {
            if n - i < 3 || !cont(bytes[i + 2]) {
                return false;
            }
            let b1 = bytes[i + 1];
            let ok = if b0 == 0xE0 {
                0xA0 <= b1 && b1 <= 0xBF
            } else if b0 == 0xED {
                0x80 <= b1 && b1 <= 0x9F
            } else {
                cont(b1)
            };
            if !ok {
                return false;
            }
            proof {
                assert(pre.skip(3) =~= bytes@.skip(i + 3));
            }
            i = i + 3;
        } else if b0 <= 0xF4 {
            if n - i < 4 || !cont(bytes[i + 2]) || !cont(bytes[i + 3]) {
                return false;
            }
            let b1 = bytes[i + 1];
            let ok = if b0 == 0xF0 {
                0x90 <= b1 && b1 <= 0xBF
            } else if b0 == 0xF4 {
                0x80 <= b1 && b1 <= 0x8F
            } else {
                cont(b1)
            };
            if !ok {
                return false;
            }
            proof {
                assert(pre.skip(4) =~= bytes@.skip(i + 4));
            }
            i = i + 4;
        } else {
            return false;
        }
    }
    proof {
        assert(bytes@.skip(n as int) =~= Seq::<u8>::empty());
    }
    true
}

/// Checks whether `b` is a continuation byte.
fn cont(b: u8) -> (r: bool)
    ensures
        r == is_cont(b),
{
    0x80 <= b && b <= 0xBF
}

} // verus!
