//! Verified text utilities: string equality, byte-prefix tests, and decimal
//! formatting of unsigned integers, used when building notification strings.

use vstd::prelude::*;
use vstd::string::StrSliceExecFns;
use vstd::string::StringExecFns;
use vstd::string::StringSliceAdditionalSpecFns;
use vstd::utf8::encode_utf8_decode_utf8;

verus! {

/// The ten decimal digit characters, in order.
pub open spec fn dec_digits() -> Seq<char> {
    "0123456789"@
}

/// The decimal representation of a natural number, most significant digit
/// first, with no leading zeros (and a single `'0'` for zero).
pub open spec fn spec_udec(n: nat) -> Seq<char>
    decreases n,
{
    if n < 10 {
        seq![dec_digits()[n as int]]
    } else {
        spec_udec(n / 10) + seq![dec_digits()[(n % 10) as int]]
    }
}

/// Formats a `u64` in decimal.
pub fn u64_to_string(n: u64) -> (r: String)
    ensures
        r@ == spec_udec(n as nat),
    decreases n,
{
    let digits = "0123456789";
    proof {
        reveal_strlit("0123456789");
    }
    if n < 10 {
        let d = digits.substring_char(n as usize, n as usize + 1);
        proof {
            assert(d@ =~= seq![dec_digits()[n as int]]);
        }
        d.to_owned()
    } else {
        let mut prefix = u64_to_string(n / 10);
        let d = n % 10;
        let ds = digits.substring_char(d as usize, d as usize + 1);
        proof {
            assert(ds@ =~= seq![dec_digits()[(n % 10) as int]]);
        }
        prefix.append(ds);
        prefix
    }
}

/// Compares two strings for equality of their character sequences.
pub fn str_eq(a: &str, b: &str) -> (r: bool)
    ensures
        r == (a@ == b@),
{
    let ab = a.as_bytes();
    let bb = b.as_bytes();
    if ab.len() != bb.len() {
        proof {
            if a@ == b@ {
                assert(ab@ == bb@);
            }
        }
        return false;
    }
    let n = ab.len();
    let mut i: usize = 0;
    while i < n
        invariant
            0 <= i <= n,
            n == ab@.len(),
            n == bb@.len(),
            ab@ == a.spec_bytes(),
            bb@ == b.spec_bytes(),
            forall|j: int| 0 <= j < i ==> ab@[j] == bb@[j],
        decreases n - i,
    {
        if ab[i] != bb[i] {
            proof {
                if a@ == b@ {
                    assert(ab@ == bb@);
                }
            }
            return false;
        }
        i += 1;
    }
    proof {
        assert(ab@ =~= bb@);
        encode_utf8_decode_utf8(a@);
        encode_utf8_decode_utf8(b@);
    }
    true
}

/// Tests whether `b` begins with the byte sequence `p`.
pub fn bytes_has_prefix(b: &[u8], p: &[u8]) -> (r: bool)
    ensures
        r == (b@.len() >= p@.len() && b@.subrange(0, p@.len() as int) == p@),
{
    if b.len() < p.len() {
        return false;
    }
    let n = p.len();
    let mut i: usize = 0;
    while i < n
        invariant
            0 <= i <= n,
            n == p@.len(),
            n <= b@.len(),
            forall|j: int| 0 <= j < i ==> b@[j] == p@[j],
        decreases n - i,
    {
        if b[i] != p[i] {
            proof {
                if b@.subrange(0, p@.len() as int) == p@ {
                    assert(b@.subrange(0, p@.len() as int)[i as int] == b@[i as int]);
                }
            }
            return false;
        }
        i += 1;
    }
    proof {
        assert(b@.subrange(0, p@.len() as int) =~= p@);
    }
    true
}

} // verus!
