//! Mixed-case checksum validation of hex wallet addresses.
//!
//! An address is `0x` followed by 40 hex digits whose letter casing encodes a
//! verification hash: digit `i` must be upper-case exactly when the `i`-th
//! nibble of the Keccak-256 digest of the lower-cased digits is above 7.

use vstd::prelude::*;

verus! {

/// The Keccak-256 digest of a byte sequence. The digest depends on the input
/// bytes alone.
pub uninterp spec fn keccak256_of(data: Seq<u8>) -> Seq<u8>;

/// Relies on rust-crypto's `Sha3::keccak256` with `Digest::input` and
/// `Digest::result`: a 32-byte digest that is a function of the input bytes
/// alone.
#[verifier::external_body]
fn keccak256(data: &Vec<u8>) -> (r: Vec<u8>)
    ensures
        r@ == keccak256_of(data@),
        r@.len() == 32,
{
    let mut hasher = crypto::sha3::Sha3::keccak256();
    crypto::digest::Digest::input(&mut hasher, data.as_slice());
    let mut out = vec![0u8; 32];
    crypto::digest::Digest::result(&mut hasher, &mut out);
    out
}

/// A hex digit in either case.
pub open spec fn is_hex_digit(c: char) -> bool {
    ('0' <= c && c <= '9') || ('a' <= c && c <= 'f') || ('A' <= c && c <= 'F')
}

/// The byte of a hex digit character with upper-case letters folded to lower
/// case.
pub open spec fn hex_lower_byte(c: char) -> u8 {
    if 'A' <= c && c <= 'F' {
        ((c as u8) + 32) as u8
    } else {
        c as u8
    }
}

/// The 40 lower-cased payload bytes of an address string.
pub open spec fn lowered_payload(s: Seq<char>) -> Seq<u8> {
    Seq::new(40, |i: int| hex_lower_byte(s[i + 2]))
}

/// The `i`-th hex digit of a digest, as a 4-bit value.
pub open spec fn checksum_nibble(d: Seq<u8>, i: int) -> u8 {
    if i % 2 == 0 {
        d[i / 2] / 16
    } else {
        d[i / 2] % 16
    }
}

/// The casing rule for one address digit: a nibble above 7 forbids a
/// lower-case letter in that position, a nibble of at most 7 forbids an
/// upper-case one. Digits `0`-`9` satisfy either side.
pub open spec fn case_ok(c: char, nib: u8) -> bool {
    if nib > 7 {
        !('a' <= c && c <= 'f')
    } else {
        !('A' <= c && c <= 'F')
    }
}

/// Every payload digit is cased as the digest of the lower-cased payload
/// demands.
pub open spec fn checksum_matches(s: Seq<char>) -> bool {
    forall|i: int|
        0 <= i < 40 ==> case_ok(
            s[i + 2],
            checksum_nibble(keccak256_of(lowered_payload(s)), i),
        )
}

/// A checksummed wallet address: `0x`, then 40 hex digits, cased per the
/// checksum rule.
pub open spec fn valid_address(s: Seq<char>) -> bool {
    &&& s.len() == 42
    &&& s[0] == '0'
    &&& s[1] == 'x'
    &&& forall|i: int| 2 <= i < 42 ==> is_hex_digit(#[trigger] s[i])
    &&& checksum_matches(s)
}

/// Decide whether a string is a checksummed wallet address. Total over any
/// string input; in particular every string whose length is not 42 is
/// rejected.
pub fn valid_eth_address(address: &str) -> (r: bool)
    ensures
        r == valid_address(address@),
        address@.len() != 42 ==> !r,
{
    if !address.is_ascii() {
        proof {
            if valid_address(address@) {
                assert forall|i: int| 0 <= i < address@.len() implies '\0' <= #[trigger] address@[i]
                    <= '\u{7f}' by {
                    if i >= 2 {
                        assert(is_hex_digit(address@[i]));
                    }
                }
                assert(vstd::utf8::is_ascii_chars(address@));
            }
        }
        return false;
    }
    let n = address.unicode_len();
    if n != 42 {
        return false;
    }
    let c0 = address.get_ascii(0);
    let c1 = address.get_ascii(1);
    if c0 != 48 || c1 != 120 {
        return false;
    }
    let ghost s = address@;
    let mut lowered: Vec<u8> = Vec::new();
    let mut i: usize = 2;
    while i < 42
        invariant
            2 <= i <= 42,
            s == address@,
            s.len() == 42,
            vstd::utf8::is_ascii_chars(s),
            forall|k: int| 2 <= k < i ==> is_hex_digit(#[trigger] s[k]),
            lowered@ =~= Seq::new((i - 2) as nat, |k: int| hex_lower_byte(s[k + 2])),
        decreases 42 - i,
    {
        let b = address.get_ascii(i);
        let lb: u8 = if b >= 65 && b <= 70 {
            b + 32
        } else {
            b
        };
        if !((lb >= 48 && lb <= 57) || (lb >= 97 && lb <= 102)) {
            assert(!is_hex_digit(s[i as int]));
            return false;
        }
        lowered.push(lb);
        i += 1;
    }
    proof {
        assert(lowered@ =~= lowered_payload(s));
    }
    let digest = keccak256(&lowered);
    let ghost d = keccak256_of(lowered_payload(s));
    let mut j: usize = 0;
    while j < 40
        invariant
            0 <= j <= 40,
            s == address@,
            s.len() == 42,
            vstd::utf8::is_ascii_chars(s),
            digest@ == d,
            digest@.len() == 32,
            d == keccak256_of(lowered_payload(s)),
            forall|k: int| 0 <= k < j ==> case_ok(#[trigger] s[k + 2], checksum_nibble(d, k)),
        decreases 40 - j,
    {
        let b = address.get_ascii(j + 2);
        let byte = digest[j / 2];
        let nib: u8 = if j % 2 == 0 {
            proof {
                assert(byte >> 4 == byte / 16) by (bit_vector);
            }
            byte >> 4
        } else {
            proof {
                assert(byte & 15 == byte % 16) by (bit_vector);
            }
            byte & 15
        };
        assert(nib == checksum_nibble(d, j as int));
        if nib > 7 {
            if b >= 97 && b <= 102 {
                assert(!case_ok(s[j + 2], checksum_nibble(d, j as int)));
                return false;
            }
        } else {
            if b >= 65 && b <= 70 {
                assert(!case_ok(s[j + 2], checksum_nibble(d, j as int)));
                return false;
            }
        }
        j += 1;
    }
    true
}

/// An upper-case ASCII letter folded to lower case; any other character
/// unchanged.
pub open spec fn fold_case(c: char) -> char {
    if 'A' <= c && c <= 'Z' {
        ((c as u32) + 32) as char
    } else {
        c
    }
}

/// The case-folded form of a string: the normalized address the per-user
/// uniqueness rule compares by.
pub open spec fn folded(s: Seq<char>) -> Seq<char> {
    s.map_values(|c: char| fold_case(c))
}

/// Decide whether two strings are equal up to ASCII letter case.
pub fn eq_folded(a: &str, b: &str) -> (r: bool)
    ensures
        r == (folded(a@) == folded(b@)),
{
    let na = a.unicode_len();
    let nb = b.unicode_len();
    if na != nb {
        proof {
            assert(folded(a@).len() != folded(b@).len());
        }
        return false;
    }
    let mut i: usize = 0;
    while i < na
        invariant
            0 <= i <= na,
            na == a@.len(),
            nb == b@.len(),
            na == nb,
            forall|j: int| 0 <= j < i ==> fold_case(#[trigger] a@[j]) == fold_case(b@[j]),
        decreases na - i,
    {
        let ca = a.get_char(i);
        let cb = b.get_char(i);
        let fa: u32 = if ca >= 'A' && ca <= 'Z' {
            ca as u32 + 32
        } else {
            ca as u32
        };
        let fb: u32 = if cb >= 'A' && cb <= 'Z' {
            cb as u32 + 32
        } else {
            cb as u32
        };
        if fa != fb {
            proof {
                assert(fold_case(a@[i as int]) != fold_case(b@[i as int]));
                assert(folded(a@)[i as int] != folded(b@)[i as int]);
            }
            return false;
        }
        proof {
            assert(fold_case(a@[i as int]) == fold_case(b@[i as int]));
        }
        i += 1;
    }
    proof {
        assert(folded(a@) =~= folded(b@));
    }
    true
}

} // verus!
