//! Integrity verification: parsing a hash-kind-prefixed digest argument
//! and validating a byte stream against it.

use vstd::prelude::*;
use vstd::string::StrSliceExecFns;
use crate::errors::{ErrorKind, InstallError};
use crate::strutil::{find_char, first_index_spec, lemma_first_index_at, str_matches_at};

verus! {

/// A hexadecimal digit, upper or lower case.
pub open spec fn is_hex_digit(c: char) -> bool {
    let u = c as u32;
    (0x30 <= u && u <= 0x39) || (0x61 <= u && u <= 0x66) || (0x41 <= u && u <= 0x46)
}

/// The value of a hexadecimal digit.
pub open spec fn hex_val(c: char) -> nat {
    let u = c as u32;
    if 0x30 <= u && u <= 0x39 {
        (u - 0x30) as nat
    } else if 0x61 <= u && u <= 0x66 {
        (u - 0x61 + 10) as nat
    } else {
        (u - 0x41 + 10) as nat
    }
}

/// An even-length string of hexadecimal digits.
pub open spec fn is_hex_seq(s: Seq<char>) -> bool {
    s.len() % 2 == 0 && forall|i: int| 0 <= i < s.len() ==> is_hex_digit(#[trigger] s[i])
}

/// The bytes a hexadecimal string decodes to, two digits per byte.
pub open spec fn hex_decode_spec(s: Seq<char>) -> Seq<u8>
    decreases s.len(),
{
    if s.len() < 2 {
        Seq::empty()
    } else {
        seq![(hex_val(s[0]) * 16 + hex_val(s[1])) as u8] + hex_decode_spec(s.skip(2))
    }
}

/// The character for a hexadecimal digit, lower case.
pub open spec fn hex_char(d: nat) -> char {
    if d < 10 {
        crate::errors::digit_char(d)
    } else if d == 10 {
        'a'
    } else if d == 11 {
        'b'
    } else if d == 12 {
        'c'
    } else if d == 13 {
        'd'
    } else if d == 14 {
        'e'
    } else {
        'f'
    }
}

/// The lower-case hexadecimal rendering of a byte sequence, two digits
/// per byte.
pub open spec fn hex_encode_spec(b: Seq<u8>) -> Seq<char>
    decreases b.len(),
{
    if b.len() == 0 {
        Seq::empty()
    } else {
        seq![hex_char(b[0] as nat / 16), hex_char(b[0] as nat % 16)] + hex_encode_spec(
            b.drop_first(),
        )
    }
}

#[verifier::external_type_specification]
#[verifier::external_body]
pub struct ExFromHexError(hex::FromHexError);

/// Relies on hex::decode: it accepts exactly the even-length strings of
/// hexadecimal digits (upper or lower case) and returns the decoded
/// bytes, two digits per byte.
#[verifier::external_body]
fn hex_decode(s: &str) -> (r: Result<Vec<u8>, hex::FromHexError>)
    ensures
        r matches Ok(v) ==> is_hex_seq(s@) && v@ == hex_decode_spec(s@),
        r is Err ==> !is_hex_seq(s@),
{
    hex::decode(s)
}

/// Relies on hex::encode: two lower-case hexadecimal digits per byte.
#[verifier::external_body]
fn hex_encode(b: &[u8]) -> (r: String)
    ensures
        r@ == hex_encode_spec(b@),
{
    hex::encode(b)
}

/// The SHA-512 digest of a byte sequence. The digest is a function of
/// the input bytes alone; no short formula states its value.
pub uninterp spec fn sha512_of(data: Seq<u8>) -> Seq<u8>;

/// Relies on sha2::Sha512: the digest depends on the input bytes alone,
/// and its documented output size is 512 bits (64 bytes).
#[verifier::external_body]
fn sha512_digest(data: &[u8]) -> (r: Vec<u8>)
    ensures
        r@ == sha512_of(data@),
        r@.len() == 64,
{
    <sha2::Sha512 as sha2::Digest>::digest(data).to_vec()
}

/// The number of bits in `l` bytes, saturating at the largest `u64`.
pub open spec fn bit_len_spec(l: nat) -> u64 {
    if 8 * l <= u64::MAX {
        (8 * l) as u64
    } else {
        u64::MAX
    }
}

/// Do two byte vectors hold the same bytes?
pub fn u8_vec_eq(a: &Vec<u8>, b: &Vec<u8>) -> (r: bool)
    ensures
        r == (a@ == b@),
{
    if a.len() != b.len() {
        return false;
    }
    let mut k: usize = 0;
    while k < a.len()
        invariant
            a@.len() == b@.len(),
            k <= a@.len(),
            forall|j: int| 0 <= j < k ==> a@[j] == b@[j],
        decreases a@.len() - k,
    {
        if a[k] != b[k] {
            return false;
        }
        k = k + 1;
    }
    assert(a@ =~= b@);
    true
}

/// Integrity verification hash for an Ignition config.
#[derive(Debug)]
pub enum IgnitionHash {
    /// SHA-512 digest.
    Sha512(Vec<u8>),
}

/// The outcome `IgnitionHash::try_parse` owes each input: the kind
/// before the first hyphen picks the algorithm, the rest must decode as
/// hexadecimal to exactly the algorithm's output size.
pub open spec fn parse_outcome_ok(s: Seq<char>) -> bool {
    let i = first_index_spec(s, '-');
    &&& i < s.len()
    &&& s.take(i) == "sha512"@
    &&& is_hex_seq(s.skip(i + 1))
    &&& hex_decode_spec(s.skip(i + 1)).len() == 64
}

impl IgnitionHash {
    /// The stored digest bytes.
    pub open spec fn digest_view(&self) -> Seq<u8> {
        match self {
            IgnitionHash::Sha512(v) => v@,
        }
    }

    /// A digest of the length its algorithm defines.
    pub open spec fn well_formed(&self) -> bool {
        self.digest_view().len() == 64
    }

    /// Try to parse a hash-digest argument of the form
    /// `<kind>-<hex>`, split at the first hyphen.
    pub fn try_parse(input: &str) -> (r: Result<IgnitionHash, InstallError>)
        ensures
            ({
                let s = input@;
                let i = first_index_spec(s, '-');
                &&& (r matches Ok(h) ==> parse_outcome_ok(s) && h.digest_view()
                    == hex_decode_spec(s.skip(i + 1)) && h.well_formed())
                &&& (parse_outcome_ok(s) ==> r is Ok)
                &&& (i == s.len() ==> (r matches Err(e) && e.kind matches
                ErrorKind::MalformedDigest))
                &&& (i < s.len() && s.take(i) != "sha512"@ ==> (r matches Err(e)
                    && e.kind matches ErrorKind::UnsupportedAlgorithm))
                &&& (i < s.len() && s.take(i) == "sha512"@ && !is_hex_seq(s.skip(i + 1)) ==> (
                r matches Err(e) && e.kind matches ErrorKind::MalformedDigest))
                &&& (i < s.len() && s.take(i) == "sha512"@ && is_hex_seq(s.skip(i + 1))
                    && hex_decode_spec(s.skip(i + 1)).len() != 64 ==> (r matches Err(e)
                    && e.kind matches ErrorKind::WrongDigestLength { bits } && bits
                    == bit_len_spec(hex_decode_spec(s.skip(i + 1)).len())))
            }),
    {
        let n = input.unicode_len();
        let i = find_char(input, n, 0, '-');
        proof {
            lemma_first_index_at(input@, '-', i as int);
        }
        if i == n {
            return Err(InstallError::new(ErrorKind::MalformedDigest));
        }
        let kind = input.substring_char(0, i);
        let m = kind.unicode_len();
        proof {
            reveal_strlit("sha512");
            assert(kind@ =~= input@.take(i as int));
        }
        let is_sha512 = if m == 6 {
            let r = str_matches_at(kind, m, 0, "sha512", 6);
            proof {
                if r {
                    assert(kind@.subrange(0, 6) =~= kind@);
                } else {
                    if kind@ == "sha512"@ {
                        assert(kind@.subrange(0, 6) =~= "sha512"@);
                    }
                }
            }
            r
        } else {
            false
        };
        if !is_sha512 {
            return Err(InstallError::new(ErrorKind::UnsupportedAlgorithm));
        }
        let hex_digest = input.substring_char(i + 1, n);
        proof {
            assert(hex_digest@ =~= input@.skip(i + 1));
        }
        let digest = match hex_decode(hex_digest) {
            Ok(v) => v,
            Err(_) => {
                return Err(InstallError::new(ErrorKind::MalformedDigest));
            },
        };
        if digest.len() != 64 {
            let l = digest.len() as u64;
            let bits = if l <= u64::MAX / 8 {
                l * 8
            } else {
                u64::MAX
            };
            return Err(InstallError::new(ErrorKind::WrongDigestLength { bits }));
        }
        Ok(IgnitionHash::Sha512(digest))
    }

    /// Digest and validate input data: succeeds exactly when the
    /// algorithm's digest of `data` equals the stored digest.
    pub fn validate(&self, data: &[u8]) -> (r: Result<(), InstallError>)
        ensures
            r is Ok <==> sha512_of(data@) == self.digest_view(),
            r matches Err(e) ==> e.kind matches ErrorKind::HashMismatch { computed, expected }
                && computed@ == hex_encode_spec(sha512_of(data@)) && expected@ == hex_encode_spec(
                self.digest_view(),
            ),
    {
        let expected_digest = match self {
            IgnitionHash::Sha512(v) => v,
        };
        let computed = sha512_digest(data);
        let same = u8_vec_eq(&computed, expected_digest);
        if same {
            Ok(())
        } else {
            let c = hex_encode(computed.as_slice());
            let e = hex_encode(expected_digest.as_slice());
            Err(InstallError::new(ErrorKind::HashMismatch { computed: c, expected: e }))
        }
    }
}

} // verus!
