//! Stored credentials and password verification.
//!
//! A credential holds a salt and the hex digest of
//! `secret ‖ salt ‖ password`; verification recomputes the digest from
//! the presented password and compares it with the stored one, ignoring
//! ASCII case.

use vstd::prelude::*;
use crate::text::lemma_char_of_code;
use vstd::string::{StringExecFns, StrSliceExecFns};

verus! {

/// The lowercase hex encoding of the SHA-256 digest of the UTF-8 bytes
/// of a string. The digest itself is far too long to state here, so the
/// result only carries this name; [`get_hash`] is the sole function that
/// produces it.
pub uninterp spec fn sha256_hex(s: Seq<char>) -> Seq<char>;

/// A lowercase hex digit.
pub open spec fn is_lower_hex_digit(c: char) -> bool {
    ('0' <= c <= '9') || ('a' <= c <= 'f')
}

/// The ASCII-lowercased form of a character.
pub open spec fn lower_char(c: char) -> char {
    if 'A' <= c <= 'Z' {
        ((c as u32) + 32) as char
    } else {
        c
    }
}

/// Two strings match ignoring ASCII case: same length, and equal once
/// ASCII letters are lowered.
pub open spec fn eq_ignore_ascii_case_spec(a: Seq<char>, b: Seq<char>) -> bool {
    a.len() == b.len() && forall|k: int|
        0 <= k < a.len() ==> lower_char(#[trigger] a[k]) == lower_char(b[k])
}

/// Hex digest of a password string.
///
/// Relies on sha2's `Sha256` (through the `Digest` trait), which returns
/// the 32-byte SHA-256 digest of the input, and on `hex::encode`, which
/// writes two lowercase hex digits per byte. The digest depends on the
/// input characters alone, so the result is named [`sha256_hex`].
#[verifier::external_body]
pub fn get_hash(password: &str) -> (r: String)
    ensures
        r@ == sha256_hex(password@),
        r@.len() == 64,
        forall|k: int| 0 <= k < r@.len() ==> is_lower_hex_digit(#[trigger] r@[k]),
{
    let encoded = password.as_bytes();
    let mut hasher = <sha2::Sha256 as sha2::Digest>::new();
    sha2::Digest::update(&mut hasher, encoded);
    hex::encode(sha2::Digest::finalize(hasher))
}

/// The ASCII-lowered code point of a character.
pub open spec fn lower_code(x: u32) -> u32 {
    if 65 <= x <= 90 {
        (x + 32) as u32
    } else {
        x
    }
}

/// Two characters agree after ASCII lowering exactly when their lowered
/// code points agree.
proof fn lemma_lower_char_code(c: char, d: char)
    requires
        lower_code(c as u32) == lower_code(d as u32),
    ensures
        lower_char(c) == lower_char(d),
{
    vstd::utf8::char_is_scalar(c);
    vstd::utf8::char_is_scalar(d);
    if 'A' <= c <= 'Z' {
        assert(lower_char(c) as u32 == c as u32 + 32);
    }
    if 'A' <= d <= 'Z' {
        assert(lower_char(d) as u32 == d as u32 + 32);
    }
    lemma_char_of_code(lower_char(c), lower_char(d));
}

/// Case-insensitive string comparison: true exactly when the two
/// strings are equal after ASCII-lowercasing both.
pub(crate) fn eq_ignore_case(a: &str, b: &str) -> (r: bool)
    ensures
        r == eq_ignore_ascii_case_spec(a@, b@),
{
    let la = a.unicode_len();
    let lb = b.unicode_len();
    if la != lb {
        return false;
    }
    let mut i: usize = 0;
    while i < la
        invariant
            i <= la,
            la == a@.len(),
            la == b@.len(),
            forall|k: int| 0 <= k < i ==> lower_char(#[trigger] a@[k]) == lower_char(b@[k]),
        decreases la - i,
    {
        let ca = a.get_char(i);
        let cb = b.get_char(i);
        let xa = ca as u32;
        let xb = cb as u32;
        let ya = if 65 <= xa && xa <= 90 {
            xa + 32
        } else {
            xa
        };
        let yb = if 65 <= xb && xb <= 90 {
            xb + 32
        } else {
            xb
        };
        if ya != yb {
            proof {
                if lower_char(a@[i as int]) == lower_char(b@[i as int]) {
                    assert(lower_code(xa) == lower_code(xb));
                }
            }
            return false;
        }
        proof {
            lemma_lower_char_code(a@[i as int], b@[i as int]);
        }
        i = i + 1;
    }
    true
}

/// A stored identity record: a stable id, the per-credential salt, and
/// the hex digest of `secret ‖ salt ‖ password`.
#[derive(Clone, Debug)]
pub struct Credential {
    pub id: String,
    pub salt: String,
    pub pwhash: String,
}

impl Credential {
    /// The presented password is the one this credential was built for:
    /// the stored digest matches the recomputed one, ignoring ASCII
    /// case.
    pub open spec fn password_matches(self, secret: Seq<char>, password: Seq<char>) -> bool {
        eq_ignore_ascii_case_spec(self.pwhash@, sha256_hex(secret + self.salt@ + password))
    }

    /// Recomputes the digest of `secret ‖ salt ‖ password` and compares
    /// it with the stored digest, ignoring ASCII case.
    pub fn verify(&self, secret: &String, password: &str) -> (r: bool)
        ensures
            r == self.password_matches(secret@, password@),
    {
        let mut plain = secret.clone();
        plain.append(self.salt.as_str());
        plain.append(password);
        let pwhash = get_hash(plain.as_str());
        eq_ignore_case(self.pwhash.as_str(), pwhash.as_str())
    }
}

} // verus!
