//! Small string helpers shared across the library.

use vstd::prelude::*;
use crate::radix::min_digits;

verus! {

/// The decimal numeral of a number, `0` included.
pub open spec fn dec_digits(n: nat) -> Seq<char> {
    if n == 0 {
        seq!['0']
    } else {
        min_digits(n, 10).map_values(|d: u8| ((48 + d) as u8) as char)
    }
}

/// Writes a number in decimal.
pub fn u64_to_string(n: u64) -> (r: String)
    ensures
        r@ == dec_digits(n as nat),
{
    let ghost orig = n as nat;
    if n == 0 {
        let mut ascii: Vec<u8> = Vec::new();
        ascii.push(48);
        let r = ascii_string(ascii);
        proof {
            assert(r@ =~= dec_digits(0));
        }
        return r;
    }
    let mut digits: Vec<u8> = Vec::new();
    let mut x = n;
    proof {
        assert(digits@.reverse() =~= Seq::<u8>::empty());
        assert(min_digits(orig, 10) == min_digits(x as nat, 10) + digits@.reverse());
    }
    while x > 0
        invariant
            orig == n as nat,
            min_digits(orig, 10) == min_digits(x as nat, 10) + digits@.reverse(),
            forall|k: int| 0 <= k < digits@.len() ==> digits@[k] < 10,
        decreases x,
    {
        let d: u8 = (x % 10) as u8;
        let ghost dprev = digits@;
        let ghost xprev = x as nat;
        digits.push(d);
        x = x / 10;
        proof {
            assert(min_digits(xprev, 10) == min_digits(x as nat, 10).push(d));
            assert(digits@.reverse() =~= seq![d] + dprev.reverse());
            assert(min_digits(x as nat, 10).push(d) + dprev.reverse() =~= min_digits(
                x as nat,
                10,
            ) + digits@.reverse());
        }
    }
    proof {
        assert(min_digits(0, 10) =~= Seq::<u8>::empty());
        assert(min_digits(orig, 10) =~= digits@.reverse());
    }
    let mut ascii: Vec<u8> = Vec::new();
    let count = digits.len();
    let mut k = count;
    while k > 0
        invariant
            k <= count,
            count == digits@.len(),
            forall|j: int| 0 <= j < digits@.len() ==> digits@[j] < 10,
            ascii@.len() == count - k,
            forall|j: int| 0 <= j < ascii@.len() ==> ascii@[j] == (48 + digits@[count - 1 - j]) as u8,
        decreases k,
    {
        k = k - 1;
        let code: u8 = 48 + digits[k];
        ascii.push(code);
    }
    let r = ascii_string(ascii);
    proof {
        assert(r@ =~= dec_digits(orig));
    }
    r
}

/// Turns a vector of ASCII bytes into the string holding exactly those
/// characters.
///
/// Relies on `String::from_utf8`: ASCII bytes are valid UTF-8 and decode
/// to the characters with the same code points, so the call cannot fail.
#[verifier::external_body]
pub(crate) fn ascii_string(bytes: Vec<u8>) -> (r: String)
    requires
        forall|k: int| 0 <= k < bytes@.len() ==> bytes@[k] < 128,
    ensures
        r@.len() == bytes@.len(),
        forall|k: int| 0 <= k < bytes@.len() ==> r@[k] == bytes@[k] as char,
{
    String::from_utf8(bytes).unwrap()
}

/// Whether two string slices hold the same characters.
pub fn str_equal(a: &str, b: &str) -> (r: bool)
    ensures
        r == (a@ == b@),
{
    let owned_a = a.to_owned();
    let owned_b = b.to_owned();
    owned_a == owned_b
}


/// For an ASCII character, the byte written for it determines its code.
pub(crate) proof fn lemma_char_code_eq(c: char, x: u8)
    requires
        c <= '\u{7f}',
        c as u8 == x,
    ensures
        c as u32 == x as u32,
{
}

/// Characters with equal code points are equal.
pub(crate) proof fn lemma_char_of_code(c: char, d: char)
    requires
        c as u32 == d as u32,
    ensures
        c == d,
{
    vstd::utf8::char_u32_cast(c, c as u32);
    vstd::utf8::char_u32_cast(d, d as u32);
}

} // verus!
