//! Request and credential identifier generation, base-35 flavour.
//!
//! The byte layout matches the base-58 flavour: 7 random bytes, the
//! 4-byte thread tag, and the low 7 bytes of the microsecond timestamp.
//! The top three bits of the first byte are forced so that the base-35
//! form always has 29 symbols, and the two leading symbols, which those
//! forced bits confine to a few values, are dropped.

use vstd::prelude::*;
use vstd::arithmetic::power::{pow, lemma_pow1, lemma_pow_adds};
use crate::base35::{b35_code, b35_char, base35_str, to_base35};
use crate::genid::{lemma_pow2_window, now_micros, random_byte};
use crate::radix::{
    be_val, min_digits, leading_count, lemma_min_digits_val, lemma_be_val_upper,
    lemma_be_val_first_lower, lemma_min_digits_len_between,
};
use crate::threadid::ThreadContext;
use vstd::arithmetic::mul::lemma_mul_inequality;
use vstd::string::StrSliceExecFns;

verus! {

/// The bracketing powers that fix the base-35 digit count of an 18-byte
/// value with its top three bits set.
proof fn lemma_pow35_window()
    ensures
        pow(35, 28) <= 224 * pow(2, 136),
        pow(2, 144) <= pow(35, 29),
{
    lemma_pow2_window();
    lemma_pow1(35);
    lemma_pow_adds(35, 1, 1);
    assert(pow(35, 2) == 1225);
    lemma_pow_adds(35, 2, 2);
    assert(pow(35, 4) == 1500625);
    lemma_pow_adds(35, 4, 4);
    assert(pow(35, 8) == 2251875390625);
    lemma_pow_adds(35, 8, 8);
    assert(pow(35, 16) == 5070942774902496337890625);
    lemma_pow_adds(35, 16, 8);
    assert(pow(35, 24) == 11419131242070580387175083160400390625);
    lemma_pow_adds(35, 24, 4);
    assert(pow(35, 28) == 17135833820132164693504609167575836181640625);
    lemma_pow_adds(35, 28, 1);
    assert(pow(35, 29) == 599754183704625764272661320865154266357421875);
}

/// An 18-byte value whose first byte has its top three bits set always
/// writes as exactly 29 base-35 symbols, all of them ASCII.
pub proof fn lemma_id35_shape(bytes: Seq<u8>)
    requires
        bytes.len() == 18,
        bytes.first() >= 0xe0,
    ensures
        base35_str(bytes).len() == 29,
        vstd::utf8::is_ascii_chars(base35_str(bytes)),
{
    lemma_pow35_window();
    lemma_pow2_window();
    let v = be_val(bytes, 256);
    lemma_be_val_first_lower(bytes, 256);
    vstd::arithmetic::power::lemma_pow_positive(256, 17);
    lemma_mul_inequality(224, bytes.first() as int, pow(256, 17));
    assert(v >= 224 * pow(256, 17));
    lemma_be_val_upper(bytes, 256);
    assert(v < pow(2, 144));
    lemma_min_digits_len_between(v, 35, 28);
    assert(leading_count(bytes, 0u8) == 0);
    assert(base35_str(bytes).len() == 29);
    lemma_min_digits_val(v, 35);
    let md = min_digits(v, 35);
    let out = base35_str(bytes);
    assert forall|k: int| 0 <= k < out.len() implies '\0' <= #[trigger] out[k] <= '\u{7f}' by {
        assert(out[k] == b35_char(md[k]));
        assert(md[k] < 35);
        assert(b35_code(md[k]) < 128);
    }
}

/// Generates a fresh identifier: 7 random bytes, the thread context's
/// tag, and the microsecond timestamp, written in base 35 with the two
/// leading symbols dropped. Every identifier is the last 27 symbols of
/// the base-35 form of such an 18-byte buffer — in particular it uses
/// the base-35 alphabet only — and carries the context's tag in bytes
/// 7 to 10 of that buffer; distinctness rests on the random bytes and
/// the timestamp.
pub fn genid(ctx: &ThreadContext) -> (r: String)
    ensures
        r@.len() == 27,
        exists|b: Seq<u8>|
            {
                &&& #[trigger] base35_str(b).skip(2) == r@
                &&& b.len() == 18
                &&& b.first() >= 0xe0
                &&& b[7] == (ctx.tag_spec() >> 24) as u8
                &&& b[8] == (ctx.tag_spec() >> 16) as u8
                &&& b[9] == (ctx.tag_spec() >> 8) as u8
                &&& b[10] == ctx.tag_spec() as u8
            },
{
    let now = now_micros();
    let tid = ctx.tag();
    let first = random_byte() | 0xe0;
    proof {
        assert forall|x: u8| (x | 0xe0) >= 0xe0 by {
            assert((x | 0xe0) >= 0xe0) by (bit_vector);
        }
    }
    let mut val: Vec<u8> = Vec::new();
    val.push(first);
    let mut i: usize = 1;
    while i < 7
        invariant
            1 <= i <= 7,
            val@.len() == i,
            val@[0] == first,
            first >= 0xe0,
        decreases 7 - i,
    {
        val.push(random_byte());
        i = i + 1;
    }
    val.push(#[verifier::truncate] ((tid >> 24) as u8));
    val.push(#[verifier::truncate] ((tid >> 16) as u8));
    val.push(#[verifier::truncate] ((tid >> 8) as u8));
    val.push(#[verifier::truncate] (tid as u8));
    val.push(#[verifier::truncate] ((now >> 48) as u8));
    val.push(#[verifier::truncate] ((now >> 40) as u8));
    val.push(#[verifier::truncate] ((now >> 32) as u8));
    val.push(#[verifier::truncate] ((now >> 24) as u8));
    val.push(#[verifier::truncate] ((now >> 16) as u8));
    val.push(#[verifier::truncate] ((now >> 8) as u8));
    val.push(#[verifier::truncate] (now as u8));
    proof {
        assert(val@.len() == 18);
        assert(val@.first() >= 0xe0);
    }
    let s = to_base35(val.as_slice());
    proof {
        lemma_id35_shape(val@);
        assert(vstd::utf8::is_ascii_chars(s@));
    }
    let stripped = s.as_str().substring_ascii(2, 29);
    let r = stripped.to_owned();
    proof {
        assert(base35_str(val@).skip(2) =~= s@.subrange(2, 29));
        assert(base35_str(val@).skip(2) == r@);
    }
    r
}

} // verus!
