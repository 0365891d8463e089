//! Request and credential identifier generation, base-58 flavour.
//!
//! An identifier packs 7 random bytes, the 4-byte thread tag, and the
//! low 7 bytes of the microsecond timestamp, forces the top bit of the
//! first byte so that the base-58 form always has 25 symbols, and drops
//! the leading symbol, which that forced bit confines to a few values.

use vstd::prelude::*;
use vstd::arithmetic::power::{
    pow, lemma_pow1, lemma_pow_adds, lemma_pow_multiplies,
};
use crate::base58::{b58_code, b58_char, base58_str, to_base58};
use crate::radix::{
    be_val, min_digits, leading_count, lemma_min_digits_val, lemma_be_val_upper,
    lemma_be_val_first_lower, lemma_min_digits_len_between,
};
use crate::threadid::ThreadContext;
use vstd::arithmetic::mul::lemma_mul_inequality;
use vstd::string::StrSliceExecFns;

verus! {

/// Draws one random byte.
///
/// Relies on `rand::thread_rng` and `rand::Rng::gen::<u8>`: the value is
/// random, so nothing is promised of it.
#[verifier::external_body]
pub(crate) fn random_byte() -> u8 {
    <rand::rngs::ThreadRng as rand::Rng>::gen::<u8>(&mut rand::thread_rng())
}

/// Reads the wall clock.
///
/// Relies on `chrono::Utc::now` and `DateTime::timestamp_micros`:
/// microseconds since the Unix epoch. The clock decides the value, so
/// nothing is promised of it; the call can fail only if the system
/// clock reports a time before the epoch.
#[verifier::external_body]
pub(crate) fn now_micros() -> i64 {
    chrono::Utc::now().timestamp_micros()
}

/// The values of the powers of two that bracket an 18-byte identifier
/// buffer whose first byte has forced high bits.
pub(crate) proof fn lemma_pow2_window()
    ensures
        pow(2, 7) == 128,
        pow(2, 8) == 256,
        pow(2, 136) == 87112285931760246646623899502532662132736,
        pow(2, 143) == 11150372599265311570767859136324180752990208,
        pow(2, 144) == 22300745198530623141535718272648361505980416,
        pow(2, 136) == pow(256, 17),
        pow(2, 144) == pow(256, 18),
        128 * pow(2, 136) == pow(2, 143),
{
    lemma_pow1(2);
    lemma_pow_adds(2, 1, 1);
    assert(pow(2, 2) == 4);
    lemma_pow_adds(2, 2, 2);
    assert(pow(2, 4) == 16);
    lemma_pow_adds(2, 4, 2);
    assert(pow(2, 6) == 64);
    lemma_pow_adds(2, 6, 1);
    assert(pow(2, 7) == 128);
    lemma_pow_adds(2, 4, 4);
    assert(pow(2, 8) == 256);
    lemma_pow_adds(2, 8, 8);
    assert(pow(2, 16) == 65536);
    lemma_pow_adds(2, 16, 16);
    assert(pow(2, 32) == 4294967296);
    lemma_pow_adds(2, 32, 32);
    assert(pow(2, 64) == 18446744073709551616);
    lemma_pow_adds(2, 64, 64);
    assert(pow(2, 128) == 340282366920938463463374607431768211456);
    lemma_pow_adds(2, 128, 8);
    assert(pow(2, 136) == 87112285931760246646623899502532662132736);
    lemma_pow_adds(2, 136, 7);
    assert(pow(2, 143) == 11150372599265311570767859136324180752990208);
    lemma_pow_adds(2, 136, 8);
    assert(pow(2, 144) == 22300745198530623141535718272648361505980416);
    lemma_pow_multiplies(2, 8, 17);
    lemma_pow_multiplies(2, 8, 18);
    lemma_pow_adds(2, 7, 136);
}

/// The bracketing powers that fix the base-58 digit count of an 18-byte
/// value with its top bit set.
proof fn lemma_pow58_window()
    ensures
        pow(58, 24) <= pow(2, 143),
        pow(2, 144) <= pow(58, 25),
{
    lemma_pow2_window();
    lemma_pow1(58);
    lemma_pow_adds(58, 1, 1);
    assert(pow(58, 2) == 3364);
    lemma_pow_adds(58, 2, 2);
    assert(pow(58, 4) == 11316496);
    lemma_pow_adds(58, 4, 4);
    assert(pow(58, 8) == 128063081718016);
    lemma_pow_adds(58, 8, 8);
    assert(pow(58, 16) == 16400152899115243850138976256);
    lemma_pow_adds(58, 16, 8);
    assert(pow(58, 24) == 2100254120907352485526230505830591911428096);
    lemma_pow_adds(58, 24, 1);
    assert(pow(58, 25) == 121814739012626444160521369338174330862829568);
}

/// An 18-byte value whose first byte has the top bit set always writes
/// as exactly 25 base-58 symbols, all of them ASCII.
pub proof fn lemma_id58_shape(bytes: Seq<u8>)
    requires
        bytes.len() == 18,
        bytes.first() >= 0x80,
    ensures
        base58_str(bytes).len() == 25,
        vstd::utf8::is_ascii_chars(base58_str(bytes)),
{
    lemma_pow58_window();
    lemma_pow2_window();
    let v = be_val(bytes, 256);
    lemma_be_val_first_lower(bytes, 256);
    vstd::arithmetic::power::lemma_pow_positive(256, 17);
    lemma_mul_inequality(128, bytes.first() as int, pow(256, 17));
    assert(v >= 128 * pow(256, 17));
    lemma_be_val_upper(bytes, 256);
    assert(v < pow(2, 144));
    lemma_min_digits_len_between(v, 58, 24);
    assert(leading_count(bytes, 0u8) == 0);
    assert(base58_str(bytes).len() == 25);
    lemma_min_digits_val(v, 58);
    let md = min_digits(v, 58);
    let out = base58_str(bytes);
    assert forall|k: int| 0 <= k < out.len() implies '\0' <= #[trigger] out[k] <= '\u{7f}' by {
        assert(out[k] == b58_char(md[k]));
        assert(md[k] < 58);
        assert(b58_code(md[k]) < 128);
    }
}

/// Generates a fresh identifier: 7 random bytes, the thread context's
/// tag, and the microsecond timestamp, written in base 58 with the
/// leading symbol dropped. Every identifier is the last 24 symbols of
/// the base-58 form of such an 18-byte buffer — in particular it uses
/// the base-58 alphabet only — and carries the context's tag in bytes
/// 7 to 10 of that buffer; distinctness rests on the random bytes and
/// the timestamp.
pub fn genid(ctx: &ThreadContext) -> (r: String)
    ensures
        r@.len() == 24,
        exists|b: Seq<u8>|
            {
                &&& #[trigger] base58_str(b).skip(1) == r@
                &&& b.len() == 18
                &&& b.first() >= 0x80
                &&& b[7] == (ctx.tag_spec() >> 24) as u8
                &&& b[8] == (ctx.tag_spec() >> 16) as u8
                &&& b[9] == (ctx.tag_spec() >> 8) as u8
                &&& b[10] == ctx.tag_spec() as u8
            },
{
    let now = now_micros();
    let tid = ctx.tag();
    let first = random_byte() | 0x80;
    proof {
        assert forall|x: u8| (x | 0x80) >= 0x80 by {
            assert((x | 0x80) >= 0x80) by (bit_vector);
        }
    }
    let mut val: Vec<u8> = Vec::new();
    val.push(first);
    let mut i: usize = 1;
    while i < 7
        invariant
            1 <= i <= 7,
            val@.len() == i,
            val@[0] == first,
            first >= 0x80,
        decreases 7 - i,
    {
        val.push(random_byte());
        i = i + 1;
    }
    val.push(#[verifier::truncate] ((tid >> 24) as u8));
    val.push(#[verifier::truncate] ((tid >> 16) as u8));
    val.push(#[verifier::truncate] ((tid >> 8) as u8));
    val.push(#[verifier::truncate] (tid as u8));
    val.push(#[verifier::truncate] ((now >> 48) as u8));
    val.push(#[verifier::truncate] ((now >> 40) as u8));
    val.push(#[verifier::truncate] ((now >> 32) as u8));
    val.push(#[verifier::truncate] ((now >> 24) as u8));
    val.push(#[verifier::truncate] ((now >> 16) as u8));
    val.push(#[verifier::truncate] ((now >> 8) as u8));
    val.push(#[verifier::truncate] (now as u8));
    proof {
        assert(val@.len() == 18);
        assert(val@.first() >= 0x80);
    }
    let s = to_base58(val.as_slice());
    proof {
        lemma_id58_shape(val@);
        assert(vstd::utf8::is_ascii_chars(s@));
    }
    let stripped = s.as_str().substring_ascii(1, 25);
    let r = stripped.to_owned();
    proof {
        assert(base58_str(val@).skip(1) =~= s@.subrange(1, 25));
        assert(base58_str(val@).skip(1) == r@);
    }
    r
}

} // verus!
