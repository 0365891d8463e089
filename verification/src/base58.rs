//! Base-58 codec over the alphabet `123456789ABCDEFGHJKLMNPQRSTUVWXYZ`
//! `abcdefghijkmnopqrstuvwxyz` (no `0`, `I`, `O` or `l`).
//!
//! A byte slice is read as a big-endian number; each leading zero byte is
//! written as an extra `1` in front of that number's base-58 digits.

use vstd::prelude::*;
use crate::radix::{
    be_val, min_digits, leading_count, digits_below, be_minimal, repack_radix,
    lemma_min_digits_val, lemma_min_digits_unique, lemma_be_val_skip_zeros,
    lemma_leading_count_spec, lemma_leading_count_concat,
};
use crate::text::{ascii_string, lemma_char_code_eq, lemma_char_of_code};

verus! {

/// The ASCII code of base-58 digit `d`.
pub open spec fn b58_code(d: u8) -> u8 {
    if d < 9 {
        (49 + d) as u8
    } else if d < 17 {
        (56 + d) as u8
    } else if d < 22 {
        (57 + d) as u8
    } else if d < 33 {
        (58 + d) as u8
    } else if d < 44 {
        (64 + d) as u8
    } else {
        (65 + d) as u8
    }
}

/// The character written for base-58 digit `d`.
pub open spec fn b58_char(d: u8) -> char {
    b58_code(d) as char
}

/// The base-58 digit value of a character, or -1 when the character is
/// not in the alphabet.
pub open spec fn b58_digit_of(c: char) -> int {
    let code = c as u32;
    if 49 <= code <= 57 {
        code - 49
    } else if 65 <= code <= 72 {
        code - 56
    } else if 74 <= code <= 78 {
        code - 57
    } else if 80 <= code <= 90 {
        code - 58
    } else if 97 <= code <= 107 {
        code - 64
    } else if 109 <= code <= 122 {
        code - 65
    } else {
        -1
    }
}

/// Every string this codec writes for a byte slice: one `1` per leading
/// zero byte, then the shortest base-58 digit string of the value.
pub open spec fn base58_str(data: Seq<u8>) -> Seq<char> {
    Seq::new(leading_count(data, 0u8), |k: int| '1') + min_digits(be_val(data, 256), 58).map_values(
        |d: u8| b58_char(d),
    )
}

/// Whether a string consists only of base-58 digits.
pub open spec fn base58_valid(s: Seq<char>) -> bool {
    forall|k: int| 0 <= k < s.len() ==> b58_digit_of(s[k]) >= 0
}

/// The bytes a valid base-58 string decodes to: one zero byte per
/// leading `1`, then the big-endian bytes of the remaining digits' value.
pub open spec fn base58_decoded(s: Seq<char>) -> Seq<u8> {
    let z = leading_count(s, '1') as int;
    let digits = s.skip(z).map_values(|c: char| b58_digit_of(c) as u8);
    Seq::new(z as nat, |k: int| 0u8) + min_digits(be_val(digits, 58), 256)
}

/// Encoding then decoding is the identity on digits.
pub proof fn lemma_b58_digit_inverse(d: u8)
    requires
        d < 58,
    ensures
        b58_digit_of(b58_char(d)) == d,
        b58_code(d) < 128,
{
}

/// A character in the base-58 alphabet is an ASCII character.
proof fn lemma_digit_char_is_ascii(c: char)
    requires
        b58_digit_of(c) >= 0,
    ensures
        '\0' <= c <= '\u{7f}',
{
}

/// Writes a byte slice in base 58.
pub fn to_base58(data: &[u8]) -> (r: String)
    requires
        data@.len() < usize::MAX / 2,
    ensures
        r@ == base58_str(data@),
{
    let ghost gdata = data@;
    let digits = repack_radix(data, 256, 58);
    proof {
        lemma_min_digits_val(be_val(gdata, 256), 58);
    }
    let mut ascii: Vec<u8> = Vec::new();
    let mut z: usize = 0;
    let slen = data.len();
    while z < slen && data[z] == 0
        invariant
            gdata == data@,
            slen == data@.len(),
            z <= slen,
            forall|k: int| 0 <= k < z ==> data@[k] == 0,
            ascii@.len() == z,
            forall|k: int| 0 <= k < z ==> ascii@[k] == 49u8,
        decreases slen - z,
    {
        ascii.push(49);
        z = z + 1;
    }
    proof {
        lemma_leading_count_spec(gdata, 0u8);
        assert(leading_count(gdata, 0u8) == z);
    }
    let ghost zfinal = z as int;
    let mut i: usize = 0;
    let dcount = digits.len();
    while i < dcount
        invariant
            dcount == digits@.len(),
            digits@ == min_digits(be_val(gdata, 256), 58),
            digits_below(digits@, 58),
            i <= dcount,
            ascii@.len() == zfinal + i,
            zfinal >= 0,
            forall|k: int| 0 <= k < zfinal ==> ascii@[k] == 49u8,
            forall|k: int| 0 <= k < i ==> ascii@[zfinal + k] == b58_code(digits@[k]),
        decreases dcount - i,
    {
        let d = digits[i];
        let code: u8 = if d < 9 {
            49 + d
        } else if d < 17 {
            56 + d
        } else if d < 22 {
            57 + d
        } else if d < 33 {
            58 + d
        } else if d < 44 {
            64 + d
        } else {
            65 + d
        };
        assert(code == b58_code(digits@[i as int]));
        ascii.push(code);
        i = i + 1;
    }
    proof {
        assert forall|k: int| 0 <= k < ascii@.len() implies ascii@[k] < 128 by {
            if k >= zfinal {
                assert(ascii@[k] == b58_code(digits@[k - zfinal]));
            }
        }
    }
    let r = ascii_string(ascii);
    proof {
        assert(r@ =~= base58_str(gdata));
    }
    r
}

/// Reads a base-58 string back into the bytes it encodes; `None` when a
/// character outside the alphabet occurs.
pub fn from_base58(s: &str) -> (r: Option<Vec<u8>>)
    requires
        s@.len() < usize::MAX / 2,
    ensures
        match r {
            Some(v) => base58_valid(s@) && v@ == base58_decoded(s@),
            None => !base58_valid(s@),
        },
{
    if !s.is_ascii() {
        proof {
            if base58_valid(s@) {
                assert forall|k: int| 0 <= k < s@.len() implies '\0' <= #[trigger] s@[k]
                    <= '\u{7f}' by {
                    assert(b58_digit_of(s@[k]) >= 0);
                    lemma_digit_char_is_ascii(s@[k]);
                }
                assert(vstd::utf8::is_ascii_chars(s@));
            }
        }
        return None;
    }
    let bytes = s.as_bytes();
    let n = bytes.len();
    proof {
        vstd::string::is_ascii_spec_bytes(s);
        assert(bytes@ =~= Seq::new(s@.len(), |k: int| s@.index(k) as u8));
        assert(forall|k: int| 0 <= k < s@.len() ==> '\0' <= #[trigger] s@[k] <= '\u{7f}');
        assert(bytes@.len() == s@.len());
    }
    let mut z: usize = 0;
    while z < n && bytes[z] == 49
        invariant
            bytes@.len() == n,
            n == s@.len(),
            forall|k: int| 0 <= k < s@.len() ==> '\0' <= #[trigger] s@[k] <= '\u{7f}',
            forall|k: int| 0 <= k < s@.len() ==> #[trigger] bytes@[k] == s@[k] as u8,
            z <= n,
            forall|k: int| 0 <= k < z ==> s@[k] == '1',
        decreases n - z,
    {
        proof {
            lemma_char_code_eq(s@[z as int], 49);
            lemma_char_of_code(s@[z as int], '1');
        }
        z = z + 1;
    }
    proof {
        lemma_leading_count_spec(s@, '1');
        if z < n {
            assert(s@[z as int] as u8 != 49);
        }
        assert(leading_count(s@, '1') == z);
    }
    let ghost zfinal = z as int;
    let mut digits: Vec<u8> = Vec::new();
    let mut i: usize = z;
    while i < n
        invariant
            bytes@.len() == n,
            n == s@.len(),
            forall|k: int| 0 <= k < s@.len() ==> '\0' <= #[trigger] s@[k] <= '\u{7f}',
            forall|k: int| 0 <= k < s@.len() ==> #[trigger] bytes@[k] == s@[k] as u8,
            0 <= zfinal <= i <= n,
            digits@.len() == i - zfinal,
            forall|k: int| zfinal <= k < i ==> b58_digit_of(#[trigger] s@[k]) >= 0,
            digits@ == s@.subrange(zfinal, i as int).map_values(
                |c: char| b58_digit_of(c) as u8,
            ),
        decreases n - i,
    {
        let code = bytes[i];
        let d: u8 = if 49 <= code && code <= 57 {
            code - 49
        } else if 65 <= code && code <= 72 {
            code - 56
        } else if 74 <= code && code <= 78 {
            code - 57
        } else if 80 <= code && code <= 90 {
            code - 58
        } else if 97 <= code && code <= 107 {
            code - 64
        } else if 109 <= code && code <= 122 {
            code - 65
        } else {
            proof {
                lemma_char_code_eq(s@[i as int], code);
                assert(b58_digit_of(s@[i as int]) == -1);
            }
            return None;
        };
        proof {
            lemma_char_code_eq(s@[i as int], code);
            assert(d == b58_digit_of(s@[i as int]));
        }
        let ghost dprev = digits@;
        digits.push(d);
        proof {
            let f = |c: char| b58_digit_of(c) as u8;
            let ii = i as int;
            assert(0 <= zfinal <= ii < s@.len());
            assert(s@.subrange(zfinal, ii + 1) =~= s@.subrange(zfinal, ii).push(s@[ii]));
            assert(s@.subrange(zfinal, ii + 1).map_values(f) =~= s@.subrange(zfinal, ii)
                .map_values(f).push(f(s@[ii])));
            assert(digits@ == s@.subrange(zfinal, ii + 1).map_values(f));
        }
        i = i + 1;
    }
    proof {
        assert(s@.subrange(zfinal, n as int) =~= s@.skip(zfinal));
        assert(digits@ == s@.skip(zfinal).map_values(|c: char| b58_digit_of(c) as u8));
        assert(digits@.len() < usize::MAX / 2);
        assert(forall|k: int|
            0 <= k < digits@.len() ==> #[trigger] digits@[k] == b58_digit_of(s@[zfinal + k]) as u8
                && digits@[k] < 58);
    }
    let packed = repack_radix(digits.as_slice(), 58, 256);
    let mut result: Vec<u8> = Vec::new();
    let mut j: usize = 0;
    while j < z
        invariant
            j <= z,
            result@.len() == j,
            forall|k: int| 0 <= k < j ==> result@[k] == 0u8,
        decreases z - j,
    {
        result.push(0);
        j = j + 1;
    }
    let mut packed_moved = packed;
    result.append(&mut packed_moved);
    proof {
        assert(result@ =~= base58_decoded(s@));
    }
    Some(result)
}

/// Decoding inverts encoding: for every byte slice, the base-58 string
/// written for it is valid and reads back to the same bytes, leading
/// zero bytes included.
pub proof fn lemma_base58_round_trip(data: Seq<u8>)
    ensures
        base58_valid(base58_str(data)),
        base58_decoded(base58_str(data)) == data,
{
    let v = be_val(data, 256);
    let md = min_digits(v, 58);
    let z = leading_count(data, 0u8);
    let run = Seq::new(z, |k: int| '1');
    let rest = md.map_values(|d: u8| b58_char(d));
    let out = base58_str(data);
    lemma_min_digits_val(v, 58);
    lemma_leading_count_spec(data, 0u8);

    assert forall|d: u8| d < 58 implies #[trigger] b58_digit_of(b58_char(d)) == d by {
        lemma_b58_digit_inverse(d);
    }

    // every written character is in the alphabet
    assert(base58_valid(out)) by {
        assert(forall|k: int|
            0 <= k < out.len() ==> out[k] == (if k < z {
                '1'
            } else {
                b58_char(md[k - z])
            }));
    }

    // the decoder sees exactly the zero-run it should
    if rest.len() > 0 {
        assert(rest.first() == b58_char(md.first()));
        assert(md.first() != 0);
        assert(rest.first() != '1');
    }
    lemma_leading_count_concat(run, rest, '1');
    assert(leading_count(out, '1') == z);

    // the digit values are recovered exactly
    assert(out.skip(z as int) =~= rest);
    let recovered = rest.map_values(|c: char| b58_digit_of(c) as u8);
    assert(recovered =~= md);

    // and their value reassembles the suffix of `data` past the zero run
    lemma_be_val_skip_zeros(data, 256, z as int);
    let suffix = data.skip(z as int);
    assert(be_val(suffix, 256) == v);
    assert(be_minimal(suffix)) by {
        if suffix.len() > 0 {
            assert(suffix.first() == data[z as int]);
        }
    }
    assert(digits_below(suffix, 256));
    lemma_min_digits_unique(suffix, 256);
    assert(min_digits(v, 256) == suffix);
    assert(base58_decoded(out) =~= data);
}

} // verus!
