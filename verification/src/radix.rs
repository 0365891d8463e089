//! Positional-numeral arithmetic shared by the base-35 and base-58 codecs.
//!
//! A byte slice is read as a big-endian numeral in base 256; the codecs
//! re-express that value in another base. The model here is the pair of
//! spec functions [`be_val`] (digits to value) and [`min_digits`] (value to
//! its shortest digit string), together with the lemmas that make them
//! inverses of each other.

use vstd::prelude::*;
use vstd::arithmetic::div_mod::{
    lemma_div_decreases, lemma_fundamental_div_mod, lemma_fundamental_div_mod_converse,
    lemma_mod_bound, lemma_multiply_divide_lt,
};
use vstd::arithmetic::mul::{
    lemma_mul_inequality, lemma_mul_is_distributive_add_other_way, lemma_mul_is_commutative,
    lemma_mul_is_associative,
};
use vstd::arithmetic::power::{
    pow, lemma_pow0, lemma_pow1, lemma_pow_adds, lemma_pow_multiplies, lemma_pow_positive,
    lemma_pow_strictly_increases_converse,
};

verus! {

broadcast use vstd::arithmetic::mul::group_mul_basics;

/// The value of a big-endian digit string in the given base: the first
/// digit is the most significant.
pub open spec fn be_val(digits: Seq<u8>, base: nat) -> nat
    decreases digits.len(),
{
    if digits.len() == 0 {
        0
    } else {
        (be_val(digits.drop_last(), base) * base + digits.last()) as nat
    }
}

/// The value of a little-endian digit string: the first digit is the
/// least significant. This is the order in which the conversion loop
/// produces digits.
pub open spec fn le_val(digits: Seq<u8>, base: nat) -> nat
    decreases digits.len(),
{
    if digits.len() == 0 {
        0
    } else {
        (digits.first() + le_val(digits.drop_first(), base) * base) as nat
    }
}

/// The shortest big-endian digit string for `n` in the given base; zero is
/// written as the empty string, and the leading digit of a non-zero value
/// is never zero.
pub open spec fn min_digits(n: nat, base: nat) -> Seq<u8>
    decreases n,
{
    if base < 2 || n == 0 {
        Seq::empty()
    } else {
        proof {
            lemma_div_decreases(n as int, base as int);
        }
        min_digits(n / base, base).push((n % base) as u8)
    }
}

/// How many copies of `x` the sequence starts with.
pub open spec fn leading_count<T>(s: Seq<T>, x: T) -> nat
    decreases s.len(),
{
    if s.len() == 0 || s.first() != x {
        0
    } else {
        (1 + leading_count(s.drop_first(), x)) as nat
    }
}

/// All digits of a string are below the base.
pub open spec fn digits_below(digits: Seq<u8>, base: nat) -> bool {
    forall|k: int| 0 <= k < digits.len() ==> digits[k] < base
}

/// A big-endian digit string is minimal: it does not start with a zero
/// digit.
pub open spec fn be_minimal(digits: Seq<u8>) -> bool {
    digits.len() > 0 ==> digits.first() != 0
}

/// Appending a digit at the little-endian end multiplies the value by the
/// base and adds the digit: `be_val` consumes digits most significant
/// first.
pub proof fn lemma_be_val_push(digits: Seq<u8>, base: nat, d: u8)
    ensures
        be_val(digits.push(d), base) == be_val(digits, base) * base + d,
{
    assert(digits.push(d).drop_last() =~= digits);
    assert(digits.push(d).last() == d);
}

/// Appending a digit at the most-significant end of a little-endian
/// string adds `d * base^len`.
pub proof fn lemma_le_val_push(digits: Seq<u8>, base: nat, d: u8)
    ensures
        le_val(digits.push(d), base) == le_val(digits, base) + d * pow(base as int, digits.len()),
    decreases digits.len(),
{
    if digits.len() == 0 {
        lemma_pow0(base as int);
        assert(digits.push(d).drop_first() =~= Seq::<u8>::empty());
        assert(le_val(digits.push(d), base) == d);
    } else {
        assert(digits.push(d).drop_first() =~= digits.drop_first().push(d));
        lemma_le_val_push(digits.drop_first(), base, d);
        assert(le_val(digits.push(d), base) == digits.first() + (le_val(digits.drop_first(), base)
            + d * pow(base as int, (digits.len() - 1) as nat)) * base);
        lemma_mul_is_distributive_add_other_way(
            base as int,
            le_val(digits.drop_first(), base) as int,
            d * pow(base as int, (digits.len() - 1) as nat),
        );
        lemma_pow_adds(base as int, (digits.len() - 1) as nat, 1);
        lemma_pow1(base as int);
        lemma_mul_is_associative(d as int, pow(base as int, (digits.len() - 1) as nat), base as int);
    }
}

/// A little-endian digit string and its big-endian reversal denote the
/// same value.
pub proof fn lemma_le_val_reverse(digits: Seq<u8>, base: nat)
    ensures
        le_val(digits, base) == be_val(digits.reverse(), base),
    decreases digits.len(),
{
    if digits.len() == 0 {
        assert(digits.reverse() =~= Seq::<u8>::empty());
    } else {
        lemma_le_val_reverse(digits.drop_first(), base);
        assert(digits.reverse() =~= digits.drop_first().reverse().push(digits.first()));
        lemma_be_val_push(digits.drop_first().reverse(), base, digits.first());
        lemma_mul_is_commutative(le_val(digits.drop_first(), base) as int, base as int);
    }
}

/// A digit string whose digits are all below the base denotes a value
/// below `base^len`.
pub proof fn lemma_be_val_upper(digits: Seq<u8>, base: nat)
    requires
        base >= 2,
        digits_below(digits, base),
    ensures
        be_val(digits, base) < pow(base as int, digits.len()),
    decreases digits.len(),
{
    lemma_pow_positive(base as int, digits.len());
    if digits.len() > 0 {
        lemma_be_val_upper(digits.drop_last(), base);
        lemma_pow_adds(base as int, (digits.len() - 1) as nat, 1);
        lemma_pow1(base as int);
        lemma_mul_inequality(
            be_val(digits.drop_last(), base) as int,
            pow(base as int, (digits.len() - 1) as nat) - 1,
            base as int,
        );
        lemma_mul_is_distributive_add_other_way(
            base as int,
            pow(base as int, (digits.len() - 1) as nat) - 1,
            1,
        );
    }
}

/// A minimal non-empty digit string denotes a value of at least
/// `base^(len - 1)`.
pub proof fn lemma_be_val_lower(digits: Seq<u8>, base: nat)
    requires
        base >= 2,
        digits.len() > 0,
        digits.first() != 0,
    ensures
        be_val(digits, base) >= pow(base as int, (digits.len() - 1) as nat),
    decreases digits.len(),
{
    if digits.len() == 1 {
        lemma_pow0(base as int);
        assert(digits.drop_last() =~= Seq::<u8>::empty());
        assert(be_val(digits.drop_last(), base) == 0);
        assert(be_val(digits, base) == digits.first());
    } else {
        assert(digits.drop_last().first() == digits.first());
        lemma_be_val_lower(digits.drop_last(), base);
        lemma_pow_adds(base as int, (digits.len() - 2) as nat, 1);
        lemma_pow1(base as int);
        lemma_mul_inequality(
            pow(base as int, (digits.len() - 2) as nat),
            be_val(digits.drop_last(), base) as int,
            base as int,
        );
    }
}

/// `min_digits` is a right inverse of `be_val`: its digits are in range,
/// minimal, and denote the value it was built from.
pub proof fn lemma_min_digits_val(n: nat, base: nat)
    requires
        2 <= base <= 256,
    ensures
        be_val(min_digits(n, base), base) == n,
        digits_below(min_digits(n, base), base),
        be_minimal(min_digits(n, base)),
        n > 0 ==> min_digits(n, base).len() > 0,
    decreases n,
{
    if n > 0 {
        lemma_div_decreases(n as int, base as int);
        lemma_mod_bound(n as int, base as int);
        lemma_min_digits_val(n / base, base);
        let q = min_digits(n / base, base);
        lemma_be_val_push(q, base, (n % base) as u8);
        lemma_fundamental_div_mod(n as int, base as int);
        lemma_mul_is_commutative((n / base) as int, base as int);
        assert(be_val(min_digits(n, base), base) == be_val(q, base) * base + n % base);
        assert(digits_below(q.push((n % base) as u8), base));
        if n / base > 0 {
            assert(q.push((n % base) as u8).first() == q.first());
        } else {
            assert(n < base);
            assert(n % base == n) by {
                lemma_fundamental_div_mod(n as int, base as int);
            }
        }
    }
}

/// `min_digits` is also a left inverse: any in-range, minimal digit
/// string is recovered from its value.
pub proof fn lemma_min_digits_unique(digits: Seq<u8>, base: nat)
    requires
        2 <= base <= 256,
        digits_below(digits, base),
        be_minimal(digits),
    ensures
        min_digits(be_val(digits, base), base) == digits,
    decreases digits.len(),
{
    let n = be_val(digits, base);
    if digits.len() == 0 {
        assert(min_digits(0, base) =~= digits);
    } else {
        lemma_be_val_lower(digits, base);
        lemma_pow_positive(base as int, (digits.len() - 1) as nat);
        assert(n > 0);
        let head = digits.drop_last();
        lemma_fundamental_div_mod_converse(
            n as int,
            base as int,
            be_val(head, base) as int,
            digits.last() as int,
        );
        assert(n / base == be_val(head, base));
        assert(n % base == digits.last());
        if digits.len() > 1 {
            assert(head.first() == digits.first());
        }
        lemma_min_digits_unique(head, base);
        assert(min_digits(n, base) =~= digits);
    }
}

/// Dropping a leading zero digit does not change the value.
pub proof fn lemma_be_val_drop_leading_zero(digits: Seq<u8>, base: nat)
    requires
        digits.len() > 0,
        digits.first() == 0,
    ensures
        be_val(digits, base) == be_val(digits.drop_first(), base),
    decreases digits.len(),
{
    if digits.len() == 1 {
        assert(digits.drop_last() =~= Seq::<u8>::empty());
        assert(digits.drop_first() =~= Seq::<u8>::empty());
        assert(be_val(digits.drop_last(), base) == 0);
        assert(be_val(digits, base) == digits.last());
    } else {
        assert(digits.drop_last().first() == 0);
        lemma_be_val_drop_leading_zero(digits.drop_last(), base);
        assert(digits.drop_last().drop_first() =~= digits.drop_first().drop_last());
        assert(digits.drop_first().last() == digits.last());
    }
}

/// What a leading-copy count means, position by position.
pub proof fn lemma_leading_count_spec<T>(s: Seq<T>, x: T)
    ensures
        leading_count(s, x) <= s.len(),
        forall|i: int| 0 <= i < leading_count(s, x) ==> s[i] == x,
        leading_count(s, x) < s.len() ==> s[leading_count(s, x) as int] != x,
    decreases s.len(),
{
    if s.len() > 0 && s.first() == x {
        lemma_leading_count_spec(s.drop_first(), x);
        assert(forall|i: int|
            0 <= i < leading_count(s, x) ==> s[i] == (if i == 0 {
                s.first()
            } else {
                s.drop_first()[i - 1]
            }));
    }
}

/// The leading-copy count of a run of `x` followed by a rest that does
/// not start with `x`.
pub proof fn lemma_leading_count_concat<T>(run: Seq<T>, rest: Seq<T>, x: T)
    requires
        forall|i: int| 0 <= i < run.len() ==> run[i] == x,
        rest.len() > 0 ==> rest.first() != x,
    ensures
        leading_count(run + rest, x) == run.len(),
    decreases run.len(),
{
    if run.len() == 0 {
        assert(run + rest =~= rest);
        if rest.len() > 0 {
            assert((run + rest).first() != x);
        }
    } else {
        assert((run + rest).first() == x);
        assert((run + rest).drop_first() =~= run.drop_first() + rest);
        lemma_leading_count_concat(run.drop_first(), rest, x);
    }
}


/// An all-zero digit string denotes zero.
pub proof fn lemma_le_val_zero_seq(digits: Seq<u8>, base: nat)
    requires
        forall|k: int| 0 <= k < digits.len() ==> digits[k] == 0,
    ensures
        le_val(digits, base) == 0,
    decreases digits.len(),
{
    if digits.len() > 0 {
        lemma_le_val_zero_seq(digits.drop_first(), base);
    }
}

/// Zero digits at the most-significant, little-endian end do not change
/// the value.
pub proof fn lemma_le_val_zeros_suffix(digits: Seq<u8>, base: nat, h: int)
    requires
        0 <= h <= digits.len(),
        forall|k: int| h <= k < digits.len() ==> digits[k] == 0,
    ensures
        le_val(digits, base) == le_val(digits.take(h), base),
    decreases digits.len(),
{
    if h == 0 {
        lemma_le_val_zero_seq(digits, base);
        assert(digits.take(0) =~= Seq::<u8>::empty());
    } else {
        assert(digits.take(h).first() == digits.first());
        assert(digits.take(h).drop_first() =~= digits.drop_first().take(h - 1));
        lemma_le_val_zeros_suffix(digits.drop_first(), base, h - 1);
    }
}

/// A little-endian digit string whose most-significant digit is non-zero
/// denotes at least `base^(len - 1)`.
pub proof fn lemma_le_val_lower(digits: Seq<u8>, base: nat)
    requires
        base >= 2,
        digits.len() > 0,
        digits.last() != 0,
    ensures
        le_val(digits, base) >= pow(base as int, (digits.len() - 1) as nat),
    decreases digits.len(),
{
    if digits.len() == 1 {
        lemma_pow0(base as int);
    } else {
        assert(digits.drop_first().last() == digits.last());
        lemma_le_val_lower(digits.drop_first(), base);
        lemma_pow_adds(base as int, (digits.len() - 2) as nat, 1);
        lemma_pow1(base as int);
        lemma_mul_inequality(
            pow(base as int, (digits.len() - 2) as nat),
            le_val(digits.drop_first(), base) as int,
            base as int,
        );
        lemma_mul_is_commutative(le_val(digits.drop_first(), base) as int, base as int);
    }
}

/// Dropping a known number of leading zero digits does not change the
/// value.
pub proof fn lemma_be_val_skip_zeros(digits: Seq<u8>, base: nat, z: int)
    requires
        0 <= z <= digits.len(),
        forall|k: int| 0 <= k < z ==> digits[k] == 0,
    ensures
        be_val(digits, base) == be_val(digits.skip(z), base),
    decreases z,
{
    if z == 0 {
        assert(digits.skip(0) =~= digits);
    } else {
        lemma_be_val_drop_leading_zero(digits, base);
        lemma_be_val_skip_zeros(digits.drop_first(), base, z - 1);
        assert(digits.drop_first().skip(z - 1) =~= digits.skip(z));
    }
}

/// Raising a base no greater than `big` to a power keeps the order.
pub proof fn lemma_pow_base_le(small: nat, big: nat, e: nat)
    requires
        1 <= small <= big,
    ensures
        pow(small as int, e) <= pow(big as int, e),
    decreases e,
{
    if e > 0 {
        lemma_pow_base_le(small, big, (e - 1) as nat);
        lemma_pow_positive(small as int, (e - 1) as nat);
        lemma_pow_positive(big as int, (e - 1) as nat);
        let ps = pow(small as int, (e - 1) as nat);
        let pb = pow(big as int, (e - 1) as nat);
        assert(small * ps <= big * pb) by (nonlinear_arith)
            requires
                1 <= small <= big,
                0 < ps <= pb,
        ;
        lemma_pow1(small as int);
        lemma_pow1(big as int);
        lemma_pow_adds(small as int, 1, (e - 1) as nat);
        lemma_pow_adds(big as int, 1, (e - 1) as nat);
        assert(pow(small as int, e) == small * ps);
        assert(pow(big as int, e) == big * pb);
    } else {
        lemma_pow0(small as int);
        lemma_pow0(big as int);
    }
}

/// With `out * out >= src`, a value below `src^e` is below `out^(2 e)`:
/// re-expressing `e` digits needs at most `2 e` digits.
pub proof fn lemma_pow_double_digits(src: nat, out: nat, e: nat)
    requires
        2 <= src,
        2 <= out,
        out * out >= src,
    ensures
        pow(src as int, e) <= pow(out as int, 2 * e),
{
    lemma_pow_base_le(src, out * out, e);
    lemma_pow_multiplies(out as int, 2, e);
    lemma_pow1(out as int);
    lemma_pow_adds(out as int, 1, 1);
    assert(pow(out as int, 2) == out * out);
}


/// Re-expresses the big-endian numeral `data`, whose digits are below
/// `src_base`, as the shortest big-endian digit string in `out_base`.
///
/// This is the classic multiply-and-carry base conversion: source digits
/// are consumed most significant first, and a little-endian buffer of
/// produced digits is multiplied by `src_base` and bumped by the incoming
/// digit at each step.
#[verifier::rlimit(50)]
pub fn repack_radix(data: &[u8], src_base: u32, out_base: u32) -> (r: Vec<u8>)
    requires
        2 <= src_base <= 256,
        2 <= out_base <= 256,
        out_base * out_base >= src_base,
        digits_below(data@, src_base as nat),
        data@.len() < usize::MAX / 2,
    ensures
        r@ == min_digits(be_val(data@, src_base as nat), out_base as nat),
{
    let ghost m: nat = src_base as nat;
    let ghost b: nat = out_base as nat;
    let slen = data.len();

    let mut zcount: usize = 0;
    while zcount < slen && data[zcount] == 0
        invariant
            zcount <= slen,
            slen == data@.len(),
            forall|k: int| 0 <= k < zcount ==> data@[k] == 0,
        decreases slen - zcount,
    {
        zcount = zcount + 1;
    }

    let dlen = 2 * (slen - zcount) + 1;
    let mut buf: Vec<u8> = vec![0u8; dlen];
    let mut h: usize = 0;
    let mut i: usize = zcount;
    proof {
        assert(data@.take(i as int) =~= data@.take(i as int));
        lemma_le_val_zero_seq(data@.take(i as int).map_values(|x: u8| x), m);
        assert(buf@.take(0) =~= Seq::<u8>::empty());
        lemma_be_val_skip_zeros(data@.take(i as int), m, i as int);
        assert(data@.take(i as int).skip(i as int) =~= Seq::<u8>::empty());
    }
    while i < slen
        invariant
            2 <= src_base <= 256,
            2 <= out_base <= 256,
            out_base * out_base >= src_base,
            m == src_base as nat,
            b == out_base as nat,
            digits_below(data@, m),
            slen == data@.len(),
            slen < usize::MAX / 2,
            zcount <= i <= slen,
            forall|k: int| 0 <= k < zcount ==> data@[k] == 0,
            dlen == 2 * (slen - zcount) + 1,
            buf@.len() == dlen,
            h <= 2 * (i - zcount),
            le_val(buf@.take(h as int), b) == be_val(data@.take(i as int), m),
            digits_below(buf@.take(h as int), b),
            h > 0 ==> buf@[h - 1] != 0,
            forall|k: int| h <= k < dlen ==> buf@[k] == 0,
        decreases slen - i,
    {
        let d = data[i];
        let ghost ob = buf@;
        let ghost oh = h as int;
        let ghost v_old = be_val(data@.take(i as int), m) as int;
        let ghost v_new = m * v_old + d;
        let ghost cap = (2 * (i + 1 - zcount)) as nat;
        proof {
            assert(data@.take(i + 1).drop_last() =~= data@.take(i as int));
            assert(data@.take(i + 1).last() == data@[i as int]);
            lemma_mul_is_commutative(v_old, m as int);
            assert(be_val(data@.take(i + 1), m) == v_new);
            lemma_le_val_zeros_suffix(ob, b, oh);
            lemma_be_val_skip_zeros(data@.take(i + 1), m, zcount as int);
            lemma_be_val_upper(data@.take(i + 1).skip(zcount as int), m);
            lemma_pow_double_digits(m, b, (i + 1 - zcount) as nat);
            assert(v_new < pow(b as int, cap));
            lemma_pow0(b as int);
            assert(ob.skip(0) =~= ob);
        }
        let mut carry: u32 = d as u32;
        let mut j: usize = 0;
        while j < h || carry != 0
            invariant
                2 <= src_base <= 256,
                2 <= out_base <= 256,
                m == src_base as nat,
                b == out_base as nat,
                ob.len() == dlen,
                buf@.len() == dlen,
                oh == h as int,
                0 <= oh <= dlen,
                oh <= 2 * (i as int - zcount as int),
                i < slen,
                zcount <= i,
                dlen == 2 * (slen - zcount) + 1,
                cap == (2 * (i + 1 - zcount)) as nat,
                v_new < pow(b as int, cap),
                v_new >= 0,
                j <= dlen,
                carry < src_base,
                forall|k: int| oh <= k < dlen ==> ob[k] == 0,
                digits_below(ob.take(oh), b),
                oh > 0 ==> ob[oh - 1] != 0,
                forall|k: int| j <= k < dlen ==> buf@[k] == ob[k],
                digits_below(buf@.take(j as int), b),
                le_val(buf@.take(j as int), b) + pow(b as int, j as nat) * (carry + m * le_val(
                    ob.skip(j as int),
                    b,
                )) == v_new,
                (j > 0 && j >= oh && carry == 0) ==> buf@[j - 1] != 0,
            decreases dlen - j,
        {
            proof {
                if carry != 0 {
                    lemma_pow_positive(b as int, j as nat);
                    let pj = pow(b as int, j as nat);
                    let le2 = le_val(ob.skip(j as int), b) as int;
                    let c0 = carry as int;
                    let m2 = m as int;
                    assert(pj <= pj * (c0 + m2 * le2)) by (nonlinear_arith)
                        requires
                            pj > 0,
                            c0 >= 1,
                            m2 >= 0,
                            le2 >= 0,
                    ;
                    assert(pj < pow(b as int, cap));
                    lemma_pow_strictly_increases_converse(b, j as nat, cap);
                    assert(j < dlen);
                } else {
                    assert(j < oh);
                    assert(j < dlen);
                }
            }
            let bj = buf[j];
            let ghost c0 = carry as int;
            let ghost buf0 = buf@;
            let ghost j0 = j as int;
            proof {
                assert(src_base as int * (bj as int) <= 256 * 255) by (nonlinear_arith)
                    requires
                        src_base <= 256,
                        bj as int <= 255,
                ;
            }
            let carry1: u32 = carry + src_base * (bj as u32);
            let dig: u8 = (carry1 % out_base) as u8;
            buf[j] = dig;
            carry = carry1 / out_base;
            j = j + 1;
            proof {
                let m2 = m as int;
                let b2 = b as int;
                let c1 = carry1 as int;
                let c2 = carry as int;
                let dd = dig as int;
                let obj = ob[j0] as int;
                let l2 = le_val(ob.skip(j0 + 1), b) as int;
                let lj = le_val(buf0.take(j0), b) as int;
                let pj = pow(b2, j0 as nat);

                lemma_mod_bound(c1, b2);
                lemma_fundamental_div_mod(c1, b2);
                assert(c1 == b2 * c2 + dd);

                // carry stays below the source base
                assert(obj <= b2 - 1) by {
                    if j0 < oh {
                        assert(ob.take(oh)[j0] == ob[j0]);
                    }
                }
                assert(c1 < b2 * m2) by (nonlinear_arith)
                    requires
                        c0 < m2,
                        obj <= b2 - 1,
                        c1 == c0 + m2 * obj,
                        m2 >= 2,
                        b2 >= 2,
                ;
                lemma_multiply_divide_lt(c1, b2, m2);
                assert(c2 < m2);

                // the produced digit extends the little-endian prefix
                assert(buf@ == buf0.update(j0, dig));
                assert(buf@.take(j0 + 1) =~= buf0.take(j0).push(dig));
                lemma_le_val_push(buf0.take(j0), b, dig);
                assert(le_val(buf@.take(j0 + 1), b) == lj + dd * pj);

                // one digit of the old tail is consumed
                assert(ob.skip(j0).drop_first() =~= ob.skip(j0 + 1));
                assert(ob.skip(j0).first() == ob[j0]);
                assert(le_val(ob.skip(j0), b) == (obj + le_val(ob.skip(j0 + 1), b) * b2) as nat);

                lemma_pow_adds(b2, j0 as nat, 1);
                lemma_pow1(b2);
                assert(pow(b2, (j0 + 1) as nat) == pj * b2);
                lemma_pow_positive(b2, j0 as nat);

                // the invariant equation is preserved
                assert((pj * b2) * (c2 + m2 * l2) == pj * (b2 * c2) + pj * (m2 * (l2 * b2)))
                    by (nonlinear_arith);
                assert(dd * pj + pj * (b2 * c2) == pj * (c0 + m2 * obj)) by (nonlinear_arith)
                    requires
                        c1 == c0 + m2 * obj,
                        c1 == b2 * c2 + dd,
                ;
                assert(pj * (c0 + m2 * (obj + l2 * b2)) == pj * (c0 + m2 * obj) + pj * (m2 * (l2
                    * b2))) by (nonlinear_arith);
                assert(lj + dd * pj + (pj * b2) * (c2 + m2 * l2) == lj + pj * (c0 + m2 * (obj + l2
                    * b2)));
                assert(le_val(buf@.take(j as int), b) + pow(b2, j as nat) * (carry + m * le_val(
                    ob.skip(j as int),
                    b,
                )) == v_new);

                // minimality of the produced digit string
                if j0 >= oh {
                    assert(obj == 0);
                    assert(c1 == c0);
                    if c2 == 0 {
                        assert(c0 != 0);
                        assert(dd == c1);
                        assert(buf@[j - 1] != 0);
                    }
                } else if j0 == oh - 1 && c2 == 0 {
                    assert(obj >= 1);
                    assert(c1 >= m2) by (nonlinear_arith)
                        requires
                            c1 == c0 + m2 * obj,
                            c0 >= 0,
                            obj >= 1,
                            m2 >= 2,
                    ;
                    assert(dd == c1);
                    assert(buf@[j - 1] != 0);
                }
            }
        }
        proof {
            lemma_le_val_zero_seq(ob.skip(j as int), b);
            lemma_pow_positive(b as int, j as nat);
            assert(pow(b as int, j as nat) * (carry + m * le_val(ob.skip(j as int), b)) == 0);
            assert(le_val(buf@.take(j as int), b) == v_new);
            assert forall|k: int| j <= k < dlen implies buf@[k] == 0 by {
                assert(buf@[k] == ob[k]);
                assert(k >= oh);
            }
            if j > 0 {
                assert(buf@.take(j as int).last() == buf@[j - 1]);
                lemma_le_val_lower(buf@.take(j as int), b);
                assert(pow(b as int, (j - 1) as nat) < pow(b as int, cap));
                lemma_pow_strictly_increases_converse(b, (j - 1) as nat, cap);
                assert(j <= 2 * (i + 1 - zcount));
            }
        }
        h = j;
        i = i + 1;
    }
    proof {
        assert(data@.take(slen as int) =~= data@);
    }
    let mut out: Vec<u8> = Vec::new();
    let mut k2 = h;
    while k2 > 0
        invariant
            b == out_base as nat,
            2 <= out_base <= 256,
            k2 <= h,
            h <= buf@.len(),
            out@.len() == h - k2,
            forall|idx: int| 0 <= idx < out@.len() ==> out@[idx] == buf@[h - 1 - idx],
        decreases k2,
    {
        k2 = k2 - 1;
        let digit = buf[k2];
        out.push(digit);
    }
    proof {
        assert(out@ =~= buf@.take(h as int).reverse());
        lemma_le_val_reverse(buf@.take(h as int), b);
        assert(be_val(out@, b) == be_val(data@, m));
        assert(digits_below(out@, b)) by {
            assert(forall|idx: int|
                0 <= idx < out@.len() ==> out@[idx] == buf@.take(h as int)[h - 1 - idx]);
        }
        if h > 0 {
            assert(out@.first() == buf@[h - 1]);
        }
        lemma_min_digits_unique(out@, b);
    }
    out
}


/// A digit string's value is at least its leading digit times the place
/// value of that digit.
pub proof fn lemma_be_val_first_lower(digits: Seq<u8>, base: nat)
    requires
        base >= 2,
        digits.len() > 0,
    ensures
        be_val(digits, base) >= digits.first() * pow(base as int, (digits.len() - 1) as nat),
    decreases digits.len(),
{
    if digits.len() == 1 {
        lemma_pow0(base as int);
    } else {
        assert(digits.drop_last().first() == digits.first());
        lemma_be_val_first_lower(digits.drop_last(), base);
        lemma_pow_adds(base as int, (digits.len() - 2) as nat, 1);
        lemma_pow1(base as int);
        lemma_mul_inequality(
            digits.first() * pow(base as int, (digits.len() - 2) as nat),
            be_val(digits.drop_last(), base) as int,
            base as int,
        );
        lemma_mul_is_associative(
            digits.first() as int,
            pow(base as int, (digits.len() - 2) as nat),
            base as int,
        );
    }
}

/// A value bracketed by two consecutive powers of the base has exactly
/// that many digits.
pub proof fn lemma_min_digits_len_between(n: nat, base: nat, d: nat)
    requires
        2 <= base <= 256,
        pow(base as int, d) <= n,
        n < pow(base as int, (d + 1) as nat),
    ensures
        min_digits(n, base).len() == d + 1,
{
    lemma_min_digits_val(n, base);
    let md = min_digits(n, base);
    lemma_pow_positive(base as int, d);
    assert(n > 0);
    lemma_be_val_upper(md, base);
    lemma_be_val_lower(md, base);
    lemma_pow_strictly_increases_converse(base, d, md.len());
    lemma_pow_strictly_increases_converse(base, (md.len() - 1) as nat, (d + 1) as nat);
}

} // verus!
