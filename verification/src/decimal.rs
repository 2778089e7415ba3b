//! Base-10 text of integers, as bytes.

use vstd::prelude::*;

verus! {

/// The ASCII digit for a value below ten.
pub open spec fn digit(d: nat) -> u8
    recommends
        d < 10,
{
    (48 + d) as u8
}

/// The decimal digits of `n`, most significant first, without leading zeros.
pub open spec fn decimal(n: nat) -> Seq<u8>
    decreases n,
{
    if n < 10 {
        seq![digit(n)]
    } else {
        decimal(n / 10).push(digit(n % 10))
    }
}

/// The decimal text of a signed integer: a minus sign before the digits of a
/// negative value.
pub open spec fn signed_decimal(v: int) -> Seq<u8> {
    if v < 0 {
        seq![45u8] + decimal((-v) as nat)
    } else {
        decimal(v as nat)
    }
}

/// Every byte of a decimal text is an ASCII digit.
pub proof fn lemma_decimal_digits(n: nat)
    ensures
        decimal(n).len() >= 1,
        forall|i: int| 0 <= i < decimal(n).len() ==> 48 <= #[trigger] decimal(n)[i] <= 57,
    decreases n,
{
    if n >= 10 {
        lemma_decimal_digits(n / 10);
    }
}

/// The number that ASCII digits spell in base ten.
pub open spec fn digits_value(digits: Seq<u8>) -> nat
    decreases digits.len(),
{
    if digits.len() == 0 {
        0
    } else {
        digits_value(digits.drop_last()) * 10 + (digits.last() - 48) as nat
    }
}

/// The decimal text of a number spells that number.
pub proof fn lemma_decimal_value(n: nat)
    ensures
        digits_value(decimal(n)) == n,
    decreases n,
{
    if n < 10 {
        assert(decimal(n).drop_last() =~= Seq::<u8>::empty());
        assert(digits_value(decimal(n).drop_last()) == 0);
    } else {
        lemma_decimal_value(n / 10);
        assert(decimal(n).drop_last() =~= decimal(n / 10));
    }
}

/// Appends the decimal text of `n` to `out`.
pub fn push_decimal(out: &mut Vec<u8>, n: u64)
    ensures
        final(out)@ == old(out)@ + decimal(n as nat),
{
    let mut digits: Vec<u8> = Vec::new();
    let mut rest: u64 = n;
    while rest >= 10
        invariant
            decimal(n as nat) == decimal(rest as nat) + digits@.reverse(),
        decreases rest,
    {
        let d: u8 = (rest % 10) as u8;
        proof {
            let low = digits@.reverse();
            assert(digits@.push((48 + d) as u8).reverse() =~= seq![(48 + d) as u8] + low);
            assert(decimal(rest as nat) == decimal((rest / 10) as nat).push(
                digit((rest % 10) as nat),
            ));
            assert(decimal((rest / 10) as nat).push(digit((rest % 10) as nat)) + low
                =~= decimal((rest / 10) as nat) + (seq![(48 + d) as u8] + low));
        }
        digits.push(48 + d);
        rest = rest / 10;
    }
    let ghost before = out@;
    out.push(48 + (rest as u8));
    let mut i: usize = digits.len();
    while i > 0
        invariant
            i <= digits.len(),
            out@ == before + seq![digit(rest as nat)] + digits@.reverse().subrange(
                0,
                digits.len() - i,
            ),
            rest < 10,
        decreases i,
    {
        i = i - 1;
        proof {
            let r = digits@.reverse();
            let k = digits.len() - i - 1;
            assert(r[k] == digits@[i as int]);
            assert(r.subrange(0, k + 1) =~= r.subrange(0, k).push(r[k]));
        }
        out.push(digits[i]);
    }
    proof {
        let r = digits@.reverse();
        assert(r.subrange(0, digits.len() as int) =~= r);
        assert(decimal(rest as nat) =~= seq![digit(rest as nat)]);
        assert(before + seq![digit(rest as nat)] + r =~= before + (decimal(rest as nat) + r));
    }
}

/// Appends the decimal text of a signed integer to `out`.
pub fn push_signed_decimal(out: &mut Vec<u8>, v: i64)
    ensures
        final(out)@ == old(out)@ + signed_decimal(v as int),
{
    if v < 0 {
        let ghost before = out@;
        out.push(45);
        let magnitude: u64 = (-(v + 1)) as u64 + 1;
        push_decimal(out, magnitude);
        assert(out@ =~= before + (seq![45u8] + decimal((-v) as nat)));
    } else {
        push_decimal(out, v as u64);
    }
}

} // verus!
