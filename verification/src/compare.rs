//! Deltas between a current and a previous value: a percentage with a fixed
//! number of decimal places, or a signed absolute difference.

use crate::decimal::{
    all_digits, decimal_string, decimal_text, digits_value, fixed_text, increment,
    lemma_value_push, pow10, push_digits, render_fixed,
};
use vstd::arithmetic::div_mod::lemma_fundamental_div_mod_converse;
use vstd::prelude::*;
use vstd::string::*;

verus! {

/// `n / d` rounded to the nearest whole number; an exact half goes to the even
/// neighbour.
pub open spec fn round_half_even(n: nat, d: nat) -> nat {
    let q = n / d;
    let r = n % d;
    if 2 * r < d {
        q
    } else if 2 * r > d {
        q + 1
    } else if q % 2 == 0 {
        q
    } else {
        q + 1
    }
}

/// The distance between two values.
pub open spec fn distance(a: nat, b: nat) -> nat {
    if a >= b {
        (a - b) as nat
    } else {
        (b - a) as nat
    }
}

/// The size of the change from `previous` to `current` in percent of `previous`,
/// in units of `10^-places` percent, rounded to the nearest unit.
pub open spec fn percent_magnitude(current: nat, previous: nat, places: nat) -> nat {
    round_half_even(distance(current, previous) * 100 * pow10(places), previous)
}

/// The percentage delta as it is displayed. From a baseline of zero any rise
/// shows as `+100%` and no rise as `0%`. Otherwise the sign comes first, `+`
/// also for no change, then the percentage with `places` decimal places.
pub open spec fn percent_change_text(current: nat, previous: nat, places: nat) -> Seq<char> {
    if previous == 0 {
        if current > 0 {
            seq!['+', '1', '0', '0', '%']
        } else {
            seq!['0', '%']
        }
    } else {
        seq![if current >= previous { '+' } else { '-' }] + fixed_text(
            percent_magnitude(current, previous, places),
            places,
        ) + seq!['%']
    }
}

/// The percentage delta from the fraction `pn / pd` to the fraction `cn / cd`
/// as it is displayed, both taken exactly. It reads as `percent_change_text`
/// does: from a baseline of zero a rise shows as `+100%` and no rise as `0%`;
/// otherwise the sign, the percentage with `places` decimal places, and `%`.
pub open spec fn ratio_change_text(cn: nat, cd: nat, pn: nat, pd: nat, places: nat) -> Seq<char> {
    if pn == 0 {
        if cn > 0 {
            seq!['+', '1', '0', '0', '%']
        } else {
            seq!['0', '%']
        }
    } else {
        seq![if cn * pd >= pn * cd { '+' } else { '-' }] + fixed_text(
            round_half_even(distance(cn * pd, pn * cd) * 100 * pow10(places), pn * cd),
            places,
        ) + seq!['%']
    }
}

/// The signed difference `current - previous` as it is displayed, with `+` in
/// front of zero and of a gain.
pub open spec fn absolute_change_text(current: nat, previous: nat) -> Seq<char> {
    seq![if current >= previous { '+' } else { '-' }] + decimal_text(distance(current, previous))
}

/// A count shown as a gain: the numeral with `+` in front.
pub open spec fn growth_text(count: nat) -> Seq<char> {
    seq!['+'] + decimal_text(count)
}

/// Two more decimal places are a factor of a hundred.
proof fn lemma_pow10_two_more(e: nat)
    ensures
        pow10(e + 2) == 100 * pow10(e),
{
    assert(pow10(e + 2) == 10 * pow10((e + 1) as nat));
    assert(pow10((e + 1) as nat) == 10 * pow10(e));
}

/// Ten times `r` and `carry` more, divided by `d`: the quotient digit and the
/// new remainder.
fn times_ten_plus_divided(r: u128, carry: u8, d: u128) -> (out: (u8, u128))
    requires
        r < d,
        carry < 10,
    ensures
        10 * r + carry == out.0 * d + out.1,
        out.0 < 10,
        out.1 < d,
{
    let mut digit: u8 = (carry as u128 / d) as u8;
    let mut acc: u128 = carry as u128 % d;
    assert(carry == digit * d + acc) by {
        vstd::arithmetic::div_mod::lemma_fundamental_div_mod(carry as int, d as int);
        assert(d * (carry as int / d as int) == (carry as int / d as int) * d)
            by (nonlinear_arith);
    }
    let mut i: u8 = 0;
    while i < 10
        invariant
            i <= 10,
            r < d,
            carry < 10,
            digit <= i + carry,
            acc < d,
            i * r + carry == digit * d + acc,
        decreases 10 - i,
    {
        assert((i + 1) * r == i * r + r) by (nonlinear_arith);
        assert((digit + 1) * d == digit * d + d) by (nonlinear_arith);
        if acc >= d - r {
            acc = acc - (d - r);
            digit = digit + 1;
        } else {
            acc = acc + r;
        }
        i = i + 1;
    }
    assert(digit < 10) by {
        if digit >= 10 {
            assert(digit * d >= 10 * d) by (nonlinear_arith)
                requires
                    digit >= 10,
                    d >= 0,
            ;
        }
    }
    (digit, acc)
}

/// The percentage delta from the fraction `pn / pd` to the fraction `cn / cd`
/// with `places` decimal places, taken exactly. Numbers up to `pn * cd` are
/// held as a count of `cd`s and a rest below `cd`, so that nothing exceeds
/// what the machine holds.
pub(crate) fn ratio_change(cn: u128, cd: u64, pn: u128, pd: u64, places: u8) -> (r: String)
    requires
        cd > 0,
        pd > 0,
        cn <= cd * u64::MAX,
    ensures
        r@ == ratio_change_text(cn as nat, cd as nat, pn as nat, pd as nat, places as nat),
{
    if pn == 0 {
        proof {
            reveal_strlit("+100%");
            reveal_strlit("0%");
        }
        let r = if cn > 0 {
            String::from_str("+100%")
        } else {
            String::from_str("0%")
        };
        assert(r@ =~= ratio_change_text(
            cn as nat,
            cd as nat,
            pn as nat,
            pd as nat,
            places as nat,
        ));
        return r;
    }
    let ghost den = pn as nat * cd as nat;
    let ghost top = cn as nat * pd as nat;
    let size: u128 = cd as u128;
    // cn * pd, as `count` times cd and `rest` more.
    let whole: u128 = cn / size;
    let part: u128 = cn % size;
    assert(whole <= u64::MAX) by (nonlinear_arith)
        requires
            whole == cn as int / size as int,
            cn <= size * u64::MAX,
            size > 0,
    ;
    assert(cn == whole * size + part) by {
        vstd::arithmetic::div_mod::lemma_fundamental_div_mod(cn as int, size as int);
        assert(size * (cn as int / size as int) == (cn as int / size as int) * size)
            by (nonlinear_arith);
    }
    assert(part * pd <= u64::MAX * u64::MAX && whole * pd <= u64::MAX * u64::MAX)
        by (nonlinear_arith)
        requires
            part < size <= u64::MAX,
            whole <= u64::MAX,
            pd <= u64::MAX,
    ;
    let spread: u128 = part * pd as u128;
    let over: u128 = spread / size;
    let rest: u128 = spread % size;
    assert(spread == over * size + rest) by {
        vstd::arithmetic::div_mod::lemma_fundamental_div_mod(spread as int, size as int);
        assert(size * (spread as int / size as int) == (spread as int / size as int) * size)
            by (nonlinear_arith);
    }
    assert(over < pd) by (nonlinear_arith)
        requires
            spread == part * pd,
            spread == over * size + rest,
            part < size,
            rest >= 0,
            pd > 0,
    ;
    let count: u128 = whole * pd as u128 + over;
    assert(top == count * size + rest) by (nonlinear_arith)
        requires
            top == cn * pd,
            cn == whole * size + part,
            spread == part * pd,
            spread == over * size + rest,
            count == whole * pd + over,
    ;
    // The distance between cn * pd and pn * cd in the same form.
    let rose = count >= pn;
    let gap: u128;
    let odd: u128;
    if rose {
        gap = count - pn;
        odd = rest;
    } else if rest == 0 {
        gap = pn - count;
        odd = 0;
    } else {
        gap = pn - count - 1;
        odd = size - rest;
    }
    assert(rose == (top >= den) && distance(top, den) == gap * size + odd) by (nonlinear_arith)
        requires
            top == count * size + rest,
            den == pn * size,
            rest < size,
            rose == (count >= pn),
            rose ==> gap == count - pn && odd == rest,
            !rose && rest == 0 ==> gap == pn - count && odd == 0,
            !rose && rest != 0 ==> gap == pn - count - 1 && odd == size - rest,
            distance(top, den) == if top >= den { top - den } else { den - top },
    ;
    let ghost diff = distance(top, den);
    let mut ds: Vec<u8> = Vec::new();
    push_digits(gap / pn, &mut ds);
    let mut high: u128 = gap % pn;
    let mut low: u128 = odd;
    assert(pow10(0) == 1);
    assert(diff == digits_value(ds@) * den + (high * size + low)) by {
        vstd::arithmetic::div_mod::lemma_fundamental_div_mod(gap as int, pn as int);
        let q = gap as int / pn as int;
        assert((pn * q + high) * size + low == q * (pn * size) + (high * size + low))
            by (nonlinear_arith);
    }
    let steps: usize = places as usize + 2;
    let mut k: usize = 0;
    while k < steps
        invariant
            k <= steps,
            steps == places + 2,
            all_digits(ds@),
            ds@.len() >= 1 + k,
            pn > 0,
            size > 0,
            size <= u64::MAX,
            den == pn * size,
            high < pn,
            low < size,
            diff * pow10(k as nat) == digits_value(ds@) * den + (high * size + low),
        decreases steps - k,
    {
        let ghost before = ds@;
        let ghost value = digits_value(before);
        let ghost old_high = high;
        let ghost old_low = low;
        let tenfold: u128 = low * 10;
        let carry: u8 = (tenfold / size) as u8;
        let left: u128 = tenfold % size;
        assert(tenfold == carry * size + left && carry < 10) by {
            vstd::arithmetic::div_mod::lemma_fundamental_div_mod(tenfold as int, size as int);
            let c = tenfold as int / size as int;
            assert(size * c == c * size) by (nonlinear_arith);
            assert(c < 10) by (nonlinear_arith)
                requires
                    tenfold == c * size + left,
                    tenfold == 10 * low,
                    low < size,
                    left >= 0,
            ;
        }
        let (digit, rest_high) = times_ten_plus_divided(high, carry, pn);
        ds.push(digit);
        high = rest_high;
        low = left;
        proof {
            lemma_value_push(before, digit);
            assert(pow10((k + 1) as nat) == 10 * pow10(k as nat));
            assert(diff * (10 * pow10(k as nat)) == (10 * value + digit) * den + (rest_high * size
                + left)) by (nonlinear_arith)
                requires
                    diff * pow10(k as nat) == value * den + (old_high * size + old_low),
                    10 * old_low == carry * size + left,
                    10 * old_high + carry == digit * pn + rest_high,
                    den == pn * size,
            ;
        }
        k = k + 1;
    }
    let ghost scaled = (diff * 100 * pow10(places as nat)) as nat;
    let ghost floor = digits_value(ds@);
    let ghost rem = (high * size + low) as nat;
    let last: u8 = ds[ds.len() - 1];
    // Twice the remainder against pn * cd, again without forming either.
    let twice: u128 = low * 2;
    let extra: u128 = if twice >= size { 1 } else { 0 };
    let tail: u128 = if twice >= size { twice - size } else { twice };
    let short: u128 = pn - high;
    let more = high + extra > short || (high + extra == short && tail > 0);
    let half = high + extra == short && tail == 0;
    proof {
        lemma_pow10_two_more(places as nat);
        assert(scaled == diff * pow10((places + 2) as nat)) by (nonlinear_arith)
            requires
                scaled == diff * 100 * pow10(places as nat),
                pow10((places + 2) as nat) == 100 * pow10(places as nat),
        ;
        assert(rem < den) by (nonlinear_arith)
            requires
                rem == high * size + low,
                den == pn * size,
                high < pn,
                low < size,
        ;
        assert(den > 0) by (nonlinear_arith)
            requires
                den == pn * size,
                pn > 0,
                size > 0,
        ;
        lemma_fundamental_div_mod_converse(scaled as int, den as int, floor as int, rem as int);
        assert(floor % 2 == (last % 2) as nat) by {
            assert(floor == 10 * digits_value(ds@.drop_last()) + last as nat);
        }
        assert(more == (2 * rem > den) && half == (2 * rem == den)) by (nonlinear_arith)
            requires
                rem == high * size + low,
                den == pn * size,
                2 * low == extra * size + tail,
                tail < size,
                extra <= 1,
                short == pn - high,
                more == (high + extra > short || (high + extra == short && tail > 0)),
                half == (high + extra == short && tail == 0),
        ;
    }
    if more || (half && last % 2 == 1) {
        increment(&mut ds);
    }
    assert(digits_value(ds@) == round_half_even(scaled, den));
    let body = render_fixed(&ds, places as usize);
    proof {
        reveal_strlit("+");
        reveal_strlit("-");
        reveal_strlit("%");
    }
    let mut out = if rose {
        String::from_str("+")
    } else {
        String::from_str("-")
    };
    out.append(body.as_str());
    out.append("%");
    assert(out@ =~= ratio_change_text(
        cn as nat,
        cd as nat,
        pn as nat,
        pd as nat,
        places as nat,
    ));
    out
}

/// The percentage delta from `previous` to `current` with `places` decimal
/// places, as a signed text that ends in `%`.
pub fn percent_change(current: u128, previous: u128, places: u8) -> (r: String)
    ensures
        r@ == percent_change_text(current as nat, previous as nat, places as nat),
{
    if previous == 0 {
        proof {
            reveal_strlit("+100%");
            reveal_strlit("0%");
        }
        let r = if current > 0 {
            String::from_str("+100%")
        } else {
            String::from_str("0%")
        };
        assert(r@ =~= percent_change_text(current as nat, previous as nat, places as nat));
        return r;
    }
    let rose = current >= previous;
    let diff: u128 = if rose {
        current - previous
    } else {
        previous - current
    };
    let mut ds: Vec<u8> = Vec::new();
    push_digits(diff / previous, &mut ds);
    let mut rem: u128 = diff % previous;
    let steps: usize = places as usize + 2;
    let mut k: usize = 0;
    assert(pow10(0) == 1);
    assert(diff as nat == (diff / previous) * previous + diff % previous) by {
        vstd::arithmetic::div_mod::lemma_fundamental_div_mod(diff as int, previous as int);
        assert((diff as int / previous as int) * previous == previous * (diff as int
            / previous as int)) by (nonlinear_arith);
    }
    while k < steps
        invariant
            k <= steps,
            steps == places + 2,
            all_digits(ds@),
            ds@.len() >= 1 + k,
            rem < previous,
            diff * pow10(k as nat) == digits_value(ds@) * previous + rem,
        decreases steps - k,
    {
        let ghost before = ds@;
        let ghost value = digits_value(before);
        let ghost old_rem = rem;
        let (digit, rest) = times_ten_plus_divided(rem, 0, previous);
        ds.push(digit);
        rem = rest;
        proof {
            lemma_value_push(before, digit);
            assert(pow10((k + 1) as nat) == 10 * pow10(k as nat));
            assert(diff * (10 * pow10(k as nat)) == (10 * value + digit) * previous + rest)
                by (nonlinear_arith)
                requires
                    diff * pow10(k as nat) == value * previous + old_rem,
                    10 * old_rem == digit * previous + rest,
            ;
        }
        k = k + 1;
    }
    let ghost scaled = (diff * 100 * pow10(places as nat)) as nat;
    let ghost floor = digits_value(ds@);
    let last: u8 = ds[ds.len() - 1];
    proof {
        lemma_pow10_two_more(places as nat);
        assert(scaled == diff * pow10((places + 2) as nat)) by (nonlinear_arith)
            requires
                scaled == diff * 100 * pow10(places as nat),
                pow10((places + 2) as nat) == 100 * pow10(places as nat),
        ;
        assert(scaled == floor * previous + rem);
        lemma_fundamental_div_mod_converse(
            scaled as int,
            previous as int,
            floor as int,
            rem as int,
        );
        assert(floor % 2 == (last % 2) as nat) by {
            assert(floor == 10 * digits_value(ds@.drop_last()) + last as nat);
        }
    }
    let up = rem > previous - rem || (rem == previous - rem && last % 2 == 1);
    if up {
        increment(&mut ds);
    }
    assert(digits_value(ds@) == percent_magnitude(current as nat, previous as nat, places as nat));
    let body = render_fixed(&ds, places as usize);
    proof {
        reveal_strlit("+");
        reveal_strlit("-");
        reveal_strlit("%");
    }
    let mut out = if rose {
        String::from_str("+")
    } else {
        String::from_str("-")
    };
    out.append(body.as_str());
    out.append("%");
    assert(out@ =~= percent_change_text(current as nat, previous as nat, places as nat));
    out
}

/// The signed difference `current - previous`, with `+` in front of zero and
/// of a gain.
pub fn absolute_change(current: u64, previous: u64) -> (r: String)
    ensures
        r@ == absolute_change_text(current as nat, previous as nat),
{
    proof {
        reveal_strlit("+");
        reveal_strlit("-");
    }
    let mut out;
    let size: u64;
    if current >= previous {
        out = String::from_str("+");
        size = current - previous;
    } else {
        out = String::from_str("-");
        size = previous - current;
    }
    let digits = decimal_string(size as u128);
    out.append(digits.as_str());
    assert(out@ =~= absolute_change_text(current as nat, previous as nat));
    out
}

/// A count shown as a gain: the numeral with `+` in front.
pub fn growth_display(count: u64) -> (r: String)
    ensures
        r@ == growth_text(count as nat),
{
    proof {
        reveal_strlit("+");
    }
    let mut out = String::from_str("+");
    let digits = decimal_string(count as u128);
    out.append(digits.as_str());
    assert(out@ =~= growth_text(count as nat));
    out
}

} // verus!
