//! Decimal numerals: the text of a natural number, with or without a decimal
//! point, computed digit by digit so that no magnitude is out of reach.

use vstd::prelude::*;
use vstd::string::*;

verus! {

/// The character of one decimal digit.
pub open spec fn digit_char(d: int) -> char {
    if d == 0 {
        '0'
    } else if d == 1 {
        '1'
    } else if d == 2 {
        '2'
    } else if d == 3 {
        '3'
    } else if d == 4 {
        '4'
    } else if d == 5 {
        '5'
    } else if d == 6 {
        '6'
    } else if d == 7 {
        '7'
    } else if d == 8 {
        '8'
    } else {
        '9'
    }
}

/// Ten to the power `e`.
pub open spec fn pow10(e: nat) -> nat
    decreases e,
{
    if e == 0 {
        1
    } else {
        10 * pow10((e - 1) as nat)
    }
}

/// The decimal numeral of `n`, without leading zeros.
pub open spec fn decimal_text(n: nat) -> Seq<char>
    decreases n,
{
    if n < 10 {
        seq![digit_char(n as int)]
    } else {
        decimal_text(n / 10).push(digit_char((n % 10) as int))
    }
}

/// The last `places` decimal digits of `n`, with zeros in front where `n` is short.
pub open spec fn fraction_text(n: nat, places: nat) -> Seq<char>
    decreases places,
{
    if places == 0 {
        Seq::empty()
    } else {
        fraction_text(n / 10, (places - 1) as nat).push(digit_char((n % 10) as int))
    }
}

/// The numeral of `n / 10^places` with exactly `places` digits after the point;
/// without a point where `places` is zero.
pub open spec fn fixed_text(n: nat, places: nat) -> Seq<char> {
    if places == 0 {
        decimal_text(n)
    } else {
        decimal_text(n / pow10(places)) + seq!['.'] + fraction_text(n, places)
    }
}

/// An amount of cents as money: `R$`, a space, and the amount with two decimal
/// places.
pub open spec fn currency_text(cents: nat) -> Seq<char> {
    seq!['R', '$', ' '] + fixed_text(cents, 2)
}

/// The number that a sequence of decimal digits denotes, most significant first.
pub open spec fn digits_value(ds: Seq<u8>) -> nat
    decreases ds.len(),
{
    if ds.len() == 0 {
        0
    } else {
        10 * digits_value(ds.drop_last()) + ds.last() as nat
    }
}

/// Every element is a decimal digit.
pub open spec fn all_digits(ds: Seq<u8>) -> bool {
    forall|i: int| 0 <= i < ds.len() ==> #[trigger] ds[i] < 10
}

/// The characters of a sequence of digits, leading zeros included.
pub open spec fn digits_text(ds: Seq<u8>) -> Seq<char> {
    Seq::new(ds.len(), |i: int| digit_char(ds[i] as int))
}

/// Appending one digit multiplies by ten and adds it.
pub proof fn lemma_value_push(ds: Seq<u8>, d: u8)
    ensures
        digits_value(ds.push(d)) == 10 * digits_value(ds) + d as nat,
{
    assert(ds.push(d).drop_last() =~= ds);
}

/// A run of zeros denotes zero.
pub proof fn lemma_value_zeros(zeros: Seq<u8>)
    requires
        forall|i: int| 0 <= i < zeros.len() ==> zeros[i] == 0,
    ensures
        digits_value(zeros) == 0,
    decreases zeros.len(),
{
    if zeros.len() > 0 {
        lemma_value_zeros(zeros.drop_last());
    }
}

/// Cutting the last `places` digits off divides by the matching power of ten,
/// and the digits cut off are the fraction text.
pub proof fn lemma_split_places(ds: Seq<u8>, places: nat)
    requires
        all_digits(ds),
        places <= ds.len(),
    ensures
        digits_value(ds.subrange(0, ds.len() - places)) == digits_value(ds) / pow10(places),
        digits_text(ds.subrange(ds.len() - places, ds.len() as int)) == fraction_text(
            digits_value(ds),
            places,
        ),
    decreases places,
{
    let n = ds.len() as int;
    if places == 0 {
        assert(ds.subrange(0, n) =~= ds);
        assert(digits_text(ds.subrange(n, n)) =~= Seq::<char>::empty());
        assert(pow10(0) == 1);
    } else {
        let head = ds.drop_last();
        let p = (places - 1) as nat;
        lemma_split_places(head, p);
        assert(head.subrange(0, head.len() - p) =~= ds.subrange(0, n - places));
        lemma_pow10_positive(p);
        vstd::arithmetic::div_mod::lemma_div_denominator(
            digits_value(ds) as int,
            10,
            pow10(p) as int,
        );
        assert(pow10(places) == 10 * pow10(p));
        assert(digits_text(ds.subrange(n - places, n)) =~= digits_text(
            head.subrange(head.len() - p, head.len() as int),
        ).push(digit_char(ds.last() as int)));
    }
}

/// Powers of ten are positive.
pub proof fn lemma_pow10_positive(e: nat)
    ensures
        pow10(e) > 0,
    decreases e,
{
    if e > 0 {
        lemma_pow10_positive((e - 1) as nat);
    }
}

/// The one-character text of a decimal digit.
pub(crate) fn digit_str(d: u8) -> (r: &'static str)
    requires
        d < 10,
    ensures
        r@ == seq![digit_char(d as int)],
{
    proof {
        reveal_strlit("0");
        reveal_strlit("1");
        reveal_strlit("2");
        reveal_strlit("3");
        reveal_strlit("4");
        reveal_strlit("5");
        reveal_strlit("6");
        reveal_strlit("7");
        reveal_strlit("8");
        reveal_strlit("9");
    }
    let r = if d == 0 {
        "0"
    } else if d == 1 {
        "1"
    } else if d == 2 {
        "2"
    } else if d == 3 {
        "3"
    } else if d == 4 {
        "4"
    } else if d == 5 {
        "5"
    } else if d == 6 {
        "6"
    } else if d == 7 {
        "7"
    } else if d == 8 {
        "8"
    } else {
        "9"
    };
    assert(r@ =~= seq![digit_char(d as int)]);
    r
}

/// Appends the digits of `n`, most significant first, at least one.
/// Behind digits that denote zero, the whole then denotes `n`.
pub(crate) fn push_digits(n: u128, out: &mut Vec<u8>)
    requires
        all_digits(old(out)@),
    ensures
        all_digits(final(out)@),
        final(out)@.len() > old(out)@.len(),
        final(out)@.subrange(0, old(out)@.len() as int) == old(out)@,
        digits_value(old(out)@) == 0 ==> digits_value(final(out)@) == n,
    decreases n,
{
    let ghost before = out@;
    if n >= 10 {
        push_digits(n / 10, out);
    }
    let ghost mid = out@;
    let last: u8 = (n % 10) as u8;
    out.push(last);
    proof {
        lemma_value_push(mid, last);
        assert(out@.subrange(0, before.len() as int) =~= mid.subrange(0, before.len() as int));
    }
}

/// Adds one to the number that the digits denote, growing by a digit where
/// every digit was nine.
pub(crate) fn increment(ds: &mut Vec<u8>)
    requires
        all_digits(old(ds)@),
    ensures
        all_digits(final(ds)@),
        digits_value(final(ds)@) == digits_value(old(ds)@) + 1,
        final(ds)@.len() >= old(ds)@.len(),
    decreases old(ds)@.len(),
{
    let ghost before = ds@;
    match ds.pop() {
        None => {
            ds.push(1);
            proof {
                lemma_value_push(Seq::<u8>::empty(), 1);
                assert(ds@ =~= Seq::<u8>::empty().push(1u8));
            }
        },
        Some(last) => {
            assert(ds@ =~= before.drop_last());
            assert(last == before.last());
            if last < 9 {
                ds.push(last + 1);
                proof {
                    lemma_value_push(before.drop_last(), (last + 1) as u8);
                }
            } else {
                increment(ds);
                let ghost mid = ds@;
                ds.push(0);
                proof {
                    lemma_value_push(mid, 0);
                }
            }
        },
    }
}

/// The text of the number that `ds` denotes, with a decimal point before its
/// last `places` digits.
pub(crate) fn render_fixed(ds: &Vec<u8>, places: usize) -> (r: String)
    requires
        all_digits(ds@),
        places < ds@.len(),
    ensures
        r@ == fixed_text(digits_value(ds@), places as nat),
{
    let cut: usize = ds.len() - places;
    let mut out = String::new();
    let mut started = false;
    let mut i: usize = 0;
    while i < cut
        invariant
            i <= cut <= ds@.len(),
            all_digits(ds@),
            started == (digits_value(ds@.subrange(0, i as int)) != 0),
            out@ == if started {
                decimal_text(digits_value(ds@.subrange(0, i as int)))
            } else {
                Seq::<char>::empty()
            },
        decreases cut - i,
    {
        let d: u8 = ds[i];
        proof {
            lemma_value_push(ds@.subrange(0, i as int), d);
            assert(ds@.subrange(0, i + 1) =~= ds@.subrange(0, i as int).push(d));
        }
        if started || d != 0 {
            out.append(digit_str(d));
            started = true;
        }
        i += 1;
    }
    if !started {
        out.append(digit_str(0));
    }
    let ghost whole = out@;
    assert(whole == decimal_text(digits_value(ds@.subrange(0, cut as int))));
    if places > 0 {
        proof {
            reveal_strlit(".");
        }
        out.append(".");
        let mut j: usize = cut;
        while j < ds.len()
            invariant
                cut <= j <= ds@.len(),
                all_digits(ds@),
                out@ == whole + seq!['.'] + digits_text(ds@.subrange(cut as int, j as int)),
            decreases ds@.len() - j,
        {
            let d: u8 = ds[j];
            out.append(digit_str(d));
            proof {
                assert(digits_text(ds@.subrange(cut as int, j + 1)) =~= digits_text(
                    ds@.subrange(cut as int, j as int),
                ) + seq![digit_char(d as int)]);
            }
            j += 1;
        }
        assert(ds@.subrange(cut as int, ds@.len() as int) == ds@.subrange(
            ds@.len() - places,
            ds@.len() as int,
        ));
    } else {
        assert(ds@.subrange(0, cut as int) =~= ds@);
    }
    proof {
        lemma_split_places(ds@, places as nat);
    }
    out
}

/// The text of `n` with a decimal point before its last `places` digits.
pub fn fixed_string(n: u128, places: u8) -> (r: String)
    ensures
        r@ == fixed_text(n as nat, places as nat),
{
    let mut ds: Vec<u8> = Vec::new();
    let mut k: u8 = 0;
    while k < places
        invariant
            k <= places,
            ds@.len() == k,
            forall|i: int| 0 <= i < ds@.len() ==> ds@[i] == 0,
        decreases places - k,
    {
        ds.push(0);
        k += 1;
    }
    proof {
        lemma_value_zeros(ds@);
    }
    push_digits(n, &mut ds);
    render_fixed(&ds, places as usize)
}

/// The decimal numeral of `n`.
pub fn decimal_string(n: u128) -> (r: String)
    ensures
        r@ == decimal_text(n as nat),
{
    fixed_string(n, 0)
}

/// An amount of cents as money, such as `R$ 175.00`.
pub fn currency_string(cents: u128) -> (r: String)
    ensures
        r@ == currency_text(cents as nat),
{
    proof {
        reveal_strlit("R$ ");
    }
    let mut out = String::from_str("R$ ");
    let amount = fixed_string(cents, 2);
    out.append(amount.as_str());
    assert(out@ =~= currency_text(cents as nat));
    out
}

} // verus!
