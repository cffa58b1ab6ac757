//! Numbers written in decimal.

use vstd::prelude::*;

verus! {

broadcast use vstd::string::group_string_axioms;

/// The character of a decimal digit.
pub open spec fn digit(d: nat) -> char {
    (48 + d) as char
}

/// A number in decimal, without leading zeros.
pub open spec fn decimal(n: nat) -> Seq<char>
    decreases n,
{
    if n < 10 {
        seq![digit(n)]
    } else {
        decimal(n / 10).push(digit(n % 10))
    }
}

/// A number in decimal, with zeros in front where it is shorter than `width`.
pub open spec fn padded(n: nat, width: nat) -> Seq<char> {
    let s = decimal(n);
    if s.len() >= width {
        s
    } else {
        Seq::new((width - s.len()) as nat, |i: int| '0') + s
    }
}

/// The number that a row of decimal digits stands for.
pub open spec fn value(s: Seq<char>) -> int
    decreases s.len(),
{
    if s.len() == 0 {
        0
    } else {
        10 * value(s.drop_last()) + (s.last() as int - 48)
    }
}

/// Writes a number in decimal.
pub fn to_decimal(n: u64) -> (r: String)
    ensures
        r@ == decimal(n as nat),
    decreases n,
{
    let mut out = if n < 10 {
        String::new()
    } else {
        to_decimal(n / 10)
    };
    out.push((48u8 + (n % 10) as u8) as char);
    proof {
        if n < 10 {
            assert(out@ =~= decimal(n as nat));
        }
    }
    out
}

/// Writes a number in decimal with at least four digits.
pub fn to_four_digits(n: u64) -> (r: String)
    ensures
        r@ == padded(n as nat, 4),
{
    let digits = to_decimal(n);
    let count: usize = digits.as_str().unicode_len();
    let mut out = String::new();
    let mut i: usize = count;
    proof {
        lemma_decimal_is_not_empty(n as nat);
    }
    while i < 4
        invariant
            count <= i,
            i <= 4 || i == count,
            out@ == Seq::new((i - count) as nat, |k: int| '0'),
        decreases 4 - i,
    {
        out.push('0');
        i += 1;
        proof {
            assert(out@ =~= Seq::new((i - count) as nat, |k: int| '0'));
        }
    }
    out.append(digits.as_str());
    proof {
        assert(out@ =~= padded(n as nat, 4));
    }
    out
}

proof fn lemma_decimal_is_not_empty(n: nat)
    ensures
        decimal(n).len() > 0,
    decreases n,
{
    if n >= 10 {
        lemma_decimal_is_not_empty(n / 10);
    }
}

/// A number in decimal stands for that number.
pub proof fn lemma_value_of_decimal(n: nat)
    ensures
        value(decimal(n)) == n,
    decreases n,
{
    let s = decimal(n);
    if n < 10 {
        assert(value(s.drop_last()) == 0);
    } else {
        lemma_value_of_decimal(n / 10);
        assert(s.drop_last() =~= decimal(n / 10));
        assert(s.last() == digit(n % 10));
    }
}

/// Zeros in front do not change the number.
pub proof fn lemma_value_of_padded(n: nat, width: nat)
    ensures
        value(padded(n, width)) == n,
{
    lemma_value_of_decimal(n);
    let s = decimal(n);
    if s.len() < width {
        lemma_leading_zeros((width - s.len()) as nat, s);
    }
}

proof fn lemma_leading_zeros(count: nat, s: Seq<char>)
    ensures
        value(Seq::new(count, |i: int| '0') + s) == value(s),
    decreases count + s.len(),
{
    let zeros = Seq::new(count, |i: int| '0');
    let t = zeros + s;
    if s.len() > 0 {
        lemma_leading_zeros(count, s.drop_last());
        assert(t.drop_last() =~= zeros + s.drop_last());
        assert(t.last() == s.last());
    } else if count > 0 {
        let fewer = Seq::new((count - 1) as nat, |i: int| '0');
        lemma_leading_zeros((count - 1) as nat, s);
        assert(t.drop_last() =~= fewer + s);
        assert(t.last() == '0');
    } else {
        assert(t =~= s);
    }
}

} // verus!
