use vstd::prelude::*;
use vstd::string::StringExecFns;
use vstd::arithmetic::power::pow;

verus! {

/// The decimal digit character of `d`, for `d < 10`.
pub open spec fn digit_char(d: nat) -> char {
    if d == 0 { '0' }
    else if d == 1 { '1' }
    else if d == 2 { '2' }
    else if d == 3 { '3' }
    else if d == 4 { '4' }
    else if d == 5 { '5' }
    else if d == 6 { '6' }
    else if d == 7 { '7' }
    else if d == 8 { '8' }
    else { '9' }
}

/// The decimal representation of `n`, without leading zeros.
pub open spec fn decimal(n: nat) -> Seq<char>
    decreases n,
{
    if n < 10 {
        seq![digit_char(n)]
    } else {
        decimal(n / 10).push(digit_char(n % 10))
    }
}

/// `s` preceded by as many `'0'` as it takes to reach `width` characters.
pub open spec fn zero_padded(s: Seq<char>, width: nat) -> Seq<char> {
    if s.len() < width {
        Seq::new((width - s.len()) as nat, |i: int| '0') + s
    } else {
        s
    }
}

/// The width that row indices are padded to for a row of `count`
/// assignments: one more than the number of decimal digits of `count`,
/// counting zero as one.
pub open spec fn index_width(count: nat) -> nat {
    decimal(if count == 0 { 1 } else { count }).len() + 1
}

fn digit_str(d: u128) -> (r: &'static str)
    requires
        d < 10,
    ensures
        r@ == seq![digit_char(d as nat)],
{
    proof {
        reveal_strlit("0");
        reveal_strlit("1");
        reveal_strlit("2");
        reveal_strlit("3");
        reveal_strlit("4");
        reveal_strlit("5");
        reveal_strlit("6");
        reveal_strlit("7");
        reveal_strlit("8");
        reveal_strlit("9");
    }
    if d == 0 { "0" }
    else if d == 1 { "1" }
    else if d == 2 { "2" }
    else if d == 3 { "3" }
    else if d == 4 { "4" }
    else if d == 5 { "5" }
    else if d == 6 { "6" }
    else if d == 7 { "7" }
    else if d == 8 { "8" }
    else { "9" }
}

/// Appends the decimal representation of `n`.
pub fn push_decimal(s: &mut String, n: u128)
    ensures
        final(s)@ == old(s)@ + decimal(n as nat),
    decreases n,
{
    if n >= 10 {
        push_decimal(s, n / 10);
    }
    s.append(digit_str(n % 10));
    proof {
        if n >= 10 {
            assert(decimal(n as nat) == decimal((n / 10) as nat).push(digit_char((n % 10) as nat)));
        }
    }
    assert(s@ =~= old(s)@ + decimal(n as nat));
}

/// The number of decimal digits of `n`.
pub fn decimal_len(n: u128) -> (r: usize)
    ensures
        r == decimal(n as nat).len(),
    decreases n,
{
    if n < 10 {
        1
    } else {
        let k = decimal_len(n / 10);
        proof {
            lemma_decimal_len_bound(n / 10);
        }
        k + 1
    }
}

/// A number below 10^k, for k at least 1, has at most k digits.
proof fn lemma_decimal_len_below(n: nat, k: nat)
    requires
        k >= 1,
        n < pow(10, k),
    ensures
        decimal(n).len() <= k,
    decreases k,
{
    if n >= 10 {
        let p = pow(10, (k - 1) as nat);
        reveal(pow);
        assert(pow(10, k) == 10 * p);
        if k == 1 {
            assert(p == 1);
        }
        assert(n / 10 < p) by (nonlinear_arith)
            requires
                n < 10 * p,
        ;
        lemma_decimal_len_below(n / 10, (k - 1) as nat);
    }
}

/// A `u128` has at most 39 decimal digits.
proof fn lemma_decimal_len_bound(n: u128)
    ensures
        decimal(n as nat).len() <= 39,
{
    assert(pow(10, 39) > u128::MAX) by {
        reveal_with_fuel(pow, 40);
    }
    lemma_decimal_len_below(n as nat, 39);
}

/// Appends `n` in decimal, preceded by zeros up to `width` characters.
pub fn push_zero_padded(s: &mut String, n: u128, width: usize)
    ensures
        final(s)@ == old(s)@ + zero_padded(decimal(n as nat), width as nat),
{
    let len = decimal_len(n);
    let mut k: usize = len;
    let ghost start = s@;
    while k < width
        invariant
            len == decimal(n as nat).len(),
            len <= k,
            k <= width || len >= width,
            len >= width ==> k == len,
            s@ == start + Seq::new((k - len) as nat, |i: int| '0'),
        decreases width - k,
    {
        proof {
            reveal_strlit("0");
        }
        s.append("0");
        k = k + 1;
        assert(s@ =~= start + Seq::new((k - len) as nat, |i: int| '0'));
    }
    let ghost zeros = s@;
    push_decimal(s, n);
    assert(s@ == zeros + decimal(n as nat));
    if len < width {
        assert(k == width);
        assert(s@ =~= start + (Seq::new((width - len) as nat, |i: int| '0') + decimal(n as nat)));
    } else {
        assert(s@ =~= start + decimal(n as nat));
    }
}

/// The width that row indices are padded to for a row of `count`
/// assignments.
pub fn index_width_of(count: usize) -> (r: usize)
    ensures
        r == index_width(count as nat),
{
    let n: u128 = if count == 0 { 1 } else { count as u128 };
    proof {
        lemma_decimal_len_bound(n);
    }
    decimal_len(n) + 1
}

} // verus!
