use vstd::prelude::*;

use crate::text::push_char;

verus! {

/// The number of unit steps: bytes, then KiB, MiB, GiB and TiB.
pub const UNIT_STEPS: u64 = 4;

pub open spec fn pow1024(d: nat) -> nat
    decreases d,
{
    if d == 0 {
        1
    } else {
        1024 * pow1024((d - 1) as nat)
    }
}

/// The unit, counted from bytes, that `v` bytes are shown in: the value
/// is divided by 1024 while it exceeds 999, up to tebibytes.
pub open spec fn unit_of(v: nat, d: nat) -> nat
    decreases UNIT_STEPS - d,
{
    if d < UNIT_STEPS && v / pow1024(d) > 999 {
        unit_of(v, d + 1)
    } else {
        d
    }
}

pub open spec fn digit_char(d: nat) -> char {
    if d == 0 {
        '0'
    } else if d == 1 {
        '1'
    } else if d == 2 {
        '2'
    } else if d == 3 {
        '3'
    } else if d == 4 {
        '4'
    } else if d == 5 {
        '5'
    } else if d == 6 {
        '6'
    } else if d == 7 {
        '7'
    } else if d == 8 {
        '8'
    } else {
        '9'
    }
}

/// `n` written in decimal.
pub open spec fn decimal(n: nat) -> Seq<char>
    decreases n,
{
    if n < 10 {
        seq![digit_char(n)]
    } else {
        decimal(n / 10).push(digit_char(n % 10))
    }
}

pub open spec fn unit_suffix(d: nat) -> Seq<char> {
    if d == 0 {
        seq![' ', 'B']
    } else if d == 1 {
        seq![' ', 'K', 'i', 'B']
    } else if d == 2 {
        seq![' ', 'M', 'i', 'B']
    } else if d == 3 {
        seq![' ', 'G', 'i', 'B']
    } else {
        seq![' ', 'T', 'i', 'B']
    }
}

/// `v` bytes for a reader: the whole number of units, at least 1, and for
/// fewer than ten units a tenth digit when it is not zero.
pub open spec fn humanized(v: nat) -> Seq<char> {
    let d = unit_of(v, 0);
    let p = pow1024(d);
    let w = v / p;
    let tenth = (v % p) * 10 / p;
    if w == 0 {
        seq!['1'] + unit_suffix(d)
    } else if w < 10 && tenth >= 1 {
        decimal(w) + seq!['.'] + seq![digit_char(tenth)] + unit_suffix(d)
    } else {
        decimal(w) + unit_suffix(d)
    }
}

fn digit_of(d: u64) -> (r: char)
    requires
        d < 10,
    ensures
        r == digit_char(d as nat),
{
    if d == 0 {
        '0'
    } else if d == 1 {
        '1'
    } else if d == 2 {
        '2'
    } else if d == 3 {
        '3'
    } else if d == 4 {
        '4'
    } else if d == 5 {
        '5'
    } else if d == 6 {
        '6'
    } else if d == 7 {
        '7'
    } else if d == 8 {
        '8'
    } else {
        '9'
    }
}

fn push_all(s: &mut String, cs: &Vec<char>)
    ensures
        final(s)@ == old(s)@ + cs@,
{
    let mut i: usize = 0;
    while i < cs.len()
        invariant
            0 <= i <= cs@.len(),
            s@ == old(s)@ + cs@.take(i as int),
        decreases cs@.len() - i,
    {
        push_char(s, cs[i]);
        proof {
            assert(cs@.take(i + 1) =~= cs@.take(i as int).push(cs@[i as int]));
        }
        i = i + 1;
    }
    proof {
        assert(cs@.take(cs@.len() as int) =~= cs@);
    }
}

/// Appends `n` in decimal to `s`.
fn push_decimal(s: &mut String, n: u64)
    ensures
        final(s)@ == old(s)@ + decimal(n as nat),
{
    let mut buf: Vec<char> = Vec::new();
    let mut m = n;
    while m >= 10
        invariant
            decimal(n as nat) == decimal(m as nat) + buf@,
        decreases m,
    {
        let ghost old_buf = buf@;
        buf.insert(0, digit_of(m % 10));
        proof {
            assert(buf@ =~= seq![digit_char((m % 10) as nat)] + old_buf);
            assert(decimal(m as nat) == decimal((m / 10) as nat).push(digit_char((m % 10) as nat)));
            assert(decimal(m as nat) + old_buf =~= decimal((m / 10) as nat) + buf@);
        }
        m = m / 10;
    }
    let ghost old_buf = buf@;
    buf.insert(0, digit_of(m));
    proof {
        assert(buf@ =~= decimal(m as nat) + old_buf);
    }
    push_all(s, &buf);
}

fn push_suffix(s: &mut String, d: u64)
    requires
        d <= UNIT_STEPS,
    ensures
        final(s)@ == old(s)@ + unit_suffix(d as nat),
{
    let ghost start = s@;
    push_char(s, ' ');
    if d == 0 {
        push_char(s, 'B');
    } else {
        if d == 1 {
            push_char(s, 'K');
        } else if d == 2 {
            push_char(s, 'M');
        } else if d == 3 {
            push_char(s, 'G');
        } else {
            push_char(s, 'T');
        }
        push_char(s, 'i');
        push_char(s, 'B');
    }
    assert(s@ =~= start + unit_suffix(d as nat));
}

/// `value` bytes in a short form for display: `"1 B"`, `"1.5 KiB"`,
/// `"2 MiB"`, up to tebibytes.
pub fn humanize(value: u64) -> (r: String)
    ensures
        r@ == humanized(value as nat),
{
    let mut d: u64 = 0;
    let mut p: u64 = 1;
    while d < UNIT_STEPS && value / p > 999
        invariant
            0 <= d <= UNIT_STEPS,
            p == pow1024(d as nat),
            1 <= p <= 1099511627776,
            unit_of(value as nat, d as nat) == unit_of(value as nat, 0),
        decreases UNIT_STEPS - d,
    {
        proof {
            assert(pow1024((d + 1) as nat) == 1024 * pow1024(d as nat));
            assert(p <= 1073741824) by {
                if d == 0 {
                } else if d == 1 {
                    assert(pow1024(1) == 1024) by {
                        reveal_with_fuel(pow1024, 2);
                    }
                } else if d == 2 {
                    assert(pow1024(2) == 1048576) by {
                        reveal_with_fuel(pow1024, 3);
                    }
                } else {
                    assert(pow1024(3) == 1073741824) by {
                        reveal_with_fuel(pow1024, 4);
                    }
                }
            }
        }
        d = d + 1;
        p = p * 1024;
    }
    proof {
        assert(unit_of(value as nat, d as nat) == d);
        assert(p > 0) by {
            assert(p >= 1) by {
                lemma_pow1024_positive(d as nat);
            }
        }
    }
    let w = value / p;
    let rem = value % p;
    proof {
        assert(rem < p);
        assert((rem as int * 10) / (p as int) < 10) by (nonlinear_arith)
            requires
                rem < p,
                p > 0,
        ;
    }
    let tenth = rem * 10 / p;
    let mut r = String::new();
    if w == 0 {
        push_char(&mut r, '1');
    } else {
        push_decimal(&mut r, w);
        if w < 10 && tenth >= 1 {
            push_char(&mut r, '.');
            push_char(&mut r, digit_of(tenth));
        }
    }
    push_suffix(&mut r, d);
    r
}

proof fn lemma_pow1024_positive(d: nat)
    ensures
        pow1024(d) >= 1,
    decreases d,
{
    if d > 0 {
        lemma_pow1024_positive((d - 1) as nat);
    }
}

/// The shown number is never zero: a value under one unit is shown as 1.
pub proof fn lemma_never_zero(v: nat)
    ensures
        humanized(v)[0] != '0',
{
    let d = unit_of(v, 0);
    let p = pow1024(d);
    lemma_pow1024_positive(d);
    let w = v / p;
    if w != 0 {
        lemma_decimal_leading(w);
    }
}

proof fn lemma_decimal_leading(n: nat)
    requires
        n > 0,
    ensures
        decimal(n).len() >= 1,
        decimal(n)[0] != '0',
    decreases n,
{
    if n >= 10 {
        lemma_decimal_leading(n / 10);
    }
}

/// A value of exactly one unit, 1024 to the power `k`, is shown as `1` of
/// that unit, without a tenth.
pub proof fn lemma_unit_boundary(k: nat)
    requires
        1 <= k <= UNIT_STEPS,
    ensures
        humanized(pow1024(k)) == seq!['1'] + unit_suffix(k),
{
    reveal_with_fuel(pow1024, 5);
    let v = pow1024(k);
    assert(pow1024(0) == 1 && pow1024(1) == 1024 && pow1024(2) == 1048576 && pow1024(3)
        == 1073741824 && pow1024(4) == 1099511627776);
    reveal_with_fuel(unit_of, 5);
    assert(unit_of(v, 0) == k);
    assert(decimal(1) == seq!['1']);
}

} // verus!
