//! A count of thousandths shown with one decimal, exactly as a binary64 division and a
//! `{:.1}` format show it, computed in integers.

use vstd::prelude::*;
use crate::text::{dec, digit_char, push_dec};
use vstd::arithmetic::power2::{
    lemma2_to64, lemma_pow2_adds, lemma_pow2_pos, lemma_pow2_strictly_increases, lemma_pow2_unfold, pow2,
};

verus! {

/// `a / b` rounded to the nearest integer, ties to the even one.
pub open spec fn rne(a: nat, b: nat) -> nat {
    let q = a / b;
    let r = a % b;
    if 2 * r > b || (2 * r == b && q % 2 == 1) {
        q + 1
    } else {
        q
    }
}

/// Number of binary digits.
pub open spec fn bit_len(n: nat) -> nat
    decreases n,
{
    if n == 0 {
        0
    } else {
        1 + bit_len(n / 2)
    }
}

/// The value of `n as f64`: `n` rounded to 53 significant bits, ties to even.
pub open spec fn f64_value(n: nat) -> nat {
    if bit_len(n) <= 53 {
        n
    } else {
        rne(n, pow2((bit_len(n) - 53) as nat)) * pow2((bit_len(n) - 53) as nat)
    }
}

/// Ten times the quotient `x / 1000` rounded to 53 significant bits, rounded to an
/// integer with ties to even: the digits `{:.1}` prints for that quotient.
pub open spec fn tenths_of_quotient(x: nat) -> nat {
    let l = bit_len(x / 1000);
    if l >= 53 {
        let t = (l - 53) as nat;
        10 * rne(x, 1000 * pow2(t)) * pow2(t)
    } else {
        let u = (53 - l) as nat;
        rne(10 * rne(x * pow2(u), 1000), pow2(u))
    }
}

/// `format!("{:.1}", n as f64 / 1000.0)`.
pub open spec fn one_decimal_text(n: nat) -> Seq<char> {
    let d = tenths_of_quotient(f64_value(n));
    dec(d / 10) + seq!['.', digit_char(d % 10)]
}

proof fn lemma_pow2_mono(a: nat, b: nat)
    requires
        a <= b,
    ensures
        pow2(a) <= pow2(b),
{
    if a < b {
        lemma_pow2_strictly_increases(a, b);
    }
}

/// `n` has `bit_len(n)` binary digits: below `2^len`, and from `2^(len-1)` on.
proof fn lemma_bit_len(n: nat)
    ensures
        n < pow2(bit_len(n)),
        n > 0 ==> pow2((bit_len(n) - 1) as nat) <= n,
    decreases n,
{
    lemma2_to64();
    if n > 0 {
        lemma_bit_len(n / 2);
        lemma_pow2_unfold(bit_len(n));
        lemma_pow2_pos(bit_len(n / 2));
        if n / 2 > 0 {
            lemma_pow2_unfold(bit_len(n / 2));
        }
    }
}

proof fn lemma_bit_len_bound(n: nat, e: nat)
    requires
        n < pow2(e),
    ensures
        bit_len(n) <= e,
{
    lemma_bit_len(n);
    if bit_len(n) > e {
        lemma_pow2_mono(e, (bit_len(n) - 1) as nat);
    }
}

proof fn lemma_rne_bound(a: nat, b: nat)
    requires
        b > 0,
    ensures
        rne(a, b) <= a / b + 1,
        rne(a, b) * b <= a + b,
{
    assert(a == b * (a / b) + a % b) by (nonlinear_arith)
        requires
            b > 0,
    ;
    assert((a / b + 1) * b == b * (a / b) + b) by (nonlinear_arith);
    assert((a / b) * b == b * (a / b)) by (nonlinear_arith);
}

/// `2^e`, for `e` up to 64.
fn pow2_u128(e: u32) -> (p: u128)
    requires
        e <= 64,
    ensures
        p == pow2(e as nat),
        p <= 0x1_0000_0000_0000_0000,
{
    proof {
        lemma2_to64();
    }
    let mut p: u128 = 1;
    let mut i: u32 = 0;
    while i < e
        invariant
            i <= e <= 64,
            p == pow2(i as nat),
            pow2(64) == 0x1_0000_0000_0000_0000,
            p <= 0x1_0000_0000_0000_0000,
        decreases e - i,
    {
        proof {
            lemma_pow2_unfold((i + 1) as nat);
            lemma_pow2_mono((i + 1) as nat, 64);
        }
        p = p * 2;
        i = i + 1;
    }
    p
}

fn bit_len_u64(n: u64) -> (l: u32)
    ensures
        l as nat == bit_len(n as nat),
        l <= 64,
{
    proof {
        lemma2_to64();
        lemma_bit_len_bound(n as nat, 64);
    }
    let mut x = n;
    let mut l: u32 = 0;
    while x > 0
        invariant
            bit_len(n as nat) == l + bit_len(x as nat),
            bit_len(n as nat) <= 64,
        decreases x,
    {
        x = x / 2;
        l = l + 1;
    }
    l
}

fn rne_u128(a: u128, b: u128) -> (r: u128)
    requires
        b > 0,
    ensures
        r == rne(a as nat, b as nat),
{
    let q = a / b;
    let r = a % b;
    assert(r < b);
    if r > b - r || (r == b - r && q % 2 == 1) {
        assert(b >= 2);
        assert(q <= a / 2) by (nonlinear_arith)
            requires
                b >= 2,
                q == a / b,
        ;
        q + 1
    } else {
        q
    }
}

/// The tenths `format!("{:.1}", n as f64 / 1000.0)` prints.
pub fn quotient_tenths(n: u64) -> (d: u64)
    ensures
        d == tenths_of_quotient(f64_value(n as nat)),
{
    proof {
        lemma2_to64();
    }
    let l = bit_len_u64(n);
    let f: u128 = if l <= 53 {
        n as u128
    } else {
        let k = l - 53;
        let p = pow2_u128(k);
        proof {
            lemma_pow2_mono(k as nat, 11);
            lemma_pow2_pos(k as nat);
            lemma_rne_bound(n as nat, p as nat);
        }
        let q = rne_u128(n as u128, p);
        assert(q * p <= n + p);
        q * p
    };
    assert(f == f64_value(n as nat));
    assert(f <= 0x1_0000_0000_0000_0000 + 2048);
    let m = f / 1000;
    assert(m <= u64::MAX);
    let lq = bit_len_u64(m as u64);
    if lq >= 53 {
        let t = lq - 53;
        let p = pow2_u128(t);
        proof {
            lemma_pow2_mono(t as nat, 11);
            lemma_pow2_pos(t as nat);
            lemma_rne_bound(f as nat, 1000 * p as nat);
        }
        let q = rne_u128(f, 1000 * p);
        assert(q * p <= f / 1000 + p) by (nonlinear_arith)
            requires
                q * (1000 * p) <= f + 1000 * p,
                p > 0,
        ;
        assert(10 * q * p == 10 * (q * p)) by (nonlinear_arith);
        (10 * q * p) as u64
    } else {
        let u = 53 - lq;
        let p = pow2_u128(u);
        proof {
            lemma_bit_len(m as nat);
            lemma_pow2_adds(lq as nat, u as nat);
            lemma_pow2_mono(53, 64);
            lemma_pow2_pos(u as nat);
            assert(f < 1000 * (m + 1)) by (nonlinear_arith)
                requires
                    m == f / 1000,
            ;
            assert(f * p < 1000 * pow2(53)) by (nonlinear_arith)
                requires
                    f < 1000 * (m + 1),
                    m + 1 <= pow2(lq as nat),
                    pow2(lq as nat) * p == pow2(53),
                    p > 0,
            ;
            lemma_rne_bound((f * p) as nat, 1000);
        }
        let q = rne_u128(f * p, 1000);
        proof {
            lemma_rne_bound((10 * q) as nat, p as nat);
            assert((10 * q as int) / (p as int) <= 10 * q) by (nonlinear_arith)
                requires
                    p > 0,
            ;
        }
        let d = rne_u128(10 * q, p);
        proof {
            lemma_pow2_adds(53, 11);
            assert(pow2(53) == 0x20_0000_0000_0000);
            assert(q <= pow2(53) + 1);
        }
        assert(d <= u64::MAX);
        d as u64
    }
}

/// Appends `format!("{:.1}", n as f64 / 1000.0)`.
pub fn push_one_decimal(out: &mut String, n: u64)
    ensures
        final(out)@ == old(out)@ + one_decimal_text(n as nat),
{
    let d = quotient_tenths(n);
    push_dec(out, d / 10);
    crate::text::push_char(out, '.');
    let c = crate::text::digit(d % 10);
    crate::text::push_char(out, c);
    assert(final(out)@ =~= old(out)@ + one_decimal_text(n as nat));
}

} // verus!
