//! The tenths a one-decimal rendering of a quotient shows when the quotient
//! is first taken as the nearest 53-bit binary value, as the summary's
//! sizes and durations are: an exact tie between two tenths then goes the
//! way that binary value lies, and only a tie the binary value keeps goes
//! to the even tenth.

use vstd::prelude::*;
use vstd::arithmetic::power2::{lemma2_to64, lemma_pow2_adds, lemma_pow2_pos, lemma_pow2_unfold, pow2};

verus! {

/// `num / den` rounded to the nearest whole number, a tie going to the even
/// one.
pub open spec fn round_half_even(num: nat, den: nat) -> nat {
    let q = num / den;
    let r = num % den;
    if r * 2 > den || (r * 2 == den && q % 2 == 1) {
        q + 1
    } else {
        q
    }
}

/// The least `e` from `from` up (stopping at 128) at which `num * 2^e`
/// reaches `den * 2^52`: where the quotient's 53 significant bits begin.
pub open spec fn scale_from(num: nat, den: nat, e: nat) -> nat
    decreases 128 - e,
{
    if e >= 128 || num * pow2(e) >= den * pow2(52) {
        e
    } else {
        scale_from(num, den, e + 1)
    }
}

/// The binary value nearest `num / den` (a quotient at least `2^-64` and
/// below `2^53`), as a significand `m` and an exponent `e` for `m / 2^e`:
/// 53 significant bits, a tie going to the even significand.
pub open spec fn nearest(num: nat, den: nat) -> (nat, nat) {
    let e = scale_from(num, den, 0);
    (round_half_even(num * pow2(e), den), e)
}

/// The least `k` from `from` up (stopping at 80) with `n < 2^(53 + k)`.
pub open spec fn excess_from(n: nat, k: nat) -> nat
    decreases 80 - k,
{
    if k >= 80 || n < pow2(53 + k) {
        k
    } else {
        excess_from(n, k + 1)
    }
}

/// The whole number `n` as the nearest binary value: itself below `2^53`,
/// else rounded to 53 significant bits, a tie going to the even one.
pub open spec fn nearest_whole(n: nat) -> nat {
    let k = excess_from(n, 0);
    round_half_even(n, pow2(k)) * pow2(k)
}

/// The tenths of `m / 2^e`, rounded to the nearest, a tie going to the even
/// tenth.
pub open spec fn tenths_of(m: nat, e: nat) -> nat {
    round_half_even(10 * m, pow2(e))
}

/// The tenths of `num / den` shown after taking the nearest binary value.
pub open spec fn quotient_tenths(num: nat, den: nat) -> nat {
    tenths_of(nearest(num, den).0, nearest(num, den).1)
}

/// The tenths of `secs + sub / 10^9` (`sub` below `10^9`) shown after
/// taking the nearest binary value of `sub / 10^9` and then of the sum, as
/// a duration's seconds are formed.
pub open spec fn seconds_tenths(secs: nat, sub: nat) -> nat {
    if secs >= pow2(53) {
        10 * nearest_whole(secs)
    } else if sub == 0 {
        10 * secs
    } else {
        let f = nearest(sub, 1_000_000_000);
        let g = scale_from(secs, 1, 0);
        tenths_of(round_half_even(secs * pow2(f.1) + f.0, pow2((f.1 - g) as nat)), g)
    }
}

proof fn lemma_pow2_bound(e: nat)
    requires
        e <= 82,
    ensures
        0 < pow2(e) <= 0x4_0000_0000_0000_0000_0000,
{
    lemma2_to64();
    lemma_pow2_adds(64, 18);
    lemma_pow2_pos(e);
    if e < 82 {
        vstd::arithmetic::power2::lemma_pow2_strictly_increases(e, 82);
    }
}

// ─── Exec ───────────────────────────────────────────────────────────────────

/// `2^e`.
fn pow2_exec(e: u32) -> (p: u128)
    requires
        e < 127,
    ensures
        p == pow2(e as nat),
{
    let mut p: u128 = 1;
    let mut i: u32 = 0;
    proof {
        lemma2_to64();
    }
    while i < e
        invariant
            i <= e < 127,
            p == pow2(i as nat),
        decreases e - i,
    {
        proof {
            lemma_pow2_unfold((i + 1) as nat);
            vstd::arithmetic::power2::lemma_pow2_strictly_increases((i + 1) as nat, 127);
            lemma_pow2_pos(127);
            assert(pow2(127) < 0x1_0000_0000_0000_0000_0000_0000_0000_0000) by {
                lemma_pow2_adds(64, 63);
                lemma2_to64();
                vstd::arithmetic::power2::lemma2_to64_rest();
                lemma_pow2_unfold(64);
            }
        }
        p = p * 2;
        i += 1;
    }
    p
}

/// `num / den` rounded half to even.
fn round_half_even_exec(num: u128, den: u128) -> (r: u128)
    requires
        0 < den < 0x4000_0000_0000_0000_0000_0000_0000_0000,
        num < u128::MAX,
    ensures
        r == round_half_even(num as nat, den as nat),
{
    let q = num / den;
    let r = num % den;
    if r * 2 > den || (r * 2 == den && q % 2 == 1) {
        q + 1
    } else {
        q
    }
}

/// Where the 53 significant bits of `num / den` begin, and `num * 2^e`.
fn scale_exec(num: u128, den: u128) -> (r: (u32, u128))
    requires
        0 < num,
        0 < den <= 1_000_000_000,
        num < den * 0x20_0000_0000_0000,
    ensures
        r.0 == scale_from(num as nat, den as nat, 0),
        r.1 == num * pow2(r.0 as nat),
        r.0 <= 82,
        r.1 < den * 0x20_0000_0000_0000,
        r.1 >= den * 0x10_0000_0000_0000,
{
    proof {
        lemma2_to64();
        vstd::arithmetic::power2::lemma2_to64_rest();
    }
    let target: u128 = den * 0x10_0000_0000_0000;
    let mut e: u32 = 0;
    let mut scaled: u128 = num;
    while scaled < target
        invariant
            target == den * pow2(52),
            pow2(52) == 0x10_0000_0000_0000,
            0 < num,
            0 < den <= 1_000_000_000,
            0 < scaled,
            scaled == num * pow2(e as nat),
            scaled < den * 0x20_0000_0000_0000,
            scale_from(num as nat, den as nat, 0) == scale_from(num as nat, den as nat, e as nat),
            e <= 82,
        decreases 82 - e,
    {
        proof {
            lemma2_to64();
            lemma_pow2_unfold((e + 1) as nat);
            assert(num * pow2((e + 1) as nat) == 2 * (num * pow2(e as nat))) by (nonlinear_arith)
                requires
                    pow2((e + 1) as nat) == 2 * pow2(e as nat),
            ;
            if e >= 82 {
                lemma_pow2_adds(64, 18);
                if e > 82 {
                    vstd::arithmetic::power2::lemma_pow2_strictly_increases(82, e as nat);
                }
                assert(pow2(82) == 0x4_0000_0000_0000_0000_0000);
                assert(num * pow2(e as nat) >= pow2(e as nat)) by (nonlinear_arith)
                    requires
                        num >= 1,
                ;
                assert(false);
            }
        }
        scaled = scaled * 2;
        e = e + 1;
    }
    (e, scaled)
}

/// The nearest binary value of `num / den`.
fn nearest_exec(num: u128, den: u128) -> (r: (u128, u32))
    requires
        0 < num,
        0 < den <= 1_000_000_000,
        num < den * 0x20_0000_0000_0000,
    ensures
        (r.0 as nat, r.1 as nat) == nearest(num as nat, den as nat),
        r.0 <= 0x20_0000_0000_0000,
        r.1 <= 82,
{
    let (e, scaled) = scale_exec(num, den);
    let m = round_half_even_exec(scaled, den);
    proof {
        let q = scaled as nat / den as nat;
        assert(q < 0x20_0000_0000_0000) by (nonlinear_arith)
            requires
                scaled < den * 0x20_0000_0000_0000,
                den > 0,
                q == scaled as nat / den as nat,
        ;
    }
    (m, e)
}

/// The whole number `n` as the nearest binary value.
pub fn nearest_whole_exec(n: u128) -> (r: u128)
    requires
        n <= u64::MAX,
    ensures
        r == nearest_whole(n as nat),
        r <= n + 0x1000,
        r + 0x1000 >= n,
{
    proof {
        lemma2_to64();
        vstd::arithmetic::power2::lemma2_to64_rest();
    }
    let mut k: u32 = 0;
    let mut bound: u128 = 0x20_0000_0000_0000;
    proof {
        assert(bound == pow2(53)) by {
            lemma_pow2_adds(32, 21);
        }
    }
    while n >= bound
        invariant
            n <= u64::MAX,
            bound == pow2((53 + k) as nat),
            k <= 11,
            excess_from(n as nat, 0) == excess_from(n as nat, k as nat),
        decreases 11 - k,
    {
        proof {
            lemma2_to64();
            if k >= 11 {
                assert(pow2(64) == 0x1_0000_0000_0000_0000);
                assert(false);
            }
            lemma_pow2_unfold((53 + k + 1) as nat);
        }
        bound = bound * 2;
        k = k + 1;
    }
    let p = pow2_exec(k);
    let q = round_half_even_exec(n, p);
    proof {
        lemma_pow2_pos(k as nat);
        vstd::arithmetic::power2::lemma_pow2_strictly_increases(k as nat, 12);
        assert(pow2(12) == 0x1000);
        let qq = n as nat / p as nat;
        assert(qq <= n) by (nonlinear_arith)
            requires
                p >= 1,
                qq == n as nat / p as nat,
        ;
        vstd::arithmetic::div_mod::lemma_fundamental_div_mod(n as int, p as int);
        assert(q <= qq + 1);
        assert(q as nat * p as nat <= n as nat + p as nat) by (nonlinear_arith)
            requires
                q <= qq + 1,
                n as int == p as int * qq + (n as int % p as int),
                n as int % p as int >= 0,
                p > 0,
        ;
        assert(q >= qq);
        assert(q as nat * p as nat + p as nat >= n as nat) by (nonlinear_arith)
            requires
                q >= qq,
                n as int == p as int * qq + (n as int % p as int),
                (n as int % p as int) < (p as int),
                p > 0,
        ;
    }
    q * p
}


/// The tenths of `num / den` shown after taking its nearest binary value.
pub fn quotient_tenths_exec(num: u128, den: u128) -> (t: u128)
    requires
        0 < num,
        0 < den <= 1_000_000_000,
        num < den * 0x20_0000_0000_0000,
    ensures
        t == quotient_tenths(num as nat, den as nat),
{
    let (m, e) = nearest_exec(num, den);
    let p = pow2_exec(e);
    proof {
        lemma_pow2_bound(e as nat);
    }
    round_half_even_exec(10 * m, p)
}

/// The tenths of a duration's `secs + sub / 10^9`, as [`seconds_tenths`].
pub fn seconds_tenths_exec(secs: u128, sub: u128) -> (t: u128)
    requires
        1 <= secs <= u64::MAX,
        sub < 1_000_000_000,
    ensures
        t == seconds_tenths(secs as nat, sub as nat),
{
    proof {
        lemma2_to64();
        vstd::arithmetic::power2::lemma2_to64_rest();
        lemma_pow2_adds(32, 21);
    }
    if secs >= 0x20_0000_0000_0000 {
        return 10 * nearest_whole_exec(secs);
    }
    if sub == 0 {
        return 10 * secs;
    }
    let (e1, scaled_sub) = scale_exec(sub, 1_000_000_000);
    let m1 = round_half_even_exec(scaled_sub, 1_000_000_000);
    let (g, scaled_secs) = scale_exec(secs, 1);
    proof {
        // The fraction's significand starts past bit 52, the seconds' at or before it.
        if e1 <= 52 {
            if e1 < 52 {
                vstd::arithmetic::power2::lemma_pow2_strictly_increases(e1 as nat, 52);
            }
            lemma_pow2_pos(e1 as nat);
            assert(sub * pow2(e1 as nat) < 1_000_000_000 * pow2(52)) by (nonlinear_arith)
                requires
                    sub < 1_000_000_000,
                    pow2(e1 as nat) <= pow2(52),
                    pow2(e1 as nat) > 0,
            ;
            assert(false);
        }
        if g >= 53 {
            if g > 53 {
                vstd::arithmetic::power2::lemma_pow2_strictly_increases(53, g as nat);
            }
            assert(secs * pow2(g as nat) >= pow2(53)) by (nonlinear_arith)
                requires
                    secs >= 1,
                    pow2(g as nat) >= pow2(53),
            ;
        }
        let q = scaled_sub as nat / 1_000_000_000;
        assert(q < 0x20_0000_0000_0000) by (nonlinear_arith)
            requires
                scaled_sub < 1_000_000_000 * 0x20_0000_0000_0000,
                q == scaled_sub as nat / 1_000_000_000,
        ;
    }
    let d = e1 - g;
    let pd = pow2_exec(d);
    proof {
        lemma_pow2_bound(d as nat);
    }
    let q1 = m1 / pd;
    let r1 = m1 % pd;
    let i = scaled_secs + q1;
    let mm = if r1 * 2 > pd || (r1 * 2 == pd && i % 2 == 1) {
        i + 1
    } else {
        i
    };
    proof {
        lemma_pow2_pos(d as nat);
        lemma_pow2_adds(g as nat, d as nat);
        assert((g + d) as nat == e1 as nat);
        let x = secs as nat * pow2(e1 as nat) + m1 as nat;
        vstd::arithmetic::div_mod::lemma_fundamental_div_mod(m1 as int, pd as int);
        assert(x as int == (i as int) * (pd as int) + r1 as int) by (nonlinear_arith)
            requires
                x == secs as nat * pow2(e1 as nat) + m1 as nat,
                pow2(e1 as nat) == pow2(g as nat) * pow2(d as nat),
                pd == pow2(d as nat),
                scaled_secs == secs * pow2(g as nat),
                m1 as int == pd as int * (m1 as int / pd as int) + m1 as int % pd as int,
                q1 == m1 / pd,
                r1 == m1 % pd,
                i == scaled_secs + q1,
        ;
        vstd::arithmetic::div_mod::lemma_fundamental_div_mod_converse(x as int, pd as int, i as int, r1 as int);
        assert(mm == round_half_even(x, pow2(d as nat)));
        assert(nearest(sub as nat, 1_000_000_000) == (m1 as nat, e1 as nat));
        lemma_pow2_bound(g as nat);
    }
    let pg = pow2_exec(g);
    round_half_even_exec(10 * mm, pg)
}

} // verus!
