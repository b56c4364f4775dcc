//! Arithmetic that the staging allocator relies on: greatest common divisor,
//! least common multiple (used to combine the device's copy-pitch alignment
//! with a format's block size), and rounding a row size up to an alignment.

use vstd::prelude::*;

verus! {

/// `d` divides `n`.
pub open spec fn divides(d: nat, n: nat) -> bool {
    exists|k: nat| n == #[trigger] (d * k)
}

/// Euclid's recursion; the greatest common divisor of `a` and `b`.
pub open spec fn spec_gcd(a: nat, b: nat) -> nat
    decreases b,
{
    if b == 0 {
        a
    } else {
        spec_gcd(b, a % b)
    }
}

/// The least common multiple of `a` and `b`.
pub open spec fn spec_lcm(a: nat, b: nat) -> nat {
    a * b / spec_gcd(a, b)
}

/// The greatest common divisor divides both of its arguments and is positive
/// whenever one of them is.
pub proof fn lemma_gcd_divides(a: nat, b: nat)
    requires
        a > 0,
    ensures
        spec_gcd(a, b) > 0,
        divides(spec_gcd(a, b), a),
        divides(spec_gcd(a, b), b),
    decreases b,
{
    if b == 0 {
        assert(a == a * 1) by (nonlinear_arith);
        assert(b == a * 0) by (nonlinear_arith)
            requires
                b == 0nat,
        ;
    } else {
        lemma_gcd_divides(b, a % b);
        let g = spec_gcd(b, a % b);
        let kb = choose|k: nat| b == #[trigger] (g * k);
        let kr = choose|k: nat| (a % b) == #[trigger] (g * k);
        let q = a as int / b as int;
        vstd::arithmetic::div_mod::lemma_fundamental_div_mod(a as int, b as int);
        assert(q >= 0) by {
            vstd::arithmetic::div_mod::lemma_div_pos_is_pos(a as int, b as int);
        }
        assert(a == g * (kb * q + kr)) by (nonlinear_arith)
            requires
                a == b * q + (a % b),
                b == g * kb,
                (a % b) == g * kr,
        ;
        assert(kb * q + kr >= 0);
        assert(divides(g, a)) by {
            assert(a == g * ((kb * q + kr) as nat));
        }
    }
}

/// Every common divisor of `a` and `b` divides their greatest common divisor.
pub proof fn lemma_gcd_greatest(a: nat, b: nat, d: nat)
    requires
        d > 0,
        divides(d, a),
        divides(d, b),
    ensures
        divides(d, spec_gcd(a, b)),
    decreases b,
{
    if b == 0 {
    } else {
        let ka = choose|k: nat| a == #[trigger] (d * k);
        let kb = choose|k: nat| b == #[trigger] (d * k);
        let q = a as int / b as int;
        vstd::arithmetic::div_mod::lemma_fundamental_div_mod(a as int, b as int);
        assert((a % b) == d * (ka - kb * q)) by (nonlinear_arith)
            requires
                a == b * q + (a % b),
                a == d * ka,
                b == d * kb,
        ;
        assert(ka - kb * q >= 0) by (nonlinear_arith)
            requires
                (a % b) == d * (ka - kb * q),
                a % b >= 0,
                d > 0,
        ;
        assert(divides(d, a % b)) by {
            assert((a % b) == d * ((ka - kb * q) as nat));
        }
        lemma_gcd_greatest(b, a % b, d);
    }
}

/// For positive arguments the least common multiple is a positive multiple of
/// both, is at most the product, and satisfies `lcm * gcd == a * b`.
pub proof fn lemma_lcm_props(a: nat, b: nat)
    requires
        a > 0,
        b > 0,
    ensures
        spec_lcm(a, b) * spec_gcd(a, b) == a * b,
        spec_lcm(a, b) % a == 0,
        spec_lcm(a, b) % b == 0,
        a <= spec_lcm(a, b),
        b <= spec_lcm(a, b),
        spec_lcm(a, b) <= a * b,
{
    let g = spec_gcd(a, b);
    lemma_gcd_divides(a, b);
    let ka = choose|k: nat| a == #[trigger] (g * k);
    let kb = choose|k: nat| b == #[trigger] (g * k);
    assert(ka >= 1) by (nonlinear_arith)
        requires
            a == g * ka,
            a > 0,
    ;
    assert(kb >= 1) by (nonlinear_arith)
        requires
            b == g * kb,
            b > 0,
    ;
    assert(a * b == g * (a * kb)) by (nonlinear_arith)
        requires
            b == g * kb,
    ;
    assert(a * b == g * (b * ka)) by (nonlinear_arith)
        requires
            a == g * ka,
    ;
    let l = spec_lcm(a, b);
    assert(l == (g * (a * kb)) as int / g as int);
    assert((g * (a * kb)) as int / g as int == a * kb) by {
        vstd::arithmetic::div_mod::lemma_div_multiples_vanish((a * kb) as int, g as int);
        assert(g * (a * kb) == g as int * ((a * kb) as int));
    }
    assert(l == a * kb);
    assert(l == b * ka) by (nonlinear_arith)
        requires
            l == a * kb,
            a == g * ka,
            b == g * kb,
    ;
    assert(l % a == 0) by {
        vstd::arithmetic::div_mod::lemma_mod_multiples_basic(kb as int, a as int);
        assert(l as int == (kb as int) * (a as int)) by (nonlinear_arith)
            requires
                l == a * kb,
        ;
    }
    assert(l % b == 0) by {
        vstd::arithmetic::div_mod::lemma_mod_multiples_basic(ka as int, b as int);
        assert(l as int == (ka as int) * (b as int)) by (nonlinear_arith)
            requires
                l == b * ka,
        ;
    }
    assert(l * g == a * b) by (nonlinear_arith)
        requires
            l == a * kb,
            b == g * kb,
    ;
    assert(a <= l) by (nonlinear_arith)
        requires
            l == a * kb,
            kb >= 1,
            a > 0,
    ;
    assert(b <= l) by (nonlinear_arith)
        requires
            l == b * ka,
            ka >= 1,
            b > 0,
    ;
    assert(l <= a * b) by (nonlinear_arith)
        requires
            l * g == a * b,
            g >= 1,
            l >= 0,
    ;
}

/// Law: `lcm(a, b) * gcd(a, b) == a * b` for all positive `a`, `b`, and the
/// pitch alignment computed as the least common multiple is a multiple of
/// both inputs.
pub proof fn lemma_lcm_gcd(a: nat, b: nat)
    requires
        a > 0,
        b > 0,
    ensures
        spec_lcm(a, b) * spec_gcd(a, b) == a * b,
        spec_lcm(a, b) % a == 0,
        spec_lcm(a, b) % b == 0,
{
    lemma_lcm_props(a, b);
}

/// Swapping the arguments does not change the greatest common divisor.
pub proof fn lemma_gcd_comm(a: nat, b: nat)
    requires
        a < b,
    ensures
        spec_gcd(a, b) == spec_gcd(b, a),
{
    if a == 0 {
        assert(spec_gcd(0, b) == spec_gcd(b, 0));
    } else {
        vstd::arithmetic::div_mod::lemma_small_mod(a, b);
        assert(spec_gcd(a, b) == spec_gcd(b, a % b));
    }
}

pub fn get_greatest_common_divisor(a: u32, b: u32) -> (r: u32)
    requires
        a >= b,
        b > 0,
    ensures
        r == spec_gcd(a as nat, b as nat),
        r > 0,
        r <= b,
{
    let mut x: u32 = a;
    let mut y: u32 = b;
    loop
        invariant
            1 <= b,
            b <= a,
            1 <= y,
            y <= x,
            y <= b,
            spec_gcd(x as nat, y as nat) == spec_gcd(a as nat, b as nat),
        decreases y,
    {
        let c = x % y;
        if c == 0 {
            proof {
                assert(spec_gcd(x as nat, y as nat) == spec_gcd(y as nat, 0));
                lemma_gcd_divides(a as nat, b as nat);
            }
            return y;
        } else {
            proof {
                assert(spec_gcd(x as nat, y as nat) == spec_gcd(
                    y as nat,
                    (x as nat) % (y as nat),
                ));
            }
            x = y;
            y = c;
        }
    }
}

pub fn get_lowest_common_denom(a: u32, b: u32) -> (r: u32)
    requires
        a > 0,
        b > 0,
        a * b <= u32::MAX,
    ensures
        r == spec_lcm(a as nat, b as nat),
        r % a == 0,
        r % b == 0,
        r * spec_gcd(a as nat, b as nat) == a * b,
        a <= r,
        b <= r,
{
    let gcd = if a >= b {
        get_greatest_common_divisor(a, b)
    } else {
        proof {
            lemma_gcd_comm(a as nat, b as nat);
        }
        get_greatest_common_divisor(b, a)
    };
    proof {
        lemma_lcm_props(a as nat, b as nat);
    }
    a * b / gcd
}

pub fn align_to(value: u32, alignment: u32) -> (r: u32)
    requires
        alignment > 0,
        value + alignment <= u32::MAX,
    ensures
        r % alignment == 0,
        value <= r,
        r < value + alignment,
{
    match value % alignment {
        0 => value,
        other => {
            proof {
                vstd::arithmetic::div_mod::lemma_fundamental_div_mod(
                    value as int,
                    alignment as int,
                );
                let q = value as int / alignment as int;
                assert(q >= 0) by {
                    vstd::arithmetic::div_mod::lemma_div_pos_is_pos(
                        value as int,
                        alignment as int,
                    );
                }
                assert((value - other + alignment) as int == alignment as int * (q + 1))
                    by (nonlinear_arith)
                    requires
                        value as int == alignment as int * q + other,
                ;
                vstd::arithmetic::div_mod::lemma_mod_multiples_basic(
                    q + 1,
                    alignment as int,
                );
                assert(alignment as int * (q + 1) == (q + 1) * (alignment as int))
                    by (nonlinear_arith);
            }
            value - other + alignment
        },
    }
}

} // verus!
