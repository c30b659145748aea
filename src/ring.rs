//! Wrapping arithmetic on `i64` cells and its model over `int`.
use vstd::arithmetic::div_mod::{lemma_fundamental_div_mod, lemma_mod_bound, lemma_mod_multiples_vanish};
use vstd::prelude::*;

verus! {

/// 2^64, the modulus of cell arithmetic.
pub open spec fn modulus() -> int {
    0x1_0000_0000_0000_0000
}

/// 2^63, half the modulus.
pub open spec fn half() -> int {
    0x8000_0000_0000_0000
}

/// The `i64` value congruent to `x` modulo 2^64.
pub open spec fn wrap(x: int) -> int {
    ((x + half()) % modulus()) - half()
}

/// The multiple of 2^64 that `wrap` adds.
pub open spec fn wrap_shift(x: int) -> int {
    -((x + half()) / modulus())
}

pub proof fn lemma_wrap_decompose(x: int)
    ensures
        wrap(x) == x + wrap_shift(x) * modulus(),
        i64::MIN <= wrap(x) <= i64::MAX,
{
    lemma_fundamental_div_mod(x + half(), modulus());
    lemma_mod_bound(x + half(), modulus());
}

pub proof fn lemma_wrap_multiple(x: int, k: int)
    ensures
        wrap(x + k * modulus()) == wrap(x),
{
    lemma_mod_multiples_vanish(k, x + half(), modulus());
    assert(x + k * modulus() + half() == modulus() * k + (x + half()));
}

pub proof fn lemma_wrap_small(x: int)
    requires
        i64::MIN <= x <= i64::MAX,
    ensures
        wrap(x) == x,
{
    lemma_wrap_decompose(x);
    lemma_fundamental_div_mod(x + half(), modulus());
    assert(0 <= x + half() < modulus());
    lemma_mod_multiples_vanish(0, x + half(), modulus());
    vstd::arithmetic::div_mod::lemma_small_mod((x + half()) as nat, modulus() as nat);
}

/// Two integers that differ by a multiple of 2^64 wrap to the same cell.
pub proof fn lemma_wrap_congruent(x: int, y: int, k: int)
    requires
        x == y + k * modulus(),
    ensures
        wrap(x) == wrap(y),
{
    lemma_wrap_multiple(y, k);
}

pub proof fn lemma_wrap_idempotent(x: int)
    ensures
        wrap(wrap(x)) == wrap(x),
{
    lemma_wrap_decompose(x);
    lemma_wrap_small(wrap(x));
}

/// Wrapping either operand of a sum first does not change the wrapped sum.
pub proof fn lemma_wrap_add(x: int, y: int)
    ensures
        wrap(wrap(x) + wrap(y)) == wrap(x + y),
        wrap(wrap(x) + y) == wrap(x + y),
        wrap(x + wrap(y)) == wrap(x + y),
{
    lemma_wrap_decompose(x);
    lemma_wrap_decompose(y);
    lemma_wrap_congruent(wrap(x) + wrap(y), x + y, wrap_shift(x) + wrap_shift(y));
    lemma_wrap_congruent(wrap(x) + y, x + y, wrap_shift(x));
    lemma_wrap_congruent(x + wrap(y), x + y, wrap_shift(y));
}

/// Wrapping either operand of a difference first does not change the wrapped difference.
pub proof fn lemma_wrap_sub(x: int, y: int)
    ensures
        wrap(wrap(x) - wrap(y)) == wrap(x - y),
        wrap(wrap(x) - y) == wrap(x - y),
        wrap(x - wrap(y)) == wrap(x - y),
{
    lemma_wrap_decompose(x);
    lemma_wrap_decompose(y);
    lemma_wrap_congruent(wrap(x) - wrap(y), x - y, wrap_shift(x) - wrap_shift(y));
    lemma_wrap_congruent(wrap(x) - y, x - y, wrap_shift(x));
    lemma_wrap_congruent(x - wrap(y), x - y, -wrap_shift(y));
}

/// Wrapping either factor of a product first does not change the wrapped product.
pub proof fn lemma_wrap_mul(x: int, y: int)
    ensures
        wrap(wrap(x) * wrap(y)) == wrap(x * y),
        wrap(wrap(x) * y) == wrap(x * y),
        wrap(x * wrap(y)) == wrap(x * y),
{
    lemma_wrap_decompose(x);
    lemma_wrap_decompose(y);
    let (p, q) = (wrap_shift(x), wrap_shift(y));
    let m = modulus();
    assert(wrap(x) * y == x * y + (p * y) * m) by (nonlinear_arith)
        requires
            wrap(x) == x + p * m,
    ;
    assert(x * wrap(y) == x * y + (x * q) * m) by (nonlinear_arith)
        requires
            wrap(y) == y + q * m,
    ;
    assert(wrap(x) * wrap(y) == x * y + (p * y + x * q + p * q * m) * m) by (nonlinear_arith)
        requires
            wrap(x) == x + p * m,
            wrap(y) == y + q * m,
    ;
    lemma_wrap_congruent(wrap(x) * y, x * y, p * y);
    lemma_wrap_congruent(x * wrap(y), x * y, x * q);
    lemma_wrap_congruent(wrap(x) * wrap(y), x * y, p * y + x * q + p * q * m);
}

/// The sum of two cells, wrapping modulo 2^64.
pub fn cell_add(x: i64, y: i64) -> (r: i64)
    ensures
        r as int == wrap(x + y),
{
    proof {
        let s = x + y;
        if s > i64::MAX {
            lemma_wrap_small(s - modulus());
            lemma_wrap_multiple(s - modulus(), 1);
        } else if s < i64::MIN {
            lemma_wrap_small(s + modulus());
            lemma_wrap_multiple(s + modulus(), -1);
        } else {
            lemma_wrap_small(s);
        }
    }
    x.wrapping_add(y)
}

/// The difference of two cells, wrapping modulo 2^64.
pub fn cell_sub(x: i64, y: i64) -> (r: i64)
    ensures
        r as int == wrap(x - y),
{
    proof {
        let s = x - y;
        if s > i64::MAX {
            lemma_wrap_small(s - modulus());
            lemma_wrap_multiple(s - modulus(), 1);
        } else if s < i64::MIN {
            lemma_wrap_small(s + modulus());
            lemma_wrap_multiple(s + modulus(), -1);
        } else {
            lemma_wrap_small(s);
        }
    }
    x.wrapping_sub(y)
}

/// The product of two cells, wrapping modulo 2^64.
pub fn cell_mul(x: i64, y: i64) -> (r: i64)
    ensures
        r as int == wrap(x * y),
{
    proof {
        let p = x * y;
        let m = p % modulus();
        lemma_fundamental_div_mod(p, modulus());
        lemma_mod_bound(p, modulus());
        let k = p / modulus();
        if m > i64::MAX {
            lemma_wrap_small(m - modulus());
            lemma_wrap_congruent(p, m - modulus(), k + 1);
        } else {
            lemma_wrap_small(m);
            lemma_wrap_congruent(p, m, k);
        }
    }
    x.wrapping_mul(y)
}

} // verus!
