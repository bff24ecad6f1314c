//! Algebraic laws of the GF(32) operations.
//!
//! Addition laws follow from bit-vector reasoning on xor.  Multiplication
//! laws follow from the inverse relation between the logarithm and
//! antilogarithm tables; distributivity is proved by induction on the
//! discrete logarithm, using the fact that multiplying by the generator
//! `z` is a linear shift-xor on the 5-bit values.

use vstd::prelude::*;

use crate::field::Fe;
use crate::field::fe_add_v;
use crate::field::fe_mul_v;
use crate::field::fe_div_v;
use crate::field::log_v;
use crate::field::exp_v;
use crate::field::lemma_log_exp;
use crate::field::lemma_exp_log;
use crate::field::lemma_mul_closed;
use crate::field::lemma_add_closed;
use vstd::arithmetic::div_mod::lemma_add_mod_noop;
use vstd::arithmetic::div_mod::lemma_small_mod;

verus! {

/// Addition is commutative: `a + b == b + a`.
pub proof fn lemma_add_commutative(a: Fe, b: Fe)
    ensures
        fe_add_v(a@, b@) == fe_add_v(b@, a@),
{
    let x = a@;
    let y = b@;
    assert(x ^ y == y ^ x) by (bit_vector);
}

/// Every element is its own additive inverse: `a + a == Q`.
pub proof fn lemma_add_self_is_zero(a: Fe)
    ensures
        fe_add_v(a@, a@) == 0,
{
    let x = a@;
    assert(x ^ x == 0) by (bit_vector);
}

/// Addition is associative: `(a + b) + c == a + (b + c)`.
pub proof fn lemma_add_associative(a: Fe, b: Fe, c: Fe)
    ensures
        fe_add_v(fe_add_v(a@, b@), c@) == fe_add_v(a@, fe_add_v(b@, c@)),
{
    let x = a@;
    let y = b@;
    let z = c@;
    assert((x ^ y) ^ z == x ^ (y ^ z)) by (bit_vector);
}

/// Multiplication is commutative: `a * b == b * a`.
pub proof fn lemma_mul_commutative(a: Fe, b: Fe)
    requires
        a@ < 32,
        b@ < 32,
    ensures
        fe_mul_v(a@, b@) == fe_mul_v(b@, a@),
{
}

/// Multiplication is associative: `(a * b) * c == a * (b * c)`.
pub proof fn lemma_mul_associative(a: Fe, b: Fe, c: Fe)
    requires
        a@ < 32,
        b@ < 32,
        c@ < 32,
    ensures
        fe_mul_v(fe_mul_v(a@, b@), c@) == fe_mul_v(a@, fe_mul_v(b@, c@)),
{
    lemma_log_exp();
    lemma_exp_log();
    lemma_mul_closed(a@, b@);
    lemma_mul_closed(b@, c@);
    if a@ != 0 && b@ != 0 && c@ != 0 {
        let la = log_v(a@) as int;
        let lb = log_v(b@) as int;
        let lc = log_v(c@) as int;
        lemma_small_mod(la as nat, 31);
        lemma_small_mod(lb as nat, 31);
        lemma_small_mod(lc as nat, 31);
        lemma_add_mod_noop(la + lb, lc, 31);
        lemma_add_mod_noop(la, lb + lc, 31);
        assert(((la + lb) % 31 + lc) % 31 == (la + lb + lc) % 31);
        assert((la + (lb + lc) % 31) % 31 == (la + lb + lc) % 31);
        let ab = fe_mul_v(a@, b@);
        let bc = fe_mul_v(b@, c@);
        assert(log_v(ab) == (la + lb) % 31);
        assert(log_v(bc) == (lb + lc) % 31);
        assert(fe_mul_v(ab, c@) == exp_v((((la + lb) % 31 + lc) % 31) as u8));
        assert(fe_mul_v(a@, bc) == exp_v(((la + (lb + lc) % 31) % 31) as u8));
    }
}

/// Multiplying a nonzero element by the inverse of `a` recovers `P`,
/// and dividing an element by itself yields `P`.
pub proof fn lemma_mul_inverse(a: Fe)
    requires
        1 <= a@ < 32,
    ensures
        fe_mul_v(a@, fe_div_v(1, a@)) == 1,
        fe_div_v(a@, a@) == 1,
{
    lemma_log_exp();
    lemma_exp_log();
    let la = log_v(a@) as int;
    assert(log_v(1) == 0);
    assert((31 + 0 - la) % 31 == (31 - la) % 31);
    assert((31 + la - la) % 31 == 0);
    let inv = fe_div_v(1, a@);
    assert(inv == exp_v(((31 - la) % 31) as u8));
    assert(log_v(inv) == (31 - la) % 31);
    if la == 0 {
        assert((la + (31 - la) % 31) % 31 == 0);
    } else {
        assert((31 - la) % 31 == 31 - la);
        assert((la + (31 - la)) % 31 == 0);
    }
    assert(fe_mul_v(a@, inv) == exp_v(((la + (31 - la) % 31) % 31) as u8));
}

/// The ASCII-lowercased form of a character, written out for the letters
/// that occur in the bech32 alphabet; other characters are unchanged.
pub open spec fn to_lower_c(c: char) -> char {
    if c == 'Q' { 'q' }
    else if c == 'P' { 'p' }
    else if c == 'Z' { 'z' }
    else if c == 'R' { 'r' }
    else if c == 'Y' { 'y' }
    else if c == 'X' { 'x' }
    else if c == 'G' { 'g' }
    else if c == 'F' { 'f' }
    else if c == 'T' { 't' }
    else if c == 'V' { 'v' }
    else if c == 'D' { 'd' }
    else if c == 'W' { 'w' }
    else if c == 'S' { 's' }
    else if c == 'J' { 'j' }
    else if c == 'N' { 'n' }
    else if c == 'K' { 'k' }
    else if c == 'H' { 'h' }
    else if c == 'C' { 'c' }
    else if c == 'E' { 'e' }
    else if c == 'M' { 'm' }
    else if c == 'U' { 'u' }
    else if c == 'A' { 'a' }
    else if c == 'L' { 'l' }
    else { c }
}

/// Decoding any alphabet character of either case and re-encoding it
/// yields the character's lowercase form: decode and encode are inverse up
/// to case.
pub proof fn lemma_char_round_trip()
    ensures
        forall|c: char|
            #![trigger crate::field::bech32_value(c)]
            crate::field::bech32_value(c) matches Some(v) ==> crate::field::char_of(v)
                == to_lower_c(c),
{
}

/// Multiplying by the generator `z` (value 2) acts on the 5-bit value as a
/// shift with a conditional xor of the reduction pattern.
spec fn zmul(x: u8) -> u8 {
    if x >= 16 {
        ((x << 1) ^ 41) & 31
    } else {
        (x << 1) & 31
    }
}

proof fn lemma_mul_by_z(x: u8)
    requires
        x < 32,
    ensures
        fe_mul_v(2, x) == zmul(x),
{
    assert((x == 0 ==> (x << 1) & 31 == 0) && (x == 1 ==> (x << 1) & 31 == 2) && (x == 2 ==> (x
        << 1) & 31 == 4) && (x == 3 ==> (x << 1) & 31 == 6) && (x == 4 ==> (x << 1) & 31 == 8) && (
    x == 5 ==> (x << 1) & 31 == 10) && (x == 6 ==> (x << 1) & 31 == 12) && (x == 7 ==> (x << 1)
        & 31 == 14) && (x == 8 ==> (x << 1) & 31 == 16) && (x == 9 ==> (x << 1) & 31 == 18) && (x
        == 10 ==> (x << 1) & 31 == 20) && (x == 11 ==> (x << 1) & 31 == 22) && (x == 12 ==> (x
        << 1) & 31 == 24) && (x == 13 ==> (x << 1) & 31 == 26) && (x == 14 ==> (x << 1) & 31 == 28)
        && (x == 15 ==> (x << 1) & 31 == 30)) by (bit_vector);
    assert((x == 16 ==> ((x << 1) ^ 41) & 31 == 9) && (x == 17 ==> ((x << 1) ^ 41) & 31 == 11) && (
    x == 18 ==> ((x << 1) ^ 41) & 31 == 13) && (x == 19 ==> ((x << 1) ^ 41) & 31 == 15) && (x == 20
        ==> ((x << 1) ^ 41) & 31 == 1) && (x == 21 ==> ((x << 1) ^ 41) & 31 == 3) && (x == 22 ==> (
    (x << 1) ^ 41) & 31 == 5) && (x == 23 ==> ((x << 1) ^ 41) & 31 == 7) && (x == 24 ==> ((x << 1)
        ^ 41) & 31 == 25) && (x == 25 ==> ((x << 1) ^ 41) & 31 == 27) && (x == 26 ==> ((x << 1)
        ^ 41) & 31 == 29) && (x == 27 ==> ((x << 1) ^ 41) & 31 == 31) && (x == 28 ==> ((x << 1)
        ^ 41) & 31 == 17) && (x == 29 ==> ((x << 1) ^ 41) & 31 == 19) && (x == 30 ==> ((x << 1)
        ^ 41) & 31 == 21) && (x == 31 ==> ((x << 1) ^ 41) & 31 == 23)) by (bit_vector);
    lemma_log_exp();
    lemma_exp_log();
    if x != 0 {
        let s = 1 + log_v(x) as int;
        if s == 31 {
            assert(s % 31 == 0);
        } else {
            lemma_small_mod(s as nat, 31);
        }
        assert(fe_mul_v(2, x) == exp_v((s % 31) as u8));
    }
}

proof fn lemma_zmul_linear(x: u8, y: u8)
    requires
        x < 32,
        y < 32,
    ensures
        zmul(x ^ y) == zmul(x) ^ zmul(y),
{
    if x < 16 && y < 16 {
        assert(x < 16 && y < 16 ==> (x ^ y) < 16 && ((x ^ y) << 1) & 31 == ((x << 1) & 31) ^ ((y
            << 1) & 31)) by (bit_vector);
    } else if x >= 16 && y < 16 {
        assert(16 <= x < 32 && y < 16 ==> 16 <= (x ^ y) && (((x ^ y) << 1) ^ 41) & 31 == (((x << 1)
            ^ 41) & 31) ^ ((y << 1) & 31)) by (bit_vector);
    } else if x < 16 && y >= 16 {
        assert(x < 16 && 16 <= y < 32 ==> 16 <= (x ^ y) && (((x ^ y) << 1) ^ 41) & 31 == ((x << 1)
            & 31) ^ (((y << 1) ^ 41) & 31)) by (bit_vector);
    } else {
        assert(16 <= x < 32 && 16 <= y < 32 ==> (x ^ y) < 16 && ((x ^ y) << 1) & 31 == (((x << 1)
            ^ 41) & 31) ^ (((y << 1) ^ 41) & 31)) by (bit_vector);
    }
}

/// Multiplying by the identity leaves an element unchanged.
proof fn lemma_one_mul(x: u8)
    requires
        x < 32,
    ensures
        fe_mul_v(1, x) == x,
{
    lemma_log_exp();
    lemma_exp_log();
    if x != 0 {
        assert(fe_mul_v(1, x) == exp_v(((0 + log_v(x)) % 31) as u8));
        assert((0 + log_v(x) as int) % 31 == log_v(x) as int);
    }
}

/// A nonzero element with logarithm `k >= 1` acts as `z` times the element
/// with logarithm `k - 1`.
proof fn lemma_mul_z_shift(a: u8, x: u8)
    requires
        1 <= a < 32,
        x < 32,
        log_v(a) >= 1,
    ensures
        fe_mul_v(a, x) == fe_mul_v(2, fe_mul_v(exp_v((log_v(a) - 1) as u8), x)),
{
    lemma_log_exp();
    lemma_exp_log();
    let k = log_v(a) as int;
    let a1 = exp_v((k - 1) as u8);
    if x != 0 {
        let lx = log_v(x) as int;
        let m = fe_mul_v(a1, x);
        assert(m == exp_v((((k - 1) + lx) % 31) as u8));
        assert(1 <= m < 32);
        assert(log_v(m) == (k - 1 + lx) % 31);
        let s = k - 1 + lx;
        assert(0 <= s <= 60);
        lemma_small_mod(1, 31);
        lemma_add_mod_noop(s, 1, 31);
        assert((1 + s % 31) % 31 == (s + 1) % 31);
        assert(fe_mul_v(2, m) == exp_v(((1 + s % 31) % 31) as u8));
        assert(fe_mul_v(a, x) == exp_v(((k + lx) % 31) as u8));
    }
}

proof fn lemma_distrib_rec(k: u8, a: u8, b: u8, c: u8)
    requires
        1 <= a < 32,
        b < 32,
        c < 32,
        log_v(a) == k,
    ensures
        fe_mul_v(a, fe_add_v(b, c)) == fe_add_v(fe_mul_v(a, b), fe_mul_v(a, c)),
    decreases k,
{
    lemma_log_exp();
    lemma_exp_log();
    lemma_add_closed(b, c);
    if k == 0 {
        assert(a == exp_v(log_v(a)));
        lemma_one_mul(fe_add_v(b, c));
        lemma_one_mul(b);
        lemma_one_mul(c);
    } else {
        let a1 = exp_v((k - 1) as u8);
        lemma_distrib_rec((k - 1) as u8, a1, b, c);
        lemma_mul_z_shift(a, fe_add_v(b, c));
        lemma_mul_z_shift(a, b);
        lemma_mul_z_shift(a, c);
        let u = fe_mul_v(a1, b);
        let v = fe_mul_v(a1, c);
        lemma_mul_closed(a1, b);
        lemma_mul_closed(a1, c);
        lemma_mul_by_z(fe_add_v(u, v));
        lemma_mul_by_z(u);
        lemma_mul_by_z(v);
        lemma_zmul_linear(u, v);
        assert(fe_mul_v(2, fe_add_v(u, v)) == fe_add_v(fe_mul_v(2, u), fe_mul_v(2, v)));
    }
}

/// Multiplication distributes over addition: `a * (b + c) == a * b + a * c`.
pub proof fn lemma_mul_distributive(a: Fe, b: Fe, c: Fe)
    requires
        a@ < 32,
        b@ < 32,
        c@ < 32,
    ensures
        fe_mul_v(a@, fe_add_v(b@, c@)) == fe_add_v(fe_mul_v(a@, b@), fe_mul_v(a@, c@)),
{
    if a@ == 0 {
        assert(fe_add_v(0, 0) == 0) by (bit_vector);
    } else {
        lemma_exp_log();
        lemma_distrib_rec(log_v(a@), a@, b@, c@);
    }
}

} // verus!

