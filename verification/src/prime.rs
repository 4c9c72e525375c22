use vstd::prelude::*;
use vstd::arithmetic::div_mod::{
    lemma_fundamental_div_mod, lemma_mod_bound, lemma_mod_mod, lemma_mod_multiples_basic,
    lemma_mod_multiples_vanish, lemma_mul_mod_noop, lemma_small_mod,
};
use vstd::arithmetic::power::{lemma_pow0, lemma_pow1, lemma_pow_adds, pow};
use vstd::arithmetic::power2::{lemma2_to64, lemma_pow2_pos, lemma_pow2_unfold, pow2};
use vstd::relations::injective_on;
use vstd::set_lib::{lemma_int_range, lemma_len_subset, lemma_map_size, set_int_range};
use crate::field::ORDER;

verus! {

/// The residue of `7^k` modulo `d`.
pub open spec fn power_residue(k: nat, d: int) -> int {
    pow(7, k) % d
}

/// Residues of powers multiply as the powers do.
pub proof fn lemma_residue_adds(a: nat, b: nat, d: int)
    requires
        d > 1,
    ensures
        power_residue(a + b, d) == (power_residue(a, d) * power_residue(b, d)) % d,
{
    lemma_pow_adds(7, a, b);
    lemma_mul_mod_noop(pow(7, a), pow(7, b), d);
}

/// If `7^e` is 1 modulo `d`, so is every power of it.
pub proof fn lemma_residue_of_multiple(e: nat, q: nat, d: int)
    requires
        d > 1,
        power_residue(e, d) == 1,
    ensures
        power_residue(q * e, d) == 1,
    decreases q,
{
    if q == 0 {
        lemma_pow0(7);
        assert(0 * e == 0);
        lemma_small_mod(1, d as nat);
    } else {
        lemma_residue_of_multiple(e, (q - 1) as nat, d);
        assert(q * e == (q - 1) * e + e) by (nonlinear_arith);
        lemma_residue_adds(((q - 1) * e) as nat, e, d);
        lemma_small_mod(1, d as nat);
    }
}

/// The least positive exponent at which the residue is 1, given that some
/// positive exponent `n` has residue 1.
pub proof fn lemma_order_exists(n: nat, d: int) -> (e: nat)
    requires
        d > 1,
        n > 0,
        power_residue(n, d) == 1,
    ensures
        0 < e <= n,
        power_residue(e, d) == 1,
        forall|k: nat| 0 < k < e ==> power_residue(k, d) != 1,
    decreases n,
{
    if exists|k: nat| 0 < k < n && power_residue(k, d) == 1 {
        let k = choose|k: nat| 0 < k < n && power_residue(k, d) == 1;
        lemma_order_exists(k, d)
    } else {
        n
    }
}

/// The least exponent with residue 1 divides every exponent with residue 1.
pub proof fn lemma_order_divides(e: nat, k: nat, d: int)
    requires
        d > 1,
        e > 0,
        power_residue(e, d) == 1,
        forall|j: nat| 0 < j < e ==> power_residue(j, d) != 1,
        power_residue(k, d) == 1,
    ensures
        k % e == 0,
{
    let q = k / e;
    let r = k % e;
    lemma_fundamental_div_mod(k as int, e as int);
    assert(k == q * e + r) by (nonlinear_arith)
        requires
            k == e * q + r,
    ;
    lemma_residue_of_multiple(e, q, d);
    lemma_residue_adds(q * e, r, d);
    assert(1 * power_residue(r, d) == power_residue(r, d));
    lemma_small_mod(power_residue(r, d) as nat, d as nat);
}

/// Below the least exponent with residue 1, different exponents have
/// different residues.
pub proof fn lemma_residues_distinct(e: nat, i: nat, j: nat, d: int)
    requires
        d > 1,
        power_residue(e, d) == 1,
        forall|k: nat| 0 < k < e ==> power_residue(k, d) != 1,
        i < j < e,
    ensures
        power_residue(i, d) != power_residue(j, d),
{
    if power_residue(i, d) == power_residue(j, d) {
        let rest = (e - i) as nat;
        let gap = (j - i) as nat;
        lemma_residue_adds(j, rest, d);
        lemma_residue_adds(i, rest, d);
        assert(i + rest == e);
        assert(j + rest == e + gap);
        lemma_residue_adds(e, gap, d);
        assert(1 * power_residue(gap, d) == power_residue(gap, d));
        lemma_small_mod(power_residue(gap, d) as nat, d as nat);
        assert(power_residue(gap, d) == 1);
    }
}

/// The least exponent with residue 1 is no larger than the modulus: the
/// residues below it are pairwise different, and there are only `d` residues.
pub proof fn lemma_order_bounded(e: nat, d: int)
    requires
        d > 1,
        power_residue(e, d) == 1,
        forall|k: nat| 0 < k < e ==> power_residue(k, d) != 1,
    ensures
        e <= d,
{
    let exponents = set_int_range(0, e as int);
    let residue = |k: int| power_residue(k as nat, d);
    let image = exponents.map(residue);
    lemma_int_range(0, e as int);
    assert(injective_on(residue, exponents)) by {
        assert forall|a: int, b: int|
            exponents.contains(a) && exponents.contains(b) && #[trigger] residue(a)
                == #[trigger] residue(b) implies a == b by {
            if a < b {
                lemma_residues_distinct(e, a as nat, b as nat, d);
            } else if b < a {
                lemma_residues_distinct(e, b as nat, a as nat, d);
            }
        }
    }
    lemma_map_size(exponents, image, residue);
    lemma_int_range(0, d);
    assert(image.subset_of(set_int_range(0, d))) by {
        assert forall|r: int| image.contains(r) implies set_int_range(0, d).contains(r) by {
            let k = choose|k: int| exponents.contains(k) && r == residue(k);
            lemma_mod_bound(pow(7, k as nat), d);
        }
    }
    lemma_len_subset(image, set_int_range(0, d));
}

/// If `2^k` divides `e * t` and `t` is odd, then `2^k` divides `e`.
pub proof fn lemma_odd_cofactor(k: nat, e: int, t: int)
    requires
        e > 0,
        t > 0,
        t % 2 == 1,
        (e * t) % (pow2(k) as int) == 0,
    ensures
        e % (pow2(k) as int) == 0,
    decreases k,
{
    lemma_pow2_pos(k);
    if k == 0 {
        lemma2_to64();
    } else {
        lemma_pow2_unfold(k);
        let half = pow2((k - 1) as nat) as int;
        lemma_pow2_pos((k - 1) as nat);
        let s = (e * t) / (2 * half);
        lemma_fundamental_div_mod(e * t, 2 * half);
        assert(e * t == 2 * (half * s)) by (nonlinear_arith)
            requires
                e * t == (2 * half) * s,
        ;
        if e % 2 == 1 {
            let a = e / 2;
            let b = t / 2;
            assert(e * t == 2 * (2 * a * b + a + b) + 1) by (nonlinear_arith)
                requires
                    e == 2 * a + 1,
                    t == 2 * b + 1,
            ;
        }
        let e2 = e / 2;
        assert((e2 * t) == half * s) by (nonlinear_arith)
            requires
                e * t == 2 * (half * s),
                e == 2 * e2,
        ;
        lemma_mod_multiples_basic(s, half);
        assert(half * s == s * half) by (nonlinear_arith);
        lemma_odd_cofactor((k - 1) as nat, e2, t);
        let u = e2 / half;
        lemma_fundamental_div_mod(e2, half);
        assert(e == u * (2 * half)) by (nonlinear_arith)
            requires
                e == 2 * e2,
                e2 == half * u,
        ;
        lemma_mod_multiples_basic(u, 2 * half);
    }
}

/// Squaring a power doubles its exponent.
proof fn lemma_square(n: nat, r: int, out: int)
    requires
        power_residue(n, ORDER as int) == r,
        (r * r) % (ORDER as int) == out,
    ensures
        power_residue(2 * n, ORDER as int) == out,
{
    lemma_residue_adds(n, n, ORDER as int);
}

/// Squaring a power and multiplying by 7 doubles its exponent and adds one.
proof fn lemma_square_and_multiply(n: nat, r: int, out: int)
    requires
        power_residue(n, ORDER as int) == r,
        (((r * r) % (ORDER as int)) * 7) % (ORDER as int) == out,
    ensures
        power_residue(2 * n + 1, ORDER as int) == out,
{
    lemma_residue_adds(n, n, ORDER as int);
    lemma_residue_adds(2 * n, 1, ORDER as int);
    lemma_pow1(7);
    lemma_small_mod(7, ORDER as nat);
}

proof fn lemma_power_chain_first()
    ensures
        power_residue(511, ORDER as int) == 2624486902016877951,
{
    lemma_pow1(7);
    lemma_small_mod(7, ORDER as nat);
    lemma_square_and_multiply(1, 7, 343);
    lemma_square_and_multiply(3, 343, 823543);
    lemma_square_and_multiply(7, 823543, 4747561509943);
    lemma_square_and_multiply(15, 4747561509943, 11074261478625843323);
    lemma_square_and_multiply(31, 11074261478625843323, 12148266161370408270);
    lemma_square_and_multiply(63, 12148266161370408270, 7007601668316978083);
    lemma_square_and_multiply(127, 7007601668316978083, 8125271997680889877);
    lemma_square_and_multiply(255, 8125271997680889877, 2624486902016877951);
}

proof fn lemma_power_chain_second()
    ensures
        power_residue(131071, ORDER as int) == 4326791766630348883,
{
    lemma_power_chain_first();
    lemma_square_and_multiply(511, 2624486902016877951, 8253119735826302939);
    lemma_square_and_multiply(1023, 8253119735826302939, 3543566522599720475);
    lemma_square_and_multiply(2047, 3543566522599720475, 11981551684735969599);
    lemma_square_and_multiply(4095, 11981551684735969599, 10062120588441922115);
    lemma_square_and_multiply(8191, 10062120588441922115, 10485806445487905393);
    lemma_square_and_multiply(16383, 10485806445487905393, 4139485063330164956);
    lemma_square_and_multiply(32767, 4139485063330164956, 12134830135347446949);
    lemma_square_and_multiply(65535, 12134830135347446949, 4326791766630348883);
}

proof fn lemma_power_chain_third()
    ensures
        power_residue(33554431, ORDER as int) == 13093775858033092690,
{
    lemma_power_chain_second();
    lemma_square_and_multiply(131071, 4326791766630348883, 206761543466863628);
    lemma_square_and_multiply(262143, 206761543466863628, 10086585273483141421);
    lemma_square_and_multiply(524287, 10086585273483141421, 1855730417186139594);
    lemma_square_and_multiply(1048575, 1855730417186139594, 7626447102712710903);
    lemma_square_and_multiply(2097151, 7626447102712710903, 7790920094560990216);
    lemma_square_and_multiply(4194303, 7790920094560990216, 5901922255895126089);
    lemma_square_and_multiply(8388607, 5901922255895126089, 8935258787870022506);
    lemma_square_and_multiply(16777215, 8935258787870022506, 13093775858033092690);
}

proof fn lemma_power_chain_fourth()
    ensures
        power_residue(8589934590, ORDER as int) == 4614640910117430873,
{
    lemma_power_chain_third();
    lemma_square_and_multiply(33554431, 13093775858033092690, 11243737384857129666);
    lemma_square_and_multiply(67108863, 11243737384857129666, 2063617152444052883);
    lemma_square_and_multiply(134217727, 2063617152444052883, 13064848991504552222);
    lemma_square_and_multiply(268435455, 13064848991504552222, 16593403251012455084);
    lemma_square_and_multiply(536870911, 16593403251012455084, 5859133952941131217);
    lemma_square_and_multiply(1073741823, 5859133952941131217, 15659105665374529263);
    lemma_square_and_multiply(2147483647, 15659105665374529263, 1753635133440165772);
    lemma_square(4294967295, 1753635133440165772, 4614640910117430873);
}

proof fn lemma_power_chain_fifth()
    ensures
        power_residue(2199023255040, ORDER as int) == 16905767614792059275,
{
    lemma_power_chain_fourth();
    lemma_square(8589934590, 4614640910117430873, 9123114210336311365);
    lemma_square(17179869180, 9123114210336311365, 16116352524544190054);
    lemma_square(34359738360, 16116352524544190054, 6414415596519834757);
    lemma_square(68719476720, 6414415596519834757, 1213594585890690845);
    lemma_square(137438953440, 1213594585890690845, 17096174751763063430);
    lemma_square(274877906880, 17096174751763063430, 5456943929260765144);
    lemma_square(549755813760, 5456943929260765144, 9713644485405565297);
    lemma_square(1099511627520, 9713644485405565297, 16905767614792059275);
}

proof fn lemma_power_chain_sixth()
    ensures
        power_residue(562949953290240, ORDER as int) == 17776499369601055404,
{
    lemma_power_chain_fifth();
    lemma_square(2199023255040, 16905767614792059275, 5416168637041100469);
    lemma_square(4398046510080, 5416168637041100469, 17654865857378133588);
    lemma_square(8796093020160, 17654865857378133588, 3511170319078647661);
    lemma_square(17592186040320, 3511170319078647661, 18146160046829613826);
    lemma_square(35184372080640, 18146160046829613826, 9306717745644682924);
    lemma_square(70368744161280, 9306717745644682924, 12380578893860276750);
    lemma_square(140737488322560, 12380578893860276750, 6115771955107415310);
    lemma_square(281474976645120, 6115771955107415310, 17776499369601055404);
}

proof fn lemma_power_chain_seventh()
    ensures
        power_residue(144115188042301440, ORDER as int) == 17870292113338400769,
{
    lemma_power_chain_sixth();
    lemma_square(562949953290240, 17776499369601055404, 16207902636198568418);
    lemma_square(1125899906580480, 16207902636198568418, 1532612707718625687);
    lemma_square(2251799813160960, 1532612707718625687, 17492915097719143606);
    lemma_square(4503599626321920, 17492915097719143606, 455906449640507599);
    lemma_square(9007199252643840, 455906449640507599, 11353340290879379826);
    lemma_square(18014398505287680, 11353340290879379826, 1803076106186727246);
    lemma_square(36028797010575360, 1803076106186727246, 13797081185216407910);
    lemma_square(72057594021150720, 13797081185216407910, 17870292113338400769);
}

proof fn lemma_power_chain_eighth()
    ensures
        power_residue(9223372034707292160, ORDER as int) == 18446744069414584320,
{
    lemma_power_chain_seventh();
    lemma_square(144115188042301440, 17870292113338400769, 549755813888);
    lemma_square(288230376084602880, 549755813888, 70368744161280);
    lemma_square(576460752169205760, 70368744161280, 17293822564807737345);
    lemma_square(1152921504338411520, 17293822564807737345, 18446744069397807105);
    lemma_square(2305843008676823040, 18446744069397807105, 281474976710656);
    lemma_square(4611686017353646080, 281474976710656, 18446744069414584320);
}

/// `7^((p - 1) / 2)` is `-1` modulo the field order `p`, by thirty-one
/// squarings with a multiplication and thirty-one squarings without.
pub proof fn lemma_half_power_is_minus_one()
    ensures
        power_residue(((ORDER - 1) / 2) as nat, ORDER as int) == ORDER - 1,
{
    lemma_power_chain_eighth();
}

/// Every divisor of the field order other than 1 is at least `2^32`.
pub proof fn lemma_divisors_are_large(d: int)
    requires
        d > 1,
        (ORDER as int) % d == 0,
    ensures
        d >= 0x1_0000_0000,
{
    let p = ORDER as int;
    let half = ((ORDER - 1) / 2) as nat;
    let c = p / d;
    lemma_fundamental_div_mod(p, d);
    assert(c >= 1) by (nonlinear_arith)
        requires
            p == d * c,
            p > 0,
            d > 1,
    ;
    if d == 2 {
        assert(p == 2 * c);
    }
    // the residues modulo d follow from those modulo the order
    lemma_half_power_is_minus_one();
    lemma_mod_mod(pow(7, half), d, c);
    assert(power_residue(half, d) == (p - 1) % d);
    assert(p - 1 == d * (c - 1) + (d - 1)) by (nonlinear_arith)
        requires
            p == d * c,
    ;
    lemma_mod_multiples_vanish(c - 1, d - 1, d);
    lemma_small_mod((d - 1) as nat, d as nat);
    assert(power_residue(half, d) == d - 1);
    lemma_residue_adds(half, half, d);
    assert((d - 1) * (d - 1) == d * (d - 2) + 1) by (nonlinear_arith);
    lemma_mod_multiples_vanish(d - 2, 1, d);
    lemma_small_mod(1, d as nat);
    let full = (half + half) as nat;
    assert(power_residue(full, d) == 1);
    // the order of 7 modulo d divides p - 1 with an odd cofactor
    let e = lemma_order_exists(full, d);
    lemma_order_divides(e, full, d);
    let t = (full / e) as int;
    lemma_fundamental_div_mod(full as int, e as int);
    assert(t >= 1) by (nonlinear_arith)
        requires
            full == e * t,
            full > 0,
            e > 0,
    ;
    if t % 2 == 0 {
        let t2 = (t / 2) as nat;
        assert(half == t2 * e) by (nonlinear_arith)
            requires
                half + half == e * t,
                t == 2 * t2,
        ;
        lemma_residue_of_multiple(e, t2, d);
    }
    lemma2_to64();
    assert((e * t) % (pow2(32) as int) == 0) by {
        assert(e * t == 0x1_0000_0000 * 0xFFFF_FFFF);
        lemma_mod_multiples_basic(0xFFFF_FFFF, 0x1_0000_0000);
        assert(0x1_0000_0000 * 0xFFFF_FFFF == 0xFFFF_FFFF * 0x1_0000_0000) by (nonlinear_arith);
    }
    lemma_odd_cofactor(32, e as int, t);
    lemma_fundamental_div_mod(e as int, 0x1_0000_0000);
    let u = (e as int) / 0x1_0000_0000;
    assert(u >= 1) by (nonlinear_arith)
        requires
            e == 0x1_0000_0000 * u,
            e > 0,
    ;
    lemma_order_bounded(e, d);
}

/// The field order is prime: it has no divisor strictly between 1 and itself.
pub proof fn lemma_order_is_prime(d: int)
    requires
        1 < d < ORDER,
    ensures
        (ORDER as int) % d != 0,
{
    let p = ORDER as int;
    if p % d == 0 {
        let c = p / d;
        lemma_fundamental_div_mod(p, d);
        assert(c > 1) by (nonlinear_arith)
            requires
                p == d * c,
                1 < d < p,
        ;
        assert(p == c * d) by (nonlinear_arith)
            requires
                p == d * c,
        ;
        lemma_mod_multiples_basic(d, c);
        lemma_divisors_are_large(d);
        lemma_divisors_are_large(c);
        assert(d * c >= 0x1_0000_0000 * 0x1_0000_0000) by (nonlinear_arith)
            requires
                d >= 0x1_0000_0000,
                c >= 0x1_0000_0000,
        ;
    }
}

/// A common divisor `g` of `a` and `b` together with coefficients `x`, `y`
/// such that `a * x + b * y == g`.
pub proof fn lemma_bezout(a: int, b: int) -> (r: (int, int, int))
    requires
        a >= 0,
        b >= 0,
        a + b > 0,
    ensures
        r.0 > 0,
        a % r.0 == 0,
        b % r.0 == 0,
        a * r.1 + b * r.2 == r.0,
    decreases b,
{
    if b == 0 {
        lemma_mod_multiples_basic(1, a);
        assert(a * 1 + b * 0 == a) by (nonlinear_arith);
        (a, 1, 0)
    } else {
        let q = a / b;
        let rem = a % b;
        lemma_fundamental_div_mod(a, b);
        lemma_mod_bound(a, b);
        let (g, x, y) = lemma_bezout(b, rem);
        let u = b / g;
        let v = rem / g;
        lemma_fundamental_div_mod(b, g);
        lemma_fundamental_div_mod(rem, g);
        assert(a == (u * q + v) * g) by (nonlinear_arith)
            requires
                a == b * q + rem,
                b == g * u,
                rem == g * v,
        ;
        lemma_mod_multiples_basic(u * q + v, g);
        assert(a * y + b * (x - q * y) == g) by (nonlinear_arith)
            requires
                a == b * q + rem,
                b * x + rem * y == g,
        ;
        (g, y, x - q * y)
    }
}

/// The field has no zero divisors: a product of two nonzero elements is
/// nonzero.
pub proof fn lemma_no_zero_divisors(a: u64, b: u64)
    requires
        0 < a < ORDER,
        0 < b < ORDER,
    ensures
        (a * b) % (ORDER as int) != 0,
{
    let p = ORDER as int;
    if (a * b) % p == 0 {
        let (g, x, y) = lemma_bezout(a as int, p);
        // g divides a, so it is below p; it divides p, so it is 1
        let u = (a as int) / g;
        lemma_fundamental_div_mod(a as int, g);
        assert(g <= a) by (nonlinear_arith)
            requires
                a == g * u,
                a > 0,
                g > 0,
        ;
        if g > 1 {
            lemma_order_is_prime(g);
        }
        let k = (a * b) / p;
        lemma_fundamental_div_mod(a * b, p);
        assert(b == (k * x + b * y) * p) by (nonlinear_arith)
            requires
                a * x + p * y == 1,
                a * b == p * k,
        ;
        lemma_mod_multiples_basic(k * x + b * y, p);
        lemma_small_mod(b as nat, p as nat);
    }
}

} // verus!
