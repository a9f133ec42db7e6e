//! The signed gadget decomposition of torus elements.
use crate::core_crypto::commons::numeric::torus;
use crate::core_crypto::commons::parameters::{DecompositionBaseLog, DecompositionLevelCount};
use vstd::arithmetic::power2::pow2;
use vstd::prelude::*;

verus! {

/// Whether a gadget of `level` digits in base `2^base_log` fits in a scalar, with at least one
/// bit left to round away.
pub open spec fn is_valid_gadget(base_log: int, level: int) -> bool {
    base_log >= 1 && level >= 1 && base_log * level <= 63
}

/// The integer whose digits in base `2^base_log` are all `2^base_log / 2 - 1`, on `levels`
/// digits. Adding it turns balanced digits into plain ones.
pub open spec fn balanced_offset(base_log: nat, levels: nat) -> int
    decreases levels,
{
    if levels == 0 {
        0
    } else {
        balanced_offset(base_log, (levels - 1) as nat) * pow2(base_log) + (pow2(base_log) / 2
            - 1)
    }
}

/// The multiple of `2^(64 - base_log * levels)` that is closest to `x`, counted in that unit
/// and modulo `2^(base_log * levels)`; a tie is rounded up.
pub open spec fn closest_representable(x: u64, base_log: nat, levels: nat) -> int {
    let unit = pow2((64 - base_log * levels) as nat) as int;
    ((x + unit / 2) / unit) % (pow2(base_log * levels) as int)
}

/// The digit of level `level` of `x`, as an integer in `(-2^(base_log - 1), 2^(base_log - 1)]`.
/// Level 1 is the most significant: its weight is `2^(64 - base_log)`.
pub open spec fn signed_digit(x: u64, base_log: nat, levels: nat, level: nat) -> int {
    let shifted = (closest_representable(x, base_log, levels) + balanced_offset(base_log, levels))
        % (pow2(base_log * levels) as int);
    (shifted / (pow2((base_log * (levels - level)) as nat) as int)) % (pow2(base_log) as int) - (
    pow2(base_log) / 2 - 1)
}

/// The digit of level `level` of `x`, as a torus element.
pub open spec fn decomposition_digit(x: u64, base_log: nat, levels: nat, level: nat) -> u64 {
    torus(signed_digit(x, base_log, levels, level))
}

/// The polynomial of the digits of level `level` of the coefficients of `p`.
pub open spec fn decomposed_polynomial(p: Seq<u64>, base_log: nat, levels: nat, level: nat) -> Seq<
    u64,
> {
    Seq::new(p.len(), |t: int| decomposition_digit(p[t], base_log, levels, level))
}

/// The weight of the digits of level `level`: `2^(64 - base_log * level)`.
pub open spec fn gadget_weight(base_log: nat, level: nat) -> u64 {
    pow2((64 - base_log * level) as nat) as u64
}

/// Compute `2^exponent`.
pub fn power_of_two(exponent: usize) -> (power: u64)
    requires
        exponent <= 63,
    ensures
        power == pow2(exponent as nat),
        1 <= power <= 0x8000_0000_0000_0000,
{
    proof {
        vstd::bits::lemma_u64_pow2_no_overflow(exponent as nat);
        vstd::bits::lemma_u64_shl_is_mul(1u64, exponent as u64);
        vstd::arithmetic::power2::lemma2_to64_rest();
        if exponent < 63 {
            vstd::arithmetic::power2::lemma_pow2_strictly_increases(exponent as nat, 63);
        }
    }
    1u64 << (exponent as u64)
}

/// The products of the exponents of a gadget are ordered as the levels are.
pub proof fn lemma_gadget_exponents(base_log: int, levels: int, level: int)
    requires
        is_valid_gadget(base_log, levels),
        0 <= level <= levels,
    ensures
        0 <= base_log * level <= base_log * levels <= 63,
        base_log * (levels - level) == base_log * levels - base_log * level,
        level >= 1 ==> base_log * level >= base_log,
        level >= 1 ==> base_log * level == base_log * (level - 1) + base_log,
{
    assert(0 <= base_log * level <= base_log * levels) by (nonlinear_arith)
        requires
            base_log >= 1,
            0 <= level <= levels,
    ;
    assert(base_log * (levels - level) == base_log * levels - base_log * level)
        by (nonlinear_arith);
    if level >= 1 {
        assert(base_log * level == base_log * (level - 1) + base_log) by (nonlinear_arith);
        assert(base_log * (level - 1) >= 0) by (nonlinear_arith)
            requires
                base_log >= 1,
                level >= 1,
        ;
    }
}

/// The offset of balanced digits on `levels` digits is below `2^(base_log * levels)`.
pub proof fn lemma_balanced_offset_bound(base_log: nat, levels: nat)
    requires
        base_log >= 1,
    ensures
        0 <= balanced_offset(base_log, levels) < pow2(base_log * levels),
    decreases levels,
{
    vstd::arithmetic::power2::lemma_pow2_pos(base_log * levels);
    if levels > 0 {
        lemma_balanced_offset_bound(base_log, (levels - 1) as nat);
        let before = balanced_offset(base_log, (levels - 1) as nat);
        let base = pow2(base_log) as int;
        let below = pow2(base_log * ((levels - 1) as nat)) as int;
        vstd::arithmetic::power2::lemma_pow2_pos(base_log);
        vstd::arithmetic::power2::lemma_pow2_unfold(base_log);
        vstd::arithmetic::power2::lemma_pow2_pos((base_log - 1) as nat);
        vstd::arithmetic::power2::lemma_pow2_adds(base_log * ((levels - 1) as nat), base_log);
        assert(base_log * ((levels - 1) as nat) + base_log == base_log * levels)
            by (nonlinear_arith)
            requires
                levels >= 1,
        ;
        assert(before * base + (base / 2 - 1) < below * base) by (nonlinear_arith)
            requires
                0 <= before <= below - 1,
                base >= 2,
        ;
        assert(0 <= before * base + (base / 2 - 1)) by (nonlinear_arith)
            requires
                0 <= before,
                base >= 2,
        ;
    } else {
        assert(base_log * levels == 0) by (nonlinear_arith)
            requires
                levels == 0,
        ;
    }
}

/// A signed decomposer: the gadget and the constants that its digits are computed with.
#[derive(Clone, Copy, Debug, PartialEq, Eq, Structural)]
pub struct SignedDecomposer {
    pub base_log: usize,
    pub level_count: usize,
    /// `2^base_log`
    pub base: u64,
    /// `2^(base_log * level_count)`
    pub modulus: u64,
    /// `2^(64 - base_log * level_count)`
    pub rounding: u64,
    /// The offset of balanced digits.
    pub offset: u64,
}

impl SignedDecomposer {
    /// The constants are the ones of the gadget.
    pub open spec fn wf(&self) -> bool {
        &&& is_valid_gadget(self.base_log as int, self.level_count as int)
        &&& self.base == pow2(self.base_log as nat)
        &&& self.modulus == pow2((self.base_log * self.level_count) as nat)
        &&& self.rounding == pow2((64 - self.base_log * self.level_count) as nat)
        &&& self.offset == balanced_offset(self.base_log as nat, self.level_count as nat)
    }

    /// The decomposer of a gadget.
    pub fn new(base_log: DecompositionBaseLog, level: DecompositionLevelCount) -> (decomposer: Self)
        requires
            is_valid_gadget(base_log.0 as int, level.0 as int),
        ensures
            decomposer.wf(),
            decomposer.base_log == base_log.0,
            decomposer.level_count == level.0,
    {
        proof {
            lemma_gadget_exponents(base_log.0 as int, level.0 as int, level.0 as int);
        }
        let base = power_of_two(base_log.0);
        let modulus = power_of_two(base_log.0 * level.0);
        let rounding = power_of_two(64 - base_log.0 * level.0);
        proof {
            vstd::arithmetic::power2::lemma_pow2_unfold(base_log.0 as nat);
            vstd::arithmetic::power2::lemma_pow2_pos((base_log.0 - 1) as nat);
        }
        let digit = base / 2 - 1;
        let mut offset: u64 = 0;
        let mut i: usize = 0;
        while i < level.0
            invariant
                is_valid_gadget(base_log.0 as int, level.0 as int),
                i <= level.0,
                base == pow2(base_log.0 as nat),
                base >= 2,
                digit == base / 2 - 1,
                offset == balanced_offset(base_log.0 as nat, i as nat),
            decreases level.0 - i,
        {
            proof {
                lemma_balanced_offset_bound(base_log.0 as nat, i as nat);
                lemma_balanced_offset_bound(base_log.0 as nat, (i + 1) as nat);
                lemma_gadget_exponents(base_log.0 as int, level.0 as int, i + 1);
                vstd::bits::lemma_u64_pow2_no_overflow((base_log.0 * (i + 1)) as nat);
                assert(offset * base >= 0) by (nonlinear_arith)
                    requires
                        offset >= 0,
                        base >= 0,
                ;
            }
            offset = offset * base + digit;
            i += 1;
        }
        SignedDecomposer {
            base_log: base_log.0,
            level_count: level.0,
            base,
            modulus,
            rounding,
            offset,
        }
    }

    /// The digit of level `level` of `x`.
    pub fn digit(&self, x: u64, level: usize) -> (digit: u64)
        requires
            self.wf(),
            1 <= level <= self.level_count,
        ensures
            digit == decomposition_digit(
                x,
                self.base_log as nat,
                self.level_count as nat,
                level as nat,
            ),
    {
        proof {
            lemma_gadget_exponents(self.base_log as int, self.level_count as int, level as int);
            vstd::arithmetic::power2::lemma_pow2_pos(
                (64 - self.base_log * self.level_count) as nat,
            );
            vstd::arithmetic::power2::lemma_pow2_pos((self.base_log * self.level_count) as nat);
            vstd::arithmetic::power2::lemma_pow2_pos(self.base_log as nat);
            vstd::arithmetic::power2::lemma_pow2_unfold(self.base_log as nat);
            vstd::arithmetic::power2::lemma_pow2_pos((self.base_log - 1) as nat);
        }
        let divisor = power_of_two(self.base_log * (self.level_count - level));
        let closest: u128 = ((x as u128 + (self.rounding / 2) as u128) / (self.rounding as u128))
            % (self.modulus as u128);
        let shifted: u128 = (closest + self.offset as u128) % (self.modulus as u128);
        let plain: u64 = ((shifted / (divisor as u128)) % (self.base as u128)) as u64;
        let half_minus = self.base / 2 - 1;
        proof {
            crate::core_crypto::commons::numeric::lemma_wrapping_is_torus(plain, half_minus);
        }
        plain.wrapping_sub(half_minus)
    }

    /// The weight of the digits of level `level`: `2^(64 - base_log * level)`.
    pub fn gadget_weight(&self, level: usize) -> (weight: u64)
        requires
            self.wf(),
            1 <= level <= self.level_count,
        ensures
            weight == gadget_weight(self.base_log as nat, level as nat),
    {
        proof {
            lemma_gadget_exponents(self.base_log as int, self.level_count as int, level as int);
        }
        power_of_two(64 - self.base_log * level)
    }

    /// Append to `output` the digits of level `level` of the scalars of `input`.
    pub fn append_decomposed(&self, output: &mut Vec<u64>, input: &[u64], level: usize)
        requires
            self.wf(),
            1 <= level <= self.level_count,
        ensures
            final(output)@ == old(output)@ + decomposed_polynomial(
                input@,
                self.base_log as nat,
                self.level_count as nat,
                level as nat,
            ),
    {
        let n = input.len();
        let mut t: usize = 0;
        while t < n
            invariant
                self.wf(),
                1 <= level <= self.level_count,
                n == input@.len(),
                t <= n,
                output@.len() == old(output)@.len() + t,
                forall|j: int| 0 <= j < old(output)@.len() ==> output@[j] == old(output)@[j],
                forall|j: int|
                    0 <= j < t ==> output@[old(output)@.len() + j] == decomposition_digit(
                        input@[j],
                        self.base_log as nat,
                        self.level_count as nat,
                        level as nat,
                    ),
            decreases n - t,
        {
            let digit = self.digit(input[t], level);
            output.push(digit);
            t += 1;
        }
        assert(output@ =~= old(output)@ + decomposed_polynomial(
            input@,
            self.base_log as nat,
            self.level_count as nat,
            level as nat,
        ));
    }
}


/// The sum of the first `count` digits of `x`, each times the weight of its level.
pub open spec fn recomposed(x: u64, base_log: nat, levels: nat, count: nat) -> int
    decreases count,
{
    if count == 0 {
        0
    } else {
        recomposed(x, base_log, levels, (count - 1) as nat) + signed_digit(
            x,
            base_log,
            levels,
            count,
        ) * pow2((64 - base_log * count) as nat)
    }
}

/// What the decomposition rounds away: the closest multiple of `2^(64 - base_log * levels)`
/// minus `x`.
pub open spec fn rounding_error(x: u64, base_log: nat, levels: nat) -> int {
    let unit = pow2((64 - base_log * levels) as nat) as int;
    ((x + unit / 2) / unit) * unit - x
}

/// The digits of `x` before they are balanced, as digits of the shifted index of the closest
/// multiple.
pub open spec fn shifted_index(x: u64, base_log: nat, levels: nat) -> int {
    (closest_representable(x, base_log, levels) + balanced_offset(base_log, levels)) % (pow2(
        base_log * levels,
    ) as int)
}

/// The sum of the first `count` plain digits of `t`, from the most significant, each times
/// its power of the base.
pub open spec fn leading_digits(t: int, base_log: nat, levels: nat, count: nat) -> int
    decreases count,
{
    if count == 0 {
        0
    } else {
        leading_digits(t, base_log, levels, (count - 1) as nat) + ((t / (pow2(
            (base_log * (levels - count)) as nat,
        ) as int)) % (pow2(base_log) as int)) * pow2((base_log * (levels - count)) as nat)
    }
}

/// The sum of the offsets of the first `count` digits, from the most significant, each
/// times its power of the base.
pub open spec fn leading_offsets(base_log: nat, levels: nat, count: nat) -> int
    decreases count,
{
    if count == 0 {
        0
    } else {
        leading_offsets(base_log, levels, (count - 1) as nat) + (pow2(base_log) / 2 - 1) * pow2(
            (base_log * (levels - count)) as nat,
        )
    }
}

/// The leading digits of a number are the number without what is below them.
pub proof fn lemma_leading_digits(t: int, base_log: nat, levels: nat, count: nat)
    requires
        is_valid_gadget(base_log as int, levels as int),
        count <= levels,
        0 <= t < pow2(base_log * levels),
    ensures
        leading_digits(t, base_log, levels, count) == (t / (pow2(
            (base_log * (levels - count)) as nat,
        ) as int)) * pow2((base_log * (levels - count)) as nat),
    decreases count,
{
    lemma_gadget_exponents(base_log as int, levels as int, count as int);
    let low = (base_log * (levels - count)) as nat;
    vstd::arithmetic::power2::lemma_pow2_pos(low);
    if count == 0 {
        assert(low == base_log * levels);
        vstd::arithmetic::div_mod::lemma_basic_div(t, pow2(low) as int);
        assert((t / (pow2(low) as int)) * pow2(low) == 0) by (nonlinear_arith)
            requires
                t / (pow2(low) as int) == 0,
        ;
    } else {
        let before = (count - 1) as nat;
        lemma_leading_digits(t, base_log, levels, before);
        lemma_gadget_exponents(base_log as int, levels as int, before as int);
        let high = (base_log * (levels - before)) as nat;
        assert(high == low + base_log) by (nonlinear_arith)
            requires
                high == base_log * (levels - before),
                low == base_log * (levels - count),
                before == count - 1,
        ;
        vstd::arithmetic::power2::lemma_pow2_adds(low, base_log);
        vstd::arithmetic::power2::lemma_pow2_pos(base_log);
        let a = pow2(low) as int;
        let b = pow2(base_log) as int;
        let u = t / a;
        assert(pow2(high) == a * b);
        vstd::arithmetic::div_mod::lemma_div_denominator(t, a, b);
        assert(t / (a * b) == u / b);
        vstd::arithmetic::div_mod::lemma_fundamental_div_mod(u, b);
        assert((u / b) * (a * b) + (u % b) * a == u * a) by (nonlinear_arith)
            requires
                u == b * (u / b) + u % b,
        ;
        assert(leading_digits(t, base_log, levels, before) == (t / (pow2(high) as int)) * pow2(
            high,
        ));
        assert(leading_digits(t, base_log, levels, count) == leading_digits(
            t,
            base_log,
            levels,
            before,
        ) + ((t / a) % b) * a);
    }
}

/// The leading offsets, times the base minus one, telescope.
pub proof fn lemma_leading_offsets(base_log: nat, levels: nat, count: nat)
    requires
        is_valid_gadget(base_log as int, levels as int),
        count <= levels,
    ensures
        leading_offsets(base_log, levels, count) * (pow2(base_log) - 1) == (pow2(base_log) / 2
            - 1) * (pow2(base_log * levels) - pow2((base_log * (levels - count)) as nat)),
    decreases count,
{
    lemma_gadget_exponents(base_log as int, levels as int, count as int);
    if count == 0 {
        assert(base_log * (levels - 0) == base_log * levels);
    } else {
        lemma_leading_offsets(base_log, levels, (count - 1) as nat);
        lemma_gadget_exponents(base_log as int, levels as int, count - 1);
        let low = (base_log * (levels - count)) as nat;
        let high = (base_log * (levels - (count - 1))) as nat;
        assert(high == low + base_log) by (nonlinear_arith)
            requires
                high == base_log * (levels - (count - 1)),
                low == base_log * (levels - count),
        ;
        vstd::arithmetic::power2::lemma_pow2_adds(low, base_log);
        let a = pow2(low) as int;
        let b = pow2(base_log) as int;
        let c = b / 2 - 1;
        let top = pow2(base_log * levels) as int;
        let before = leading_offsets(base_log, levels, (count - 1) as nat);
        assert((before + c * a) * (b - 1) == c * (top - a)) by (nonlinear_arith)
            requires
                before * (b - 1) == c * (top - a * b),
        ;
    }
}

/// The offset of balanced digits, times the base minus one, telescopes.
pub proof fn lemma_balanced_offset_closed_form(base_log: nat, levels: nat)
    requires
        base_log >= 1,
    ensures
        balanced_offset(base_log, levels) * (pow2(base_log) - 1) == (pow2(base_log) / 2 - 1) * (
        pow2(base_log * levels) - 1),
    decreases levels,
{
    let b = pow2(base_log) as int;
    let c = b / 2 - 1;
    if levels == 0 {
        assert(base_log * levels == 0) by (nonlinear_arith)
            requires
                levels == 0,
        ;
        vstd::arithmetic::power2::lemma2_to64();
        assert(balanced_offset(base_log, levels) == 0);
        assert(c * (pow2(base_log * levels) - 1) == 0) by (nonlinear_arith)
            requires
                pow2(base_log * levels) == 1,
        ;
        assert(balanced_offset(base_log, levels) * (b - 1) == 0) by (nonlinear_arith)
            requires
                balanced_offset(base_log, levels) == 0,
        ;
    } else {
        let fewer = (levels - 1) as nat;
        lemma_balanced_offset_closed_form(base_log, fewer);
        let below = base_log * fewer;
        assert(below + base_log == base_log * levels) by (nonlinear_arith)
            requires
                below == base_log * fewer,
                fewer == levels - 1,
        ;
        vstd::arithmetic::power2::lemma_pow2_adds(below, base_log);
        let a = pow2(below) as int;
        let before = balanced_offset(base_log, fewer);
        assert(pow2(base_log * levels) == a * b);
        assert(balanced_offset(base_log, levels) == before * b + c);
        assert((before * b + c) * (b - 1) == (before * (b - 1)) * b + c * (b - 1))
            by (nonlinear_arith);
        assert((c * (a - 1)) * b + c * (b - 1) == c * (a * b - 1)) by (nonlinear_arith);
    }
}

/// The first `count` digits, each times the weight of its level, are the leading plain
/// digits minus the leading offsets, in units of the rounding.
pub proof fn lemma_recomposed_leading(x: u64, base_log: nat, levels: nat, count: nat)
    requires
        is_valid_gadget(base_log as int, levels as int),
        count <= levels,
    ensures
        recomposed(x, base_log, levels, count) == (leading_digits(
            shifted_index(x, base_log, levels),
            base_log,
            levels,
            count,
        ) - leading_offsets(base_log, levels, count)) * pow2((64 - base_log * levels) as nat),
    decreases count,
{
    let t = shifted_index(x, base_log, levels);
    let unit_log = (64 - base_log * levels) as nat;
    let r = pow2(unit_log) as int;
    if count == 0 {
        assert((0 - 0) * r == 0) by (nonlinear_arith);
    } else {
        let before = (count - 1) as nat;
        lemma_recomposed_leading(x, base_log, levels, before);
        lemma_gadget_exponents(base_log as int, levels as int, count as int);
        let low = (base_log * (levels - count)) as nat;
        assert(low + unit_log == 64 - base_log * count);
        vstd::arithmetic::power2::lemma_pow2_adds(low, unit_log);
        let a = pow2(low) as int;
        let b = pow2(base_log) as int;
        let p = (t / a) % b;
        let c = b / 2 - 1;
        let before_digits = leading_digits(t, base_log, levels, before);
        let before_offsets = leading_offsets(base_log, levels, before);
        assert(pow2((64 - base_log * count) as nat) == a * r);
        assert(signed_digit(x, base_log, levels, count) == p - c);
        assert(recomposed(x, base_log, levels, count) == recomposed(
            x,
            base_log,
            levels,
            before,
        ) + (p - c) * (a * r));
        assert(leading_digits(t, base_log, levels, count) == before_digits + p * a);
        assert(leading_offsets(base_log, levels, count) == before_offsets + c * a);
        assert((before_digits - before_offsets) * r + (p - c) * (a * r) == ((before_digits + p
            * a) - (before_offsets + c * a)) * r) by (nonlinear_arith);
    }
}

/// The digits of `x` are balanced: each is in `(-2^(base_log - 1), 2^(base_log - 1)]`.
pub proof fn lemma_signed_digit_range(x: u64, base_log: nat, levels: nat, level: nat)
    requires
        is_valid_gadget(base_log as int, levels as int),
        1 <= level <= levels,
    ensures
        -(pow2(base_log) / 2) < signed_digit(x, base_log, levels, level) <= pow2(base_log) / 2,
{
    vstd::arithmetic::power2::lemma_pow2_pos(base_log);
    vstd::arithmetic::power2::lemma_pow2_unfold(base_log);
    let t = shifted_index(x, base_log, levels);
    let a = pow2((base_log * (levels - level)) as nat) as int;
    vstd::arithmetic::div_mod::lemma_mod_bound(t / a, pow2(base_log) as int);
}

/// The decomposition rounds to the closest multiple: what it rounds away is at most half of
/// the unit, in absolute value.
pub proof fn lemma_rounding_error_range(x: u64, base_log: nat, levels: nat)
    requires
        is_valid_gadget(base_log as int, levels as int),
    ensures
        -(pow2((64 - base_log * levels) as nat) / 2) <= rounding_error(x, base_log, levels) <= pow2(
            (64 - base_log * levels) as nat,
        ) / 2,
{
    lemma_gadget_exponents(base_log as int, levels as int, levels as int);
    let unit_log = (64 - base_log * levels) as nat;
    vstd::arithmetic::power2::lemma_pow2_pos(unit_log);
    vstd::arithmetic::power2::lemma_pow2_unfold(unit_log);
    vstd::arithmetic::power2::lemma_pow2_pos((unit_log - 1) as nat);
    let unit = pow2(unit_log) as int;
    let shifted = x + unit / 2;
    vstd::arithmetic::div_mod::lemma_fundamental_div_mod(shifted, unit);
    vstd::arithmetic::div_mod::lemma_mod_bound(shifted, unit);
    assert((shifted / unit) * unit == unit * (shifted / unit)) by (nonlinear_arith);
}

/// The digits recompose their number: the sum of the digits of `x`, each times the weight
/// of its level, is the closest multiple of `2^(64 - base_log * levels)` to `x`, on the
/// torus.
pub proof fn lemma_recomposition(x: u64, base_log: nat, levels: nat)
    requires
        is_valid_gadget(base_log as int, levels as int),
    ensures
        crate::core_crypto::commons::numeric::congruent(
            recomposed(x, base_log, levels, levels),
            x + rounding_error(x, base_log, levels),
        ),
{
    lemma_gadget_exponents(base_log as int, levels as int, levels as int);
    let unit_log = (64 - base_log * levels) as nat;
    let top_log = base_log * levels;
    vstd::arithmetic::power2::lemma_pow2_pos(unit_log);
    vstd::arithmetic::power2::lemma_pow2_pos(top_log);
    vstd::arithmetic::power2::lemma_pow2_pos(base_log);
    vstd::arithmetic::power2::lemma_pow2_unfold(base_log);
    vstd::arithmetic::power2::lemma_pow2_pos((base_log - 1) as nat);
    vstd::arithmetic::power2::lemma_pow2_adds(top_log, unit_log);
    vstd::arithmetic::power2::lemma2_to64();
    let r = pow2(unit_log) as int;
    let q = pow2(top_log) as int;
    let b = pow2(base_log) as int;
    assert(q * r == 0x1_0000_0000_0000_0000);
    let offset = balanced_offset(base_log, levels);
    let closest = closest_representable(x, base_log, levels);
    let t = shifted_index(x, base_log, levels);
    vstd::arithmetic::div_mod::lemma_mod_bound(closest + offset, q);
    lemma_recomposed_leading(x, base_log, levels, levels);
    lemma_leading_digits(t, base_log, levels, levels);
    lemma_leading_offsets(base_log, levels, levels);
    lemma_balanced_offset_closed_form(base_log, levels);
    assert(base_log * (levels - levels) == 0) by (nonlinear_arith);
    assert(pow2(0) == 1);
    let offsets = leading_offsets(base_log, levels, levels);
    assert(offsets == offset) by (nonlinear_arith)
        requires
            offsets * (b - 1) == (b / 2 - 1) * (q - 1),
            offset * (b - 1) == (b / 2 - 1) * (q - 1),
            b >= 2,
    ;
    assert(leading_digits(t, base_log, levels, levels) == t) by (nonlinear_arith)
        requires
            leading_digits(t, base_log, levels, levels) == (t / 1) * 1,
    ;
    // recomposed == (t - offset) * r
    let q0 = (x + r / 2) / r;
    vstd::arithmetic::div_mod::lemma_fundamental_div_mod(closest + offset, q);
    vstd::arithmetic::div_mod::lemma_fundamental_div_mod(q0, q);
    let k1 = (closest + offset) / q;
    let k2 = q0 / q;
    // t == closest + offset - q * k1, closest == q0 - q * k2
    assert((t - offset) * r == q0 * r - (k1 + k2) * (q * r)) by (nonlinear_arith)
        requires
            closest + offset == q * k1 + t,
            q0 == q * k2 + closest,
    ;
    crate::core_crypto::commons::numeric::lemma_congruent_multiple(q0 * r, -(k1 + k2));
    assert(q0 * r - (k1 + k2) * (q * r) == q0 * r + (-(k1 + k2)) * 0x1_0000_0000_0000_0000)
        by (nonlinear_arith)
        requires
            q * r == 0x1_0000_0000_0000_0000,
    ;
}

} // verus!
