//! Unsigned machine integers seen as residues modulo a power of two.
use vstd::prelude::*;

verus! {

/// An unsigned integer of fixed width, read as an element of the ring of integers modulo
/// `2^width`.
///
/// `to_int` gives the canonical representative of a value and `of_int` reduces an arbitrary
/// integer into the ring, so every wrapping operation is the ring operation on representatives.
pub trait UnsignedInteger: Copy + Sized {
    /// The canonical representative, in `[0, modulus())`.
    spec fn to_int(self) -> int;

    /// The residue class of `i`.
    spec fn of_int(i: int) -> Self;

    /// The number of values of the type, `2^width`.
    spec fn modulus() -> int;

    proof fn lemma_modulus()
        ensures
            Self::modulus() > 2,
    ;

    proof fn lemma_to_of(i: int)
        ensures
            Self::of_int(i).to_int() == i % Self::modulus(),
    ;

    proof fn lemma_of_to(x: Self)
        ensures
            Self::of_int(x.to_int()) == x,
    ;

    fn zero() -> (r: Self)
        ensures
            r == Self::of_int(0),
    ;

    fn one() -> (r: Self)
        ensures
            r == Self::of_int(1),
    ;

    fn two() -> (r: Self)
        ensures
            r == Self::of_int(2),
    ;

    fn wrapping_add(self, rhs: Self) -> (r: Self)
        ensures
            r == Self::of_int(self.to_int() + rhs.to_int()),
    ;

    fn wrapping_sub(self, rhs: Self) -> (r: Self)
        ensures
            r == Self::of_int(self.to_int() - rhs.to_int()),
    ;

    fn wrapping_mul(self, rhs: Self) -> (r: Self)
        ensures
            r == Self::of_int(self.to_int() * rhs.to_int()),
    ;

    fn wrapping_neg(self) -> (r: Self)
        ensures
            r == Self::of_int(-self.to_int()),
    ;

    fn wrapping_rem(self, rhs: Self) -> (r: Self)
        requires
            rhs.to_int() != 0,
        ensures
            r == Self::of_int(self.to_int() % rhs.to_int()),
    ;

    fn wrapping_div(self, rhs: Self) -> (r: Self)
        requires
            rhs.to_int() != 0,
        ensures
            r == Self::of_int(self.to_int() / rhs.to_int()),
    ;
}

/// Every canonical representative lies in `[0, modulus())`.
pub proof fn lemma_to_int_range<S: UnsignedInteger>(x: S)
    ensures
        0 <= x.to_int() < S::modulus(),
{
    S::lemma_modulus();
    S::lemma_of_to(x);
    S::lemma_to_of(x.to_int());
    vstd::arithmetic::div_mod::lemma_mod_bound(x.to_int(), S::modulus());
}

/// Integers that are congruent modulo `modulus()` have the same residue class.
pub proof fn lemma_of_int_congruent<S: UnsignedInteger>(a: int, b: int)
    requires
        a % S::modulus() == b % S::modulus(),
    ensures
        S::of_int(a) == S::of_int(b),
{
    S::lemma_to_of(a);
    S::lemma_to_of(b);
    S::lemma_of_to(S::of_int(a));
    S::lemma_of_to(S::of_int(b));
}

/// A representative that is already canonical is left alone by `of_int`.
pub proof fn lemma_of_int_small<S: UnsignedInteger>(a: int)
    requires
        0 <= a < S::modulus(),
    ensures
        S::of_int(a).to_int() == a,
{
    S::lemma_to_of(a);
    vstd::arithmetic::div_mod::lemma_small_mod(a as nat, S::modulus() as nat);
}

impl UnsignedInteger for u8 {
    open spec fn to_int(self) -> int {
        self as int
    }

    open spec fn of_int(i: int) -> Self {
        (i % 0x100) as u8
    }

    open spec fn modulus() -> int {
        0x100
    }

    proof fn lemma_modulus() {
    }

    proof fn lemma_to_of(i: int) {
    }

    proof fn lemma_of_to(x: Self) {
    }

    fn zero() -> (r: Self) {
        0
    }

    fn one() -> (r: Self) {
        1
    }

    fn two() -> (r: Self) {
        2
    }

    fn wrapping_add(self, rhs: Self) -> (r: Self) {
        u8::wrapping_add(self, rhs)
    }

    fn wrapping_sub(self, rhs: Self) -> (r: Self) {
        u8::wrapping_sub(self, rhs)
    }

    fn wrapping_mul(self, rhs: Self) -> (r: Self) {
        u8::wrapping_mul(self, rhs)
    }

    fn wrapping_neg(self) -> (r: Self) {
        u8::wrapping_sub(0, self)
    }

    fn wrapping_rem(self, rhs: Self) -> (r: Self) {
        self % rhs
    }

    fn wrapping_div(self, rhs: Self) -> (r: Self) {
        self / rhs
    }
}

impl UnsignedInteger for u32 {
    open spec fn to_int(self) -> int {
        self as int
    }

    open spec fn of_int(i: int) -> Self {
        (i % 0x1_0000_0000) as u32
    }

    open spec fn modulus() -> int {
        0x1_0000_0000
    }

    proof fn lemma_modulus() {
    }

    proof fn lemma_to_of(i: int) {
    }

    proof fn lemma_of_to(x: Self) {
    }

    fn zero() -> (r: Self) {
        0
    }

    fn one() -> (r: Self) {
        1
    }

    fn two() -> (r: Self) {
        2
    }

    fn wrapping_add(self, rhs: Self) -> (r: Self) {
        u32::wrapping_add(self, rhs)
    }

    fn wrapping_sub(self, rhs: Self) -> (r: Self) {
        u32::wrapping_sub(self, rhs)
    }

    fn wrapping_mul(self, rhs: Self) -> (r: Self) {
        u32::wrapping_mul(self, rhs)
    }

    fn wrapping_neg(self) -> (r: Self) {
        u32::wrapping_sub(0, self)
    }

    fn wrapping_rem(self, rhs: Self) -> (r: Self) {
        self % rhs
    }

    fn wrapping_div(self, rhs: Self) -> (r: Self) {
        self / rhs
    }
}

impl UnsignedInteger for u64 {
    open spec fn to_int(self) -> int {
        self as int
    }

    open spec fn of_int(i: int) -> Self {
        (i % 0x1_0000_0000_0000_0000) as u64
    }

    open spec fn modulus() -> int {
        0x1_0000_0000_0000_0000
    }

    proof fn lemma_modulus() {
    }

    proof fn lemma_to_of(i: int) {
    }

    proof fn lemma_of_to(x: Self) {
    }

    fn zero() -> (r: Self) {
        0
    }

    fn one() -> (r: Self) {
        1
    }

    fn two() -> (r: Self) {
        2
    }

    fn wrapping_add(self, rhs: Self) -> (r: Self) {
        u64::wrapping_add(self, rhs)
    }

    fn wrapping_sub(self, rhs: Self) -> (r: Self) {
        u64::wrapping_sub(self, rhs)
    }

    fn wrapping_mul(self, rhs: Self) -> (r: Self) {
        u64::wrapping_mul(self, rhs)
    }

    fn wrapping_neg(self) -> (r: Self) {
        u64::wrapping_sub(0, self)
    }

    fn wrapping_rem(self, rhs: Self) -> (r: Self) {
        self % rhs
    }

    fn wrapping_div(self, rhs: Self) -> (r: Self) {
        self / rhs
    }
}

impl UnsignedInteger for u128 {
    open spec fn to_int(self) -> int {
        self as int
    }

    open spec fn of_int(i: int) -> Self {
        (i % (u128::MAX + 1)) as u128
    }

    open spec fn modulus() -> int {
        (u128::MAX + 1)
    }

    proof fn lemma_modulus() {
    }

    proof fn lemma_to_of(i: int) {
    }

    proof fn lemma_of_to(x: Self) {
    }

    fn zero() -> (r: Self) {
        0
    }

    fn one() -> (r: Self) {
        1
    }

    fn two() -> (r: Self) {
        2
    }

    fn wrapping_add(self, rhs: Self) -> (r: Self) {
        u128::wrapping_add(self, rhs)
    }

    fn wrapping_sub(self, rhs: Self) -> (r: Self) {
        u128::wrapping_sub(self, rhs)
    }

    fn wrapping_mul(self, rhs: Self) -> (r: Self) {
        u128::wrapping_mul(self, rhs)
    }

    fn wrapping_neg(self) -> (r: Self) {
        u128::wrapping_sub(0, self)
    }

    fn wrapping_rem(self, rhs: Self) -> (r: Self) {
        self % rhs
    }

    fn wrapping_div(self, rhs: Self) -> (r: Self) {
        self / rhs
    }
}


/// The residue of `i` modulo `2^64`: the torus element that `i` stands for.
pub open spec fn torus(i: int) -> u64 {
    (i % 0x1_0000_0000_0000_0000) as u64
}


/// Reducing an operand early does not change a reduced sum, difference or product.
pub proof fn lemma_torus_absorbs(a: int, b: int)
    ensures
        torus(torus(a) + b) == torus(a + b),
        torus(a + torus(b)) == torus(a + b),
        torus(torus(a) - b) == torus(a - b),
        torus(a - torus(b)) == torus(a - b),
        torus(torus(a) * b) == torus(a * b),
        torus(a * torus(b)) == torus(a * b),
        torus(torus(a) as int) == torus(a),
{
    let m = 0x1_0000_0000_0000_0000int;
    vstd::arithmetic::div_mod::lemma_add_mod_noop(a, b, m);
    vstd::arithmetic::div_mod::lemma_add_mod_noop(a % m, b, m);
    vstd::arithmetic::div_mod::lemma_add_mod_noop(a, b % m, m);
    vstd::arithmetic::div_mod::lemma_sub_mod_noop(a, b, m);
    vstd::arithmetic::div_mod::lemma_sub_mod_noop(a % m, b, m);
    vstd::arithmetic::div_mod::lemma_sub_mod_noop(a, b % m, m);
    vstd::arithmetic::div_mod::lemma_mul_mod_noop(a, b, m);
    vstd::arithmetic::div_mod::lemma_mul_mod_noop(a % m, b, m);
    vstd::arithmetic::div_mod::lemma_mul_mod_noop(a, b % m, m);
    vstd::arithmetic::div_mod::lemma_mod_twice(a, m);
    vstd::arithmetic::div_mod::lemma_mod_twice(b, m);
}

/// The wrapping operations of `u64` are the operations of the torus.
pub proof fn lemma_wrapping_is_torus(x: u64, y: u64)
    ensures
        vstd::wrapping::u64_specs::wrapping_add(x, y) == torus(x + y),
        vstd::wrapping::u64_specs::wrapping_sub(x, y) == torus(x - y),
        vstd::wrapping::u64_specs::wrapping_mul(x, y) == torus(x * y),
{
    assert(x * y >= 0) by (nonlinear_arith)
        requires
            x >= 0,
            y >= 0,
    ;
}

/// A vector of `len` copies of `value`.
pub fn filled_vec(value: u64, len: usize) -> (v: Vec<u64>)
    ensures
        v@ == Seq::new(len as nat, |i: int| value),
{
    let mut v: Vec<u64> = Vec::with_capacity(len);
    let mut i: usize = 0;
    while i < len
        invariant
            i <= len,
            v@.len() == i,
            forall|j: int| 0 <= j < i ==> v@[j] == value,
        decreases len - i,
    {
        v.push(value);
        i += 1;
    }
    assert(v@ =~= Seq::new(len as nat, |i: int| value));
    v
}


/// Append the scalars of `other` to `vec`.
pub fn append_slice(vec: &mut Vec<u64>, other: &[u64])
    ensures
        final(vec)@ == old(vec)@ + other@,
{
    let n = other.len();
    let mut i: usize = 0;
    while i < n
        invariant
            n == other@.len(),
            i <= n,
            vec@ == old(vec)@ + other@.take(i as int),
        decreases n - i,
    {
        vec.push(other[i]);
        assert(vec@ =~= old(vec)@ + other@.take(i + 1));
        i += 1;
    }
    assert(other@.take(n as int) =~= other@);
}


/// Whether two integers stand for the same torus element.
pub open spec fn congruent(x: int, y: int) -> bool {
    torus(x) == torus(y)
}

/// Congruence is kept by sums, differences and products.
pub proof fn lemma_congruent_ops(a: int, b: int, c: int, d: int)
    requires
        congruent(a, b),
        congruent(c, d),
    ensures
        congruent(a + c, b + d),
        congruent(a - c, b - d),
        congruent(a * c, b * d),
{
    lemma_torus_absorbs(a, c);
    lemma_torus_absorbs(b, d);
    lemma_torus_absorbs(torus(a) as int, c);
    lemma_torus_absorbs(torus(b) as int, d);
    assert(torus(a + c) == torus(torus(a) + torus(c)));
    assert(torus(b + d) == torus(torus(b) + torus(d)));
    assert(torus(a - c) == torus(torus(a) - torus(c)));
    assert(torus(b - d) == torus(torus(b) - torus(d)));
    assert(torus(a * c) == torus(torus(a) * torus(c)));
    assert(torus(b * d) == torus(torus(b) * torus(d)));
}

/// An integer is congruent to the torus element that it stands for.
pub proof fn lemma_congruent_torus(a: int)
    ensures
        congruent(torus(a) as int, a),
        congruent(a, torus(a) as int),
        0 <= torus(a) < 0x1_0000_0000_0000_0000,
{
    lemma_torus_absorbs(a, 0);
}

/// Integers that differ by a multiple of `2^64` are congruent.
pub proof fn lemma_congruent_multiple(a: int, k: int)
    ensures
        congruent(a + k * 0x1_0000_0000_0000_0000, a),
{
    vstd::arithmetic::div_mod::lemma_mod_multiples_vanish(k, a, 0x1_0000_0000_0000_0000);
    assert(k * 0x1_0000_0000_0000_0000 + a == 0x1_0000_0000_0000_0000 * k + a)
        by (nonlinear_arith);
}

} // verus!
