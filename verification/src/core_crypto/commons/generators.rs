//! Seedable deterministic random generators.
//!
//! Every generator is a position in a stream of 64-bit words. The stream of a key is the
//! ChaCha20 block function in counter mode, with the 128-bit key expanded as the cipher
//! prescribes for keys of that size, and one word taken from each block.
use crate::core_crypto::commons::numeric::torus;
use crate::core_crypto::commons::parameters::StandardDev;
use vstd::prelude::*;

verus! {

/// A 128-bit seed.
#[derive(Clone, Copy, Debug, PartialEq, Eq, Structural)]
pub struct Seed(pub u128);

/// The seed from which the mask of a seeded entity is generated again.
#[derive(Clone, Copy, Debug, PartialEq, Eq, Structural)]
pub struct CompressionSeed {
    pub seed: Seed,
}

/// The sixteen words of a ChaCha block.
#[derive(Clone, Copy, Debug, PartialEq, Eq, Structural)]
pub struct ChaChaBlock {
    pub w0: u32,
    pub w1: u32,
    pub w2: u32,
    pub w3: u32,
    pub w4: u32,
    pub w5: u32,
    pub w6: u32,
    pub w7: u32,
    pub w8: u32,
    pub w9: u32,
    pub w10: u32,
    pub w11: u32,
    pub w12: u32,
    pub w13: u32,
    pub w14: u32,
    pub w15: u32,
}

/// Addition modulo `2^32`.
pub open spec fn add32(a: u32, b: u32) -> u32 {
    ((a + b) % 0x1_0000_0000) as u32
}

/// The ChaCha quarter round on four words.
#[verifier::opaque]
pub open spec fn quarter_round(a: u32, b: u32, c: u32, d: u32) -> (u32, u32, u32, u32) {
    let a1 = add32(a, b);
    let d1 = d ^ a1;
    let d2 = (d1 << 16) | (d1 >> 16);
    let c1 = add32(c, d2);
    let b1 = b ^ c1;
    let b2 = (b1 << 12) | (b1 >> 20);
    let a2 = add32(a1, b2);
    let d3 = d2 ^ a2;
    let d4 = (d3 << 8) | (d3 >> 24);
    let c2 = add32(c1, d4);
    let b3 = b2 ^ c2;
    let b4 = (b3 << 7) | (b3 >> 25);
    (a2, b4, c2, d4)
}

/// A column round followed by a diagonal round.
#[verifier::opaque]
pub open spec fn double_round(s: ChaChaBlock) -> ChaChaBlock {
    let (c0, c4, c8, c12) = quarter_round(s.w0, s.w4, s.w8, s.w12);
    let (c1, c5, c9, c13) = quarter_round(s.w1, s.w5, s.w9, s.w13);
    let (c2, c6, c10, c14) = quarter_round(s.w2, s.w6, s.w10, s.w14);
    let (c3, c7, c11, c15) = quarter_round(s.w3, s.w7, s.w11, s.w15);
    let (d0, d5, d10, d15) = quarter_round(c0, c5, c10, c15);
    let (d1, d6, d11, d12) = quarter_round(c1, c6, c11, c12);
    let (d2, d7, d8, d13) = quarter_round(c2, c7, c8, c13);
    let (d3, d4, d9, d14) = quarter_round(c3, c4, c9, c14);
    ChaChaBlock {
        w0: d0,
        w1: d1,
        w2: d2,
        w3: d3,
        w4: d4,
        w5: d5,
        w6: d6,
        w7: d7,
        w8: d8,
        w9: d9,
        w10: d10,
        w11: d11,
        w12: d12,
        w13: d13,
        w14: d14,
        w15: d15,
    }
}

/// `count` double rounds.
pub open spec fn double_rounds(s: ChaChaBlock, count: nat) -> ChaChaBlock
    decreases count,
{
    if count == 0 {
        s
    } else {
        double_round(double_rounds(s, (count - 1) as nat))
    }
}

/// The input block of the cipher for a 128-bit key and a 64-bit block counter, with a zero
/// nonce.
#[verifier::opaque]
pub open spec fn input_block(key: u128, counter: u64) -> ChaChaBlock {
    let k0 = (key % 0x1_0000_0000) as u32;
    let k1 = ((key / 0x1_0000_0000) % 0x1_0000_0000) as u32;
    let k2 = ((key / 0x1_0000_0000_0000_0000) % 0x1_0000_0000) as u32;
    let k3 = ((key / 0x1_0000_0000_0000_0000_0000_0000) % 0x1_0000_0000) as u32;
    ChaChaBlock {
        w0: 0x6170_7865,
        w1: 0x3120_646e,
        w2: 0x7962_2d36,
        w3: 0x6b20_6574,
        w4: k0,
        w5: k1,
        w6: k2,
        w7: k3,
        w8: k0,
        w9: k1,
        w10: k2,
        w11: k3,
        w12: (counter % 0x1_0000_0000) as u32,
        w13: (counter / 0x1_0000_0000) as u32,
        w14: 0,
        w15: 0,
    }
}

/// The word at `position` of the stream of `key`: the first two words of the ChaCha20 block
/// of counter `position`, the first one in the low half.
#[verifier::opaque]
pub open spec fn random_word(key: u128, position: u64) -> u64 {
    let input = input_block(key, position);
    let mixed = double_rounds(input, 10);
    (add32(mixed.w0, input.w0) + add32(mixed.w1, input.w1) * 0x1_0000_0000) as u64
}

fn exec_quarter_round(a: u32, b: u32, c: u32, d: u32) -> (r: (u32, u32, u32, u32))
    ensures
        r == quarter_round(a, b, c, d),
{
    reveal(quarter_round);
    let a1 = a.wrapping_add(b);
    let d1 = d ^ a1;
    let d2 = (d1 << 16) | (d1 >> 16);
    let c1 = c.wrapping_add(d2);
    let b1 = b ^ c1;
    let b2 = (b1 << 12) | (b1 >> 20);
    let a2 = a1.wrapping_add(b2);
    let d3 = d2 ^ a2;
    let d4 = (d3 << 8) | (d3 >> 24);
    let c2 = c1.wrapping_add(d4);
    let b3 = b2 ^ c2;
    let b4 = (b3 << 7) | (b3 >> 25);
    (a2, b4, c2, d4)
}

fn exec_double_round(s: ChaChaBlock) -> (r: ChaChaBlock)
    ensures
        r == double_round(s),
{
    reveal(double_round);
    let (c0, c4, c8, c12) = exec_quarter_round(s.w0, s.w4, s.w8, s.w12);
    let (c1, c5, c9, c13) = exec_quarter_round(s.w1, s.w5, s.w9, s.w13);
    let (c2, c6, c10, c14) = exec_quarter_round(s.w2, s.w6, s.w10, s.w14);
    let (c3, c7, c11, c15) = exec_quarter_round(s.w3, s.w7, s.w11, s.w15);
    let (d0, d5, d10, d15) = exec_quarter_round(c0, c5, c10, c15);
    let (d1, d6, d11, d12) = exec_quarter_round(c1, c6, c11, c12);
    let (d2, d7, d8, d13) = exec_quarter_round(c2, c7, c8, c13);
    let (d3, d4, d9, d14) = exec_quarter_round(c3, c4, c9, c14);
    ChaChaBlock {
        w0: d0,
        w1: d1,
        w2: d2,
        w3: d3,
        w4: d4,
        w5: d5,
        w6: d6,
        w7: d7,
        w8: d8,
        w9: d9,
        w10: d10,
        w11: d11,
        w12: d12,
        w13: d13,
        w14: d14,
        w15: d15,
    }
}

fn exec_input_block(key: u128, counter: u64) -> (r: ChaChaBlock)
    ensures
        r == input_block(key, counter),
{
    reveal(input_block);
    let k0 = (key % 0x1_0000_0000) as u32;
    let k1 = ((key / 0x1_0000_0000) % 0x1_0000_0000) as u32;
    let k2 = ((key / 0x1_0000_0000_0000_0000) % 0x1_0000_0000) as u32;
    let k3 = ((key / 0x1_0000_0000_0000_0000_0000_0000) % 0x1_0000_0000) as u32;
    ChaChaBlock {
        w0: 0x6170_7865,
        w1: 0x3120_646e,
        w2: 0x7962_2d36,
        w3: 0x6b20_6574,
        w4: k0,
        w5: k1,
        w6: k2,
        w7: k3,
        w8: k0,
        w9: k1,
        w10: k2,
        w11: k3,
        w12: (counter % 0x1_0000_0000) as u32,
        w13: (counter / 0x1_0000_0000) as u32,
        w14: 0,
        w15: 0,
    }
}

/// Compute the word at `position` of the stream of `key`.
pub fn generate_word(key: u128, position: u64) -> (word: u64)
    ensures
        word == random_word(key, position),
{
    let input = exec_input_block(key, position);
    let mut mixed = input;
    let mut round: usize = 0;
    while round < 10
        invariant
            round <= 10,
            mixed == double_rounds(input, round as nat),
        decreases 10 - round,
    {
        mixed = exec_double_round(mixed);
        round += 1;
    }
    reveal(random_word);
    let low = mixed.w0.wrapping_add(input.w0);
    let high = mixed.w1.wrapping_add(input.w1);
    low as u64 + high as u64 * 0x1_0000_0000
}

/// A position in the stream of a key.
#[derive(Clone, Copy, Debug, PartialEq, Eq, Structural)]
pub struct RandomGenerator {
    pub key: u128,
    pub position: u64,
}

impl RandomGenerator {
    /// The word that the generator gives after `offset` earlier draws. Positions wrap after
    /// `2^64` words.
    pub open spec fn word(self, offset: int) -> u64 {
        random_word(self.key, torus(self.position + offset))
    }

    /// The generator after `count` draws.
    pub open spec fn advanced(self, count: int) -> Self {
        RandomGenerator { key: self.key, position: torus(self.position + count) }
    }

    /// The next `count` words, in the order in which they are drawn.
    pub open spec fn words(self, count: nat) -> Seq<u64> {
        Seq::new(count, |j: int| self.word(j))
    }

    /// The seed made of the next two words, the first one in the high half.
    pub open spec fn spec_seed(self) -> Seed {
        Seed((self.word(0) * 0x1_0000_0000_0000_0000 + self.word(1)) as u128)
    }

    /// The generator at the start of the stream of `seed`.
    pub fn new(seed: Seed) -> (generator: Self)
        ensures
            generator == (RandomGenerator { key: seed.0, position: 0 }),
    {
        RandomGenerator { key: seed.0, position: 0 }
    }

    /// Draw one word.
    pub fn next_u64(&mut self) -> (word: u64)
        ensures
            word == old(self).word(0),
            *final(self) == old(self).advanced(1),
    {
        let word = generate_word(self.key, self.position);
        self.position = self.position.wrapping_add(1);
        word
    }

    /// Draw a 128-bit seed: two words, the first one in the high half.
    pub fn next_seed(&mut self) -> (seed: Seed)
        ensures
            seed == old(self).spec_seed(),
            *final(self) == old(self).advanced(2),
    {
        let high = self.next_u64();
        let low = self.next_u64();
        Seed(high as u128 * 0x1_0000_0000_0000_0000 + low as u128)
    }

    /// Fill `output` with the next words of the stream.
    pub fn fill_slice(&mut self, output: &mut [u64])
        ensures
            final(output)@ == old(self).words(old(output)@.len()),
            *final(self) == old(self).advanced(old(output)@.len() as int),
    {
        let n = output.len();
        let mut i: usize = 0;
        while i < n
            invariant
                n == output@.len(),
                n == old(output)@.len(),
                i <= n,
                *self == old(self).advanced(i as int),
                forall|j: int| 0 <= j < i ==> output@[j] == old(self).word(j),
            decreases n - i,
        {
            let word = self.next_u64();
            output[i] = word;
            i += 1;
        }
        assert(output@ =~= old(self).words(n as nat));
    }
}

/// The generator of secret keys: a stream of uniform bits.
#[derive(Clone, Copy, Debug, PartialEq, Eq, Structural)]
pub struct SecretRandomGenerator {
    pub generator: RandomGenerator,
}

impl SecretRandomGenerator {
    /// The next `count` key bits: the low bit of each of the next `count` words.
    pub open spec fn bits(self, count: nat) -> Seq<u64> {
        Seq::new(count, |j: int| (self.generator.word(j) % 2) as u64)
    }

    /// The generator after `count` bits.
    pub open spec fn advanced(self, count: int) -> Self {
        SecretRandomGenerator { generator: self.generator.advanced(count) }
    }

    /// The generator at the start of the stream of `seed`.
    pub fn new(seed: Seed) -> (generator: Self)
        ensures
            generator.generator == (RandomGenerator { key: seed.0, position: 0 }),
    {
        SecretRandomGenerator { generator: RandomGenerator::new(seed) }
    }

    /// Fill `output` with uniform bits.
    pub fn fill_slice_with_random_uniform_binary(&mut self, output: &mut [u64])
        ensures
            final(output)@ == old(self).bits(old(output)@.len()),
            *final(self) == old(self).advanced(old(output)@.len() as int),
    {
        let n = output.len();
        let mut i: usize = 0;
        while i < n
            invariant
                n == output@.len(),
                n == old(output)@.len(),
                i <= n,
                *self == old(self).advanced(i as int),
                forall|j: int| 0 <= j < i ==> output@[j] == (old(self).generator.word(j) % 2) as u64,
            decreases n - i,
        {
            let word = self.generator.next_u64();
            output[i] = word % 2;
            i += 1;
        }
        assert(output@ =~= old(self).bits(n as nat));
    }
}

/// The width of the interval that one of the three draws of a noise sample is reduced into:
/// `2 * std + 1`, capped at `2^64 - 1`.
pub open spec fn noise_width(std: StandardDev) -> int {
    if std.0 > 0x7fff_ffff_ffff_ffff {
        0xffff_ffff_ffff_ffff
    } else {
        2 * std.0 + 1
    }
}

/// The signed noise that `generator` gives for a standard deviation: the sum of three draws
/// from `[-std, std]`. Such a sum has a bell shape, the standard deviation `std` up to
/// rounding, and is never beyond `3 * std`.
pub open spec fn noise_draw(generator: RandomGenerator, std: StandardDev) -> int {
    let width = noise_width(std);
    generator.word(0) as int % width + generator.word(1) as int % width + generator.word(2) as int
        % width - 3 * std.0
}

/// The noise of [`noise_draw`] as an element of the torus.
pub open spec fn noise_sample(generator: RandomGenerator, std: StandardDev) -> u64 {
    torus(noise_draw(generator, std))
}

/// A noise sample is at most three standard deviations away from zero.
pub proof fn lemma_noise_bounded(generator: RandomGenerator, std: StandardDev)
    requires
        std.0 <= 0x7fff_ffff_ffff_ffff,
    ensures
        -3 * std.0 <= noise_draw(generator, std) <= 3 * std.0,
{
}

/// The generator of encryptions: a stream for the masks, which may be seeded in public, and
/// a stream for the noise, which is seeded in private.
#[derive(Clone, Copy, Debug, PartialEq, Eq, Structural)]
pub struct EncryptionRandomGenerator {
    pub mask: RandomGenerator,
    pub noise: RandomGenerator,
}

impl EncryptionRandomGenerator {
    /// The generator after `mask_count` mask scalars and `noise_count` noise samples.
    pub open spec fn advanced(self, mask_count: int, noise_count: int) -> Self {
        EncryptionRandomGenerator {
            mask: self.mask.advanced(mask_count),
            noise: self.noise.advanced(3 * noise_count),
        }
    }

    /// The `index`-th noise sample from now.
    pub open spec fn noise_at(self, index: int, std: StandardDev) -> u64 {
        noise_sample(self.noise.advanced(3 * index), std)
    }

    /// The generator that `seed` and the seeder determine.
    pub open spec fn spec_new(seed: Seed, seeder: DeterministicSeeder) -> Self {
        EncryptionRandomGenerator {
            mask: RandomGenerator { key: seed.0, position: 0 },
            noise: RandomGenerator { key: seeder.generator.spec_seed().0, position: 0 },
        }
    }

    /// A generator whose mask stream starts at `seed` and whose noise stream starts at a
    /// seed drawn from `seeder`.
    pub fn new(seed: Seed, seeder: &mut DeterministicSeeder) -> (generator: Self)
        ensures
            generator == Self::spec_new(seed, *old(seeder)),
            *final(seeder) == old(seeder).advanced(1),
    {
        let noise_seed = seeder.next_seed();
        EncryptionRandomGenerator {
            mask: RandomGenerator::new(seed),
            noise: RandomGenerator::new(noise_seed),
        }
    }

    /// Fill `output` with mask scalars.
    pub fn fill_slice_with_random_mask(&mut self, output: &mut [u64])
        ensures
            final(output)@ == old(self).mask.words(old(output)@.len()),
            *final(self) == old(self).advanced(old(output)@.len() as int, 0),
    {
        self.mask.fill_slice(output);
        assert(self.noise == old(self).noise.advanced(0));
    }

    /// Draw one noise sample.
    pub fn random_noise(&mut self, std: StandardDev) -> (noise: u64)
        ensures
            noise == old(self).noise_at(0, std),
            *final(self) == old(self).advanced(0, 1),
    {
        let width: u64 = if std.0 > 0x7fff_ffff_ffff_ffff {
            0xffff_ffff_ffff_ffff
        } else {
            2 * std.0 + 1
        };
        proof {
            lemma_advanced_by_zero(old(self).noise);
            lemma_advanced_by_zero(old(self).mask);
            lemma_advanced_twice(old(self).noise, 1, 1);
            lemma_advanced_twice(old(self).noise, 2, 1);
        }
        let a = self.noise.next_u64() % width;
        let b = self.noise.next_u64() % width;
        let c = self.noise.next_u64() % width;
        center_noise(a, b, c, std)
    }
}

/// Drawing nothing leaves a generator where it is.
pub proof fn lemma_advanced_by_zero(generator: RandomGenerator)
    ensures
        generator.advanced(0) == generator,
{
}

/// Drawing `first` words and then `second` words is drawing `first + second` words.
pub proof fn lemma_advanced_twice(generator: RandomGenerator, first: int, second: int)
    ensures
        generator.advanced(first).advanced(second) == generator.advanced(first + second),
        generator.advanced(first).word(second) == generator.word(first + second),
{
    vstd::arithmetic::div_mod::lemma_add_mod_noop(
        generator.position + first,
        second,
        0x1_0000_0000_0000_0000,
    );
    vstd::arithmetic::div_mod::lemma_mod_twice(second, 0x1_0000_0000_0000_0000);
    vstd::arithmetic::div_mod::lemma_add_mod_noop(
        (generator.position + first) % 0x1_0000_0000_0000_0000,
        second,
        0x1_0000_0000_0000_0000,
    );
    vstd::arithmetic::div_mod::lemma_mod_twice(
        generator.position + first,
        0x1_0000_0000_0000_0000,
    );
}

/// Advancing an encryption generator twice is advancing it once by the sums, and a noise
/// sample of an advanced generator is a later sample of the first one.
pub proof fn lemma_encryption_generator_advanced_twice(
    generator: EncryptionRandomGenerator,
    first_mask: int,
    first_noise: int,
    second_mask: int,
    second_noise: int,
    std: StandardDev,
)
    ensures
        generator.advanced(first_mask, first_noise).advanced(second_mask, second_noise)
            == generator.advanced(first_mask + second_mask, first_noise + second_noise),
        generator.advanced(first_mask, first_noise).noise_at(second_noise, std)
            == generator.noise_at(first_noise + second_noise, std),
        generator.advanced(first_mask, first_noise).mask.words(second_mask as nat)
            =~= Seq::new(second_mask as nat, |j: int| generator.mask.word(first_mask + j)),
        generator.advanced(0, 0) == generator,
{
    let first = generator.advanced(first_mask, first_noise);
    assert(first.mask == generator.mask.advanced(first_mask));
    assert(first.noise == generator.noise.advanced(3 * first_noise));
    assert(first.mask.advanced(second_mask) == generator.mask.advanced(first_mask + second_mask))
        by {
        lemma_advanced_twice(generator.mask, first_mask, second_mask);
    }
    assert(first.noise.advanced(3 * second_noise) == generator.noise.advanced(
        3 * (first_noise + second_noise),
    )) by {
        lemma_advanced_twice(generator.noise, 3 * first_noise, 3 * second_noise);
    }
    lemma_words_of_advanced(generator.mask, first_mask, second_mask);
    assert(generator.advanced(0, 0) == generator) by {
        lemma_advanced_by_zero(generator.mask);
        lemma_advanced_by_zero(generator.noise);
    }
}

/// The words of an advanced generator are later words of the first one.
pub proof fn lemma_words_of_advanced(generator: RandomGenerator, first: int, count: int)
    ensures
        generator.advanced(first).words(count as nat) =~= Seq::new(
            count as nat,
            |j: int| generator.word(first + j),
        ),
{
    assert forall|j: int| 0 <= j < count implies generator.advanced(first).word(j)
        == generator.word(first + j) by {
        lemma_advanced_twice(generator, first, j);
    }
}

/// Shift the sum of three draws so that it is centred on zero.
fn center_noise(a: u64, b: u64, c: u64, std: StandardDev) -> (noise: u64)
    ensures
        noise == torus(a + b + c - 3 * std.0),
{
    let total: u128 = a as u128 + b as u128 + c as u128;
    let offset: u128 = 3 * (std.0 as u128);
    let shifted: u128 = total + 0x4_0000_0000_0000_0000 - offset;
    assert((shifted as int) % 0x1_0000_0000_0000_0000 == (a + b + c - 3 * std.0)
        % 0x1_0000_0000_0000_0000) by {
        vstd::arithmetic::div_mod::lemma_mod_multiples_vanish(
            4,
            a + b + c - 3 * std.0,
            0x1_0000_0000_0000_0000,
        );
    }
    (shifted % 0x1_0000_0000_0000_0000) as u64
}

/// A source of fresh seeds.
pub trait Seeder {
    /// The seed that the seeder gives next, in the state that it is in.
    spec fn spec_next_seed(&self) -> Seed;

    /// Give the next seed.
    fn seed(&mut self) -> (seed: Seed)
        ensures
            seed == old(self).spec_next_seed(),
    ;
}

/// A seeder that draws its seeds from the stream of a first seed.
#[derive(Clone, Copy, Debug, PartialEq, Eq, Structural)]
pub struct DeterministicSeeder {
    pub generator: RandomGenerator,
}

impl DeterministicSeeder {
    /// The seeder after `count` seeds.
    pub open spec fn advanced(self, count: int) -> Self {
        DeterministicSeeder { generator: self.generator.advanced(2 * count) }
    }

    /// The seeder at the start of the stream of `seed`.
    pub fn new(seed: Seed) -> (seeder: Self)
        ensures
            seeder.generator == (RandomGenerator { key: seed.0, position: 0 }),
    {
        DeterministicSeeder { generator: RandomGenerator::new(seed) }
    }

    /// Draw the next seed.
    pub fn next_seed(&mut self) -> (seed: Seed)
        ensures
            seed == old(self).generator.spec_seed(),
            *final(self) == old(self).advanced(1),
    {
        self.generator.next_seed()
    }
}

impl Seeder for DeterministicSeeder {
    /// The next seed of the stream: the two words at the position of the generator.
    open spec fn spec_next_seed(&self) -> Seed {
        self.generator.spec_seed()
    }

    /// Give the next seed of the stream: the two words at the position of the generator,
    /// which then stands after them.
    fn seed(&mut self) -> (seed: Seed)
        ensures
            seed == old(self).generator.spec_seed(),
            *final(self) == old(self).advanced(1),
    {
        self.next_seed()
    }
}

} // verus!
