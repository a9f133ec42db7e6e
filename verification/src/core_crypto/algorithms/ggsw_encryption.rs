//! Encryption of lists of GGSW ciphertexts, with or without their masks.
use crate::core_crypto::algorithms::decomposition::{gadget_weight, SignedDecomposer};
use crate::core_crypto::algorithms::polynomial_algorithms::{
    concat_polynomials,
    lemma_polynomial_bounds,
    negacyclic_product,
    polynomial,
    polynomial_of,
    polynomial_wrapping_add_mul_assign,
};
use crate::core_crypto::algorithms::slice_algorithms::slice_sum;
use crate::core_crypto::commons::generators::{
    lemma_encryption_generator_advanced_twice,
    EncryptionRandomGenerator,
};
use crate::core_crypto::commons::numeric::{
    append_slice,
    filled_vec,
    lemma_torus_absorbs,
    lemma_wrapping_is_torus,
    torus,
};
use crate::core_crypto::commons::parameters::StandardDev;
use vstd::prelude::*;

verus! {

/// The component that the row of index `row` of a GGSW list is for: rows go through the
/// components of the GLWE key first, the body last.
pub open spec fn row_component(row: int, glwe_size: int) -> int {
    row % glwe_size
}

/// The level of the row of index `row` of a GGSW list; the first level is 1.
pub open spec fn row_level(row: int, glwe_size: int, levels: int) -> int {
    (row / glwe_size) % levels + 1
}

/// The GGSW ciphertext that the row of index `row` of a GGSW list belongs to.
pub open spec fn row_input(row: int, glwe_size: int, levels: int) -> int {
    (row / glwe_size) / levels
}

/// The plaintext of a row of the GGSW encryption of a scalar. With `factor` the scalar times
/// the weight of the level, it is `-factor * key_polynomial` for a component of the key, and
/// the constant `factor` for the body.
pub open spec fn ggsw_plaintext(
    glwe_key: Seq<u64>,
    size: int,
    factor: u64,
    component: int,
    glwe_dimension: int,
) -> Seq<u64> {
    Seq::new(
        size as nat,
        |t: int|
            if component < glwe_dimension {
                torus(-(factor * glwe_key[component * size + t]))
            } else if t == 0 {
                factor
            } else {
                0u64
            },
    )
}

/// The next `size` noise samples of a generator.
pub open spec fn noise_polynomial(
    generator: EncryptionRandomGenerator,
    size: int,
    std: StandardDev,
) -> Seq<u64> {
    Seq::new(size as nat, |t: int| generator.noise_at(t, std))
}

/// The body of a GLWE encryption: the plaintext, plus the noise, plus the products of the
/// first `count` polynomials of the mask and of the key.
pub open spec fn glwe_body(
    key: Seq<u64>,
    mask: Seq<u64>,
    plaintext: Seq<u64>,
    noise: Seq<u64>,
    size: int,
    count: int,
) -> Seq<u64>
    decreases count,
{
    if count <= 0 {
        slice_sum(plaintext, noise)
    } else {
        slice_sum(
            glwe_body(key, mask, plaintext, noise, size, count - 1),
            negacyclic_product(
                polynomial_of(mask, count - 1, size),
                polynomial_of(key, count - 1, size),
            ),
        )
    }
}

/// The shape of a list of GGSW ciphertexts and the noise of its rows.
pub struct GgswShape {
    pub polynomial_size: int,
    pub glwe_dimension: int,
    pub base_log: nat,
    pub levels: nat,
    pub std: StandardDev,
}

impl GgswShape {
    /// The number of scalars of the mask of a row.
    pub open spec fn mask_size(self) -> int {
        self.glwe_dimension * self.polynomial_size
    }

    /// The number of rows of each GGSW ciphertext.
    pub open spec fn rows(self) -> int {
        self.levels * (self.glwe_dimension + 1)
    }
}

/// The generator at the start of the row of index `row`, for a generator at the start of
/// the list.
pub open spec fn generator_of_row(
    generator: EncryptionRandomGenerator,
    shape: GgswShape,
    row: int,
) -> EncryptionRandomGenerator {
    generator.advanced(row * shape.mask_size(), row * shape.polynomial_size)
}

/// The mask of the row of index `row` of the list that a generator gives.
pub open spec fn ggsw_list_row_mask(
    generator: EncryptionRandomGenerator,
    shape: GgswShape,
    row: int,
) -> Seq<u64> {
    generator_of_row(generator, shape, row).mask.words(shape.mask_size() as nat)
}

/// The body of the row of index `row` of the list that a generator gives: the GLWE
/// encryption, under `glwe_key`, of the plaintext of the row for the bit of `input_key` that
/// the GGSW ciphertext of the row encrypts.
pub open spec fn ggsw_list_row_body(
    generator: EncryptionRandomGenerator,
    shape: GgswShape,
    input_key: Seq<u64>,
    glwe_key: Seq<u64>,
    row: int,
) -> Seq<u64> {
    let glwe_size = shape.glwe_dimension + 1;
    let weight = gadget_weight(
        shape.base_log,
        row_level(row, glwe_size, shape.levels as int) as nat,
    );
    let bit = input_key[row_input(row, glwe_size, shape.levels as int)];
    glwe_body(
        glwe_key,
        ggsw_list_row_mask(generator, shape, row),
        ggsw_plaintext(
            glwe_key,
            shape.polynomial_size,
            torus(bit * weight),
            row_component(row, glwe_size),
            shape.glwe_dimension,
        ),
        noise_polynomial(generator_of_row(generator, shape, row), shape.polynomial_size, shape.std),
        shape.polynomial_size,
        shape.glwe_dimension,
    )
}

/// The row of index `row` of the list that a generator gives, with or without its mask.
pub open spec fn ggsw_list_row(
    generator: EncryptionRandomGenerator,
    shape: GgswShape,
    input_key: Seq<u64>,
    glwe_key: Seq<u64>,
    keep_mask: bool,
    row: int,
) -> Seq<u64> {
    if keep_mask {
        ggsw_list_row_mask(generator, shape, row) + ggsw_list_row_body(
            generator,
            shape,
            input_key,
            glwe_key,
            row,
        )
    } else {
        ggsw_list_row_body(generator, shape, input_key, glwe_key, row)
    }
}

/// The list of GGSW ciphertexts that a generator gives: one ciphertext for each bit of
/// `input_key`, encrypted under `glwe_key`, with or without the masks of the rows.
pub open spec fn ggsw_list(
    generator: EncryptionRandomGenerator,
    shape: GgswShape,
    input_key: Seq<u64>,
    glwe_key: Seq<u64>,
    keep_mask: bool,
) -> Seq<u64> {
    concat_polynomials(
        |row: int| ggsw_list_row(generator, shape, input_key, glwe_key, keep_mask, row),
        input_key.len() * shape.rows(),
    )
}

/// Buffers made of polynomials that are equal index by index are equal.
pub proof fn lemma_concat_polynomials_congruent(
    f: spec_fn(int) -> Seq<u64>,
    g: spec_fn(int) -> Seq<u64>,
    count: int,
)
    requires
        forall|i: int| 0 <= i < count ==> #[trigger] f(i) == g(i),
    ensures
        concat_polynomials(f, count) == concat_polynomials(g, count),
    decreases count,
{
    if count > 0 {
        lemma_concat_polynomials_congruent(f, g, count - 1);
    }
}

/// Build the plaintext of a row of the GGSW encryption of a scalar.
fn ggsw_plaintext_polynomial(
    glwe_key: &[u64],
    size: usize,
    factor: u64,
    component: usize,
    glwe_dimension: usize,
) -> (plaintext: Vec<u64>)
    requires
        glwe_key@.len() == glwe_dimension * size,
        component <= glwe_dimension,
    ensures
        plaintext@ == ggsw_plaintext(
            glwe_key@,
            size as int,
            factor,
            component as int,
            glwe_dimension as int,
        ),
{
    let mut plaintext: Vec<u64> = Vec::with_capacity(size);
    let mut t: usize = 0;
    while t < size
        invariant
            glwe_key@.len() == glwe_dimension * size,
            component <= glwe_dimension,
            t <= size,
            plaintext@.len() == t,
            forall|j: int|
                0 <= j < t ==> plaintext@[j] == ggsw_plaintext(
                    glwe_key@,
                    size as int,
                    factor,
                    component as int,
                    glwe_dimension as int,
                )[j],
        decreases size - t,
    {
        let value = if component < glwe_dimension {
            proof {
                lemma_polynomial_bounds(component as int, glwe_dimension as int, size as int);
            }
            let len = glwe_key.len();
            let key_scalar = glwe_key[component * size + t];
            let product = factor.wrapping_mul(key_scalar);
            proof {
                lemma_wrapping_is_torus(factor, key_scalar);
                lemma_wrapping_is_torus(0, product);
                lemma_torus_absorbs(0, factor * key_scalar);
            }
            0u64.wrapping_sub(product)
        } else if t == 0 {
            factor
        } else {
            0u64
        };
        plaintext.push(value);
        t += 1;
    }
    assert(plaintext@ =~= ggsw_plaintext(
        glwe_key@,
        size as int,
        factor,
        component as int,
        glwe_dimension as int,
    ));
    plaintext
}

/// Add the next noise samples of `generator` to the scalars of `body`.
fn add_noise_assign(body: &mut [u64], std: StandardDev, generator: &mut EncryptionRandomGenerator)
    ensures
        final(body)@ == slice_sum(
            old(body)@,
            noise_polynomial(*old(generator), old(body)@.len() as int, std),
        ),
        *final(generator) == old(generator).advanced(0, old(body)@.len() as int),
{
    let n = body.len();
    let mut t: usize = 0;
    proof {
        lemma_encryption_generator_advanced_twice(*old(generator), 0, 0, 0, 0, std);
    }
    while t < n
        invariant
            n == body@.len(),
            n == old(body)@.len(),
            t <= n,
            *generator == old(generator).advanced(0, t as int),
            forall|j: int|
                0 <= j < t ==> body@[j] == slice_sum(
                    old(body)@,
                    noise_polynomial(*old(generator), n as int, std),
                )[j],
            forall|j: int| t <= j < n ==> body@[j] == old(body)@[j],
        decreases n - t,
    {
        proof {
            lemma_encryption_generator_advanced_twice(*old(generator), 0, t as int, 0, 0, std);
            lemma_encryption_generator_advanced_twice(*old(generator), 0, t as int, 0, 1, std);
        }
        let noise = generator.random_noise(std);
        proof {
            lemma_wrapping_is_torus(body@[t as int], noise);
        }
        let value = body[t].wrapping_add(noise);
        body[t] = value;
        t += 1;
    }
    assert(body@ =~= slice_sum(old(body)@, noise_polynomial(*old(generator), n as int, std)));
}

/// Turn the plaintext in `body` into the body of its GLWE encryption under `key` with the
/// mask `mask`: the noise comes from `generator`.
fn glwe_body_assign(
    body: &mut Vec<u64>,
    key: &[u64],
    mask: &[u64],
    size: usize,
    glwe_dimension: usize,
    std: StandardDev,
    generator: &mut EncryptionRandomGenerator,
)
    requires
        old(body)@.len() == size,
        key@.len() == glwe_dimension * size,
        mask@.len() == glwe_dimension * size,
    ensures
        final(body)@ == glwe_body(
            key@,
            mask@,
            old(body)@,
            noise_polynomial(*old(generator), size as int, std),
            size as int,
            glwe_dimension as int,
        ),
        final(body)@.len() == size,
        *final(generator) == old(generator).advanced(0, size as int),
{
    add_noise_assign(body.as_mut_slice(), std, generator);
    let ghost noise = noise_polynomial(*old(generator), size as int, std);
    let mut c: usize = 0;
    while c < glwe_dimension
        invariant
            key@.len() == glwe_dimension * size,
            mask@.len() == glwe_dimension * size,
            c <= glwe_dimension,
            body@.len() == size,
            body@ == glwe_body(key@, mask@, old(body)@, noise, size as int, c as int),
        decreases glwe_dimension - c,
    {
        proof {
            lemma_polynomial_bounds(c as int, glwe_dimension as int, size as int);
        }
        let mask_polynomial = polynomial(mask, c, size);
        let key_polynomial = polynomial(key, c, size);
        polynomial_wrapping_add_mul_assign(body.as_mut_slice(), mask_polynomial, key_polynomial);
        c += 1;
    }
}

/// Encrypt each bit of `input_key` as a GGSW ciphertext under `glwe_key`, and give the rows
/// of all the ciphertexts in one buffer: whole rows if `keep_mask`, else their bodies only.
pub fn encrypt_ggsw_list(
    input_key: &[u64],
    glwe_key: &[u64],
    polynomial_size: usize,
    glwe_dimension: usize,
    decomposer: &SignedDecomposer,
    std: StandardDev,
    generator: &mut EncryptionRandomGenerator,
    keep_mask: bool,
) -> (data: Vec<u64>)
    requires
        decomposer.wf(),
        polynomial_size >= 1,
        glwe_key@.len() == glwe_dimension * polynomial_size,
        decomposer.level_count * (glwe_dimension + 1) <= usize::MAX,
        input_key@.len() * (decomposer.level_count * (glwe_dimension + 1)) <= usize::MAX,
    ensures
        data@ == ggsw_list(
            *old(generator),
            GgswShape {
                polynomial_size: polynomial_size as int,
                glwe_dimension: glwe_dimension as int,
                base_log: decomposer.base_log as nat,
                levels: decomposer.level_count as nat,
                std,
            },
            input_key@,
            glwe_key@,
            keep_mask,
        ),
        *final(generator) == generator_of_row(
            *old(generator),
            GgswShape {
                polynomial_size: polynomial_size as int,
                glwe_dimension: glwe_dimension as int,
                base_log: decomposer.base_log as nat,
                levels: decomposer.level_count as nat,
                std,
            },
            input_key@.len() * (decomposer.level_count * (glwe_dimension + 1)),
        ),
{
    let ghost shape = GgswShape {
        polynomial_size: polynomial_size as int,
        glwe_dimension: glwe_dimension as int,
        base_log: decomposer.base_log as nat,
        levels: decomposer.level_count as nat,
        std,
    };
    let ghost start = *old(generator);
    let ghost f = |row: int| ggsw_list_row(start, shape, input_key@, glwe_key@, keep_mask, row);
    proof {
        assert(glwe_dimension + 1 <= decomposer.level_count * (glwe_dimension + 1))
            by (nonlinear_arith)
            requires
                decomposer.level_count >= 1,
        ;
    }
    let glwe_size = glwe_dimension + 1;
    let levels = decomposer.level_count;
    let input_len = input_key.len();
    let key_len = glwe_key.len();
    proof {
        assert(levels * glwe_size >= glwe_size) by (nonlinear_arith)
            requires
                levels >= 1,
                glwe_size >= 1,
        ;
    }
    let rows = input_len * (levels * glwe_size);
    let mask_size = glwe_dimension * polynomial_size;
    let mut data: Vec<u64> = Vec::new();
    let mut row: usize = 0;
    proof {
        lemma_encryption_generator_advanced_twice(start, 0, 0, 0, 0, std);
        assert(0 * shape.mask_size() == 0 && 0 * shape.polynomial_size == 0) by (nonlinear_arith);
    }
    while row < rows
        invariant
            decomposer.wf(),
            levels == decomposer.level_count,
            glwe_size == glwe_dimension + 1,
            polynomial_size >= 1,
            glwe_key@.len() == glwe_dimension * polynomial_size,
            mask_size == glwe_dimension * polynomial_size,
            input_len == input_key@.len(),
            rows == input_len * (levels * glwe_size),
            row <= rows,
            shape == (GgswShape {
                polynomial_size: polynomial_size as int,
                glwe_dimension: glwe_dimension as int,
                base_log: decomposer.base_log as nat,
                levels: decomposer.level_count as nat,
                std,
            }),
            start == *old(generator),
            *generator == generator_of_row(start, shape, row as int),
            forall|r: int|
                #[trigger] f(r) == ggsw_list_row(
                    start,
                    shape,
                    input_key@,
                    glwe_key@,
                    keep_mask,
                    r,
                ),
            data@ == concat_polynomials(f, row as int),
        decreases rows - row,
    {
        let component = row % glwe_size;
        let level = (row / glwe_size) % levels + 1;
        proof {
            assert(input_len * (levels * glwe_size) == glwe_size * (input_len * levels))
                by (nonlinear_arith);
            assert(input_len * levels == levels * input_len) by (nonlinear_arith);
            vstd::arithmetic::div_mod::lemma_multiply_divide_lt(
                row as int,
                glwe_size as int,
                input_len * levels,
            );
            vstd::arithmetic::div_mod::lemma_multiply_divide_lt(
                row as int / glwe_size as int,
                levels as int,
                input_len as int,
            );
        }
        let input = (row / glwe_size) / levels;
        let weight = decomposer.gadget_weight(level);
        let bit = input_key[input];
        let factor = bit.wrapping_mul(weight);
        proof {
            lemma_wrapping_is_torus(bit, weight);
        }
        let ghost row_start = *generator;
        let mut mask = filled_vec(0, mask_size);
        generator.fill_slice_with_random_mask(mask.as_mut_slice());
        let mut body = ggsw_plaintext_polynomial(
            glwe_key,
            polynomial_size,
            factor,
            component,
            glwe_dimension,
        );
        proof {
            lemma_encryption_generator_advanced_twice(
                row_start,
                mask_size as int,
                0,
                0,
                polynomial_size as int,
                std,
            );
            assert forall|t: int| 0 <= t < polynomial_size implies row_start.advanced(
                mask_size as int,
                0,
            ).noise_at(t, std) == row_start.noise_at(t, std) by {
                lemma_encryption_generator_advanced_twice(
                    row_start,
                    mask_size as int,
                    0,
                    0,
                    t,
                    std,
                );
            }
            assert(noise_polynomial(
                row_start.advanced(mask_size as int, 0),
                polynomial_size as int,
                std,
            ) =~= noise_polynomial(row_start, polynomial_size as int, std));
        }
        glwe_body_assign(
            &mut body,
            glwe_key,
            mask.as_slice(),
            polynomial_size,
            glwe_dimension,
            std,
            generator,
        );
        proof {
            lemma_encryption_generator_advanced_twice(
                start,
                row * shape.mask_size(),
                row * shape.polynomial_size,
                mask_size as int,
                polynomial_size as int,
                std,
            );
            assert((row + 1) * shape.mask_size() == row * shape.mask_size() + mask_size)
                by (nonlinear_arith)
                requires
                    shape.mask_size() == mask_size,
            ;
            assert((row + 1) * shape.polynomial_size == row * shape.polynomial_size
                + polynomial_size) by (nonlinear_arith)
                requires
                    shape.polynomial_size == polynomial_size,
            ;
            assert(body@ == ggsw_list_row_body(start, shape, input_key@, glwe_key@, row as int));
        }
        if keep_mask {
            append_slice(&mut data, mask.as_slice());
        }
        append_slice(&mut data, body.as_slice());
        proof {
            assert(data@ =~= concat_polynomials(f, row as int) + f(row as int));
        }
        row += 1;
    }
    proof {
        lemma_concat_polynomials_congruent(
            f,
            |row: int| ggsw_list_row(start, shape, input_key@, glwe_key@, keep_mask, row),
            rows as int,
        );
        assert(input_key@.len() * shape.rows() == rows);
    }
    data
}

} // verus!
