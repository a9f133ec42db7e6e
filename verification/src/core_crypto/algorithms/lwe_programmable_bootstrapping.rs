//! The programmable bootstrap: modulus switch, blind rotation and sample extraction.
use crate::core_crypto::algorithms::decomposition::{decomposed_polynomial, SignedDecomposer};
use crate::core_crypto::algorithms::polynomial_algorithms::{
    concat_polynomials,
    lemma_concat_polynomials,
    lemma_polynomial_bounds,
    monomial_product_of_each,
    monomial_product_of_polynomials,
    negacyclic_product,
    polynomial,
    polynomial_of,
    polynomial_wrapping_add_mul_assign,
};
use crate::core_crypto::algorithms::slice_algorithms::{
    slice_difference,
    slice_sum,
    slice_wrapping_sub_assign,
};
use crate::core_crypto::commons::numeric::{append_slice, lemma_wrapping_is_torus, torus};
use vstd::prelude::*;

verus! {

/// The shape of a bootstrap key: the size of its polynomials, the number of polynomials of a
/// GLWE ciphertext, and its gadget.
pub struct BootstrapShape {
    pub polynomial_size: int,
    pub glwe_size: int,
    pub base_log: nat,
    pub levels: nat,
}

impl BootstrapShape {
    /// The number of rows of a GGSW ciphertext.
    pub open spec fn rows(self) -> int {
        self.levels * self.glwe_size
    }

    /// The number of scalars of a GLWE ciphertext.
    pub open spec fn glwe_len(self) -> int {
        self.glwe_size * self.polynomial_size
    }

    /// The number of scalars of a GGSW ciphertext.
    pub open spec fn ggsw_len(self) -> int {
        self.rows() * self.glwe_size * self.polynomial_size
    }
}

/// The torus element `x` switched to the modulus `2 * polynomial_size`: `x` is divided by
/// `2^64 / (2 * polynomial_size)` and rounded to the nearest integer, a tie to the even one.
pub open spec fn modulus_switched(x: u64, polynomial_size: int) -> int {
    let unit = 0x8000_0000_0000_0000int / polynomial_size;
    let quotient = x as int / unit;
    let remainder = x as int % unit;
    let rounded = if remainder * 2 > unit || (remainder * 2 == unit && quotient % 2 == 1) {
        quotient + 1
    } else {
        quotient
    };
    rounded % (2 * polynomial_size)
}

/// The digits of a GLWE ciphertext, one polynomial for each row of a GGSW ciphertext: the
/// row of index `r` gets the digits of level `r / glwe_size + 1` of the polynomial of index
/// `r % glwe_size`.
pub open spec fn external_product_decomposition(glwe: Seq<u64>, shape: BootstrapShape) -> Seq<u64> {
    concat_polynomials(
        |r: int|
            decomposed_polynomial(
                polynomial_of(glwe, r % shape.glwe_size, shape.polynomial_size),
                shape.base_log,
                shape.levels,
                (r / shape.glwe_size + 1) as nat,
            ),
        shape.rows(),
    )
}

/// One polynomial of an accumulator after the products of the first `rows` rows of a GGSW
/// ciphertext were added to it: each row gives the product of its digits and of its
/// polynomial of index `index`.
pub open spec fn external_product_polynomial(
    accumulator: Seq<u64>,
    ggsw: Seq<u64>,
    decomposition: Seq<u64>,
    shape: BootstrapShape,
    index: int,
    rows: int,
) -> Seq<u64>
    decreases rows,
{
    if rows <= 0 {
        accumulator
    } else {
        slice_sum(
            external_product_polynomial(accumulator, ggsw, decomposition, shape, index, rows - 1),
            negacyclic_product(
                polynomial_of(decomposition, rows - 1, shape.polynomial_size),
                polynomial_of(ggsw, (rows - 1) * shape.glwe_size + index, shape.polynomial_size),
            ),
        )
    }
}

/// The accumulator plus the external product of a GGSW ciphertext and a GLWE ciphertext.
pub open spec fn external_product_added(
    accumulator: Seq<u64>,
    ggsw: Seq<u64>,
    glwe: Seq<u64>,
    shape: BootstrapShape,
) -> Seq<u64> {
    concat_polynomials(
        |j: int|
            external_product_polynomial(
                polynomial_of(accumulator, j, shape.polynomial_size),
                ggsw,
                external_product_decomposition(glwe, shape),
                shape,
                j,
                shape.rows(),
            ),
        shape.glwe_size,
    )
}

/// One step of the blind rotation: `acc + ggsw * (X^degree * acc - acc)`, which is an
/// encryption of `X^degree * acc` if the GGSW ciphertext encrypts one, and of `acc` if it
/// encrypts zero.
pub open spec fn cmux_rotated(
    accumulator: Seq<u64>,
    ggsw: Seq<u64>,
    degree: int,
    shape: BootstrapShape,
) -> Seq<u64> {
    external_product_added(
        accumulator,
        ggsw,
        slice_difference(
            monomial_product_of_each(accumulator, shape.polynomial_size, degree, shape.glwe_size),
            accumulator,
        ),
        shape,
    )
}

/// The accumulator of a blind rotation after `steps` scalars of the mask: it starts as the
/// lookup table divided by `X` to the switched body, and each scalar of the mask gives one
/// step with the GGSW ciphertext of its key bit.
pub open spec fn blind_rotated(
    key: Seq<u64>,
    lookup_table: Seq<u64>,
    input: Seq<u64>,
    shape: BootstrapShape,
    steps: int,
) -> Seq<u64>
    decreases steps,
{
    if steps <= 0 {
        monomial_product_of_each(
            lookup_table,
            shape.polynomial_size,
            (2 * shape.polynomial_size - modulus_switched(input.last(), shape.polynomial_size)) % (
            2 * shape.polynomial_size),
            shape.glwe_size,
        )
    } else {
        cmux_rotated(
            blind_rotated(key, lookup_table, input, shape, steps - 1),
            polynomial_of(key, steps - 1, shape.ggsw_len()),
            modulus_switched(input[steps - 1], shape.polynomial_size),
            shape,
        )
    }
}

/// The scalars of an LWE mask that read the constant coefficient of the product with the
/// polynomial `a`: `a[0]`, then the opposites of the other coefficients from the last down.
pub open spec fn extracted_mask_polynomial(a: Seq<u64>) -> Seq<u64> {
    Seq::new(
        a.len(),
        |j: int|
            if j == 0 {
                a[0]
            } else {
                torus(-a[a.len() - j])
            },
    )
}

/// The LWE ciphertext of the constant coefficient of a GLWE ciphertext, under the GLWE key
/// read as an LWE key.
pub open spec fn sample_extracted(glwe: Seq<u64>, shape: BootstrapShape) -> Seq<u64> {
    concat_polynomials(
        |c: int| extracted_mask_polynomial(polynomial_of(glwe, c, shape.polynomial_size)),
        shape.glwe_size - 1,
    ).push(glwe[(shape.glwe_size - 1) * shape.polynomial_size])
}

/// The programmable bootstrap of `input` with a lookup table: the blind rotation through
/// all the scalars of the mask, then the extraction of the constant coefficient.
pub open spec fn programmable_bootstrapped(
    key: Seq<u64>,
    lookup_table: Seq<u64>,
    input: Seq<u64>,
    shape: BootstrapShape,
) -> Seq<u64> {
    sample_extracted(
        blind_rotated(key, lookup_table, input, shape, input.len() - 1),
        shape,
    )
}

/// The sizes of the buffers of a shape.
pub proof fn lemma_shape_sizes(shape: BootstrapShape)
    requires
        shape.polynomial_size >= 1,
        shape.glwe_size >= 1,
        shape.levels >= 1,
    ensures
        shape.rows() >= 1,
        shape.glwe_len() >= shape.polynomial_size,
        shape.ggsw_len() == shape.rows() * shape.glwe_len(),
        shape.ggsw_len() == (shape.rows() * shape.glwe_size) * shape.polynomial_size,
        shape.rows() * shape.polynomial_size <= shape.ggsw_len(),
{
    let l = shape.levels as int;
    let g = shape.glwe_size;
    let n = shape.polynomial_size;
    assert(l * g >= 1) by (nonlinear_arith)
        requires
            l >= 1,
            g >= 1,
    ;
    assert(g * n >= n) by (nonlinear_arith)
        requires
            g >= 1,
            n >= 1,
    ;
    assert((l * g) * g * n == (l * g) * (g * n)) by (nonlinear_arith);
    assert((l * g) * n <= (l * g) * (g * n)) by (nonlinear_arith)
        requires
            l * g >= 1,
            g >= 1,
            n >= 1,
    ;
}

/// The digits of a GLWE ciphertext have the size of one polynomial for each row.
pub proof fn lemma_decomposition_len(glwe: Seq<u64>, shape: BootstrapShape)
    requires
        shape.polynomial_size >= 1,
        shape.glwe_size >= 1,
        shape.levels >= 1,
        glwe.len() == shape.glwe_len(),
    ensures
        external_product_decomposition(glwe, shape).len() == shape.rows() * shape.polynomial_size,
{
    lemma_shape_sizes(shape);
    let f = |r: int|
        decomposed_polynomial(
            polynomial_of(glwe, r % shape.glwe_size, shape.polynomial_size),
            shape.base_log,
            shape.levels,
            (r / shape.glwe_size + 1) as nat,
        );
    assert forall|r: int| 0 <= r < shape.rows() implies (#[trigger] f(r)).len()
        == shape.polynomial_size by {
        lemma_polynomial_bounds(r % shape.glwe_size, shape.glwe_size, shape.polynomial_size);
    }
    lemma_concat_polynomials(f, shape.rows(), shape.polynomial_size);
}

/// Adding the products of rows to a polynomial keeps its size.
pub proof fn lemma_external_product_polynomial_len(
    accumulator: Seq<u64>,
    ggsw: Seq<u64>,
    decomposition: Seq<u64>,
    shape: BootstrapShape,
    index: int,
    rows: int,
)
    ensures
        external_product_polynomial(accumulator, ggsw, decomposition, shape, index, rows).len()
            == accumulator.len(),
    decreases rows,
{
    if rows > 0 {
        lemma_external_product_polynomial_len(
            accumulator,
            ggsw,
            decomposition,
            shape,
            index,
            rows - 1,
        );
    }
}

/// Switch `x` to the modulus `2 * polynomial_size`.
pub fn modulus_switch(x: u64, polynomial_size: usize) -> (switched: usize)
    requires
        1 <= polynomial_size <= 0x4000_0000,
    ensures
        switched == modulus_switched(x, polynomial_size as int),
        switched < 2 * polynomial_size,
{
    let unit: u64 = 0x8000_0000_0000_0000u64 / (polynomial_size as u64);
    proof {
        vstd::arithmetic::div_mod::lemma_div_is_ordered_by_denominator(
            0x8000_0000_0000_0000int,
            polynomial_size as int,
            0x4000_0000,
        );
        assert(0x8000_0000_0000_0000int / 0x4000_0000 == 0x2_0000_0000);
    }
    let quotient = x / unit;
    let remainder = x % unit;
    proof {
        vstd::arithmetic::div_mod::lemma_div_is_ordered_by_denominator(
            x as int,
            0x2_0000_0000,
            unit as int,
        );
        assert(0xffff_ffff_ffff_ffffint / 0x2_0000_0000 == 0x7fff_ffff);
        vstd::arithmetic::div_mod::lemma_div_is_ordered(
            x as int,
            0xffff_ffff_ffff_ffff,
            0x2_0000_0000,
        );
    }
    let rounded = if remainder * 2 > unit || (remainder * 2 == unit && quotient % 2 == 1) {
        quotient + 1
    } else {
        quotient
    };
    (rounded % (2 * polynomial_size as u64)) as usize
}

/// Give the digits of a GLWE ciphertext, one polynomial for each row of a GGSW ciphertext.
fn decompose_glwe(
    glwe: &[u64],
    polynomial_size: usize,
    glwe_size: usize,
    decomposer: &SignedDecomposer,
) -> (decomposition: Vec<u64>)
    requires
        decomposer.wf(),
        polynomial_size >= 1,
        glwe_size >= 1,
        glwe@.len() == glwe_size * polynomial_size,
        decomposer.level_count * glwe_size <= usize::MAX,
    ensures
        decomposition@ == external_product_decomposition(
            glwe@,
            BootstrapShape {
                polynomial_size: polynomial_size as int,
                glwe_size: glwe_size as int,
                base_log: decomposer.base_log as nat,
                levels: decomposer.level_count as nat,
            },
        ),
{
    let ghost shape = BootstrapShape {
        polynomial_size: polynomial_size as int,
        glwe_size: glwe_size as int,
        base_log: decomposer.base_log as nat,
        levels: decomposer.level_count as nat,
    };
    let ghost f = |r: int|
        decomposed_polynomial(
            polynomial_of(glwe@, r % shape.glwe_size, shape.polynomial_size),
            shape.base_log,
            shape.levels,
            (r / shape.glwe_size + 1) as nat,
        );
    let rows = decomposer.level_count * glwe_size;
    let mut decomposition: Vec<u64> = Vec::new();
    let mut row: usize = 0;
    while row < rows
        invariant
            decomposer.wf(),
            polynomial_size >= 1,
            glwe_size >= 1,
            glwe@.len() == glwe_size * polynomial_size,
            rows == decomposer.level_count * glwe_size,
            row <= rows,
            shape == (BootstrapShape {
                polynomial_size: polynomial_size as int,
                glwe_size: glwe_size as int,
                base_log: decomposer.base_log as nat,
                levels: decomposer.level_count as nat,
            }),
            forall|r: int|
                #[trigger] f(r) == decomposed_polynomial(
                    polynomial_of(glwe@, r % shape.glwe_size, shape.polynomial_size),
                    shape.base_log,
                    shape.levels,
                    (r / shape.glwe_size + 1) as nat,
                ),
            decomposition@ == concat_polynomials(f, row as int),
        decreases rows - row,
    {
        proof {
            assert(decomposer.level_count * glwe_size == glwe_size * decomposer.level_count)
                by (nonlinear_arith);
            vstd::arithmetic::div_mod::lemma_multiply_divide_lt(
                row as int,
                glwe_size as int,
                decomposer.level_count as int,
            );
            lemma_polynomial_bounds(
                (row % glwe_size) as int,
                glwe_size as int,
                polynomial_size as int,
            );
        }
        let source = polynomial(glwe, row % glwe_size, polynomial_size);
        decomposer.append_decomposed(&mut decomposition, source, row / glwe_size + 1);
        row += 1;
    }
    proof {
        crate::core_crypto::algorithms::ggsw_encryption::lemma_concat_polynomials_congruent(
            f,
            |r: int|
                decomposed_polynomial(
                    polynomial_of(glwe@, r % shape.glwe_size, shape.polynomial_size),
                    shape.base_log,
                    shape.levels,
                    (r / shape.glwe_size + 1) as nat,
                ),
            rows as int,
        );
    }
    decomposition
}

/// Add to `accumulator` the external product of a GGSW ciphertext and a GLWE ciphertext.
fn add_external_product(
    accumulator: &[u64],
    ggsw: &[u64],
    glwe: &[u64],
    polynomial_size: usize,
    glwe_size: usize,
    decomposer: &SignedDecomposer,
) -> (output: Vec<u64>)
    requires
        decomposer.wf(),
        polynomial_size >= 1,
        glwe_size >= 1,
        accumulator@.len() == glwe_size * polynomial_size,
        glwe@.len() == glwe_size * polynomial_size,
        ggsw@.len() == decomposer.level_count * glwe_size * glwe_size * polynomial_size,
    ensures
        output@ == external_product_added(
            accumulator@,
            ggsw@,
            glwe@,
            BootstrapShape {
                polynomial_size: polynomial_size as int,
                glwe_size: glwe_size as int,
                base_log: decomposer.base_log as nat,
                levels: decomposer.level_count as nat,
            },
        ),
        output@.len() == glwe_size * polynomial_size,
{
    let ghost shape = BootstrapShape {
        polynomial_size: polynomial_size as int,
        glwe_size: glwe_size as int,
        base_log: decomposer.base_log as nat,
        levels: decomposer.level_count as nat,
    };
    let ggsw_len = ggsw.len();
    proof {
        lemma_shape_sizes(shape);
        lemma_decomposition_len(glwe@, shape);
        assert(shape.rows() * shape.glwe_size >= shape.rows()) by (nonlinear_arith)
            requires
                shape.rows() >= 1,
                shape.glwe_size >= 1,
        ;
        assert((shape.rows() * shape.glwe_size) * shape.polynomial_size >= shape.rows()
            * shape.glwe_size) by (nonlinear_arith)
            requires
                shape.rows() * shape.glwe_size >= 1,
                shape.polynomial_size >= 1,
        ;
    }
    let rows = decomposer.level_count * glwe_size;
    assert(rows * glwe_size <= ggsw_len);
    let decomposition = decompose_glwe(glwe, polynomial_size, glwe_size, decomposer);
    let ghost f = |j: int|
        external_product_polynomial(
            polynomial_of(accumulator@, j, shape.polynomial_size),
            ggsw@,
            decomposition@,
            shape,
            j,
            shape.rows(),
        );
    let mut output: Vec<u64> = Vec::new();
    let mut j: usize = 0;
    while j < glwe_size
        invariant
            decomposer.wf(),
            polynomial_size >= 1,
            glwe_size >= 1,
            accumulator@.len() == glwe_size * polynomial_size,
            ggsw@.len() == (rows * glwe_size) * polynomial_size,
            decomposition@.len() == rows * polynomial_size,
            rows == decomposer.level_count * glwe_size,
            rows == shape.rows(),
            rows * glwe_size <= usize::MAX,
            j <= glwe_size,
            shape == (BootstrapShape {
                polynomial_size: polynomial_size as int,
                glwe_size: glwe_size as int,
                base_log: decomposer.base_log as nat,
                levels: decomposer.level_count as nat,
            }),
            forall|i: int|
                #[trigger] f(i) == external_product_polynomial(
                    polynomial_of(accumulator@, i, shape.polynomial_size),
                    ggsw@,
                    decomposition@,
                    shape,
                    i,
                    shape.rows(),
                ),
            output@ == concat_polynomials(f, j as int),
        decreases glwe_size - j,
    {
        proof {
            lemma_polynomial_bounds(j as int, glwe_size as int, polynomial_size as int);
        }
        let mut sum = vstd::slice::slice_to_vec(polynomial(accumulator, j, polynomial_size));
        let mut row: usize = 0;
        while row < rows
            invariant
                polynomial_size >= 1,
                glwe_size >= 1,
                j < glwe_size,
                ggsw@.len() == (rows * glwe_size) * polynomial_size,
                decomposition@.len() == rows * polynomial_size,
                rows * glwe_size <= usize::MAX,
                row <= rows,
                sum@.len() == polynomial_size,
                shape.polynomial_size == polynomial_size,
                shape.glwe_size == glwe_size,
                sum@ == external_product_polynomial(
                    polynomial_of(accumulator@, j as int, shape.polynomial_size),
                    ggsw@,
                    decomposition@,
                    shape,
                    j as int,
                    row as int,
                ),
            decreases rows - row,
        {
            proof {
                lemma_polynomial_bounds(row as int, rows as int, polynomial_size as int);
                assert(row * glwe_size + j < rows * glwe_size) by (nonlinear_arith)
                    requires
                        row < rows,
                        j < glwe_size,
                ;
                lemma_polynomial_bounds(
                    row * glwe_size + j,
                    rows * glwe_size,
                    polynomial_size as int,
                );
            }
            let digits = polynomial(&decomposition, row, polynomial_size);
            let key_polynomial = polynomial(ggsw, row * glwe_size + j, polynomial_size);
            polynomial_wrapping_add_mul_assign(sum.as_mut_slice(), digits, key_polynomial);
            row += 1;
        }
        append_slice(&mut output, sum.as_slice());
        proof {
            assert(output@ =~= concat_polynomials(f, j as int) + f(j as int));
        }
        j += 1;
    }
    proof {
        crate::core_crypto::algorithms::ggsw_encryption::lemma_concat_polynomials_congruent(
            f,
            |j: int|
                external_product_polynomial(
                    polynomial_of(accumulator@, j, shape.polynomial_size),
                    ggsw@,
                    external_product_decomposition(glwe@, shape),
                    shape,
                    j,
                    shape.rows(),
                ),
            glwe_size as int,
        );
        assert forall|i: int| 0 <= i < glwe_size implies (#[trigger] f(i)).len()
            == polynomial_size by {
            lemma_polynomial_bounds(i, glwe_size as int, polynomial_size as int);
            lemma_external_product_polynomial_len(
                polynomial_of(accumulator@, i, shape.polynomial_size),
                ggsw@,
                decomposition@,
                shape,
                i,
                shape.rows(),
            );
        }
        lemma_concat_polynomials(f, glwe_size as int, polynomial_size as int);
    }
    output
}

/// One step of the blind rotation of `accumulator` by `X^degree` under a GGSW ciphertext.
fn cmux_rotate(
    accumulator: &[u64],
    ggsw: &[u64],
    degree: usize,
    polynomial_size: usize,
    glwe_size: usize,
    decomposer: &SignedDecomposer,
) -> (output: Vec<u64>)
    requires
        decomposer.wf(),
        1 <= polynomial_size <= 0x4000_0000,
        glwe_size >= 1,
        degree < 2 * polynomial_size,
        accumulator@.len() == glwe_size * polynomial_size,
        ggsw@.len() == decomposer.level_count * glwe_size * glwe_size * polynomial_size,
    ensures
        output@ == cmux_rotated(
            accumulator@,
            ggsw@,
            degree as int,
            BootstrapShape {
                polynomial_size: polynomial_size as int,
                glwe_size: glwe_size as int,
                base_log: decomposer.base_log as nat,
                levels: decomposer.level_count as nat,
            },
        ),
        output@.len() == glwe_size * polynomial_size,
{
    let mut difference = monomial_product_of_polynomials(
        accumulator,
        polynomial_size,
        degree,
        glwe_size,
    );
    slice_wrapping_sub_assign::<u64>(difference.as_mut_slice(), accumulator);
    add_external_product(
        accumulator,
        ggsw,
        difference.as_slice(),
        polynomial_size,
        glwe_size,
        decomposer,
    )
}

/// Rotate a lookup table blindly by the phase of `input`, switched to the modulus
/// `2 * polynomial_size`, under a bootstrap key for the key of `input`.
pub fn blind_rotate(
    key: &[u64],
    lookup_table: &[u64],
    input: &[u64],
    polynomial_size: usize,
    glwe_size: usize,
    decomposer: &SignedDecomposer,
) -> (accumulator: Vec<u64>)
    requires
        decomposer.wf(),
        1 <= polynomial_size <= 0x4000_0000,
        glwe_size >= 1,
        input@.len() >= 1,
        lookup_table@.len() == glwe_size * polynomial_size,
        key@.len() == (input@.len() - 1) * (decomposer.level_count * glwe_size * glwe_size
            * polynomial_size),
    ensures
        accumulator@ == blind_rotated(
            key@,
            lookup_table@,
            input@,
            BootstrapShape {
                polynomial_size: polynomial_size as int,
                glwe_size: glwe_size as int,
                base_log: decomposer.base_log as nat,
                levels: decomposer.level_count as nat,
            },
            input@.len() - 1,
        ),
        accumulator@.len() == glwe_size * polynomial_size,
{
    let ghost shape = BootstrapShape {
        polynomial_size: polynomial_size as int,
        glwe_size: glwe_size as int,
        base_log: decomposer.base_log as nat,
        levels: decomposer.level_count as nat,
    };
    let dimension = input.len() - 1;
    let key_len = key.len();
    let lookup_len = lookup_table.len();
    let switched_body = modulus_switch(input[dimension], polynomial_size);
    let first_degree = (2 * polynomial_size - switched_body) % (2 * polynomial_size);
    let mut accumulator = monomial_product_of_polynomials(
        lookup_table,
        polynomial_size,
        first_degree,
        glwe_size,
    );
    if dimension == 0 {
        return accumulator;
    }
    proof {
        lemma_shape_sizes(shape);
        assert(shape.ggsw_len() <= dimension * shape.ggsw_len()) by (nonlinear_arith)
            requires
                dimension >= 1,
                shape.ggsw_len() >= 0,
        ;
    }
    let ggsw_len = key_len / dimension;
    proof {
        vstd::arithmetic::div_mod::lemma_div_multiples_vanish(
            shape.ggsw_len(),
            dimension as int,
        );
        assert(dimension * shape.ggsw_len() == shape.ggsw_len() * dimension)
            by (nonlinear_arith);
    }
    let mut step: usize = 0;
    while step < dimension
        invariant
            decomposer.wf(),
            1 <= polynomial_size <= 0x4000_0000,
            glwe_size >= 1,
            dimension == input@.len() - 1,
            key@.len() == dimension * ggsw_len,
            ggsw_len == shape.ggsw_len(),
            ggsw_len == decomposer.level_count * glwe_size * glwe_size * polynomial_size,
            step <= dimension,
            shape == (BootstrapShape {
                polynomial_size: polynomial_size as int,
                glwe_size: glwe_size as int,
                base_log: decomposer.base_log as nat,
                levels: decomposer.level_count as nat,
            }),
            accumulator@.len() == glwe_size * polynomial_size,
            accumulator@ == blind_rotated(key@, lookup_table@, input@, shape, step as int),
        decreases dimension - step,
    {
        proof {
            lemma_polynomial_bounds(step as int, dimension as int, ggsw_len as int);
        }
        let ggsw = polynomial(key, step, ggsw_len);
        let degree = modulus_switch(input[step], polynomial_size);
        accumulator = cmux_rotate(
            accumulator.as_slice(),
            ggsw,
            degree,
            polynomial_size,
            glwe_size,
            decomposer,
        );
        step += 1;
    }
    accumulator
}

/// Extract the LWE ciphertext of the constant coefficient of a GLWE ciphertext.
pub fn extract_lwe_sample_from_glwe_ciphertext(
    glwe: &[u64],
    polynomial_size: usize,
    glwe_size: usize,
) -> (output: Vec<u64>)
    requires
        polynomial_size >= 1,
        glwe_size >= 1,
        glwe@.len() == glwe_size * polynomial_size,
    ensures
        output@ == sample_extracted(
            glwe@,
            BootstrapShape {
                polynomial_size: polynomial_size as int,
                glwe_size: glwe_size as int,
                base_log: 0,
                levels: 0,
            },
        ),
        output@.len() == (glwe_size - 1) * polynomial_size + 1,
{
    let ghost f = |c: int|
        extracted_mask_polynomial(polynomial_of(glwe@, c, polynomial_size as int));
    let glwe_len = glwe.len();
    let mut output: Vec<u64> = Vec::new();
    let mut c: usize = 0;
    while c < glwe_size - 1
        invariant
            polynomial_size >= 1,
            glwe_size >= 1,
            glwe@.len() == glwe_size * polynomial_size,
            c <= glwe_size - 1,
            forall|i: int|
                #[trigger] f(i) == extracted_mask_polynomial(
                    polynomial_of(glwe@, i, polynomial_size as int),
                ),
            output@ == concat_polynomials(f, c as int),
        decreases glwe_size - 1 - c,
    {
        proof {
            lemma_polynomial_bounds(c as int, glwe_size as int, polynomial_size as int);
        }
        let a = polynomial(glwe, c, polynomial_size);
        let ghost before = output@;
        let mut j: usize = 0;
        while j < polynomial_size
            invariant
                polynomial_size >= 1,
                a@.len() == polynomial_size,
                j <= polynomial_size,
                output@.len() == before.len() + j,
                forall|i: int| 0 <= i < before.len() ==> output@[i] == before[i],
                forall|i: int|
                    0 <= i < j ==> output@[before.len() + i] == extracted_mask_polynomial(a@)[i],
            decreases polynomial_size - j,
        {
            let value = if j == 0 {
                a[0]
            } else {
                proof {
                    lemma_wrapping_is_torus(0, a@[polynomial_size - j]);
                }
                0u64.wrapping_sub(a[polynomial_size - j])
            };
            output.push(value);
            j += 1;
        }
        proof {
            assert(output@ =~= before + extracted_mask_polynomial(a@));
        }
        c += 1;
    }
    proof {
        lemma_polynomial_bounds(glwe_size - 1, glwe_size as int, polynomial_size as int);
        crate::core_crypto::algorithms::ggsw_encryption::lemma_concat_polynomials_congruent(
            f,
            |c: int| extracted_mask_polynomial(polynomial_of(glwe@, c, polynomial_size as int)),
            glwe_size - 1,
        );
        assert forall|i: int| 0 <= i < glwe_size - 1 implies (#[trigger] f(i)).len()
            == polynomial_size by {
            lemma_polynomial_bounds(i, glwe_size as int, polynomial_size as int);
        }
        lemma_concat_polynomials(f, glwe_size - 1, polynomial_size as int);
    }
    output.push(glwe[(glwe_size - 1) * polynomial_size]);
    output
}

/// Bootstrap `input` with a lookup table: give the LWE ciphertext, under the GLWE key read
/// as an LWE key, of the coefficient of the table that the phase of `input` selects.
pub fn programmable_bootstrap_lwe_ciphertext(
    key: &[u64],
    lookup_table: &[u64],
    input: &[u64],
    polynomial_size: usize,
    glwe_size: usize,
    decomposer: &SignedDecomposer,
) -> (output: Vec<u64>)
    requires
        decomposer.wf(),
        1 <= polynomial_size <= 0x4000_0000,
        glwe_size >= 1,
        input@.len() >= 1,
        lookup_table@.len() == glwe_size * polynomial_size,
        key@.len() == (input@.len() - 1) * (decomposer.level_count * glwe_size * glwe_size
            * polynomial_size),
    ensures
        output@ == programmable_bootstrapped(
            key@,
            lookup_table@,
            input@,
            BootstrapShape {
                polynomial_size: polynomial_size as int,
                glwe_size: glwe_size as int,
                base_log: decomposer.base_log as nat,
                levels: decomposer.level_count as nat,
            },
        ),
        output@.len() == (glwe_size - 1) * polynomial_size + 1,
{
    let accumulator = blind_rotate(
        key,
        lookup_table,
        input,
        polynomial_size,
        glwe_size,
        decomposer,
    );
    extract_lwe_sample_from_glwe_ciphertext(accumulator.as_slice(), polynomial_size, glwe_size)
}

} // verus!
