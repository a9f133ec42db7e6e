//! The server key and the operations that it allows on ciphertexts.
use crate::core_crypto::algorithms::decomposition::SignedDecomposer;
use crate::core_crypto::algorithms::lwe_keyswitch::{keyswitch_lwe_ciphertext, keyswitched};
use crate::core_crypto::algorithms::lwe_programmable_bootstrapping::{
    programmable_bootstrap_lwe_ciphertext,
    programmable_bootstrapped,
    BootstrapShape,
};
use crate::core_crypto::algorithms::slice_algorithms::{
    slice_scaled,
    slice_sum,
    slice_wrapping_add_assign,
    slice_wrapping_scalar_mul_assign,
};
use crate::core_crypto::commons::parameters::CiphertextModulus;
use crate::core_crypto::commons::traits::Container;
use crate::core_crypto::entities::glwe_ciphertext::GlweCiphertext;
use crate::core_crypto::entities::lwe_bootstrap_key::LweBootstrapKeyOwned;
use crate::core_crypto::entities::lwe_keyswitch_key::LweKeyswitchKeyOwned;
use crate::shortint::ciphertext::{Ciphertext, CiphertextView, Degree, PBSOrder};
use crate::shortint::client_key::ClientKey;
use crate::shortint::engine::{
    accumulator_of,
    degree_of,
    is_bivariate_table_of,
    is_table_of,
    max_value,
    message_table,
    ShortintEngine,
};
use crate::shortint::parameters::{CarryModulus, MessageModulus};
use vstd::prelude::*;

pub mod bitwise_op;
pub mod compressed;
pub mod correctness;
pub mod degree;
pub mod encodings;

verus! {

/// The largest degree that a ciphertext may have before its carry must be cleared.
#[derive(Clone, Copy, Debug, PartialEq, Eq, Structural)]
pub struct MaxDegree(pub usize);

/// The error of a checked operation.
#[derive(Clone, Copy, Debug, PartialEq, Eq, Structural)]
pub enum CheckError {
    /// The carries of the operands leave no room for the operation.
    CarryFull,
}

/// A lookup table: the accumulator of a programmable bootstrap, and the largest value of
/// the function that it encodes.
#[derive(Debug)]
pub struct LookupTable<C: Container> {
    pub acc: GlweCiphertext<C>,
    pub degree: Degree,
}

/// A lookup table that owns its scalars.
pub type LookupTableOwned = LookupTable<Vec<u64>>;

/// A lookup table over mutably borrowed scalars.
pub type LookupTableMutView<'a> = LookupTable<&'a mut [u64]>;

/// A lookup table for a function of two operands, which are packed as
/// `left * ct_right_modulus + right`.
#[derive(Debug)]
pub struct BivariateLookupTable<C: Container> {
    pub acc: LookupTable<C>,
    pub ct_right_modulus: MessageModulus,
}

/// A bivariate lookup table that owns its scalars.
pub type BivariateLookupTableOwned = BivariateLookupTable<Vec<u64>>;

/// The key that a server computes with: a bootstrap key for the small LWE key, a key
/// switching key from the large LWE key to the small one, and the moduli of the encoding.
#[derive(Debug)]
pub struct ServerKey {
    pub key_switching_key: LweKeyswitchKeyOwned,
    pub bootstrapping_key: LweBootstrapKeyOwned,
    pub message_modulus: MessageModulus,
    pub carry_modulus: CarryModulus,
    pub max_degree: MaxDegree,
    pub ciphertext_modulus: CiphertextModulus,
}

impl ServerKey {
    /// The product of the message modulus and the carry modulus, as a number.
    pub open spec fn modulus_sup(&self) -> int {
        self.message_modulus.0 * self.carry_modulus.0
    }

    /// The scaling factor of the encoding: `2^63 / (message_modulus * carry_modulus)`.
    pub open spec fn spec_delta(&self) -> u64 {
        (0x8000_0000_0000_0000int / self.modulus_sup()) as u64
    }

    /// The number of scalars of an accumulator.
    pub open spec fn glwe_len(&self) -> int {
        self.bootstrapping_key.glwe_size.0 * self.bootstrapping_key.polynomial_size.0
    }

    /// The number of scalars of a ciphertext under the small key.
    pub open spec fn small_lwe_size(&self) -> int {
        self.key_switching_key.output_lwe_size.0 as int
    }

    /// The number of scalars of a ciphertext under the large key.
    pub open spec fn big_lwe_size(&self) -> int {
        (self.bootstrapping_key.glwe_size.0 - 1) * self.bootstrapping_key.polynomial_size.0 + 1
    }

    /// The number of scalars of the ciphertexts of an order.
    pub open spec fn ciphertext_size(&self, order: PBSOrder) -> int {
        match order {
            PBSOrder::KeyswitchBootstrap => self.big_lwe_size(),
            PBSOrder::BootstrapKeyswitch => self.small_lwe_size(),
        }
    }

    /// The shape of the bootstrap key.
    pub open spec fn bootstrap_shape(&self) -> BootstrapShape {
        BootstrapShape {
            polynomial_size: self.bootstrapping_key.polynomial_size.0 as int,
            glwe_size: self.bootstrapping_key.glwe_size.0 as int,
            base_log: self.bootstrapping_key.decomp_base_log.0 as nat,
            levels: self.bootstrapping_key.decomp_level_count.0 as nat,
        }
    }

    /// The two keys are well formed and fit each other: the bootstrap key takes the
    /// ciphertexts that the key switching key gives, and the key switching key those that
    /// the bootstrap key gives. The moduli are not zero and leave the padding bit free, and
    /// the scratch buffers can be addressed.
    pub open spec fn wf(&self) -> bool {
        &&& self.bootstrapping_key.wf()
        &&& self.key_switching_key.wf()
        &&& self.bootstrapping_key.polynomial_size.0 <= 0x4000_0000
        &&& self.key_switching_key.output_lwe_size.0
            == self.bootstrapping_key.spec_input_lwe_dimension() + 1
        &&& self.key_switching_key.spec_input_key_lwe_dimension() == self.big_lwe_size() - 1
        &&& self.message_modulus.0 >= 1
        &&& self.carry_modulus.0 >= 1
        &&& self.modulus_sup() <= usize::MAX
        &&& self.modulus_sup() <= 0x8000_0000_0000_0000
        &&& 2 * self.glwe_len() + self.small_lwe_size() + 1 <= usize::MAX
    }

    /// The scaling factor of the encoding.
    pub fn delta(&self) -> (delta: u64)
        requires
            self.wf(),
        ensures
            delta == self.spec_delta(),
            delta >= 1,
            self.modulus_sup() >= 1,
    {
        proof {
            crate::shortint::parameters::lemma_modulus_sup_positive(
                self.message_modulus.0 as int,
                self.carry_modulus.0 as int,
            );
            crate::shortint::parameters::lemma_delta_bounds(self.modulus_sup());
        }
        let modulus_sup = self.message_modulus.0 * self.carry_modulus.0;
        0x8000_0000_0000_0000u64 / (modulus_sup as u64)
    }
}

impl<C: Container> LookupTable<C> {
    /// Whether the table has the shape of the accumulators of a server key.
    pub open spec fn fits(&self, server_key: &ServerKey) -> bool {
        &&& self.acc@.len() == server_key.glwe_len()
        &&& self.acc.polynomial_size == server_key.bootstrapping_key.polynomial_size
    }
}

/// The table of the function that keeps the carry of an integer: its quotient by the message
/// modulus.
pub open spec fn carry_table(message_modulus: int, count: int) -> Seq<u64> {
    Seq::new(count as nat, |i: int| (i / message_modulus) as u64)
}

/// The two operands of a bivariate operation packed in one ciphertext: the left one is
/// scaled by `scaling`, and the right one is added.
pub open spec fn bivariate_packed(left: Seq<u64>, right: Seq<u64>, scaling: u64) -> Seq<u64> {
    slice_sum(slice_scaled(left, scaling), right)
}

impl ServerKey {
    /// Generate the server key of a client key with the generators of an engine.
    pub fn new(cks: &ClientKey, engine: &mut ShortintEngine) -> (server_key: ServerKey)
        requires
            cks.wf(),
        ensures
            server_key.wf(),
            server_key.bootstrapping_key@ == old(engine)@.bootstrap_key(*cks),
            server_key.key_switching_key@ == old(engine)@.keyswitch_key(*cks),
            server_key.bootstrapping_key.polynomial_size == cks.parameters.polynomial_size,
            server_key.bootstrapping_key.glwe_size.0 == cks.parameters.glwe_dimension.0 + 1,
            server_key.key_switching_key.output_lwe_size.0 == cks.parameters.lwe_dimension.0 + 1,
            server_key.message_modulus == cks.parameters.message_modulus,
            server_key.carry_modulus == cks.parameters.carry_modulus,
            server_key.max_degree.0 == cks.parameters.modulus_sup() - 1,
            server_key.ciphertext_modulus == cks.parameters.ciphertext_modulus,
            server_key.bootstrapping_key.ciphertext_modulus == cks.parameters.ciphertext_modulus,
            server_key.key_switching_key.ciphertext_modulus == cks.parameters.ciphertext_modulus,
            server_key.is_key_of(old(engine)@, *cks),
            final(engine)@ == old(engine)@.after_server_key_generation(*cks),
    {
        engine.new_server_key(cks).unwrap()
    }

    /// Whether a ciphertext is well formed and has the size of the ciphertexts of its order
    /// for this key.
    pub open spec fn admits(&self, ct: &Ciphertext) -> bool {
        &&& ct.wf()
        &&& ct@.ct.len() == self.ciphertext_size(ct.pbs_order)
    }

    /// The key switch of a ciphertext under the large key to the small key.
    pub open spec fn spec_keyswitched(&self, ct: Seq<u64>) -> Seq<u64> {
        keyswitched(
            self.key_switching_key@,
            ct,
            self.small_lwe_size(),
            self.key_switching_key.decomp_base_log.0 as nat,
            self.key_switching_key.decomp_level_count.0 as nat,
        )
    }

    /// The bootstrap of a ciphertext under the small key with a lookup table: a ciphertext
    /// under the large key.
    pub open spec fn spec_bootstrapped(&self, ct: Seq<u64>, lookup_table: Seq<u64>) -> Seq<u64> {
        programmable_bootstrapped(
            self.bootstrapping_key@,
            lookup_table,
            ct,
            self.bootstrap_shape(),
        )
    }

    /// The scalars of a ciphertext after a lookup table is applied to it: a key switch then a
    /// bootstrap, or a bootstrap then a key switch, as the order of the ciphertext says.
    pub open spec fn lookup_table_applied(
        &self,
        ct: Seq<u64>,
        order: PBSOrder,
        lookup_table: Seq<u64>,
    ) -> Seq<u64> {
        match order {
            PBSOrder::KeyswitchBootstrap => self.spec_bootstrapped(
                self.spec_keyswitched(ct),
                lookup_table,
            ),
            PBSOrder::BootstrapKeyswitch => self.spec_keyswitched(
                self.spec_bootstrapped(ct, lookup_table),
            ),
        }
    }

    /// The accumulator of a table for this key: a fresh one, with a zero mask.
    pub open spec fn accumulator(&self, values: Seq<u64>) -> Seq<u64> {
        accumulator_of(
            Seq::new(self.glwe_len() as nat, |i: int| 0u64),
            values,
            self.spec_delta(),
            self.bootstrapping_key.polynomial_size.0 as int,
        )
    }

    /// A ciphertext after the table `values` is applied to it: its degree is the largest
    /// value of the table.
    pub open spec fn table_applied(&self, ct: CiphertextView, values: Seq<u64>) -> CiphertextView {
        CiphertextView {
            ct: self.lookup_table_applied(ct.ct, ct.pbs_order, self.accumulator(values)),
            degree: degree_of(max_value(values)),
            ..ct
        }
    }

    /// A ciphertext after its carry is cleared: the table that keeps the message is applied
    /// to it.
    pub open spec fn message_extracted(&self, ct: CiphertextView) -> CiphertextView {
        self.table_applied(ct, message_table(self.message_modulus.0 as int, self.modulus_sup()))
    }

    /// The ciphertext of the carry of a ciphertext: the table that keeps the carry is applied
    /// to it.
    pub open spec fn carry_extracted(&self, ct: CiphertextView) -> CiphertextView {
        self.table_applied(ct, carry_table(self.message_modulus.0 as int, self.modulus_sup()))
    }

    /// The sum of two ciphertexts: the scalars and the degrees are added.
    pub open spec fn added(left: CiphertextView, right: CiphertextView) -> CiphertextView {
        CiphertextView {
            ct: slice_sum(left.ct, right.ct),
            degree: Degree((left.degree.0 + right.degree.0) as usize),
            ..left
        }
    }

    /// The product of a ciphertext and a scalar: the scalars and the degree are multiplied.
    pub open spec fn scalar_multiplied(ct: CiphertextView, scalar: u8) -> CiphertextView {
        CiphertextView {
            ct: slice_scaled(ct.ct, scalar as u64),
            degree: Degree((ct.degree.0 * scalar) as usize),
            ..ct
        }
    }

    /// Generate the lookup table of `f`. The degree of the table is the largest value of
    /// `f` on the inputs below the product of the moduli.
    pub fn generate_accumulator<F>(&self, f: F) -> (table: LookupTableOwned) where
        F: Fn(u64) -> u64,

        requires
            self.wf(),
            forall|i: u64| i < self.modulus_sup() ==> call_requires(f, (i,)),
        ensures
            table.fits(self),
            exists|values: Seq<u64>|
                #![trigger is_table_of(f, values, self.modulus_sup())]
                {
                    &&& is_table_of(f, values, self.modulus_sup())
                    &&& table.acc@ == self.accumulator(values)
                    &&& table.degree == degree_of(max_value(values))
                },
    {
        ShortintEngine::generate_accumulator_with_engine(self, f).unwrap()
    }

    /// Generate the lookup table of a function of two operands, which are packed as
    /// `left * message_modulus + right`.
    pub fn generate_accumulator_bivariate<F>(&self, f: F) -> (table: BivariateLookupTableOwned) where
        F: Fn(u64, u64) -> u64,

        requires
            self.wf(),
            forall|lhs: u64, rhs: u64|
                lhs < self.message_modulus.0 && rhs < self.message_modulus.0 ==> call_requires(
                    f,
                    (lhs, rhs),
                ),
        ensures
            table.acc.fits(self),
            table.ct_right_modulus == self.message_modulus,
            exists|values: Seq<u64>|
                #![trigger is_bivariate_table_of(f, values, self.message_modulus.0 as int, self.message_modulus.0 as int, self.modulus_sup())]
                {
                    &&& is_bivariate_table_of(
                        f,
                        values,
                        self.message_modulus.0 as int,
                        self.message_modulus.0 as int,
                        self.modulus_sup(),
                    )
                    &&& table.acc.acc@ == self.accumulator(values)
                    &&& table.acc.degree == degree_of(max_value(values))
                },
    {
        ShortintEngine::generate_accumulator_bivariate_with_engine(
            self,
            f,
            self.message_modulus,
        ).unwrap()
    }

    /// Switch a ciphertext under the large key to the small key.
    fn keyswitch(&self, ct: &[u64]) -> (output: Vec<u64>)
        requires
            self.wf(),
            ct@.len() == self.big_lwe_size(),
        ensures
            output@ == self.spec_keyswitched(ct@),
            output@.len() == self.small_lwe_size(),
    {
        let dimension = self.key_switching_key.input_key_lwe_dimension();
        let decomposer = SignedDecomposer::new(
            self.key_switching_key.decomp_base_log,
            self.key_switching_key.decomp_level_count,
        );
        keyswitch_lwe_ciphertext(
            self.key_switching_key.data.as_slice(),
            ct,
            self.key_switching_key.output_lwe_size.0,
            &decomposer,
        )
    }

    /// Bootstrap a ciphertext under the small key with a lookup table.
    fn bootstrap(&self, ct: &[u64], lookup_table: &[u64]) -> (output: Vec<u64>)
        requires
            self.wf(),
            ct@.len() == self.small_lwe_size(),
            lookup_table@.len() == self.glwe_len(),
        ensures
            output@ == self.spec_bootstrapped(ct@, lookup_table@),
            output@.len() == self.big_lwe_size(),
    {
        proof {
            self.bootstrapping_key.lemma_len();
        }
        let decomposer = SignedDecomposer::new(
            self.bootstrapping_key.decomp_base_log,
            self.bootstrapping_key.decomp_level_count,
        );
        programmable_bootstrap_lwe_ciphertext(
            self.bootstrapping_key.data.as_slice(),
            lookup_table,
            ct,
            self.bootstrapping_key.polynomial_size.0,
            self.bootstrapping_key.glwe_size.0,
            &decomposer,
        )
    }

    /// Apply a lookup table to the scalars of a ciphertext of an order.
    pub fn apply_lookup_table_to_scalars(&self, ct: &[u64], order: PBSOrder, lookup_table: &[u64]) -> (output:
        Vec<u64>)
        requires
            self.wf(),
            ct@.len() == self.ciphertext_size(order),
            lookup_table@.len() == self.glwe_len(),
        ensures
            output@ == self.lookup_table_applied(ct@, order, lookup_table@),
            output@.len() == self.ciphertext_size(order),
    {
        match order {
            PBSOrder::KeyswitchBootstrap => {
                let after_ks = self.keyswitch(ct);
                self.bootstrap(after_ks.as_slice(), lookup_table)
            },
            PBSOrder::BootstrapKeyswitch => {
                let after_pbs = self.bootstrap(ct, lookup_table);
                self.keyswitch(after_pbs.as_slice())
            },
        }
    }

    /// Apply a lookup table to a ciphertext in place: the ciphertext is bootstrapped with the
    /// table, and its degree becomes the degree of the table.
    pub fn apply_lookup_table_assign(&self, ct: &mut Ciphertext, acc: &LookupTableOwned)
        requires
            self.wf(),
            self.admits(old(ct)),
            acc.fits(self),
        ensures
            final(ct)@ == (CiphertextView {
                ct: self.lookup_table_applied(old(ct)@.ct, old(ct).pbs_order, acc.acc@),
                degree: acc.degree,
                ..old(ct)@
            }),
            self.admits(final(ct)),
    {
        let data = self.apply_lookup_table_to_scalars(
            ct.ct.data.as_slice(),
            ct.pbs_order,
            acc.acc.data.as_slice(),
        );
        ct.ct.data = data;
        ct.degree = acc.degree;
    }

    /// Apply a lookup table to a ciphertext and give the result.
    pub fn apply_lookup_table(&self, ct: &Ciphertext, acc: &LookupTableOwned) -> (result: Ciphertext)
        requires
            self.wf(),
            self.admits(ct),
            acc.fits(self),
        ensures
            result@ == (CiphertextView {
                ct: self.lookup_table_applied(ct@.ct, ct.pbs_order, acc.acc@),
                degree: acc.degree,
                ..ct@
            }),
            self.admits(&result),
    {
        let mut result = ct.clone();
        self.apply_lookup_table_assign(&mut result, acc);
        result
    }

    /// Clear the carry of a ciphertext in place: keep its message only.
    pub fn message_extract_assign(&self, ct: &mut Ciphertext)
        requires
            self.wf(),
            self.admits(old(ct)),
        ensures
            final(ct)@ == self.message_extracted(old(ct)@),
            self.admits(final(ct)),
    {
        let modulus = self.message_modulus.0 as u64;
        let keep_message = |x: u64| -> (message: u64)
            requires
                modulus >= 1,
            ensures
                message == x % modulus,
            { x % modulus };
        let acc = self.generate_accumulator(keep_message);
        proof {
            let values = choose|values: Seq<u64>|
                #![trigger is_table_of(keep_message, values, self.modulus_sup())]
                {
                    &&& is_table_of(keep_message, values, self.modulus_sup())
                    &&& acc.acc@ == self.accumulator(values)
                    &&& acc.degree == degree_of(max_value(values))
                };
            assert(values =~= message_table(self.message_modulus.0 as int, self.modulus_sup()));
        }
        self.apply_lookup_table_assign(ct, &acc);
    }

    /// Give the ciphertext of the message of a ciphertext.
    pub fn message_extract(&self, ct: &Ciphertext) -> (result: Ciphertext)
        requires
            self.wf(),
            self.admits(ct),
        ensures
            result@ == self.message_extracted(ct@),
            self.admits(&result),
    {
        let mut result = ct.clone();
        self.message_extract_assign(&mut result);
        result
    }

    /// Replace a ciphertext by the ciphertext of its carry.
    pub fn carry_extract_assign(&self, ct: &mut Ciphertext)
        requires
            self.wf(),
            self.admits(old(ct)),
        ensures
            final(ct)@ == self.carry_extracted(old(ct)@),
            self.admits(final(ct)),
    {
        let modulus = self.message_modulus.0 as u64;
        let keep_carry = |x: u64| -> (carry: u64)
            requires
                modulus >= 1,
            ensures
                carry == x / modulus,
            { x / modulus };
        let acc = self.generate_accumulator(keep_carry);
        proof {
            let values = choose|values: Seq<u64>|
                #![trigger is_table_of(keep_carry, values, self.modulus_sup())]
                {
                    &&& is_table_of(keep_carry, values, self.modulus_sup())
                    &&& acc.acc@ == self.accumulator(values)
                    &&& acc.degree == degree_of(max_value(values))
                };
            assert(values =~= carry_table(self.message_modulus.0 as int, self.modulus_sup()));
        }
        self.apply_lookup_table_assign(ct, &acc);
    }

    /// Give the ciphertext of the carry of a ciphertext.
    pub fn carry_extract(&self, ct: &Ciphertext) -> (result: Ciphertext)
        requires
            self.wf(),
            self.admits(ct),
        ensures
            result@ == self.carry_extracted(ct@),
            self.admits(&result),
    {
        let mut result = ct.clone();
        self.carry_extract_assign(&mut result);
        result
    }

    /// Clear the carry of a ciphertext in place.
    pub fn clear_carry_assign(&self, ct: &mut Ciphertext)
        requires
            self.wf(),
            self.admits(old(ct)),
        ensures
            final(ct)@ == self.message_extracted(old(ct)@),
            self.admits(final(ct)),
    {
        self.message_extract_assign(ct)
    }

    /// Give a ciphertext of the same message with an empty carry.
    pub fn clear_carry(&self, ct: &Ciphertext) -> (result: Ciphertext)
        requires
            self.wf(),
            self.admits(ct),
        ensures
            result@ == self.message_extracted(ct@),
            self.admits(&result),
    {
        self.message_extract(ct)
    }

    /// Add a ciphertext to another in place, without any check: the degrees are added.
    pub fn unchecked_add_assign(&self, ct_left: &mut Ciphertext, ct_right: &Ciphertext)
        requires
            old(ct_left).wf(),
            old(ct_left)@.ct.len() == ct_right@.ct.len(),
            old(ct_left).degree.0 + ct_right.degree.0 <= usize::MAX,
        ensures
            final(ct_left)@ == Self::added(old(ct_left)@, ct_right@),
            final(ct_left).wf(),
    {
        slice_wrapping_add_assign::<u64>(ct_left.ct.data.as_mut_slice(), ct_right.ct.data.as_slice());
        ct_left.degree = Degree(ct_left.degree.0 + ct_right.degree.0);
    }

    /// Add two ciphertexts, without any check: the degrees are added.
    pub fn unchecked_add(&self, ct_left: &Ciphertext, ct_right: &Ciphertext) -> (result: Ciphertext)
        requires
            ct_left.wf(),
            ct_left@.ct.len() == ct_right@.ct.len(),
            ct_left.degree.0 + ct_right.degree.0 <= usize::MAX,
        ensures
            result@ == Self::added(ct_left@, ct_right@),
            result.wf(),
    {
        let mut result = ct_left.clone();
        self.unchecked_add_assign(&mut result, ct_right);
        result
    }

    /// Multiply a ciphertext by a scalar in place, without any check: the degree is
    /// multiplied.
    pub fn unchecked_scalar_mul_assign(&self, ct: &mut Ciphertext, scalar: u8)
        requires
            old(ct).wf(),
            old(ct).degree.0 * scalar <= usize::MAX,
        ensures
            final(ct)@ == Self::scalar_multiplied(old(ct)@, scalar),
            final(ct).wf(),
    {
        slice_wrapping_scalar_mul_assign::<u64>(ct.ct.data.as_mut_slice(), scalar as u64);
        ct.degree = Degree(ct.degree.0 * (scalar as usize));
    }

    /// Pack two ciphertexts and apply a bivariate lookup table to them, in place of the left
    /// one: the left ciphertext is scaled by the modulus of the table and the right one is
    /// added to it before the bootstrap.
    pub fn unchecked_apply_lookup_table_bivariate_assign(
        &self,
        ct_left: &mut Ciphertext,
        ct_right: &Ciphertext,
        acc: &BivariateLookupTableOwned,
    )
        requires
            self.wf(),
            self.admits(old(ct_left)),
            self.admits(ct_right),
            old(ct_left).pbs_order == ct_right.pbs_order,
            acc.acc.fits(self),
        ensures
            final(ct_left)@ == (CiphertextView {
                ct: self.lookup_table_applied(
                    bivariate_packed(
                        old(ct_left)@.ct,
                        ct_right@.ct,
                        acc.ct_right_modulus.0 as u64,
                    ),
                    ct_right.pbs_order,
                    acc.acc.acc@,
                ),
                degree: acc.acc.degree,
                ..old(ct_left)@
            }),
            self.admits(final(ct_left)),
    {
        slice_wrapping_scalar_mul_assign::<u64>(
            ct_left.ct.data.as_mut_slice(),
            acc.ct_right_modulus.0 as u64,
        );
        slice_wrapping_add_assign::<u64>(ct_left.ct.data.as_mut_slice(), ct_right.ct.data.as_slice());
        self.apply_lookup_table_assign(ct_left, &acc.acc);
    }

    /// The predicate of the bivariate bootstrap: the two operands can be packed when
    /// `(left.degree + 1) * message_modulus + right.degree` is below the product of the
    /// moduli.
    pub open spec fn spec_is_functional_bivariate_pbs_possible(
        &self,
        ct1: CiphertextView,
        ct2: CiphertextView,
    ) -> bool {
        (ct1.degree.0 + 1) * self.message_modulus.0 + ct2.degree.0 < self.modulus_sup()
    }

    /// Whether the two operands of a bivariate bootstrap can be packed in one ciphertext.
    pub fn is_functional_bivariate_pbs_possible(&self, ct1: &Ciphertext, ct2: &Ciphertext) -> (possible:
        bool)
        requires
            self.wf(),
        ensures
            possible == self.spec_is_functional_bivariate_pbs_possible(ct1@, ct2@),
    {
        let modulus_sup = self.message_modulus.0 * self.carry_modulus.0;
        proof {
            crate::shortint::parameters::lemma_modulus_sup_positive(
                self.message_modulus.0 as int,
                self.carry_modulus.0 as int,
            );
        }
        assert((ct1.degree.0 + 1) * self.message_modulus.0 <= 0x1_0000_0000_0000_0000
            * 0x8000_0000_0000_0000) by (nonlinear_arith)
            requires
                0 <= ct1.degree.0 + 1 <= 0x1_0000_0000_0000_0000,
                0 <= self.message_modulus.0 <= 0x8000_0000_0000_0000,
                self.message_modulus.0 <= self.modulus_sup(),
                self.modulus_sup() <= 0x8000_0000_0000_0000,
        ;
        let packed: u128 = (ct1.degree.0 as u128 + 1) * (self.message_modulus.0 as u128)
            + ct2.degree.0 as u128;
        packed < modulus_sup as u128
    }
}

} // verus!
