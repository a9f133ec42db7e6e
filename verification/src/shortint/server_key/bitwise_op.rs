//! Bitwise operations on ciphertexts, in their four modes.
//!
//! Every operation is a bivariate bootstrap: the two operands are packed in one ciphertext
//! as `left * message_modulus + right`, and a lookup table gives the operation on the
//! messages of the two, reduced by the message modulus.
use crate::shortint::ciphertext::{Ciphertext, CiphertextView};
use crate::shortint::engine::{degree_of, is_bivariate_table_of, max_value};
use crate::shortint::server_key::{
    bivariate_packed,
    BivariateLookupTableOwned,
    CheckError,
    ServerKey,
};
use vstd::prelude::*;

verus! {

/// A bitwise operation on two messages.
#[derive(Clone, Copy, Debug, PartialEq, Eq, Structural)]
pub enum BitwiseOperation {
    And,
    Xor,
    Or,
}

impl BitwiseOperation {
    /// The operation on two integers.
    pub open spec fn apply(self, x: u64, y: u64) -> u64 {
        match self {
            BitwiseOperation::And => x & y,
            BitwiseOperation::Xor => x ^ y,
            BitwiseOperation::Or => x | y,
        }
    }

    /// The operation on two messages, as a message: the result is reduced by the message
    /// modulus. For a message modulus that is a power of two this changes nothing.
    pub open spec fn apply_modulo(self, x: u64, y: u64, message_modulus: int) -> u64 {
        (self.apply(x, y) as int % message_modulus) as u64
    }
}

/// The table of a bitwise operation on packed operands: the input `i` stands for the
/// operands `(i / message_modulus) mod message_modulus` and `i mod message_modulus`, and
/// its value is the operation on the two, reduced by the message modulus.
pub open spec fn bitwise_table(
    operation: BitwiseOperation,
    message_modulus: int,
    count: int,
) -> Seq<u64> {
    Seq::new(
        count as nat,
        |i: int|
            operation.apply_modulo(
                ((i / message_modulus) % message_modulus) as u64,
                ((i % message_modulus) % message_modulus) as u64,
                message_modulus,
            ),
    )
}

impl ServerKey {
    /// Whether two ciphertexts can be the operands of one operation under this key.
    pub open spec fn admits_both(&self, ct_left: &Ciphertext, ct_right: &Ciphertext) -> bool {
        &&& self.wf()
        &&& self.admits(ct_left)
        &&& self.admits(ct_right)
        &&& ct_left.pbs_order == ct_right.pbs_order
    }

    /// The result of a bitwise operation without any check: the bootstrap of the packed
    /// operands with the table of the operation. Its degree is the largest value of the
    /// table.
    pub open spec fn unchecked_bitwise(
        &self,
        operation: BitwiseOperation,
        left: CiphertextView,
        right: CiphertextView,
    ) -> CiphertextView {
        let table = bitwise_table(operation, self.message_modulus.0 as int, self.modulus_sup());
        CiphertextView {
            ct: self.lookup_table_applied(
                bivariate_packed(left.ct, right.ct, self.message_modulus.0 as u64),
                right.pbs_order,
                self.accumulator(table),
            ),
            degree: degree_of(max_value(table)),
            ..left
        }
    }

    /// An operand of a smart operation between `left` and `right`, as the operation leaves
    /// it: untouched if the two can be packed as they are, else with its carry cleared.
    pub open spec fn smart_operand(
        &self,
        operand: CiphertextView,
        left: CiphertextView,
        right: CiphertextView,
    ) -> CiphertextView {
        if self.spec_is_functional_bivariate_pbs_possible(left, right) {
            operand
        } else {
            self.message_extracted(operand)
        }
    }

    /// The result of a smart bitwise operation.
    pub open spec fn smart_bitwise(
        &self,
        operation: BitwiseOperation,
        left: CiphertextView,
        right: CiphertextView,
    ) -> CiphertextView {
        self.unchecked_bitwise(
            operation,
            self.smart_operand(left, left, right),
            self.smart_operand(right, left, right),
        )
    }

    /// An operand of a default operation, as the operation uses it: untouched if its carry
    /// is empty, else with its carry cleared.
    pub open spec fn default_operand(&self, operand: CiphertextView) -> CiphertextView {
        if operand.carry_is_empty() {
            operand
        } else {
            self.message_extracted(operand)
        }
    }

    /// The result of a default bitwise operation.
    pub open spec fn default_bitwise(
        &self,
        operation: BitwiseOperation,
        left: CiphertextView,
        right: CiphertextView,
    ) -> CiphertextView {
        self.unchecked_bitwise(
            operation,
            self.default_operand(left),
            self.default_operand(right),
        )
    }

    /// Generate the bivariate lookup table of a bitwise operation.
    fn bitwise_accumulator(&self, operation: BitwiseOperation) -> (acc: BivariateLookupTableOwned)
        requires
            self.wf(),
        ensures
            acc.acc.fits(self),
            acc.ct_right_modulus == self.message_modulus,
            acc.acc.acc@ == self.accumulator(
                bitwise_table(operation, self.message_modulus.0 as int, self.modulus_sup()),
            ),
            acc.acc.degree == degree_of(
                max_value(
                    bitwise_table(operation, self.message_modulus.0 as int, self.modulus_sup()),
                ),
            ),
    {
        let ghost table = bitwise_table(
            operation,
            self.message_modulus.0 as int,
            self.modulus_sup(),
        );
        let modulus = self.message_modulus.0 as u64;
        match operation {
            BitwiseOperation::And => {
                let f = |x: u64, y: u64| -> (z: u64)
                    requires
                        modulus >= 1,
                    ensures
                        z == (x & y) % modulus,
                    { (x & y) % modulus };
                let acc = self.generate_accumulator_bivariate(f);
                proof {
                    let values = choose|values: Seq<u64>|
                        #![trigger is_bivariate_table_of(f, values, self.message_modulus.0 as int, self.message_modulus.0 as int, self.modulus_sup())]
                        {
                            &&& is_bivariate_table_of(
                                f,
                                values,
                                self.message_modulus.0 as int,
                                self.message_modulus.0 as int,
                                self.modulus_sup(),
                            )
                            &&& acc.acc.acc@ == self.accumulator(values)
                            &&& acc.acc.degree == degree_of(max_value(values))
                        };
                    assert(values =~= table);
                }
                acc
            },
            BitwiseOperation::Xor => {
                let f = |x: u64, y: u64| -> (z: u64)
                    requires
                        modulus >= 1,
                    ensures
                        z == (x ^ y) % modulus,
                    { (x ^ y) % modulus };
                let acc = self.generate_accumulator_bivariate(f);
                proof {
                    let values = choose|values: Seq<u64>|
                        #![trigger is_bivariate_table_of(f, values, self.message_modulus.0 as int, self.message_modulus.0 as int, self.modulus_sup())]
                        {
                            &&& is_bivariate_table_of(
                                f,
                                values,
                                self.message_modulus.0 as int,
                                self.message_modulus.0 as int,
                                self.modulus_sup(),
                            )
                            &&& acc.acc.acc@ == self.accumulator(values)
                            &&& acc.acc.degree == degree_of(max_value(values))
                        };
                    assert(values =~= table);
                }
                acc
            },
            BitwiseOperation::Or => {
                let f = |x: u64, y: u64| -> (z: u64)
                    requires
                        modulus >= 1,
                    ensures
                        z == (x | y) % modulus,
                    { (x | y) % modulus };
                let acc = self.generate_accumulator_bivariate(f);
                proof {
                    let values = choose|values: Seq<u64>|
                        #![trigger is_bivariate_table_of(f, values, self.message_modulus.0 as int, self.message_modulus.0 as int, self.modulus_sup())]
                        {
                            &&& is_bivariate_table_of(
                                f,
                                values,
                                self.message_modulus.0 as int,
                                self.message_modulus.0 as int,
                                self.modulus_sup(),
                            )
                            &&& acc.acc.acc@ == self.accumulator(values)
                            &&& acc.acc.degree == degree_of(max_value(values))
                        };
                    assert(values =~= table);
                }
                acc
            },
        }
    }

    /// Compute a bitwise operation in place of the left operand, without any check.
    fn unchecked_bitwise_assign(
        &self,
        operation: BitwiseOperation,
        ct_left: &mut Ciphertext,
        ct_right: &Ciphertext,
    )
        requires
            self.admits_both(old(ct_left), ct_right),
        ensures
            final(ct_left)@ == self.unchecked_bitwise(operation, old(ct_left)@, ct_right@),
            self.admits(final(ct_left)),
    {
        let acc = self.bitwise_accumulator(operation);
        self.unchecked_apply_lookup_table_bivariate_assign(ct_left, ct_right, &acc);
    }

    /// Compute a bitwise operation in place of the left operand, after the carries of both
    /// operands are cleared if the two cannot be packed as they are.
    fn smart_bitwise_assign(
        &self,
        operation: BitwiseOperation,
        ct_left: &mut Ciphertext,
        ct_right: &mut Ciphertext,
    )
        requires
            self.admits_both(old(ct_left), old(ct_right)),
        ensures
            final(ct_left)@ == self.smart_bitwise(operation, old(ct_left)@, old(ct_right)@),
            final(ct_right)@ == self.smart_operand(old(ct_right)@, old(ct_left)@, old(ct_right)@),
            self.admits_both(final(ct_left), final(ct_right)),
    {
        if !self.is_functional_bivariate_pbs_possible(ct_left, ct_right) {
            self.message_extract_assign(ct_left);
            self.message_extract_assign(ct_right);
        }
        self.unchecked_bitwise_assign(operation, ct_left, ct_right);
    }

    /// Compute a bitwise operation in place of the left operand, after the carry of each
    /// operand that has one is cleared; the right operand is cleared in a copy.
    fn default_bitwise_assign(
        &self,
        operation: BitwiseOperation,
        ct_left: &mut Ciphertext,
        ct_right: &Ciphertext,
    )
        requires
            self.admits_both(old(ct_left), ct_right),
        ensures
            final(ct_left)@ == self.default_bitwise(operation, old(ct_left)@, ct_right@),
            self.admits(final(ct_left)),
    {
        if !ct_left.carry_is_empty() {
            self.clear_carry_assign(ct_left);
        }
        if ct_right.carry_is_empty() {
            self.unchecked_bitwise_assign(operation, ct_left, ct_right);
        } else {
            let tmp_rhs = self.clear_carry(ct_right);
            self.unchecked_bitwise_assign(operation, ct_left, &tmp_rhs);
        }
    }

    /// Compute homomorphically an AND between two ciphertexts.
    ///
    /// This is the default mode: the carry of each operand that has one is cleared first, in
    /// a copy, so the operands are left as they are.
    pub fn bitand(&self, ct_left: &Ciphertext, ct_right: &Ciphertext) -> (ct_res: Ciphertext)
        requires
            self.admits_both(ct_left, ct_right),
        ensures
            ct_res@ == self.default_bitwise(BitwiseOperation::And, ct_left@, ct_right@),
            self.admits(&ct_res),
    {
        let mut ct_res = ct_left.clone();
        self.bitand_assign(&mut ct_res, ct_right);
        ct_res
    }

    /// Compute homomorphically an AND between two ciphertexts; the result is stored in
    /// `ct_left`.
    ///
    /// This is the default mode: the carry of each operand that has one is cleared first,
    /// the one of `ct_right` in a copy.
    pub fn bitand_assign(&self, ct_left: &mut Ciphertext, ct_right: &Ciphertext)
        requires
            self.admits_both(old(ct_left), ct_right),
        ensures
            final(ct_left)@ == self.default_bitwise(
                BitwiseOperation::And,
                old(ct_left)@,
                ct_right@,
            ),
            self.admits(final(ct_left)),
    {
        self.default_bitwise_assign(BitwiseOperation::And, ct_left, ct_right)
    }

    /// Compute an AND between two ciphertexts without any check; the result is a new
    /// ciphertext.
    pub fn unchecked_bitand(&self, ct_left: &Ciphertext, ct_right: &Ciphertext) -> (ct_res: Ciphertext)
        requires
            self.admits_both(ct_left, ct_right),
        ensures
            ct_res@ == self.unchecked_bitwise(BitwiseOperation::And, ct_left@, ct_right@),
            self.admits(&ct_res),
    {
        let mut ct_res = ct_left.clone();
        self.unchecked_bitand_assign(&mut ct_res, ct_right);
        ct_res
    }

    /// Compute an AND between two ciphertexts without any check; the result is stored in
    /// `ct_left`.
    pub fn unchecked_bitand_assign(&self, ct_left: &mut Ciphertext, ct_right: &Ciphertext)
        requires
            self.admits_both(old(ct_left), ct_right),
        ensures
            final(ct_left)@ == self.unchecked_bitwise(
                BitwiseOperation::And,
                old(ct_left)@,
                ct_right@,
            ),
            self.admits(final(ct_left)),
    {
        self.unchecked_bitwise_assign(BitwiseOperation::And, ct_left, ct_right)
    }

    /// Compute an AND between two ciphertexts if the two can be packed as they are; the
    /// result is then a new ciphertext. Otherwise the error is `CarryFull`.
    pub fn checked_bitand(&self, ct_left: &Ciphertext, ct_right: &Ciphertext) -> (result: Result<
        Ciphertext,
        CheckError,
    >)
        requires
            self.admits_both(ct_left, ct_right),
        ensures
            match result {
                Ok(ct_res) => {
                    &&& self.spec_is_functional_bivariate_pbs_possible(ct_left@, ct_right@)
                    &&& ct_res@ == self.unchecked_bitwise(
                        BitwiseOperation::And,
                        ct_left@,
                        ct_right@,
                    )
                    &&& self.admits(&ct_res)
                },
                Err(error) => {
                    &&& !self.spec_is_functional_bivariate_pbs_possible(ct_left@, ct_right@)
                    &&& error == CheckError::CarryFull
                },
            },
    {
        if self.is_functional_bivariate_pbs_possible(ct_left, ct_right) {
            let ct_result = self.unchecked_bitand(ct_left, ct_right);
            Ok(ct_result)
        } else {
            Err(CheckError::CarryFull)
        }
    }

    /// Compute an AND between two ciphertexts if the two can be packed as they are; the
    /// result is then stored in `ct_left`. Otherwise the error is `CarryFull`, and `ct_left`
    /// is not modified.
    pub fn checked_bitand_assign(&self, ct_left: &mut Ciphertext, ct_right: &Ciphertext) -> (result:
        Result<(), CheckError>)
        requires
            self.admits_both(old(ct_left), ct_right),
        ensures
            match result {
                Ok(_) => {
                    &&& self.spec_is_functional_bivariate_pbs_possible(old(ct_left)@, ct_right@)
                    &&& final(ct_left)@ == self.unchecked_bitwise(
                        BitwiseOperation::And,
                        old(ct_left)@,
                        ct_right@,
                    )
                },
                Err(error) => {
                    &&& !self.spec_is_functional_bivariate_pbs_possible(old(ct_left)@, ct_right@)
                    &&& error == CheckError::CarryFull
                    &&& final(ct_left)@ == old(ct_left)@
                },
            },
            self.admits(final(ct_left)),
    {
        if self.is_functional_bivariate_pbs_possible(ct_left, ct_right) {
            self.unchecked_bitand_assign(ct_left, ct_right);
            Ok(())
        } else {
            Err(CheckError::CarryFull)
        }
    }

    /// Compute homomorphically an AND between two ciphertexts; the result is a new
    /// ciphertext.
    ///
    /// This is the smart mode: if the two operands cannot be packed as they are, the carry of
    /// each is cleared in place first.
    pub fn smart_bitand(&self, ct_left: &mut Ciphertext, ct_right: &mut Ciphertext) -> (ct_res:
        Ciphertext)
        requires
            self.admits_both(old(ct_left), old(ct_right)),
        ensures
            ct_res@ == self.smart_bitwise(BitwiseOperation::And, old(ct_left)@, old(ct_right)@),
            final(ct_left)@ == self.smart_operand(old(ct_left)@, old(ct_left)@, old(ct_right)@),
            final(ct_right)@ == self.smart_operand(old(ct_right)@, old(ct_left)@, old(ct_right)@),
            self.admits(&ct_res),
            self.admits_both(final(ct_left), final(ct_right)),
    {
        if !self.is_functional_bivariate_pbs_possible(ct_left, ct_right) {
            self.message_extract_assign(ct_left);
            self.message_extract_assign(ct_right);
        }
        self.unchecked_bitand(ct_left, ct_right)
    }

    /// Compute homomorphically an AND between two ciphertexts; the result is stored in
    /// `ct_left`.
    ///
    /// This is the smart mode: if the two operands cannot be packed as they are, the carry of
    /// each is cleared in place first.
    pub fn smart_bitand_assign(&self, ct_left: &mut Ciphertext, ct_right: &mut Ciphertext)
        requires
            self.admits_both(old(ct_left), old(ct_right)),
        ensures
            final(ct_left)@ == self.smart_bitwise(
                BitwiseOperation::And,
                old(ct_left)@,
                old(ct_right)@,
            ),
            final(ct_right)@ == self.smart_operand(old(ct_right)@, old(ct_left)@, old(ct_right)@),
            self.admits_both(final(ct_left), final(ct_right)),
    {
        self.smart_bitwise_assign(BitwiseOperation::And, ct_left, ct_right)
    }

    /// Compute homomorphically a XOR between two ciphertexts.
    ///
    /// This is the default mode: the carry of each operand that has one is cleared first, in
    /// a copy, so the operands are left as they are.
    pub fn bitxor(&self, ct_left: &Ciphertext, ct_right: &Ciphertext) -> (ct_res: Ciphertext)
        requires
            self.admits_both(ct_left, ct_right),
        ensures
            ct_res@ == self.default_bitwise(BitwiseOperation::Xor, ct_left@, ct_right@),
            self.admits(&ct_res),
    {
        let mut ct_res = ct_left.clone();
        self.bitxor_assign(&mut ct_res, ct_right);
        ct_res
    }

    /// Compute homomorphically a XOR between two ciphertexts; the result is stored in
    /// `ct_left`.
    ///
    /// This is the default mode: the carry of each operand that has one is cleared first,
    /// the one of `ct_right` in a copy.
    pub fn bitxor_assign(&self, ct_left: &mut Ciphertext, ct_right: &Ciphertext)
        requires
            self.admits_both(old(ct_left), ct_right),
        ensures
            final(ct_left)@ == self.default_bitwise(
                BitwiseOperation::Xor,
                old(ct_left)@,
                ct_right@,
            ),
            self.admits(final(ct_left)),
    {
        self.default_bitwise_assign(BitwiseOperation::Xor, ct_left, ct_right)
    }

    /// Compute a XOR between two ciphertexts without any check; the result is a new
    /// ciphertext.
    pub fn unchecked_bitxor(&self, ct_left: &Ciphertext, ct_right: &Ciphertext) -> (ct_res: Ciphertext)
        requires
            self.admits_both(ct_left, ct_right),
        ensures
            ct_res@ == self.unchecked_bitwise(BitwiseOperation::Xor, ct_left@, ct_right@),
            self.admits(&ct_res),
    {
        let mut ct_res = ct_left.clone();
        self.unchecked_bitxor_assign(&mut ct_res, ct_right);
        ct_res
    }

    /// Compute a XOR between two ciphertexts without any check; the result is stored in
    /// `ct_left`.
    pub fn unchecked_bitxor_assign(&self, ct_left: &mut Ciphertext, ct_right: &Ciphertext)
        requires
            self.admits_both(old(ct_left), ct_right),
        ensures
            final(ct_left)@ == self.unchecked_bitwise(
                BitwiseOperation::Xor,
                old(ct_left)@,
                ct_right@,
            ),
            self.admits(final(ct_left)),
    {
        self.unchecked_bitwise_assign(BitwiseOperation::Xor, ct_left, ct_right)
    }

    /// Compute a XOR between two ciphertexts if the two can be packed as they are; the
    /// result is then a new ciphertext. Otherwise the error is `CarryFull`.
    pub fn checked_bitxor(&self, ct_left: &Ciphertext, ct_right: &Ciphertext) -> (result: Result<
        Ciphertext,
        CheckError,
    >)
        requires
            self.admits_both(ct_left, ct_right),
        ensures
            match result {
                Ok(ct_res) => {
                    &&& self.spec_is_functional_bivariate_pbs_possible(ct_left@, ct_right@)
                    &&& ct_res@ == self.unchecked_bitwise(
                        BitwiseOperation::Xor,
                        ct_left@,
                        ct_right@,
                    )
                    &&& self.admits(&ct_res)
                },
                Err(error) => {
                    &&& !self.spec_is_functional_bivariate_pbs_possible(ct_left@, ct_right@)
                    &&& error == CheckError::CarryFull
                },
            },
    {
        if self.is_functional_bivariate_pbs_possible(ct_left, ct_right) {
            let ct_result = self.unchecked_bitxor(ct_left, ct_right);
            Ok(ct_result)
        } else {
            Err(CheckError::CarryFull)
        }
    }

    /// Compute a XOR between two ciphertexts if the two can be packed as they are; the
    /// result is then stored in `ct_left`. Otherwise the error is `CarryFull`, and `ct_left`
    /// is not modified.
    pub fn checked_bitxor_assign(&self, ct_left: &mut Ciphertext, ct_right: &Ciphertext) -> (result:
        Result<(), CheckError>)
        requires
            self.admits_both(old(ct_left), ct_right),
        ensures
            match result {
                Ok(_) => {
                    &&& self.spec_is_functional_bivariate_pbs_possible(old(ct_left)@, ct_right@)
                    &&& final(ct_left)@ == self.unchecked_bitwise(
                        BitwiseOperation::Xor,
                        old(ct_left)@,
                        ct_right@,
                    )
                },
                Err(error) => {
                    &&& !self.spec_is_functional_bivariate_pbs_possible(old(ct_left)@, ct_right@)
                    &&& error == CheckError::CarryFull
                    &&& final(ct_left)@ == old(ct_left)@
                },
            },
            self.admits(final(ct_left)),
    {
        if self.is_functional_bivariate_pbs_possible(ct_left, ct_right) {
            self.unchecked_bitxor_assign(ct_left, ct_right);
            Ok(())
        } else {
            Err(CheckError::CarryFull)
        }
    }

    /// Compute homomorphically a XOR between two ciphertexts; the result is a new
    /// ciphertext.
    ///
    /// This is the smart mode: if the two operands cannot be packed as they are, the carry of
    /// each is cleared in place first.
    pub fn smart_bitxor(&self, ct_left: &mut Ciphertext, ct_right: &mut Ciphertext) -> (ct_res:
        Ciphertext)
        requires
            self.admits_both(old(ct_left), old(ct_right)),
        ensures
            ct_res@ == self.smart_bitwise(BitwiseOperation::Xor, old(ct_left)@, old(ct_right)@),
            final(ct_left)@ == self.smart_operand(old(ct_left)@, old(ct_left)@, old(ct_right)@),
            final(ct_right)@ == self.smart_operand(old(ct_right)@, old(ct_left)@, old(ct_right)@),
            self.admits(&ct_res),
            self.admits_both(final(ct_left), final(ct_right)),
    {
        if !self.is_functional_bivariate_pbs_possible(ct_left, ct_right) {
            self.message_extract_assign(ct_left);
            self.message_extract_assign(ct_right);
        }
        self.unchecked_bitxor(ct_left, ct_right)
    }

    /// Compute homomorphically a XOR between two ciphertexts; the result is stored in
    /// `ct_left`.
    ///
    /// This is the smart mode: if the two operands cannot be packed as they are, the carry of
    /// each is cleared in place first.
    pub fn smart_bitxor_assign(&self, ct_left: &mut Ciphertext, ct_right: &mut Ciphertext)
        requires
            self.admits_both(old(ct_left), old(ct_right)),
        ensures
            final(ct_left)@ == self.smart_bitwise(
                BitwiseOperation::Xor,
                old(ct_left)@,
                old(ct_right)@,
            ),
            final(ct_right)@ == self.smart_operand(old(ct_right)@, old(ct_left)@, old(ct_right)@),
            self.admits_both(final(ct_left), final(ct_right)),
    {
        self.smart_bitwise_assign(BitwiseOperation::Xor, ct_left, ct_right)
    }

    /// Compute homomorphically an OR between two ciphertexts.
    ///
    /// This is the default mode: the carry of each operand that has one is cleared first, in
    /// a copy, so the operands are left as they are.
    pub fn bitor(&self, ct_left: &Ciphertext, ct_right: &Ciphertext) -> (ct_res: Ciphertext)
        requires
            self.admits_both(ct_left, ct_right),
        ensures
            ct_res@ == self.default_bitwise(BitwiseOperation::Or, ct_left@, ct_right@),
            self.admits(&ct_res),
    {
        let mut ct_res = ct_left.clone();
        self.bitor_assign(&mut ct_res, ct_right);
        ct_res
    }

    /// Compute homomorphically an OR between two ciphertexts; the result is stored in
    /// `ct_left`.
    ///
    /// This is the default mode: the carry of each operand that has one is cleared first,
    /// the one of `ct_right` in a copy.
    pub fn bitor_assign(&self, ct_left: &mut Ciphertext, ct_right: &Ciphertext)
        requires
            self.admits_both(old(ct_left), ct_right),
        ensures
            final(ct_left)@ == self.default_bitwise(
                BitwiseOperation::Or,
                old(ct_left)@,
                ct_right@,
            ),
            self.admits(final(ct_left)),
    {
        self.default_bitwise_assign(BitwiseOperation::Or, ct_left, ct_right)
    }

    /// Compute an OR between two ciphertexts without any check; the result is a new
    /// ciphertext.
    pub fn unchecked_bitor(&self, ct_left: &Ciphertext, ct_right: &Ciphertext) -> (ct_res: Ciphertext)
        requires
            self.admits_both(ct_left, ct_right),
        ensures
            ct_res@ == self.unchecked_bitwise(BitwiseOperation::Or, ct_left@, ct_right@),
            self.admits(&ct_res),
    {
        let mut ct_res = ct_left.clone();
        self.unchecked_bitor_assign(&mut ct_res, ct_right);
        ct_res
    }

    /// Compute an OR between two ciphertexts without any check; the result is stored in
    /// `ct_left`.
    pub fn unchecked_bitor_assign(&self, ct_left: &mut Ciphertext, ct_right: &Ciphertext)
        requires
            self.admits_both(old(ct_left), ct_right),
        ensures
            final(ct_left)@ == self.unchecked_bitwise(
                BitwiseOperation::Or,
                old(ct_left)@,
                ct_right@,
            ),
            self.admits(final(ct_left)),
    {
        self.unchecked_bitwise_assign(BitwiseOperation::Or, ct_left, ct_right)
    }

    /// Compute an OR between two ciphertexts if the two can be packed as they are; the
    /// result is then a new ciphertext. Otherwise the error is `CarryFull`.
    pub fn checked_bitor(&self, ct_left: &Ciphertext, ct_right: &Ciphertext) -> (result: Result<
        Ciphertext,
        CheckError,
    >)
        requires
            self.admits_both(ct_left, ct_right),
        ensures
            match result {
                Ok(ct_res) => {
                    &&& self.spec_is_functional_bivariate_pbs_possible(ct_left@, ct_right@)
                    &&& ct_res@ == self.unchecked_bitwise(
                        BitwiseOperation::Or,
                        ct_left@,
                        ct_right@,
                    )
                    &&& self.admits(&ct_res)
                },
                Err(error) => {
                    &&& !self.spec_is_functional_bivariate_pbs_possible(ct_left@, ct_right@)
                    &&& error == CheckError::CarryFull
                },
            },
    {
        if self.is_functional_bivariate_pbs_possible(ct_left, ct_right) {
            let ct_result = self.unchecked_bitor(ct_left, ct_right);
            Ok(ct_result)
        } else {
            Err(CheckError::CarryFull)
        }
    }

    /// Compute an OR between two ciphertexts if the two can be packed as they are; the
    /// result is then stored in `ct_left`. Otherwise the error is `CarryFull`, and `ct_left`
    /// is not modified.
    pub fn checked_bitor_assign(&self, ct_left: &mut Ciphertext, ct_right: &Ciphertext) -> (result:
        Result<(), CheckError>)
        requires
            self.admits_both(old(ct_left), ct_right),
        ensures
            match result {
                Ok(_) => {
                    &&& self.spec_is_functional_bivariate_pbs_possible(old(ct_left)@, ct_right@)
                    &&& final(ct_left)@ == self.unchecked_bitwise(
                        BitwiseOperation::Or,
                        old(ct_left)@,
                        ct_right@,
                    )
                },
                Err(error) => {
                    &&& !self.spec_is_functional_bivariate_pbs_possible(old(ct_left)@, ct_right@)
                    &&& error == CheckError::CarryFull
                    &&& final(ct_left)@ == old(ct_left)@
                },
            },
            self.admits(final(ct_left)),
    {
        if self.is_functional_bivariate_pbs_possible(ct_left, ct_right) {
            self.unchecked_bitor_assign(ct_left, ct_right);
            Ok(())
        } else {
            Err(CheckError::CarryFull)
        }
    }

    /// Compute homomorphically an OR between two ciphertexts; the result is a new
    /// ciphertext.
    ///
    /// This is the smart mode: if the two operands cannot be packed as they are, the carry of
    /// each is cleared in place first.
    pub fn smart_bitor(&self, ct_left: &mut Ciphertext, ct_right: &mut Ciphertext) -> (ct_res:
        Ciphertext)
        requires
            self.admits_both(old(ct_left), old(ct_right)),
        ensures
            ct_res@ == self.smart_bitwise(BitwiseOperation::Or, old(ct_left)@, old(ct_right)@),
            final(ct_left)@ == self.smart_operand(old(ct_left)@, old(ct_left)@, old(ct_right)@),
            final(ct_right)@ == self.smart_operand(old(ct_right)@, old(ct_left)@, old(ct_right)@),
            self.admits(&ct_res),
            self.admits_both(final(ct_left), final(ct_right)),
    {
        if !self.is_functional_bivariate_pbs_possible(ct_left, ct_right) {
            self.message_extract_assign(ct_left);
            self.message_extract_assign(ct_right);
        }
        self.unchecked_bitor(ct_left, ct_right)
    }

    /// Compute homomorphically an OR between two ciphertexts; the result is stored in
    /// `ct_left`.
    ///
    /// This is the smart mode: if the two operands cannot be packed as they are, the carry of
    /// each is cleared in place first.
    pub fn smart_bitor_assign(&self, ct_left: &mut Ciphertext, ct_right: &mut Ciphertext)
        requires
            self.admits_both(old(ct_left), old(ct_right)),
        ensures
            final(ct_left)@ == self.smart_bitwise(
                BitwiseOperation::Or,
                old(ct_left)@,
                old(ct_right)@,
            ),
            final(ct_right)@ == self.smart_operand(old(ct_right)@, old(ct_left)@, old(ct_right)@),
            self.admits_both(final(ct_left), final(ct_right)),
    {
        self.smart_bitwise_assign(BitwiseOperation::Or, ct_left, ct_right)
    }
}

} // verus!
