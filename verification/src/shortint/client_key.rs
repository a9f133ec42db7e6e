//! The secret keys of a client.
use crate::core_crypto::commons::parameters::StandardDev;
use crate::core_crypto::entities::lwe_secret_key::{
    holds_same_scalars,
    GlweSecretKey,
    LweSecretKey,
};
use crate::shortint::ciphertext::PBSOrder;
use crate::shortint::parameters::Parameters;
use vstd::prelude::*;

verus! {

/// The keys of a client: the small LWE key, the GLWE key, and the large LWE key, which is
/// the GLWE key read as an LWE key.
#[derive(Debug)]
pub struct ClientKey {
    pub large_lwe_secret_key: LweSecretKey,
    pub glwe_secret_key: GlweSecretKey,
    pub small_lwe_secret_key: LweSecretKey,
    pub parameters: Parameters,
}

impl ClientKey {
    /// The keys have the sizes that the parameters give, they are binary, and the large LWE
    /// key holds the scalars of the GLWE key.
    pub open spec fn wf(&self) -> bool {
        &&& self.parameters.wf()
        &&& self.small_lwe_secret_key.wf()
        &&& self.glwe_secret_key.wf()
        &&& self.large_lwe_secret_key.wf()
        &&& self.small_lwe_secret_key@.len() == self.parameters.lwe_dimension.0
        &&& self.glwe_secret_key.polynomial_size == self.parameters.polynomial_size
        &&& self.glwe_secret_key@.len() == self.parameters.glwe_dimension.0
            * self.parameters.polynomial_size.0
        &&& self.large_lwe_secret_key@ == self.glwe_secret_key@
    }

    /// Whether the client key is well formed: the test of [`ClientKey::wf`].
    pub fn is_wf(&self) -> (ok: bool)
        ensures
            ok == self.wf(),
    {
        if !self.parameters.is_wf() {
            return false;
        }
        proof {
            let k = self.parameters.glwe_dimension.0 as int;
            let n = self.parameters.polynomial_size.0 as int;
            assert(0 <= k * n <= (k + 1) * n) by (nonlinear_arith)
                requires
                    k >= 0,
                    n >= 0,
            ;
        }
        self.small_lwe_secret_key.is_wf() && self.glwe_secret_key.is_wf()
            && self.large_lwe_secret_key.is_wf() && self.small_lwe_secret_key.data.len()
            == self.parameters.lwe_dimension.0 && self.glwe_secret_key.polynomial_size.0
            == self.parameters.polynomial_size.0 && self.glwe_secret_key.data.len()
            == self.parameters.glwe_dimension.0 * self.parameters.polynomial_size.0
            && holds_same_scalars(
            self.large_lwe_secret_key.data.as_slice(),
            self.glwe_secret_key.data.as_slice(),
        )
    }

    /// The key under which ciphertexts of an order are encrypted and decrypted.
    pub open spec fn spec_encryption_key(&self, order: PBSOrder) -> Seq<u64> {
        match order {
            PBSOrder::KeyswitchBootstrap => self.large_lwe_secret_key@,
            PBSOrder::BootstrapKeyswitch => self.small_lwe_secret_key@,
        }
    }

    /// The standard deviation of the noise of fresh ciphertexts of an order.
    pub open spec fn spec_encryption_noise(&self, order: PBSOrder) -> StandardDev {
        match order {
            PBSOrder::KeyswitchBootstrap => self.parameters.glwe_modular_std_dev,
            PBSOrder::BootstrapKeyswitch => self.parameters.lwe_modular_std_dev,
        }
    }

    /// The key under which ciphertexts of an order are encrypted and decrypted.
    pub fn encryption_key(&self, order: PBSOrder) -> (key: &LweSecretKey)
        requires
            self.wf(),
        ensures
            key@ == self.spec_encryption_key(order),
            key@.len() < usize::MAX,
            key.wf(),
    {
        proof {
            let k = self.parameters.glwe_dimension.0 as int;
            let n = self.parameters.polynomial_size.0 as int;
            assert(k * n <= (k + 1) * n) by (nonlinear_arith)
                requires
                    n >= 0,
            ;
        }
        match order {
            PBSOrder::KeyswitchBootstrap => &self.large_lwe_secret_key,
            PBSOrder::BootstrapKeyswitch => &self.small_lwe_secret_key,
        }
    }

    /// The standard deviation of the noise of fresh ciphertexts of an order.
    pub fn encryption_noise(&self, order: PBSOrder) -> (noise: StandardDev)
        ensures
            noise == self.spec_encryption_noise(order),
    {
        match order {
            PBSOrder::KeyswitchBootstrap => self.parameters.glwe_modular_std_dev,
            PBSOrder::BootstrapKeyswitch => self.parameters.lwe_modular_std_dev,
        }
    }
}

} // verus!
