//! Declaration of the outside vault client's error type, so the trusted
//! wrappers around the client can speak of it.

use vstd::prelude::*;

verus! {

#[verifier::external_type_specification]
#[verifier::external_body]
pub struct ExVaultError(hashicorp_vault::Error);

} // verus!
