use vstd::prelude::*;

verus! {

/// The signature algorithms that verification supports: ECDSA with SHA-256 (ES256) and
/// RSASSA-PSS with SHA-256 (PS256).
#[derive(Debug, Clone, Copy, PartialEq, Eq, Structural)]
pub enum SignatureAlgorithm {
    ES256,
    PS256,
}

/// The ways in which verification can fail.
#[derive(Debug, Clone, Copy, PartialEq, Eq, Structural)]
pub enum VerifyError {
    DecodingSPKIFailed,
    InputTooLarge,
    LibraryFailure,
    SignatureVerificationFailed,
}

/// The provider's object identifier for an RSA public key.
pub const SEC_OID_PKCS1_RSA_ENCRYPTION: u32 = 16;

/// The provider's object identifier for SHA-256.
pub const SEC_OID_SHA256: u32 = 191;

/// The provider's object identifier for an elliptic-curve public key.
pub const SEC_OID_ANSIX962_EC_PUBLIC_KEY: u32 = 200;

/// The provider's status for success.
pub const SEC_SUCCESS: i32 = 0;

/// The provider's status for a well-formed rejection.
pub const SEC_FAILURE: i32 = -1;

/// The length of a signed payload as the provider's `int`, or `InputTooLarge` where it does
/// not fit.
pub fn payload_length(len: usize) -> (r: Result<i32, VerifyError>)
    ensures
        len <= i32::MAX ==> r == Ok::<i32, VerifyError>(len as i32),
        len > i32::MAX ==> r == Err::<i32, VerifyError>(VerifyError::InputTooLarge),
{
    if len > 2147483647 {
        return Err(VerifyError::InputTooLarge);
    }
    Ok(len as i32)
}

/// The length of a buffer handed to the provider as an item (a key or a signature), or
/// `InputTooLarge` where it does not fit the item's unsigned 32-bit length.
pub fn item_length(len: usize) -> (r: Result<u32, VerifyError>)
    ensures
        len <= u32::MAX ==> r == Ok::<u32, VerifyError>(len as u32),
        len > u32::MAX ==> r == Err::<u32, VerifyError>(VerifyError::InputTooLarge),
{
    if len > 4294967295 {
        return Err(VerifyError::InputTooLarge);
    }
    Ok(len as u32)
}

/// The public-key algorithm that a signature algorithm asks the provider for.
pub fn public_key_algorithm(algorithm: SignatureAlgorithm) -> (oid: u32)
    ensures
        algorithm == SignatureAlgorithm::ES256 ==> oid == SEC_OID_ANSIX962_EC_PUBLIC_KEY,
        algorithm == SignatureAlgorithm::PS256 ==> oid == SEC_OID_PKCS1_RSA_ENCRYPTION,
{
    match algorithm {
        SignatureAlgorithm::ES256 => SEC_OID_ANSIX962_EC_PUBLIC_KEY,
        SignatureAlgorithm::PS256 => SEC_OID_PKCS1_RSA_ENCRYPTION,
    }
}

/// What the provider's verification status means: success, a rejected signature, or any other
/// status as a failure of the provider itself.
pub fn verification_outcome(status: i32) -> (r: Result<(), VerifyError>)
    ensures
        status == SEC_SUCCESS ==> r == Ok::<(), VerifyError>(()),
        status == SEC_FAILURE ==> r == Err::<(), VerifyError>(
            VerifyError::SignatureVerificationFailed,
        ),
        status != SEC_SUCCESS && status != SEC_FAILURE ==> r == Err::<(), VerifyError>(
            VerifyError::LibraryFailure,
        ),
{
    if status == SEC_SUCCESS {
        Ok(())
    } else if status == SEC_FAILURE {
        Err(VerifyError::SignatureVerificationFailed)
    } else {
        Err(VerifyError::LibraryFailure)
    }
}

} // verus!
