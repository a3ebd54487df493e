pub mod laws;
pub mod serialize;
pub mod verify;

pub use serialize::CborType;
pub use verify::{SignatureAlgorithm, VerifyError};
