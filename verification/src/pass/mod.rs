//! Pass accounts: registration with device attestation, devices with call filters, session
//! keys, and the deposits that back their storage.

pub mod filter;
pub mod consideration;
pub mod pallet;
pub mod extension;
pub mod traits;
