//! Authentication core of a small library-management backend: password
//! hashing, issuance and verification of signed, time-bound bearer tokens,
//! the request gate that protects routes, and the ownership check for
//! user-scoped operations.

pub mod ascii;
pub mod authentication;
pub mod base64url;
pub mod claims;
pub mod decimal;
pub mod errors;
pub mod gate;
pub mod hashing;
pub mod signature;
pub mod token;
