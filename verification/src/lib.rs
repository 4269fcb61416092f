//! An edge gatekeeper for a login endpoint: requests carrying the login
//! function id must present a composite token whose proof part is an
//! HMAC-SHA256 digest bound to the caller's IP and a timestamp; valid
//! requests are forwarded with the verification material stripped from
//! the query string.

pub mod bytes;
pub mod compare;
pub mod digest;
pub mod gateway;
pub mod ip;
pub mod query;
pub mod token;
pub mod verify;
