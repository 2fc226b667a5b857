//! A verified core for a Cryptoki (PKCS #11) client-certificate module.
//!
//! The library owns the platform-independent logic of such a module: the DER
//! reader used to pull an RSA modulus out of a SubjectPublicKeyInfo and to
//! deconstruct an ECDSA signature, the attribute codec, the certificate and
//! private-key objects with their attribute maps, and the manager that tracks
//! sessions, searches and pending sign operations. Operating-system keystores
//! and the C ABI live outside, and talk to this library in plain values.

pub mod codec;
pub mod der;
pub mod manager;
pub mod object;
mod util;
