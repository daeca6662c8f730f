//! MAYO: an Oil-and-Vinegar signature scheme over GF(16).
//!
//! The field and the linear algebra stand in `f16`, `vector`, `matrix` and
//! `mvector`; `params` holds the parameter sets, `encoding` the bitsliced
//! serialisation, `mayo_operations` the batched algebra of the public map
//! and of the signing system, and `crypto` key generation, signing and
//! verification.

pub mod crypto;
pub mod encoding;
pub mod f16;
pub mod key_laws;
pub mod linear_laws;
pub mod linear_part_laws;
pub mod matrix;
pub mod mayo_operations;
pub mod mvector;
pub mod params;
pub mod scheme_laws;
pub mod signing_laws;
pub mod sums;
pub mod system_laws;
pub mod text;
pub mod trapdoor_laws;
pub mod vector;
pub mod whip_laws;

pub use crypto::{generate_keypair, sign, verify};
pub use params::{Mayo1, Mayo2, Mayo3, Mayo5};
