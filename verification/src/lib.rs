//! A local, single-user credential store: a set of named secrets kept
//! encrypted at rest under a single master password.
//!
//! The core is the vault cryptographic engine: master-key derivation from a
//! password and a per-vault salt, authenticated encryption and decryption of
//! the serialized vault contents, and the on-disk container framing.  On top
//! of that sits the interactive session state machine; file input and output
//! and terminal handling are left to the surrounding program.

pub mod byteops;
pub mod cipher;
pub mod container;
pub mod engine;
pub mod errors;
pub mod kdf;
pub mod models;
pub mod random;
pub mod screens;
pub mod secure;
pub mod session;
pub mod strutil;
pub mod wire;
