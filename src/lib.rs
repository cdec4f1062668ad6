//! Content-addressed document notarization.
//!
//! A signing authority binds the content hash of a document to the time of
//! signing, in a signed envelope made with a hardware key (`issuer`). A
//! verifier later takes documents and stamp files in any order, hashes the
//! documents (`ingest`), opens and checks the stamps (`envelope`, with keys
//! resolved once per key ID by `keys`), and pairs each stamp with a document
//! of the same hash (`store`).
pub mod envelope;
pub mod ingest;
pub mod issuer;
pub mod keys;
pub mod names;
pub mod stars;
pub mod store;
pub mod time;
