//! The error taxonomy of the pipeline.

use vstd::prelude::*;

verus! {

/// What can go wrong while a source loads metadata, an index or a document.
#[derive(Debug, PartialEq, Eq, Clone, Copy)]
pub enum SourceError {
    NetworkFailure,
    NotFound,
    InvalidJson,
    InvalidCsv,
    InvalidUrl,
    Io,
}

/// What can go wrong while a source loads a public key.
#[derive(Debug, PartialEq, Eq, Clone, Copy)]
pub enum KeySourceError {
    Source(SourceError),
    OpenPgpParse,
    FingerprintMismatch,
}

/// The outcome of validating one retrieved document.
#[derive(Debug, PartialEq, Eq, Clone)]
pub enum ValidationError {
    /// The document carries no signature and one is required.
    NoSignature,
    /// A signature is present but no configured key matches its issuer.
    UnknownKey,
    /// A matching key is configured but the signature does not verify.
    SignatureInvalid,
    /// A digest was expected and the data hashes to something else.
    DigestMismatch { alg: Vec<u8>, expected: Vec<u8>, actual: Vec<u8> },
    /// Retrieval itself failed; validation never ran.
    Retrieval(SourceError),
}

/// What can go wrong while the store writes a document.
#[derive(Debug, PartialEq, Eq, Clone)]
pub enum StoreError {
    /// No usable relative file name could be derived for this URL path.
    Filename(Vec<u8>),
    SerializeKey,
    Io,
}

} // verus!
