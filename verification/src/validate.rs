//! Validation: the per-document decisions over a retrieved document, its
//! detached-signature verification outcome, and its expected digests.
//!
//! Verifying an OpenPGP signature is outside work; this module takes its
//! outcome as a value and is verified for every value of it. Everything
//! else — which error a document earns and exactly when validation
//! succeeds — is stated and proved here.

use vstd::prelude::*;
use crate::errors::ValidationError;
use crate::lits;
use crate::retrieve::DigestModel;
use crate::retrieve::RetrievedDoc;
use crate::retrieve::RetrievedModel;
use crate::retrieve::hex_lower;
use crate::retrieve::sha256_of;
use crate::text;

verus! {

/// Caller-set validation policy.
#[derive(Debug, PartialEq, Eq, Clone, Copy)]
pub struct ValidationOptions {
    /// Reject documents that carry no signature.
    pub require_signature: bool,
    /// The instant at which signatures are judged, epoch seconds;
    /// the surrounding application defaults this to now.
    pub validation_date: Option<i64>,
}

impl ValidationOptions {
    /// The default policy: signatures optional, judged at the present.
    pub fn new() -> (r: Self)
        ensures
            r.require_signature == false,
            r.validation_date is None,
    {
        ValidationOptions { require_signature: false, validation_date: Option::None }
    }
}

/// What verifying the detached signature against the configured keys
/// produced. Only consulted when the document carries a signature.
#[derive(Debug, PartialEq, Eq, Clone, Copy)]
pub enum SignatureOutcome {
    /// The signature verified under the configured key at this index.
    Verified { key_index: usize },
    /// No configured key matches the signature's issuer.
    NoMatchingKey,
    /// A key matches but the signature does not verify.
    BadSignature,
}

/// ASCII case folding of one byte.
pub open spec fn ascii_lower(c: u8) -> u8 {
    if 65 <= c <= 90 {
        (c + 32) as u8
    } else {
        c
    }
}

/// ASCII case folding of a byte string.
pub open spec fn lower_seq(s: Seq<u8>) -> Seq<u8> {
    s.map_values(|c: u8| ascii_lower(c))
}

/// Fold a byte string to lower case.
pub fn lower_x(s: &[u8]) -> (r: Vec<u8>)
    ensures
        r@ == lower_seq(s@),
{
    let mut out: Vec<u8> = Vec::new();
    let mut i: usize = 0;
    while i < s.len()
        invariant
            i <= s@.len(),
            out@.len() == i,
            forall|j: int| 0 <= j < i ==> out@[j] == ascii_lower(s@[j]),
        decreases s@.len() - i,
    {
        let c = s[i];
        out.push(
            if 65 <= c && c <= 90 {
                c + 32
            } else {
                c
            },
        );
        i += 1;
    }
    proof {
        assert(out@ =~= lower_seq(s@));
    }
    out
}

/// A recorded digest is good when the expected token, case-folded,
/// spells the computed digest.
pub open spec fn digest_ok(d: Option<DigestModel>) -> bool {
    match d {
        Option::None => true,
        Option::Some(dg) => lower_seq(dg.expected) == dg.actual,
    }
}

/// The signature conditions: a present signature must have verified under
/// some configured key; an absent one is only good when none is required.
pub open spec fn sig_ok(sig_present: bool, outcome: SignatureOutcome, require: bool) -> bool {
    if sig_present {
        outcome is Verified
    } else {
        !require
    }
}

/// Exactly when validation succeeds.
pub open spec fn validation_ok(
    doc: RetrievedModel,
    outcome: SignatureOutcome,
    require: bool,
) -> bool {
    sig_ok(doc.signature is Some, outcome, require) && digest_ok(doc.sha256) && digest_ok(
        doc.sha512,
    )
}

/// A document that passed validation.
#[derive(Debug, PartialEq, Eq)]
pub struct ValidatedDoc {
    pub retrieved: RetrievedDoc,
}

impl View for ValidatedDoc {
    type V = RetrievedModel;

    open spec fn view(&self) -> RetrievedModel {
        self.retrieved@
    }
}

/// Validate one retrieved document.
///
/// `outcome` is what detached-signature verification against the
/// provider's `keys_len` configured keys produced; it is only consulted
/// when the document carries a signature. A signature fetch that found
/// nothing leaves the document unsigned: that alone is an error only
/// under `require_signature`.
pub fn validate_retrieved(
    retrieved: RetrievedDoc,
    outcome: SignatureOutcome,
    keys_len: usize,
    options: &ValidationOptions,
) -> (r: Result<ValidatedDoc, ValidationError>)
    requires
        (match outcome {
            SignatureOutcome::Verified { key_index } => retrieved@.signature is Some
                ==> key_index < keys_len,
            _ => true,
        }),
    ensures
        r.is_ok() == validation_ok(retrieved@, outcome, options.require_signature),
        r matches Ok(v) ==> v@ == retrieved@,
        retrieved@.signature is None && options.require_signature ==> r == Err::<
            ValidatedDoc,
            ValidationError,
        >(ValidationError::NoSignature),
        retrieved@.signature is Some && outcome is NoMatchingKey ==> r == Err::<
            ValidatedDoc,
            ValidationError,
        >(ValidationError::UnknownKey),
        retrieved@.signature is Some && outcome is BadSignature ==> r == Err::<
            ValidatedDoc,
            ValidationError,
        >(ValidationError::SignatureInvalid),
        sig_ok(retrieved@.signature is Some, outcome, options.require_signature) && !digest_ok(
            retrieved@.sha256,
        ) ==> (r matches Err(e) && match e {
            ValidationError::DigestMismatch { alg, expected, actual } => alg@
                == lits::spec_sha256_name() && Option::Some(
                DigestModel { expected: expected@, actual: actual@ },
            ) == retrieved@.sha256,
            _ => false,
        }),
        sig_ok(retrieved@.signature is Some, outcome, options.require_signature) && digest_ok(
            retrieved@.sha256,
        ) && !digest_ok(retrieved@.sha512) ==> (r matches Err(e) && match e {
            ValidationError::DigestMismatch { alg, expected, actual } => alg@
                == lits::spec_sha512_name() && Option::Some(
                DigestModel { expected: expected@, actual: actual@ },
            ) == retrieved@.sha512,
            _ => false,
        }),
{
    // signature conditions first
    match &retrieved.signature {
        Option::None => {
            if options.require_signature {
                return Err(ValidationError::NoSignature);
            }
        },
        Option::Some(_) => {
            match outcome {
                SignatureOutcome::Verified { key_index: _ } => {},
                SignatureOutcome::NoMatchingKey => {
                    return Err(ValidationError::UnknownKey);
                },
                SignatureOutcome::BadSignature => {
                    return Err(ValidationError::SignatureInvalid);
                },
            }
        },
    }
    // then the digests, SHA-256 before SHA-512
    match &retrieved.sha256 {
        Option::Some(d) => {
            let folded = lower_x(d.expected.as_slice());
            if !text::eq_bytes(folded.as_slice(), d.actual.as_slice()) {
                return Err(
                    ValidationError::DigestMismatch {
                        alg: lits::sha256_name(),
                        expected: d.expected.clone(),
                        actual: d.actual.clone(),
                    },
                );
            }
        },
        Option::None => {},
    }
    match &retrieved.sha512 {
        Option::Some(d) => {
            let folded = lower_x(d.expected.as_slice());
            if !text::eq_bytes(folded.as_slice(), d.actual.as_slice()) {
                return Err(
                    ValidationError::DigestMismatch {
                        alg: lits::sha512_name(),
                        expected: d.expected.clone(),
                        actual: d.actual.clone(),
                    },
                );
            }
        },
        Option::None => {},
    }
    Ok(ValidatedDoc { retrieved })
}

/// When a SHA-256 digest was recorded against the retrieved data and the
/// signature conditions and the SHA-512 digest hold, validation succeeds
/// exactly when the expected token, case-folded, spells the SHA-256 of
/// the data.
pub proof fn lemma_sha256_decides(doc: RetrievedModel, outcome: SignatureOutcome, require: bool)
    requires
        doc.sha256 matches Some(d) && d.actual == hex_lower(sha256_of(doc.data)),
        sig_ok(doc.signature is Some, outcome, require),
        digest_ok(doc.sha512),
    ensures
        validation_ok(doc, outcome, require) <==> lower_seq(doc.sha256.unwrap().expected)
            == hex_lower(sha256_of(doc.data)),
{
}

/// A validated success that carries a signature names one of the
/// provider's configured keys: the one under which it verified.
pub proof fn lemma_success_names_key(
    doc: RetrievedModel,
    outcome: SignatureOutcome,
    keys_len: usize,
    require: bool,
)
    requires
        validation_ok(doc, outcome, require),
        doc.signature is Some,
        (match outcome {
            SignatureOutcome::Verified { key_index } => key_index < keys_len,
            _ => true,
        }),
    ensures
        (exists|i: usize| i < keys_len && outcome == (SignatureOutcome::Verified { key_index: i })),
{
    match outcome {
        SignatureOutcome::Verified { key_index } => {
            assert(key_index < keys_len && outcome == SignatureOutcome::Verified { key_index });
        },
        _ => {
            assert(false);
        },
    }
}

} // verus!
