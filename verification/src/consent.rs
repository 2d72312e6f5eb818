use vstd::prelude::*;

use crate::time::{now, Timestamp};

verus! {

#[verifier::external_type_specification]
#[verifier::external_body]
pub struct ExUuid(uuid::Uuid);

/// Calls `uuid::Uuid::new_v4`, a random identifier; nothing is claimed of
/// it.
#[verifier::external_body]
pub(crate) fn new_uuid() -> uuid::Uuid {
    uuid::Uuid::new_v4()
}

/// A signed consent token authorizing content ingestion.
#[derive(Debug)]
pub struct ConsentToken {
    pub token_id: uuid::Uuid,
    /// The entity granting consent (e.g. a user ID).
    pub source_entity: String,
    /// Which namespace this consent applies to.
    pub namespace: String,
    /// What content this consent covers.
    pub scope: ConsentScope,
    pub issued_at: Timestamp,
    pub expires_at: Option<Timestamp>,
    /// Cryptographic signature over the above fields.
    pub signature: Vec<u8>,
}

/// What content a consent token covers.
#[derive(Debug, Clone)]
pub enum ConsentScope {
    /// All content from this entity.
    AllContent,
    /// Content in a specific category.
    Category(String),
    /// Specific content IDs only.
    SpecificIds(Vec<String>),
}

/// Errors from consent verification.
#[derive(Debug, Clone, Copy, PartialEq, Eq, Structural)]
pub enum ConsentError {
    Expired,
    InvalidSignature,
    Revoked,
    ScopeMismatch,
}

impl ConsentError {
    pub open spec fn message_spec(self) -> Seq<char> {
        match self {
            ConsentError::Expired => "consent token has expired"@,
            ConsentError::InvalidSignature => "invalid signature"@,
            ConsentError::Revoked => "consent has been revoked"@,
            ConsentError::ScopeMismatch => "content not covered by consent scope"@,
        }
    }

    /// The human-readable description of the error.
    pub fn message(&self) -> (s: &'static str)
        ensures
            s@ == self.message_spec(),
    {
        match self {
            ConsentError::Expired => "consent token has expired",
            ConsentError::InvalidSignature => "invalid signature",
            ConsentError::Revoked => "consent has been revoked",
            ConsentError::ScopeMismatch => "content not covered by consent scope",
        }
    }
}

/// Verifies consent tokens; implemented by deployments. A verifier may
/// define which answers it may give to a token (an answer may also depend
/// on the time, or on revocations it learns of).
pub trait ConsentVerifier {
    /// Whether `r` is an answer this verifier may give about `token`.
    /// A verifier that defines no relation claims nothing (every answer is
    /// allowed).
    open spec fn grants(&self, token: ConsentToken, r: Result<(), ConsentError>) -> bool {
        true
    }

    fn verify(&self, token: &ConsentToken) -> (r: Result<(), ConsentError>)
        ensures
            self.grants(*token, r),
    ;
}

/// Verifier that accepts all tokens. For development only.
pub struct StubConsentVerifier;

impl ConsentVerifier for StubConsentVerifier {
    /// Every token is accepted.
    open spec fn grants(&self, token: ConsentToken, r: Result<(), ConsentError>) -> bool {
        r is Ok
    }

    fn verify(&self, token: &ConsentToken) -> (r: Result<(), ConsentError>) {
        Ok(())
    }
}

impl ConsentToken {
    /// A token by which `source_entity` consents to all of its content in
    /// `namespace` being ingested: a fresh random id, issued now, never
    /// expiring, unsigned.
    pub fn all_content(source_entity: &str, namespace: &str) -> (t: Self)
        ensures
            t.source_entity@ == source_entity@,
            t.namespace@ == namespace@,
            t.scope is AllContent,
            t.issued_at.wf(),
            t.expires_at is None,
            t.signature@.len() == 0,
    {
        ConsentToken {
            token_id: new_uuid(),
            source_entity: source_entity.to_owned(),
            namespace: namespace.to_owned(),
            scope: ConsentScope::AllContent,
            issued_at: now(),
            expires_at: None,
            signature: Vec::new(),
        }
    }
}

} // verus!
