//! The access token of the OCR service.
//!
//! The token lives only in the operating system's credential store. On
//! Windows the shell reaches Credential Manager; everywhere else there is no
//! store and the functions of this module answer on its behalf. The
//! decisions that the commands make on a store's answer are here as well.
use vstd::prelude::*;

use crate::model::{error_text, ErrorView, OcrError};
use crate::text::{chars_of, push_str, string_from_chars, trim, trim_chars};

verus! {

/// Reads the stored token: there is no credential store on this platform, so
/// there is no token.
pub fn load_token() -> (r: Result<String, OcrError>)
    ensures
        r matches Err(e) && e is Auth,
{
    Err(OcrError::Auth)
}

/// Stores a token: there is no credential store on this platform.
pub fn save_token(token: &str) -> (r: Result<(), OcrError>)
    ensures
        r matches Err(e) && e@ == ErrorView::Internal("Windows Credential Manager is unavailable"@),
{
    Err(OcrError::Internal(crate::text::owned("Windows Credential Manager is unavailable")))
}

/// Deletes the stored token: there is no credential store on this platform.
pub fn delete_token() -> (r: Result<(), OcrError>)
    ensures
        r matches Err(e) && e@ == ErrorView::Internal("Windows Credential Manager is unavailable"@),
{
    Err(OcrError::Internal(crate::text::owned("Windows Credential Manager is unavailable")))
}

/// An operation on the credential store.
#[derive(Clone, Copy, Debug, PartialEq, Eq, Structural)]
pub enum CredentialOp {
    Open,
    Read,
    Write,
    Delete,
}

pub open spec fn credential_failure_of(op: CredentialOp, missing: bool, detail: Seq<char>) -> ErrorView {
    if missing && (op == CredentialOp::Read || op == CredentialOp::Delete) {
        ErrorView::Auth
    } else {
        ErrorView::Internal(
            match op {
                CredentialOp::Open => "credential store unavailable: "@,
                CredentialOp::Read => "credential store read failed: "@,
                CredentialOp::Write => "credential store write failed: "@,
                CredentialOp::Delete => "credential store delete failed: "@,
            } + detail,
        )
    }
}

/// The error for a failed credential-store operation; `missing` when the store
/// reported that no token is stored, `detail` the store's message.
pub fn credential_failure(op: CredentialOp, missing: bool, detail: &str) -> (e: OcrError)
    ensures
        e@ == credential_failure_of(op, missing, detail@),
{
    if missing && (op == CredentialOp::Read || op == CredentialOp::Delete) {
        return OcrError::Auth;
    }
    let mut m = match op {
        CredentialOp::Open => chars_of("credential store unavailable: "),
        CredentialOp::Read => chars_of("credential store read failed: "),
        CredentialOp::Write => chars_of("credential store write failed: "),
        CredentialOp::Delete => chars_of("credential store delete failed: "),
    };
    push_str(&mut m, detail);
    OcrError::Internal(string_from_chars(&m))
}

/// Whether a token is configured, and its last four characters.
pub struct CredentialStatus {
    pub configured: bool,
    pub last_four: Option<String>,
}

/// The last `min(4, len)` characters of a token.
pub open spec fn last_four_of(token: Seq<char>) -> Seq<char> {
    if token.len() <= 4 {
        token
    } else {
        token.skip(token.len() - 4)
    }
}

/// The credential status for the answer of the store to a read: a token that is
/// not blank is configured; a blank token or no token is not; any other failure
/// is reported.
pub fn credential_status(loaded: Result<String, OcrError>) -> (r: Result<CredentialStatus, String>)
    ensures
        match loaded {
            Ok(t) => if trim(t@).len() > 0 {
                r matches Ok(s) && s.configured && (s.last_four matches Some(l) && l@ == last_four_of(t@))
            } else {
                r matches Ok(s) && !s.configured && s.last_four is None
            },
            Err(e) => if e is Auth {
                r matches Ok(s) && !s.configured && s.last_four is None
            } else {
                r matches Err(m) && m@ == error_text(e@)
            },
        },
{
    match loaded {
        Ok(token) => {
            let chars = chars_of(token.as_str());
            if trim_chars(&chars).len() > 0 {
                let start: usize = if chars.len() <= 4 {
                    0
                } else {
                    chars.len() - 4
                };
                let mut tail: Vec<char> = Vec::new();
                let mut i = start;
                while i < chars.len()
                    invariant
                        start <= i <= chars.len(),
                        tail@ =~= chars@.subrange(start as int, i as int),
                    decreases chars.len() - i,
                {
                    tail.push(chars[i]);
                    i = i + 1;
                }
                assert(tail@ =~= last_four_of(token@));
                Ok(CredentialStatus { configured: true, last_four: Some(string_from_chars(&tail)) })
            } else {
                Ok(CredentialStatus { configured: false, last_four: None })
            }
        },
        Err(OcrError::Auth) => Ok(CredentialStatus { configured: false, last_four: None }),
        Err(e) => Err(e.message()),
    }
}

/// A token must be configured before a task is created: the store must hold a
/// token that is not blank.
pub fn ensure_token_configured(loaded: Result<String, OcrError>) -> (r: Result<(), String>)
    ensures
        match loaded {
            Ok(t) => if trim(t@).len() > 0 {
                r is Ok
            } else {
                r matches Err(m) && m@ == error_text(ErrorView::Auth)
            },
            Err(e) => r matches Err(m) && m@ == error_text(e@),
        },
{
    match loaded {
        Ok(token) => {
            if trim_chars(&chars_of(token.as_str())).len() > 0 {
                Ok(())
            } else {
                Err(OcrError::Auth.message())
            }
        },
        Err(e) => Err(e.message()),
    }
}

/// The answer to deleting the token: deleting a token that is not stored
/// succeeds too.
pub fn delete_outcome(deleted: Result<(), OcrError>) -> (r: Result<(), String>)
    ensures
        match deleted {
            Ok(()) => r is Ok,
            Err(e) => if e is Auth {
                r is Ok
            } else {
                r matches Err(m) && m@ == error_text(e@)
            },
        },
{
    match deleted {
        Ok(()) => Ok(()),
        Err(OcrError::Auth) => Ok(()),
        Err(e) => Err(e.message()),
    }
}

/// What to do after a token probe.
pub enum TokenValidation {
    /// The token was rejected; it is not stored.
    Rejected,
    /// The token was accepted; store it, then answer `true`.
    Store,
    /// The probe failed.
    Failed(String),
}

/// A token is stored only after a probe accepted it.
pub fn after_probe(probe: Result<bool, OcrError>) -> (v: TokenValidation)
    ensures
        match probe {
            Ok(true) => v is Store,
            Ok(false) => v is Rejected,
            Err(e) => v matches TokenValidation::Failed(m) && m@ == error_text(e@),
        },
{
    match probe {
        Ok(true) => TokenValidation::Store,
        Ok(false) => TokenValidation::Rejected,
        Err(e) => TokenValidation::Failed(e.message()),
    }
}

} // verus!
