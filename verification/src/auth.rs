//! The auth gate: what every request passes before it reaches a handler.
//!
//! Requests for packs are public, and there are two kinds of them: those for
//! the download tree, whose URI begins with `/packs`, and those for the
//! upload route `/pack/{name}`, whose URI begins with `/pack/`. Uploads are
//! deliberately as public as downloads. Every other request, `/pack` alone
//! and `/package` among them, needs a bearer token that is one of the
//! configured tokens, compared whole and case-sensitively.

use vstd::prelude::*;
use crate::model::strings_view;

verus! {

/// Why a request was turned away. Both are client errors.
#[derive(Debug, Clone, Copy, PartialEq, Eq)]
pub enum AuthError {
    /// The request carried no bearer credential.
    NoBearerHeader,
    /// The bearer credential is not one of the configured tokens.
    InvalidToken,
}

/// What the URI of every request for the download tree begins with.
pub open spec fn download_prefix() -> Seq<char> {
    "/packs"@
}

/// What the URI of every upload begins with.
pub open spec fn upload_prefix() -> Seq<char> {
    "/pack/"@
}

/// The URI lies in the public pack namespace: it belongs to the download
/// tree or to the upload route.
pub open spec fn is_pack_path(uri: Seq<char>) -> bool {
    download_prefix().is_prefix_of(uri) || upload_prefix().is_prefix_of(uri)
}

/// What is decided of a request with this URI and this bearer token (if
/// any), given the configured tokens.
pub open spec fn gate(uri: Seq<char>, token: Option<Seq<char>>, valid: Seq<Seq<char>>) -> Result<
    (),
    AuthError,
> {
    if is_pack_path(uri) {
        Ok(())
    } else {
        match token {
            None => Err(AuthError::NoBearerHeader),
            Some(t) => if valid.contains(t) {
                Ok(())
            } else {
                Err(AuthError::InvalidToken)
            },
        }
    }
}

/// The characters of an optional string.
pub open spec fn token_view(credentials: Option<&str>) -> Option<Seq<char>> {
    match credentials {
        Some(t) => Some(t@),
        None => None,
    }
}

impl AuthError {
    /// The text sent back with the rejection.
    pub open spec fn message_spec(&self) -> Seq<char> {
        match self {
            AuthError::NoBearerHeader => "no bearer header"@,
            AuthError::InvalidToken => "invalid token"@,
        }
    }

    /// The text sent back with the rejection.
    pub fn message(&self) -> (r: &'static str)
        ensures
            r@ == self.message_spec(),
    {
        match self {
            AuthError::NoBearerHeader => "no bearer header",
            AuthError::InvalidToken => "invalid token",
        }
    }

    /// The HTTP status of the rejection: 400 Bad Request for either reason.
    pub fn status(&self) -> (r: u16)
        ensures
            r == 400,
    {
        400
    }
}

/// Whether `text` begins with `prefix`, character by character.
fn begins_with(text: &str, prefix: &str) -> (r: bool)
    ensures
        r == prefix@.is_prefix_of(text@),
{
    let n = prefix.unicode_len();
    if text.unicode_len() < n {
        return false;
    }
    let mut i: usize = 0;
    while i < n
        invariant
            i <= n,
            n == prefix@.len(),
            n <= text@.len(),
            forall|j: int| 0 <= j < i ==> text@[j] == prefix@[j],
        decreases n - i,
    {
        if text.get_char(i) != prefix.get_char(i) {
            assert(text@.subrange(0, n as int)[i as int] != prefix@[i as int]);
            return false;
        }
        i += 1;
    }
    assert(prefix@ =~= text@.subrange(0, n as int));
    true
}

/// Decides whether a request may proceed.
///
/// A URI in the pack namespace is admitted whatever else the request holds.
/// Any other request is rejected with [`AuthError::NoBearerHeader`] when it
/// has no bearer token, admitted when its token equals one of `valid_tokens`,
/// and rejected with [`AuthError::InvalidToken`] otherwise. Nothing is
/// changed by the decision.
pub fn validate_token(uri: &str, credentials: Option<&str>, valid_tokens: &Vec<String>) -> (r:
    Result<(), AuthError>)
    ensures
        r == gate(uri@, token_view(credentials), strings_view(valid_tokens@)),
{
    if begins_with(uri, "/packs") || begins_with(uri, "/pack/") {
        return Ok(());
    }
    let token = match credentials {
        Some(t) => t.to_owned(),
        None => {
            return Err(AuthError::NoBearerHeader);
        },
    };
    let ghost valid = strings_view(valid_tokens@);
    let mut i: usize = 0;
    while i < valid_tokens.len()
        invariant
            i <= valid_tokens.len(),
            !is_pack_path(uri@),
            token_view(credentials) == Some(token@),
            valid == strings_view(valid_tokens@),
            forall|j: int| 0 <= j < i ==> valid[j] != token@,
        decreases valid_tokens.len() - i,
    {
        if valid_tokens[i] == token {
            assert(valid[i as int] == token@);
            return Ok(());
        }
        i += 1;
    }
    Err(AuthError::InvalidToken)
}

/// Every request for a pack path is admitted, with or without a token and
/// whatever the token is.
pub proof fn lemma_pack_paths_are_public(
    uri: Seq<char>,
    token: Option<Seq<char>>,
    valid: Seq<Seq<char>>,
)
    requires
        is_pack_path(uri),
    ensures
        gate(uri, token, valid) is Ok,
{
}

/// Outside the pack namespace a request is admitted exactly when it carries
/// a token of the configured set; any other token is rejected as invalid,
/// and a missing one as missing.
pub proof fn lemma_tokens_decide_elsewhere(
    uri: Seq<char>,
    token: Option<Seq<char>>,
    valid: Seq<Seq<char>>,
)
    requires
        !is_pack_path(uri),
    ensures
        gate(uri, token, valid) is Ok <==> token is Some && valid.contains(token->0),
        token is Some && !valid.contains(token->0) ==> gate(uri, token, valid) == Err::<
            (),
            AuthError,
        >(AuthError::InvalidToken),
        token is None ==> gate(uri, token, valid) == Err::<(), AuthError>(
            AuthError::NoBearerHeader,
        ),
{
}

} // verus!
