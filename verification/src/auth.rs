//! Sign-in documents: whose they are, how they are normalized on import, and how
//! their tokens are refreshed.

use crate::json;
use crate::json::{
    no_members, parsed_bytes, parsed_text, pretty_text, reads_back, value_tree, value_trees,
    JsonTree, READABLE_LEVELS,
};
use crate::models::{CurrentAuthStatus, ExtractedAuth};
use crate::text;
use crate::text::{
    byte_length, cuts_cleanly, lowered, position, signed_decimal, str_view, text_view, trim_back,
    CharClass,
};
use crate::utils::{truncate_for_error, truncated};
use base64::engine::general_purpose::{URL_SAFE, URL_SAFE_NO_PAD};
use base64::Engine;
use serde_json::Value;
use vstd::prelude::*;

verus! {

// ---------------------------------------------------------------------------
// Errors
// ---------------------------------------------------------------------------
/// Why a sign-in document cannot be used.
#[derive(Debug, Clone, Copy, PartialEq, Eq, Structural)]
pub enum AuthError {
    NotChatGptMode,
    NoSignInToken,
    MissingAccessToken,
    MissingIdToken,
    MissingAccountId,
    MissingTokens,
    MissingRefreshToken,
    RootIsNotAnObject,
    IdTokenFormat,
    IdTokenEncoding,
    IdTokenPayload,
    InvalidJson,
}

impl AuthError {
    /// The error in words.
    pub open spec fn message(self) -> Seq<char> {
        match self {
            AuthError::NotChatGptMode =>
                "current account is not using ChatGPT sign-in mode; run codex login first"@,
            AuthError::NoSignInToken =>
                "no ChatGPT sign-in token detected; run codex login first"@,
            AuthError::MissingAccessToken => "auth.json is missing access_token"@,
            AuthError::MissingIdToken => "auth.json is missing id_token"@,
            AuthError::MissingAccountId => "failed to read chatgpt_account_id from auth.json"@,
            AuthError::MissingTokens => "auth.json is missing tokens"@,
            AuthError::MissingRefreshToken => "auth.json is missing refresh_token"@,
            AuthError::RootIsNotAnObject => "auth.json root is not an object"@,
            AuthError::IdTokenFormat => "invalid id_token format"@,
            AuthError::IdTokenEncoding => "failed to decode id_token"@,
            AuthError::IdTokenPayload => "failed to parse id_token payload"@,
            AuthError::InvalidJson => "invalid JSON"@,
        }
    }

    /// The error in words.
    pub fn to_text(&self) -> (r: String)
        ensures
            r@ == self.message(),
    {
        let message = match self {
            AuthError::NotChatGptMode =>
                "current account is not using ChatGPT sign-in mode; run codex login first",
            AuthError::NoSignInToken => "no ChatGPT sign-in token detected; run codex login first",
            AuthError::MissingAccessToken => "auth.json is missing access_token",
            AuthError::MissingIdToken => "auth.json is missing id_token",
            AuthError::MissingAccountId => "failed to read chatgpt_account_id from auth.json",
            AuthError::MissingTokens => "auth.json is missing tokens",
            AuthError::MissingRefreshToken => "auth.json is missing refresh_token",
            AuthError::RootIsNotAnObject => "auth.json root is not an object",
            AuthError::IdTokenFormat => "invalid id_token format",
            AuthError::IdTokenEncoding => "failed to decode id_token",
            AuthError::IdTokenPayload => "failed to parse id_token payload",
            AuthError::InvalidJson => "invalid JSON",
        };
        message.to_owned()
    }
}

// ---------------------------------------------------------------------------
// Identity tokens
// ---------------------------------------------------------------------------
/// The bytes that URL-safe base64 without padding gives for a text, as the
/// `base64` crate decodes it.
pub uninterp spec fn base64_unpadded(text: Seq<char>) -> Option<Seq<u8>>;

/// The bytes that URL-safe base64 with padding gives for a text, as the `base64`
/// crate decodes it.
pub uninterp spec fn base64_padded(text: Seq<char>) -> Option<Seq<u8>>;

/// The view of optional bytes.
pub open spec fn bytes_view(bytes: Option<Vec<u8>>) -> Option<Seq<u8>> {
    match bytes {
        Some(bytes) => Some(bytes@),
        None => None,
    }
}

/// Calls `Engine::decode` of `URL_SAFE_NO_PAD`. Which texts it takes, and what
/// they decode to, is left to the name [`base64_unpadded`].
#[verifier::external_body]
fn decode_unpadded(text: &str) -> (r: Option<Vec<u8>>)
    ensures
        bytes_view(r) == base64_unpadded(text@),
{
    URL_SAFE_NO_PAD.decode(text).ok()
}

/// Calls `Engine::decode` of `URL_SAFE`. Which texts it takes, and what they
/// decode to, is left to the name [`base64_padded`].
#[verifier::external_body]
fn decode_padded(text: &str) -> (r: Option<Vec<u8>>)
    ensures
        bytes_view(r) == base64_padded(text@),
{
    URL_SAFE.decode(text).ok()
}

/// What stands between the first dot of a token and the second, or its end.
pub open spec fn payload_segment(token: Seq<char>) -> Option<Seq<char>> {
    let start = position(token, '.', 0);
    if start == token.len() {
        None
    } else {
        Some(token.subrange(start + 1, position(token, '.', start + 1)))
    }
}

/// The payload part of a token.
pub fn jwt_payload_segment(token: &str) -> (r: Option<String>)
    ensures
        text_view(r) == payload_segment(token@),
{
    let chars = text::chars_of(token);
    let start: usize = text::find_char(&chars, '.', 0);
    if start == chars.len() {
        return None;
    }
    let end: usize = text::find_char(&chars, '.', start + 1);
    Some(text::substring(&chars, start + 1, end))
}

/// A text filled up with `=` to a number of bytes that is a multiple of four.
pub open spec fn filled_up(segment: Seq<char>) -> Seq<char> {
    let rest = byte_length(segment) % 4;
    if rest == 0 {
        segment
    } else {
        segment + Seq::new((4 - rest) as nat, |i: int| '=')
    }
}

/// Fills a segment up with padding.
pub fn pad_segment(segment: &str) -> (r: String)
    ensures
        r@ == filled_up(segment@),
{
    let rest: usize = text::byte_len(segment) % 4;
    let mut out = segment.to_owned();
    if rest != 0 {
        let mut missing: usize = 4 - rest;
        let ghost total = missing as int;
        while missing > 0
            invariant
                0 <= missing <= total,
                out@ == segment@ + Seq::new((total - missing) as nat, |i: int| '='),
            decreases missing,
        {
            out.push('=');
            missing = missing - 1;
            assert(out@ =~= segment@ + Seq::new((total - missing) as nat, |i: int| '='));
        }
    } else {
        assert(out@ =~= segment@);
    }
    out
}

/// The claims of a token: its payload, decoded without padding or, failing that,
/// with the padding filled up, and read as JSON.
pub open spec fn token_claims(token: Seq<char>) -> Result<JsonTree, AuthError> {
    match payload_segment(token) {
        None => Err(AuthError::IdTokenFormat),
        Some(segment) => {
            let decoded = match base64_unpadded(segment) {
                Some(bytes) => Some(bytes),
                None => base64_padded(filled_up(segment)),
            };
            match decoded {
                None => Err(AuthError::IdTokenEncoding),
                Some(bytes) => match parsed_bytes(bytes) {
                    Some(claims) => Ok(claims),
                    None => Err(AuthError::IdTokenPayload),
                },
            }
        },
    }
}

/// The tree of a result.
pub open spec fn result_tree(value: Result<Value, AuthError>) -> Result<JsonTree, AuthError> {
    match value {
        Ok(value) => Ok(value_tree(value)),
        Err(error) => Err(error),
    }
}

/// Reads the claims of a token.
pub fn decode_jwt_payload(token: &str) -> (r: Result<Value, AuthError>)
    ensures
        result_tree(r) == token_claims(token@),
{
    let segment = match jwt_payload_segment(token) {
        Some(segment) => segment,
        None => return Err(AuthError::IdTokenFormat),
    };
    let decoded = match decode_unpadded(segment.as_str()) {
        Some(bytes) => bytes,
        None => {
            let padded = pad_segment(segment.as_str());
            match decode_padded(padded.as_str()) {
                Some(bytes) => bytes,
                None => return Err(AuthError::IdTokenEncoding),
            }
        },
    };
    match json::parse_bytes(decoded.as_slice()) {
        Some(claims) => Ok(claims),
        None => Err(AuthError::IdTokenPayload),
    }
}

// ---------------------------------------------------------------------------
// Whose document it is
// ---------------------------------------------------------------------------
/// Where the tokens of a document stand: in its member `tokens`, or, in a flat
/// document, at its root.
pub open spec fn tokens_of(auth: JsonTree) -> Option<JsonTree> {
    match auth.member("tokens"@) {
        Some(tokens) if tokens is Object => Some(tokens),
        _ => if auth.member("access_token"@) is Some && auth.member("id_token"@) is Some {
            Some(auth)
        } else {
            None
        },
    }
}

/// Where the tokens of a document stand.
fn auth_token_object(auth_json: &Value) -> (r: Option<&Value>)
    ensures
        match r {
            Some(tokens) => tokens_of(value_tree(*auth_json)) == Some(value_tree(*tokens)),
            None => tokens_of(value_tree(*auth_json)) is None,
        },
{
    if let Some(tokens) = json::get(auth_json, "tokens") {
        if json::as_object(tokens).is_some() {
            return Some(tokens);
        }
    }
    if json::get(auth_json, "access_token").is_some() && json::get(auth_json, "id_token").is_some() {
        Some(auth_json)
    } else {
        None
    }
}

/// What a document says of its account.
pub struct AuthFacts {
    pub account_id: Seq<char>,
    pub access_token: Seq<char>,
    pub email: Option<Seq<char>>,
    pub plan_type: Option<Seq<char>>,
}

impl View for ExtractedAuth {
    type V = AuthFacts;

    open spec fn view(&self) -> AuthFacts {
        AuthFacts {
            account_id: self.account_id@,
            access_token: self.access_token@,
            email: text_view(self.email),
            plan_type: text_view(self.plan_type),
        }
    }
}

/// The facts of a result.
pub open spec fn facts_view(r: Result<ExtractedAuth, AuthError>) -> Result<AuthFacts, AuthError> {
    match r {
        Ok(extracted) => Ok(extracted@),
        Err(error) => Err(error),
    }
}

/// The text of a member of a claim's member.
pub open spec fn nested_text(
    tree: Option<JsonTree>,
    outer: Seq<char>,
    inner: Seq<char>,
) -> Option<Seq<char>> {
    match tree {
        Some(tree) => match tree.member(outer) {
            Some(found) => found.text_member(inner),
            None => None,
        },
        None => None,
    }
}

/// Why a document without tokens cannot be used: it is in another sign-in mode,
/// or it is not signed in.
pub open spec fn tokenless_error(auth: JsonTree) -> AuthError {
    let mode = match auth.text_member("auth_mode"@) {
        Some(mode) => lowered(mode),
        None => Seq::empty(),
    };
    if mode.len() > 0 && mode != "chatgpt"@ && mode != "chatgpt_auth_tokens"@ {
        AuthError::NotChatGptMode
    } else {
        AuthError::NoSignInToken
    }
}

/// What a document says of its account, given the claims of its identity token
/// where they could be read. The account is named beside the tokens or, failing
/// that, in the claims; the e-mail address and the plan only in the claims.
pub open spec fn extraction(
    auth: JsonTree,
    claims: Option<JsonTree>,
) -> Result<AuthFacts, AuthError> {
    match tokens_of(auth) {
        None => Err(tokenless_error(auth)),
        Some(tokens) => match tokens.text_member("access_token"@) {
            None => Err(AuthError::MissingAccessToken),
            Some(access_token) => if tokens.text_member("id_token"@) is None {
                Err(AuthError::MissingIdToken)
            } else {
                let account_id = match tokens.text_member("account_id"@) {
                    Some(account_id) => Some(account_id),
                    None => nested_text(
                        claims,
                        "https://api.openai.com/auth"@,
                        "chatgpt_account_id"@,
                    ),
                };
                match account_id {
                    None => Err(AuthError::MissingAccountId),
                    Some(account_id) => Ok(
                        AuthFacts {
                            account_id,
                            access_token,
                            email: match claims {
                                Some(claims) => claims.text_member("email"@),
                                None => None,
                            },
                            plan_type: nested_text(
                                claims,
                                "https://api.openai.com/auth"@,
                                "chatgpt_plan_type"@,
                            ),
                        },
                    ),
                }
            },
        },
    }
}

/// The claims of the identity token of a document, where they can be read.
pub open spec fn document_claims(auth: JsonTree) -> Option<JsonTree> {
    match tokens_of(auth) {
        Some(tokens) => match tokens.text_member("id_token"@) {
            Some(id_token) => match token_claims(id_token) {
                Ok(claims) => Some(claims),
                Err(_) => None,
            },
            None => None,
        },
        None => None,
    }
}

/// What a document says of its account.
pub open spec fn facts_of(auth: JsonTree) -> Result<AuthFacts, AuthError> {
    extraction(auth, document_claims(auth))
}

/// The text of a member of a claim's member.
fn nested_str<'a>(claims: Option<&'a Value>, outer: &str, inner: &str) -> (r: Option<&'a str>)
    ensures
        str_view(r) == nested_text(
            match claims {
                Some(claims) => Some(value_tree(*claims)),
                None => None,
            },
            outer@,
            inner@,
        ),
{
    match claims {
        Some(claims) => match json::get(claims, outer) {
            Some(found) => json::get_str(found, inner),
            None => None,
        },
        None => None,
    }
}

/// Reads what a document says of its account, given the claims of its identity
/// token where they could be read.
pub fn extract_auth_with_claims(auth_json: &Value, claims: Option<&Value>) -> (r: Result<
    ExtractedAuth,
    AuthError,
>)
    ensures
        facts_view(r) == extraction(
            value_tree(*auth_json),
            match claims {
                Some(claims) => Some(value_tree(*claims)),
                None => None,
            },
        ),
{
    let tokens = match auth_token_object(auth_json) {
        Some(tokens) => tokens,
        None => {
            let mode = match json::get_str(auth_json, "auth_mode") {
                Some(mode) => text::lower(mode),
                None => String::new(),
            };
            if !mode.as_str().is_empty() && !text::same(mode.as_str(), "chatgpt") && !text::same(
                mode.as_str(),
                "chatgpt_auth_tokens",
            ) {
                return Err(AuthError::NotChatGptMode);
            }
            return Err(AuthError::NoSignInToken);
        },
    };
    let access_token = match json::get_str(tokens, "access_token") {
        Some(access_token) => access_token.to_owned(),
        None => return Err(AuthError::MissingAccessToken),
    };
    if json::get_str(tokens, "id_token").is_none() {
        return Err(AuthError::MissingIdToken);
    }
    let named = match json::get_str(tokens, "account_id") {
        Some(account_id) => Some(account_id),
        None => nested_str(claims, "https://api.openai.com/auth", "chatgpt_account_id"),
    };
    let email = match claims {
        Some(claims) => text::owned(json::get_str(claims, "email")),
        None => None,
    };
    let plan_type = text::owned(
        nested_str(claims, "https://api.openai.com/auth", "chatgpt_plan_type"),
    );
    match named {
        Some(account_id) => Ok(
            ExtractedAuth { account_id: account_id.to_owned(), access_token, email, plan_type },
        ),
        None => Err(AuthError::MissingAccountId),
    }
}

/// Reads what a document says of its account. An identity token whose claims
/// cannot be read leaves them out.
pub fn extract_auth(auth_json: &Value) -> (r: Result<ExtractedAuth, AuthError>)
    ensures
        facts_view(r) == facts_of(value_tree(*auth_json)),
{
    let claims = match auth_token_object(auth_json) {
        Some(tokens) => match json::get_str(tokens, "id_token") {
            Some(id_token) => match decode_jwt_payload(id_token) {
                Ok(claims) => Some(claims),
                Err(_) => None,
            },
            None => None,
        },
        None => None,
    };
    extract_auth_with_claims(auth_json, claims.as_ref())
}

/// The account that a document names.
pub open spec fn account_of(auth: JsonTree) -> Option<Seq<char>> {
    match facts_of(auth) {
        Ok(facts) => Some(facts.account_id),
        Err(_) => None,
    }
}

/// The account of the document in use, where there is one.
pub open spec fn account_in_use(auth: Option<JsonTree>) -> Option<Seq<char>> {
    match auth {
        Some(auth) => account_of(auth),
        None => None,
    }
}

/// The account of the document in use, where it has one.
pub fn current_auth_account_id(auth_json: Option<&Value>) -> (r: Option<String>)
    ensures
        text_view(r) == account_in_use(
            match auth_json {
                Some(auth_json) => Some(value_tree(*auth_json)),
                None => None,
            },
        ),
{
    match auth_json {
        Some(auth_json) => match extract_auth(auth_json) {
            Ok(extracted) => Some(extracted.account_id),
            Err(_) => None,
        },
        None => None,
    }
}

// ---------------------------------------------------------------------------
// Import
// ---------------------------------------------------------------------------
/// The tokens of a flat document, in a member of their own.
pub open spec fn nested_tokens(
    auth: JsonTree,
    access_token: Seq<char>,
    id_token: Seq<char>,
) -> Map<Seq<char>, JsonTree> {
    let required = no_members().insert("access_token"@, JsonTree::Text(access_token)).insert(
        "id_token"@,
        JsonTree::Text(id_token),
    );
    let refreshable = match auth.text_member("refresh_token"@) {
        Some(refresh_token) => required.insert("refresh_token"@, JsonTree::Text(refresh_token)),
        None => required,
    };
    match auth.text_member("account_id"@) {
        Some(account_id) => refreshable.insert("account_id"@, JsonTree::Text(account_id)),
        None => refreshable,
    }
}

/// A document in the form in which the pool keeps it. A flat document, one with
/// both tokens at its root and no `tokens` object, is nested; any other stays.
pub open spec fn normalized_auth(auth: JsonTree) -> JsonTree {
    let access_token = auth.text_member("access_token"@);
    let id_token = auth.text_member("id_token"@);
    if auth.member("tokens"@) is Some && auth.member("tokens"@)->0 is Object {
        auth
    } else if access_token is None || id_token is None {
        auth
    } else {
        let mode = match auth.text_member("auth_mode"@) {
            Some(mode) => mode,
            None => "chatgpt"@,
        };
        let members = no_members().insert("auth_mode"@, JsonTree::Text(mode)).insert(
            "tokens"@,
            JsonTree::Object(nested_tokens(auth, access_token->0, id_token->0)),
        );
        match auth.member("last_refresh"@) {
            Some(last_refresh) => JsonTree::Object(members.insert("last_refresh"@, last_refresh)),
            None => JsonTree::Object(members),
        }
    }
}

/// Brings an imported document into the form in which the pool keeps it.
pub fn normalize_imported_auth_json(auth_json: Value) -> (r: Value)
    ensures
        value_tree(r) == normalized_auth(value_tree(auth_json)),
{
    if let Some(tokens) = json::get(&auth_json, "tokens") {
        if json::as_object(tokens).is_some() {
            return auth_json;
        }
    }
    let access_token = match json::get_str(&auth_json, "access_token") {
        Some(access_token) => json::string(access_token),
        None => return auth_json,
    };
    let id_token = match json::get_str(&auth_json, "id_token") {
        Some(id_token) => json::string(id_token),
        None => return auth_json,
    };
    let mut tokens = json::new_object();
    json::insert(&mut tokens, "access_token", access_token);
    json::insert(&mut tokens, "id_token", id_token);
    if let Some(refresh_token) = json::get_str(&auth_json, "refresh_token") {
        json::insert(&mut tokens, "refresh_token", json::string(refresh_token));
    }
    if let Some(account_id) = json::get_str(&auth_json, "account_id") {
        json::insert(&mut tokens, "account_id", json::string(account_id));
    }
    let mode = match json::get_str(&auth_json, "auth_mode") {
        Some(mode) => json::string(mode),
        None => json::string("chatgpt"),
    };
    let mut normalized = json::new_object();
    json::insert(&mut normalized, "auth_mode", mode);
    json::insert(&mut normalized, "tokens", json::object(tokens));
    if let Some(last_refresh) = json::get(&auth_json, "last_refresh") {
        json::insert(&mut normalized, "last_refresh", json::clone_value(last_refresh));
    }
    json::object(normalized)
}

/// Names of members that are compared with one another.
proof fn lemma_member_names()
    ensures
        "tokens"@ != "auth_mode"@,
        "tokens"@ != "last_refresh"@,
        "access_token"@ != "id_token"@,
        "access_token"@ != "refresh_token"@,
        "access_token"@ != "account_id"@,
        "id_token"@ != "refresh_token"@,
        "id_token"@ != "account_id"@,
        "refresh_token"@ != "account_id"@,
{
    reveal_strlit("tokens");
    reveal_strlit("auth_mode");
    reveal_strlit("last_refresh");
    reveal_strlit("access_token");
    reveal_strlit("id_token");
    reveal_strlit("refresh_token");
    reveal_strlit("account_id");
    assert("tokens"@.len() != "auth_mode"@.len());
    assert("tokens"@.len() != "last_refresh"@.len());
    assert("access_token"@.len() != "id_token"@.len());
    assert("access_token"@.len() != "refresh_token"@.len());
    assert("access_token"@.len() != "account_id"@.len());
    assert("id_token"@.len() != "refresh_token"@.len());
    assert("id_token"@.len() != "account_id"@.len());
    assert("refresh_token"@.len() != "account_id"@.len());
}

/// Normalizing a document twice is normalizing it once.
pub proof fn law_normalize_is_idempotent(auth: JsonTree)
    ensures
        normalized_auth(normalized_auth(auth)) == normalized_auth(auth),
{
    lemma_member_names();
}

/// Normalizing a document does not change what it says of its account.
pub proof fn law_normalize_keeps_the_account(auth: JsonTree)
    ensures
        facts_of(normalized_auth(auth)) == facts_of(auth),
{
    lemma_member_names();
    let access_token = auth.text_member("access_token"@);
    let id_token = auth.text_member("id_token"@);
    let normalized = normalized_auth(auth);
    if normalized != auth {
        let tokens = JsonTree::Object(nested_tokens(auth, access_token->0, id_token->0));
        assert(normalized.member("tokens"@) == Some(tokens));
        assert(tokens_of(normalized) == Some(tokens));
        assert(tokens_of(auth) == Some(auth));
        assert(tokens.text_member("access_token"@) == access_token);
        assert(tokens.text_member("id_token"@) == id_token);
        assert(tokens.text_member("account_id"@) == auth.text_member("account_id"@));
        assert(document_claims(normalized) == document_claims(auth));
    }
}

// ---------------------------------------------------------------------------
// Status of the document in use
// ---------------------------------------------------------------------------
/// A text, or the empty text.
pub open spec fn text_or_empty(value: Option<Seq<char>>) -> Seq<char> {
    match value {
        Some(value) => value,
        None => Seq::empty(),
    }
}

/// What tells one version of a document from another.
pub open spec fn fingerprint_of(
    account_id: Option<Seq<char>>,
    last_refresh: Option<Seq<char>>,
    modified_at: Option<i64>,
    auth_mode: Option<Seq<char>>,
) -> Seq<char> {
    let modified: int = match modified_at {
        Some(modified) => modified as int,
        None => 0,
    };
    text_or_empty(account_id) + "|"@ + text_or_empty(last_refresh) + "|"@ + signed_decimal(
        modified,
    ) + "|"@ + text_or_empty(auth_mode)
}

/// A text, or the empty text.
fn unwrap_text(value: &Option<String>) -> (r: &str)
    ensures
        r@ == text_or_empty(text_view(*value)),
{
    match value {
        Some(value) => value.as_str(),
        None => {
            proof {
                reveal_strlit("");
                assert(""@ =~= Seq::<char>::empty());
            }
            ""
        },
    }
}

/// What tells one version of a document from another.
fn fingerprint(
    account_id: &Option<String>,
    last_refresh: &Option<String>,
    modified_at: Option<i64>,
    auth_mode: &Option<String>,
) -> (r: String)
    ensures
        r@ == fingerprint_of(
            text_view(*account_id),
            text_view(*last_refresh),
            modified_at,
            text_view(*auth_mode),
        ),
{
    let modified: i64 = match modified_at {
        Some(modified) => modified,
        None => 0,
    };
    let seconds = text::signed_decimal_of(modified);
    let mut out = unwrap_text(account_id).to_owned();
    out.append("|");
    out.append(unwrap_text(last_refresh));
    out.append("|");
    out.append(seconds.as_str());
    out.append("|");
    out.append(unwrap_text(auth_mode));
    out
}

/// The status of a document that is not there.
pub fn missing_auth_status() -> (r: CurrentAuthStatus)
    ensures
        !r.available,
        r.account_id is None,
        r.email is None,
        r.plan_type is None,
        r.auth_mode is None,
        r.last_refresh is None,
        r.file_modified_at is None,
        r.fingerprint is None,
{
    CurrentAuthStatus {
        available: false,
        account_id: None,
        email: None,
        plan_type: None,
        auth_mode: None,
        last_refresh: None,
        file_modified_at: None,
        fingerprint: None,
    }
}

/// Whether a status is that of a document which was last written at
/// `modified_at`.
pub open spec fn is_status_of(
    status: CurrentAuthStatus,
    auth: JsonTree,
    modified_at: Option<i64>,
) -> bool {
    let facts = facts_of(auth);
    &&& status.available
    &&& text_view(status.account_id) == account_of(auth)
    &&& text_view(status.email) == match facts {
        Ok(facts) => facts.email,
        Err(_) => None,
    }
    &&& text_view(status.plan_type) == match facts {
        Ok(facts) => facts.plan_type,
        Err(_) => None,
    }
    &&& text_view(status.auth_mode) == auth.text_member("auth_mode"@)
    &&& text_view(status.last_refresh) == auth.text_member("last_refresh"@)
    &&& status.file_modified_at == modified_at
    &&& text_view(status.fingerprint) == Some(
        fingerprint_of(
            account_of(auth),
            auth.text_member("last_refresh"@),
            modified_at,
            auth.text_member("auth_mode"@),
        ),
    )
}

/// The status of a document which was last written at `modified_at`.
pub fn document_status(auth_json: &Value, modified_at: Option<i64>) -> (r: CurrentAuthStatus)
    ensures
        is_status_of(r, value_tree(*auth_json), modified_at),
{
    let auth_mode = text::owned(json::get_str(auth_json, "auth_mode"));
    let last_refresh = text::owned(json::get_str(auth_json, "last_refresh"));
    let (account_id, email, plan_type) = match extract_auth(auth_json) {
        Ok(extracted) => (Some(extracted.account_id), extracted.email, extracted.plan_type),
        Err(_) => (None, None, None),
    };
    let print = fingerprint(&account_id, &last_refresh, modified_at, &auth_mode);
    CurrentAuthStatus {
        available: true,
        account_id,
        email,
        plan_type,
        auth_mode,
        last_refresh,
        file_modified_at: modified_at,
        fingerprint: Some(print),
    }
}

/// The status of the document in a file that holds `raw` and was last written at
/// `modified_at`.
pub fn auth_status_of_text(raw: &str, modified_at: Option<i64>) -> (r: Result<
    CurrentAuthStatus,
    AuthError,
>)
    ensures
        match r {
            Ok(status) => parsed_text(raw@) is Some && is_status_of(
                status,
                parsed_text(raw@)->0,
                modified_at,
            ),
            Err(error) => parsed_text(raw@) is None && error == AuthError::InvalidJson,
        },
{
    match json::parse(raw) {
        Some(auth_json) => Ok(document_status(&auth_json, modified_at)),
        None => Err(AuthError::InvalidJson),
    }
}

/// Whether a status shows a document that was not there before, or has changed
/// since its fingerprint was `baseline`.
pub fn auth_has_changed(status: &CurrentAuthStatus, baseline: &Option<String>) -> (r: bool)
    ensures
        r == (status.available && text_view(status.fingerprint) != text_view(*baseline)),
{
    if !status.available {
        return false;
    }
    match (&status.fingerprint, baseline) {
        (Some(now), Some(before)) => !text::same(now.as_str(), before.as_str()),
        (None, None) => false,
        _ => true,
    }
}

// ---------------------------------------------------------------------------
// Files
// ---------------------------------------------------------------------------
/// Reads the document in a file that holds `raw`.
pub fn parse_auth_document(raw: &str) -> (r: Result<Value, AuthError>)
    ensures
        result_tree(r) == match parsed_text(raw@) {
            Some(auth) => Ok(auth),
            None => Err(AuthError::InvalidJson),
        },
{
    match json::parse(raw) {
        Some(auth_json) => Ok(auth_json),
        None => Err(AuthError::InvalidJson),
    }
}

/// What a file holds into which a document is written. What is read from it is the
/// document, and of the same account, where the document has no doubles, no member that
/// `serde_json` keeps for itself, and is not nested too deeply.
pub fn auth_document_text(auth_json: &Value) -> (r: String)
    ensures
        r@ == pretty_text(value_tree(*auth_json)),
        reads_back(value_tree(*auth_json), READABLE_LEVELS as nat) ==> parsed_text(r@) == Some(
            value_tree(*auth_json),
        ) && account_in_use(parsed_text(r@)) == account_of(value_tree(*auth_json)),
{
    json::write_pretty(auth_json).unwrap()
}

// ---------------------------------------------------------------------------
// Refreshing tokens
// ---------------------------------------------------------------------------
/// A request for fresh tokens: where it goes, and the fields of its form.
#[derive(Debug)]
pub struct TokenRefreshRequest {
    pub token_url: String,
    pub form: Vec<(String, String)>,
}

/// The tokens that a refresh brought.
#[derive(Debug)]
pub struct RefreshedTokens {
    pub access_token: String,
    pub id_token: String,
    pub refresh_token: Option<String>,
}

/// The first text among some trees that is not empty.
pub open spec fn first_text(items: Seq<JsonTree>) -> Option<Seq<char>>
    decreases items.len(),
{
    if items.len() == 0 {
        None
    } else {
        match items[0].text() {
            Some(text) if text.len() > 0 => Some(text),
            _ => first_text(items.skip(1)),
        }
    }
}

/// The client that a token was made for: its audience, or the first of them.
pub open spec fn client_id_of(claims: JsonTree) -> Option<Seq<char>> {
    match claims.member("aud"@) {
        Some(JsonTree::Text(audience)) => if audience.len() > 0 {
            Some(audience)
        } else {
            None
        },
        Some(JsonTree::Array(items)) => first_text(items),
        _ => None,
    }
}

/// The client that a token was made for.
pub fn extract_client_id_from_claims(claims: &Value) -> (r: Option<String>)
    ensures
        text_view(r) == client_id_of(value_tree(*claims)),
{
    let aud = match json::get(claims, "aud") {
        Some(aud) => aud,
        None => return None,
    };
    if let Some(audience) = json::as_str(aud) {
        return if audience.is_empty() {
            None
        } else {
            Some(audience.to_owned())
        };
    }
    let items = match json::as_array(aud) {
        Some(items) => items,
        None => return None,
    };
    let ghost trees = value_trees(items@);
    let mut i: usize = 0;
    assert(trees.skip(0) =~= trees);
    while i < items.len()
        invariant
            0 <= i <= items@.len(),
            trees == value_trees(items@),
            client_id_of(value_tree(*claims)) == first_text(trees.skip(i as int)),
        decreases items@.len() - i,
    {
        assert(trees.skip(i as int)[0] == value_tree(items@[i as int]));
        assert(trees.skip(i as int).skip(1) =~= trees.skip(i + 1));
        if let Some(text) = json::as_str(&items[i]) {
            if !text.is_empty() {
                return Some(text.to_owned());
            }
        }
        i = i + 1;
    }
    None
}

/// Where the issuer of a token hands out tokens.
pub open spec fn token_url_of(claims: JsonTree) -> Seq<char> {
    let issuer = match claims.text_member("iss"@) {
        Some(issuer) => issuer,
        None => "https://auth.openai.com"@,
    };
    trim_back(issuer, CharClass::Only('/')) + "/oauth/token"@
}

/// The fields of a refresh form.
pub open spec fn refresh_form(
    refresh_token: Seq<char>,
    client_id: Option<Seq<char>>,
) -> Seq<(Seq<char>, Seq<char>)> {
    let fields = seq![
        ("grant_type"@, "refresh_token"@),
        ("refresh_token"@, refresh_token),
    ];
    match client_id {
        Some(client_id) => fields.push(("client_id"@, client_id)),
        None => fields,
    }
}

/// The views of the fields of a form.
pub open spec fn form_view(form: Seq<(String, String)>) -> Seq<(Seq<char>, Seq<char>)> {
    form.map_values(|field: (String, String)| (field.0@, field.1@))
}

/// The request that refreshes a token, given its claims.
pub fn refresh_request_for(refresh_token: &str, claims: &Value) -> (r: TokenRefreshRequest)
    ensures
        r.token_url@ == token_url_of(value_tree(*claims)),
        form_view(r.form@) == refresh_form(refresh_token@, client_id_of(value_tree(*claims))),
{
    let issuer = match json::get_str(claims, "iss") {
        Some(issuer) => issuer,
        None => "https://auth.openai.com",
    };
    let mut token_url = text::trim_end_of(issuer, CharClass::Only('/'));
    token_url.append("/oauth/token");
    let mut form: Vec<(String, String)> = Vec::new();
    form.push(("grant_type".to_owned(), "refresh_token".to_owned()));
    form.push(("refresh_token".to_owned(), refresh_token.to_owned()));
    if let Some(client_id) = extract_client_id_from_claims(claims) {
        form.push(("client_id".to_owned(), client_id));
    }
    assert(form_view(form@) =~= refresh_form(
        refresh_token@,
        client_id_of(value_tree(*claims)),
    ));
    TokenRefreshRequest { token_url, form }
}

/// What a refresh of a document needs: its refresh token and the claims of its
/// identity token.
pub open spec fn refresh_inputs(auth: JsonTree) -> Result<(Seq<char>, JsonTree), AuthError> {
    match tokens_of(auth) {
        None => Err(AuthError::MissingTokens),
        Some(tokens) => match tokens.text_member("refresh_token"@) {
            None => Err(AuthError::MissingRefreshToken),
            Some(refresh_token) => match tokens.text_member("id_token"@) {
                None => Err(AuthError::MissingIdToken),
                Some(id_token) => match token_claims(id_token) {
                    Err(error) => Err(error),
                    Ok(claims) => Ok((refresh_token, claims)),
                },
            },
        },
    }
}

/// The request that refreshes the tokens of a document.
pub fn token_refresh_request(auth_json: &Value) -> (r: Result<TokenRefreshRequest, AuthError>)
    ensures
        match (r, refresh_inputs(value_tree(*auth_json))) {
            (Ok(request), Ok((refresh_token, claims))) => request.token_url@ == token_url_of(claims)
                && form_view(request.form@) == refresh_form(refresh_token, client_id_of(claims)),
            (Err(error), Err(expected)) => error == expected,
            _ => false,
        },
{
    let tokens = match auth_token_object(auth_json) {
        Some(tokens) => tokens,
        None => return Err(AuthError::MissingTokens),
    };
    let refresh_token = match json::get_str(tokens, "refresh_token") {
        Some(refresh_token) => refresh_token,
        None => return Err(AuthError::MissingRefreshToken),
    };
    let id_token = match json::get_str(tokens, "id_token") {
        Some(id_token) => id_token,
        None => return Err(AuthError::MissingIdToken),
    };
    match decode_jwt_payload(id_token) {
        Ok(claims) => Ok(refresh_request_for(refresh_token, &claims)),
        Err(error) => Err(error),
    }
}

/// The members of a document with fresh tokens in its member `tokens`.
pub open spec fn refreshed_auth(
    auth: JsonTree,
    access_token: Seq<char>,
    id_token: Seq<char>,
    refresh_token: Option<Seq<char>>,
) -> Result<JsonTree, AuthError> {
    match auth {
        JsonTree::Object(members) => match auth.member("tokens"@) {
            Some(JsonTree::Object(tokens)) => {
                let fresh = tokens.insert("access_token"@, JsonTree::Text(access_token)).insert(
                    "id_token"@,
                    JsonTree::Text(id_token),
                );
                let complete = match refresh_token {
                    Some(refresh_token) => fresh.insert(
                        "refresh_token"@,
                        JsonTree::Text(refresh_token),
                    ),
                    None => fresh,
                };
                Ok(JsonTree::Object(members.insert("tokens"@, JsonTree::Object(complete))))
            },
            _ => Err(AuthError::MissingTokens),
        },
        _ => Err(AuthError::RootIsNotAnObject),
    }
}

/// Puts fresh tokens into a document.
pub fn apply_refreshed_tokens(auth_json: &Value, refreshed: &RefreshedTokens) -> (r: Result<
    Value,
    AuthError,
>)
    ensures
        result_tree(r) == refreshed_auth(
            value_tree(*auth_json),
            refreshed.access_token@,
            refreshed.id_token@,
            text_view(refreshed.refresh_token),
        ),
{
    let mut root = match json::as_object(auth_json) {
        Some(root) => json::clone_object(root),
        None => return Err(AuthError::RootIsNotAnObject),
    };
    let mut tokens = match json::get(auth_json, "tokens") {
        Some(tokens) => match json::as_object(tokens) {
            Some(tokens) => json::clone_object(tokens),
            None => return Err(AuthError::MissingTokens),
        },
        None => return Err(AuthError::MissingTokens),
    };
    json::insert(&mut tokens, "access_token", json::string(refreshed.access_token.as_str()));
    json::insert(&mut tokens, "id_token", json::string(refreshed.id_token.as_str()));
    if let Some(refresh_token) = &refreshed.refresh_token {
        json::insert(&mut tokens, "refresh_token", json::string(refresh_token.as_str()));
    }
    json::insert(&mut root, "tokens", json::object(tokens));
    Ok(json::object(root))
}

/// A refreshed document has the fresh tokens, and is of the account that stands
/// beside its tokens as before.
pub proof fn law_refresh_keeps_the_account(
    auth: JsonTree,
    access_token: Seq<char>,
    id_token: Seq<char>,
    refresh_token: Option<Seq<char>>,
)
    requires
        refreshed_auth(auth, access_token, id_token, refresh_token) is Ok,
    ensures
        ({
            let fresh = refreshed_auth(auth, access_token, id_token, refresh_token)->Ok_0;
            let before = tokens_of(auth)->0.text_member("account_id"@);
            &&& tokens_of(fresh) is Some
            &&& tokens_of(fresh)->0.text_member("access_token"@) == Some(access_token)
            &&& tokens_of(fresh)->0.text_member("id_token"@) == Some(id_token)
            &&& tokens_of(fresh)->0.text_member("account_id"@) == before
            &&& refresh_token is Some ==> tokens_of(fresh)->0.text_member("refresh_token"@)
                == refresh_token
            &&& refresh_token is None ==> tokens_of(fresh)->0.text_member("refresh_token"@)
                == tokens_of(auth)->0.text_member("refresh_token"@)
            &&& before is Some ==> account_of(fresh) == before && facts_of(fresh)->Ok_0.access_token
                == access_token
        }),
{
    lemma_member_names();
    let fresh = refreshed_auth(auth, access_token, id_token, refresh_token)->Ok_0;
    assert(fresh.member("tokens"@) is Some);
    let tokens = fresh.member("tokens"@)->0;
    assert(tokens_of(fresh) == Some(tokens));
    assert(tokens.text_member("access_token"@) == Some(access_token));
    assert(tokens.text_member("id_token"@) == Some(id_token));
}

/// The error of a refresh that was refused.
pub open spec fn refresh_refusal(
    token_url: Seq<char>,
    status: Seq<char>,
    body: Seq<char>,
) -> Seq<char> {
    "failed to refresh login token "@ + token_url + " -> "@ + status + ": "@ + truncated(body, 140)
}

/// The error of a refresh that was refused with a status and a body.
pub fn refresh_refusal_message(token_url: &str, status: &str, body: &str) -> (r: String)
    requires
        cuts_cleanly(body@, 140),
    ensures
        r@ == refresh_refusal(token_url@, status@, body@),
{
    let excerpt = truncate_for_error(body, 140);
    let mut out = "failed to refresh login token ".to_owned();
    out.append(token_url);
    out.append(" -> ");
    out.append(status);
    out.append(": ");
    out.append(excerpt.as_str());
    out
}

/// What came of a request for fresh tokens.
#[derive(Debug)]
pub enum TokenReply {
    /// Nothing came back.
    Unreachable,
    /// A status that is no success, and the text that came with it.
    Refused { status: String, body: String },
    /// A success that could not be read.
    Unreadable,
    /// Fresh tokens.
    Tokens(RefreshedTokens),
}

/// Whether what came of a request can be taken in: its text can be cut for an error.
pub open spec fn can_take(reply: TokenReply) -> bool {
    match reply {
        TokenReply::Refused { status, body } => cuts_cleanly(body@, 140),
        _ => true,
    }
}

/// What a refresh comes to: the document with fresh tokens, or why there is none.
pub open spec fn token_outcome(auth: JsonTree, token_url: Seq<char>, reply: TokenReply) -> Result<
    JsonTree,
    Seq<char>,
> {
    match reply {
        TokenReply::Unreachable => Err("failed to refresh login token "@ + token_url),
        TokenReply::Refused { status, body } => Err(refresh_refusal(token_url, status@, body@)),
        TokenReply::Unreadable => Err("failed to parse token refresh response"@),
        TokenReply::Tokens(tokens) => match refreshed_auth(
            auth,
            tokens.access_token@,
            tokens.id_token@,
            text_view(tokens.refresh_token),
        ) {
            Ok(fresh) => Ok(fresh),
            Err(error) => Err(error.message()),
        },
    }
}

/// What a refresh comes to, given what came of the request.
pub fn settle_token_refresh(auth_json: &Value, token_url: &str, reply: TokenReply) -> (r: Result<
    Value,
    String,
>)
    requires
        can_take(reply),
    ensures
        (match r {
            Ok(fresh) => Ok(value_tree(fresh)),
            Err(error) => Err(error@),
        }) == token_outcome(value_tree(*auth_json), token_url@, reply),
{
    match reply {
        TokenReply::Unreachable => {
            let mut message = "failed to refresh login token ".to_owned();
            message.append(token_url);
            Err(message)
        },
        TokenReply::Refused { status, body } => Err(
            refresh_refusal_message(token_url, status.as_str(), body.as_str()),
        ),
        TokenReply::Unreadable => Err("failed to parse token refresh response".to_owned()),
        TokenReply::Tokens(tokens) => match apply_refreshed_tokens(auth_json, &tokens) {
            Ok(fresh) => Ok(fresh),
            Err(error) => Err(error.to_text()),
        },
    }
}

// ---------------------------------------------------------------------------
// What a document says
// ---------------------------------------------------------------------------
/// Whether the tokens of a document are some members: those of its member `tokens`, or, where
/// there is no such object and both tokens stand at the root, the members of the document.
pub open spec fn are_tokens_of(
    document: Map<Seq<char>, JsonTree>,
    tokens: Map<Seq<char>, JsonTree>,
) -> bool {
    ||| document.contains_key("tokens"@) && document["tokens"@] == JsonTree::Object(tokens)
    ||| (!document.contains_key("tokens"@) || !(document["tokens"@] is Object))
        && document.contains_key("access_token"@) && document.contains_key("id_token"@) && tokens
        == document
}

/// A document says which token opens and whose account it is: the account that is named beside
/// the tokens or, failing that, in the claims of the identity token. What is missing is said:
/// the access token first, then the identity token, then the account.
pub proof fn law_document_names_its_account(
    document: Map<Seq<char>, JsonTree>,
    tokens: Map<Seq<char>, JsonTree>,
    access_token: Seq<char>,
    id_token: Seq<char>,
    account_id: Seq<char>,
    claims: Map<Seq<char>, JsonTree>,
    about: Map<Seq<char>, JsonTree>,
)
    requires
        are_tokens_of(document, tokens),
    ensures
        ({
            let facts = facts_of(JsonTree::Object(document));
            let has_access = tokens.contains_key("access_token"@) && tokens["access_token"@]
                == JsonTree::Text(access_token);
            let has_id = tokens.contains_key("id_token"@) && tokens["id_token"@] == JsonTree::Text(
                id_token,
            );
            let named = tokens.contains_key("account_id"@) && tokens["account_id"@]
                == JsonTree::Text(account_id);
            let unnamed = !tokens.contains_key("account_id"@) || !(tokens["account_id"@] is Text);
            let told = token_claims(id_token) == Ok::<JsonTree, AuthError>(
                JsonTree::Object(claims),
            ) && claims.contains_key("https://api.openai.com/auth"@)
                && claims["https://api.openai.com/auth"@] == JsonTree::Object(about);
            let told_account = told && about.contains_key("chatgpt_account_id"@)
                && about["chatgpt_account_id"@] == JsonTree::Text(account_id);
            &&& has_access && has_id && (named || (unnamed && told_account)) ==> facts is Ok
                && facts->Ok_0.access_token == access_token && facts->Ok_0.account_id == account_id
            &&& !tokens.contains_key("access_token"@) || !(tokens["access_token"@] is Text)
                ==> facts == Err::<AuthFacts, AuthError>(AuthError::MissingAccessToken)
            &&& has_access && (!tokens.contains_key("id_token"@) || !(tokens["id_token"@] is Text))
                ==> facts == Err::<AuthFacts, AuthError>(AuthError::MissingIdToken)
            &&& has_access && has_id && unnamed && (token_claims(id_token) is Err || (told
                && !about.contains_key("chatgpt_account_id"@))) ==> facts == Err::<
                AuthFacts,
                AuthError,
            >(AuthError::MissingAccountId)
        }),
{
}

/// The address and the plan of an account are those that the claims of its identity token
/// name; claims that cannot be read name none.
pub proof fn law_claims_name_address_and_plan(
    document: Map<Seq<char>, JsonTree>,
    tokens: Map<Seq<char>, JsonTree>,
    id_token: Seq<char>,
    claims: Map<Seq<char>, JsonTree>,
    about: Map<Seq<char>, JsonTree>,
    email: Seq<char>,
    plan: Seq<char>,
)
    requires
        are_tokens_of(document, tokens),
        tokens.contains_key("id_token"@),
        tokens["id_token"@] == JsonTree::Text(id_token),
        facts_of(JsonTree::Object(document)) is Ok,
    ensures
        ({
            let facts = facts_of(JsonTree::Object(document))->Ok_0;
            let read = token_claims(id_token) == Ok::<JsonTree, AuthError>(
                JsonTree::Object(claims),
            );
            let told = read && claims.contains_key("https://api.openai.com/auth"@)
                && claims["https://api.openai.com/auth"@] == JsonTree::Object(about);
            &&& read ==> (facts.email == Some(email) <==> claims.contains_key("email"@)
                && claims["email"@] == JsonTree::Text(email))
            &&& told ==> (facts.plan_type == Some(plan) <==> about.contains_key(
                "chatgpt_plan_type"@,
            ) && about["chatgpt_plan_type"@] == JsonTree::Text(plan))
            &&& token_claims(id_token) is Err ==> facts.email is None && facts.plan_type is None
        }),
{
}

/// A document without tokens is refused: as one of another sign-in mode where it names one, in
/// whatever letters, and else as one that is not signed in.
pub proof fn law_document_without_tokens(document: Map<Seq<char>, JsonTree>, mode: Seq<char>)
    requires
        !document.contains_key("tokens"@) || !(document["tokens"@] is Object),
        !document.contains_key("access_token"@) || !document.contains_key("id_token"@),
    ensures
        ({
            let facts = facts_of(JsonTree::Object(document));
            let named = document.contains_key("auth_mode"@) && document["auth_mode"@]
                == JsonTree::Text(mode);
            &&& named && mode.len() > 0 && lowered(mode) != "chatgpt"@ && lowered(mode)
                != "chatgpt_auth_tokens"@ ==> facts == Err::<AuthFacts, AuthError>(
                AuthError::NotChatGptMode,
            )
            &&& named && (mode.len() == 0 || lowered(mode) == "chatgpt"@ || lowered(mode)
                == "chatgpt_auth_tokens"@) ==> facts == Err::<AuthFacts, AuthError>(
                AuthError::NoSignInToken,
            )
            &&& !document.contains_key("auth_mode"@) ==> facts == Err::<AuthFacts, AuthError>(
                AuthError::NoSignInToken,
            )
        }),
{
}

/// The claims of a token stand between its first two dots, in base64 and as JSON; one without a
/// dot has none.
pub proof fn law_claims_stand_between_the_dots(
    header: Seq<char>,
    payload: Seq<char>,
    signature: Seq<char>,
)
    requires
        forall|i: int| 0 <= i < header.len() ==> header[i] != '.',
        forall|i: int| 0 <= i < payload.len() ==> payload[i] != '.',
    ensures
        ({
            let token = header + seq!['.'] + payload + seq!['.'] + signature;
            let unpadded = base64_unpadded(payload);
            &&& payload_segment(token) == Some(payload)
            &&& payload_segment(header + seq!['.'] + payload) == Some(payload)
            &&& unpadded is Some && parsed_bytes(unpadded->0) is Some ==> token_claims(token)
                == Ok::<JsonTree, AuthError>(parsed_bytes(unpadded->0)->0)
            &&& unpadded is Some && parsed_bytes(unpadded->0) is None ==> token_claims(token)
                == Err::<JsonTree, AuthError>(AuthError::IdTokenPayload)
            &&& unpadded is None ==> token_claims(token) == match base64_padded(
                filled_up(payload),
            ) {
                Some(bytes) => match parsed_bytes(bytes) {
                    Some(claims) => Ok(claims),
                    None => Err(AuthError::IdTokenPayload),
                },
                None => Err(AuthError::IdTokenEncoding),
            }
        }),
        payload_segment(header) is None,
        token_claims(header) == Err::<JsonTree, AuthError>(AuthError::IdTokenFormat),
{
    let tail = payload + seq!['.'] + signature;
    let token = header + seq!['.'] + payload + seq!['.'] + signature;
    assert(token =~= header + seq!['.'] + tail);
    text::law_first_place(header, '.', tail, 0);
    let front = header + seq!['.'] + payload;
    assert(token =~= front + seq!['.'] + signature);
    assert forall|i: int| header.len() + 1 <= i < front.len() implies front[i] != '.' by {
        assert(front[i] == payload[i - header.len() - 1]);
    }
    text::law_first_place(front, '.', signature, header.len() as int + 1);
    assert(token.subrange(header.len() as int + 1, front.len() as int) =~= payload);
    text::law_first_place(header, '.', payload, 0);
    assert(front.subrange(header.len() as int + 1, front.len() as int) =~= payload);
}

/// A segment is filled up with equals signs, as few as make its length a multiple of four.
pub proof fn law_filling_up(segment: Seq<char>)
    ensures
        ({
            let added = filled_up(segment).len() - segment.len();
            &&& 0 <= added < 4
            &&& (byte_length(segment) + added) % 4 == 0
            &&& filled_up(segment).take(segment.len() as int) == segment
            &&& forall|i: int|
                segment.len() <= i < filled_up(segment).len() ==> #[trigger] filled_up(segment)[i]
                    == '='
        }),
{
    assert(filled_up(segment).take(segment.len() as int) =~= segment);
}

/// A flat document is kept with its tokens, whole, in a member of their own, and with its mode
/// and the time of its last refresh; any other document is kept as it is.
pub proof fn law_normalizing_keeps_every_token(
    document: Map<Seq<char>, JsonTree>,
    access_token: Seq<char>,
    id_token: Seq<char>,
    text: Seq<char>,
)
    ensures
        document.contains_key("tokens"@) && document["tokens"@] is Object ==> normalized_auth(
            JsonTree::Object(document),
        ) == JsonTree::Object(document),
        (!document.contains_key("tokens"@) || !(document["tokens"@] is Object))
            && document.contains_key("access_token"@) && document["access_token"@]
            == JsonTree::Text(access_token) && document.contains_key("id_token"@)
            && document["id_token"@] == JsonTree::Text(id_token) ==> {
            let kept = normalized_auth(JsonTree::Object(document));
            let tokens = kept.member("tokens"@);
            &&& tokens is Some
            &&& tokens->0.text_member("access_token"@) == Some(access_token)
            &&& tokens->0.text_member("id_token"@) == Some(id_token)
            &&& tokens->0.text_member("refresh_token"@) == Some(text) <==> document.contains_key(
                "refresh_token"@,
            ) && document["refresh_token"@] == JsonTree::Text(text)
            &&& tokens->0.text_member("account_id"@) == Some(text) <==> document.contains_key(
                "account_id"@,
            ) && document["account_id"@] == JsonTree::Text(text)
            &&& document.contains_key("last_refresh"@) ==> kept.member("last_refresh"@) == Some(
                document["last_refresh"@],
            )
            &&& !document.contains_key("last_refresh"@) ==> kept.member("last_refresh"@) is None
            &&& document.contains_key("auth_mode"@) && document["auth_mode"@] == JsonTree::Text(
                text,
            ) ==> kept.text_member("auth_mode"@) == Some(text)
            &&& !document.contains_key("auth_mode"@) ==> kept.text_member("auth_mode"@) == Some(
                "chatgpt"@,
            )
        },
        !document.contains_key("access_token"@) || !document.contains_key("id_token"@)
            ==> normalized_auth(JsonTree::Object(document)) == JsonTree::Object(document),
{
    lemma_member_names();
    reveal_strlit("auth_mode");
    reveal_strlit("last_refresh");
    assert("auth_mode"@.len() == 9);
    assert("last_refresh"@.len() == 12);
}

/// Fresh tokens take the place of the old ones, and nothing else of the document changes. A
/// refresh that brings no refresh token leaves the old one.
pub proof fn law_refresh_changes_the_tokens_alone(
    document: Map<Seq<char>, JsonTree>,
    tokens: Map<Seq<char>, JsonTree>,
    access_token: Seq<char>,
    id_token: Seq<char>,
    refresh_token: Option<Seq<char>>,
    key: Seq<char>,
)
    requires
        document.contains_key("tokens"@),
        document["tokens"@] == JsonTree::Object(tokens),
    ensures
        ({
            let r = refreshed_auth(
                JsonTree::Object(document),
                access_token,
                id_token,
                refresh_token,
            );
            let fresh = r->Ok_0;
            let held = fresh.member("tokens"@)->0;
            &&& r is Ok
            &&& fresh.member("tokens"@) is Some
            &&& held.text_member("access_token"@) == Some(access_token)
            &&& held.text_member("id_token"@) == Some(id_token)
            &&& refresh_token is Some ==> held.text_member("refresh_token"@) == refresh_token
            &&& refresh_token is None ==> held.member("refresh_token"@) == JsonTree::Object(
                tokens,
            ).member("refresh_token"@)
            &&& key != "tokens"@ ==> fresh.member(key) == JsonTree::Object(document).member(key)
            &&& key != "access_token"@ && key != "id_token"@ && key != "refresh_token"@
                ==> held.member(key) == JsonTree::Object(tokens).member(key)
        }),
{
    lemma_member_names();
}

/// Fresh tokens can be put only into an object that has an object of tokens.
pub proof fn law_fresh_tokens_need_a_place(
    auth: JsonTree,
    access_token: Seq<char>,
    id_token: Seq<char>,
    refresh_token: Option<Seq<char>>,
)
    ensures
        ({
            let r = refreshed_auth(auth, access_token, id_token, refresh_token);
            &&& !(auth is Object) ==> r == Err::<JsonTree, AuthError>(AuthError::RootIsNotAnObject)
            &&& auth is Object && (!auth->Object_0.contains_key("tokens"@)
                || !(auth->Object_0["tokens"@] is Object)) ==> r == Err::<JsonTree, AuthError>(
                AuthError::MissingTokens,
            )
        }),
{
}

/// Tokens are refreshed with the refresh token of the document, at the issuer of its identity
/// token, for the client that this was made for.
pub proof fn law_refresh_asks_the_issuer(
    document: Map<Seq<char>, JsonTree>,
    tokens: Map<Seq<char>, JsonTree>,
    refresh_token: Seq<char>,
    id_token: Seq<char>,
    claims: Map<Seq<char>, JsonTree>,
    request: TokenRefreshRequest,
    issuer: Seq<char>,
    client: Seq<char>,
)
    requires
        are_tokens_of(document, tokens),
        tokens.contains_key("refresh_token"@),
        tokens["refresh_token"@] == JsonTree::Text(refresh_token),
        tokens.contains_key("id_token"@),
        tokens["id_token"@] == JsonTree::Text(id_token),
        token_claims(id_token) == Ok::<JsonTree, AuthError>(JsonTree::Object(claims)),
        match refresh_inputs(JsonTree::Object(document)) {
            Ok((with, said)) => request.token_url@ == token_url_of(said) && form_view(request.form@)
                == refresh_form(with, client_id_of(said)),
            Err(_) => false,
        },
    ensures
        request.form@.len() >= 2,
        request.form@[0].0@ == "grant_type"@,
        request.form@[0].1@ == "refresh_token"@,
        request.form@[1].0@ == "refresh_token"@,
        request.form@[1].1@ == refresh_token,
        claims.contains_key("iss"@) && claims["iss"@] == JsonTree::Text(issuer) && (issuer.len()
            == 0 || issuer.last() != '/') ==> request.token_url@ == issuer + "/oauth/token"@,
        claims.contains_key("iss"@) && claims["iss"@] == JsonTree::Text(issuer + seq!['/']) && (
        issuer.len() == 0 || issuer.last() != '/') ==> request.token_url@ == issuer
            + "/oauth/token"@,
        !claims.contains_key("iss"@) ==> request.token_url@ == "https://auth.openai.com"@
            + "/oauth/token"@,
        client.len() > 0 && claims.contains_key("aud"@) && claims["aud"@] == JsonTree::Text(client)
            ==> request.form@.len() == 3 && request.form@[2].0@ == "client_id"@
            && request.form@[2].1@ == client,
        !claims.contains_key("aud"@) ==> request.form@.len() == 2,
        client.len() > 0 && claims.contains_key("aud"@) && claims["aud"@] is Array
            && claims["aud"@]->Array_0.len() > 0 && claims["aud"@]->Array_0[0] == JsonTree::Text(
            client,
        ) ==> request.form@.len() == 3 && request.form@[2].0@ == "client_id"@
            && request.form@[2].1@ == client,
{
    let shown = form_view(request.form@);
    assert(shown.len() == request.form@.len());
    assert(shown[0] == (request.form@[0].0@, request.form@[0].1@));
    assert(shown[1] == (request.form@[1].0@, request.form@[1].1@));
    if shown.len() > 2 {
        assert(shown[2] == (request.form@[2].0@, request.form@[2].1@));
    }
    reveal_strlit("https://auth.openai.com");
    assert("https://auth.openai.com"@.last() == 'm');
    let class = CharClass::Only('/');
    let slashed = issuer + seq!['/'];
    assert(slashed.drop_last() =~= issuer);
    reveal_with_fuel(trim_back, 2);
    reveal_with_fuel(first_text, 2);
}

/// What a refresh needs and does not find is said: the tokens, then the refresh token, then the
/// identity token, then its claims.
pub proof fn law_refresh_says_what_is_missing(auth: JsonTree)
    ensures
        tokens_of(auth) is None ==> refresh_inputs(auth) == Err::<
            (Seq<char>, JsonTree),
            AuthError,
        >(AuthError::MissingTokens),
        tokens_of(auth) is Some && tokens_of(auth)->0.text_member("refresh_token"@) is None
            ==> refresh_inputs(auth) == Err::<(Seq<char>, JsonTree), AuthError>(
            AuthError::MissingRefreshToken,
        ),
        tokens_of(auth) is Some && tokens_of(auth)->0.text_member("refresh_token"@) is Some
            && tokens_of(auth)->0.text_member("id_token"@) is None ==> refresh_inputs(auth)
            == Err::<(Seq<char>, JsonTree), AuthError>(AuthError::MissingIdToken),
{
}

/// What a refresh comes to: with tokens the document that has them, and with anything else an
/// error that names the address, or what was answered.
pub proof fn law_what_a_token_refresh_comes_to(
    document: Map<Seq<char>, JsonTree>,
    url: Seq<char>,
    tokens: RefreshedTokens,
    status: String,
    body: String,
)
    ensures
        document.contains_key("tokens"@) && document["tokens"@] is Object ==> {
            let r = token_outcome(JsonTree::Object(document), url, TokenReply::Tokens(tokens));
            &&& r is Ok
            &&& r->Ok_0.member("tokens"@) is Some
            &&& r->Ok_0.member("tokens"@)->0.text_member("access_token"@) == Some(
                tokens.access_token@,
            )
            &&& r->Ok_0.member("tokens"@)->0.text_member("id_token"@) == Some(tokens.id_token@)
            &&& tokens.refresh_token is Some ==> r->Ok_0.member("tokens"@)->0.text_member(
                "refresh_token"@,
            ) == Some(tokens.refresh_token->0@)
        },
        token_outcome(JsonTree::Object(document), url, TokenReply::Unreachable) == Err::<
            JsonTree,
            Seq<char>,
        >("failed to refresh login token "@ + url),
        token_outcome(JsonTree::Object(document), url, TokenReply::Unreadable) is Err,
        byte_length(body@) <= 140 ==> token_outcome(
            JsonTree::Object(document),
            url,
            TokenReply::Refused { status, body },
        ) == Err::<JsonTree, Seq<char>>(
            "failed to refresh login token "@ + url + " -> "@ + status@ + ": "@ + body@,
        ),
{
    if document.contains_key("tokens"@) && document["tokens"@] is Object {
        law_refresh_changes_the_tokens_alone(
            document,
            document["tokens"@]->Object_0,
            tokens.access_token@,
            tokens.id_token@,
            text_view(tokens.refresh_token),
            Seq::empty(),
        );
    }
}

/// A fingerprint tells a document from the same one with another account, another time of its
/// last refresh, another time of writing, or another mode.
pub proof fn law_fingerprint_shows_every_change(
    account_id: Option<Seq<char>>,
    last_refresh: Option<Seq<char>>,
    modified_at: i64,
    auth_mode: Option<Seq<char>>,
    text: Seq<char>,
    time: i64,
)
    ensures
        ({
            let print = fingerprint_of(account_id, last_refresh, Some(modified_at), auth_mode);
            &&& account_id is Some && account_id->0 != text ==> print != fingerprint_of(
                Some(text),
                last_refresh,
                Some(modified_at),
                auth_mode,
            )
            &&& last_refresh is Some && last_refresh->0 != text ==> print != fingerprint_of(
                account_id,
                Some(text),
                Some(modified_at),
                auth_mode,
            )
            &&& modified_at != time ==> print != fingerprint_of(
                account_id,
                last_refresh,
                Some(time),
                auth_mode,
            )
            &&& auth_mode is Some && auth_mode->0 != text ==> print != fingerprint_of(
                account_id,
                last_refresh,
                Some(modified_at),
                Some(text),
            )
        }),
{
    let a = text_or_empty(account_id);
    let l = text_or_empty(last_refresh);
    let m = signed_decimal(modified_at as int);
    let t = signed_decimal(time as int);
    let d = text_or_empty(auth_mode);
    lemma_parts_of_a_print(a, l, m, d, text);
    lemma_parts_of_a_print(a, l, m, d, t);
    if modified_at != time && m == t {
        text::law_decimals_differ(modified_at as int, time as int);
    }
}

/// A text with bars between its four parts changes with each of them.
proof fn lemma_parts_of_a_print(
    a: Seq<char>,
    l: Seq<char>,
    m: Seq<char>,
    d: Seq<char>,
    x: Seq<char>,
)
    ensures
        a + "|"@ + l + "|"@ + m + "|"@ + d == x + "|"@ + l + "|"@ + m + "|"@ + d ==> a == x,
        a + "|"@ + l + "|"@ + m + "|"@ + d == a + "|"@ + x + "|"@ + m + "|"@ + d ==> l == x,
        a + "|"@ + l + "|"@ + m + "|"@ + d == a + "|"@ + l + "|"@ + x + "|"@ + d ==> m == x,
        a + "|"@ + l + "|"@ + m + "|"@ + d == a + "|"@ + l + "|"@ + m + "|"@ + x ==> d == x,
{
    let bar = "|"@;
    let print = a + bar + l + bar + m + bar + d;
    assert(print == x + bar + l + bar + m + bar + d ==> a == x) by {
        let rest = bar + l + bar + m + bar + d;
        lemma_same_around(Seq::empty(), a, x, rest);
        assert(print =~= Seq::<char>::empty() + a + rest);
        assert(x + bar + l + bar + m + bar + d =~= Seq::<char>::empty() + x + rest);
    }
    assert(print == a + bar + x + bar + m + bar + d ==> l == x) by {
        let rest = bar + m + bar + d;
        lemma_same_around(a + bar, l, x, rest);
        assert(print =~= a + bar + l + rest);
        assert(a + bar + x + bar + m + bar + d =~= a + bar + x + rest);
    }
    assert(print == a + bar + l + bar + x + bar + d ==> m == x) by {
        let rest = bar + d;
        lemma_same_around(a + bar + l + bar, m, x, rest);
        assert(print =~= a + bar + l + bar + m + rest);
        assert(a + bar + l + bar + x + bar + d =~= a + bar + l + bar + x + rest);
    }
    assert(print == a + bar + l + bar + m + bar + x ==> d == x) by {
        let front = a + bar + l + bar + m + bar;
        lemma_same_around(front, d, x, Seq::empty());
        assert(front + d =~= front + d + Seq::<char>::empty());
        assert(front + x =~= front + x + Seq::<char>::empty());
    }
}

/// Between the same texts, different texts make different ones.
proof fn lemma_same_around(before: Seq<char>, a: Seq<char>, b: Seq<char>, after: Seq<char>)
    ensures
        before + a + after == before + b + after ==> a == b,
{
    let x = before + a + after;
    let y = before + b + after;
    if x == y {
        assert(x.len() == y.len());
        assert(x.subrange(before.len() as int, (before.len() + a.len()) as int) =~= a);
        assert(y.subrange(before.len() as int, (before.len() + b.len()) as int) =~= b);
    }
}

/// The status of a document tells its account, its address and plan, its mode and the time of
/// its last refresh, where it names them, and when its file was written.
pub proof fn law_status_tells_the_document(
    status: CurrentAuthStatus,
    auth: JsonTree,
    modified_at: Option<i64>,
    text: Seq<char>,
)
    requires
        is_status_of(status, auth, modified_at),
    ensures
        status.available,
        facts_of(auth) is Ok ==> status.account_id is Some && status.account_id->0@ == facts_of(
            auth,
        )->Ok_0.account_id && text_view(status.email) == facts_of(auth)->Ok_0.email && text_view(
            status.plan_type,
        ) == facts_of(auth)->Ok_0.plan_type,
        facts_of(auth) is Err ==> status.account_id is None && status.email is None
            && status.plan_type is None,
        auth.text_member("auth_mode"@) == Some(text) <==> status.auth_mode is Some
            && status.auth_mode->0@ == text,
        auth.text_member("last_refresh"@) == Some(text) <==> status.last_refresh is Some
            && status.last_refresh->0@ == text,
        status.file_modified_at == modified_at,
        status.fingerprint is Some,
        status.fingerprint->0@ == fingerprint_of(
            text_view(status.account_id),
            text_view(status.last_refresh),
            modified_at,
            text_view(status.auth_mode),
        ),
{
}

/// What is extracted from a document is what it says; and the account of the document in use is
/// the one that it names.
pub proof fn law_extracted_facts(auth: JsonTree, r: Result<ExtractedAuth, AuthError>)
    requires
        facts_view(r) == facts_of(auth),
    ensures
        r is Ok <==> facts_of(auth) is Ok,
        r is Ok ==> r->Ok_0.account_id@ == facts_of(auth)->Ok_0.account_id
            && r->Ok_0.access_token@ == facts_of(auth)->Ok_0.access_token,
        r is Ok ==> (r->Ok_0.email is Some <==> facts_of(auth)->Ok_0.email is Some),
        r is Ok && r->Ok_0.email is Some ==> r->Ok_0.email->0@ == facts_of(auth)->Ok_0.email->0,
        r is Ok ==> (r->Ok_0.plan_type is Some <==> facts_of(auth)->Ok_0.plan_type is Some),
        r is Ok && r->Ok_0.plan_type is Some ==> r->Ok_0.plan_type->0@ == facts_of(
            auth,
        )->Ok_0.plan_type->0,
        r is Err ==> r->Err_0 == facts_of(auth)->Err_0,
        account_in_use(Some(auth)) == match r {
            Ok(extracted) => Some(extracted.account_id@),
            Err(_) => None,
        },
        account_in_use(None) is None,
{
}

/// The client of a token is the first of its audiences that is a text and not empty.
pub proof fn law_first_audience_counts(
    claims: Map<Seq<char>, JsonTree>,
    audiences: Seq<JsonTree>,
    client: Seq<char>,
    k: int,
)
    requires
        claims.contains_key("aud"@),
        claims["aud"@] == JsonTree::Array(audiences),
        0 <= k < audiences.len(),
        audiences[k] == JsonTree::Text(client),
        client.len() > 0,
        forall|j: int|
            0 <= j < k ==> !((#[trigger] audiences[j]) is Text) || audiences[j]->Text_0.len() == 0,
    ensures
        client_id_of(JsonTree::Object(claims)) == Some(client),
{
    lemma_first_text(audiences, client, k);
}

/// The first text among some trees is found.
proof fn lemma_first_text(items: Seq<JsonTree>, text: Seq<char>, k: int)
    requires
        0 <= k < items.len(),
        items[k] == JsonTree::Text(text),
        text.len() > 0,
        forall|j: int|
            0 <= j < k ==> !((#[trigger] items[j]) is Text) || items[j]->Text_0.len() == 0,
    ensures
        first_text(items) == Some(text),
    decreases k,
{
    if k > 0 {
        assert(!(items[0] is Text) || items[0]->Text_0.len() == 0);
        let rest = items.skip(1);
        assert forall|j: int| 0 <= j < k - 1 implies !((#[trigger] rest[j]) is Text)
            || rest[j]->Text_0.len() == 0 by {
            assert(rest[j] == items[j + 1]);
        }
        lemma_first_text(rest, text, k - 1);
    }
}

} // verus!
