//! Signed tokens.
//!
//! A token carries three claims: who its holder is, the name they go by, and the
//! second it expires. It is signed with a secret that only the issuer and the
//! verifier hold.

use vstd::prelude::*;
use std::cmp::Reverse;
use std::collections::BTreeMap;
#[allow(unused_imports)]
use crate::text::{decimal, number_in, rounded_in};

verus! {

/// What a signed token says, claim by claim.
#[derive(Debug, Clone, PartialEq, Eq)]
pub struct RawClaims {
    /// The subject, if there is one and it is text.
    pub sub: Option<String>,
    /// The nick: not there, there but no text, or text.
    pub nick: Option<Option<String>>,
    /// The expiry as it is written, if there is one and it is a number.
    pub exp: Option<String>,
}

/// The contents of optional text.
pub open spec fn text_of(s: Option<String>) -> Option<Seq<char>> {
    match s {
        Some(t) => Some(t@),
        None => None,
    }
}

/// The contents of a claim that may be missing.
pub open spec fn claim_of(s: Option<Option<String>>) -> Option<Option<Seq<char>>> {
    match s {
        Some(t) => Some(text_of(t)),
        None => None,
    }
}

/// The token that `jsonwebtoken` makes of a secret, a subject, a nick and an
/// expiry.
pub uninterp spec fn signed_token(
    secret: Seq<char>,
    sub: Seq<char>,
    nick: Seq<char>,
    exp: u64,
) -> Seq<char>;

/// The subject, nick and expiry that `jsonwebtoken` finds in a token signed with
/// a secret; nothing when the token is not one that this secret signed or carries
/// no expiry. The expiry is given as `serde_json` writes the number.
pub uninterp spec fn signed_claims(secret: Seq<char>, token: Seq<char>) -> Option<
    (Option<Seq<char>>, Option<Option<Seq<char>>>, Option<Seq<char>>),
>;

/// The expiry of a claim that has to be a whole number.
pub open spec fn whole_expiry(exp: Seq<char>) -> Option<u64> {
    match number_in(exp) {
        Some(n) if n <= u64::MAX => Some(n as u64),
        _ => None,
    }
}

/// Who a session token speaks for, and until when: the subject is required, the
/// nick is empty unless it is given, and a fraction of a second is rounded.
pub open spec fn session_claims(secret: Seq<char>, token: Seq<char>) -> Option<
    (Seq<char>, Seq<char>, u64),
> {
    match signed_claims(secret, token) {
        Some((Some(sub), nick, Some(exp))) => match (nick, rounded_in(exp)) {
            (Some(Some(nick)), Some(exp)) => Some((sub, nick, exp)),
            (None, Some(exp)) => Some((sub, Seq::empty(), exp)),
            _ => None,
        },
        _ => None,
    }
}

/// `jsonwebtoken::encode` with the default header, which signs with HMAC SHA-256,
/// on an object of the three claims. Signing takes any secret and any text, so it
/// has no way to fail, and it uses nothing but its arguments. The claims stand in
/// the order subject, nick, expiry, which is that of the alphabet backwards. What was
/// signed with a secret is found again under that secret, the expiry in decimal.
#[verifier::external_body]
pub(crate) fn sign(secret: &str, sub: &str, nick: &str, exp: u64) -> (r: Result<String, String>)
    ensures
        r is Ok,
        r->Ok_0@ == signed_token(secret@, sub@, nick@, exp),
        signed_claims(secret@, r->Ok_0@) == Some(
            (Some(sub@), Some(Some(nick@)), Some(decimal(exp as nat))),
        ),
{
    let mut claims = BTreeMap::new();
    claims.insert(Reverse("sub"), serde_json::Value::from(sub));
    claims.insert(Reverse("nick"), serde_json::Value::from(nick));
    claims.insert(Reverse("exp"), serde_json::Value::from(exp));
    let key = jsonwebtoken::EncodingKey::from_secret(secret.as_bytes());
    jsonwebtoken::encode(&jsonwebtoken::Header::default(), &claims, &key).map_err(|e| e.to_string())
}

/// `jsonwebtoken::decode` for HMAC SHA-256 tokens that carry an expiry, with the
/// comparison of that expiry to the clock switched off, so that the outcome
/// depends on the secret and the token alone.
#[verifier::external_body]
pub(crate) fn open(secret: &str, token: &str) -> (r: Option<RawClaims>)
    ensures
        match r {
            Some(c) => signed_claims(secret@, token@) == Some(
                (text_of(c.sub), claim_of(c.nick), text_of(c.exp)),
            ),
            None => signed_claims(secret@, token@) is None,
        },
{
    let mut rules = jsonwebtoken::Validation::new(jsonwebtoken::Algorithm::HS256);
    rules.leeway = 0;
    rules.validate_exp = false;
    let key = jsonwebtoken::DecodingKey::from_secret(secret.as_bytes());
    let opened = jsonwebtoken::decode::<serde_json::Value>(token, &key, &rules).ok()?;
    Some(RawClaims {
        sub: opened.claims.get("sub").and_then(|v| v.as_str()).map(|s| s.to_owned()),
        nick: opened.claims.get("nick").map(|v| v.as_str().map(|s| s.to_owned())),
        exp: opened.claims.get("exp").and_then(|v| v.as_number()).map(|n| n.to_string()),
    })
}

/// `SystemTime::now`, in whole seconds since the Unix epoch; zero on a clock set
/// before it. What the clock says is not known in advance, so nothing is claimed
/// of the result.
#[verifier::external_body]
pub(crate) fn now_secs() -> (seconds: u64) {
    std::time::SystemTime::now()
        .duration_since(std::time::UNIX_EPOCH)
        .map(|d| d.as_secs())
        .unwrap_or(0)
}

/// The second at which something issued at `now` expires, `lifetime` seconds
/// later.
pub open spec fn expiry(now: u64, lifetime: u64) -> u64 {
    if now + lifetime <= u64::MAX {
        (now + lifetime) as u64
    } else {
        u64::MAX
    }
}

pub fn expiry_at(now: u64, lifetime: u64) -> (exp: u64)
    ensures
        exp == expiry(now, lifetime),
{
    if now <= u64::MAX - lifetime {
        now + lifetime
    } else {
        u64::MAX
    }
}

/// A session token speaks for the subject it names, which it has to; under the nick it
/// gives, or none; until the second it gives, rounded. A nick that is no text spoils
/// it.
pub proof fn law_a_session_token_names_its_subject(secret: Seq<char>, token: Seq<char>)
    ensures
        match signed_claims(secret, token) {
            None => session_claims(secret, token) is None,
            Some((sub, nick, exp)) => {
                let good = sub is Some && exp is Some && rounded_in(exp->0) is Some && nick != Some(
                    None::<Seq<char>>,
                );
                &&& session_claims(secret, token) is Some <==> good
                &&& session_claims(secret, token) matches Some((who, name, until)) ==> {
                    &&& who == sub->0
                    &&& until == rounded_in(exp->0)->0
                    &&& nick is None ==> name.len() == 0
                    &&& nick matches Some(Some(text)) ==> name == text
                }
            },
        },
{
}

} // verus!
