//! Guest identity.
//!
//! A player is a random id generated on first launch and kept on their disk.
//! The backend signs it into a token so the client cannot later claim to be
//! somebody else, which is what makes a skill rating meaningful at all.
//!
//! Two separate secrets are in play. `jwt_secret` signs the long lived player
//! token that the client holds. `api_token` signs the short lived session
//! token that the game server checks at connect time, and it is the only secret
//! the game server knows.

use vstd::prelude::*;
use crate::backend::error::ApiError;
use crate::text::{after_prefix, hex_text, parse_number, trim};
use crate::tokens::{expiry_at, now_secs, open, sign};
#[allow(unused_imports)]
use crate::backend::error::ApiErrorView;
#[allow(unused_imports)]
use crate::text::{
    begins_with, hex_of, law_decimal_reads_back, law_whole_numbers_need_no_rounding, trimmed,
};
#[allow(unused_imports)]
use crate::tokens::{expiry, session_claims, signed_claims, signed_token, whole_expiry};

verus! {

pub const PLAYER_TOKEN_DAYS: u64 = 30;

/// Long enough to survive a slow allocation and a slow first connect, short
/// enough that a leaked token is worthless by the time anyone finds it.
pub const SESSION_TOKEN_MINUTES: u64 = 15;

/// How long a player token lasts, in seconds.
pub const PLAYER_TOKEN_LIFETIME: u64 = 2_592_000;

/// How long a session token lasts, in seconds.
pub const SESSION_TOKEN_LIFETIME: u64 = 900;

#[derive(Debug, Clone, PartialEq, Eq)]
pub struct PlayerClaims {
    pub sub: String,
    pub nick: String,
    pub exp: u64,
}

/// What the game server verifies when a client says hello.
#[derive(Debug, Clone, PartialEq, Eq)]
pub struct SessionClaims {
    pub sub: String,
    pub nick: String,
    pub exp: u64,
}

/// The contents of a set of claims.
#[verifier::ext_equal]
pub struct ClaimsView {
    pub sub: Seq<char>,
    pub nick: Seq<char>,
    pub exp: u64,
}

impl View for PlayerClaims {
    type V = ClaimsView;

    open spec fn view(&self) -> ClaimsView {
        ClaimsView { sub: self.sub@, nick: self.nick@, exp: self.exp }
    }
}

impl View for SessionClaims {
    type V = ClaimsView;

    open spec fn view(&self) -> ClaimsView {
        ClaimsView { sub: self.sub@, nick: self.nick@, exp: self.exp }
    }
}

/// The player claims in a token signed with this secret: all three have to be
/// there.
pub open spec fn player_claims(secret: Seq<char>, token: Seq<char>) -> Option<ClaimsView> {
    match signed_claims(secret, token) {
        Some((Some(sub), Some(Some(nick)), Some(exp))) => match whole_expiry(exp) {
            Some(exp) => Some(ClaimsView { sub, nick, exp }),
            None => None,
        },
        _ => None,
    }
}

/// The claims that still hold at this second: there is no grace on the expiry.
pub open spec fn unexpired(claims: Option<ClaimsView>, now: u64) -> Option<ClaimsView> {
    match claims {
        Some(c) if now <= c.exp => Some(c),
        _ => None,
    }
}

/// What verifying a token comes to, given the claims in it that still hold.
pub open spec fn is_verdict(r: Result<PlayerClaims, ApiError>, good: Option<ClaimsView>) -> bool {
    match r {
        Ok(c) => good == Some(c@),
        Err(e) => e@ == ApiErrorView::Unauthorized && good is None,
    }
}

/// Where the eight random bytes of a guest id come from: `rand::rng`, the
/// thread's generator, seeded by the operating system. The bytes are random, so
/// nothing is claimed of them.
#[verifier::external_body]
fn random_bytes() -> (bytes: [u8; 8]) {
    rand::Rng::random(&mut rand::rng())
}

/// The guest id of eight bytes.
pub open spec fn guest_id_of(bytes: Seq<u8>) -> Seq<char> {
    "gst_"@ + hex_of(bytes)
}

/// `gst_` plus two hex characters per byte.
pub fn guest_id_from(bytes: &[u8]) -> (id: String)
    ensures
        id@ == guest_id_of(bytes@),
{
    let mut id = "gst_".to_owned();
    id.append(hex_text(bytes).as_str());
    id
}

/// `gst_` plus 16 hex characters from the OS generator. Guessing one has to be
/// hopeless: it is the only thing standing between a player and someone else's
/// rating.
pub fn new_guest_id() -> (id: String)
    ensures
        exists|bytes: Seq<u8>| bytes.len() == 8 && id@ == #[trigger] guest_id_of(bytes),
{
    let bytes = random_bytes();
    guest_id_from(&bytes)
}

/// Signs a player token that expires thirty days after `now`.
pub fn issue_player_token_at(secret: &str, player_id: &str, nick: &str, now: u64) -> (r: Result<
    String,
    ApiError,
>)
    ensures
        r is Ok,
        r->Ok_0@ == signed_token(
            secret@,
            player_id@,
            nick@,
            expiry(now, PLAYER_TOKEN_LIFETIME),
        ),
        player_claims(secret@, r->Ok_0@) == Some(
            (ClaimsView {
                sub: player_id@,
                nick: nick@,
                exp: expiry(now, PLAYER_TOKEN_LIFETIME),
            }),
        ),
{
    proof {
        law_decimal_reads_back(expiry(now, PLAYER_TOKEN_LIFETIME) as nat);
    }
    match sign(secret, player_id, nick, expiry_at(now, PLAYER_TOKEN_LIFETIME)) {
        Ok(token) => Ok(token),
        Err(e) => Err(ApiError::Upstream("signing player token: ".to_owned().concat(e.as_str()))),
    }
}

/// Signs a player token that expires thirty days from now.
pub fn issue_player_token(secret: &str, player_id: &str, nick: &str) -> (r: Result<
    String,
    ApiError,
>)
    ensures
        r is Ok,
        exists|now: u64|
            r->Ok_0@ == #[trigger] signed_token(
                secret@,
                player_id@,
                nick@,
                expiry(now, PLAYER_TOKEN_LIFETIME),
            ),
        player_claims(secret@, r->Ok_0@) matches Some(c) && c.sub == player_id@ && c.nick == nick@,
{
    let now: u64 = now_secs();
    issue_player_token_at(secret, player_id, nick, now)
}

/// The player a token speaks for at a given second. There is no grace on the
/// expiry: this process signs and verifies its own tokens, so expired should mean
/// expired.
pub fn verify_player_token_at(secret: &str, token: &str, now: u64) -> (r: Result<
    PlayerClaims,
    ApiError,
>)
    ensures
        is_verdict(r, unexpired(player_claims(secret@, token@), now)),
{
    let claims = match open(secret, token) {
        Some(claims) => claims,
        None => return Err(ApiError::Unauthorized),
    };
    match (claims.sub, claims.nick, claims.exp) {
        (Some(sub), Some(Some(nick)), Some(exp)) => {
            let exp: u64 = match parse_number(exp.as_str(), u64::MAX) {
                Some(exp) => exp,
                None => return Err(ApiError::Unauthorized),
            };
            if exp < now {
                return Err(ApiError::Unauthorized);
            }
            Ok(PlayerClaims { sub, nick, exp })
        },
        _ => Err(ApiError::Unauthorized),
    }
}

/// The player a token speaks for now.
pub fn verify_player_token(secret: &str, token: &str) -> (r: Result<PlayerClaims, ApiError>)
    ensures
        exists|now: u64|
            is_verdict(r, #[trigger] unexpired(player_claims(secret@, token@), now)),
{
    let now: u64 = now_secs();
    verify_player_token_at(secret, token, now)
}

/// Signs a session token that expires a quarter of an hour after `now`.
pub fn issue_session_token_at(api_token: &str, player_id: &str, nick: &str, now: u64) -> (r: Result<
    String,
    ApiError,
>)
    ensures
        r is Ok,
        r->Ok_0@ == signed_token(
            api_token@,
            player_id@,
            nick@,
            expiry(now, SESSION_TOKEN_LIFETIME),
        ),
        session_claims(api_token@, r->Ok_0@) == Some(
            (player_id@, nick@, expiry(now, SESSION_TOKEN_LIFETIME)),
        ),
{
    proof {
        law_whole_numbers_need_no_rounding(expiry(now, SESSION_TOKEN_LIFETIME));
    }
    match sign(api_token, player_id, nick, expiry_at(now, SESSION_TOKEN_LIFETIME)) {
        Ok(token) => Ok(token),
        Err(e) => Err(ApiError::Upstream("signing session token: ".to_owned().concat(e.as_str()))),
    }
}

/// Signs a session token that expires a quarter of an hour from now.
pub fn issue_session_token(api_token: &str, player_id: &str, nick: &str) -> (r: Result<
    String,
    ApiError,
>)
    ensures
        r is Ok,
        exists|now: u64|
            r->Ok_0@ == #[trigger] signed_token(
                api_token@,
                player_id@,
                nick@,
                expiry(now, SESSION_TOKEN_LIFETIME),
            ),
        session_claims(api_token@, r->Ok_0@) matches Some((sub, n, _)) && sub == player_id@ && n
            == nick@,
{
    let now: u64 = now_secs();
    issue_session_token_at(api_token, player_id, nick, now)
}

/// An authenticated player, extracted from the bearer token.
#[derive(Debug, Clone, PartialEq, Eq)]
pub struct Player {
    pub id: String,
    pub nick: String,
}

/// The token in an authorization header: what follows the scheme, trimmed.
pub open spec fn bearer_of(header: Seq<char>) -> Option<Seq<char>> {
    if begins_with(header, "Bearer "@) {
        Some(trimmed(header.skip("Bearer "@.len() as int)))
    } else if begins_with(header, "bearer "@) {
        Some(trimmed(header.skip("bearer "@.len() as int)))
    } else {
        None
    }
}

/// The token in an authorization header.
pub fn bearer_token(header: &str) -> (token: Option<String>)
    ensures
        match token {
            Some(t) => bearer_of(header@) == Some(t@),
            None => bearer_of(header@) is None,
        },
{
    match after_prefix(header, "Bearer ") {
        Some(rest) => Some(trim(rest.as_str())),
        None => match after_prefix(header, "bearer ") {
            Some(rest) => Some(trim(rest.as_str())),
            None => None,
        },
    }
}

/// The player behind the claims in a request's authorization header.
pub open spec fn header_claims(secret: Seq<char>, header: Option<Seq<char>>) -> Option<
    ClaimsView,
> {
    match header {
        Some(h) => match bearer_of(h) {
            Some(token) => player_claims(secret, token),
            None => None,
        },
        None => None,
    }
}

/// The text of an authorization header, where there is one.
pub open spec fn header_text(header: Option<&str>) -> Option<Seq<char>> {
    match header {
        Some(h) => Some(h@),
        None => None,
    }
}

/// What a request's authorization comes to, given the claims that still hold.
pub open spec fn is_admission(r: Result<Player, ApiError>, good: Option<ClaimsView>) -> bool {
    match r {
        Ok(p) => good matches Some(c) && p.id@ == c.sub && p.nick@ == c.nick,
        Err(e) => e@ == ApiErrorView::Unauthorized && good is None,
    }
}

impl Player {
    /// The player a request comes from, by its authorization header, at a given
    /// second. Everyone else is turned away.
    pub fn from_header_at(secret: &str, header: Option<&str>, now: u64) -> (r: Result<
        Player,
        ApiError,
    >)
        ensures
            is_admission(r, unexpired(header_claims(secret@, header_text(header)), now)),
    {
        let header = match header {
            Some(h) => h,
            None => return Err(ApiError::Unauthorized),
        };
        let token = match bearer_token(header) {
            Some(t) => t,
            None => return Err(ApiError::Unauthorized),
        };
        match verify_player_token_at(secret, token.as_str(), now) {
            Ok(claims) => Ok(Player { id: claims.sub, nick: claims.nick }),
            Err(e) => Err(e),
        }
    }

    /// The player a request comes from now.
    pub fn from_header(secret: &str, header: Option<&str>) -> (r: Result<Player, ApiError>)
        ensures
            exists|now: u64|
                is_admission(
                    r,
                    #[trigger] unexpired(header_claims(secret@, header_text(header)), now),
                ),
    {
        let now: u64 = now_secs();
        Player::from_header_at(secret, header, now)
    }
}

proof fn lemma_hex_length(bytes: Seq<u8>)
    ensures
        hex_of(bytes).len() == 2 * bytes.len(),
    decreases bytes.len(),
{
    if bytes.len() > 0 {
        lemma_hex_length(bytes.drop_last());
    }
}

/// A guest id is twenty characters long and begins with its prefix.
pub proof fn law_guest_ids_have_one_shape(bytes: Seq<u8>)
    requires
        bytes.len() == 8,
    ensures
        guest_id_of(bytes).len() == 20,
        begins_with(guest_id_of(bytes), "gst_"@),
{
    reveal_strlit("gst_");
    lemma_hex_length(bytes);
    assert(guest_id_of(bytes).take(4) =~= "gst_"@);
}

/// The lifetimes are what their names say.
pub proof fn law_tokens_last_as_long_as_they_say()
    ensures
        PLAYER_TOKEN_LIFETIME == PLAYER_TOKEN_DAYS * 24 * 3600,
        SESSION_TOKEN_LIFETIME == SESSION_TOKEN_MINUTES * 60,
{
}

/// A token speaks for a player only with all three claims, under the secret that
/// signed it, and up to and including the second it runs out. Otherwise the caller is
/// turned away, and then they are nobody.
pub proof fn law_a_token_holds_until_it_runs_out(
    r: Result<PlayerClaims, ApiError>,
    secret: Seq<char>,
    token: Seq<char>,
    now: u64,
)
    requires
        is_verdict(r, unexpired(player_claims(secret, token), now)),
    ensures
        r is Ok <==> (signed_claims(secret, token) matches Some(
            (Some(_), Some(Some(_)), Some(exp)),
        ) && whole_expiry(exp) is Some && now <= whole_expiry(exp)->0),
        r matches Ok(c) ==> (signed_claims(secret, token) matches Some(
            (Some(sub), Some(Some(nick)), Some(exp)),
        ) && c.sub@ == sub && c.nick@ == nick && whole_expiry(exp) == Some(c.exp) && now <= c.exp),
        r matches Err(e) ==> e@ == ApiErrorView::Unauthorized,
{
}

/// A request is admitted exactly when its header carries a token, after the scheme in
/// either spelling, that still holds; the player is then the one the token names.
pub proof fn law_a_request_is_admitted_by_its_token(
    r: Result<Player, ApiError>,
    secret: Seq<char>,
    header: Option<Seq<char>>,
    now: u64,
)
    requires
        is_admission(r, unexpired(header_claims(secret, header), now)),
    ensures
        header is None ==> r is Err,
        header matches Some(h) && !begins_with(h, "Bearer "@) && !begins_with(h, "bearer "@)
            ==> r is Err,
        r matches Ok(p) ==> exists|token: Seq<char>|
            bearer_of(header->0) == Some(token) && (#[trigger] player_claims(secret, token)
                matches Some(c) && p.id@ == c.sub && p.nick@ == c.nick && now <= c.exp),
        header matches Some(h) && bearer_of(h) matches Some(token) && player_claims(
            secret,
            token,
        ) matches Some(c) && now <= c.exp ==> r is Ok,
        r matches Err(e) ==> e@ == ApiErrorView::Unauthorized,
{
    if r is Ok {
        let token = bearer_of(header->0)->0;
        assert(player_claims(secret, token) is Some);
    }
}

/// What follows the scheme is the token, without the space around it.
pub proof fn law_the_token_follows_the_scheme(token: Seq<char>)
    ensures
        bearer_of("Bearer "@ + token) == Some(trimmed(token)),
        bearer_of("bearer "@ + token) == Some(trimmed(token)),
{
    reveal_strlit("Bearer ");
    reveal_strlit("bearer ");
    let (a, b) = ("Bearer "@, "bearer "@);
    assert(a.len() == 7 && b.len() == 7);
    assert((a + token).take(7) =~= a);
    assert((b + token).take(7) =~= b);
    assert((a + token).skip(7) =~= token);
    assert((b + token).skip(7) =~= token);
    assert((b + token)[0] == 'b');
    assert((b + token).take(7)[0] != a[0]);
}

/// A player token lasts thirty days and a session token a quarter of an hour, counted
/// from the second it was issued.
pub proof fn law_tokens_run_out_on_time(now: u64)
    requires
        now <= u64::MAX - 2_592_000,
    ensures
        expiry(now, PLAYER_TOKEN_LIFETIME) == now + 2_592_000,
        expiry(now, SESSION_TOKEN_LIFETIME) == now + 900,
{
}

} // verus!
