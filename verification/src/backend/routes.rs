//! What every endpoint decides.
//!
//! Five things: hand out an identity, put a player in the queue, tell them when
//! a server is ready, take the match result from the game server, and read back
//! a rating. No game logic lives here.

use vstd::prelude::*;
use vstd::hash_map::StringHashMap;
use vstd::hash_set::StringHashSet;
use crate::backend::auth::{issue_player_token_at, issue_session_token_at, new_guest_id, Player};
use crate::backend::error::{ApiError, ApiResult};
use crate::backend::gameflow::{shape_1v1_report, CreateTicketResponse, ReportTeam, TicketStatus};
use crate::text::{after_prefix, cap, is_control, same, trim};
use crate::tokens::now_secs;
#[allow(unused_imports)]
use crate::backend::auth::{
    guest_id_of, player_claims, ClaimsView, PLAYER_TOKEN_LIFETIME, SESSION_TOKEN_LIFETIME,
};
#[allow(unused_imports)]
use crate::backend::error::ApiErrorView;
#[allow(unused_imports)]
use crate::text::{
    begins_with, capped, control, law_trimming_is_idempotent, trimmed, white_space,
};
#[allow(unused_imports)]
use crate::tokens::{expiry, session_claims, signed_token, text_of};
#[allow(unused_imports)]
use vstd::utf8::encode_utf8;

verus! {

pub const NICK_MAX: usize = 16;

/// How long each poll waits upstream before answering, in seconds. Short enough
/// that the client stays responsive, long enough that we are not hammering the
/// gateway.
pub const POLL_SECONDS: u32 = 15;

/// The length of a guest id, in bytes.
pub const GUEST_ID_LENGTH: usize = 20;

/// Whether a text holds a control character.
pub open spec fn has_control(s: Seq<char>) -> bool {
    exists|i: int| 0 <= i < s.len() && control(#[trigger] s[i])
}

/// The nick a raw one amounts to: trimmed, then cut to its longest length.
pub open spec fn nick_of(raw: Seq<char>) -> Seq<char> {
    capped(trimmed(raw), NICK_MAX as int)
}

/// Why a raw nick is refused, if it is.
pub open spec fn nick_error(raw: Seq<char>) -> Option<ApiErrorView> {
    if nick_of(raw).len() == 0 {
        Some(ApiErrorView::BadRequest("nick cannot be empty"@))
    } else if has_control(nick_of(raw)) {
        Some(ApiErrorView::BadRequest("nick contains invalid characters"@))
    } else {
        None
    }
}

pub fn clean_nick(raw: &str) -> (r: ApiResult<String>)
    ensures
        match r {
            Ok(nick) => nick_error(raw@) is None && nick@ == nick_of(raw@),
            Err(e) => nick_error(raw@) == Some(e@),
        },
{
    let trimmed = trim(raw);
    let nick = cap(trimmed.as_str(), NICK_MAX);
    let n: usize = nick.as_str().unicode_len();
    if n == 0 {
        return Err(ApiError::BadRequest("nick cannot be empty".to_owned()));
    }
    for i in 0..n
        invariant
            n == nick@.len(),
            n > 0,
            nick@ == nick_of(raw@),
            forall|k: int| 0 <= k < i ==> !control(#[trigger] nick@[k]),
    {
        if is_control(nick.as_str().get_char(i)) {
            assert(control(nick@[i as int]));
            return Err(ApiError::BadRequest("nick contains invalid characters".to_owned()));
        }
    }
    Ok(nick)
}

// --- identity ----------------------------------------------------------------

#[derive(Debug, Clone, PartialEq, Eq)]
pub struct GuestRequest {
    pub nick: String,
    /// Present when the player already has an id and only wants a fresh token.
    pub player_id: Option<String>,
}

#[derive(Debug, Clone, PartialEq, Eq)]
pub struct GuestResponse {
    pub player_id: String,
    pub nick: String,
    pub token: String,
}

/// Whether a text has the shape of a guest id.
pub open spec fn looks_like_guest_id(id: Seq<char>) -> bool {
    begins_with(id, "gst_"@) && encode_utf8(id).len() == GUEST_ID_LENGTH
}

pub fn is_guest_id(id: &str) -> (yes: bool)
    ensures
        yes == looks_like_guest_id(id@),
{
    let length: usize = id.as_bytes().len();
    after_prefix(id, "gst_").is_some() && length == GUEST_ID_LENGTH
}

/// The id a request is honoured with, if it brought a proper one.
pub open spec fn honoured_id(req: GuestRequest) -> Option<Seq<char>> {
    match req.player_id {
        Some(id) => if looks_like_guest_id(id@) {
            Some(id@)
        } else {
            None
        },
        None => None,
    }
}

/// Hands out an identity at a given second. An existing id is honoured so a
/// player keeps their rating across token expiry. It is not a security boundary:
/// guest identity never was one. Anyone else becomes `fresh_id`.
pub fn guest_at(jwt_secret: &str, req: GuestRequest, fresh_id: String, now: u64) -> (r: ApiResult<
    GuestResponse,
>)
    ensures
        match r {
            Ok(g) => {
                &&& nick_error(req.nick@) is None
                &&& g.nick@ == nick_of(req.nick@)
                &&& g.player_id@ == (match honoured_id(req) {
                    Some(id) => id,
                    None => fresh_id@,
                })
                &&& g.token@ == signed_token(
                    jwt_secret@,
                    g.player_id@,
                    g.nick@,
                    expiry(now, PLAYER_TOKEN_LIFETIME),
                )
                &&& player_claims(jwt_secret@, g.token@) == Some(
                    (ClaimsView {
                        sub: g.player_id@,
                        nick: g.nick@,
                        exp: expiry(now, PLAYER_TOKEN_LIFETIME),
                    }),
                )
            },
            Err(e) => nick_error(req.nick@) == Some(e@),
        },
{
    let nick = match clean_nick(req.nick.as_str()) {
        Ok(nick) => nick,
        Err(e) => return Err(e),
    };
    let player_id = match req.player_id {
        Some(id) => if is_guest_id(id.as_str()) {
            id
        } else {
            fresh_id
        },
        None => fresh_id,
    };
    match issue_player_token_at(jwt_secret, player_id.as_str(), nick.as_str(), now) {
        Ok(token) => Ok(GuestResponse { player_id, nick, token }),
        Err(e) => Err(e),
    }
}

/// Hands out an identity now.
pub fn guest(jwt_secret: &str, req: GuestRequest) -> (r: ApiResult<GuestResponse>)
    ensures
        match r {
            Ok(g) => {
                &&& nick_error(req.nick@) is None
                &&& g.nick@ == nick_of(req.nick@)
                &&& honoured_id(req) matches Some(id) ==> g.player_id@ == id
                &&& honoured_id(req) is None ==> exists|bytes: Seq<u8>|
                    bytes.len() == 8 && g.player_id@ == #[trigger] guest_id_of(bytes)
                &&& exists|now: u64|
                    g.token@ == #[trigger] signed_token(
                        jwt_secret@,
                        g.player_id@,
                        g.nick@,
                        expiry(now, PLAYER_TOKEN_LIFETIME),
                    )
                &&& player_claims(jwt_secret@, g.token@) matches Some(c) && c.sub == g.player_id@
                    && c.nick == g.nick@
            },
            Err(e) => nick_error(req.nick@) == Some(e@),
        },
{
    let fresh_id = new_guest_id();
    let now: u64 = now_secs();
    guest_at(jwt_secret, req, fresh_id, now)
}

// --- queue -------------------------------------------------------------------

#[derive(Debug, Clone, PartialEq, Eq)]
pub struct QueueResponse {
    pub ticket_id: String,
}

#[derive(Debug, Clone, PartialEq, Eq)]
pub struct TicketResponse {
    /// `searching`, `assigned` or `timeout`.
    pub status: String,
    pub connection: Option<String>,
    /// Presented to the game server at connect time to prove who you are.
    pub session_token: Option<String>,
}

/// The contents of an answer to a poll.
#[verifier::ext_equal]
pub struct TicketView {
    pub status: Seq<char>,
    pub connection: Option<Seq<char>>,
    pub session_token: Option<Seq<char>>,
}

impl View for TicketResponse {
    type V = TicketView;

    open spec fn view(&self) -> TicketView {
        TicketView {
            status: self.status@,
            connection: text_of(self.connection),
            session_token: text_of(self.session_token),
        }
    }
}

/// Open tickets and the millisecond each was created at, by a clock that never
/// goes back, so the queue can time out.
pub struct Queue {
    pub tickets: StringHashMap<u64>,
}

/// How many whole seconds a ticket has been open.
pub open spec fn waited_in(tickets: Map<Seq<char>, u64>, ticket: Seq<char>, now: u64) -> Option<
    u64,
> {
    if tickets.contains_key(ticket) {
        Some(
            if now >= tickets[ticket] {
                ((now - tickets[ticket]) / 1000) as u64
            } else {
                0
            },
        )
    } else {
        None
    }
}

/// What a poll leads to.
#[derive(Debug, Clone, Copy, PartialEq, Eq, Structural)]
pub enum PollStep {
    /// There is a server: hand over its address and a session token.
    Assigned,
    /// Nobody showed up in time: give up rather than leaving the player staring at
    /// a spinner forever. The gateway has to be told.
    TimedOut,
    /// Keep waiting.
    Searching,
}

/// The step for a ticket with this address, that waited this long.
pub open spec fn poll_step(connection: Seq<char>, waited: Option<u64>, timeout: u64) -> PollStep {
    if connection.len() > 0 {
        PollStep::Assigned
    } else if waited matches Some(w) && w >= timeout {
        PollStep::TimedOut
    } else {
        PollStep::Searching
    }
}

/// The answer to a poll.
pub open spec fn poll_answer(
    step: PollStep,
    status: TicketStatus,
    session_token: Seq<char>,
) -> TicketView {
    match step {
        PollStep::Assigned => TicketView {
            status: "assigned"@,
            connection: Some(status.connection@),
            session_token: Some(session_token),
        },
        PollStep::TimedOut => TicketView {
            status: "timeout"@,
            connection: None,
            session_token: None,
        },
        PollStep::Searching => TicketView {
            status: "searching"@,
            connection: None,
            session_token: None,
        },
    }
}

impl Queue {
    pub fn new() -> (q: Queue)
        ensures
            q.tickets@ == Map::<Seq<char>, u64>::empty(),
    {
        Queue { tickets: StringHashMap::new() }
    }

    /// Records a ticket the gateway created.
    pub fn enqueue(&mut self, ticket: CreateTicketResponse, now: u64) -> (r: QueueResponse)
        ensures
            final(self).tickets@ == old(self).tickets@.insert(ticket.ticket_id@, now),
            r.ticket_id@ == ticket.ticket_id@,
    {
        self.tickets.insert(ticket.ticket_id.clone(), now);
        QueueResponse { ticket_id: ticket.ticket_id }
    }

    /// How many whole seconds a ticket has been open.
    pub fn waited(&self, ticket_id: &str, now: u64) -> (seconds: Option<u64>)
        ensures
            seconds == waited_in(self.tickets@, ticket_id@, now),
    {
        match self.tickets.get(ticket_id) {
            Some(since) => Some(
                if now >= *since {
                    (now - *since) / 1000
                } else {
                    0
                },
            ),
            None => None,
        }
    }

    /// Settles a poll: what the player is told, and whether the gateway has to be
    /// told that the ticket is given up. A ticket that is assigned or given up is
    /// forgotten. `waited` is how long the ticket had been open before the gateway
    /// was asked.
    pub fn poll_ticket(
        &mut self,
        ticket_id: &str,
        waited: Option<u64>,
        status: TicketStatus,
        timeout: u64,
        player: &Player,
        api_token: &str,
        now: u64,
    ) -> (r: (TicketResponse, bool))
        ensures
            ({
                let step = poll_step(status.connection@, waited, timeout);
                &&& r.0@ == poll_answer(
                    step,
                    status,
                    signed_token(
                        api_token@,
                        player.id@,
                        player.nick@,
                        expiry(now, SESSION_TOKEN_LIFETIME),
                    ),
                )
                &&& r.1 == (step is TimedOut)
                &&& final(self).tickets@ == (if step is Searching {
                    old(self).tickets@
                } else {
                    old(self).tickets@.remove(ticket_id@)
                })
                &&& r.0@.session_token matches Some(t) ==> session_claims(api_token@, t) == Some(
                    (player.id@, player.nick@, expiry(now, SESSION_TOKEN_LIFETIME)),
                )
            }),
    {
        if !status.connection.as_str().is_empty() {
            self.tickets.remove(ticket_id);
            let token = issue_session_token_at(
                api_token,
                player.id.as_str(),
                player.nick.as_str(),
                now,
            );
            let session_token = match token {
                Ok(token) => Some(token),
                Err(_) => None,
            };
            return (
                TicketResponse {
                    status: "assigned".to_owned(),
                    connection: Some(status.connection),
                    session_token,
                },
                false,
            );
        }
        let overdue = match waited {
            Some(w) => w >= timeout,
            None => false,
        };
        if overdue {
            self.tickets.remove(ticket_id);
            return (
                TicketResponse {
                    status: "timeout".to_owned(),
                    connection: None,
                    session_token: None,
                },
                true,
            );
        }
        (
            TicketResponse {
                status: "searching".to_owned(),
                connection: None,
                session_token: None,
            },
            false,
        )
    }

    /// Forgets a ticket the player gave up.
    pub fn cancel(&mut self, ticket_id: &str) -> (status: &'static str)
        ensures
            final(self).tickets@ == old(self).tickets@.remove(ticket_id@),
            status@ == "cancelled"@,
    {
        self.tickets.remove(ticket_id);
        "cancelled"
    }
}

// --- match result ------------------------------------------------------------

#[derive(Debug, Clone, PartialEq, Eq)]
pub struct ResultPlayer {
    pub player_id: String,
    pub nick: String,
    pub score: u32,
    /// False when the slot never connected or walked out. Such a match is not
    /// rated: it says nothing about anybody's skill.
    pub present: bool,
}

/// A player is present unless the result says otherwise.
#[verifier::allow_in_spec]
pub fn default_true() -> bool
    returns
        true,
{
    true
}

#[derive(Debug, Clone, PartialEq, Eq)]
pub struct MatchResultRequest {
    pub match_id: String,
    pub players: Vec<ResultPlayer>,
    /// Slot of the winner, or `None` on a draw.
    pub winner_slot: Option<u8>,
}

/// What a posted result leads to.
#[derive(Debug, Clone, PartialEq, Eq)]
pub enum ResultStep {
    /// The answer is known already.
    Answer(&'static str),
    /// Rate the match: teams, winner first, and their ranks.
    Report(Vec<ReportTeam>, Vec<i32>),
}

/// Match ids already reported, so a server retry cannot rate a match twice.
pub struct Reports {
    pub reported: StringHashSet,
}

/// Why a posted result is refused, if it is: only the game server may post one,
/// and it has to be of two players.
pub open spec fn result_error(
    api_token: Seq<char>,
    presented: Seq<char>,
    players: int,
) -> Option<ApiErrorView> {
    if presented.len() == 0 || presented != api_token {
        Some(ApiErrorView::Forbidden)
    } else if players != 2 {
        Some(ApiErrorView::BadRequest("a 1v1 result needs two players"@))
    } else {
        None
    }
}

/// Whether everyone was there.
pub open spec fn all_present(players: Seq<ResultPlayer>) -> bool {
    forall|i: int| 0 <= i < players.len() ==> (#[trigger] players[i]).present
}

/// What an accepted result leads to: a repeated one is acknowledged, one with an
/// absent player is not rated, and any other one is reported.
pub open spec fn is_result_step(step: ResultStep, seen: bool, req: MatchResultRequest) -> bool {
    if seen {
        step matches ResultStep::Answer(a) && a@ == "already_reported"@
    } else if !all_present(req.players@) {
        step matches ResultStep::Answer(a) && a@ == "not_rated"@
    } else {
        let (p0, p1) = (req.players@[0], req.players@[1]);
        let first = req.winner_slot is None || req.winner_slot == Some(0u8);
        step matches ResultStep::Report(teams, ranks) && {
            &&& teams@.len() == 2
            &&& first ==> teams@[0].is_solo(p0.player_id@, p0.nick@) && teams@[1].is_solo(
                p1.player_id@,
                p1.nick@,
            )
            &&& !first ==> teams@[0].is_solo(p1.player_id@, p1.nick@) && teams@[1].is_solo(
                p0.player_id@,
                p0.nick@,
            )
            &&& ranks@ == (if req.winner_slot is None {
                seq![1i32, 1i32]
            } else {
                seq![1i32, 2i32]
            })
        }
    }
}

impl Reports {
    pub fn new() -> (r: Reports)
        ensures
            r.reported@ == Set::<Seq<char>>::empty(),
    {
        Reports { reported: StringHashSet::new() }
    }

    /// Takes a result. Called by the game server, never by a client: guarded by
    /// the shared internal token, and idempotent per match so a server retry
    /// cannot rate a match twice. An accepted match counts as reported from here
    /// on.
    pub fn match_result(
        &mut self,
        api_token: &str,
        presented: Option<&str>,
        req: &MatchResultRequest,
    ) -> (r: ApiResult<ResultStep>)
        ensures
            ({
                let shown = match presented {
                    Some(p) => p@,
                    None => Seq::<char>::empty(),
                };
                let seen = old(self).reported@.contains(req.match_id@);
                match r {
                    Err(e) => {
                        &&& result_error(api_token@, shown, req.players@.len() as int) == Some(e@)
                        &&& final(self).reported@ == old(self).reported@
                    },
                    Ok(step) => {
                        &&& result_error(api_token@, shown, req.players@.len() as int) is None
                        &&& is_result_step(step, seen, *req)
                        &&& final(self).reported@ == old(self).reported@.insert(req.match_id@)
                    },
                }
            }),
    {
        let shown = match presented {
            Some(p) => p,
            None => {
                return Err(ApiError::Forbidden);
            },
        };
        if shown.is_empty() || !same(shown, api_token) {
            return Err(ApiError::Forbidden);
        }
        if req.players.len() != 2 {
            return Err(ApiError::BadRequest("a 1v1 result needs two players".to_owned()));
        }
        if !self.reported.insert(req.match_id.clone()) {
            return Ok(ResultStep::Answer("already_reported"));
        }
        let p0 = &req.players[0];
        let p1 = &req.players[1];
        if !p0.present || !p1.present {
            assert(!all_present(req.players@)) by {
                assert(!req.players@[0].present || !req.players@[1].present);
            }
            return Ok(ResultStep::Answer("not_rated"));
        }
        let (teams, ranks) = shape_1v1_report(
            (p0.player_id.as_str(), p0.nick.as_str(), p0.score),
            (p1.player_id.as_str(), p1.nick.as_str(), p1.score),
            req.winner_slot,
        );
        Ok(ResultStep::Report(teams, ranks))
    }

    /// Closes a report the gateway answered. On a failure the match no longer
    /// counts as reported, so that the server can retry.
    pub fn close_report(&mut self, match_id: &str, outcome: Result<(), ApiError>) -> (r: ApiResult<
        &'static str,
    >)
        ensures
            match outcome {
                Ok(_) => r matches Ok(s) && s@ == "reported"@ && final(self).reported@ == old(
                    self,
                ).reported@,
                Err(e) => r == Err::<&'static str, ApiError>(e) && final(self).reported@ == old(
                    self,
                ).reported@.remove(match_id@),
            },
    {
        match outcome {
            Ok(_) => Ok("reported"),
            Err(e) => {
                self.reported.remove(match_id);
                Err(e)
            },
        }
    }
}

/// What the health check answers.
pub fn healthz() -> (status: &'static str)
    ensures
        status@ == "ok"@,
{
    "ok"
}

/// A cleaned nick has at most sixteen characters, is not empty, has no white
/// space in front and no control characters.
pub proof fn law_a_clean_nick_is_presentable(raw: Seq<char>)
    requires
        nick_error(raw) is None,
    ensures
        0 < nick_of(raw).len() <= NICK_MAX,
        !white_space(nick_of(raw)[0]),
        !has_control(nick_of(raw)),
{
    law_trimming_is_idempotent(raw);
}

/// A match is rated at most once: once a result was accepted for it, every later
/// one is only acknowledged, unless the report failed.
pub proof fn law_a_match_is_rated_once(
    step: ResultStep,
    reported: Set<Seq<char>>,
    req: MatchResultRequest,
)
    requires
        is_result_step(step, reported.insert(req.match_id@).contains(req.match_id@), req),
    ensures
        step is Answer,
        !reported.insert(req.match_id@).remove(req.match_id@).contains(req.match_id@),
{
}

/// An absent player keeps a match from being rated.
pub proof fn law_an_absent_player_is_never_rated(
    step: ResultStep,
    seen: bool,
    req: MatchResultRequest,
    slot: int,
)
    requires
        is_result_step(step, seen, req),
        0 <= slot < req.players@.len(),
        !req.players@[slot].present,
    ensures
        step is Answer,
{
}

/// A player is told to connect exactly when there is somewhere to connect to, and
/// then gets both the address and a token.
pub proof fn law_an_assignment_is_complete(
    connection: Seq<char>,
    waited: Option<u64>,
    timeout: u64,
    status: TicketStatus,
    token: Seq<char>,
)
    requires
        status.connection@ == connection,
    ensures
        ({
            let step = poll_step(connection, waited, timeout);
            let answer = poll_answer(step, status, token);
            &&& connection.len() > 0 <==> step is Assigned
            &&& step is Assigned ==> answer.connection == Some(connection)
                && answer.session_token == Some(token)
            &&& !(step is Assigned) ==> answer.connection is None && answer.session_token is None
        }),
{
}

/// A poll is answered `searching`, `assigned` or `timeout`, whatever the gateway
/// calls it.
pub proof fn law_a_poll_has_three_answers(
    waited: Option<u64>,
    timeout: u64,
    status: TicketStatus,
    token: Seq<char>,
)
    ensures
        ({
            let step = poll_step(status.connection@, waited, timeout);
            poll_answer(step, status, token).status == match step {
                PollStep::Assigned => "assigned"@,
                PollStep::TimedOut => "timeout"@,
                PollStep::Searching => "searching"@,
            }
        }),
{
}

/// A nick is what is left of the raw one without the space around it, up to sixteen
/// characters. It is refused exactly when nothing is left or a control character is
/// among what is left, and the refusal says which.
pub proof fn law_a_nick_is_refused_for_what_is_left_of_it(raw: Seq<char>)
    ensures
        ({
            let (core, nick) = (trimmed(raw), nick_of(raw));
            let bad = exists|i: int| 0 <= i < nick.len() && control(#[trigger] nick[i]);
            &&& nick.len() == (if core.len() <= 16 {
                core.len()
            } else {
                16
            })
            &&& forall|i: int| 0 <= i < nick.len() ==> #[trigger] nick[i] == core[i]
            &&& nick_error(raw) is None <==> core.len() > 0 && !bad
            &&& core.len() == 0 ==> nick_error(raw) == Some(
                ApiErrorView::BadRequest("nick cannot be empty"@),
            )
            &&& core.len() > 0 && bad ==> nick_error(raw) == Some(
                ApiErrorView::BadRequest("nick contains invalid characters"@),
            )
        }),
{
}

/// An id is honoured exactly when it begins like a guest id and is twenty bytes long.
pub proof fn law_only_a_proper_id_is_honoured(req: GuestRequest)
    ensures
        honoured_id(req) is Some <==> (req.player_id matches Some(id) && begins_with(id@, "gst_"@)
            && encode_utf8(id@).len() == 20),
        honoured_id(req) matches Some(id) ==> (req.player_id matches Some(own) && own@ == id),
{
}

/// A poll finds a server when there is an address, gives up when the ticket has been
/// open for the whole timeout without one, and otherwise waits. A ticket nobody knows
/// never times out. Its age counts in whole seconds.
pub proof fn law_a_ticket_waits_for_its_timeout(
    tickets: Map<Seq<char>, u64>,
    ticket: Seq<char>,
    now: u64,
    connection: Seq<char>,
    timeout: u64,
)
    ensures
        ({
            let waited = waited_in(tickets, ticket, now);
            let step = poll_step(connection, waited, timeout);
            &&& waited is Some <==> tickets.contains_key(ticket)
            &&& tickets.contains_key(ticket) && now >= tickets[ticket] ==> waited->0 * 1000 <= now
                - tickets[ticket] < waited->0 * 1000 + 1000
            &&& tickets.contains_key(ticket) && now < tickets[ticket] ==> waited == Some(0u64)
            &&& step is Assigned <==> connection.len() > 0
            &&& step is TimedOut <==> connection.len() == 0 && tickets.contains_key(ticket)
                && waited->0 >= timeout
            &&& step is Searching <==> connection.len() == 0 && !(tickets.contains_key(ticket)
                && waited->0 >= timeout)
        }),
{
}

/// A result is accepted exactly from whoever presents the shared token, and of two
/// players. Without a token nobody is let in, even if none is set.
pub proof fn law_only_the_game_server_posts_results(
    api_token: Seq<char>,
    presented: Seq<char>,
    players: int,
)
    ensures
        result_error(api_token, presented, players) is None <==> presented == api_token
            && presented.len() > 0 && players == 2,
        presented != api_token || presented.len() == 0 ==> result_error(
            api_token,
            presented,
            players,
        ) == Some(ApiErrorView::Forbidden),
        presented == api_token && presented.len() > 0 && players != 2 ==> result_error(
            api_token,
            presented,
            players,
        ) == Some(ApiErrorView::BadRequest("a 1v1 result needs two players"@)),
{
}

/// A new result of two players who were there is rated: two teams of one, the winner
/// first with rank one and the other with rank two, or both with rank one on a draw.
pub proof fn law_the_winner_is_ranked_first(step: ResultStep, req: MatchResultRequest)
    requires
        is_result_step(step, false, req),
        req.players@.len() == 2,
        req.players@[0].present,
        req.players@[1].present,
        req.winner_slot matches Some(w) ==> w < 2,
    ensures
        step is Report,
        ({
            let (teams, ranks) = (step->Report_0@, step->Report_1@);
            let best = match req.winner_slot {
                Some(w) => w as int,
                None => 0,
            };
            let (a, b) = (req.players@[best], req.players@[1 - best]);
            &&& teams.len() == 2 && teams[0].players@.len() == 1 && teams[1].players@.len() == 1
            &&& teams[0].players@[0].external_player_id@ == a.player_id@
            &&& teams[0].players@[0].display_name@ == a.nick@
            &&& teams[1].players@[0].external_player_id@ == b.player_id@
            &&& teams[1].players@[0].display_name@ == b.nick@
            &&& ranks.len() == 2 && ranks[0] == 1
            &&& ranks[1] == 1 <==> req.winner_slot is None
            &&& ranks[1] == 2 <==> req.winner_slot is Some
        }),
{
    assert(all_present(req.players@));
}

/// A result heard before is only acknowledged, and one with somebody missing is only
/// noted.
pub proof fn law_other_results_are_not_rated(step: ResultStep, seen: bool, req: MatchResultRequest)
    requires
        is_result_step(step, seen, req),
        req.players@.len() == 2,
    ensures
        seen ==> (step matches ResultStep::Answer(a) && a@ == "already_reported"@),
        !seen && !(req.players@[0].present && req.players@[1].present) ==> (step matches
            ResultStep::Answer(a) && a@ == "not_rated"@),
{
}

} // verus!
