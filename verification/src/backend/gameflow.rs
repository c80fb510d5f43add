//! What is sent to the GameFlow gateway.
//!
//! The paths and the reports are shaped here; the key that goes with every call
//! is only ever added where the call is made.

use vstd::prelude::*;
use crate::backend::error::ApiError;
#[allow(unused_imports)]
use crate::backend::error::ApiErrorView;

verus! {

#[derive(Debug, Clone, PartialEq, Eq)]
pub struct ReportPlayer {
    pub external_player_id: String,
    pub display_name: String,
}

#[derive(Debug, Clone, PartialEq, Eq)]
pub struct ReportTeam {
    pub players: Vec<ReportPlayer>,
}

impl ReportTeam {
    /// A team of one.
    pub open spec fn is_solo(&self, id: Seq<char>, nick: Seq<char>) -> bool {
        &&& self.players@.len() == 1
        &&& self.players@[0].external_player_id@ == id
        &&& self.players@[0].display_name@ == nick
    }
}

fn solo(id: &str, nick: &str) -> (team: ReportTeam)
    ensures
        team.is_solo(id@, nick@),
{
    let mut players: Vec<ReportPlayer> = Vec::new();
    players.push(
        ReportPlayer { external_player_id: id.to_owned(), display_name: nick.to_owned() },
    );
    ReportTeam { players }
}

/// Builds the teams and ranks for a finished 1v1.
///
/// Two teams of one, ordered so the winner comes first. A draw is expressed as
/// two equal ranks, which is what the rating engine expects.
pub fn shape_1v1_report(
    p0: (&str, &str, u32),
    p1: (&str, &str, u32),
    winner: Option<u8>,
) -> (report: (Vec<ReportTeam>, Vec<i32>))
    ensures
        report.0@.len() == 2,
        winner is None || winner == Some(0u8) ==> report.0@[0].is_solo(p0.0@, p0.1@)
            && report.0@[1].is_solo(p1.0@, p1.1@),
        winner is Some && winner != Some(0u8) ==> report.0@[0].is_solo(p1.0@, p1.1@)
            && report.0@[1].is_solo(p0.0@, p0.1@),
        report.1@ == (if winner is None {
            seq![1i32, 1i32]
        } else {
            seq![1i32, 2i32]
        }),
{
    let mut teams: Vec<ReportTeam> = Vec::new();
    let mut ranks: Vec<i32> = Vec::new();
    match winner {
        Some(0) => {
            teams.push(solo(p0.0, p0.1));
            teams.push(solo(p1.0, p1.1));
            ranks.push(1);
            ranks.push(2);
        },
        Some(_) => {
            teams.push(solo(p1.0, p1.1));
            teams.push(solo(p0.0, p0.1));
            ranks.push(1);
            ranks.push(2);
        },
        None => {
            teams.push(solo(p0.0, p0.1));
            teams.push(solo(p1.0, p1.1));
            ranks.push(1);
            ranks.push(1);
        },
    }
    (teams, ranks)
}

/// An HTTP method.
#[derive(Debug, Clone, Copy, PartialEq, Eq, Structural)]
pub enum Method {
    Get,
    Post,
    Delete,
}

/// What is asked of the gateway.
#[derive(Debug, Clone, PartialEq, Eq)]
pub enum GatewayCall {
    CreateTicket,
    /// Long polls the ticket: how many seconds the gateway holds the request open
    /// before answering with whatever it has.
    TicketStatus { ticket_id: String, timeout_secs: u32 },
    CancelTicket { ticket_id: String },
    ReportMatch,
    ResolveRating,
}

/// A call to the gateway, short of its body.
#[derive(Debug, Clone, PartialEq, Eq)]
pub struct GatewayRequest {
    pub method: Method,
    pub url: String,
    /// What goes into the query as `timeoutSeconds`, if anything does.
    pub timeout_secs: Option<u32>,
}

impl GatewayCall {
    pub open spec fn spec_method(self) -> Method {
        match self {
            GatewayCall::CreateTicket => Method::Post,
            GatewayCall::TicketStatus { .. } => Method::Get,
            GatewayCall::CancelTicket { .. } => Method::Delete,
            GatewayCall::ReportMatch => Method::Post,
            GatewayCall::ResolveRating => Method::Post,
        }
    }

    /// The path of a call, below the gateway's own.
    pub open spec fn path(self) -> Seq<char> {
        match self {
            GatewayCall::CreateTicket => "/matchmaking/tickets"@,
            GatewayCall::TicketStatus { ticket_id, .. } => "/matchmaking/tickets/"@ + ticket_id@
                + "/status"@,
            GatewayCall::CancelTicket { ticket_id } => "/matchmaking/tickets/"@ + ticket_id@,
            GatewayCall::ReportMatch => "/skill-rating/matches:report"@,
            GatewayCall::ResolveRating => "/skill-rating/player-rating:resolve"@,
        }
    }

    pub open spec fn hold(self) -> Option<u32> {
        match self {
            GatewayCall::TicketStatus { timeout_secs, .. } => Some(timeout_secs),
            _ => None,
        }
    }

    /// Method, address and query of a call.
    pub fn request(&self, api_url: &str) -> (r: GatewayRequest)
        ensures
            r.method == self.spec_method(),
            r.url@ == api_url@ + self.path(),
            r.timeout_secs == self.hold(),
    {
        let (method, path, timeout_secs) = match self {
            GatewayCall::CreateTicket => (Method::Post, "/matchmaking/tickets".to_owned(), None),
            GatewayCall::TicketStatus { ticket_id, timeout_secs } => {
                let mut path = "/matchmaking/tickets/".to_owned();
                path.append(ticket_id.as_str());
                path.append("/status");
                (Method::Get, path, Some(*timeout_secs))
            },
            GatewayCall::CancelTicket { ticket_id } => {
                let mut path = "/matchmaking/tickets/".to_owned();
                path.append(ticket_id.as_str());
                (Method::Delete, path, None)
            },
            GatewayCall::ReportMatch => (
                Method::Post,
                "/skill-rating/matches:report".to_owned(),
                None,
            ),
            GatewayCall::ResolveRating => (
                Method::Post,
                "/skill-rating/player-rating:resolve".to_owned(),
                None,
            ),
        };
        let mut url = api_url.to_owned();
        url.append(path.as_str());
        GatewayRequest { method, url, timeout_secs }
    }
}

/// What the gateway says of a ticket it created.
#[derive(Debug, Clone, PartialEq, Eq)]
pub struct CreateTicketResponse {
    pub ticket_id: String,
    pub status: String,
}

/// What the gateway says of a ticket it was asked about.
#[derive(Debug, Clone, PartialEq, Eq)]
pub struct TicketStatus {
    pub ticket_id: String,
    pub status: String,
    /// `host:port` once the match is assigned.
    pub connection: String,
}

/// What a gateway answer amounts to: the body of a success, or a failure that
/// says what came back.
pub open spec fn gateway_outcome(status: int, status_line: Seq<char>, body: Seq<char>) -> Result<
    Seq<char>,
    Seq<char>,
> {
    if 200 <= status < 300 {
        Ok(body)
    } else {
        Err("status "@ + status_line + ": "@ + body)
    }
}

/// Judges a gateway answer by its status. `status_line` is the status as text.
pub fn judge_answer(status: u16, status_line: &str, body: String) -> (r: Result<
    String,
    ApiError,
>)
    ensures
        match r {
            Ok(b) => gateway_outcome(status as int, status_line@, body@) == Ok::<_, Seq<char>>(b@),
            Err(e) => gateway_outcome(status as int, status_line@, body@) matches Err(m) && e@
                == ApiErrorView::Upstream(m),
        },
{
    if 200 <= status && status < 300 {
        Ok(body)
    } else {
        let mut detail = "status ".to_owned();
        detail.append(status_line);
        detail.append(": ");
        detail.append(body.as_str());
        Err(ApiError::Upstream(detail))
    }
}

/// Every call has its method and its path; asking about a ticket and cancelling it
/// name the ticket, and only asking is held open.
pub proof fn law_every_call_has_its_address(ticket: String, seconds: u32)
    ensures
        GatewayCall::CreateTicket.spec_method() is Post,
        GatewayCall::CreateTicket.path() == "/matchmaking/tickets"@,
        GatewayCall::CreateTicket.hold() is None,
        ({
            let ask = GatewayCall::TicketStatus { ticket_id: ticket, timeout_secs: seconds };
            &&& ask.spec_method() is Get
            &&& ask.path() == "/matchmaking/tickets/"@ + ticket@ + "/status"@
            &&& ask.hold() == Some(seconds)
        }),
        ({
            let cancel = GatewayCall::CancelTicket { ticket_id: ticket };
            &&& cancel.spec_method() is Delete
            &&& cancel.path() == "/matchmaking/tickets/"@ + ticket@
            &&& cancel.hold() is None
        }),
        GatewayCall::ReportMatch.spec_method() is Post,
        GatewayCall::ReportMatch.path() == "/skill-rating/matches:report"@,
        GatewayCall::ReportMatch.hold() is None,
        GatewayCall::ResolveRating.spec_method() is Post,
        GatewayCall::ResolveRating.path() == "/skill-rating/player-rating:resolve"@,
        GatewayCall::ResolveRating.hold() is None,
{
}

/// A gateway answer counts exactly when its status is in the two hundreds; the body
/// is then handed on, and otherwise becomes part of the complaint.
pub proof fn law_only_success_counts(status: int, line: Seq<char>, body: Seq<char>)
    ensures
        gateway_outcome(status, line, body) is Ok <==> 200 <= status <= 299,
        gateway_outcome(status, line, body) matches Ok(b) ==> b == body,
        gateway_outcome(status, line, body) matches Err(m) ==> m == "status "@ + line + ": "@
            + body,
{
}

} // verus!
