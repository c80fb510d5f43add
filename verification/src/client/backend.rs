//! Talking to our own backend.
//!
//! What the UI asks for, the HTTP call it takes, and what the answer means. The
//! calls themselves are made elsewhere, off the game loop.

use vstd::prelude::*;
use crate::text::same;
#[allow(unused_imports)]
use crate::tokens::text_of;

verus! {

/// What the UI asks the backend to do.
#[derive(Debug, Clone, PartialEq, Eq)]
pub enum Request {
    /// Create or refresh a guest identity.
    Guest { nick: String, player_id: Option<String> },
    Enqueue,
    Poll { ticket_id: String },
    Cancel { ticket_id: String },
    Rating,
}

/// What came back.
#[derive(Debug, Clone, PartialEq, Eq)]
pub enum Reply {
    Identity { player_id: String, nick: String, token: String },
    Queued { ticket_id: String },
    Searching,
    Assigned { connection: String, session_token: String },
    QueueTimedOut,
    Cancelled,
    /// Points are the rating on the scale the player is shown.
    Rating { found: bool, points: i64, matches: i64 },
    Failed { what: &'static str, message: String },
}

#[derive(Debug, Clone, PartialEq, Eq)]
pub struct GuestReply {
    pub player_id: String,
    pub nick: String,
    pub token: String,
}

#[derive(Debug, Clone, PartialEq, Eq)]
pub struct QueueReply {
    pub ticket_id: String,
}

#[derive(Debug, Clone, PartialEq, Eq)]
pub struct TicketReply {
    pub status: String,
    pub connection: Option<String>,
    pub session_token: Option<String>,
}

#[derive(Debug, Clone, PartialEq, Eq)]
pub struct RatingReply {
    pub found: bool,
    pub points: i64,
    pub matches: i64,
}

/// The player's token, once we have one.
#[derive(Debug, Clone, PartialEq, Eq)]
pub struct Session {
    pub token: String,
    pub player_id: String,
    pub nick: String,
}

impl Default for Session {
    fn default() -> (s: Session)
        ensures
            s.token@.len() == 0,
            s.player_id@.len() == 0,
            s.nick@.len() == 0,
    {
        Session { token: String::new(), player_id: String::new(), nick: String::new() }
    }
}

#[derive(Debug, Clone, Copy, PartialEq, Eq, Structural)]
pub enum Method {
    Get,
    Post,
    Delete,
}

/// What a call carries.
#[derive(Debug, Clone, PartialEq, Eq)]
pub enum CallBody {
    Nothing,
    /// An empty object.
    EmptyObject,
    Guest { nick: String, player_id: Option<String> },
}

/// An HTTP call.
#[derive(Debug, Clone, PartialEq, Eq)]
pub struct Call {
    pub method: Method,
    pub url: String,
    /// The token to present, if any.
    pub bearer: Option<String>,
    pub body: CallBody,
}

/// Where a request goes.
pub open spec fn url_of(base: Seq<char>, request: Request) -> Seq<char> {
    match request {
        Request::Guest { .. } => base + "/auth/guest"@,
        Request::Enqueue => base + "/queue"@,
        Request::Poll { ticket_id } => base + "/queue/"@ + ticket_id@,
        Request::Cancel { ticket_id } => base + "/queue/"@ + ticket_id@,
        Request::Rating => base + "/me/rating"@,
    }
}

pub open spec fn method_of(request: Request) -> Method {
    match request {
        Request::Guest { .. } => Method::Post,
        Request::Enqueue => Method::Post,
        Request::Poll { .. } => Method::Get,
        Request::Cancel { .. } => Method::Delete,
        Request::Rating => Method::Get,
    }
}

/// The token a request presents. A guest has none yet, and an empty one is not
/// posted.
pub open spec fn bearer_of(token: Seq<char>, request: Request) -> Option<Seq<char>> {
    match request {
        Request::Guest { .. } => None,
        Request::Enqueue => if token.len() == 0 {
            None
        } else {
            Some(token)
        },
        _ => Some(token),
    }
}

/// What a request carries.
pub open spec fn carries(body: CallBody, request: Request) -> bool {
    match request {
        Request::Guest { nick, player_id } => body matches CallBody::Guest {
            nick: n,
            player_id: p,
        } && n@ == nick@ && text_of(p) == text_of(player_id),
        Request::Enqueue => body is EmptyObject,
        _ => body is Nothing,
    }
}

impl Call {
    /// Whether this is the call a request takes.
    pub open spec fn is_for(&self, base: Seq<char>, token: Seq<char>, request: Request) -> bool {
        &&& self.method == method_of(request)
        &&& self.url@ == url_of(base, request)
        &&& text_of(self.bearer) == bearer_of(token, request)
        &&& carries(self.body, request)
    }
}

fn joined(base: &str, path: &str) -> (url: String)
    ensures
        url@ == base@ + path@,
{
    let mut url = base.to_owned();
    url.append(path);
    url
}

/// The call a request takes.
pub fn plan_call(base: &str, token: &str, request: &Request) -> (call: Call)
    ensures
        call.is_for(base@, token@, *request),
{
    match request {
        Request::Guest { nick, player_id } => {
            let known = match player_id {
                Some(id) => Some(id.clone()),
                None => None,
            };
            Call {
                method: Method::Post,
                url: joined(base, "/auth/guest"),
                bearer: None,
                body: CallBody::Guest { nick: nick.clone(), player_id: known },
            }
        },
        Request::Enqueue => {
            let bearer = if token.is_empty() {
                None
            } else {
                Some(token.to_owned())
            };
            Call {
                method: Method::Post,
                url: joined(base, "/queue"),
                bearer,
                body: CallBody::EmptyObject,
            }
        },
        Request::Poll { ticket_id } => {
            let mut url = joined(base, "/queue/");
            url.append(ticket_id.as_str());
            Call {
                method: Method::Get,
                url,
                bearer: Some(token.to_owned()),
                body: CallBody::Nothing,
            }
        },
        Request::Cancel { ticket_id } => {
            let mut url = joined(base, "/queue/");
            url.append(ticket_id.as_str());
            Call {
                method: Method::Delete,
                url,
                bearer: Some(token.to_owned()),
                body: CallBody::Nothing,
            }
        },
        Request::Rating => Call {
            method: Method::Get,
            url: joined(base, "/me/rating"),
            bearer: Some(token.to_owned()),
            body: CallBody::Nothing,
        },
    }
}

/// What an HTTP answer amounts to: its body, or its status and its body as an
/// error.
pub fn finish(status: u16, status_line: &str, body: String) -> (r: Result<String, String>)
    ensures
        match r {
            Ok(b) => 200 <= status < 300 && b@ == body@,
            Err(m) => !(200 <= status < 300) && m@ == status_line@ + ": "@ + body@,
        },
{
    if 200 <= status && status < 300 {
        Ok(body)
    } else {
        let mut message = status_line.to_owned();
        message.append(": ");
        message.append(body.as_str());
        Err(message)
    }
}

/// An answer, read: what it says, or why there is none.
#[derive(Debug, PartialEq, Eq)]
pub enum Answer {
    Guest(Result<GuestReply, String>),
    Queue(Result<QueueReply, String>),
    Ticket(Result<TicketReply, String>),
    /// A cancellation is not waited for.
    Cancelled,
    Rating(Result<RatingReply, String>),
}

/// Whether a reply says that something failed, and how.
pub open spec fn is_failure(reply: Reply, what: Seq<char>, message: Seq<char>) -> bool {
    reply matches Reply::Failed { what: w, message: m } && w@ == what && m@ == message
}

/// Whether a reply is what a ticket's state amounts to. Assigned without the
/// pieces needed to connect would strand the player on a spinner, so it counts as
/// a failure.
pub open spec fn settles_ticket(reply: Reply, t: TicketReply) -> bool {
    if t.status@ == "assigned"@ {
        match (t.connection, t.session_token) {
            (Some(c), Some(s)) => reply matches Reply::Assigned { connection, session_token }
                && connection@ == c@ && session_token@ == s@,
            _ => is_failure(
                reply,
                "queue"@,
                "the server was assigned without a connection"@,
            ),
        }
    } else if t.status@ == "timeout"@ {
        reply is QueueTimedOut
    } else {
        reply is Searching
    }
}

/// Whether a reply is what an answer amounts to.
pub open spec fn settles(reply: Reply, answer: Answer) -> bool {
    match answer {
        Answer::Guest(Ok(r)) => reply matches Reply::Identity { player_id, nick, token }
            && player_id@ == r.player_id@ && nick@ == r.nick@ && token@ == r.token@,
        Answer::Guest(Err(m)) => is_failure(reply, "identity"@, m@),
        Answer::Queue(Ok(r)) => reply matches Reply::Queued { ticket_id } && ticket_id@
            == r.ticket_id@,
        Answer::Queue(Err(m)) => is_failure(reply, "queue"@, m@),
        Answer::Ticket(Ok(t)) => settles_ticket(reply, t),
        Answer::Ticket(Err(m)) => is_failure(reply, "queue"@, m@),
        Answer::Cancelled => reply is Cancelled,
        Answer::Rating(Ok(r)) => reply == (Reply::Rating {
            found: r.found,
            points: r.points,
            matches: r.matches,
        }),
        Answer::Rating(Err(m)) => is_failure(reply, "rating"@, m@),
    }
}

fn settle_ticket(t: TicketReply) -> (reply: Reply)
    ensures
        settles_ticket(reply, t),
{
    if same(t.status.as_str(), "assigned") {
        match (t.connection, t.session_token) {
            (Some(connection), Some(session_token)) => Reply::Assigned {
                connection,
                session_token,
            },
            _ => Reply::Failed {
                what: "queue",
                message: "the server was assigned without a connection".to_owned(),
            },
        }
    } else if same(t.status.as_str(), "timeout") {
        Reply::QueueTimedOut
    } else {
        Reply::Searching
    }
}

/// What an answer amounts to.
pub fn settle(answer: Answer) -> (reply: Reply)
    ensures
        settles(reply, answer),
{
    match answer {
        Answer::Guest(Ok(r)) => Reply::Identity {
            player_id: r.player_id,
            nick: r.nick,
            token: r.token,
        },
        Answer::Guest(Err(message)) => Reply::Failed { what: "identity", message },
        Answer::Queue(Ok(r)) => Reply::Queued { ticket_id: r.ticket_id },
        Answer::Queue(Err(message)) => Reply::Failed { what: "queue", message },
        Answer::Ticket(Ok(t)) => settle_ticket(t),
        Answer::Ticket(Err(message)) => Reply::Failed { what: "queue", message },
        Answer::Cancelled => Reply::Cancelled,
        Answer::Rating(Ok(r)) => Reply::Rating {
            found: r.found,
            points: r.points,
            matches: r.matches,
        },
        Answer::Rating(Err(message)) => Reply::Failed { what: "rating", message },
    }
}

/// Every call goes to the backend, and a guest's presents no token.
pub proof fn law_a_guest_presents_no_token(base: Seq<char>, token: Seq<char>, request: Request)
    ensures
        url_of(base, request).len() >= base.len(),
        url_of(base, request).take(base.len() as int) == base,
        request is Guest ==> bearer_of(token, request) is None,
{
    assert(url_of(base, request).take(base.len() as int) =~= base);
}

/// Every request has its call: its method, its path below the backend, the token
/// where there is a player, and what it carries.
pub proof fn law_every_request_has_its_call(
    call: Call,
    base: Seq<char>,
    token: Seq<char>,
    request: Request,
)
    requires
        call.is_for(base, token, request),
    ensures
        match request {
            Request::Guest { nick, player_id } => {
                &&& call.method is Post && call.url@ == base + "/auth/guest"@ && call.bearer is None
                &&& call.body matches CallBody::Guest { nick: n, player_id: p } && n@ == nick@ && (
                p is Some <==> player_id is Some) && (p is Some ==> p->0@ == player_id->0@)
            },
            Request::Enqueue => {
                &&& call.method is Post && call.url@ == base + "/queue"@ && call.body is EmptyObject
                &&& call.bearer is Some <==> token.len() > 0
                &&& call.bearer matches Some(t) ==> t@ == token
            },
            Request::Poll { ticket_id } => {
                &&& call.method is Get && call.url@ == base + "/queue/"@ + ticket_id@
                &&& call.bearer matches Some(t) && t@ == token
                &&& call.body is Nothing
            },
            Request::Cancel { ticket_id } => {
                &&& call.method is Delete && call.url@ == base + "/queue/"@ + ticket_id@
                &&& call.bearer matches Some(t) && t@ == token
                &&& call.body is Nothing
            },
            Request::Rating => {
                &&& call.method is Get && call.url@ == base + "/me/rating"@
                &&& call.bearer matches Some(t) && t@ == token
                &&& call.body is Nothing
            },
        },
{
}

/// A ticket's state is read for what it says. Assigned is believed only with both
/// pieces needed to connect, which are then handed on; a timeout ends the search;
/// anything else goes on searching.
pub proof fn law_a_ticket_is_read_for_what_it_says(reply: Reply, t: TicketReply)
    requires
        settles(reply, Answer::Ticket(Ok(t))),
    ensures
        ({
            let complete = t.connection is Some && t.session_token is Some;
            &&& t.status@ == "assigned"@ && complete ==> (reply matches Reply::Assigned {
                connection,
                session_token,
            } && connection@ == t.connection->0@ && session_token@ == t.session_token->0@)
            &&& t.status@ == "assigned"@ && !complete ==> reply is Failed
            &&& t.status@ == "timeout"@ ==> reply is QueueTimedOut
            &&& t.status@ != "assigned"@ && t.status@ != "timeout"@ ==> reply is Searching
        }),
{
    reveal_strlit("assigned");
    reveal_strlit("timeout");
    assert("assigned"@.len() != "timeout"@.len());
}

/// Every other answer is handed on as it is, and every failure says what failed and
/// why.
pub proof fn law_answers_are_handed_on(reply: Reply, answer: Answer)
    requires
        settles(reply, answer),
    ensures
        match answer {
            Answer::Guest(Ok(r)) => reply matches Reply::Identity { player_id, nick, token }
                && player_id@ == r.player_id@ && nick@ == r.nick@ && token@ == r.token@,
            Answer::Queue(Ok(r)) => reply matches Reply::Queued { ticket_id } && ticket_id@
                == r.ticket_id@,
            Answer::Rating(Ok(r)) => reply matches Reply::Rating { found, points, matches }
                && found == r.found && points == r.points && matches == r.matches,
            Answer::Cancelled => reply is Cancelled,
            Answer::Guest(Err(m)) => reply matches Reply::Failed { what, message } && what@
                == "identity"@ && message@ == m@,
            Answer::Queue(Err(m)) => reply matches Reply::Failed { what, message } && what@
                == "queue"@ && message@ == m@,
            Answer::Ticket(Err(m)) => reply matches Reply::Failed { what, message } && what@
                == "queue"@ && message@ == m@,
            Answer::Rating(Err(m)) => reply matches Reply::Failed { what, message } && what@
                == "rating"@ && message@ == m@,
            Answer::Ticket(Ok(_)) => true,
        },
{
}

} // verus!
