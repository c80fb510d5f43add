use pacman_duel::client::backend::{
    finish, plan_call, settle, Answer, CallBody, GuestReply, Method, QueueReply, RatingReply, Reply,
    Request, TicketReply,
};

const BASE: &str = "http://backend";

#[test]
fn a_guest_presents_no_token() {
    let call = plan_call(
        BASE,
        "tok",
        &Request::Guest {
            nick: "ana".into(),
            player_id: Some("gst_a".into()),
        },
    );
    assert_eq!(call.method, Method::Post);
    assert_eq!(call.url, "http://backend/auth/guest");
    assert_eq!(call.bearer, None);
    assert_eq!(
        call.body,
        CallBody::Guest {
            nick: "ana".into(),
            player_id: Some("gst_a".into())
        }
    );
}

#[test]
fn every_request_has_its_call() {
    let enqueue = plan_call(BASE, "tok", &Request::Enqueue);
    assert_eq!(enqueue.method, Method::Post);
    assert_eq!(enqueue.url, "http://backend/queue");
    assert_eq!(enqueue.bearer.as_deref(), Some("tok"));
    assert_eq!(enqueue.body, CallBody::EmptyObject);
    assert_eq!(plan_call(BASE, "", &Request::Enqueue).bearer, None);

    let poll = plan_call(
        BASE,
        "",
        &Request::Poll {
            ticket_id: "tk_1".into(),
        },
    );
    assert_eq!(poll.method, Method::Get);
    assert_eq!(poll.url, "http://backend/queue/tk_1");
    assert_eq!(poll.bearer.as_deref(), Some(""));
    assert_eq!(poll.body, CallBody::Nothing);

    let cancel = plan_call(
        BASE,
        "tok",
        &Request::Cancel {
            ticket_id: "tk_1".into(),
        },
    );
    assert_eq!(cancel.method, Method::Delete);
    assert_eq!(cancel.url, "http://backend/queue/tk_1");

    let rating = plan_call(BASE, "tok", &Request::Rating);
    assert_eq!(rating.method, Method::Get);
    assert_eq!(rating.url, "http://backend/me/rating");
}

#[test]
fn an_answer_is_judged_by_its_status() {
    assert_eq!(finish(204, "204 No Content", "".into()), Ok(String::new()));
    assert_eq!(
        finish(401, "401 Unauthorized", "nope".into()),
        Err("401 Unauthorized: nope".to_string())
    );
    assert!(finish(301, "301 Moved Permanently", "".into()).is_err());
}

fn ticket(status: &str, connection: Option<&str>, token: Option<&str>) -> Answer {
    Answer::Ticket(Ok(TicketReply {
        status: status.into(),
        connection: connection.map(String::from),
        session_token: token.map(String::from),
    }))
}

#[test]
fn a_ticket_answer_settles() {
    assert_eq!(
        settle(ticket("assigned", Some("h:1"), Some("t"))),
        Reply::Assigned {
            connection: "h:1".into(),
            session_token: "t".into()
        }
    );
    assert_eq!(settle(ticket("timeout", None, None)), Reply::QueueTimedOut);
    assert_eq!(settle(ticket("searching", None, None)), Reply::Searching);
    assert_eq!(settle(ticket("anything", Some("h:1"), Some("t"))), Reply::Searching);
    for half in [
        ticket("assigned", None, Some("t")),
        ticket("assigned", Some("h:1"), None),
    ] {
        assert_eq!(
            settle(half),
            Reply::Failed {
                what: "queue",
                message: "the server was assigned without a connection".into()
            }
        );
    }
}

#[test]
fn the_other_answers_settle() {
    assert_eq!(
        settle(Answer::Guest(Ok(GuestReply {
            player_id: "gst_a".into(),
            nick: "ana".into(),
            token: "tok".into()
        }))),
        Reply::Identity {
            player_id: "gst_a".into(),
            nick: "ana".into(),
            token: "tok".into()
        }
    );
    assert_eq!(
        settle(Answer::Queue(Ok(QueueReply {
            ticket_id: "tk_1".into()
        }))),
        Reply::Queued {
            ticket_id: "tk_1".into()
        }
    );
    assert_eq!(settle(Answer::Cancelled), Reply::Cancelled);
    assert_eq!(
        settle(Answer::Rating(Ok(RatingReply {
            found: true,
            points: 7,
            matches: 2
        }))),
        Reply::Rating {
            found: true,
            points: 7,
            matches: 2
        }
    );
}

#[test]
fn a_failure_says_what_failed() {
    for (answer, what) in [
        (Answer::Guest(Err("x".into())), "identity"),
        (Answer::Queue(Err("x".into())), "queue"),
        (Answer::Ticket(Err("x".into())), "queue"),
        (Answer::Rating(Err("x".into())), "rating"),
    ] {
        assert_eq!(
            settle(answer),
            Reply::Failed {
                what,
                message: "x".into()
            }
        );
    }
}
