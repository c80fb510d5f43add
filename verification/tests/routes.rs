use pacman_duel::backend::auth::{verify_player_token, Player};
use pacman_duel::backend::error::ApiError;
use pacman_duel::backend::gameflow::{CreateTicketResponse, TicketStatus};
use pacman_duel::backend::routes::{
    clean_nick, default_true, guest, guest_at, healthz, is_guest_id, GuestRequest,
    MatchResultRequest, Queue, Reports, ResultPlayer, ResultStep, NICK_MAX,
};
use pacman_duel::server::session::verify_session_token;

#[test]
fn a_nick_is_trimmed_and_capped() {
    assert_eq!(clean_nick("  yurei  ").unwrap(), "yurei");
    assert_eq!(clean_nick(&"x".repeat(50)).unwrap().len(), NICK_MAX);
}

#[test]
fn an_empty_nick_is_rejected() {
    assert!(clean_nick("").is_err());
    assert!(clean_nick("    ").is_err());
}

#[test]
fn control_characters_are_rejected() {
    assert!(clean_nick("yu\u{0}rei").is_err());
    assert!(clean_nick("yu\nrei").is_err());
}

#[test]
fn unicode_nicks_survive() {
    assert_eq!(clean_nick("ñandú").unwrap(), "ñandú");
}

#[test]
fn a_returning_guest_keeps_its_id() {
    let kept = guest(
        "secret",
        GuestRequest {
            nick: " yurei ".into(),
            player_id: Some("gst_0123456789abcdef".into()),
        },
    )
    .unwrap();
    assert_eq!(kept.player_id, "gst_0123456789abcdef");
    assert_eq!(kept.nick, "yurei");
    let claims = verify_player_token("secret", &kept.token).unwrap();
    assert_eq!(claims.sub, kept.player_id);
    assert_eq!(claims.nick, "yurei");
}

#[test]
fn anybody_else_becomes_somebody_new() {
    for id in [None, Some("admin".to_string()), Some("gst_short".to_string())] {
        let g = guest_at(
            "secret",
            GuestRequest {
                nick: "yurei".into(),
                player_id: id,
            },
            "gst_fresh".into(),
            0,
        )
        .unwrap();
        assert_eq!(g.player_id, "gst_fresh");
    }
    let fresh = guest(
        "secret",
        GuestRequest {
            nick: "yurei".into(),
            player_id: None,
        },
    )
    .unwrap();
    assert!(is_guest_id(&fresh.player_id));
}

#[test]
fn a_guest_without_a_name_is_refused() {
    let refused = guest(
        "secret",
        GuestRequest {
            nick: "  ".into(),
            player_id: None,
        },
    );
    assert!(matches!(refused, Err(ApiError::BadRequest(_))));
}

fn player() -> Player {
    Player {
        id: "gst_a".into(),
        nick: "ana".into(),
    }
}

fn ticket(id: &str) -> CreateTicketResponse {
    CreateTicketResponse {
        ticket_id: id.into(),
        status: String::new(),
    }
}

fn status(status: &str, connection: &str) -> TicketStatus {
    TicketStatus {
        ticket_id: "tk_1".into(),
        status: status.into(),
        connection: connection.into(),
    }
}

#[test]
fn a_ticket_waits_until_it_is_assigned() {
    let mut q = Queue::new();
    assert_eq!(q.enqueue(ticket("tk_1"), 1_000).ticket_id, "tk_1");
    let waited = q.waited("tk_1", 3_500);
    assert_eq!(waited, Some(2));
    let (answer, cancel) = q.poll_ticket("tk_1", waited, status("", ""), 60, &player(), "api", 0);
    assert_eq!(answer.status, "searching");
    assert_eq!(answer.connection, None);
    assert!(!cancel);

    let (answer, cancel) = q.poll_ticket(
        "tk_1",
        waited,
        status("ASSIGNED", "10.0.0.1:7000"),
        60,
        &player(),
        "api",
        0,
    );
    assert_eq!(answer.status, "assigned");
    assert_eq!(answer.connection.as_deref(), Some("10.0.0.1:7000"));
    let token = answer.session_token.unwrap();
    assert_eq!(
        verify_session_token("api", &token, 0),
        Some(("gst_a".to_string(), "ana".to_string()))
    );
    assert!(!cancel);
    assert_eq!(q.waited("tk_1", 9_000), None, "an assigned ticket is forgotten");
}

#[test]
fn a_ticket_times_out() {
    let mut q = Queue::new();
    q.enqueue(ticket("tk_1"), 0);
    let waited = q.waited("tk_1", 59_999);
    let (answer, _) = q.poll_ticket("tk_1", waited, status("PENDING", ""), 60, &player(), "api", 0);
    assert_eq!(answer.status, "searching");
    let waited = q.waited("tk_1", 60_000);
    let (answer, cancel) =
        q.poll_ticket("tk_1", waited, status("PENDING", ""), 60, &player(), "api", 0);
    assert_eq!(answer.status, "timeout");
    assert!(cancel, "the gateway has to be told");
    assert_eq!(q.waited("tk_1", 60_000), None);
}

#[test]
fn an_open_ticket_is_always_searching() {
    let mut q = Queue::new();
    q.enqueue(ticket("tk_1"), 0);
    for upstream in ["pending", "searching", "", "assigned"] {
        let (answer, cancel) =
            q.poll_ticket("tk_1", Some(0), status(upstream, ""), 90, &player(), "api", 0);
        assert_eq!(answer.status, "searching");
        assert_eq!(answer.connection, None);
        assert_eq!(answer.session_token, None);
        assert!(!cancel);
    }
}

#[test]
fn a_clock_that_went_back_counts_as_no_wait() {
    let mut q = Queue::new();
    q.enqueue(ticket("tk_1"), 5_000);
    assert_eq!(q.waited("tk_1", 4_000), Some(0));
    assert_eq!(q.waited("tk_2", 4_000), None);
    assert_eq!(q.cancel("tk_1"), "cancelled");
    assert_eq!(q.waited("tk_1", 6_000), None);
}

fn result_of(match_id: &str, present: bool, winner: Option<u8>) -> MatchResultRequest {
    let one = |id: &str, score: u32, present: bool| ResultPlayer {
        player_id: id.into(),
        nick: id.into(),
        score,
        present,
    };
    MatchResultRequest {
        match_id: match_id.into(),
        players: vec![one("gst_a", 5, true), one("gst_b", 9, present)],
        winner_slot: winner,
    }
}

#[test]
fn a_result_is_rated_once() {
    let mut r = Reports::new();
    match r.match_result("api", Some("api"), &result_of("mt_1", true, Some(1))).unwrap() {
        ResultStep::Report(teams, ranks) => {
            assert_eq!(teams[0].players[0].external_player_id, "gst_b");
            assert_eq!(ranks, vec![1, 2]);
        }
        other => panic!("not reported: {other:?}"),
    }
    assert_eq!(
        r.match_result("api", Some("api"), &result_of("mt_1", true, Some(1))).unwrap(),
        ResultStep::Answer("already_reported")
    );
}

#[test]
fn a_failed_report_can_be_retried() {
    let mut r = Reports::new();
    let req = result_of("mt_1", true, None);
    assert!(matches!(
        r.match_result("api", Some("api"), &req),
        Ok(ResultStep::Report(_, _))
    ));
    assert!(r
        .close_report("mt_1", Err(ApiError::Upstream("down".into())))
        .is_err());
    assert!(matches!(
        r.match_result("api", Some("api"), &req),
        Ok(ResultStep::Report(_, _))
    ));
    assert_eq!(r.close_report("mt_1", Ok(())).unwrap(), "reported");
    assert_eq!(
        r.match_result("api", Some("api"), &req).unwrap(),
        ResultStep::Answer("already_reported")
    );
}

#[test]
fn a_result_with_an_absent_player_is_not_rated() {
    let mut r = Reports::new();
    assert_eq!(
        r.match_result("api", Some("api"), &result_of("mt_1", false, None)).unwrap(),
        ResultStep::Answer("not_rated")
    );
    assert!(default_true());
}

#[test]
fn only_the_game_server_may_post_a_result() {
    let mut r = Reports::new();
    for presented in [None, Some(""), Some("wrong")] {
        assert!(matches!(
            r.match_result("api", presented, &result_of("mt_1", true, None)),
            Err(ApiError::Forbidden)
        ));
    }
    let mut short = result_of("mt_1", true, None);
    short.players.pop();
    assert!(matches!(
        r.match_result("api", Some("api"), &short),
        Err(ApiError::BadRequest(_))
    ));
}

#[test]
fn the_backend_is_healthy() {
    assert_eq!(healthz(), "ok");
}

#[test]
fn errors_have_their_answers() {
    assert_eq!(ApiError::Unauthorized.response(), (401, "unauthorized".to_string()));
    assert_eq!(ApiError::Forbidden.response(), (403, "forbidden".to_string()));
    assert_eq!(
        ApiError::BadRequest("why".into()).response(),
        (400, "why".to_string())
    );
    assert_eq!(ApiError::NotFound.response().0, 404);
    let upstream = ApiError::Upstream("secret detail".into()).response();
    assert_eq!(upstream.0, 502);
    assert!(!upstream.1.contains("secret detail"));
}
