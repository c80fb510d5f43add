use pacman_duel::backend::error::ApiError;
use pacman_duel::backend::gameflow::{judge_answer, shape_1v1_report, GatewayCall, Method};

#[test]
fn the_winner_is_reported_first() {
    let (teams, ranks) = shape_1v1_report(("gst_a", "a", 100), ("gst_b", "b", 900), Some(1));
    assert_eq!(teams[0].players[0].external_player_id, "gst_b");
    assert_eq!(teams[1].players[0].external_player_id, "gst_a");
    assert_eq!(ranks, vec![1, 2]);
}

#[test]
fn slot_zero_winning_keeps_the_natural_order() {
    let (teams, ranks) = shape_1v1_report(("gst_a", "a", 900), ("gst_b", "b", 100), Some(0));
    assert_eq!(teams[0].players[0].external_player_id, "gst_a");
    assert_eq!(ranks, vec![1, 2]);
}

#[test]
fn a_draw_gets_two_equal_ranks() {
    let (teams, ranks) = shape_1v1_report(("gst_a", "a", 500), ("gst_b", "b", 500), None);
    assert_eq!(ranks, vec![1, 1], "equal ranks are how a draw is expressed");
    assert_eq!(teams.len(), 2);
}

#[test]
fn every_team_has_exactly_one_player() {
    let (teams, ranks) = shape_1v1_report(("gst_a", "a", 1), ("gst_b", "b", 2), Some(1));
    assert_eq!(teams.len(), 2);
    assert_eq!(ranks.len(), teams.len(), "ranks must match teams one to one");
    for t in &teams {
        assert_eq!(t.players.len(), 1);
    }
}

#[test]
fn display_names_travel_with_the_report() {
    let (teams, _) = shape_1v1_report(("gst_a", "yurei", 1), ("gst_b", "rival", 2), Some(0));
    assert_eq!(teams[0].players[0].display_name, "yurei");
    assert_eq!(teams[1].players[0].display_name, "rival");
}

#[test]
fn gateway_calls_have_their_addresses() {
    let calls = [
        (GatewayCall::CreateTicket, Method::Post, "/matchmaking/tickets", None),
        (
            GatewayCall::TicketStatus {
                ticket_id: "tk_1".into(),
                timeout_secs: 15,
            },
            Method::Get,
            "/matchmaking/tickets/tk_1/status",
            Some(15),
        ),
        (
            GatewayCall::CancelTicket {
                ticket_id: "tk_1".into(),
            },
            Method::Delete,
            "/matchmaking/tickets/tk_1",
            None,
        ),
        (GatewayCall::ReportMatch, Method::Post, "/skill-rating/matches:report", None),
        (
            GatewayCall::ResolveRating,
            Method::Post,
            "/skill-rating/player-rating:resolve",
            None,
        ),
    ];
    for (call, method, path, timeout_secs) in calls {
        let request = call.request("https://gateway/v1");
        assert_eq!(request.method, method);
        assert_eq!(request.url, format!("https://gateway/v1{path}"));
        assert_eq!(request.timeout_secs, timeout_secs);
    }
}

#[test]
fn a_gateway_answer_is_judged_by_its_status() {
    assert_eq!(judge_answer(201, "201 Created", "x".into()).unwrap(), "x");
    match judge_answer(500, "500 Internal Server Error", "boom".into()) {
        Err(ApiError::Upstream(detail)) => {
            assert_eq!(detail, "status 500 Internal Server Error: boom")
        }
        other => panic!("not a failure: {other:?}"),
    }
}
