use jsonwebtoken::{encode as jwt_encode, EncodingKey, Header};
use pacman_duel::backend::auth::{
    issue_player_token, issue_session_token, issue_session_token_at, verify_player_token_at,
};
use pacman_duel::grid::TICK_DT;
use pacman_duel::movement::Dir;
use pacman_duel::protocol::{encode, ClientMsg, ServerMsg, PROTOCOL_VERSION};
use pacman_duel::server::config::ServerConfigRes;
use pacman_duel::server::report::{
    after_attempt, send_result_when_finished, AttemptStep, ReportStep, WindDown,
};
use pacman_duel::server::roster::{RawPlayer, RawRoster, Roster};
use pacman_duel::server::session::{
    verify_session_token, BindError, HelloStep, Session, START_GRACE,
};
use pacman_duel::sim::{MatchPhase, RunnerState};
use serde_json::Value;

const SECRET: &str = "internal-token";

fn now_secs() -> u64 {
    std::time::SystemTime::now()
        .duration_since(std::time::UNIX_EPOCH)
        .unwrap()
        .as_secs()
}

fn signed(claims: serde_json::Map<String, Value>) -> String {
    jwt_encode(
        &Header::default(),
        &Value::Object(claims),
        &EncodingKey::from_secret(SECRET.as_bytes()),
    )
    .unwrap()
}

fn token_for(player_id: &str, nick: &str) -> String {
    let mut claims = serde_json::Map::new();
    claims.insert("sub".into(), player_id.into());
    claims.insert("nick".into(), nick.into());
    claims.insert("exp".into(), (now_secs() + 900).into());
    signed(claims)
}

fn listed(player_id: &str, nick: &str, slot: u8) -> RawPlayer {
    RawPlayer {
        player_id: Some(player_id.into()),
        nick: Some(nick.into()),
        slot: Some(slot),
    }
}

fn roster() -> Roster {
    Roster::parse(&RawRoster {
        match_id: Some("mt_1".into()),
        players: Some(vec![listed("gst_a", "ana", 0), listed("gst_b", "beto", 1)]),
    })
    .unwrap()
}

#[test]
fn a_valid_token_takes_its_roster_slot() {
    let mut s = Session::new(1);
    s.adopt_roster(roster());
    assert_eq!(
        s.bind_client(10, PROTOCOL_VERSION, &token_for("gst_b", "beto"), SECRET),
        Ok(1)
    );
    assert_eq!(s.slots[1].nick, "beto");
    assert!(s.slots[1].connected);
}

#[test]
fn a_token_signed_with_the_wrong_secret_is_refused() {
    let mut s = Session::new(1);
    s.adopt_roster(roster());
    assert_eq!(
        s.bind_client(10, PROTOCOL_VERSION, &token_for("gst_a", "ana"), "other"),
        Err(BindError::BadToken)
    );
}

#[test]
fn garbage_instead_of_a_token_is_refused() {
    let mut s = Session::new(1);
    assert_eq!(
        s.bind_client(10, PROTOCOL_VERSION, "not-a-token", SECRET),
        Err(BindError::BadToken)
    );
}

#[test]
fn a_mismatched_protocol_version_is_refused() {
    let mut s = Session::new(1);
    assert_eq!(
        s.bind_client(10, PROTOCOL_VERSION + 1, &token_for("gst_a", "ana"), SECRET),
        Err(BindError::WrongVersion)
    );
}

#[test]
fn a_second_player_cannot_take_a_claimed_slot() {
    let mut s = Session::new(1);
    s.adopt_roster(roster());
    s.bind_client(10, PROTOCOL_VERSION, &token_for("gst_a", "ana"), SECRET)
        .unwrap();

    // A different connection presenting the same identity is a reconnect,
    // which is allowed and returns the same slot.
    assert_eq!(
        s.bind_client(11, PROTOCOL_VERSION, &token_for("gst_a", "ana"), SECRET),
        Ok(0)
    );
}

#[test]
fn without_a_roster_slots_go_in_connection_order() {
    let mut s = Session::new(1);
    assert_eq!(
        s.bind_client(10, PROTOCOL_VERSION, &token_for("gst_x", "x"), SECRET),
        Ok(0)
    );
    assert_eq!(
        s.bind_client(11, PROTOCOL_VERSION, &token_for("gst_y", "y"), SECRET),
        Ok(1)
    );
}

#[test]
fn a_third_player_is_turned_away() {
    let mut s = Session::new(1);
    s.bind_client(10, PROTOCOL_VERSION, &token_for("gst_x", "x"), SECRET)
        .unwrap();
    s.bind_client(11, PROTOCOL_VERSION, &token_for("gst_y", "y"), SECRET)
        .unwrap();
    assert_eq!(
        s.bind_client(12, PROTOCOL_VERSION, &token_for("gst_z", "z"), SECRET),
        Err(BindError::NoSlots)
    );
}

#[test]
fn a_player_not_on_the_roster_still_gets_a_free_seat() {
    let mut s = Session::new(1);
    s.adopt_roster(roster());
    // The roster names a and b, but the token proves this is somebody else.
    // Refusing would strand a real player over a payload we do not own.
    assert!(s
        .bind_client(10, PROTOCOL_VERSION, &token_for("gst_zzz", "z"), SECRET)
        .is_ok());
}

#[test]
fn the_nick_falls_back_to_the_token_when_the_roster_is_silent() {
    let mut s = Session::new(1);
    assert_eq!(
        s.bind_client(10, PROTOCOL_VERSION, &token_for("gst_x", "yurei"), SECRET),
        Ok(0)
    );
    assert_eq!(s.slots[0].nick, "yurei");
}

#[test]
fn releasing_a_client_frees_the_connection_but_keeps_the_seat() {
    let mut s = Session::new(1);
    s.bind_client(10, PROTOCOL_VERSION, &token_for("gst_x", "x"), SECRET)
        .unwrap();
    assert_eq!(s.release_client(10), Some(0));
    assert!(!s.slots[0].connected);
    assert!(s.slots[0].ever_present, "the seat stays taken for reporting");
    assert_eq!(s.release_client(10), None);
}

#[test]
fn both_seated_needs_two_real_players() {
    let mut s = Session::new(1);
    assert!(!s.both_seated());
    s.bind_client(10, PROTOCOL_VERSION, &token_for("gst_x", "x"), SECRET)
        .unwrap();
    assert!(!s.both_seated());
    s.bind_client(11, PROTOCOL_VERSION, &token_for("gst_y", "y"), SECRET)
        .unwrap();
    assert!(s.both_seated());
}

#[test]
fn an_input_from_an_unbound_connection_has_no_slot() {
    let s = Session::new(1);
    assert!(
        !s.slot_by_client.contains_key(&99),
        "a connection that never said hello must never map to a slot"
    );
}

#[test]
fn a_session_token_without_a_name_is_still_a_token() {
    let mut claims = serde_json::Map::new();
    claims.insert("sub".into(), "gst_x".into());
    claims.insert("exp".into(), (now_secs() + 900).into());
    let token = signed(claims);
    assert_eq!(
        verify_session_token(SECRET, &token, now_secs()),
        Some(("gst_x".to_string(), String::new()))
    );
}

#[test]
fn a_session_token_without_an_expiry_is_refused() {
    let mut claims = serde_json::Map::new();
    claims.insert("sub".into(), "gst_x".into());
    assert_eq!(verify_session_token(SECRET, &signed(claims), 0), None);
}

#[test]
fn a_session_token_expires() {
    let token = issue_session_token_at(SECRET, "gst_x", "x", 1_000).unwrap();
    let last = 1_000 + pacman_duel::backend::auth::SESSION_TOKEN_LIFETIME;
    assert!(verify_session_token(SECRET, &token, last).is_some());
    assert!(verify_session_token(SECRET, &token, last + 1).is_none());
}

#[test]
fn the_backend_and_the_server_agree_on_tokens() {
    let session = issue_session_token(SECRET, "gst_x", "x").unwrap();
    assert_eq!(
        verify_session_token(SECRET, &session, now_secs()),
        Some(("gst_x".to_string(), "x".to_string()))
    );
    let player = issue_player_token("jwt-secret", "gst_x", "x").unwrap();
    assert_eq!(verify_session_token(SECRET, &player, now_secs()), None);
}

fn hello(player_id: &str, token: String) -> Vec<u8> {
    encode(&ClientMsg::Hello {
        version: PROTOCOL_VERSION,
        player_id: player_id.into(),
        session_token: token,
    })
    .unwrap()
}

#[test]
fn a_hello_is_answered_with_a_welcome() {
    let mut s = Session::new(42);
    let bytes = hello("gst_x", token_for("gst_x", "x"));
    match s.receive_event(10, &bytes, SECRET) {
        HelloStep::Admit {
            slot,
            player_id,
            welcome,
        } => {
            assert_eq!(slot, 0);
            assert_eq!(player_id, "gst_x");
            match welcome {
                ServerMsg::Welcome {
                    slot,
                    seed,
                    pellets,
                    nicks,
                } => {
                    assert_eq!(slot, 0);
                    assert_eq!(seed, 42);
                    assert_eq!(pellets, s.sim.pellets.snapshot_bits());
                    assert_eq!(nicks[0], "x");
                }
                other => panic!("not a welcome: {other:?}"),
            }
        }
        other => panic!("not admitted: {other:?}"),
    }
}

#[test]
fn a_refusal_carries_its_reason() {
    let mut s = Session::new(1);
    match s.receive_event(10, &hello("gst_x", "junk".into()), SECRET) {
        HelloStep::Refuse { error, refusal } => {
            assert_eq!(error, BindError::BadToken);
            assert_eq!(
                refusal,
                ServerMsg::Rejected {
                    reason: "BadToken".into()
                }
            );
        }
        other => panic!("not refused: {other:?}"),
    }
    assert!(matches!(s.receive_event(10, &[], SECRET), HelloStep::Ignore));
}

#[test]
fn inputs_reach_the_slot_of_their_connection() {
    let mut s = Session::new(1);
    s.bind_client(10, PROTOCOL_VERSION, &token_for("gst_x", "x"), SECRET)
        .unwrap();
    let up = encode(&ClientMsg::Input {
        seq: 2,
        dir: Dir::Up,
    })
    .unwrap();
    s.receive_input(11, &up);
    assert_eq!(s.sim.runners[0].desired, None, "an unbound connection has no say");
    s.receive_input(10, &up);
    assert_eq!(s.sim.runners[0].desired, Some(Dir::Up));
    assert_eq!(s.last_seq, [2, 0]);

    let stale = encode(&ClientMsg::Input {
        seq: 1,
        dir: Dir::Down,
    })
    .unwrap();
    s.receive_input(10, &stale);
    assert_eq!(s.sim.runners[0].desired, Some(Dir::Up), "a stale input is ignored");
    s.receive_input(10, &[0xff]);
    assert_eq!(s.last_seq, [2, 0]);
}

#[test]
fn the_match_starts_once_both_are_seated() {
    let mut s = Session::new(1);
    s.start_when_ready();
    assert_eq!(s.sim.phase, MatchPhase::Waiting);
    s.bind_client(10, PROTOCOL_VERSION, &token_for("gst_x", "x"), SECRET)
        .unwrap();
    s.bind_client(11, PROTOCOL_VERSION, &token_for("gst_y", "y"), SECRET)
        .unwrap();
    s.start_when_ready();
    assert_eq!(s.sim.phase, MatchPhase::Running);
}

#[test]
fn a_no_show_forfeits_after_the_grace_period() {
    let mut s = Session::new(1);
    s.bind_client(10, PROTOCOL_VERSION, &token_for("gst_x", "x"), SECRET)
        .unwrap();
    for _ in 0..(START_GRACE / TICK_DT) {
        assert_eq!(s.sim.phase, MatchPhase::Waiting);
        s.start_when_ready();
    }
    assert_eq!(s.sim.phase, MatchPhase::Running);
    assert_eq!(s.sim.runners[1].state, RunnerState::Out);
    assert_eq!(s.sim.runners[0].state, RunnerState::Alive);
}

#[test]
fn every_tick_goes_out_to_both_players() {
    let mut s = Session::new(1);
    assert!(s.advance_match().is_none(), "a waiting match sends nothing");
    s.sim.start();
    s.last_seq = [5, 9];
    let out = s.advance_match().unwrap();
    assert_eq!(out.snapshots[0].tick, 1);
    assert_eq!(out.snapshots[0].elapsed_ms, 33);
    assert_eq!(out.snapshots[0].last_processed_seq, 5);
    assert_eq!(out.snapshots[1].last_processed_seq, 9);
    assert_eq!(out.snapshots[0].pacmen[0].pos, s.sim.runners[0].pos);
    assert_eq!(out.snapshots[0].ghosts.len(), s.sim.ghosts.len());
    assert!(out.over.is_none());
}

#[test]
fn the_end_of_the_match_is_announced() {
    let mut s = Session::new(1);
    s.sim.start();
    s.sim.runners[0].score = 10;
    for p in s.sim.runners.iter_mut() {
        p.state = RunnerState::Out;
        p.lives = 0;
    }
    let out = s.advance_match().unwrap();
    assert_eq!(
        out.over,
        Some(ServerMsg::MatchOver {
            scores: [10, 0],
            winner: Some(0)
        })
    );
}

#[test]
fn leaving_a_running_match_forfeits_it() {
    let mut s = Session::new(1);
    s.bind_client(10, PROTOCOL_VERSION, &token_for("gst_x", "x"), SECRET)
        .unwrap();
    s.bind_client(11, PROTOCOL_VERSION, &token_for("gst_y", "y"), SECRET)
        .unwrap();
    s.start_when_ready();
    assert_eq!(s.disconnected(10), Some("gst_x".to_string()));
    assert_eq!(s.sim.runners[0].state, RunnerState::Out);
    assert_eq!(s.disconnected(10), None);
}

#[test]
fn every_refusal_has_its_own_name() {
    assert_eq!(BindError::BadToken.name(), "BadToken");
    assert_eq!(BindError::WrongVersion.name(), "WrongVersion");
    assert_eq!(BindError::SlotTaken.name(), "SlotTaken");
    assert_eq!(BindError::NoSlots.name(), "NoSlots");
}

#[test]
fn a_seat_held_by_somebody_connected_is_taken() {
    let mut s = Session::new(1);
    s.adopt_roster(
        Roster::parse(&RawRoster {
            match_id: None,
            players: Some(vec![listed("gst_a", "ana", 0), listed("gst_b", "beto", 0)]),
        })
        .unwrap(),
    );
    assert_eq!(
        s.bind_client(10, PROTOCOL_VERSION, &token_for("gst_a", "ana"), SECRET),
        Ok(0)
    );
    assert_eq!(
        s.bind_client(11, PROTOCOL_VERSION, &token_for("gst_b", "beto"), SECRET),
        Err(BindError::SlotTaken)
    );
}

fn finished(present: [bool; 2]) -> Session {
    let mut s = Session::new(1);
    s.adopt_roster(roster());
    for (i, id) in ["gst_a", "gst_b"].into_iter().enumerate() {
        if present[i] {
            s.bind_client(10 + i as u64, PROTOCOL_VERSION, &token_for(id, id), SECRET)
                .unwrap();
        }
    }
    s.sim.start();
    s.sim.runners[1].score = 90;
    s.sim.abandon(0);
    s.sim.abandon(1);
    s
}

#[test]
fn a_finished_match_is_reported_once() {
    let mut s = finished([true, true]);
    match send_result_when_finished(&mut s, "http://backend") {
        ReportStep::Post { url, body } => {
            assert_eq!(url, "http://backend/internal/match-result");
            assert_eq!(body.match_id, "mt_1");
            assert_eq!(body.winner_slot, Some(1));
            assert_eq!(body.players.len(), 2);
            assert_eq!(body.players[0].player_id, "gst_a");
            assert_eq!(body.players[1].score, 90);
            assert!(body.players[0].present && body.players[1].present);
        }
        other => panic!("not posted: {other:?}"),
    }
    assert!(matches!(
        send_result_when_finished(&mut s, "http://backend"),
        ReportStep::Nothing
    ));
}

#[test]
fn a_match_nobody_opposed_is_not_reported() {
    let mut s = finished([true, false]);
    assert!(matches!(
        send_result_when_finished(&mut s, "http://backend"),
        ReportStep::Skip
    ));
}

#[test]
fn a_running_match_is_not_reported() {
    let mut s = Session::new(1);
    s.sim.start();
    assert!(matches!(
        send_result_when_finished(&mut s, "http://backend"),
        ReportStep::Nothing
    ));
}

#[test]
fn reporting_backs_off_and_gives_up() {
    assert_eq!(after_attempt(1, true), AttemptStep::Done { ok: true });
    assert_eq!(after_attempt(1, false), AttemptStep::Retry { after_ms: 500 });
    assert_eq!(after_attempt(2, false), AttemptStep::Retry { after_ms: 1000 });
    assert_eq!(after_attempt(3, false), AttemptStep::Done { ok: false });
}

#[test]
fn winding_down_happens_once() {
    let s = finished([true, true]);
    let mut w = WindDown::new();
    assert_eq!(w.finish_shutdown(false, Some(&s)), None);
    assert_eq!(
        w.finish_shutdown(true, Some(&s)),
        Some(vec!["gst_a".to_string(), "gst_b".to_string()])
    );
    assert_eq!(w.finish_shutdown(true, Some(&s)), None);
}

#[test]
fn a_server_without_a_token_admits_nobody() {
    let c = ServerConfigRes::from_env(None, None, None);
    assert_eq!(c.backend_url, "http://127.0.0.1:8080");
    assert!(!c.can_admit());
    let c = ServerConfigRes::from_env(Some("http://b//"), Some("tok"), Some(7));
    assert_eq!(c.backend_url, "http://b");
    assert!(c.can_admit());
    assert_eq!(c.match_seed, 7);
}

#[test]
fn without_a_secret_nobody_gets_in() {
    let mut s = Session::new(1);
    s.adopt_roster(roster());
    let token = issue_session_token_at("", "gst_a", "ana", 1_000).unwrap();
    assert_eq!(
        s.bind_client_at(10, PROTOCOL_VERSION, &token, "", 1_000),
        Err(BindError::BadToken)
    );
    assert_eq!(s.bind_client(10, PROTOCOL_VERSION, &token, ""), Err(BindError::BadToken));
    assert_eq!(
        s.bind_client_at(10, PROTOCOL_VERSION + 1, &token, "", 1_000),
        Err(BindError::WrongVersion)
    );
    let hello = encode(&ClientMsg::Hello {
        version: PROTOCOL_VERSION,
        player_id: "gst_a".into(),
        session_token: token,
    })
    .unwrap();
    assert!(matches!(
        s.receive_event_at(10, &hello, "", 1_000),
        HelloStep::Refuse { error: BindError::BadToken, .. }
    ));
    assert!(matches!(
        s.receive_event(10, &hello, ""),
        HelloStep::Refuse { error: BindError::BadToken, .. }
    ));
    assert!(s.slot_by_client.is_empty());
    assert!(!s.slots[0].ever_present && !s.slots[1].ever_present);
}

#[test]
fn a_fraction_of_a_second_is_rounded() {
    let token = |exp: f64| {
        let mut claims = serde_json::Map::new();
        claims.insert("sub".into(), "gst_a".into());
        claims.insert("exp".into(), exp.into());
        signed(claims)
    };
    let holds = |exp: f64, now: u64| verify_session_token(SECRET, &token(exp), now).is_some();
    assert!(holds(1_700_000_000.25, 1_700_000_000));
    assert!(!holds(1_700_000_000.25, 1_700_000_001));
    assert!(holds(1_700_000_000.5, 1_700_000_001));
    assert!(!holds(1_700_000_000.5, 1_700_000_002));
    assert!(holds(1e19, 10_000_000_000_000_000_000));
    assert!(!holds(1e19, 10_000_000_000_000_000_001));
    assert!(holds(1e-9, 0));
    assert!(!holds(1e-9, 1));
    // A player token has to name a whole second.
    assert!(verify_player_token_at(SECRET, &token(1_700_000_000.25), 0).is_err());
    let mut s = Session::new(1);
    let far = token(now_secs() as f64 + 900.5);
    assert_eq!(s.bind_client(10, PROTOCOL_VERSION, &far, SECRET), Ok(0));
}
