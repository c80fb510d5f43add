use pacman_duel::backend::auth::issue_session_token;
use pacman_duel::client::net::{Assignment, Desired, Link};
use pacman_duel::maze::MAZE;
use pacman_duel::movement::Dir;
use pacman_duel::protocol::{encode, ServerMsg};
use pacman_duel::server::session::{HelloStep, Session};

const SECRET: &str = "internal-token";

/// A client that was let in.
fn joined(session: &mut Session, client_id: u64, player_id: &str) -> Link {
    let mut link = Link::default();
    link.connect(Assignment {
        connection: "10.0.0.1:7000".into(),
        session_token: issue_session_token(SECRET, player_id, player_id).unwrap(),
        player_id: player_id.into(),
    });
    let hello = link.say_hello(true).unwrap();
    match session.receive_event(client_id, &hello, SECRET) {
        HelloStep::Admit { welcome, .. } => {
            link.receive_event(&encode(&welcome).unwrap());
        }
        other => panic!("not admitted: {other:?}"),
    }
    link
}

#[test]
fn both_ends_stay_in_step() {
    let mut session = Session::new(42);
    let mut links = [
        joined(&mut session, 1, "gst_a"),
        joined(&mut session, 2, "gst_b"),
    ];
    session.start_when_ready();
    let corridors = MAZE.corridors();

    for tick in 0..600 {
        for (i, link) in links.iter_mut().enumerate() {
            link.desired = Desired(Some(Dir::all()[(tick / 17 + i) % 4]));
            if let Some(input) = link.send_input() {
                session.receive_input(1 + i as u64, &input);
            }
        }
        let Some(out) = session.advance_match() else {
            break;
        };
        for (i, snapshot) in out.snapshots.into_iter().enumerate() {
            let packet = encode(&ServerMsg::Snapshot(snapshot)).unwrap();
            links[i].receive_snapshots(&vec![packet]);
        }

        for (i, link) in links.iter().enumerate() {
            let game = link.game.as_ref().unwrap();
            let runner = &session.sim.runners[i];
            assert_eq!(game.local.pos, runner.pos, "tick {tick}, slot {i}");
            assert_eq!(game.scores[i], runner.score);
            assert_eq!(game.lives[i], runner.lives);
            assert_eq!(game.ghosts.len(), session.sim.ghosts.len());
            for tile in &corridors {
                assert_eq!(game.pellets.at(*tile), session.sim.pellets.at(*tile));
            }
        }
    }
    assert!(session.sim.tick_count > 100);
}

/// Until something happens that the client cannot know of, its prediction is never
/// corrected.
#[test]
fn a_prediction_is_right_until_the_server_intervenes() {
    let mut session = Session::new(7);
    let mut link = joined(&mut session, 1, "gst_a");
    joined(&mut session, 2, "gst_b");
    session.start_when_ready();
    link.desired = Desired(Some(Dir::Right));

    for tick in 0..60 {
        let input = link.send_input().unwrap();
        let predicted = link.game.as_ref().unwrap().local.pos;
        session.receive_input(1, &input);
        let out = session.advance_match().unwrap();
        if out.snapshots[0].pacmen[0].lives < 3 {
            break;
        }
        assert_eq!(session.sim.runners[0].pos, predicted, "tick {tick}");
        let [snapshot, _] = out.snapshots;
        link.receive_snapshots(&vec![encode(&ServerMsg::Snapshot(snapshot)).unwrap()]);
        assert_eq!(link.game.as_ref().unwrap().local.last_correction, 0);
    }
}
