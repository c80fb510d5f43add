use pacman_duel::client::net::{
    apply_snapshot, Assignment, Desired, Link, Match, MatchResult, Steering,
};
use pacman_duel::client::predict::SNAPSHOT_INTERVAL;
use pacman_duel::client::screen::Screen;
use pacman_duel::ghosts::GhostMode;
use pacman_duel::grid::{IVec2, WorldPoint, TILE_UNITS};
use pacman_duel::maze::{spawn_p0, spawn_p1, MAZE};
use pacman_duel::movement::{Dir, GridPos};
use pacman_duel::pellets::{PelletField, PelletKind};
use pacman_duel::protocol::{
    decode, encode, ClientMsg, GhostSnap, PacSnap, PelletDelta, ServerMsg, Snapshot,
    PROTOCOL_VERSION,
};
use pacman_duel::sim::RunnerState;

fn assignment() -> Assignment {
    Assignment {
        connection: "10.0.0.1:7000".into(),
        session_token: "tok".into(),
        player_id: "gst_a".into(),
    }
}

fn welcome(slot: u8) -> Vec<u8> {
    encode(&ServerMsg::Welcome {
        slot,
        seed: 1,
        pellets: PelletField::new_full().snapshot_bits(),
        nicks: ["ana".into(), "beto".into()],
    })
    .unwrap()
}

fn pac(tile: IVec2, dir: Dir) -> PacSnap {
    PacSnap {
        pos: GridPos::new(tile, dir),
        state: RunnerState::Alive,
        lives: 2,
        score: 70,
        energized: false,
        stunned: false,
    }
}

fn snapshot(tick: u32) -> Snapshot {
    Snapshot {
        tick,
        elapsed_ms: tick * 33,
        last_processed_seq: 0,
        pacmen: [pac(spawn_p0(), Dir::Right), pac(spawn_p1(), Dir::Left)],
        ghosts: vec![],
        pellet_deltas: vec![],
    }
}

fn packet(snap: Snapshot) -> Vec<u8> {
    encode(&ServerMsg::Snapshot(snap)).unwrap()
}

fn playing(slot: u8) -> Link {
    let mut link = Link::default();
    link.connect(assignment());
    link.receive_event(&welcome(slot));
    link
}

fn no_keys() -> Steering {
    Steering {
        arrow_up: false,
        w: false,
        arrow_down: false,
        s: false,
        arrow_left: false,
        a: false,
        arrow_right: false,
        d: false,
    }
}

#[test]
fn hello_is_said_once_per_connection() {
    let mut link = Link::default();
    assert_eq!(link.say_hello(true), None, "nobody to greet");
    link.connect(assignment());
    assert_eq!(link.say_hello(false), None, "not connected yet");
    let bytes = link.say_hello(true).unwrap();
    assert_eq!(
        decode::<ClientMsg>(&bytes).unwrap(),
        ClientMsg::Hello {
            version: PROTOCOL_VERSION,
            player_id: "gst_a".into(),
            session_token: "tok".into(),
        }
    );
    assert_eq!(link.say_hello(true), None);
    link.connect(assignment());
    assert!(link.say_hello(true).is_some(), "a new connection is greeted again");
}

#[test]
fn a_welcome_seats_the_player() {
    let mut link = Link::default();
    link.connect(assignment());
    let step = link.receive_event(&welcome(1));
    assert_eq!(step.screen, Some(Screen::Playing));
    assert!(step.stop);
    let game = link.game.as_ref().unwrap();
    assert_eq!(game.slot, 1);
    assert_eq!(game.rival_slot(), 0);
    assert_eq!(game.local.pos, GridPos::new(spawn_p1(), Dir::Left));
    assert_eq!(game.remote_pos.tile, spawn_p0());
    assert_eq!(game.nicks, ["ana".to_string(), "beto".to_string()]);
    assert_eq!(game.lives, [3, 3]);
    assert_eq!(game.pellets.count(), MAZE.corridors().len());
}

#[test]
fn a_second_welcome_changes_nothing() {
    let mut link = playing(0);
    link.receive_snapshots(&vec![packet(snapshot(4))]);
    let step = link.receive_event(&welcome(1));
    assert_eq!(step.screen, None);
    assert!(!step.stop);
    let game = link.game.unwrap();
    assert_eq!(game.slot, 0);
    assert_eq!(game.scores, [70, 70]);
}

#[test]
fn a_welcome_to_any_other_slot_starts_like_the_second() {
    let mut link = Link::default();
    link.connect(assignment());
    assert_eq!(link.receive_event(&welcome(2)).screen, Some(Screen::Playing));
    let game = link.game.as_ref().unwrap();
    assert_eq!(game.slot, 2);
    assert_eq!(game.local.pos, GridPos::new(spawn_p1(), Dir::Left));
    assert_eq!(game.remote_pos, GridPos::new(spawn_p0(), Dir::Left));
}

#[test]
fn a_rejection_leads_back_to_the_menu() {
    let mut link = Link::default();
    let bytes = encode(&ServerMsg::Rejected {
        reason: "NoSlots".into(),
    })
    .unwrap();
    let step = link.receive_event(&bytes);
    assert_eq!(step.screen, Some(Screen::Menu));
    assert!(step.stop);
}

#[test]
fn the_end_of_the_match_is_kept() {
    let mut link = playing(0);
    let bytes = encode(&ServerMsg::MatchOver {
        scores: [5, 9],
        winner: Some(1),
    })
    .unwrap();
    let step = link.receive_event(&bytes);
    assert_eq!(step.screen, Some(Screen::Result));
    assert!(!step.stop);
    assert_eq!(
        link.game.as_ref().unwrap().result,
        Some(MatchResult {
            scores: [5, 9],
            winner: Some(1)
        })
    );
    link.desired = Desired(Some(Dir::Up));
    assert_eq!(link.send_input(), None, "nothing is steered after the end");
    assert_eq!(link.receive_event(&[0xff]).screen, None);
}

#[test]
fn only_the_newest_snapshot_counts() {
    let mut link = playing(0);
    link.receive_snapshots(&vec![
        packet(snapshot(7)),
        packet(snapshot(9)),
        vec![0xff],
        packet(snapshot(8)),
    ]);
    assert_eq!(link.game.as_ref().unwrap().elapsed_ms, 9 * 33);
    link.receive_snapshots(&vec![]);
    assert_eq!(link.game.as_ref().unwrap().elapsed_ms, 9 * 33);
}

#[test]
fn snapshots_before_the_welcome_are_dropped() {
    let mut link = Link::default();
    link.connect(assignment());
    link.receive_snapshots(&vec![packet(snapshot(7))]);
    assert!(link.game.is_none());
}

#[test]
fn a_snapshot_of_places_outside_their_tile_is_shown() {
    let mut link = playing(0);
    let mut snap = snapshot(7);
    snap.pacmen[1].pos.offset = 4 * TILE_UNITS;
    snap.pacmen[0].pos = GridPos {
        tile: IVec2::new(i32::MAX, i32::MIN),
        offset: -TILE_UNITS / 2,
        dir: Dir::Right,
    };
    link.desired = Desired(Some(Dir::Right));
    assert!(link.send_input().is_some());
    link.receive_snapshots(&vec![packet(snap.clone())]);
    let game = link.game.as_ref().unwrap();
    assert_eq!(game.elapsed_ms, 7 * 33);
    assert_eq!(game.remote_pos, snap.pacmen[1].pos);
    assert_eq!(
        game.remote.render(),
        WorldPoint::new(17 * TILE_UNITS, 23 * TILE_UNITS)
    );
    // Off the board no way is open, so the pending input parks the runner.
    assert_eq!(
        game.local.pos,
        GridPos::new(IVec2::new(i32::MAX, i32::MIN), Dir::Right)
    );
}

#[test]
fn a_snapshot_is_shown() {
    let mut game = Match::new(
        0,
        PelletField::new_full(),
        ["ana".to_string(), "beto".to_string()],
    );
    let corridors = MAZE.corridors();
    let mut snap = snapshot(3);
    snap.pacmen[1].state = RunnerState::Dying;
    snap.pacmen[1].energized = true;
    snap.ghosts = vec![
        GhostSnap {
            pos: GridPos::new(IVec2::new(6, 23), Dir::Up),
            mode: GhostMode::Chase,
        },
        GhostSnap {
            pos: GridPos::new(IVec2::new(7, 23), Dir::Up),
            mode: GhostMode::Frightened,
        },
    ];
    snap.pellet_deltas = vec![
        PelletDelta::Eaten(corridors[0]),
        PelletDelta::Spawned(corridors[1], PelletKind::Power),
    ];
    apply_snapshot(&mut game, &snap);
    assert_eq!(game.elapsed_ms, 99);
    assert_eq!(game.scores, [70, 70]);
    assert_eq!(game.lives, [2, 2]);
    assert_eq!(game.states, [RunnerState::Alive, RunnerState::Dying]);
    assert_eq!(game.energized, [false, true]);
    assert_eq!(game.ghosts.len(), 2);
    assert_eq!(game.ghosts[1].1, GhostMode::Frightened);
    assert_eq!(game.ghosts[0].0.render(), snap.ghosts[0].pos.world());
    assert_eq!(game.pellets.at(corridors[0]), None);
    assert_eq!(game.pellets.at(corridors[1]), Some(PelletKind::Power));
    assert_eq!(game.remote.render(), snap.pacmen[1].pos.world());

    // A ghost that is no longer named stays where it was.
    snap.ghosts.truncate(1);
    apply_snapshot(&mut game, &snap);
    assert_eq!(game.ghosts.len(), 2);
}

#[test]
fn a_death_or_a_stun_overrules_the_prediction() {
    for (state, stunned) in [(RunnerState::Dying, false), (RunnerState::Alive, true)] {
        let mut link = playing(0);
        link.desired = Desired(Some(Dir::Right));
        for _ in 0..5 {
            assert!(link.send_input().is_some());
        }
        let mut snap = snapshot(3);
        snap.pacmen[0].state = state;
        snap.pacmen[0].stunned = stunned;
        link.receive_snapshots(&vec![packet(snap)]);
        let game = link.game.as_ref().unwrap();
        assert!(game.local.pending.is_empty());
        assert_eq!(game.local.pos.tile, spawn_p0());
        assert_eq!(link.send_input(), None, "it has no say now");
    }
}

#[test]
fn an_ordinary_snapshot_keeps_the_prediction() {
    let mut link = playing(0);
    link.desired = Desired(Some(Dir::Right));
    for _ in 0..5 {
        link.send_input();
    }
    let before = link.game.as_ref().unwrap().local.pos;
    link.receive_snapshots(&vec![packet(snapshot(3))]);
    let game = link.game.as_ref().unwrap();
    assert_eq!(game.local.pos, before);
    assert_eq!(game.local.pending.len(), 5);
    assert_eq!(game.local.last_correction, 0);
}

#[test]
fn inputs_are_numbered_and_sent() {
    let mut link = playing(0);
    assert_eq!(link.send_input(), None, "no direction yet");
    link.desired = Desired(Some(Dir::Up));
    for seq in 1..4 {
        assert_eq!(
            decode::<ClientMsg>(&link.send_input().unwrap()).unwrap(),
            ClientMsg::Input { seq, dir: Dir::Up }
        );
    }
    assert_eq!(Link::default().send_input(), None);
}

#[test]
fn the_last_key_wins() {
    let mut desired = Desired::default();
    desired.read_keyboard(no_keys());
    assert_eq!(desired.0, None);
    desired.read_keyboard(Steering {
        w: true,
        a: true,
        ..no_keys()
    });
    assert_eq!(desired.0, Some(Dir::Left));
    desired.read_keyboard(no_keys());
    assert_eq!(desired.0, Some(Dir::Left), "a direction stands until the next key");
    for (keys, dir) in [
        (Steering { arrow_up: true, ..no_keys() }, Dir::Up),
        (Steering { arrow_down: true, ..no_keys() }, Dir::Down),
        (Steering { s: true, ..no_keys() }, Dir::Down),
        (Steering { arrow_left: true, ..no_keys() }, Dir::Left),
        (Steering { arrow_right: true, ..no_keys() }, Dir::Right),
        (Steering { d: true, ..no_keys() }, Dir::Right),
    ] {
        desired.read_keyboard(keys);
        assert_eq!(desired.0, Some(dir));
    }
}

#[test]
fn interpolation_advances_with_the_frames() {
    let mut link = playing(0);
    let mut snap = snapshot(1);
    snap.pacmen[1].pos.tile.x -= 1;
    snap.ghosts = vec![GhostSnap {
        pos: GridPos::new(IVec2::new(6, 23), Dir::Up),
        mode: GhostMode::Chase,
    }];
    link.receive_snapshots(&vec![packet(snap.clone())]);
    link.advance_interpolation(SNAPSHOT_INTERVAL / 2);
    let game = link.game.as_ref().unwrap();
    assert_eq!(game.remote.elapsed, SNAPSHOT_INTERVAL / 2);
    assert_eq!(game.ghosts[0].0.elapsed, SNAPSHOT_INTERVAL / 2);
    assert_eq!(
        game.remote.render().x,
        spawn_p1().x as i64 * TILE_UNITS - TILE_UNITS / 2
    );
    link.advance_interpolation(10 * SNAPSHOT_INTERVAL);
    assert_eq!(
        link.game.as_ref().unwrap().remote.render(),
        snap.pacmen[1].pos.world()
    );
}

#[test]
fn disconnecting_leaves_nothing_behind() {
    let mut link = playing(0);
    link.desired = Desired(Some(Dir::Up));
    link.say_hello(true);
    link.disconnect();
    assert!(link.game.is_none());
    assert!(link.assignment.is_none());
    assert_eq!(link.desired, Desired(None));
    assert!(!link.handshake.hello_sent);
}
