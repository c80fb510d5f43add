use pacman_duel::ghosts::GhostMode;
use pacman_duel::grid::{IVec2, TILE_UNITS};
use pacman_duel::movement::{Dir, GridPos, OFFSET_LIMIT};
use pacman_duel::pellets::{PelletField, PelletKind};
use pacman_duel::protocol::{
    decode, encode, ClientMsg, GhostSnap, PacSnap, PelletDelta, ServerMsg, Snapshot,
    PROTOCOL_VERSION,
};
use pacman_duel::sim::RunnerState;

fn sample_snapshot() -> Snapshot {
    let pac = PacSnap {
        pos: GridPos::new(IVec2::new(14, 23), Dir::Left),
        state: RunnerState::Alive,
        lives: 3,
        score: 12_340,
        energized: true,
        stunned: false,
    };
    Snapshot {
        tick: 5_400,
        elapsed_ms: 180_000,
        last_processed_seq: 5_399,
        pacmen: [pac.clone(), pac],
        ghosts: (0..7)
            .map(|i| GhostSnap {
                pos: GridPos::new(IVec2::new(i, 14), Dir::Up),
                mode: GhostMode::Chase,
            })
            .collect(),
        pellet_deltas: vec![
            PelletDelta::Eaten(IVec2::new(1, 1)),
            PelletDelta::Spawned(IVec2::new(2, 2), PelletKind::Normal),
            PelletDelta::Spawned(IVec2::new(3, 3), PelletKind::Power),
        ],
    }
}

#[test]
fn a_snapshot_round_trips() {
    let snap = sample_snapshot();
    let bytes = encode(&ServerMsg::Snapshot(snap.clone())).unwrap();
    match decode::<ServerMsg>(&bytes).unwrap() {
        ServerMsg::Snapshot(got) => assert_eq!(got, snap),
        other => panic!("decoded the wrong variant: {other:?}"),
    }
}

#[test]
fn a_full_snapshot_stays_small() {
    let bytes = encode(&ServerMsg::Snapshot(sample_snapshot())).unwrap();
    assert!(
        bytes.len() < 400,
        "snapshot grew to {} bytes, which breaks the bandwidth assumption",
        bytes.len()
    );
}

#[test]
fn an_input_is_tiny() {
    let bytes = encode(&ClientMsg::Input {
        seq: 100_000,
        dir: Dir::Left,
    })
    .unwrap();
    assert!(bytes.len() <= 8, "input grew to {} bytes", bytes.len());
}

#[test]
fn client_messages_round_trip() {
    let hello = ClientMsg::Hello {
        version: PROTOCOL_VERSION,
        player_id: "gst_7f3a".into(),
        session_token: "tok".into(),
    };
    assert_eq!(decode::<ClientMsg>(&encode(&hello).unwrap()).unwrap(), hello);
}

#[test]
fn match_over_round_trips_including_a_draw() {
    for winner in [Some(0u8), Some(1), None] {
        let msg = ServerMsg::MatchOver {
            scores: [1200, 1200],
            winner,
        };
        assert_eq!(decode::<ServerMsg>(&encode(&msg).unwrap()).unwrap(), msg);
    }
}

#[test]
fn garbage_is_rejected_instead_of_panicking() {
    assert!(decode::<ClientMsg>(&[]).is_err());
    assert!(decode::<Snapshot>(&[0x01]).is_err());
}

#[test]
fn the_pellet_sync_fits_in_a_welcome() {
    let pellets = PelletField::new_full().snapshot_bits();
    let msg = ServerMsg::Welcome {
        slot: 0,
        seed: 42,
        pellets,
        nicks: ["yurei".into(), "rival".into()],
    };
    let bytes = encode(&msg).unwrap();
    assert!(bytes.len() < 200, "welcome grew to {} bytes", bytes.len());
}

#[test]
fn a_welcome_round_trips() {
    let msg = ServerMsg::Welcome {
        slot: 1,
        seed: u64::MAX,
        pellets: PelletField::new_full().snapshot_bits(),
        nicks: ["ñandú".into(), "".into()],
    };
    assert_eq!(decode::<ServerMsg>(&encode(&msg).unwrap()).unwrap(), msg);
    let refusal = ServerMsg::Rejected {
        reason: "NoSlots".into(),
    };
    assert_eq!(decode::<ServerMsg>(&encode(&refusal).unwrap()).unwrap(), refusal);
}

/// A variant travels as its number, a number as few bytes as it needs, and a text
/// as its length and its bytes.
#[test]
fn messages_look_like_postcard_on_the_wire() {
    let input = ClientMsg::Input {
        seq: 100_000,
        dir: Dir::Left,
    };
    assert_eq!(
        encode(&input).unwrap(),
        postcard::to_allocvec(&(1u32, 100_000u32, 2u32)).unwrap()
    );

    let hello = ClientMsg::Hello {
        version: 300,
        player_id: "gst_ñ".into(),
        session_token: "tok".into(),
    };
    assert_eq!(
        encode(&hello).unwrap(),
        postcard::to_allocvec(&(0u32, 300u16, "gst_ñ", "tok")).unwrap()
    );

    let welcome = ServerMsg::Welcome {
        slot: 1,
        seed: 1 << 40,
        pellets: vec![1, 2, 255],
        nicks: ["a".into(), "b".into()],
    };
    assert_eq!(
        encode(&welcome).unwrap(),
        postcard::to_allocvec(&(0u32, 1u8, 1u64 << 40, &[1u8, 2, 255][..], "a", "b")).unwrap()
    );

    let over = ServerMsg::MatchOver {
        scores: [7, 70_000],
        winner: Some(1),
    };
    assert_eq!(
        encode(&over).unwrap(),
        postcard::to_allocvec(&(3u32, 7u32, 70_000u32, Some(1u8))).unwrap()
    );
}

#[test]
fn a_snapshot_looks_like_postcard_on_the_wire() {
    let mut snap = sample_snapshot();
    snap.ghosts.truncate(1);
    snap.ghosts[0].pos.offset = -1;
    snap.pellet_deltas.truncate(2);
    let pac = (14i32, 23i32, 0f32, 2u32, 0u32, 3u8, 12_340u32, true, false);
    assert_eq!(
        encode(&snap).unwrap(),
        postcard::to_allocvec(&(
            (5_400u32, 180_000u32, 5_399u32),
            (pac, pac),
            (1u8, 0i32, 14i32, -1f32 / 12_000_000f32, 0u32, 1u32),
            (2u8, (0u32, 1i32, 1i32), (1u32, 2i32, 2i32, 0u32)),
        ))
        .unwrap()
    );
}

#[test]
fn a_message_cut_short_is_refused() {
    let bytes = encode(&ServerMsg::Snapshot(sample_snapshot())).unwrap();
    for n in 0..bytes.len() {
        assert!(decode::<ServerMsg>(&bytes[..n]).is_err(), "{n} bytes were enough");
    }
}

#[test]
fn an_unknown_variant_is_refused() {
    assert!(decode::<ClientMsg>(&[9, 0, 0]).is_err());
    assert!(decode::<ServerMsg>(&[4]).is_err());
    assert!(decode::<Dir>(&[4]).is_err());
}

#[test]
fn text_that_is_no_text_is_refused() {
    // A rejection whose reason is one byte that no text holds.
    assert!(decode::<ServerMsg>(&[1, 1, 0xff]).is_err());
    assert_eq!(
        decode::<ServerMsg>(&[1, 1, b'x']).unwrap(),
        ServerMsg::Rejected { reason: "x".into() }
    );
}

#[test]
fn a_protocol_error_says_so() {
    let err = decode::<ClientMsg>(&[]).unwrap_err();
    assert_eq!(err.message(), "protocol error: decode failed");
}

#[test]
fn an_offset_travels_in_single_precision() {
    let mut offset = 0i64;
    while offset < TILE_UNITS {
        let pos = GridPos { tile: IVec2::new(3, -4), offset, dir: Dir::Down };
        let bytes = encode(&pos).unwrap();
        let single = offset as f32 / TILE_UNITS as f32;
        assert_eq!(bytes, postcard::to_allocvec(&(3i32, -4i32, single, 1u32)).unwrap());
        assert_eq!(decode::<GridPos>(&bytes).unwrap(), pos);
        offset += if offset < 2_000 || offset > TILE_UNITS - 2_000 { 1 } else { 997 };
    }
}

#[test]
fn any_single_precision_number_is_an_offset() {
    let read = |single: f32| {
        let bytes = postcard::to_allocvec(&(0i32, 0i32, single, 0u32)).unwrap();
        decode::<GridPos>(&bytes).unwrap().offset
    };
    assert_eq!(read(0.5), TILE_UNITS / 2);
    assert_eq!(read(-1.5), -TILE_UNITS - TILE_UNITS / 2);
    assert_eq!(read(1024.0), 1024 * TILE_UNITS);
    assert_eq!(read(1e-30), 0);
    assert_eq!(read(f32::MIN_POSITIVE / 2.0), 0);
    assert_eq!(read(1e30), OFFSET_LIMIT);
    assert_eq!(read(f32::INFINITY), OFFSET_LIMIT);
    assert_eq!(read(f32::NEG_INFINITY), -OFFSET_LIMIT);
    assert_eq!(read(f32::NAN), 0);
    for offset in [i64::MAX, i64::MIN, 1 << 40, -(1 << 55), -7] {
        let pos = GridPos { tile: IVec2::new(0, 0), offset, dir: Dir::Up };
        let single = (offset as f64 / TILE_UNITS as f64) as f32;
        assert_eq!(
            encode(&pos).unwrap(),
            postcard::to_allocvec(&(0i32, 0i32, single, 0u32)).unwrap()
        );
    }
}
