//! What the two ends of the wire agree on.
//!
//! The server is the only authority, and the client shows what it is told. These
//! are the laws that tie the two together: what one sends the other reads, what one
//! predicts the other does, and the pellets one shows are the pellets the other
//! has.

use vstd::prelude::*;
#[allow(unused_imports)]
use crate::backend::auth::{player_claims, ClaimsView};
#[allow(unused_imports)]
use crate::client::net::{changed, patched, snapshot_in};
#[allow(unused_imports)]
use crate::client::predict::stepped;
#[allow(unused_imports)]
use crate::grid::{IVec2, SECOND, TICK_DT};
#[allow(unused_imports)]
use crate::movement::Dir;
#[allow(unused_imports)]
use crate::pellets::{law_snapshot_bits_round_trip, restored, FieldView, PelletKind, DRIP_PER_SEC};
#[allow(unused_imports)]
use crate::protocol::{
    law_messages_round_trip, PelletDelta, ServerMsg, ServerMsgView, Snapshot, Wire,
};
#[allow(unused_imports)]
use crate::server::session::{deltas_of, snapshot_of, welcome_of, SessionView};
#[allow(unused_imports)]
use crate::sim::{
    ate, clock_struck, ghosts_met, ghosts_moved, judged, live_tiles, moved, no_events,
    pellets_eaten, replenished, robbed, runners_moved, ticked, Runner, SimView, Turn,
};
#[allow(unused_imports)]
use crate::sim_laws::lemma_meeting_leaves_the_pellets;
#[allow(unused_imports)]
use crate::text::{decimal, law_decimal_reads_back, law_whole_numbers_need_no_rounding};
#[allow(unused_imports)]
use crate::tokens::{session_claims, signed_claims};

verus! {

/// The client reads a snapshot as the server meant it.
pub proof fn law_the_client_sees_what_the_server_sends(t: Turn, last_seq: u32)
    requires
        t.sim.wf(),
        Snapshot::fits(snapshot_of(t, last_seq)),
    ensures
        snapshot_in(ServerMsg::wire(ServerMsgView::Snapshot(snapshot_of(t, last_seq)))) == Some(
            snapshot_of(t, last_seq),
        ),
{
    let s = snapshot_of(t, last_seq);
    assert forall|i: int| 0 <= i < s.ghosts.len() implies (
    #[trigger] s.ghosts[i]).pos.in_tile() by {
        assert(t.sim.ghosts[i].sound());
    }
    law_messages_round_trip::<ServerMsg>(ServerMsgView::Snapshot(s));
}

/// The client reads a welcome as the server meant it, and the field it unpacks is
/// the server's, but for the fraction the drip owes.
pub proof fn law_a_welcome_carries_the_field(s: SessionView, slot: u8)
    requires
        s.sim.pellets.wf(),
        s.sim.pellets.on_corridors(),
        ServerMsg::fits(welcome_of(s, slot)),
    ensures
        ServerMsg::read(ServerMsg::wire(welcome_of(s, slot))) == Some(
            (welcome_of(s, slot), Seq::<u8>::empty()),
        ),
        restored(s.sim.pellets.bits()) == (FieldView { carry: 0, ..s.sim.pellets }),
{
    law_messages_round_trip::<ServerMsg>(welcome_of(s, slot));
    law_snapshot_bits_round_trip(s.sim.pellets);
}

/// A runner that can move goes exactly where its player predicted: one tick of the
/// server is one input of the client.
pub proof fn law_client_and_server_move_alike(r: Runner, now: i64, dir: Dir)
    requires
        r.is_active(),
        !r.is_stunned(now),
        r.desired == Some(dir),
    ensures
        moved(r, now).pos == stepped(r.pos, dir),
{
}

/// What the backend signs for a player, the server takes for that player.
pub proof fn law_an_issued_token_names_its_player(
    secret: Seq<char>,
    token: Seq<char>,
    player: Seq<char>,
    nick: Seq<char>,
    exp: u64,
)
    requires
        signed_claims(secret, token) == Some(
            (Some(player), Some(Some(nick)), Some(decimal(exp as nat))),
        ),
    ensures
        session_claims(secret, token) == Some((player, nick, exp)),
        player_claims(secret, token) == Some((ClaimsView { sub: player, nick, exp })),
{
    law_decimal_reads_back(exp as nat);
    law_whole_numbers_need_no_rounding(exp);
}

proof fn lemma_patched_in_two_parts(f: FieldView, a: Seq<PelletDelta>, b: Seq<PelletDelta>)
    ensures
        patched(f, a + b) == patched(patched(f, a), b),
    decreases b.len(),
{
    if b.len() == 0 {
        assert(a + b =~= a);
    } else {
        lemma_patched_in_two_parts(f, a, b.drop_last());
        assert((a + b).drop_last() =~= a + b.drop_last());
    }
}

/// What the drip owes has no say in where pellets lie.
proof fn lemma_patched_ignores_the_carry(f: FieldView, g: FieldView, deltas: Seq<PelletDelta>)
    requires
        f.cells == g.cells,
    ensures
        patched(f, deltas).cells == patched(g, deltas).cells,
    decreases deltas.len(),
{
    if deltas.len() > 0 {
        lemma_patched_ignores_the_carry(f, g, deltas.drop_last());
    }
}

/// The changes that spawned pellets make.
pub open spec fn spawns(list: Seq<(IVec2, PelletKind)>) -> Seq<PelletDelta> {
    list.map_values(|p: (IVec2, PelletKind)| PelletDelta::Spawned(p.0, p.1))
}

/// The changes that eaten pellets make.
pub open spec fn meals(list: Seq<(IVec2, PelletKind, u8)>) -> Seq<PelletDelta> {
    list.map_values(|p: (IVec2, PelletKind, u8)| PelletDelta::Eaten(p.0))
}

proof fn lemma_one_change(f: FieldView, delta: PelletDelta)
    ensures
        patched(f, seq![delta]) == changed(f, delta),
{
    assert(seq![delta].drop_last() =~= Seq::<PelletDelta>::empty());
    assert(patched(f, Seq::<PelletDelta>::empty()) == f);
}

/// The drip changes exactly the tiles it says it landed on.
proof fn lemma_settled_says_where(f: FieldView, state: u64, players: Seq<IVec2>)
    ensures
        f.settled(state, players).0.cells == patched(f, spawns(f.settled(state, players).2)).cells,
    decreases f.carry,
{
    let (field, last, spawned) = f.settled(state, players);
    if f.carry < SECOND {
        assert(spawns(spawned) =~= Seq::<PelletDelta>::empty());
    } else {
        let owed = FieldView { carry: f.carry - SECOND, ..f };
        let (tile, after) = f.picked(state, players);
        match tile {
            Some(t) => {
                let next = owed.with(t, Some(PelletKind::Normal));
                assert(next.carry == f.carry - SECOND);
                lemma_settled_says_where(next, after, players);
                let rest = next.settled(after, players).2;
                let first = PelletDelta::Spawned(t, PelletKind::Normal);
                assert(spawned == seq![(t, PelletKind::Normal)] + rest);
                assert(spawns(spawned) =~= seq![first] + spawns(rest));
                lemma_patched_in_two_parts(f, seq![first], spawns(rest));
                lemma_one_change(f, first);
                lemma_patched_ignores_the_carry(next, changed(f, first), spawns(rest));
            },
            None => {
                assert(spawns(spawned) =~= Seq::<PelletDelta>::empty());
            },
        }
    }
}

/// A bite changes exactly the tile it says it emptied.
proof fn lemma_a_bite_says_where(t: Turn, slot: int)
    ensures
        patched(t.sim.pellets, meals(ate(t, slot).events.pellets_eaten.skip(
            t.events.pellets_eaten.len() as int,
        ))) == ate(t, slot).sim.pellets,
        ate(t, slot).events.pellets_eaten.len() >= t.events.pellets_eaten.len(),
        ate(t, slot).events.pellets_eaten.take(t.events.pellets_eaten.len() as int)
            == t.events.pellets_eaten,
        ate(t, slot).events.pellets_spawned == t.events.pellets_spawned,
{
    let before = t.events.pellets_eaten;
    let after = ate(t, slot).events.pellets_eaten;
    let news = after.skip(before.len() as int);
    if after.len() == before.len() {
        assert(after =~= before);
        assert(meals(news) =~= Seq::<PelletDelta>::empty());
    } else {
        let tile = after.last().0;
        assert(meals(news) =~= seq![PelletDelta::Eaten(tile)]);
        lemma_one_change(t.sim.pellets, PelletDelta::Eaten(tile));
    }
    assert(after.take(before.len() as int) =~= before);
}

proof fn lemma_eating_says_where(t: Turn)
    requires
        t.events.pellets_eaten.len() == 0,
    ensures
        patched(t.sim.pellets, meals(pellets_eaten(t).events.pellets_eaten)) == pellets_eaten(
            t,
        ).sim.pellets,
        pellets_eaten(t).events.pellets_spawned == t.events.pellets_spawned,
{
    reveal(pellets_eaten);
    let first = ate(t, 0);
    let both = ate(first, 1);
    lemma_a_bite_says_where(t, 0);
    lemma_a_bite_says_where(first, 1);
    let (e0, e1) = (first.events.pellets_eaten, both.events.pellets_eaten);
    let news = e1.skip(e0.len() as int);
    assert(e0.skip(0) =~= e0);
    assert(e1 =~= e0 + news);
    assert(meals(e1) =~= meals(e0) + meals(news));
    lemma_patched_in_two_parts(t.sim.pellets, meals(e0), meals(news));
}

proof fn lemma_upkeep_says_where(t: Turn)
    requires
        t.events.pellets_spawned.len() == 0,
    ensures
        replenished(t).sim.pellets.cells == patched(
            t.sim.pellets,
            spawns(replenished(t).events.pellets_spawned),
        ).cells,
        replenished(t).events.pellets_eaten == t.events.pellets_eaten,
{
    reveal(replenished);
    let live = live_tiles(t.sim);
    let start = FieldView {
        carry: t.sim.pellets.carry + DRIP_PER_SEC * TICK_DT,
        ..t.sim.pellets
    };
    let (field, state, spawned) = start.settled(t.sim.rng, live);
    assert((field, state, spawned) == t.sim.pellets.dripped(
        t.sim.rng,
        live,
        TICK_DT as int,
    ));
    lemma_settled_says_where(start, t.sim.rng, live);
    lemma_patched_ignores_the_carry(start, t.sim.pellets, spawns(spawned));
    assert(t.events.pellets_spawned + spawned =~= spawned);
    if t.sim.elapsed >= t.sim.next_power_at {
        let (powered, last, landed) = field.powered(state, live);
        if let Some(tile) = landed {
            let extra = PelletDelta::Spawned(tile, PelletKind::Power);
            assert(spawns(spawned.push((tile, PelletKind::Power))) =~= spawns(spawned)
                + seq![extra]);
            lemma_patched_in_two_parts(t.sim.pellets, spawns(spawned), seq![extra]);
            lemma_one_change(patched(t.sim.pellets, spawns(spawned)), extra);
            lemma_one_change(field, extra);
            lemma_patched_ignores_the_carry(
                field,
                patched(t.sim.pellets, spawns(spawned)),
                seq![extra],
            );
        }
    }
}

/// The changes a snapshot carries are the changes the tick made: a client that
/// showed the server's pellets before a tick shows the server's pellets after it.
pub proof fn law_the_pellet_fields_stay_in_step(s: SimView, shown: FieldView)
    requires
        shown.cells == s.pellets.cells,
    ensures
        patched(shown, deltas_of(ticked(s).events)).cells == ticked(s).sim.pellets.cells,
{
    let events = ticked(s).events;
    if s.phase is Running {
        reveal(clock_struck);
        reveal(runners_moved);
        reveal(ghosts_moved);
        reveal(judged);
        let out = Turn { sim: runners_moved(clock_struck(s)), events: no_events() };
        assert(out.sim.pellets == s.pellets);
        let eaten = pellets_eaten(out);
        let hunted = Turn { sim: ghosts_moved(eaten.sim), ..eaten };
        let met = robbed(ghosts_met(hunted));
        lemma_eating_says_where(out);
        lemma_meeting_leaves_the_pellets(hunted);
        lemma_upkeep_says_where(met);
        assert(deltas_of(events) =~= meals(events.pellets_eaten) + spawns(events.pellets_spawned));
        lemma_patched_in_two_parts(
            s.pellets,
            meals(events.pellets_eaten),
            spawns(events.pellets_spawned),
        );
        lemma_patched_ignores_the_carry(shown, s.pellets, deltas_of(events));
    } else {
        assert(deltas_of(events) =~= Seq::<PelletDelta>::empty());
    }
}

} // verus!
