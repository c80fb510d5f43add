//! Match state and the fixed tick loop.
//!
//! This is the authority. It owns the simulation, decides which connection owns
//! which slot, and is the only thing that may say what a score is.

use vstd::prelude::*;
use std::collections::HashMap;
use crate::grid::{IVec2, MILLISECOND, TICK_DT};
use crate::movement::Dir;
use crate::pellets::PelletKind;
use crate::protocol::{
    decode, ClientMsg, GhostSnap, PacSnap, PelletDelta, ServerMsg, Snapshot, PROTOCOL_VERSION,
};
use crate::server::roster::{placeholder_nick, Roster};
use crate::sim::{MatchPhase, Sim, TickEvents};
use crate::text::parse_rounded;
use crate::tokens::{now_secs, open};
#[allow(unused_imports)]
use crate::protocol::{ClientMsgView, ServerMsgView, SnapshotView, Wire};
#[allow(unused_imports)]
use crate::server::roster::{placeholder, RosterView};
#[allow(unused_imports)]
use crate::sim::{
    abandoned, opening, started, steered, ticked, EventsView, Runner, SimView, Turn,
};
#[allow(unused_imports)]
use crate::pellets::{law_snapshot_bits_round_trip, restored};
#[allow(unused_imports)]
use crate::text::decimal;
#[allow(unused_imports)]
use crate::tokens::session_claims;

verus! {

broadcast use vstd::std_specs::hash::group_hash_axioms;

/// How long the server waits for both players before starting with whoever
/// turned up: thirty seconds. Without this a single no-show would hold a pod open
/// forever.
pub const START_GRACE: i64 = 360_000;

#[derive(Debug, Clone, PartialEq, Eq)]
pub struct SlotOccupant {
    pub player_id: String,
    pub nick: String,
    pub connected: bool,
    /// True once this slot has ever been occupied. A slot that nobody ever took
    /// makes the match unratable.
    pub ever_present: bool,
}

/// The contents of a slot.
#[verifier::ext_equal]
pub struct OccupantView {
    pub player_id: Seq<char>,
    pub nick: Seq<char>,
    pub connected: bool,
    pub ever_present: bool,
}

impl View for SlotOccupant {
    type V = OccupantView;

    open spec fn view(&self) -> OccupantView {
        OccupantView {
            player_id: self.player_id@,
            nick: self.nick@,
            connected: self.connected,
            ever_present: self.ever_present,
        }
    }
}

/// A slot nobody took.
pub open spec fn vacant() -> OccupantView {
    OccupantView {
        player_id: Seq::empty(),
        nick: Seq::empty(),
        connected: false,
        ever_present: false,
    }
}

impl Default for SlotOccupant {
    fn default() -> (o: SlotOccupant)
        ensures
            o@ == vacant(),
    {
        SlotOccupant {
            player_id: String::new(),
            nick: String::new(),
            connected: false,
            ever_present: false,
        }
    }
}

pub struct Session {
    pub sim: Sim,
    pub roster: Option<Roster>,
    pub match_id: String,
    pub slots: [SlotOccupant; 2],
    pub slot_by_client: HashMap<u64, u8>,
    /// Last input sequence applied per slot, echoed back for reconciliation.
    pub last_seq: [u32; 2],
    /// How long the match has waited for its players, in time units.
    pub waited: i64,
    pub seed: u64,
    /// Set once the result has been handed to the reporter, so it happens once.
    pub reported: bool,
}

/// A session, mathematically.
#[verifier::ext_equal]
pub struct SessionView {
    pub sim: SimView,
    pub roster: Option<RosterView>,
    pub match_id: Seq<char>,
    pub slots: (OccupantView, OccupantView),
    pub slot_by_client: Map<u64, u8>,
    pub last_seq: (u32, u32),
    pub waited: i64,
    pub seed: u64,
    pub reported: bool,
}

impl View for Session {
    type V = SessionView;

    open spec fn view(&self) -> SessionView {
        SessionView {
            sim: self.sim@,
            roster: match self.roster {
                Some(r) => Some(r@),
                None => None,
            },
            match_id: self.match_id@,
            slots: (self.slots@[0]@, self.slots@[1]@),
            slot_by_client: self.slot_by_client@,
            last_seq: (self.last_seq@[0], self.last_seq@[1]),
            waited: self.waited,
            seed: self.seed,
            reported: self.reported,
        }
    }
}

#[derive(Debug, Clone, Copy, PartialEq, Eq, Structural)]
pub enum BindError {
    BadToken,
    WrongVersion,
    SlotTaken,
    NoSlots,
}

impl BindError {
    /// The name of the error.
    pub open spec fn label(self) -> Seq<char> {
        match self {
            BindError::BadToken => "BadToken"@,
            BindError::WrongVersion => "WrongVersion"@,
            BindError::SlotTaken => "SlotTaken"@,
            BindError::NoSlots => "NoSlots"@,
        }
    }

    pub fn name(&self) -> (s: String)
        ensures
            s@ == self.label(),
    {
        match self {
            BindError::BadToken => "BadToken".to_owned(),
            BindError::WrongVersion => "WrongVersion".to_owned(),
            BindError::SlotTaken => "SlotTaken".to_owned(),
            BindError::NoSlots => "NoSlots".to_owned(),
        }
    }
}

/// Verifies a session token at a given second and returns the identity inside it.
/// The token is signed by the backend with the shared internal secret, which the
/// client never holds, so this is what actually stops a player claiming to be
/// somebody else.
pub fn verify_session_token(secret: &str, token: &str, now: u64) -> (r: Option<(String, String)>)
    ensures
        match r {
            Some((id, nick)) => session_claims(secret@, token@) matches Some((s, n, exp)) && id@
                == s && nick@ == n && now <= exp,
            None => match session_claims(secret@, token@) {
                Some((_, _, exp)) => exp < now,
                None => true,
            },
        },
{
    let claims = match open(secret, token) {
        Some(claims) => claims,
        None => return None,
    };
    let exp: u64 = match claims.exp {
        Some(exp) => match parse_rounded(exp.as_str()) {
            Some(exp) => exp,
            None => return None,
        },
        None => return None,
    };
    let sub = match claims.sub {
        Some(sub) => sub,
        None => return None,
    };
    let nick = match claims.nick {
        Some(Some(nick)) => nick,
        Some(None) => return None,
        None => String::new(),
    };
    if exp < now {
        return None;
    }
    Some((sub, nick))
}

impl SessionView {
    /// Every connection is bound to one of the two slots.
    pub open spec fn wf(self) -> bool {
        &&& self.sim.wf()
        &&& forall|c: u64| #[trigger]
            self.slot_by_client.contains_key(c) ==> self.slot_by_client[c] < 2
    }

    pub open spec fn slot(self, i: int) -> OccupantView {
        if i == 0 {
            self.slots.0
        } else {
            self.slots.1
        }
    }

    pub open spec fn with_slot(self, i: int, o: OccupantView) -> SessionView {
        if i == 0 {
            SessionView { slots: (o, self.slots.1), ..self }
        } else {
            SessionView { slots: (self.slots.0, o), ..self }
        }
    }

    pub open spec fn with_client(self, client: u64, slot: u8) -> SessionView {
        SessionView { slot_by_client: self.slot_by_client.insert(client, slot), ..self }
    }

    /// Whether a slot was taken by this player before.
    pub open spec fn is_seat_of(self, i: int, player: Seq<char>) -> bool {
        self.slot(i).ever_present && self.slot(i).player_id == player
    }

    /// The slot the roster gives a player, if it is one of the two.
    pub open spec fn wanted(self, player: Seq<char>) -> Option<u8> {
        match self.roster {
            Some(r) => match r.slot_of(player) {
                Some(s) => if s < 2 {
                    Some(s)
                } else {
                    None
                },
                None => None,
            },
            None => None,
        }
    }

    /// Where a player sits. Reconnecting into your own slot is fine. The roster
    /// decides seating when it names the player; otherwise slots are handed out in
    /// connection order.
    pub open spec fn seating(self, player: Seq<char>) -> Result<u8, BindError> {
        if self.is_seat_of(0, player) {
            Ok(0)
        } else if self.is_seat_of(1, player) {
            Ok(1)
        } else {
            match self.wanted(player) {
                Some(s) => if self.slot(s as int).ever_present {
                    Err(BindError::SlotTaken)
                } else {
                    Ok(s)
                },
                None => if !self.slots.0.ever_present {
                    Ok(0)
                } else if !self.slots.1.ever_present {
                    Ok(1)
                } else {
                    Err(BindError::NoSlots)
                },
            }
        }
    }

    /// The name a newly seated player goes by: the roster's, else the token's,
    /// else a placeholder.
    pub open spec fn nick_for(self, player: Seq<char>, token_nick: Seq<char>, slot: u8) -> Seq<
        char,
    > {
        let listed = match self.roster {
            Some(r) => match r.nick_of(player) {
                Some(n) => n,
                None => Seq::empty(),
            },
            None => Seq::empty(),
        };
        if listed.len() > 0 {
            listed
        } else if token_nick.len() > 0 {
            token_nick
        } else {
            placeholder(slot as nat)
        }
    }

    /// The session after a player was given the slot that is theirs.
    pub open spec fn seated_in(
        self,
        client: u64,
        player: Seq<char>,
        token_nick: Seq<char>,
        slot: u8,
    ) -> SessionView {
        let occupant = if self.is_seat_of(slot as int, player) {
            OccupantView { connected: true, ..self.slot(slot as int) }
        } else {
            OccupantView {
                player_id: player,
                nick: self.nick_for(player, token_nick, slot),
                connected: true,
                ever_present: true,
            }
        };
        self.with_slot(slot as int, occupant).with_client(client, slot)
    }

    /// The session after a connection said who it is.
    pub open spec fn bound(self, client: u64, player: Seq<char>, token_nick: Seq<char>) -> (
        SessionView,
        Result<u8, BindError>,
    ) {
        match self.seating(player) {
            Ok(slot) => (self.seated_in(client, player, token_nick, slot), Ok(slot)),
            Err(e) => (self, Err(e)),
        }
    }

    /// The session after a connection is gone: its slot is no longer connected,
    /// but stays taken.
    pub open spec fn released(self, client: u64) -> SessionView {
        if self.slot_by_client.contains_key(client) {
            let slot = self.slot_by_client[client];
            SessionView {
                slot_by_client: self.slot_by_client.remove(client),
                ..self.with_slot(
                    slot as int,
                    OccupantView { connected: false, ..self.slot(slot as int) },
                )
            }
        } else {
            self
        }
    }

    /// The session after a player left. Walking out forfeits the remaining lives;
    /// the match plays on so the other player still gets a result.
    pub open spec fn left(self, client: u64) -> SessionView {
        let r = self.released(client);
        if self.slot_by_client.contains_key(client) && self.sim.phase is Running {
            SessionView { sim: abandoned(r.sim, self.slot_by_client[client]), ..r }
        } else {
            r
        }
    }

    /// The session after a hello that presents this token at this second, and its
    /// outcome. A server without a secret lets nobody in, whatever they present.
    pub open spec fn bound_at(
        self,
        client: u64,
        version: u16,
        secret: Seq<char>,
        token: Seq<char>,
        now: u64,
    ) -> (SessionView, Result<u8, BindError>) {
        if version != PROTOCOL_VERSION {
            (self, Err(BindError::WrongVersion))
        } else if secret.len() == 0 {
            (self, Err(BindError::BadToken))
        } else {
            match session_claims(secret, token) {
                Some((player, nick, exp)) if now <= exp => self.bound(client, player, nick),
                _ => (self, Err(BindError::BadToken)),
            }
        }
    }

    /// The last sequence number applied for a slot.
    pub open spec fn seq_of(self, i: int) -> u32 {
        if i == 0 {
            self.last_seq.0
        } else {
            self.last_seq.1
        }
    }

    /// The session after an input. Inputs from a connection that never said hello
    /// are dropped. Unreliable delivery reorders: an older input than the one
    /// already applied says nothing new.
    pub open spec fn fed(self, client: u64, seq: u32, dir: Dir) -> SessionView {
        if self.slot_by_client.contains_key(client) && seq > self.seq_of(
            self.slot_by_client[client] as int,
        ) {
            let slot = self.slot_by_client[client];
            SessionView {
                last_seq: if slot == 0 {
                    (seq, self.last_seq.1)
                } else {
                    (self.last_seq.0, seq)
                },
                sim: steered(self.sim, slot, dir),
                ..self
            }
        } else {
            self
        }
    }

    /// The match with every slot given up that nobody took.
    pub open spec fn without_absentees(self) -> SimView {
        let s0 = if self.slots.0.ever_present {
            self.sim
        } else {
            abandoned(self.sim, 0)
        };
        if self.slots.1.ever_present {
            s0
        } else {
            abandoned(s0, 1)
        }
    }

    /// The session one tick further into waiting: it starts as soon as both are
    /// seated, or after the grace period with whoever turned up.
    pub open spec fn readied(self) -> SessionView {
        if !(self.sim.phase is Waiting) {
            self
        } else if self.slots.0.ever_present && self.slots.1.ever_present {
            SessionView { sim: started(self.sim), ..self }
        } else {
            let later = SessionView { waited: (self.waited + TICK_DT) as i64, ..self };
            if later.waited >= START_GRACE {
                let going = SessionView { sim: started(later.sim), ..later };
                SessionView { sim: going.without_absentees(), ..going }
            } else {
                later
            }
        }
    }
}

/// What a runner looks like in a snapshot.
pub open spec fn pac_snap_of(r: Runner, now: i64) -> PacSnap {
    PacSnap {
        pos: r.pos,
        state: r.state,
        lives: r.lives,
        score: r.score,
        energized: r.is_energized(now),
        stunned: r.is_stunned(now),
    }
}

/// The changes to the pellet field: first what was eaten, then what appeared.
pub open spec fn deltas_of(e: EventsView) -> Seq<PelletDelta> {
    e.pellets_eaten.map_values(|p: (IVec2, PelletKind, u8)| PelletDelta::Eaten(p.0))
        + e.pellets_spawned.map_values(|p: (IVec2, PelletKind)| PelletDelta::Spawned(p.0, p.1))
}

/// Elapsed milliseconds as they go over the wire.
pub open spec fn wire_millis(elapsed: i64) -> u32 {
    let ms = elapsed as int / MILLISECOND as int;
    if elapsed <= 0 {
        0
    } else if ms <= u32::MAX {
        ms as u32
    } else {
        u32::MAX
    }
}

/// The snapshot a slot is sent after a tick.
pub open spec fn snapshot_of(t: Turn, last_seq: u32) -> SnapshotView {
    SnapshotView {
        tick: t.sim.tick_count as u32,
        elapsed_ms: wire_millis(t.sim.elapsed),
        last_processed_seq: last_seq,
        pacmen: (
            pac_snap_of(t.sim.runners[0], t.sim.elapsed),
            pac_snap_of(t.sim.runners[1], t.sim.elapsed),
        ),
        ghosts: t.sim.ghosts.map_values(
            |g: crate::ghosts::MazeGhost| GhostSnap { pos: g.pos, mode: g.mode },
        ),
        pellet_deltas: deltas_of(t.events),
    }
}

/// What goes out after a tick: a snapshot for each slot, because each has its own
/// last input, and the result once there is one, for everybody.
#[derive(Debug, Clone, PartialEq)]
pub struct Broadcast {
    pub snapshots: [Snapshot; 2],
    pub over: Option<ServerMsg>,
}

/// The message that ends a match.
pub open spec fn over_of(s: SimView) -> Option<ServerMsgView> {
    match s.phase {
        MatchPhase::Finished { winner } => Some(
            ServerMsgView::MatchOver {
                scores: (s.runners[0].score, s.runners[1].score),
                winner,
            },
        ),
        _ => None,
    }
}

/// What to do with a connection that said hello.
#[derive(Debug, Clone, PartialEq)]
pub enum HelloStep {
    /// Not a hello: nothing to do.
    Ignore,
    /// Send the welcome and tell the platform who joined.
    Admit { slot: u8, player_id: String, welcome: ServerMsg },
    /// Send the refusal and hang up.
    Refuse { error: BindError, refusal: ServerMsg },
}

impl Session {
    pub open spec fn wf(&self) -> bool {
        self.sim.wf() && self@.wf()
    }

    pub fn new(seed: u64) -> (s: Session)
        ensures
            s.wf(),
            s@ == (SessionView {
                sim: opening(seed),
                roster: None,
                match_id: Seq::empty(),
                slots: (vacant(), vacant()),
                slot_by_client: Map::empty(),
                last_seq: (0, 0),
                waited: 0,
                seed,
                reported: false,
            }),
    {
        Session {
            sim: Sim::new(seed),
            roster: None,
            match_id: String::new(),
            slots: [SlotOccupant::default(), SlotOccupant::default()],
            slot_by_client: HashMap::new(),
            last_seq: [0, 0],
            waited: 0,
            seed,
            reported: false,
        }
    }

    /// Adopts the launch payload. Called when it is delivered, which may be
    /// before or after the first client connects. The match keeps the first id it
    /// was given.
    pub fn adopt_roster(&mut self, roster: Roster)
        ensures
            final(self)@ == (SessionView {
                roster: Some(roster@),
                match_id: if old(self).match_id@.len() == 0 {
                    roster@.match_id
                } else {
                    old(self).match_id@
                },
                ..old(self)@
            }),
            final(self).sim == old(self).sim,
    {
        if self.match_id.as_str().is_empty() {
            self.match_id = roster.match_id.clone();
        }
        self.roster = Some(roster);
    }

    /// Whether a slot was taken by this player before.
    fn is_seat(&self, i: usize, player_id: &String) -> (yes: bool)
        requires
            i < 2,
        ensures
            yes == self@.is_seat_of(i as int, player_id@),
    {
        self.slots[i].ever_present && self.slots[i].player_id == *player_id
    }

    /// Where a player sits.
    fn find_seat(&self, player_id: &String) -> (r: Result<u8, BindError>)
        ensures
            r == self@.seating(player_id@),
            r matches Ok(s) ==> s < 2,
    {
        if self.is_seat(0, player_id) {
            return Ok(0);
        }
        if self.is_seat(1, player_id) {
            return Ok(1);
        }
        let wanted: Option<u8> = match &self.roster {
            Some(r) => match r.slot_of(player_id.as_str()) {
                Some(s) => if s < 2 {
                    Some(s)
                } else {
                    None
                },
                None => None,
            },
            None => None,
        };
        match wanted {
            Some(s) => {
                if self.slots[s as usize].ever_present {
                    Err(BindError::SlotTaken)
                } else {
                    Ok(s)
                }
            },
            None => {
                if !self.slots[0].ever_present {
                    Ok(0)
                } else if !self.slots[1].ever_present {
                    Ok(1)
                } else {
                    Err(BindError::NoSlots)
                }
            },
        }
    }

    /// Binds a connection whose identity is proven to a slot.
    pub fn seat(&mut self, client_id: u64, player_id: String, token_nick: String) -> (r: Result<
        u8,
        BindError,
    >)
        ensures
            (final(self)@, r) == old(self)@.bound(client_id, player_id@, token_nick@),
            final(self).sim == old(self).sim,
            r matches Ok(s) ==> s < 2,
            old(self).wf() ==> final(self).wf(),
    {
        let slot: u8 = match self.find_seat(&player_id) {
            Ok(slot) => slot,
            Err(e) => return Err(e),
        };
        if self.is_seat(slot as usize, &player_id) {
            let mut occupant = SlotOccupant {
                player_id: self.slots[slot as usize].player_id.clone(),
                nick: self.slots[slot as usize].nick.clone(),
                connected: true,
                ever_present: true,
            };
            self.slots[slot as usize] = occupant;
        } else {
            let listed = match &self.roster {
                Some(r) => match r.nick_of(player_id.as_str()) {
                    Some(n) => n.to_owned(),
                    None => String::new(),
                },
                None => String::new(),
            };
            let nick = if !listed.as_str().is_empty() {
                listed
            } else if !token_nick.as_str().is_empty() {
                token_nick
            } else {
                placeholder_nick(slot as u64)
            };
            self.slots[slot as usize] = SlotOccupant {
                player_id,
                nick,
                connected: true,
                ever_present: true,
            };
        }
        self.slot_by_client.insert(client_id, slot);
        Ok(slot)
    }

    /// Binds a connection to a slot, at a given second.
    ///
    /// The roster decides seating when it parsed. When it did not, slots are
    /// handed out in connection order: identity is still proven by the token,
    /// so the worst case is that the two players swap corners.
    pub fn bind_client_at(
        &mut self,
        client_id: u64,
        version: u16,
        token: &str,
        secret: &str,
        now: u64,
    ) -> (r: Result<u8, BindError>)
        ensures
            (final(self)@, r) == old(self)@.bound_at(client_id, version, secret@, token@, now),
            secret@.len() == 0 ==> r is Err && final(self)@ == old(self)@,
            final(self).sim == old(self).sim,
            r matches Ok(s) ==> s < 2,
            old(self).wf() ==> final(self).wf(),
    {
        if version != PROTOCOL_VERSION {
            return Err(BindError::WrongVersion);
        }
        if secret.is_empty() {
            return Err(BindError::BadToken);
        }
        match verify_session_token(secret, token, now) {
            Some((player_id, nick)) => self.seat(client_id, player_id, nick),
            None => Err(BindError::BadToken),
        }
    }

    /// Binds a connection to a slot now.
    pub fn bind_client(&mut self, client_id: u64, version: u16, token: &str, secret: &str) -> (r:
        Result<u8, BindError>)
        ensures
            exists|now: u64|
                (final(self)@, r) == #[trigger] old(self)@.bound_at(
                    client_id,
                    version,
                    secret@,
                    token@,
                    now,
                ),
            version != PROTOCOL_VERSION <==> r == Err::<u8, BindError>(BindError::WrongVersion),
            secret@.len() == 0 ==> r is Err && final(self)@ == old(self)@,
            final(self).sim == old(self).sim,
            r matches Ok(s) ==> s < 2,
            old(self).wf() ==> final(self).wf(),
    {
        let now: u64 = now_secs();
        self.bind_client_at(client_id, version, token, secret, now)
    }

    pub fn release_client(&mut self, client_id: u64) -> (slot: Option<u8>)
        requires
            old(self)@.wf(),
        ensures
            final(self)@ == old(self)@.released(client_id),
            slot == (if old(self).slot_by_client@.contains_key(client_id) {
                Some(old(self).slot_by_client@[client_id])
            } else {
                None
            }),
            slot matches Some(s) ==> s < 2,
            final(self).sim == old(self).sim,
            old(self).wf() ==> final(self).wf(),
    {
        match self.slot_by_client.remove(&client_id) {
            Some(slot) => {
                let occupant = SlotOccupant {
                    player_id: self.slots[slot as usize].player_id.clone(),
                    nick: self.slots[slot as usize].nick.clone(),
                    connected: false,
                    ever_present: self.slots[slot as usize].ever_present,
                };
                self.slots[slot as usize] = occupant;
                Some(slot)
            },
            None => {
                assert(self.slot_by_client@ =~= old(self).slot_by_client@);
                None
            },
        }
    }

    /// A connection is gone. Says who left, so that the platform can be told
    /// straight away: a server that keeps reporting a player who left gets held
    /// open past its welcome.
    pub fn disconnected(&mut self, client_id: u64) -> (who: Option<String>)
        requires
            old(self).wf(),
        ensures
            final(self)@ == old(self)@.left(client_id),
            match who {
                Some(id) => old(self).slot_by_client@.contains_key(client_id) && id@ == old(
                    self,
                )@.slot(old(self).slot_by_client@[client_id] as int).player_id,
                None => !old(self).slot_by_client@.contains_key(client_id),
            },
            final(self).wf(),
    {
        match self.release_client(client_id) {
            Some(slot) => {
                let who = self.slots[slot as usize].player_id.clone();
                if self.sim.is_running() {
                    self.sim.abandon(slot);
                }
                Some(who)
            },
            None => None,
        }
    }

    pub fn both_seated(&self) -> (yes: bool)
        ensures
            yes == (self@.slots.0.ever_present && self@.slots.1.ever_present),
    {
        self.slots[0].ever_present && self.slots[1].ever_present
    }

    pub fn nicks(&self) -> (nicks: [String; 2])
        ensures
            nicks@[0]@ == self@.slots.0.nick,
            nicks@[1]@ == self@.slots.1.nick,
    {
        [self.slots[0].nick.clone(), self.slots[1].nick.clone()]
    }
}

/// What a runner looks like in a snapshot.
fn pac_snap(r: &Runner, now: i64) -> (snap: PacSnap)
    ensures
        snap == pac_snap_of(*r, now),
{
    PacSnap {
        pos: r.pos,
        state: r.state,
        lives: r.lives,
        score: r.score,
        energized: r.is_energized(now),
        stunned: r.is_stunned(now),
    }
}

/// The changes to the pellet field.
fn pellet_deltas(events: &TickEvents) -> (deltas: Vec<PelletDelta>)
    ensures
        deltas@ == deltas_of(events@),
{
    let mut deltas: Vec<PelletDelta> = Vec::new();
    let ghost eaten = events@.pellets_eaten.map_values(
        |p: (IVec2, PelletKind, u8)| PelletDelta::Eaten(p.0),
    );
    let ghost spawned = events@.pellets_spawned.map_values(
        |p: (IVec2, PelletKind)| PelletDelta::Spawned(p.0, p.1),
    );
    for i in 0..events.pellets_eaten.len()
        invariant
            eaten == events@.pellets_eaten.map_values(
                |p: (IVec2, PelletKind, u8)| PelletDelta::Eaten(p.0),
            ),
            deltas@ == eaten.take(i as int),
    {
        let item = events.pellets_eaten[i];
        deltas.push(PelletDelta::Eaten(item.0));
        assert(deltas@ =~= eaten.take(i as int + 1));
    }
    assert(deltas@ =~= eaten + spawned.take(0));
    for i in 0..events.pellets_spawned.len()
        invariant
            spawned == events@.pellets_spawned.map_values(
                |p: (IVec2, PelletKind)| PelletDelta::Spawned(p.0, p.1),
            ),
            deltas@ == eaten + spawned.take(i as int),
    {
        let item = events.pellets_spawned[i];
        deltas.push(PelletDelta::Spawned(item.0, item.1));
        assert(deltas@ =~= eaten + spawned.take(i as int + 1));
    }
    assert(spawned.take(spawned.len() as int) =~= spawned);
    deltas
}

/// What every ghost looks like in a snapshot.
fn ghost_snaps(sim: &Sim) -> (snaps: Vec<GhostSnap>)
    ensures
        snaps@ == sim@.ghosts.map_values(
            |g: crate::ghosts::MazeGhost| GhostSnap { pos: g.pos, mode: g.mode },
        ),
{
    let mut snaps: Vec<GhostSnap> = Vec::new();
    let ghost all = sim@.ghosts.map_values(
        |g: crate::ghosts::MazeGhost| GhostSnap { pos: g.pos, mode: g.mode },
    );
    for i in 0..sim.ghosts.len()
        invariant
            all == sim@.ghosts.map_values(
                |g: crate::ghosts::MazeGhost| GhostSnap { pos: g.pos, mode: g.mode },
            ),
            snaps@ == all.take(i as int),
    {
        let g = &sim.ghosts[i];
        snaps.push(GhostSnap { pos: g.pos, mode: g.mode });
        assert(snaps@ =~= all.take(i as int + 1));
    }
    assert(all.take(all.len() as int) =~= all);
    snaps
}

/// The snapshot a slot is sent after a tick.
fn snapshot(sim: &Sim, events: &TickEvents, last_seq: u32) -> (snap: Snapshot)
    ensures
        snap@ == snapshot_of(Turn { sim: sim@, events: events@ }, last_seq),
{
    let elapsed: i64 = sim.elapsed;
    let ms: i64 = if elapsed <= 0 {
        0
    } else {
        elapsed / MILLISECOND
    };
    let elapsed_ms: u32 = if ms <= 4_294_967_295 {
        ms as u32
    } else {
        u32::MAX
    };
    Snapshot {
        tick: sim.tick_count,
        elapsed_ms,
        last_processed_seq: last_seq,
        pacmen: [pac_snap(&sim.runners[0], elapsed), pac_snap(&sim.runners[1], elapsed)],
        ghosts: ghost_snaps(sim),
        pellet_deltas: pellet_deltas(events),
    }
}

/// The welcome for a slot.
pub open spec fn welcome_of(s: SessionView, slot: u8) -> ServerMsgView {
    ServerMsgView::Welcome {
        slot,
        seed: s.seed,
        pellets: s.sim.pellets.bits(),
        nicks: (s.slots.0.nick, s.slots.1.nick),
    }
}

/// What follows from the outcome of a hello.
pub open spec fn is_hello_step(
    step: HelloStep,
    outcome: Result<u8, BindError>,
    after: SessionView,
) -> bool {
    match outcome {
        Ok(slot) => step matches HelloStep::Admit { slot: s, player_id, welcome } && s == slot
            && player_id@ == after.slot(slot as int).player_id && welcome@ == welcome_of(
            after,
            slot,
        ),
        Err(e) => step matches HelloStep::Refuse { error, refusal } && error == e && refusal@ == (
        ServerMsgView::Rejected { reason: e.label() }),
    }
}

/// What a message on the event channel leads to, when it is read at this second:
/// the session after it, and the step to take.
pub open spec fn is_heard(
    before: SessionView,
    client: u64,
    bytes: Seq<u8>,
    secret: Seq<char>,
    now: u64,
    after: SessionView,
    step: HelloStep,
) -> bool {
    match ClientMsg::read(bytes) {
        Some((ClientMsgView::Hello { version, player_id, session_token }, _)) => {
            let (bound, outcome) = before.bound_at(client, version, secret, session_token, now);
            after == bound && is_hello_step(step, outcome, after)
        },
        _ => after == before && step is Ignore,
    }
}

impl Session {
    /// Answers the outcome of a hello.
    pub fn answer_hello(&self, outcome: Result<u8, BindError>) -> (step: HelloStep)
        requires
            self.wf(),
            outcome matches Ok(s) ==> s < 2,
        ensures
            is_hello_step(step, outcome, self@),
    {
        match outcome {
            Ok(slot) => {
                let welcome = ServerMsg::Welcome {
                    slot,
                    seed: self.seed,
                    pellets: self.sim.pellets.snapshot_bits(),
                    nicks: self.nicks(),
                };
                HelloStep::Admit {
                    slot,
                    player_id: self.slots[slot as usize].player_id.clone(),
                    welcome,
                }
            },
            Err(error) => HelloStep::Refuse {
                error,
                refusal: ServerMsg::Rejected { reason: error.name() },
            },
        }
    }

    /// Reads a message from the event channel, at a given second. Until a
    /// connection is bound to a slot, a hello is the only thing it sends that is
    /// worth reading.
    pub fn receive_event_at(
        &mut self,
        client_id: u64,
        bytes: &[u8],
        secret: &str,
        now: u64,
    ) -> (step: HelloStep)
        requires
            old(self).wf(),
        ensures
            final(self).wf(),
            is_heard(old(self)@, client_id, bytes@, secret@, now, final(self)@, step),
            secret@.len() == 0 ==> final(self)@ == old(self)@ && !(step is Admit),
    {
        match decode::<ClientMsg>(bytes) {
            Ok(ClientMsg::Hello { version, player_id, session_token }) => {
                let outcome = self.bind_client_at(
                    client_id,
                    version,
                    session_token.as_str(),
                    secret,
                    now,
                );
                self.answer_hello(outcome)
            },
            _ => HelloStep::Ignore,
        }
    }

    /// Reads a message from the event channel now.
    pub fn receive_event(&mut self, client_id: u64, bytes: &[u8], secret: &str) -> (step:
        HelloStep)
        requires
            old(self).wf(),
        ensures
            final(self).wf(),
            exists|now: u64| #[trigger]
                is_heard(old(self)@, client_id, bytes@, secret@, now, final(self)@, step),
            secret@.len() == 0 ==> final(self)@ == old(self)@ && !(step is Admit),
    {
        let now: u64 = now_secs();
        self.receive_event_at(client_id, bytes, secret, now)
    }

    /// Applies an input.
    pub fn apply_input(&mut self, client_id: u64, seq: u32, dir: Dir)
        requires
            old(self).wf(),
        ensures
            final(self)@ == old(self)@.fed(client_id, seq, dir),
            final(self).wf(),
    {
        let slot: u8 = match self.slot_by_client.get(&client_id) {
            Some(slot) => *slot,
            None => return,
        };
        if seq > self.last_seq[slot as usize] {
            self.last_seq[slot as usize] = seq;
            self.sim.set_input(slot, dir);
        }
    }

    /// Reads a message from the input channel. Anything that is not an input is
    /// dropped.
    pub fn receive_input(&mut self, client_id: u64, bytes: &[u8])
        requires
            old(self).wf(),
        ensures
            final(self).wf(),
            final(self)@ == (match ClientMsg::read(bytes@) {
                Some((ClientMsgView::Input { seq, dir }, _)) => old(self)@.fed(
                    client_id,
                    seq,
                    dir,
                ),
                _ => old(self)@,
            }),
    {
        if let Ok(ClientMsg::Input { seq, dir }) = decode::<ClientMsg>(bytes) {
            self.apply_input(client_id, seq, dir);
        }
    }

    /// Starts the match once both players are seated, or after the grace period
    /// with whoever turned up.
    pub fn start_when_ready(&mut self)
        requires
            old(self).wf(),
            old(self).waited <= i64::MAX - TICK_DT,
        ensures
            final(self)@ == old(self)@.readied(),
            final(self).wf(),
    {
        if self.sim.phase != MatchPhase::Waiting {
            return;
        }
        if self.both_seated() {
            self.sim.start();
            return;
        }
        self.waited = self.waited + TICK_DT;
        if self.waited >= START_GRACE {
            self.sim.start();
            if !self.slots[0].ever_present {
                self.sim.abandon(0);
            }
            if !self.slots[1].ever_present {
                self.sim.abandon(1);
            }
        }
    }

    /// Steps a running match and says what goes out.
    pub fn advance_match(&mut self) -> (out: Option<Broadcast>)
        requires
            old(self).wf(),
            old(self).sim.phase is Running ==> old(self)@.sim.has_room(),
        ensures
            final(self).wf(),
            final(self)@ == (SessionView { sim: ticked(old(self)@.sim).sim, ..old(self)@ }),
            out is Some <==> old(self).sim.phase is Running,
            out matches Some(b) ==> {
                let t = ticked(old(self)@.sim);
                &&& b.snapshots@[0]@ == snapshot_of(t, old(self)@.last_seq.0)
                &&& b.snapshots@[1]@ == snapshot_of(t, old(self)@.last_seq.1)
                &&& match b.over {
                    Some(m) => over_of(t.sim) == Some(m@),
                    None => over_of(t.sim) is None,
                }
            },
            out matches Some(b) ==> forall|i: int, j: int|
                0 <= i < 2 && 0 <= j < 2 ==> {
                    let (r, now) = (final(self).sim.runners@[j], final(self).sim.elapsed);
                    let p = #[trigger] b.snapshots@[i].pacmen@[j];
                    &&& p.energized <==> r.state is Alive && now < r.energized_until
                    &&& p.stunned <==> now < r.stunned_until
                    &&& p.pos == r.pos && p.state == r.state
                    &&& p.lives == r.lives && p.score == r.score
                },
            out matches Some(b) ==> forall|i: int|
                0 <= i < 2 ==> {
                    let p = #[trigger] b.snapshots@[i];
                    &&& p.tick == final(self).sim.tick_count
                    &&& 0 <= final(self).sim.elapsed <= 12 * u32::MAX ==> p.elapsed_ms
                        == final(self).sim.elapsed as int / 12
                    &&& p.last_processed_seq == old(self).last_seq@[i]
                },
            out matches Some(b) ==> (b.over is Some <==> final(self).sim.phase is Finished),
    {
        if !self.sim.is_running() {
            return None;
        }
        let events = self.sim.tick();
        let snapshots = [
            snapshot(&self.sim, &events, self.last_seq[0]),
            snapshot(&self.sim, &events, self.last_seq[1]),
        ];
        proof {
            let t = Turn { sim: self.sim@, events: events@ };
            law_a_snapshot_shows_the_board(t, self.last_seq[0]);
            law_a_snapshot_shows_the_board(t, self.last_seq[1]);
        }
        let over = match self.sim.phase {
            MatchPhase::Finished { winner } => Some(
                ServerMsg::MatchOver {
                    scores: [self.sim.runners[0].score, self.sim.runners[1].score],
                    winner,
                },
            ),
            _ => None,
        };
        Some(Broadcast { snapshots, over })
    }
}

/// A snapshot shows the board as the tick left it. Of each runner, in the order of
/// the slots: its place, state, lives and points, that it is energized exactly while
/// it is alive and its time has not come, and that it is stunned exactly until its
/// time has come. Of each ghost its place and mode. Then everything that was eaten,
/// and everything that appeared.
pub proof fn law_a_snapshot_shows_the_board(t: Turn, last_seq: u32)
    requires
        0 <= t.sim.tick_count <= u32::MAX,
    ensures
        ({
            let (s, e, snap) = (t.sim, t.events, snapshot_of(t, last_seq));
            let (a, b) = (snap.pacmen.0, snap.pacmen.1);
            let (r, q) = (s.runners[0], s.runners[1]);
            &&& a.pos == r.pos && a.state == r.state && a.lives == r.lives && a.score == r.score
            &&& b.pos == q.pos && b.state == q.state && b.lives == q.lives && b.score == q.score
            &&& a.energized <==> r.state is Alive && s.elapsed < r.energized_until
            &&& b.energized <==> q.state is Alive && s.elapsed < q.energized_until
            &&& a.stunned <==> s.elapsed < r.stunned_until
            &&& b.stunned <==> s.elapsed < q.stunned_until
            &&& snap.tick == s.tick_count
            &&& snap.last_processed_seq == last_seq
            &&& s.elapsed <= 0 ==> snap.elapsed_ms == 0
            &&& 0 <= s.elapsed <= 12 * u32::MAX ==> snap.elapsed_ms == s.elapsed as int / 12
            &&& s.elapsed >= 12 * u32::MAX ==> snap.elapsed_ms == u32::MAX
            &&& snap.ghosts.len() == s.ghosts.len()
            &&& forall|k: int|
                0 <= k < s.ghosts.len() ==> (#[trigger] snap.ghosts[k]).pos == s.ghosts[k].pos
                    && snap.ghosts[k].mode == s.ghosts[k].mode
            &&& snap.pellet_deltas.len() == e.pellets_eaten.len() + e.pellets_spawned.len()
            &&& forall|k: int|
                0 <= k < e.pellets_eaten.len() ==> #[trigger] snap.pellet_deltas[k]
                    == PelletDelta::Eaten(e.pellets_eaten[k].0)
            &&& forall|k: int|
                e.pellets_eaten.len() <= k < snap.pellet_deltas.len()
                    ==> #[trigger] snap.pellet_deltas[k] == PelletDelta::Spawned(
                    e.pellets_spawned[k - e.pellets_eaten.len()].0,
                    e.pellets_spawned[k - e.pellets_eaten.len()].1,
                )
        }),
{
}

/// The result goes out exactly when the match is finished, with both scores in the
/// order of the slots and the winner the match has.
pub proof fn law_the_result_goes_out_when_the_match_is_over(s: SimView)
    ensures
        over_of(s) is Some <==> s.phase is Finished,
        s.phase matches MatchPhase::Finished { winner } ==> over_of(s) == Some(
            ServerMsgView::MatchOver {
                scores: (s.runners[0].score, s.runners[1].score),
                winner,
            },
        ),
{
}

/// Whoever is let in sits in a slot that carries their name, is connected, and is
/// bound to that connection; the other slot and every other connection stay as
/// they were.
pub proof fn law_a_seat_carries_the_proven_name(
    s: SessionView,
    client: u64,
    player: Seq<char>,
    nick: Seq<char>,
    other: u64,
)
    requires
        s.bound(client, player, nick).1 is Ok,
        other != client,
    ensures
        ({
            let (e, outcome) = s.bound(client, player, nick);
            let slot = outcome->Ok_0;
            &&& slot < 2
            &&& e.slot(slot as int).player_id == player
            &&& e.slot(slot as int).connected
            &&& e.slot(slot as int).ever_present
            &&& e.slot_by_client.contains_key(client) && e.slot_by_client[client] == slot
            &&& e.slot(1 - slot as int) == s.slot(1 - slot as int)
            &&& e.slot_by_client.contains_key(other) == s.slot_by_client.contains_key(other)
            &&& s.slot_by_client.contains_key(other) ==> e.slot_by_client[other]
                == s.slot_by_client[other]
        }),
{
}

/// A seat once taken stays with the player who took it: nobody else is ever put
/// into it, and its name does not change.
pub proof fn law_a_taken_seat_stays_taken(
    s: SessionView,
    client: u64,
    player: Seq<char>,
    nick: Seq<char>,
    i: int,
)
    requires
        0 <= i < 2,
        s.slot(i).ever_present,
    ensures
        ({
            let e = s.bound(client, player, nick).0;
            &&& e.slot(i).ever_present
            &&& e.slot(i).player_id == s.slot(i).player_id
            &&& e.slot(i).nick == s.slot(i).nick
            &&& s.released(client).slot(i).ever_present
            &&& s.released(client).slot(i).player_id == s.slot(i).player_id
        }),
{
}

/// Whoever comes back gets their own slot back, over whatever connection.
pub proof fn law_reconnecting_returns_the_same_slot(
    s: SessionView,
    first: u64,
    second: u64,
    player: Seq<char>,
    nick: Seq<char>,
    other_nick: Seq<char>,
)
    requires
        s.bound(first, player, nick).1 is Ok,
    ensures
        s.bound(first, player, nick).0.bound(second, player, other_nick).1 == s.bound(
            first,
            player,
            nick,
        ).1,
{
}

/// A server without a secret admits nobody: every hello is refused, whoever sends
/// it and whatever it presents, and nothing changes.
pub proof fn law_without_a_secret_nobody_gets_in(
    s: SessionView,
    client: u64,
    version: u16,
    token: Seq<char>,
    now: u64,
)
    ensures
        s.bound_at(client, version, Seq::empty(), token, now).1 is Err,
        s.bound_at(client, version, Seq::empty(), token, now).0 == s,
{
}

/// Once both slots are taken, a third player is turned away and nothing changes.
pub proof fn law_a_third_player_is_turned_away(
    s: SessionView,
    client: u64,
    player: Seq<char>,
    nick: Seq<char>,
)
    requires
        s.slots.0.ever_present,
        s.slots.1.ever_present,
        s.slots.0.player_id != player,
        s.slots.1.player_id != player,
    ensures
        s.bound(client, player, nick).1 is Err,
        s.bound(client, player, nick).0 == s,
{
}

/// As long as a slot is free, the roster only ever decides which one: a player
/// the roster does not name still gets a seat.
pub proof fn law_an_unlisted_player_gets_a_free_seat(
    s: SessionView,
    client: u64,
    player: Seq<char>,
    nick: Seq<char>,
)
    requires
        !s.slots.0.ever_present || !s.slots.1.ever_present,
        s.wanted(player) is None,
    ensures
        s.bound(client, player, nick).1 is Ok,
{
}

/// A connection that never said hello has no slot, and nothing it sends as input
/// has any effect.
pub proof fn law_an_unbound_connection_has_no_say(s: SessionView, client: u64, seq: u32, dir: Dir)
    requires
        !s.slot_by_client.contains_key(client),
    ensures
        s.fed(client, seq, dir) == s,
        s.released(client) == s,
{
}

/// An input is applied once: hearing it again, or an older one, changes nothing.
pub proof fn law_stale_inputs_are_ignored(
    s: SessionView,
    client: u64,
    seq: u32,
    dir: Dir,
    older: u32,
    other: Dir,
)
    requires
        s.wf(),
        s.slot_by_client.contains_key(client),
        older <= seq,
    ensures
        s.fed(client, seq, dir).fed(client, older, other) == s.fed(client, seq, dir),
{
}

/// Hanging up frees the connection and keeps the seat; a second time there is
/// nothing left to free.
pub proof fn law_releasing_keeps_the_seat(s: SessionView, client: u64)
    requires
        s.wf(),
        s.slot_by_client.contains_key(client),
    ensures
        ({
            let e = s.released(client);
            let slot = s.slot_by_client[client] as int;
            &&& !e.slot_by_client.contains_key(client)
            &&& !e.slot(slot).connected
            &&& e.slot(slot).ever_present == s.slot(slot).ever_present
            &&& e.released(client) == e
        }),
{
}

/// After the grace period the match runs with whoever turned up, and the slots
/// nobody took are out.
pub proof fn law_a_no_show_does_not_hold_the_match(s: SessionView)
    requires
        s.wf(),
        s.sim.phase is Waiting,
        START_GRACE - TICK_DT <= s.waited <= i64::MAX - TICK_DT,
    ensures
        !(s.readied().sim.phase is Waiting),
        !s.slots.0.ever_present ==> s.readied().sim.runners[0].state is Out,
        !s.slots.1.ever_present ==> s.readied().sim.runners[1].state is Out,
        s.slots.0.ever_present && s.slots.1.ever_present ==> s.readied().sim.phase is Running,
{
    reveal(crate::sim::judged);
}

/// Who sits where. A player who had a seat before sits there again. Anyone else the
/// roster gives slot zero or one sits there, unless it was ever taken. Anyone the
/// roster gives neither takes the first slot that was never taken. Nobody is ever
/// turned away but for that.
pub proof fn law_seats_go_by_the_past_then_the_roster_then_arrival(
    s: SessionView,
    client: u64,
    player: Seq<char>,
    nick: Seq<char>,
)
    ensures
        ({
            let outcome = s.bound(client, player, nick).1;
            let (a, b) = (s.slots.0, s.slots.1);
            let listed = match s.roster {
                Some(r) => r.slot_of(player),
                None => None,
            };
            if a.ever_present && a.player_id == player {
                outcome == Ok::<u8, BindError>(0)
            } else if b.ever_present && b.player_id == player {
                outcome == Ok::<u8, BindError>(1)
            } else if listed == Some(0u8) {
                if a.ever_present {
                    outcome == Err::<u8, BindError>(BindError::SlotTaken)
                } else {
                    outcome == Ok::<u8, BindError>(0)
                }
            } else if listed == Some(1u8) {
                if b.ever_present {
                    outcome == Err::<u8, BindError>(BindError::SlotTaken)
                } else {
                    outcome == Ok::<u8, BindError>(1)
                }
            } else if !a.ever_present {
                outcome == Ok::<u8, BindError>(0)
            } else if !b.ever_present {
                outcome == Ok::<u8, BindError>(1)
            } else {
                outcome == Err::<u8, BindError>(BindError::NoSlots)
            }
        }),
{
}

/// A newcomer goes by the name on the roster, else by the one on the token, else by
/// the number of the slot. Whoever comes back keeps the name they had. Sitting down
/// touches neither the match nor anything that was heard.
pub proof fn law_a_newcomer_goes_by_the_roster_name(
    s: SessionView,
    client: u64,
    player: Seq<char>,
    nick: Seq<char>,
)
    requires
        s.bound(client, player, nick).1 is Ok,
    ensures
        ({
            let (e, outcome) = s.bound(client, player, nick);
            let slot = outcome->Ok_0 as int;
            let (was, is) = (s.slot(slot), e.slot(slot));
            let listed = match s.roster {
                Some(r) => r.nick_of(player),
                None => None,
            };
            &&& if was.ever_present {
                is.nick == was.nick
            } else if listed is Some && listed->0.len() > 0 {
                is.nick == listed->0
            } else if nick.len() > 0 {
                is.nick == nick
            } else {
                is.nick == "player"@ + decimal((slot + 1) as nat)
            }
            &&& e.sim == s.sim && e.last_seq == s.last_seq && e.waited == s.waited
            &&& e.seed == s.seed && e.roster == s.roster && e.reported == s.reported
        }),
{
}

/// A hello is let in only over the right protocol version, with a secret on the
/// server, and with a token the secret signed that has not run out; and then the
/// player is who the token says. Every refusal names its reason and changes nothing.
pub proof fn law_a_hello_is_checked_in_order(
    s: SessionView,
    client: u64,
    version: u16,
    secret: Seq<char>,
    token: Seq<char>,
    now: u64,
)
    ensures
        ({
            let (e, outcome) = s.bound_at(client, version, secret, token, now);
            let (player, nick, exp) = session_claims(secret, token)->0;
            let valid = secret.len() > 0 && session_claims(secret, token) is Some && now <= exp;
            &&& version != PROTOCOL_VERSION ==> outcome == Err::<u8, BindError>(
                BindError::WrongVersion,
            )
            &&& version == PROTOCOL_VERSION && !valid ==> outcome == Err::<u8, BindError>(
                BindError::BadToken,
            )
            &&& version == PROTOCOL_VERSION && valid ==> (e, outcome) == s.bound(
                client,
                player,
                nick,
            )
            &&& outcome is Err ==> e == s
        }),
{
}

/// A newer input than any heard for the slot is applied: it becomes the slot's wish
/// and its number the last one heard. The other slot keeps its wish and its number,
/// and nothing else changes. An older one, or the same again, does nothing.
pub proof fn law_a_newer_input_is_applied(s: SessionView, client: u64, seq: u32, dir: Dir)
    requires
        s.wf(),
        s.slot_by_client.contains_key(client),
    ensures
        ({
            let e = s.fed(client, seq, dir);
            let slot = s.slot_by_client[client] as int;
            let last = if slot == 0 {
                s.last_seq.0
            } else {
                s.last_seq.1
            };
            &&& seq <= last ==> e == s
            &&& seq > last ==> {
                &&& e.sim.runners[slot].desired == Some(dir)
                &&& e.sim.runners[1 - slot] == s.sim.runners[1 - slot]
                &&& slot == 0 ==> e.last_seq == (seq, s.last_seq.1)
                &&& slot == 1 ==> e.last_seq == (s.last_seq.0, seq)
                &&& e.sim.phase == s.sim.phase && e.sim.ghosts == s.sim.ghosts && e.sim.pellets
                    == s.sim.pellets
                &&& e == (SessionView { sim: e.sim, last_seq: e.last_seq, ..s })
            }
        }),
{
}

/// A waiting match starts at once when both slots have been taken. Otherwise it
/// waits, a tick at a time, for thirty seconds in all, and then starts with whoever
/// turned up. A match that is not waiting is left alone.
pub proof fn law_a_match_waits_for_both_or_thirty_seconds(s: SessionView)
    requires
        s.wf(),
        s.waited <= i64::MAX - TICK_DT,
    ensures
        ({
            let e = s.readied();
            let both = s.slots.0.ever_present && s.slots.1.ever_present;
            &&& !(s.sim.phase is Waiting) ==> e == s
            &&& s.sim.phase is Waiting && both ==> e.sim.phase is Running && e == (SessionView {
                sim: SimView { phase: MatchPhase::Running, ..s.sim },
                ..s
            })
            &&& s.sim.phase is Waiting && !both ==> e.waited == s.waited + 400
            &&& s.sim.phase is Waiting && !both && s.waited + 400 < 360_000 ==> e.sim == s.sim
            &&& s.sim.phase is Waiting && !both && s.waited + 400 >= 360_000 ==> {
                &&& !(e.sim.phase is Waiting)
                &&& e.sim.runners[0].state is Out <==> !s.slots.0.ever_present
                    || s.sim.runners[0].state is Out
                &&& e.sim.runners[1].state is Out <==> !s.slots.1.ever_present
                    || s.sim.runners[1].state is Out
                &&& e.sim.elapsed == s.sim.elapsed && e.sim.pellets == s.sim.pellets
            }
            &&& e.slots == s.slots && e.slot_by_client == s.slot_by_client
        }),
{
    reveal(crate::sim::judged);
}

/// Leaving a running match forfeits that slot's lives and no others; leaving at any
/// other time leaves the match as it is. Either way the connection is gone, and the
/// seat is still theirs.
pub proof fn law_leaving_forfeits_a_running_match(s: SessionView, client: u64)
    requires
        s.wf(),
        s.slot_by_client.contains_key(client),
    ensures
        ({
            let e = s.left(client);
            let slot = s.slot_by_client[client] as int;
            &&& !e.slot_by_client.contains_key(client)
            &&& !e.slot(slot).connected && e.slot(slot).ever_present == s.slot(slot).ever_present
            &&& e.slot(slot).player_id == s.slot(slot).player_id && e.slot(slot).nick == s.slot(
                slot,
            ).nick
            &&& e.slot(1 - slot) == s.slot(1 - slot)
            &&& !(s.sim.phase is Running) ==> e.sim == s.sim
            &&& s.sim.phase is Running ==> {
                &&& e.sim.runners[slot].state is Out
                &&& !(s.sim.runners[slot].state is Out) ==> e.sim.runners[slot].lives == 0
                &&& e.sim.runners[slot].score == s.sim.runners[slot].score
                &&& e.sim.runners[1 - slot] == s.sim.runners[1 - slot]
                &&& e.sim.phase is Finished <==> s.sim.runners[1 - slot].state is Out
            }
        }),
{
    reveal(crate::sim::judged);
}

/// The welcome names the slot, the seed, both players in the order of the slots, and
/// the board as it stands, so that whoever reads it back has every corridor tile.
pub proof fn law_a_welcome_shows_the_board(s: SessionView, slot: u8)
    requires
        s.wf(),
    ensures
        welcome_of(s, slot) matches ServerMsgView::Welcome { slot: i, seed, pellets, nicks } && {
            &&& i == slot && seed == s.seed
            &&& nicks == (s.slots.0.nick, s.slots.1.nick)
            &&& s.sim.pellets.on_corridors() ==> restored(pellets).cells
                == s.sim.pellets.cells
        },
{
    law_snapshot_bits_round_trip(s.sim.pellets);
}

/// A refusal names its reason.
pub proof fn law_refusals_have_their_names()
    ensures
        BindError::BadToken.label() == "BadToken"@,
        BindError::WrongVersion.label() == "WrongVersion"@,
        BindError::SlotTaken.label() == "SlotTaken"@,
        BindError::NoSlots.label() == "NoSlots"@,
        vacant().player_id.len() == 0 && vacant().nick.len() == 0,
        !vacant().connected && !vacant().ever_present,
{
}

/// A message on the event channel is heeded only when it is a hello. One that is let
/// in is answered with the welcome for its slot, naming the player who sits there; one
/// that is not is refused with the reason, and changes nothing.
pub proof fn law_a_hello_is_answered(
    before: SessionView,
    client: u64,
    bytes: Seq<u8>,
    secret: Seq<char>,
    now: u64,
    after: SessionView,
    step: HelloStep,
)
    requires
        is_heard(before, client, bytes, secret, now, after, step),
    ensures
        !(ClientMsg::read(bytes) matches Some((ClientMsgView::Hello { .. }, _))) ==> step is Ignore
            && after == before,
        step matches HelloStep::Admit { slot, player_id, welcome } ==> {
            &&& after.slot_by_client.contains_key(client) && after.slot_by_client[client] == slot
            &&& slot < 2 && player_id@ == after.slot(slot as int).player_id
            &&& welcome@ == welcome_of(after, slot)
            &&& secret.len() > 0
        },
        step matches HelloStep::Refuse { error, refusal } ==> after == before && refusal@ == (
        ServerMsgView::Rejected { reason: error.label() }),
        step is Ignore ==> after == before,
{
}

} // verus!
