//! The launch payload.
//!
//! The platform writes the allocation payload into the pod annotations. For a
//! queue-formed match the payload is produced by the matchmaker, not by our
//! backend, so the exact shape is not ours to define. Reading it is therefore
//! deliberately forgiving: almost everything may be missing, and a payload that
//! cannot be understood is not fatal.
//!
//! When the roster is unusable the server falls back to assigning slots in
//! connection order. Identity is still proven by the session token, which is
//! signed with the internal secret, so a bad payload costs us seat ordering and
//! nothing more.

use vstd::prelude::*;
use crate::text::{decimal_text, same, trim};
#[allow(unused_imports)]
use crate::text::{decimal, trimmed};

verus! {

#[derive(Debug, Clone, PartialEq, Eq)]
pub struct RosterPlayer {
    pub player_id: String,
    pub nick: String,
    pub slot: u8,
}

#[derive(Debug, Clone, PartialEq, Eq)]
pub struct Roster {
    pub match_id: String,
    pub players: Vec<RosterPlayer>,
}

/// A player as the payload names them.
#[derive(Debug, Clone, PartialEq, Eq)]
pub struct RawPlayer {
    pub player_id: Option<String>,
    pub nick: Option<String>,
    pub slot: Option<u8>,
}

/// A roster as the payload spells it.
#[derive(Debug, Clone, PartialEq, Eq)]
pub struct RawRoster {
    pub match_id: Option<String>,
    pub players: Option<Vec<RawPlayer>>,
}

/// The contents of a roster entry.
#[verifier::ext_equal]
pub struct SeatView {
    pub player_id: Seq<char>,
    pub nick: Seq<char>,
    pub slot: u8,
}

impl View for RosterPlayer {
    type V = SeatView;

    open spec fn view(&self) -> SeatView {
        SeatView { player_id: self.player_id@, nick: self.nick@, slot: self.slot }
    }
}

/// The contents of a list of roster entries.
pub open spec fn seats(players: Seq<RosterPlayer>) -> Seq<SeatView> {
    players.map_values(|p: RosterPlayer| p@)
}

/// The contents of a roster.
#[verifier::ext_equal]
pub struct RosterView {
    pub match_id: Seq<char>,
    pub players: Seq<SeatView>,
}

impl View for Roster {
    type V = RosterView;

    open spec fn view(&self) -> RosterView {
        RosterView { match_id: self.match_id@, players: seats(self.players@) }
    }
}

/// The placeholder name of the player at a position of the list.
pub open spec fn placeholder(index: nat) -> Seq<char> {
    "player"@ + decimal(index + 1)
}

/// The entry of the player at a position of the payload's list: nothing without
/// an id. A missing nick gets a placeholder, a missing slot is the position.
pub open spec fn seat_of(p: RawPlayer, index: nat) -> Option<SeatView> {
    match p.player_id {
        Some(id) => if trimmed(id@).len() == 0 {
            None
        } else {
            Some(
                SeatView {
                    player_id: id@,
                    nick: match p.nick {
                        Some(nick) => nick@,
                        None => placeholder(index),
                    },
                    slot: match p.slot {
                        Some(slot) => slot,
                        None => (index % 256) as u8,
                    },
                },
            )
        },
        None => None,
    }
}

/// The entries of a whole list.
pub open spec fn seated(players: Seq<RawPlayer>) -> Seq<SeatView>
    decreases players.len(),
{
    if players.len() == 0 {
        Seq::empty()
    } else {
        let before = seated(players.drop_last());
        match seat_of(players.last(), (players.len() - 1) as nat) {
            Some(seat) => before.push(seat),
            None => before,
        }
    }
}

/// The roster a payload amounts to; nothing when it names no player.
pub open spec fn roster_in(raw: RawRoster) -> Option<RosterView> {
    match raw.players {
        Some(players) => if seated(players@).len() == 0 {
            None
        } else {
            Some(
                RosterView {
                    match_id: match raw.match_id {
                        Some(id) => id@,
                        None => Seq::empty(),
                    },
                    players: seated(players@),
                },
            )
        },
        None => None,
    }
}

/// The first entry for a player.
pub open spec fn entry_of(players: Seq<SeatView>, player_id: Seq<char>) -> Option<SeatView>
    decreases players.len(),
{
    if players.len() == 0 {
        None
    } else if players[0].player_id == player_id {
        Some(players[0])
    } else {
        entry_of(players.drop_first(), player_id)
    }
}

impl RosterView {
    pub open spec fn slot_of(self, player_id: Seq<char>) -> Option<u8> {
        match entry_of(self.players, player_id) {
            Some(seat) => Some(seat.slot),
            None => None,
        }
    }

    pub open spec fn nick_of(self, player_id: Seq<char>) -> Option<Seq<char>> {
        match entry_of(self.players, player_id) {
            Some(seat) => Some(seat.nick),
            None => None,
        }
    }
}

/// The placeholder name of the player at a position of the list.
pub fn placeholder_nick(index: u64) -> (nick: String)
    requires
        index < u64::MAX,
    ensures
        nick@ == placeholder(index as nat),
{
    let mut nick = "player".to_owned();
    nick.append(decimal_text(index + 1).as_str());
    nick
}

impl Roster {
    /// Makes a roster of a payload. Returns `None` when there is nothing usable in
    /// it.
    pub fn parse(raw: &RawRoster) -> (r: Option<Roster>)
        ensures
            match r {
                Some(roster) => roster_in(*raw) == Some(roster@),
                None => roster_in(*raw) is None,
            },
    {
        let listed = match &raw.players {
            Some(players) => players,
            None => return None,
        };
        let mut players: Vec<RosterPlayer> = Vec::new();
        assert(seats(players@) =~= seated(listed@.take(0)));
        for i in 0..listed.len()
            invariant
                seats(players@) == seated(listed@.take(i as int)),
        {
            let p = &listed[i];
            assert(listed@.take(i as int + 1).drop_last() =~= listed@.take(i as int));
            if let Some(id) = &p.player_id {
                if !trim(id.as_str()).as_str().is_empty() {
                    let nick = match &p.nick {
                        Some(nick) => nick.clone(),
                        None => placeholder_nick(i as u64),
                    };
                    let slot: u8 = match p.slot {
                        Some(slot) => slot,
                        None => (i % 256) as u8,
                    };
                    let ghost sofar = seats(players@);
                    let player = RosterPlayer { player_id: id.clone(), nick, slot };
                    let ghost seat = player@;
                    players.push(player);
                    assert(seats(players@) =~= sofar.push(seat));
                }
            }
        }
        assert(listed@.take(listed@.len() as int) =~= listed@);
        if players.len() == 0 {
            return None;
        }
        let match_id = match &raw.match_id {
            Some(id) => id.clone(),
            None => String::new(),
        };
        Some(Roster { match_id, players })
    }

    /// The position of a player's first entry.
    fn position_of(&self, player_id: &str) -> (at: Option<usize>)
        ensures
            match at {
                Some(i) => i < self.players@.len() && entry_of(self@.players, player_id@) == Some(
                    self.players@[i as int]@,
                ),
                None => entry_of(self@.players, player_id@) is None,
            },
    {
        let ghost all = self@.players;
        assert(all.skip(0) =~= all);
        for i in 0..self.players.len()
            invariant
                all == seats(self.players@),
                entry_of(all, player_id@) == entry_of(all.skip(i as int), player_id@),
        {
            assert(all.skip(i as int).drop_first() =~= all.skip(i as int + 1));
            if same(self.players[i].player_id.as_str(), player_id) {
                return Some(i);
            }
        }
        None
    }

    /// The slot this player owns, if the roster names them.
    pub fn slot_of(&self, player_id: &str) -> (slot: Option<u8>)
        ensures
            slot == self@.slot_of(player_id@),
    {
        match self.position_of(player_id) {
            Some(i) => Some(self.players[i].slot),
            None => None,
        }
    }

    pub fn nick_of(&self, player_id: &str) -> (nick: Option<&str>)
        ensures
            match nick {
                Some(n) => self@.nick_of(player_id@) == Some(n@),
                None => self@.nick_of(player_id@) is None,
            },
    {
        match self.position_of(player_id) {
            Some(i) => Some(self.players[i].nick.as_str()),
            None => None,
        }
    }
}

/// Nobody without an id is ever seated, and a roster is never empty.
pub proof fn law_every_seat_has_an_id(raw: RawRoster, i: int)
    requires
        roster_in(raw) matches Some(r) && 0 <= i < r.players.len(),
    ensures
        trimmed(roster_in(raw)->0.players[i].player_id).len() > 0,
        roster_in(raw)->0.players.len() > 0,
{
    lemma_seated(raw.players->0@, i);
}

proof fn lemma_seated(players: Seq<RawPlayer>, i: int)
    requires
        0 <= i < seated(players).len(),
    ensures
        trimmed(seated(players)[i].player_id).len() > 0,
    decreases players.len(),
{
    if players.len() > 0 {
        if i < seated(players.drop_last()).len() {
            lemma_seated(players.drop_last(), i);
        }
    }
}

/// Whether a seat is the one for a player at a place of the payload's list.
pub open spec fn is_seat_for(p: RawPlayer, k: int, seat: SeatView) -> bool {
    &&& p.player_id matches Some(id) && seat.player_id == id@
    &&& match p.nick {
        Some(nick) => seat.nick == nick@,
        None => seat.nick == "player"@ + decimal((k + 1) as nat),
    }
    &&& match p.slot {
        Some(slot) => seat.slot == slot,
        None => seat.slot == k % 256,
    }
}

/// Every player of the payload with an id that is not blank has a seat, and a
/// payload is usable exactly when it names one. The seat goes by the nick and the
/// slot the payload gives; without a nick it goes by the place in the list, counted
/// from one, and without a slot it has that place, counted from zero.
pub proof fn law_every_named_player_has_a_seat(raw: RawRoster, k: int)
    requires
        raw.players matches Some(players) && 0 <= k < players@.len(),
        raw.players->0@[k].player_id matches Some(id) && trimmed(id@).len() > 0,
    ensures
        roster_in(raw) is Some,
        exists|i: int|
            0 <= i < roster_in(raw)->0.players.len() && is_seat_for(
                raw.players->0@[k],
                k,
                #[trigger] roster_in(raw)->0.players[i],
            ),
{
    let list = raw.players->0@;
    let i = lemma_named_is_seated(list, k);
    assert(is_seat_for(list[k], k, roster_in(raw)->0.players[i]));
}

proof fn lemma_named_is_seated(players: Seq<RawPlayer>, k: int) -> (i: int)
    requires
        0 <= k < players.len(),
        seat_of(players[k], k as nat) is Some,
    ensures
        0 <= i < seated(players).len(),
        Some(seated(players)[i]) == seat_of(players[k], k as nat),
    decreases players.len(),
{
    if k == players.len() - 1 {
        seated(players).len() - 1
    } else {
        assert(players.drop_last()[k] == players[k]);
        lemma_named_is_seated(players.drop_last(), k)
    }
}

/// A payload that names nobody is no roster.
pub proof fn law_a_payload_without_players_is_no_roster(raw: RawRoster)
    requires
        raw.players matches Some(players) ==> forall|k: int|
            0 <= k < players@.len() ==> match (#[trigger] players@[k]).player_id {
                Some(id) => trimmed(id@).len() == 0,
                None => true,
            },
    ensures
        roster_in(raw) is None,
{
    if raw.players is Some {
        lemma_nobody_is_seated(raw.players->0@);
    }
}

proof fn lemma_nobody_is_seated(players: Seq<RawPlayer>)
    requires
        forall|k: int|
            0 <= k < players.len() ==> match (#[trigger] players[k]).player_id {
                Some(id) => trimmed(id@).len() == 0,
                None => true,
            },
    ensures
        seated(players).len() == 0,
    decreases players.len(),
{
    if players.len() > 0 {
        assert(players.last() == players[players.len() - 1]);
        assert forall|k: int| 0 <= k < players.drop_last().len() implies match (
        #[trigger] players.drop_last()[k]).player_id {
            Some(id) => trimmed(id@).len() == 0,
            None => true,
        } by {
            assert(players[k] == players.drop_last()[k]);
        }
        lemma_nobody_is_seated(players.drop_last());
    }
}

/// What the roster says of a player is what their first entry says; it is silent
/// only on players it does not list.
pub proof fn law_the_first_entry_counts(r: RosterView, player_id: Seq<char>)
    ensures
        r.slot_of(player_id) is Some == r.nick_of(player_id) is Some,
        r.slot_of(player_id) is None <==> forall|i: int|
            0 <= i < r.players.len() ==> (#[trigger] r.players[i]).player_id != player_id,
        r.slot_of(player_id) is Some ==> exists|i: int|
            {
                &&& 0 <= i < r.players.len()
                &&& (#[trigger] r.players[i]).player_id == player_id
                &&& r.slot_of(player_id) == Some(r.players[i].slot)
                &&& r.nick_of(player_id) == Some(r.players[i].nick)
                &&& forall|j: int|
                    0 <= j < i ==> (#[trigger] r.players[j]).player_id != player_id
            },
{
    let i = lemma_entry(r.players, player_id);
    if r.slot_of(player_id) is Some {
        assert(r.players[i].player_id == player_id);
    }
}

proof fn lemma_entry(players: Seq<SeatView>, player_id: Seq<char>) -> (i: int)
    ensures
        match entry_of(players, player_id) {
            Some(seat) => {
                &&& 0 <= i < players.len()
                &&& players[i] == seat
                &&& seat.player_id == player_id
                &&& forall|j: int| 0 <= j < i ==> (#[trigger] players[j]).player_id != player_id
            },
            None => forall|j: int|
                0 <= j < players.len() ==> (#[trigger] players[j]).player_id != player_id,
        },
    decreases players.len(),
{
    if players.len() == 0 || players[0].player_id == player_id {
        0
    } else {
        let rest = players.drop_first();
        let k = lemma_entry(rest, player_id);
        assert forall|j: int| 1 <= j < players.len() implies #[trigger] players[j] == rest[j
            - 1] by {}
        k + 1
    }
}

} // verus!
