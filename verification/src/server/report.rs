//! Reporting the result and shutting down.
//!
//! At game over the server posts the raw result to its own backend, which is
//! the only holder of the platform's API key. The server never talks to the
//! rating API itself.
//!
//! Shutting down matters as much as reporting. A pod that stays up after its
//! match burns the organisation's quota, so the shutdown path runs even when
//! the report fails.

use vstd::prelude::*;
use crate::server::session::Session;
use crate::sim::MatchPhase;
use crate::text::decimal_text;
#[allow(unused_imports)]
use crate::server::session::SessionView;
#[allow(unused_imports)]
use crate::text::decimal;

verus! {

/// How often a result is posted before giving up.
pub const ATTEMPTS: u32 = 3;

/// How long to wait after the first failed attempt, in milliseconds; the second
/// one waits twice as long.
pub const BACKOFF_MS: u64 = 500;

#[derive(Debug, Clone, PartialEq, Eq)]
pub struct ResultPlayer {
    pub player_id: String,
    pub nick: String,
    pub score: u32,
    pub present: bool,
}

#[derive(Debug, Clone, PartialEq, Eq)]
pub struct MatchResult {
    pub match_id: String,
    pub players: Vec<ResultPlayer>,
    pub winner_slot: Option<u8>,
}

impl ResultPlayer {
    /// Whether this is what a session says of a slot.
    pub open spec fn is_of(&self, s: SessionView, slot: int) -> bool {
        &&& self.player_id@ == s.slot(slot).player_id
        &&& self.nick@ == s.slot(slot).nick
        &&& self.score == s.sim.runners[slot].score
        &&& self.present == s.slot(slot).ever_present
    }
}

/// The id a match is reported under. A match that never had one is named after
/// its seed.
pub open spec fn report_id(s: SessionView) -> Seq<char> {
    if s.match_id.len() == 0 {
        "local-"@ + decimal(s.seed as nat)
    } else {
        s.match_id
    }
}

impl MatchResult {
    /// Whether this is the result of a session, slot 0 first.
    pub open spec fn is_of(&self, s: SessionView, winner: Option<u8>) -> bool {
        &&& self.match_id@ == report_id(s)
        &&& self.players@.len() == 2
        &&& self.players@[0].is_of(s, 0)
        &&& self.players@[1].is_of(s, 1)
        &&& self.winner_slot == winner
    }
}

/// What to do about the result.
#[derive(Debug, Clone, PartialEq, Eq)]
pub enum ReportStep {
    /// The match is not over, or its result was dealt with already.
    Nothing,
    /// A slot was never occupied, so the match says nothing about skill: it is not
    /// reported, and the server winds down.
    Skip,
    /// Post the result.
    Post { url: String, body: MatchResult },
}

/// Where results are posted.
pub open spec fn result_url(backend_url: Seq<char>) -> Seq<char> {
    backend_url + "/internal/match-result"@
}

fn result_player(session: &Session, slot: usize) -> (p: ResultPlayer)
    requires
        slot < 2,
        session@.sim.wf(),
    ensures
        p.is_of(session@, slot as int),
{
    ResultPlayer {
        player_id: session.slots[slot].player_id.clone(),
        nick: session.slots[slot].nick.clone(),
        score: session.sim.runners[slot].score,
        present: session.slots[slot].ever_present,
    }
}

/// Decides what to do about the result. Each match gets one answer.
pub fn send_result_when_finished(session: &mut Session, backend_url: &str) -> (step: ReportStep)
    requires
        old(session).wf(),
    ensures
        final(session).wf(),
        match old(session).sim.phase {
            MatchPhase::Finished { winner } if !old(session).reported => {
                &&& final(session)@ == (SessionView { reported: true, ..old(session)@ })
                &&& if old(session)@.slots.0.ever_present && old(session)@.slots.1.ever_present {
                    step matches ReportStep::Post { url, body } && url@ == result_url(
                        backend_url@,
                    ) && body.is_of(old(session)@, winner)
                } else {
                    step is Skip
                }
            },
            _ => step is Nothing && final(session)@ == old(session)@,
        },
{
    let winner = match session.sim.phase {
        MatchPhase::Finished { winner } => winner,
        _ => return ReportStep::Nothing,
    };
    if session.reported {
        return ReportStep::Nothing;
    }
    session.reported = true;
    let mut players: Vec<ResultPlayer> = Vec::new();
    players.push(result_player(session, 0));
    players.push(result_player(session, 1));
    if !session.both_seated() {
        return ReportStep::Skip;
    }
    let match_id = if session.match_id.as_str().is_empty() {
        let mut id = "local-".to_owned();
        id.append(decimal_text(session.seed).as_str());
        id
    } else {
        session.match_id.clone()
    };
    let mut url = backend_url.to_owned();
    url.append("/internal/match-result");
    ReportStep::Post { url, body: MatchResult { match_id, players, winner_slot: winner } }
}

/// What follows an attempt to post the result.
#[derive(Debug, Clone, Copy, PartialEq, Eq, Structural)]
pub enum AttemptStep {
    /// It is over, for better or worse.
    Done { ok: bool },
    /// Try again after this many milliseconds.
    Retry { after_ms: u64 },
}

/// What follows the attempt of this number, counted from one. Losing one match's
/// rating is bad. Leaving the pod running is worse, so after the last attempt the
/// server gives up.
pub open spec fn attempt_step(attempt: int, accepted: bool) -> AttemptStep {
    if accepted {
        AttemptStep::Done { ok: true }
    } else if attempt < ATTEMPTS {
        AttemptStep::Retry { after_ms: (BACKOFF_MS * attempt) as u64 }
    } else {
        AttemptStep::Done { ok: false }
    }
}

pub fn after_attempt(attempt: u32, accepted: bool) -> (step: AttemptStep)
    ensures
        step == attempt_step(attempt as int, accepted),
{
    if accepted {
        AttemptStep::Done { ok: true }
    } else if attempt < ATTEMPTS {
        AttemptStep::Retry { after_ms: BACKOFF_MS * attempt as u64 }
    } else {
        AttemptStep::Done { ok: false }
    }
}

/// Whether the server has begun to wind down, so that shutdown is asked for only
/// once.
#[derive(Debug, Clone, Copy, PartialEq, Eq, Structural)]
pub struct WindDown {
    pub winding_down: bool,
}

/// The players of a session that are still connected, slot 0 first.
pub open spec fn still_connected(s: SessionView) -> Seq<Seq<char>> {
    let first = if s.slots.0.connected {
        seq![s.slots.0.player_id]
    } else {
        Seq::empty()
    };
    if s.slots.1.connected {
        first.push(s.slots.1.player_id)
    } else {
        first
    }
}

/// The contents of a list of texts.
pub open spec fn texts(list: Seq<String>) -> Seq<Seq<char>> {
    list.map_values(|s: String| s@)
}

impl WindDown {
    #[verifier::allow_in_spec]
    pub fn new() -> WindDown
        returns
            (WindDown { winding_down: false }),
    {
        WindDown { winding_down: false }
    }

    /// Called once a report is done, or the platform asked for the pod back. The
    /// first time, says whom to take off the platform's books before shutting
    /// down: player tracking has to be left clean, otherwise the platform keeps
    /// counting players that are gone.
    pub fn finish_shutdown(&mut self, done: bool, session: Option<&Session>) -> (leaving: Option<
        Vec<String>,
    >)
        ensures
            leaving is Some <==> done && !old(self).winding_down,
            final(self).winding_down == (old(self).winding_down || done),
            leaving matches Some(ids) ==> texts(ids@) == (match session {
                Some(s) => still_connected(s@),
                None => Seq::empty(),
            }),
    {
        if !done || self.winding_down {
            return None;
        }
        self.winding_down = true;
        let mut ids: Vec<String> = Vec::new();
        if let Some(s) = session {
            if s.slots[0].connected {
                ids.push(s.slots[0].player_id.clone());
            }
            if s.slots[1].connected {
                ids.push(s.slots[1].player_id.clone());
            }
            assert(texts(ids@) =~= still_connected(s@));
        }
        assert(session is None ==> texts(ids@) =~= Seq::empty());
        Some(ids)
    }
}

/// However the attempts turn out, the server is done after the last one. An
/// accepted result is never posted again, and a refused one is until the attempts
/// run out, with a longer pause each time.
pub proof fn law_reporting_always_ends(attempt: int, accepted: bool)
    requires
        attempt >= 1,
    ensures
        attempt >= ATTEMPTS ==> attempt_step(attempt, accepted) == (AttemptStep::Done {
            ok: accepted,
        }),
        accepted ==> attempt_step(attempt, accepted) == (AttemptStep::Done { ok: true }),
        attempt < ATTEMPTS && !accepted ==> attempt_step(attempt, accepted) == (
        AttemptStep::Retry { after_ms: (500 * attempt) as u64 }),
{
}

/// A reported result says of each slot, in order, who sat there under which name,
/// with how many points, and that they were there. It goes by the id of the match;
/// a match without one goes by its seed.
pub proof fn law_a_result_says_what_happened(r: MatchResult, s: SessionView, winner: Option<u8>)
    requires
        r.is_of(s, winner),
    ensures
        r.players@.len() == 2,
        r.players@[0].player_id@ == s.slots.0.player_id,
        r.players@[1].player_id@ == s.slots.1.player_id,
        r.players@[0].nick@ == s.slots.0.nick,
        r.players@[1].nick@ == s.slots.1.nick,
        r.players@[0].score == s.sim.runners[0].score,
        r.players@[1].score == s.sim.runners[1].score,
        r.players@[0].present == s.slots.0.ever_present,
        r.players@[1].present == s.slots.1.ever_present,
        r.winner_slot == winner,
        s.match_id.len() > 0 ==> r.match_id@ == s.match_id,
        s.match_id.len() == 0 ==> r.match_id@ == "local-"@ + decimal(s.seed as nat),
{
}

/// A result is posted at most three times, half a second after the first failure and
/// a whole one after the second.
pub proof fn law_a_result_is_posted_three_times_at_most(accepted: bool)
    ensures
        attempt_step(1, false) == (AttemptStep::Retry { after_ms: 500 }),
        attempt_step(2, false) == (AttemptStep::Retry { after_ms: 1_000 }),
        forall|n: int| n >= 3 ==> #[trigger] attempt_step(n, accepted) == (AttemptStep::Done {
            ok: accepted,
        }),
        forall|n: int| #[trigger] attempt_step(n, true) == (AttemptStep::Done { ok: true }),
{
}

/// On the way out, exactly the players still connected are taken off the books, each
/// once, the first slot first.
pub proof fn law_exactly_the_connected_leave(s: SessionView)
    ensures
        ({
            let list = still_connected(s);
            let (a, b) = (s.slots.0, s.slots.1);
            &&& a.connected && b.connected ==> list == seq![a.player_id, b.player_id]
            &&& a.connected && !b.connected ==> list == seq![a.player_id]
            &&& !a.connected && b.connected ==> list == seq![b.player_id]
            &&& !a.connected && !b.connected ==> list == Seq::<Seq<char>>::empty()
        }),
{
}

} // verus!
