//! Screens and the flow between them.
//!
//! Nick, then menu, then queue, then the match, then the result. There are no
//! lobbies by design: the shortest path from opening the game to playing is one
//! key press.

use vstd::prelude::*;
use crate::client::backend::{Reply, Request, Session};
use crate::client::identity::Identity;
use crate::client::net::{Assignment, Link, Match};
use crate::client::screen::Screen;
use crate::difficulty::Difficulty;
use crate::grid::MILLISECOND;
use crate::sim::RunnerState;
use crate::text::{decimal_text, is_control, repeat, signed_text, trim, two_digit_text};
#[allow(unused_imports)]
use crate::client::backend::{settles, Answer};
#[allow(unused_imports)]
use crate::client::net::Handshake;
#[allow(unused_imports)]
use crate::difficulty::{difficulty_at, law_the_curve_by_the_half_minute};
#[allow(unused_imports)]
use crate::text::{control, decimal, repeated, signed_decimal, trimmed, two_digits};

verus! {

pub const NICK_MAX: usize = 16;

/// How often the queue is polled, in time units: once a second.
pub const POLL_EVERY: i64 = 12_000;

/// How long the queue screen shows one ellipsis, in time units.
pub const DOTS_EVERY: i64 = 3_600;

#[derive(Debug, Clone, PartialEq, Eq)]
pub struct NickDraft(pub String);

impl Default for NickDraft {
    fn default() -> (d: NickDraft)
        ensures
            d.0@.len() == 0,
    {
        NickDraft(String::new())
    }
}

/// A place in the queue, and how long ago it was last asked about.
#[derive(Debug, Clone, PartialEq, Eq)]
pub struct Ticket {
    pub id: String,
    pub elapsed: i64,
}

/// Points are the rating on the scale the player is shown.
#[derive(Debug, Clone, Copy, PartialEq, Eq, Structural)]
pub struct Rating {
    pub found: bool,
    pub points: i64,
    pub matches: i64,
}

impl Default for Rating {
    fn default() -> (r: Rating)
        ensures
            r == (Rating { found: false, points: 0, matches: 0 }),
    {
        Rating { found: false, points: 0, matches: 0 }
    }
}

/// The last thing that went wrong, shown to the player instead of being buried
/// in a log they will never read.
#[derive(Debug, Clone, PartialEq, Eq)]
pub struct LastError(pub Option<String>);

impl Default for LastError {
    fn default() -> (e: LastError)
        ensures
            e.0 is None,
    {
        LastError(None)
    }
}

/// What the screens share.
#[derive(Debug)]
pub struct Ui {
    pub session: Session,
    pub draft: NickDraft,
    pub ticket: Option<Ticket>,
    pub rating: Rating,
    pub error: LastError,
}

impl Default for Ui {
    fn default() -> (ui: Ui)
        ensures
            ui.session.token@.len() == 0,
            ui.session.player_id@.len() == 0,
            ui.session.nick@.len() == 0,
            ui.draft.0@.len() == 0,
            ui.ticket is None,
            ui.rating == (Rating { found: false, points: 0, matches: 0 }),
            ui.error.0 is None,
    {
        Ui {
            session: Session::default(),
            draft: NickDraft::default(),
            ticket: None,
            rating: Rating::default(),
            error: LastError::default(),
        }
    }
}

impl Ticket {
    /// A ticket that has waited with its poll for less than an interval.
    pub open spec fn wf(&self) -> bool {
        0 <= self.elapsed < POLL_EVERY
    }
}

impl Ui {
    pub open spec fn wf(&self) -> bool {
        self.ticket matches Some(t) ==> t.wf()
    }
}

/// What a screen asks for: a request to the backend, and a screen to go to.
#[derive(Debug, PartialEq, Eq)]
pub struct Move {
    pub request: Option<Request>,
    pub screen: Option<Screen>,
}

/// What happens at launch. Somebody the file knows goes straight to the menu;
/// anybody else is asked for a name.
pub fn boot(ui: &mut Ui, saved: Identity) -> (next: Move)
    ensures
        final(ui).draft.0@.len() == 0,
        final(ui).ticket == old(ui).ticket,
        final(ui).rating == old(ui).rating,
        final(ui).error == old(ui).error,
        if saved.player_id@.len() > 0 && saved.token@.len() > 0 && saved.nick@.len() > 0 {
            &&& final(ui).session.token@ == saved.token@
            &&& final(ui).session.player_id@ == saved.player_id@
            &&& final(ui).session.nick@ == saved.nick@
            &&& next == Move { request: Some(Request::Rating), screen: Some(Screen::Menu) }
        } else {
            &&& final(ui).session == old(ui).session
            &&& next == Move { request: None, screen: Some(Screen::Nick) }
        },
{
    ui.draft = NickDraft::default();
    if saved.is_usable() {
        ui.session = Session { token: saved.token, player_id: saved.player_id, nick: saved.nick };
        Move { request: Some(Request::Rating), screen: Some(Screen::Menu) }
    } else {
        Move { request: None, screen: Some(Screen::Nick) }
    }
}

/// A key that went down on the nick screen.
#[derive(Debug, Clone, PartialEq, Eq)]
pub enum NickKey {
    Character(String),
    Space,
    Backspace,
    Enter,
}

/// A draft after some characters were typed: control characters are dropped, and
/// so is what does not fit.
pub open spec fn typed(draft: Seq<char>, more: Seq<char>) -> Seq<char>
    decreases more.len(),
{
    if more.len() == 0 {
        draft
    } else {
        let sofar = typed(draft, more.drop_last());
        if !control(more.last()) && sofar.len() < NICK_MAX {
            sofar.push(more.last())
        } else {
            sofar
        }
    }
}

/// A draft after one key.
pub open spec fn keyed(draft: Seq<char>, key: NickKey) -> Seq<char> {
    match key {
        NickKey::Character(text) => typed(draft, text@),
        NickKey::Space => if draft.len() < NICK_MAX {
            draft.push(' ')
        } else {
            draft
        },
        NickKey::Backspace => if draft.len() > 0 {
            draft.drop_last()
        } else {
            draft
        },
        NickKey::Enter => draft,
    }
}

/// A draft after a row of keys.
pub open spec fn drafted(draft: Seq<char>, keys: Seq<NickKey>) -> Seq<char>
    decreases keys.len(),
{
    if keys.len() == 0 {
        draft
    } else {
        keyed(drafted(draft, keys.drop_last()), keys.last())
    }
}

/// Whether enter is among some keys.
pub open spec fn submits(keys: Seq<NickKey>) -> bool {
    exists|i: int| 0 <= i < keys.len() && #[trigger] keys[i] is Enter
}

impl NickDraft {
    fn typing(&mut self, text: &String)
        ensures
            final(self).0@ == typed(old(self).0@, text@),
    {
        let s = text.as_str();
        let n: usize = s.unicode_len();
        for i in 0..n
            invariant
                n == s@.len(),
                s@ == text@,
                self.0@ == typed(old(self).0@, s@.take(i as int)),
        {
            assert(s@.take(i as int + 1).drop_last() =~= s@.take(i as int));
            if !is_control(s.get_char(i)) && self.0.as_str().unicode_len() < NICK_MAX {
                let ghost sofar = self.0@;
                let c = s.substring_char(i, i + 1);
                self.0.append(c);
                assert(self.0@ =~= sofar.push(s@[i as int]));
            }
        }
        assert(s@.take(n as int) =~= s@);
    }

    fn press(&mut self, key: &NickKey)
        ensures
            final(self).0@ == keyed(old(self).0@, *key),
    {
        match key {
            NickKey::Character(text) => self.typing(text),
            NickKey::Space => {
                if self.0.as_str().unicode_len() < NICK_MAX {
                    proof {
                        reveal_strlit(" ");
                    }
                    self.0.append(" ");
                    assert(self.0@ =~= old(self).0@.push(' '));
                }
            },
            NickKey::Backspace => {
                let n: usize = self.0.as_str().unicode_len();
                if n > 0 {
                    let shorter = self.0.as_str().substring_char(0, n - 1).to_owned();
                    self.0 = shorter;
                    assert(self.0@ =~= old(self).0@.drop_last());
                }
            },
            NickKey::Enter => {},
        }
    }

    /// The draft as it is shown.
    pub fn line(&self) -> (text: String)
        ensures
            text@ == (if self.0@.len() == 0 {
                "_"@
            } else {
                self.0@
            }),
    {
        if self.0.as_str().is_empty() {
            "_".to_owned()
        } else {
            self.0.clone()
        }
    }
}

/// The keys of one frame on the nick screen. Enter submits a name that is more
/// than blanks.
pub fn type_nick(ui: &mut Ui, keys: &Vec<NickKey>) -> (next: Move)
    ensures
        final(ui).draft.0@ == drafted(old(ui).draft.0@, keys@),
        final(ui).session == old(ui).session,
        final(ui).ticket == old(ui).ticket,
        final(ui).rating == old(ui).rating,
        final(ui).error == old(ui).error,
        next.screen is None,
        ({
            let nick = trimmed(drafted(old(ui).draft.0@, keys@));
            if submits(keys@) && nick.len() > 0 {
                next.request matches Some(Request::Guest { nick: n, player_id }) && n@ == nick
                    && player_id is None
            } else {
                next.request is None
            }
        }),
{
    let mut submit = false;
    for i in 0..keys.len()
        invariant
            ui.draft.0@ == drafted(old(ui).draft.0@, keys@.take(i as int)),
            ui.session == old(ui).session,
            ui.ticket == old(ui).ticket,
            ui.rating == old(ui).rating,
            ui.error == old(ui).error,
            submit == exists|j: int| 0 <= j < i && #[trigger] keys@[j] is Enter,
    {
        assert(keys@.take(i as int + 1).drop_last() =~= keys@.take(i as int));
        ui.draft.press(&keys[i]);
        if let NickKey::Enter = &keys[i] {
            assert(keys@[i as int] is Enter);
            submit = true;
        }
    }
    assert(keys@.take(keys@.len() as int) =~= keys@);
    let nick = trim(ui.draft.0.as_str());
    if submit && !nick.as_str().is_empty() {
        Move { request: Some(Request::Guest { nick, player_id: None }), screen: None }
    } else {
        Move { request: None, screen: None }
    }
}

/// How a rating reads on the menu.
pub open spec fn rank_of(rating: Rating) -> Seq<char> {
    if rating.found && rating.matches > 0 {
        "Skill "@ + signed_decimal(rating.points as int) + "  ·  "@ + signed_decimal(
            rating.matches as int,
        ) + (if rating.matches == 1 {
            " match"@
        } else {
            " matches"@
        })
    } else {
        "Unranked · play 1 to rank"@
    }
}

impl Rating {
    pub fn rank_line(&self) -> (text: String)
        ensures
            text@ == rank_of(*self),
    {
        if self.found && self.matches > 0 {
            let mut text = "Skill ".to_owned();
            text.append(signed_text(self.points).as_str());
            text.append("  ·  ");
            text.append(signed_text(self.matches).as_str());
            if self.matches == 1 {
                text.append(" match");
            } else {
                text.append(" matches");
            }
            text
        } else {
            "Unranked · play 1 to rank".to_owned()
        }
    }
}

/// The menu's greeting.
pub fn greeting(session: &Session) -> (text: String)
    ensures
        text@ == "hi "@ + session.nick@,
{
    let mut text = "hi ".to_owned();
    text.append(session.nick.as_str());
    text
}

/// One key press on the menu enters the queue.
pub fn menu_input(ui: &mut Ui, go: bool) -> (next: Move)
    ensures
        final(ui).session == old(ui).session,
        final(ui).draft == old(ui).draft,
        final(ui).ticket == old(ui).ticket,
        final(ui).rating == old(ui).rating,
        if go {
            &&& final(ui).error.0 is None
            &&& next == Move { request: Some(Request::Enqueue), screen: Some(Screen::Queue) }
        } else {
            &&& final(ui).error == old(ui).error
            &&& next == Move { request: None, screen: None }
        },
{
    if go {
        ui.error = LastError(None);
        Move { request: Some(Request::Enqueue), screen: Some(Screen::Queue) }
    } else {
        Move { request: None, screen: None }
    }
}

/// The animated ellipsis on the queue screen, so a quiet search never looks like
/// a freeze.
#[derive(Debug, Clone, Copy, PartialEq, Eq, Structural)]
pub struct QueueDots {
    pub elapsed: i64,
    pub step: u64,
}

impl Default for QueueDots {
    fn default() -> (d: QueueDots)
        ensures
            d == (QueueDots { elapsed: 0, step: 0 }),
            d.wf(),
    {
        QueueDots { elapsed: 0, step: 0 }
    }
}

impl QueueDots {
    pub open spec fn wf(&self) -> bool {
        0 <= self.elapsed < DOTS_EVERY && self.step < 3
    }

    /// Cycles the ellipsis through one, two and three dots so the screen is
    /// visibly alive between the once-a-second polls: the new text, once it is
    /// time for one.
    pub fn animate_queue(&mut self, dt: i64) -> (text: Option<String>)
        requires
            old(self).wf(),
            0 <= dt <= i64::MAX - DOTS_EVERY,
        ensures
            final(self).wf(),
            if old(self).elapsed + dt < DOTS_EVERY {
                &&& text is None
                &&& *final(self) == (QueueDots {
                    elapsed: (old(self).elapsed + dt) as i64,
                    ..*old(self)
                })
            } else {
                &&& final(self).elapsed == 0
                &&& final(self).step == (old(self).step + 1) % 3
                &&& text matches Some(t) && t@ == repeated("."@, (final(self).step + 1) as nat)
            },
    {
        self.elapsed = self.elapsed + dt;
        if self.elapsed < DOTS_EVERY {
            return None;
        }
        self.elapsed = 0;
        self.step = (self.step + 1) % 3;
        Some(repeat(".", self.step + 1))
    }
}

/// One frame of the queue. Escape leaves it at any point, even after an assignment
/// has consumed the ticket and we are waiting on the server's welcome: otherwise a
/// connect that never completes leaves the player stuck with no way back.
/// Otherwise the ticket is asked about once a second.
pub fn queue_tick(ui: &mut Ui, link: &mut Link, escape: bool, dt: i64) -> (next: Move)
    requires
        old(ui).wf(),
        0 <= dt <= i64::MAX - POLL_EVERY,
    ensures
        final(ui).wf(),
        final(ui).session == old(ui).session,
        final(ui).draft == old(ui).draft,
        final(ui).rating == old(ui).rating,
        final(ui).error == old(ui).error,
        if escape {
            &&& final(ui).ticket == old(ui).ticket
            &&& final(link).is_idle()
            &&& next.screen == Some(Screen::Menu)
            &&& match old(ui).ticket {
                Some(t) => next.request matches Some(Request::Cancel { ticket_id }) && ticket_id@
                    == t.id@,
                None => next.request is None,
            }
        } else {
            &&& *final(link) == *old(link)
            &&& next.screen is None
            &&& match (old(ui).ticket, final(ui).ticket) {
                (Some(before), Some(after)) => {
                    &&& after.id == before.id
                    &&& after.elapsed == (before.elapsed + dt) % (POLL_EVERY as int)
                    &&& if before.elapsed + dt >= POLL_EVERY {
                        next.request matches Some(Request::Poll { ticket_id }) && ticket_id@
                            == before.id@
                    } else {
                        next.request is None
                    }
                },
                (None, None) => next.request is None,
                _ => false,
            }
        },
{
    if escape {
        let request = match &ui.ticket {
            Some(ticket) => Some(Request::Cancel { ticket_id: ticket.id.clone() }),
            None => None,
        };
        link.disconnect();
        return Move { request, screen: Some(Screen::Menu) };
    }
    match &mut ui.ticket {
        Some(ticket) => {
            let elapsed: i64 = ticket.elapsed + dt;
            ticket.elapsed = elapsed % POLL_EVERY;
            if elapsed >= POLL_EVERY {
                Move { request: Some(Request::Poll { ticket_id: ticket.id.clone() }), screen: None }
            } else {
                Move { request: None, screen: None }
            }
        },
        None => Move { request: None, screen: None },
    }
}

/// One player's part of the heads-up line: name, score and a star per life.
pub open spec fn standing(nick: Seq<char>, score: u32, lives: u8) -> Seq<char> {
    nick + "  "@ + decimal(score as nat) + "  "@ + repeated("*"@, lives as nat)
}

/// The middle of the heads-up line: the clock and the difficulty.
pub open spec fn clock_of(elapsed_ms: u32) -> Seq<char> {
    let seconds = (elapsed_ms / 1000) as nat;
    let d = difficulty_at(elapsed_ms * MILLISECOND);
    two_digits(seconds / 60) + ":"@ + two_digits(seconds % 60) + "  level "@ + decimal(
        (d.step + 1) as nat,
    ) + "  "@ + decimal(d.ghost_count as nat) + " ghosts"@
}

fn standing_text(nick: &String, score: u32, lives: u8) -> (text: String)
    ensures
        text@ == standing(nick@, score, lives),
{
    let mut text = nick.clone();
    text.append("  ");
    text.append(decimal_text(score as u64).as_str());
    text.append("  ");
    text.append(repeat("*", lives as u64).as_str());
    text
}

fn clock_text(elapsed_ms: u32) -> (text: String)
    ensures
        text@ == clock_of(elapsed_ms),
{
    let seconds: u64 = (elapsed_ms / 1000) as u64;
    let d = Difficulty::at(elapsed_ms as i64 * MILLISECOND);
    let mut text = two_digit_text(seconds / 60);
    text.append(":");
    text.append(two_digit_text(seconds % 60).as_str());
    text.append("  level ");
    text.append(decimal_text(d.step as u64 + 1).as_str());
    text.append("  ");
    text.append(decimal_text(d.ghost_count as u64).as_str());
    text.append(" ghosts");
    text
}

/// The heads-up line over a match.
pub open spec fn hud_of(game: Match) -> Seq<char> {
    let (me, rival) = (game.slot as int, 1 - game.slot);
    standing(game.nicks@[me]@, game.scores@[me], game.lives@[me]) + "      "@ + clock_of(
        game.elapsed_ms,
    ) + "      "@ + standing(game.nicks@[rival]@, game.scores@[rival], game.lives@[rival])
}

pub fn update_hud(game: &Match) -> (text: String)
    requires
        game.slot < 2,
    ensures
        text@ == hud_of(*game),
{
    let me: usize = game.slot as usize;
    let rival: usize = game.rival_slot();
    let mut text = standing_text(&game.nicks[me], game.scores[me], game.lives[me]);
    text.append("      ");
    text.append(clock_text(game.elapsed_ms).as_str());
    text.append("      ");
    text.append(
        standing_text(&game.nicks[rival], game.scores[rival], game.lives[rival]).as_str(),
    );
    text
}

/// What to do about the banner over the board of a player who is out.
#[derive(Debug, Clone, Copy, PartialEq, Eq, Structural)]
pub enum BannerStep {
    Keep,
    Show,
    Hide,
}

/// A player who is out of lives has nothing left to do but watch: the match only
/// ends once *both* players are out. Cover their board with a banner so it is
/// clear the game has not frozen, and clear it again if they somehow return.
pub fn update_waiting(game: Option<&Match>, shown: bool) -> (step: BannerStep)
    requires
        game matches Some(g) ==> g.slot < 2,
    ensures
        ({
            let out = game matches Some(g) && g.states@[g.slot as int] == RunnerState::Out;
            step == if out == shown {
                BannerStep::Keep
            } else if out {
                BannerStep::Show
            } else {
                BannerStep::Hide
            }
        }),
{
    let out = match game {
        Some(g) => g.states[g.slot as usize] == RunnerState::Out,
        None => false,
    };
    if out == shown {
        BannerStep::Keep
    } else if out {
        BannerStep::Show
    } else {
        BannerStep::Hide
    }
}

/// The headline of a finished match, as this player sees it.
pub open spec fn headline_of(slot: u8, winner: Option<u8>) -> Seq<char> {
    match winner {
        Some(w) => if w == slot {
            "YOU WON"@
        } else {
            "YOU LOST"@
        },
        None => "DRAW"@,
    }
}

/// The line below the headline.
pub open spec fn detail_of(game: Match, scores: Seq<u32>) -> Seq<char> {
    let (me, rival) = (game.slot as int, 1 - game.slot);
    game.nicks@[me]@ + " "@ + decimal(scores[me] as nat) + "   vs   "@ + game.nicks@[rival]@ + " "@
        + decimal(scores[rival] as nat)
}

/// The headline and the line below it. The rating only changes once the server's
/// report has landed, so it is asked for again now rather than showing the stale
/// number from before the match.
pub fn show_result(game: Option<&Match>) -> (shown: (String, String, Request))
    requires
        game matches Some(g) ==> g.result is Some ==> g.slot < 2,
    ensures
        shown.2 is Rating,
        match game {
            Some(g) => match g.result {
                Some(r) => shown.0@ == headline_of(g.slot, r.winner) && shown.1@ == detail_of(
                    *g,
                    r.scores@,
                ),
                None => shown.0@ == "MATCH OVER"@ && shown.1@.len() == 0,
            },
            None => shown.0@ == "MATCH OVER"@ && shown.1@.len() == 0,
        },
{
    if let Some(g) = game {
        if let Some(result) = g.result {
            let me: usize = g.slot as usize;
            let rival: usize = g.rival_slot();
            let headline = match result.winner {
                Some(w) => if w == g.slot {
                    "YOU WON"
                } else {
                    "YOU LOST"
                },
                None => "DRAW",
            };
            let mut detail = g.nicks[me].clone();
            detail.append(" ");
            detail.append(decimal_text(result.scores[me] as u64).as_str());
            detail.append("   vs   ");
            detail.append(g.nicks[rival].as_str());
            detail.append(" ");
            detail.append(decimal_text(result.scores[rival] as u64).as_str());
            return (headline.to_owned(), detail, Request::Rating);
        }
    }
    ("MATCH OVER".to_owned(), String::new(), Request::Rating)
}

/// One key press on the result screen leads back to the menu.
pub fn result_input(link: &mut Link, leave: bool) -> (next: Move)
    ensures
        if leave {
            &&& final(link).is_idle()
            &&& next == Move { request: None, screen: Some(Screen::Menu) }
        } else {
            &&& *final(link) == *old(link)
            &&& next == Move { request: None, screen: None }
        },
{
    if leave {
        link.disconnect();
        Move { request: None, screen: Some(Screen::Menu) }
    } else {
        Move { request: None, screen: None }
    }
}

/// What a reply leads to besides what it changes in the screens' state.
#[derive(Debug, PartialEq, Eq)]
pub enum ReplyStep {
    Nothing,
    /// Keep this identity on disk.
    Save(Identity),
    /// Show this in the status line, where there is one.
    Status(&'static str),
    /// Open a connection.
    Dial(Assignment),
}

/// Whether a step keeps this identity.
pub open spec fn keeps(
    step: ReplyStep,
    player_id: Seq<char>,
    nick: Seq<char>,
    token: Seq<char>,
) -> bool {
    step matches ReplyStep::Save(i) && i.player_id@ == player_id && i.nick@ == nick && i.token@
        == token
}

/// Whether a step dials this server for this player.
pub open spec fn dials(
    step: ReplyStep,
    connection: Seq<char>,
    session_token: Seq<char>,
    player_id: Seq<char>,
) -> bool {
    step matches ReplyStep::Dial(a) && a.connection@ == connection && a.session_token@
        == session_token && a.player_id@ == player_id
}

/// Whether the screens' state is as it was.
pub open spec fn untouched(before: Ui, after: Ui) -> bool {
    &&& after.session == before.session
    &&& after.draft == before.draft
    &&& after.ticket == before.ticket
    &&& after.rating == before.rating
    &&& after.error == before.error
}

/// What a reply makes of the screens' state.
///
/// The queue poll keeps several requests in flight, so the same assignment comes
/// back many times. A second connection would replace the transport and restart
/// the handshake, so it would never finish: once an assignment exists we are
/// already connecting, and further ones are ignored.
pub open spec fn is_handled(
    before: Ui,
    reply: Reply,
    current: Screen,
    connecting: bool,
    after: Ui,
    step: ReplyStep,
    screen: Option<Screen>,
) -> bool {
    match reply {
        Reply::Identity { player_id, nick, token } => {
            &&& after.session.player_id@ == player_id@
            &&& after.session.nick@ == nick@
            &&& after.session.token@ == token@
            &&& untouched(Ui { session: after.session, ..before }, after)
            &&& keeps(step, player_id@, nick@, token@)
            &&& screen == Some(Screen::Menu)
        },
        Reply::Queued { ticket_id } => {
            &&& after.ticket matches Some(t) && t.id@ == ticket_id@ && t.elapsed == 0
            &&& untouched(Ui { ticket: after.ticket, ..before }, after)
            &&& step is Nothing
            &&& screen is None
        },
        Reply::Searching => {
            &&& untouched(before, after)
            &&& step matches ReplyStep::Status(text) && text@ == "still searching"@
            &&& screen is None
        },
        Reply::Assigned { connection, session_token } => {
            &&& untouched(before, after)
            &&& if connecting {
                step is Nothing
            } else {
                dials(step, connection@, session_token@, before.session.player_id@)
            }
            &&& screen is None
        },
        Reply::QueueTimedOut => {
            &&& after.error.0 matches Some(text) && text@ == "nobody showed up, try again"@
            &&& untouched(Ui { error: after.error, ticket: None, ..before }, after)
            &&& step is Nothing
            &&& screen == Some(Screen::Menu)
        },
        Reply::Cancelled => {
            &&& untouched(Ui { ticket: None, ..before }, after)
            &&& step is Nothing
            &&& screen is None
        },
        Reply::Rating { found, points, matches } => {
            &&& after.rating == (Rating { found, points, matches })
            &&& untouched(Ui { rating: after.rating, ..before }, after)
            &&& step is Nothing
            // Refresh the menu so the new number is actually on screen.
            &&& screen == if current == Screen::Menu {
                Some(Screen::Menu)
            } else {
                None
            }
        },
        Reply::Failed { what, message } => {
            &&& after.error.0 matches Some(text) && text@ == what@ + ": "@ + message@
            &&& untouched(Ui { error: after.error, ..before }, after)
            &&& step is Nothing
            &&& screen == if current != Screen::Nick {
                Some(Screen::Menu)
            } else {
                None
            }
        },
    }
}

/// One reply of the backend.
pub fn handle_reply(ui: &mut Ui, link: &Link, current: Screen, reply: Reply) -> (r: (
    ReplyStep,
    Option<Screen>,
))
    requires
        old(ui).wf(),
    ensures
        final(ui).wf(),
        is_handled(*old(ui), reply, current, link.assignment is Some, *final(ui), r.0, r.1),
{
    match reply {
        Reply::Identity { player_id, nick, token } => {
            ui.session = Session {
                token: token.clone(),
                player_id: player_id.clone(),
                nick: nick.clone(),
            };
            (ReplyStep::Save(Identity { player_id, nick, token }), Some(Screen::Menu))
        },
        Reply::Queued { ticket_id } => {
            ui.ticket = Some(Ticket { id: ticket_id, elapsed: 0 });
            (ReplyStep::Nothing, None)
        },
        Reply::Searching => (ReplyStep::Status("still searching"), None),
        Reply::Assigned { connection, session_token } => {
            if link.assignment.is_some() {
                return (ReplyStep::Nothing, None);
            }
            let assignment = Assignment {
                connection,
                session_token,
                player_id: ui.session.player_id.clone(),
            };
            (ReplyStep::Dial(assignment), None)
        },
        Reply::QueueTimedOut => {
            ui.error = LastError(Some("nobody showed up, try again".to_owned()));
            ui.ticket = None;
            (ReplyStep::Nothing, Some(Screen::Menu))
        },
        Reply::Cancelled => {
            ui.ticket = None;
            (ReplyStep::Nothing, None)
        },
        Reply::Rating { found, points, matches } => {
            ui.rating = Rating { found, points, matches };
            let screen = if current == Screen::Menu {
                Some(Screen::Menu)
            } else {
                None
            };
            (ReplyStep::Nothing, screen)
        },
        Reply::Failed { what, message } => {
            let mut text = what.to_owned();
            text.append(": ");
            text.append(message.as_str());
            ui.error = LastError(Some(text));
            let screen = if current != Screen::Nick {
                Some(Screen::Menu)
            } else {
                None
            };
            (ReplyStep::Nothing, screen)
        },
    }
}

/// What became of dialling. A connection that is on its way uses up the ticket;
/// one that could not be opened sends the player back to the menu with the
/// reason.
pub fn dialled(
    ui: &mut Ui,
    link: &mut Link,
    assignment: Assignment,
    outcome: Result<(), String>,
) -> (r: (ReplyStep, Option<Screen>))
    requires
        old(ui).wf(),
    ensures
        final(ui).wf(),
        match outcome {
            Ok(_) => {
                &&& *final(link) == (Link {
                    assignment: Some(assignment),
                    handshake: Handshake { hello_sent: false },
                    ..*old(link)
                })
                &&& untouched(Ui { ticket: None, ..*old(ui) }, *final(ui))
                &&& r.0 matches ReplyStep::Status(text) && text@ == "entering the match"@
                &&& r.1 is None
            },
            Err(message) => {
                &&& *final(link) == *old(link)
                &&& final(ui).error.0 matches Some(text) && text@ == message@
                &&& untouched(Ui { error: final(ui).error, ..*old(ui) }, *final(ui))
                &&& r.0 is Nothing
                &&& r.1 == Some(Screen::Menu)
            },
        },
{
    match outcome {
        Ok(_) => {
            link.connect(assignment);
            ui.ticket = None;
            (ReplyStep::Status("entering the match"), None)
        },
        Err(message) => {
            ui.error = LastError(Some(message));
            (ReplyStep::Nothing, Some(Screen::Menu))
        },
    }
}

/// The client connects exactly once: while it has an assignment, another one
/// dials nothing and changes nothing.
pub proof fn law_the_client_connects_once(
    before: Ui,
    connection: String,
    session_token: String,
    current: Screen,
    after: Ui,
    step: ReplyStep,
    screen: Option<Screen>,
)
    requires
        is_handled(
            before,
            Reply::Assigned { connection, session_token },
            current,
            true,
            after,
            step,
            screen,
        ),
    ensures
        step is Nothing,
        screen is None,
        untouched(before, after),
{
}

/// A name that may be drafted: not too long, and without control characters.
pub open spec fn presentable(draft: Seq<char>) -> bool {
    &&& draft.len() <= NICK_MAX
    &&& forall|i: int| 0 <= i < draft.len() ==> !control(#[trigger] draft[i])
}

proof fn lemma_typing_stays_presentable(draft: Seq<char>, more: Seq<char>)
    requires
        presentable(draft),
    ensures
        presentable(typed(draft, more)),
    decreases more.len(),
{
    if more.len() > 0 {
        lemma_typing_stays_presentable(draft, more.drop_last());
    }
}

/// Whatever is typed, the draft stays short enough and free of control
/// characters.
pub proof fn law_a_draft_stays_presentable(draft: Seq<char>, keys: Seq<NickKey>)
    requires
        presentable(draft),
    ensures
        presentable(drafted(draft, keys)),
    decreases keys.len(),
{
    if keys.len() > 0 {
        law_a_draft_stays_presentable(draft, keys.drop_last());
        if let NickKey::Character(text) = keys.last() {
            lemma_typing_stays_presentable(drafted(draft, keys.drop_last()), text@);
        }
    }
}

/// A backspace takes back the character that was typed last.
pub proof fn law_backspace_takes_back(draft: Seq<char>, keys: Seq<NickKey>, key: NickKey, c: char)
    requires
        drafted(draft, keys.push(key)) == drafted(draft, keys).push(c),
    ensures
        drafted(draft, keys.push(key).push(NickKey::Backspace)) == drafted(draft, keys),
{
    let longer = keys.push(key);
    assert(longer.push(NickKey::Backspace).drop_last() =~= longer);
    assert(drafted(draft, keys).push(c).drop_last() =~= drafted(draft, keys));
}

/// The two players never read the same headline of a match somebody won, and
/// both read the same of a draw.
pub proof fn law_one_player_wins(winner: Option<u8>)
    requires
        winner matches Some(w) ==> w < 2,
    ensures
        winner is None <==> headline_of(0, winner) == headline_of(1, winner),
        winner is None ==> headline_of(0, winner) == "DRAW"@,
        winner is Some ==> (headline_of(0, winner) == "YOU WON"@ <==> headline_of(1, winner)
            == "YOU LOST"@),
{
    reveal_strlit("YOU WON");
    reveal_strlit("YOU LOST");
    reveal_strlit("DRAW");
    assert("YOU WON"@.len() != "YOU LOST"@.len());
}

/// A ticket that cannot lead to a match never strands the player on the queue
/// screen: an assignment without the pieces needed to connect, a queue that timed
/// out and a poll that failed all lead back to the menu, with the reason.
pub proof fn law_the_queue_never_strands(
    answer: Answer,
    reply: Reply,
    before: Ui,
    connecting: bool,
    after: Ui,
    step: ReplyStep,
    screen: Option<Screen>,
)
    requires
        settles(reply, answer),
        is_handled(before, reply, Screen::Queue, connecting, after, step, screen),
        answer matches Answer::Ticket(r) && match r {
            Ok(t) => {
                ||| t.status@ == "assigned"@ && (t.connection is None || t.session_token is None)
                ||| t.status@ == "timeout"@
            },
            Err(_) => true,
        },
    ensures
        screen == Some(Screen::Menu),
        after.error.0 is Some,
{
    reveal_strlit("assigned");
    reveal_strlit("timeout");
    assert("assigned"@.len() != "timeout"@.len());
}

/// Typing adds what is not a control character while there is room for sixteen,
/// space adds a blank under the same limit, backspace takes the last character, and
/// enter changes nothing.
pub proof fn law_keys_do_what_they_say(draft: Seq<char>, c: char, key: NickKey)
    ensures
        typed(draft, seq![c]) == (if !control(c) && draft.len() < 16 {
            draft.push(c)
        } else {
            draft
        }),
        keyed(draft, NickKey::Space) == (if draft.len() < 16 {
            draft.push(' ')
        } else {
            draft
        }),
        draft.len() > 0 ==> keyed(draft, NickKey::Backspace) == draft.drop_last(),
        draft.len() == 0 ==> keyed(draft, NickKey::Backspace) == draft,
        keyed(draft, NickKey::Enter) == draft,
        key matches NickKey::Character(text) ==> keyed(draft, key) == typed(draft, text@),
{
    assert(seq![c].drop_last() =~= Seq::<char>::empty());
    assert(typed(draft, seq![c].drop_last()) == draft);
}

/// Text is typed one character after the other.
pub proof fn law_text_is_typed_in_order(draft: Seq<char>, a: Seq<char>, b: Seq<char>)
    ensures
        typed(draft, a + b) == typed(typed(draft, a), b),
    decreases b.len(),
{
    if b.len() == 0 {
        assert(a + b =~= a);
    } else {
        law_text_is_typed_in_order(draft, a, b.drop_last());
        assert((a + b).drop_last() =~= a + b.drop_last());
    }
}

/// A winner reads that they won, a loser that they lost, and of a draw both read
/// that.
pub proof fn law_the_headline_is_the_players_own(slot: u8, winner: Option<u8>)
    ensures
        winner == Some(slot) ==> headline_of(slot, winner) == "YOU WON"@,
        winner is Some && winner != Some(slot) ==> headline_of(slot, winner) == "YOU LOST"@,
        winner is None ==> headline_of(slot, winner) == "DRAW"@,
{
}

/// The player's own name and points stand on the left and the rival's on the right,
/// over the board and under the headline, and the clock between them.
pub proof fn law_the_own_name_stands_on_the_left(game: Match, scores: Seq<u32>)
    requires
        game.slot < 2,
        scores.len() == 2,
    ensures
        ({
            let (me, rival) = if game.slot == 0 {
                (0int, 1int)
            } else {
                (1, 0)
            };
            let mine = game.nicks@[me]@ + "  "@ + decimal(game.scores@[me] as nat) + "  "@
                + repeated("*"@, game.lives@[me] as nat);
            let theirs = game.nicks@[rival]@ + "  "@ + decimal(game.scores@[rival] as nat) + "  "@
                + repeated("*"@, game.lives@[rival] as nat);
            &&& hud_of(game) == mine + "      "@ + clock_of(game.elapsed_ms) + "      "@ + theirs
            &&& detail_of(game, scores) == game.nicks@[me]@ + " "@ + decimal(scores[me] as nat)
                + "   vs   "@ + game.nicks@[rival]@ + " "@ + decimal(scores[rival] as nat)
        }),
{
}

/// The clock shows whole minutes and seconds, the level counts half minutes from one,
/// and the ghosts are those of that level.
pub proof fn law_the_clock_shows_minutes_and_levels(elapsed_ms: u32)
    ensures
        ({
            let half_minutes = elapsed_ms as int / 30_000;
            let ghosts = if half_minutes / 2 <= 3 {
                4 + half_minutes / 2
            } else {
                7
            };
            clock_of(elapsed_ms) == two_digits((elapsed_ms as int / 60_000) as nat) + ":"@
                + two_digits((elapsed_ms as int / 1000 % 60) as nat) + "  level "@ + decimal(
                (half_minutes + 1) as nat,
            ) + "  "@ + decimal(ghosts as nat) + " ghosts"@
        }),
{
    let ms = elapsed_ms as int;
    law_the_curve_by_the_half_minute(ms * 12);
    assert(ms * 12 / 360_000 == ms / 30_000);
    assert(ms / 1000 / 60 == ms / 60_000);
}

/// What a reply leads to. An identity is taken over, kept on disk, and leads to the
/// menu. A ticket starts its own clock. An assignment dials its server for this
/// player, unless one is being dialled. A timeout, like a failure anywhere but on the
/// name screen, leads back to the menu with the reason, and a timeout or a
/// cancellation gives up the ticket.
pub proof fn law_every_reply_has_its_consequence(
    before: Ui,
    reply: Reply,
    current: Screen,
    connecting: bool,
    after: Ui,
    step: ReplyStep,
    screen: Option<Screen>,
)
    requires
        is_handled(before, reply, current, connecting, after, step, screen),
    ensures
        match reply {
            Reply::Identity { player_id, nick, token } => {
                &&& after.session.player_id@ == player_id@ && after.session.nick@ == nick@
                    && after.session.token@ == token@
                &&& step matches ReplyStep::Save(i) && i.player_id@ == player_id@ && i.nick@
                    == nick@ && i.token@ == token@
                &&& screen == Some(Screen::Menu)
            },
            Reply::Queued { ticket_id } => {
                &&& after.ticket matches Some(t) && t.id@ == ticket_id@ && t.elapsed == 0
                &&& screen is None && after.session == before.session
            },
            Reply::Searching => screen is None && after.ticket == before.ticket,
            Reply::Assigned { connection, session_token } => {
                &&& connecting ==> step is Nothing
                &&& !connecting ==> (step matches ReplyStep::Dial(a) && a.connection@ == connection@
                    && a.session_token@ == session_token@ && a.player_id@
                    == before.session.player_id@)
                &&& screen is None
            },
            Reply::QueueTimedOut => {
                &&& after.ticket is None && after.error.0 is Some
                &&& screen == Some(Screen::Menu) && after.session == before.session
            },
            Reply::Cancelled => after.ticket is None && screen is None && after.error
                == before.error,
            Reply::Rating { found, points, matches } => {
                &&& after.rating.found == found && after.rating.points == points
                    && after.rating.matches == matches
                &&& screen is Some <==> current is Menu
                &&& screen matches Some(next) ==> next is Menu
            },
            Reply::Failed { what, message } => {
                &&& after.error.0 matches Some(text) && text@ == what@ + ": "@ + message@
                &&& screen is None <==> current is Nick
                &&& screen matches Some(next) ==> next is Menu
                &&& after.ticket == before.ticket
            },
        },
{
}

/// A rating is shown once there is a match to show for it.
pub proof fn law_a_rating_needs_a_match(rating: Rating)
    ensures
        !rating.found || rating.matches <= 0 ==> rank_of(rating) == "Unranked · play 1 to rank"@,
        rating.found && rating.matches == 1 ==> rank_of(rating) == "Skill "@ + signed_decimal(
            rating.points as int,
        ) + "  ·  "@ + signed_decimal(1) + " match"@,
        rating.found && rating.matches > 1 ==> rank_of(rating) == "Skill "@ + signed_decimal(
            rating.points as int,
        ) + "  ·  "@ + signed_decimal(rating.matches as int) + " matches"@,
{
}

} // verus!
