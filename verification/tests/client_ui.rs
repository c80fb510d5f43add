use pacman_duel::client::backend::{Reply, Request, Session};
use pacman_duel::client::identity::Identity;
use pacman_duel::client::net::{Assignment, Link, Match, MatchResult};
use pacman_duel::client::screen::Screen;
use pacman_duel::client::ui::{
    boot, dialled, greeting, handle_reply, menu_input, queue_tick, result_input, show_result,
    type_nick, update_hud, update_waiting, BannerStep, LastError, Move, NickDraft, NickKey,
    QueueDots, Rating, ReplyStep, Ticket, Ui, DOTS_EVERY, NICK_MAX, POLL_EVERY,
};
use pacman_duel::pellets::PelletField;
use pacman_duel::sim::RunnerState;

fn game(slot: u8) -> Match {
    Match::new(
        slot,
        PelletField::new_full(),
        ["ana".to_string(), "beto".to_string()],
    )
}

fn characters(text: &str) -> NickKey {
    NickKey::Character(text.to_string())
}

fn assigned() -> Reply {
    Reply::Assigned {
        connection: "10.0.0.1:7000".into(),
        session_token: "tok".into(),
    }
}

#[test]
fn a_known_player_goes_straight_to_the_menu() {
    let mut ui = Ui::default();
    let next = boot(
        &mut ui,
        Identity {
            player_id: "gst_a".into(),
            nick: "ana".into(),
            token: "tok".into(),
        },
    );
    assert_eq!(
        next,
        Move {
            request: Some(Request::Rating),
            screen: Some(Screen::Menu)
        }
    );
    assert_eq!(ui.session.player_id, "gst_a");
    assert_eq!(greeting(&ui.session), "hi ana");
}

#[test]
fn anybody_else_is_asked_for_a_name() {
    let mut ui = Ui::default();
    let next = boot(&mut ui, Identity::default());
    assert_eq!(
        next,
        Move {
            request: None,
            screen: Some(Screen::Nick)
        }
    );
    assert_eq!(ui.session, Session::default());
}

#[test]
fn a_name_is_typed_and_submitted() {
    let mut ui = Ui::default();
    assert_eq!(ui.draft.line(), "_");
    let next = type_nick(
        &mut ui,
        &vec![
            NickKey::Space,
            characters("yu"),
            characters("r\u{7}x"),
            NickKey::Backspace,
            characters("ei"),
        ],
    );
    assert_eq!(ui.draft.line(), " yurei");
    assert_eq!(next.request, None);
    let next = type_nick(&mut ui, &vec![NickKey::Enter]);
    assert_eq!(
        next.request,
        Some(Request::Guest {
            nick: "yurei".into(),
            player_id: None
        })
    );
    assert_eq!(next.screen, None);
}

#[test]
fn a_blank_name_is_not_submitted() {
    let mut ui = Ui::default();
    let next = type_nick(&mut ui, &vec![NickKey::Space, NickKey::Enter]);
    assert_eq!(next.request, None);
    let next = type_nick(&mut ui, &vec![NickKey::Backspace, NickKey::Backspace, NickKey::Enter]);
    assert_eq!(next.request, None);
    assert_eq!(ui.draft, NickDraft::default());
}

#[test]
fn a_name_has_a_limit() {
    let mut ui = Ui::default();
    type_nick(&mut ui, &vec![characters(&"ñ".repeat(50)), NickKey::Space, characters("x")]);
    assert_eq!(ui.draft.0, "ñ".repeat(NICK_MAX));
}

#[test]
fn a_rank_reads_well() {
    let unranked = Rating::default();
    assert_eq!(unranked.rank_line(), "Unranked · play 1 to rank");
    let played = Rating {
        found: true,
        points: 1012,
        matches: 1,
    };
    assert_eq!(played.rank_line(), "Skill 1012  ·  1 match");
    let more = Rating {
        found: true,
        points: -40,
        matches: 12,
    };
    assert_eq!(more.rank_line(), "Skill -40  ·  12 matches");
    let none = Rating {
        found: true,
        points: 1000,
        matches: 0,
    };
    assert_eq!(none.rank_line(), "Unranked · play 1 to rank");
}

#[test]
fn one_key_enters_the_queue() {
    let mut ui = Ui::default();
    ui.error = LastError(Some("old".into()));
    let stay = menu_input(&mut ui, false);
    assert_eq!(
        stay,
        Move {
            request: None,
            screen: None
        }
    );
    assert_eq!(ui.error, LastError(Some("old".into())));
    let go = menu_input(&mut ui, true);
    assert_eq!(
        go,
        Move {
            request: Some(Request::Enqueue),
            screen: Some(Screen::Queue)
        }
    );
    assert_eq!(ui.error, LastError(None));
}

#[test]
fn a_ticket_is_polled_once_a_second() {
    let mut ui = Ui::default();
    let mut link = Link::default();
    assert_eq!(queue_tick(&mut ui, &mut link, false, POLL_EVERY).request, None);
    ui.ticket = Some(Ticket {
        id: "tk_1".into(),
        elapsed: 0,
    });
    let mut polls = 0;
    for _ in 0..100 {
        let next = queue_tick(&mut ui, &mut link, false, POLL_EVERY / 10);
        assert_eq!(next.screen, None);
        if let Some(request) = next.request {
            assert_eq!(
                request,
                Request::Poll {
                    ticket_id: "tk_1".into()
                }
            );
            polls += 1;
        }
    }
    assert_eq!(polls, 10);
}

#[test]
fn escape_leaves_the_queue_at_any_point() {
    let mut ui = Ui::default();
    let mut link = Link::default();
    ui.ticket = Some(Ticket {
        id: "tk_1".into(),
        elapsed: 0,
    });
    let next = queue_tick(&mut ui, &mut link, true, 0);
    assert_eq!(
        next,
        Move {
            request: Some(Request::Cancel {
                ticket_id: "tk_1".into()
            }),
            screen: Some(Screen::Menu)
        }
    );

    // The ticket is gone once a connection is on its way.
    ui.ticket = None;
    link.connect(Assignment {
        connection: "x".into(),
        session_token: "t".into(),
        player_id: "p".into(),
    });
    let next = queue_tick(&mut ui, &mut link, true, 0);
    assert_eq!(
        next,
        Move {
            request: None,
            screen: Some(Screen::Menu)
        }
    );
    assert!(link.assignment.is_none());
}

#[test]
fn the_ellipsis_moves() {
    let mut dots = QueueDots::default();
    assert_eq!(dots.animate_queue(DOTS_EVERY - 1), None);
    assert_eq!(dots.animate_queue(1), Some("..".to_string()));
    assert_eq!(dots.animate_queue(DOTS_EVERY), Some("...".to_string()));
    assert_eq!(dots.animate_queue(DOTS_EVERY), Some(".".to_string()));
}

#[test]
fn the_heads_up_line_tells_the_score() {
    let mut g = game(1);
    g.scores = [70, 1200];
    g.lives = [2, 3];
    g.elapsed_ms = 95_999;
    assert_eq!(
        update_hud(&g),
        "beto  1200  ***      01:35  level 4  5 ghosts      ana  70  **"
    );
    let fresh = game(0);
    assert_eq!(
        update_hud(&fresh),
        "ana  0  ***      00:00  level 1  4 ghosts      beto  0  ***"
    );
}

#[test]
fn the_waiting_banner_follows_the_player() {
    let mut g = game(1);
    assert_eq!(update_waiting(Some(&g), false), BannerStep::Keep);
    g.states = [RunnerState::Alive, RunnerState::Out];
    assert_eq!(update_waiting(Some(&g), false), BannerStep::Show);
    assert_eq!(update_waiting(Some(&g), true), BannerStep::Keep);
    assert_eq!(update_waiting(None, true), BannerStep::Hide);
    assert_eq!(update_waiting(None, false), BannerStep::Keep);
}

#[test]
fn the_result_is_told_from_the_players_side() {
    let mut g = game(1);
    let (headline, detail, request) = show_result(Some(&g));
    assert_eq!((headline.as_str(), detail.as_str()), ("MATCH OVER", ""));
    assert_eq!(request, Request::Rating);
    for (winner, want) in [
        (Some(1), "YOU WON"),
        (Some(0), "YOU LOST"),
        (None, "DRAW"),
    ] {
        g.result = Some(MatchResult {
            scores: [70, 1200],
            winner,
        });
        let (headline, detail, _) = show_result(Some(&g));
        assert_eq!(headline, want);
        assert_eq!(detail, "beto 1200   vs   ana 70");
    }
    assert_eq!(show_result(None).0, "MATCH OVER");
}

#[test]
fn one_key_leaves_the_result() {
    let mut link = Link::default();
    link.connect(Assignment {
        connection: "x".into(),
        session_token: "t".into(),
        player_id: "p".into(),
    });
    assert_eq!(result_input(&mut link, false).screen, None);
    assert!(link.assignment.is_some());
    assert_eq!(result_input(&mut link, true).screen, Some(Screen::Menu));
    assert!(link.assignment.is_none());
}

#[test]
fn an_identity_is_taken_and_kept() {
    let mut ui = Ui::default();
    let link = Link::default();
    let (step, screen) = handle_reply(
        &mut ui,
        &link,
        Screen::Nick,
        Reply::Identity {
            player_id: "gst_a".into(),
            nick: "ana".into(),
            token: "tok".into(),
        },
    );
    assert_eq!(
        step,
        ReplyStep::Save(Identity {
            player_id: "gst_a".into(),
            nick: "ana".into(),
            token: "tok".into()
        })
    );
    assert_eq!(screen, Some(Screen::Menu));
    assert_eq!(ui.session.token, "tok");
}

#[test]
fn the_client_connects_exactly_once() {
    let mut ui = Ui::default();
    let mut link = Link::default();
    ui.session.player_id = "gst_a".into();
    let queued = Reply::Queued {
        ticket_id: "tk_1".into(),
    };
    assert_eq!(
        handle_reply(&mut ui, &link, Screen::Queue, queued),
        (ReplyStep::Nothing, None)
    );
    assert_eq!(ui.ticket.as_ref().unwrap().id, "tk_1");

    let (step, _) = handle_reply(&mut ui, &link, Screen::Queue, assigned());
    let assignment = match step {
        ReplyStep::Dial(a) => a,
        other => panic!("not dialling: {other:?}"),
    };
    assert_eq!(assignment.player_id, "gst_a");
    assert_eq!(assignment.connection, "10.0.0.1:7000");
    assert_eq!(
        dialled(&mut ui, &mut link, assignment, Ok(())),
        (ReplyStep::Status("entering the match"), None)
    );
    assert!(ui.ticket.is_none());

    assert_eq!(
        handle_reply(&mut ui, &link, Screen::Queue, assigned()),
        (ReplyStep::Nothing, None),
        "a second assignment must not dial again"
    );
}

#[test]
fn a_connection_that_fails_is_explained() {
    let mut ui = Ui::default();
    let mut link = Link::default();
    let (step, _) = handle_reply(&mut ui, &link, Screen::Queue, assigned());
    let assignment = match step {
        ReplyStep::Dial(a) => a,
        other => panic!("not dialling: {other:?}"),
    };
    assert_eq!(
        dialled(&mut ui, &mut link, assignment, Err("no route".into())),
        (ReplyStep::Nothing, Some(Screen::Menu))
    );
    assert_eq!(ui.error, LastError(Some("no route".into())));
    assert!(link.assignment.is_none());
}

#[test]
fn every_other_reply_has_its_effect() {
    let mut ui = Ui::default();
    let link = Link::default();
    assert_eq!(
        handle_reply(&mut ui, &link, Screen::Queue, Reply::Searching),
        (ReplyStep::Status("still searching"), None)
    );

    ui.ticket = Some(Ticket {
        id: "tk_1".into(),
        elapsed: 0,
    });
    assert_eq!(
        handle_reply(&mut ui, &link, Screen::Queue, Reply::QueueTimedOut),
        (ReplyStep::Nothing, Some(Screen::Menu))
    );
    assert!(ui.ticket.is_none());
    assert_eq!(ui.error, LastError(Some("nobody showed up, try again".into())));

    ui.ticket = Some(Ticket {
        id: "tk_1".into(),
        elapsed: 0,
    });
    assert_eq!(
        handle_reply(&mut ui, &link, Screen::Menu, Reply::Cancelled),
        (ReplyStep::Nothing, None)
    );
    assert!(ui.ticket.is_none());

    for (screen, refreshed) in [(Screen::Menu, Some(Screen::Menu)), (Screen::Result, None)] {
        let rating = Reply::Rating {
            found: true,
            points: 1040,
            matches: 3,
        };
        assert_eq!(
            handle_reply(&mut ui, &link, screen, rating),
            (ReplyStep::Nothing, refreshed)
        );
        assert_eq!(ui.rating.points, 1040);
    }

    for (screen, next) in [(Screen::Queue, Some(Screen::Menu)), (Screen::Nick, None)] {
        let failed = Reply::Failed {
            what: "queue",
            message: "boom".into(),
        };
        assert_eq!(
            handle_reply(&mut ui, &link, screen, failed),
            (ReplyStep::Nothing, next)
        );
        assert_eq!(ui.error, LastError(Some("queue: boom".into())));
    }
}
