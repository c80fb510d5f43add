use pacman_duel::server::roster::{placeholder_nick, RawPlayer, RawRoster, Roster};
use serde_json::Value;

fn field<'a>(object: &'a Value, names: &[&str]) -> Option<&'a Value> {
    names.iter().find_map(|n| object.get(n))
}

fn text(object: &Value, names: &[&str]) -> Option<String> {
    field(object, names).and_then(|v| v.as_str()).map(String::from)
}

/// A roster payload, with the names the fields go by.
fn read(raw: &str) -> Option<RawRoster> {
    let payload: Value = serde_json::from_str(raw).ok()?;
    let players = field(&payload, &["players", "roster", "tickets"])
        .and_then(|v| v.as_array())
        .map(|list| {
            list.iter()
                .map(|p| RawPlayer {
                    player_id: text(p, &["playerId", "player_id", "id"]),
                    nick: text(p, &["displayName", "display_name", "name", "nick"]),
                    slot: p.get("slot").and_then(|s| s.as_u64()).map(|s| s as u8),
                })
                .collect()
        });
    Some(RawRoster {
        match_id: text(&payload, &["matchId", "match_id", "id"]),
        players,
    })
}

fn parse(raw: &str) -> Option<Roster> {
    Roster::parse(&read(raw)?)
}

#[test]
fn a_snake_case_payload_parses() {
    let raw = r#"{"match_id":"mt_1","players":[
        {"player_id":"gst_a","nick":"a","slot":0},
        {"player_id":"gst_b","nick":"b","slot":1}]}"#;
    let r = parse(raw).unwrap();
    assert_eq!(r.match_id, "mt_1");
    assert_eq!(r.players.len(), 2);
    assert_eq!(r.slot_of("gst_b"), Some(1));
    assert_eq!(r.nick_of("gst_a"), Some("a"));
}

#[test]
fn a_camel_case_payload_parses() {
    let raw = r#"{"matchId":"mt_2","players":[
        {"playerId":"gst_a","displayName":"yurei"},
        {"playerId":"gst_b","displayName":"rival"}]}"#;
    let r = parse(raw).unwrap();
    assert_eq!(r.match_id, "mt_2");
    assert_eq!(r.nick_of("gst_a"), Some("yurei"));
}

#[test]
fn missing_slots_fall_back_to_array_order() {
    let raw = r#"{"players":[{"playerId":"gst_a"},{"playerId":"gst_b"}]}"#;
    let r = parse(raw).unwrap();
    assert_eq!(r.slot_of("gst_a"), Some(0));
    assert_eq!(r.slot_of("gst_b"), Some(1));
}

#[test]
fn missing_nicks_get_a_placeholder() {
    let raw = r#"{"players":[{"playerId":"gst_a"}]}"#;
    let r = parse(raw).unwrap();
    assert_eq!(r.nick_of("gst_a"), Some("player1"));
}

#[test]
fn a_tickets_shaped_payload_parses() {
    let raw = r#"{"id":"mt_3","tickets":[{"id":"gst_a"},{"id":"gst_b"}]}"#;
    let r = parse(raw).unwrap();
    assert_eq!(r.match_id, "mt_3");
    assert_eq!(r.players.len(), 2);
}

#[test]
fn an_unusable_payload_is_none_rather_than_a_panic() {
    assert!(parse("").is_none());
    assert!(parse("not json").is_none());
    assert!(parse("{}").is_none());
    assert!(parse(r#"{"players":[]}"#).is_none());
    assert!(parse(r#"{"players":[{"nick":"nameless"}]}"#).is_none());
}

#[test]
fn blank_player_ids_are_dropped() {
    let raw = r#"{"players":[{"playerId":"  "},{"playerId":"gst_b"}]}"#;
    let r = parse(raw).unwrap();
    assert_eq!(r.players.len(), 1);
    assert_eq!(r.players[0].player_id, "gst_b");
}

#[test]
fn an_unknown_player_has_no_slot() {
    let raw = r#"{"players":[{"playerId":"gst_a"}]}"#;
    let r = parse(raw).unwrap();
    assert_eq!(r.slot_of("gst_zzz"), None);
}

#[test]
fn placeholders_count_from_one() {
    assert_eq!(placeholder_nick(0), "player1");
    assert_eq!(placeholder_nick(41), "player42");
}
