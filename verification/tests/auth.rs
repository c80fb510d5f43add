use jsonwebtoken::{encode, EncodingKey, Header};
use pacman_duel::backend::auth::{
    bearer_token, guest_id_from, issue_player_token, issue_player_token_at, issue_session_token,
    new_guest_id, verify_player_token, verify_player_token_at, Player, PLAYER_TOKEN_LIFETIME,
};
use pacman_duel::backend::error::ApiError;
use pacman_duel::server::session::verify_session_token;
use serde_json::Value;

fn now_secs() -> u64 {
    std::time::SystemTime::now()
        .duration_since(std::time::UNIX_EPOCH)
        .unwrap()
        .as_secs()
}

#[test]
fn guest_ids_are_prefixed_and_unique() {
    let a = new_guest_id();
    let b = new_guest_id();
    assert!(a.starts_with("gst_"));
    assert_eq!(a.len(), 20);
    assert_ne!(a, b, "two guests collided, the generator is broken");
}

#[test]
fn a_player_token_round_trips() {
    let token = issue_player_token("secret", "gst_abc", "yurei").unwrap();
    let claims = verify_player_token("secret", &token).unwrap();
    assert_eq!(claims.sub, "gst_abc");
    assert_eq!(claims.nick, "yurei");
}

#[test]
fn a_token_signed_with_another_secret_is_rejected() {
    let token = issue_player_token("secret", "gst_abc", "yurei").unwrap();
    assert!(verify_player_token("other-secret", &token).is_err());
}

#[test]
fn garbage_is_rejected() {
    assert!(verify_player_token("secret", "not-a-token").is_err());
    assert!(verify_player_token("secret", "").is_err());
}

#[test]
fn player_and_session_tokens_do_not_cross_validate() {
    let player = issue_player_token("jwt-secret", "gst_abc", "yurei").unwrap();
    let session = issue_session_token("internal-token", "gst_abc", "yurei").unwrap();

    assert!(verify_player_token("internal-token", &player).is_err());
    assert!(verify_player_token("jwt-secret", &session).is_err());

    // The server verifies the session token with the internal secret.
    assert!(verify_session_token("internal-token", &session, now_secs()).is_some());
}

#[test]
fn an_expired_token_is_rejected() {
    let mut claims = serde_json::Map::new();
    claims.insert("sub".into(), "gst_abc".into());
    claims.insert("nick".into(), "yurei".into());
    claims.insert("exp".into(), (now_secs() - 10).into());
    let token = encode(
        &Header::default(),
        &Value::Object(claims),
        &EncodingKey::from_secret(b"secret"),
    )
    .unwrap();
    assert!(verify_player_token("secret", &token).is_err());
}

#[test]
fn a_player_token_lasts_to_its_last_second() {
    let token = issue_player_token_at("secret", "gst_abc", "yurei", 5_000).unwrap();
    let last = 5_000 + PLAYER_TOKEN_LIFETIME;
    let claims = verify_player_token_at("secret", &token, last).unwrap();
    assert_eq!(claims.exp, last);
    assert!(verify_player_token_at("secret", &token, last + 1).is_err());
}

#[test]
fn a_player_token_needs_a_name() {
    let mut claims = serde_json::Map::new();
    claims.insert("sub".into(), "gst_abc".into());
    claims.insert("exp".into(), (now_secs() + 10).into());
    let token = encode(
        &Header::default(),
        &Value::Object(claims),
        &EncodingKey::from_secret(b"secret"),
    )
    .unwrap();
    assert!(verify_player_token("secret", &token).is_err());
}

#[test]
fn tokens_are_readable_by_the_outside_crate() {
    let token = issue_player_token_at("secret", "gst_abc", "yurei", now_secs()).unwrap();
    let data = jsonwebtoken::decode::<Value>(
        &token,
        &jsonwebtoken::DecodingKey::from_secret(b"secret"),
        &jsonwebtoken::Validation::default(),
    )
    .unwrap();
    assert_eq!(data.claims.get("sub").and_then(|v| v.as_str()), Some("gst_abc"));
    assert_eq!(data.claims.get("nick").and_then(|v| v.as_str()), Some("yurei"));
}

#[test]
fn a_token_is_the_same_to_the_last_character() {
    // Subject, nick and expiry, in this order.
    assert_eq!(
        issue_player_token_at("secret", "gst_a", "ana", 1_000).unwrap(),
        "eyJ0eXAiOiJKV1QiLCJhbGciOiJIUzI1NiJ9.\
         eyJzdWIiOiJnc3RfYSIsIm5pY2siOiJhbmEiLCJleHAiOjI1OTMwMDB9.\
         rOslOTTK9g33WXmvf7v4lCPwbrkc288I2bB3rTn_Ix0"
    );
}

#[test]
fn a_guest_id_is_its_bytes_in_hex() {
    assert_eq!(
        guest_id_from(&[0x7f, 0x3a, 0, 1, 0xff, 0x10, 2, 3]),
        "gst_7f3a0001ff100203"
    );
}

#[test]
fn a_bearer_header_holds_a_token() {
    assert_eq!(bearer_token("Bearer abc"), Some("abc".to_string()));
    assert_eq!(bearer_token("bearer abc"), Some("abc".to_string()));
    assert_eq!(bearer_token("BEARER abc"), None);
    assert_eq!(bearer_token("Basic abc"), None);
}

#[test]
fn a_request_without_a_good_token_is_unauthorized() {
    let token = issue_player_token("secret", "gst_abc", "yurei").unwrap();
    let header = format!("Bearer {token}");
    let player = Player::from_header("secret", Some(&header)).unwrap();
    assert_eq!(player.id, "gst_abc");
    assert_eq!(player.nick, "yurei");
    for header in [None, Some("Bearer junk"), Some(token.as_str())] {
        assert!(matches!(
            Player::from_header("secret", header),
            Err(ApiError::Unauthorized)
        ));
    }
}
