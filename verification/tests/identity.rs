use pacman_duel::client::identity::{
    client_id_of, config_base, load, ConfigBase, Identity, DIR_NAME, FILE_NAME,
};

#[test]
fn a_missing_file_yields_an_unusable_identity() {
    let id = load(None);
    assert!(!id.is_usable());
    assert!(id.player_id.is_empty());
}

#[test]
fn a_partial_identity_is_not_usable() {
    let id = load(Some(Identity {
        player_id: "gst_a".into(),
        nick: String::new(),
        token: String::new(),
    }));
    assert_eq!(id.player_id, "gst_a");
    assert!(!id.is_usable(), "no token means we still need the backend");
}

#[test]
fn a_complete_identity_is_usable() {
    let id = Identity {
        player_id: "gst_7f3a".into(),
        nick: "yurei".into(),
        token: "eyJ".into(),
    };
    assert!(id.is_usable());
    assert_eq!(load(Some(id.clone())), id);
    let mut nameless = id.clone();
    nameless.nick.clear();
    assert!(!nameless.is_usable());
}

#[test]
fn client_ids_are_stable_and_distinct() {
    assert_eq!(client_id_of("gst_a"), client_id_of("gst_a"));
    assert_ne!(client_id_of("gst_a"), client_id_of("gst_b"));
    assert_ne!(client_id_of(""), client_id_of("gst_a"));
}

/// The published test vectors of FNV-1a.
#[test]
fn client_ids_are_fnv() {
    assert_eq!(client_id_of(""), 0xcbf2_9ce4_8422_2325);
    assert_eq!(client_id_of("a"), 0xaf63_dc4c_8601_ec8c);
    assert_eq!(client_id_of("foobar"), 0x8594_4171_f739_67e8);
}

#[test]
fn the_identity_file_has_a_place() {
    assert_eq!(config_base(true, true), ConfigBase::Xdg);
    assert_eq!(config_base(false, true), ConfigBase::HomeConfig);
    assert_eq!(config_base(false, false), ConfigBase::Here);
    assert_eq!(format!("{DIR_NAME}/{FILE_NAME}"), "pacman-1v1/identity.json");
}
