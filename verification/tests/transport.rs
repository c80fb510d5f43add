use pacman_duel::protocol::{CH_EVENT, CH_INPUT, CH_SNAPSHOT};
use pacman_duel::transport::{connection_config, listening_port, Delivery, FALLBACK_PORT};

#[test]
fn every_channel_id_is_configured_once() {
    let config = connection_config();
    let mut ids: Vec<u8> = config.server_channels.iter().map(|c| c.channel_id).collect();
    ids.sort_unstable();
    assert_eq!(ids, vec![CH_INPUT, CH_SNAPSHOT, CH_EVENT]);
}

#[test]
fn both_directions_agree_on_channels() {
    let config = connection_config();
    let server: Vec<u8> = config.server_channels.iter().map(|c| c.channel_id).collect();
    let client: Vec<u8> = config.client_channels.iter().map(|c| c.channel_id).collect();
    assert_eq!(server, client, "a mismatch here silently drops messages");
}

#[test]
fn only_the_event_channel_is_reliable() {
    for channel in connection_config().server_channels {
        let reliable = !matches!(channel.delivery, Delivery::Unreliable);
        assert_eq!(
            reliable,
            channel.channel_id == CH_EVENT,
            "channel {} has the wrong delivery guarantee",
            channel.channel_id
        );
    }
}

#[test]
fn an_assigned_port_beats_the_fallback() {
    assert_eq!(listening_port(Some(7000)), 7000);
    assert_eq!(listening_port(None), FALLBACK_PORT);
}

#[test]
fn the_budget_per_tick_is_fixed() {
    assert_eq!(connection_config().available_bytes_per_tick, 60_000);
}
