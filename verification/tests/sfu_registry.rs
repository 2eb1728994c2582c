//! The SFU registry, its dispatch decisions and the worker environment.

use taigachat_core::sfu::{ChannelEntry, SfuError, SfuState};
use taigachat_core::worker_env::{
    allowed_announce_ip, is_unix_scheme, parse_log_level, parse_log_tag, split_unix_url,
    IpModel, LogLevelModel, LogTagModel,
};

fn channel_with_peers(ids: &[u64]) -> ChannelEntry {
    let mut c = ChannelEntry { channel_id: 1, peers: Vec::new() };
    for id in ids {
        c.add_peer(*id);
    }
    c
}

#[test]
fn channels_reject_duplicates() {
    let mut s = SfuState::new();
    assert!(s.new_channel(1).is_ok());
    assert!(s.new_channel(2).is_ok());
    assert_eq!(s.new_channel(1), Err(SfuError::DuplicateChannel));
    assert_eq!(s.channel_index(1), Some(0));
    assert_eq!(s.channel_index(2), Some(1));
    assert_eq!(s.channel_index(3), None);
}

#[test]
fn peers_come_and_go() {
    let mut c = channel_with_peers(&[10, 11]);
    assert_eq!(c.peers.len(), 2);
    c.add_peer(10);
    assert_eq!(c.peers.len(), 2);
    assert!(c.peers[0].transports.is_empty());
    c.remove_peer(10);
    assert_eq!(c.peers.len(), 1);
    assert_eq!(c.peers[0].peer_id, 11);
    c.remove_peer(99);
    assert_eq!(c.peers.len(), 1);
}

#[test]
fn transports_are_checked_and_tracked() {
    let mut c = channel_with_peers(&[10]);
    assert_eq!(c.transport_check(10, 7), Err(SfuError::NoSuchTransport));
    assert_eq!(c.transport_check(99, 7), Err(SfuError::NoSuchPeer));
    assert!(c.create_transport_complete(10, 7).is_ok());
    assert!(c.transport_check(10, 7).is_ok());
    assert!(c.remove_transport(10, 7).is_ok());
    assert_eq!(c.transport_check(10, 7), Err(SfuError::NoSuchTransport));
    assert_eq!(c.remove_transport(99, 7), Err(SfuError::NoSuchPeer));
}

#[test]
fn announce_check_comes_before_the_worker() {
    let c = channel_with_peers(&[10]);
    let loopback = IpModel::V4(127, 0, 0, 1);
    assert!(!allowed_announce_ip(loopback));
    assert_eq!(
        c.create_transport_check(10, allowed_announce_ip(loopback)),
        Err(SfuError::BadAnnounceIp)
    );
    let unspecified = IpModel::V4(0, 0, 0, 0);
    assert!(!allowed_announce_ip(unspecified));
    let v6_loopback = IpModel::V6(0, 1);
    assert!(!allowed_announce_ip(v6_loopback));
    let v6_unspecified = IpModel::V6(0, 0);
    assert!(!allowed_announce_ip(v6_unspecified));
    let public = IpModel::V4(203, 0, 113, 9);
    assert!(allowed_announce_ip(public));
    assert!(c.create_transport_check(10, allowed_announce_ip(public)).is_ok());
    assert_eq!(
        c.create_transport_check(99, allowed_announce_ip(public)),
        Err(SfuError::NoSuchPeer)
    );
}

#[test]
fn producing_broadcasts_to_everyone_else() {
    let mut c = channel_with_peers(&[10, 11, 12]);
    assert!(c.create_transport_complete(10, 7).is_ok());
    assert!(c.transport_check(10, 7).is_ok());
    let targets = c.produce_complete(10, 500).unwrap();
    assert_eq!(targets, vec![11, 12]);
    assert_eq!(c.peers[0].producers, vec![500]);
    assert_eq!(c.produce_complete(99, 501), Err(SfuError::NoSuchPeer));
}

#[test]
fn producer_listing_is_exact() {
    let mut c = channel_with_peers(&[10, 11]);
    assert!(c.produce_complete(10, 500).is_ok());
    assert!(c.produce_complete(11, 501).is_ok());
    assert!(c.produce_complete(10, 502).is_ok());
    let all = c.get_producers();
    assert_eq!(all, vec![(10, 500), (10, 502), (11, 501)]);
    assert!(c.producer_closed(10, 500).is_ok());
    let all = c.get_producers();
    assert_eq!(all, vec![(10, 502), (11, 501)]);
}

#[test]
fn deaf_peers_get_paused_consumers() {
    let mut c = channel_with_peers(&[10, 11]);
    assert!(c.create_transport_complete(11, 8).is_ok());
    let ids = c.set_deafen_peer(11, true).unwrap();
    assert!(ids.is_empty());
    assert!(c.consume_check(11, 8, true).is_ok());
    let pause_now = c.consume_complete(11, 900).unwrap();
    assert!(pause_now);
    assert!(c.peers[1].consumers[0].paused);

    let ids = c.set_deafen_peer(11, false).unwrap();
    assert_eq!(ids, vec![900]);
    assert!(!c.peers[1].consumers[0].paused);

    let pause_now = c.consume_complete(11, 901).unwrap();
    assert!(!pause_now);
}

#[test]
fn consume_checks_fail_exactly() {
    let mut c = channel_with_peers(&[10]);
    assert_eq!(c.consume_check(10, 8, false), Err(SfuError::CannotConsume));
    assert_eq!(c.consume_check(99, 8, true), Err(SfuError::NoSuchPeer));
    assert_eq!(c.consume_check(10, 8, true), Err(SfuError::NoSuchTransport));
    assert!(c.create_transport_complete(10, 8).is_ok());
    assert!(c.consume_check(10, 8, true).is_ok());
}

#[test]
fn closed_consumers_leave_the_map() {
    let mut c = channel_with_peers(&[10]);
    assert!(c.consume_complete(10, 900).is_ok());
    assert!(c.consume_complete(10, 901).is_ok());
    assert!(c.consumer_closed(10, 900).is_ok());
    assert_eq!(c.peers[0].consumers.len(), 1);
    assert_eq!(c.peers[0].consumers[0].consumer_id, 901);
    assert!(c.consumer_closed(10, 999).is_ok());
    assert_eq!(c.peers[0].consumers.len(), 1);
    assert_eq!(c.consumer_closed(99, 901), Err(SfuError::NoSuchPeer));
}

#[test]
fn log_settings_parse() {
    assert!(matches!(parse_log_level(b"debug"), LogLevelModel::Debug));
    assert!(matches!(parse_log_level(b"warn"), LogLevelModel::Warn));
    assert!(matches!(parse_log_level(b"error"), LogLevelModel::Error));
    assert!(matches!(parse_log_level(b"verbose"), LogLevelModel::Silent));
    assert_eq!(parse_log_tag(b""), Ok(None));
    assert_eq!(parse_log_tag(b"ice"), Ok(Some(LogTagModel::Ice)));
    assert_eq!(parse_log_tag(b"sctp"), Ok(Some(LogTagModel::Sctp)));
    assert_eq!(parse_log_tag(b"nonsense"), Err(()));
}

#[test]
fn unix_socket_urls_split_at_the_second_colon() {
    assert!(is_unix_scheme(b"ws://unix/api/ws:/run/sfu.sock"));
    assert!(!is_unix_scheme(b"wss://host/api"));
    let (http, fs) = split_unix_url(b"ws://unix/api/ws:/run/sfu.sock").unwrap();
    assert_eq!(http.as_slice(), b"ws://unix/api/ws");
    assert_eq!(fs.as_slice(), b"/run/sfu.sock");
    assert!(split_unix_url(b"no colons here").is_none());
    assert!(split_unix_url(b"ws://unix/only-one").is_none());
}

#[test]
fn a_deaf_peer_scenario_through_the_registry() {
    let mut s = SfuState::new();
    assert!(s.new_channel(1).is_ok());
    assert!(s.add_peer(1, 10).is_ok());
    assert!(s.add_peer(1, 11).is_ok());
    assert!(s.set_deafen_peer(1, 11, true).is_ok());
    assert_eq!(s.add_peer(2, 10), Err(SfuError::NoSuchChannel));
    let idx = s.channel_index(1).unwrap();
    assert!(s.channels[idx].create_transport_complete(11, 8).is_ok());
    assert!(s.channels[idx].consume_complete(11, 900).unwrap());
    assert!(s.channels[idx].peers[1].consumers[0].paused);
    let resumed = s.set_deafen_peer(1, 11, false).unwrap();
    assert_eq!(resumed, vec![900]);
    let idx = s.channel_index(1).unwrap();
    assert!(!s.channels[idx].peers[1].consumers[0].paused);
    assert!(s.remove_transport(1, 11, 8).is_ok());
    assert!(s.remove_peer(1, 11).is_ok());
    assert_eq!(s.channels[idx].peers.len(), 1);
}
