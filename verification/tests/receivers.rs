use rusty_link::link::measurement::Ipv4Endpoint;
use rusty_link::link_audio::payload::{ChannelRequest, ChannelStopRequest, Id};
use rusty_link::link_audio::receivers::Receivers;

const SECOND: u64 = 1_000_000;
const NOW: u64 = 1_000 * SECOND;

/// 127.0.0.`last`:20808
fn endpoint(last: u8) -> Ipv4Endpoint {
    Ipv4Endpoint { ip: u32::from_be_bytes([127, 0, 0, last]), port: 20808 }
}

fn request(peer: u8) -> ChannelRequest {
    ChannelRequest {
        peer_id: Id::from_array([peer; 8]),
        channel_id: Id::from_array([0xaa; 8]),
    }
}

#[test]
fn requests_register_endpoints() {
    let mut receivers = Receivers::new();
    let now = NOW;
    receivers.receive_channel_request(&request(1), 5, Some(endpoint(1)), now);
    receivers.receive_channel_request(&request(2), 5, Some(endpoint(2)), now);

    assert_eq!(receivers.len(), 2);
    let endpoints = receivers.endpoints();
    assert!(endpoints.contains(&endpoint(1)));
    assert!(endpoints.contains(&endpoint(2)));
}

#[test]
fn repeated_requests_refresh_rather_than_duplicate() {
    let mut receivers = Receivers::new();
    let now = NOW;
    receivers.receive_channel_request(&request(1), 5, Some(endpoint(1)), now);
    receivers.receive_channel_request(&request(1), 5, Some(endpoint(1)), now + 2 * SECOND);
    assert_eq!(receivers.len(), 1);

    receivers.prune_expired(now + 7 * SECOND);
    assert_eq!(receivers.len(), 1);
}

#[test]
fn a_refresh_moves_the_peer_and_keeps_the_others_in_order() {
    let mut receivers = Receivers::new();
    receivers.receive_channel_request(&request(1), 5, Some(endpoint(1)), NOW);
    receivers.receive_channel_request(&request(2), 5, Some(endpoint(2)), NOW + SECOND);
    receivers.receive_channel_request(&request(3), 5, Some(endpoint(3)), NOW + 2 * SECOND);
    // Peer 1 refreshes with a new endpoint: it now expires last.
    receivers.receive_channel_request(&request(1), 5, Some(endpoint(9)), NOW + 3 * SECOND);
    assert_eq!(receivers.len(), 3);
    assert_eq!(receivers.endpoints(), vec![endpoint(2), endpoint(3), endpoint(9)]);
}

#[test]
fn stop_requests_remove_the_peer() {
    let mut receivers = Receivers::new();
    receivers.receive_channel_request(&request(1), 5, Some(endpoint(1)), NOW);
    receivers.receive_channel_stop_request(&ChannelStopRequest {
        peer_id: Id::from_array([1; 8]),
        channel_id: Id::from_array([0xaa; 8]),
    });
    assert!(receivers.is_empty());
}

#[test]
fn expired_requests_are_pruned() {
    let mut receivers = Receivers::new();
    let now = NOW;
    receivers.receive_channel_request(&request(1), 5, Some(endpoint(1)), now);
    receivers.prune_expired(now + 5 * SECOND);
    assert_eq!(receivers.len(), 1);
    receivers.prune_expired(now + 7 * SECOND);
    assert!(receivers.is_empty());
}

#[test]
fn receivers_are_pruned_when_peers_leave() {
    let mut receivers = Receivers::new();
    let now = NOW;
    receivers.receive_channel_request(&request(1), 5, Some(endpoint(1)), now);
    receivers.receive_channel_request(&request(2), 5, Some(endpoint(2)), now);

    receivers.retain_peers(&[Id::from_array([2; 8])]);
    assert_eq!(receivers.len(), 1);
    assert_eq!(receivers.endpoints().first().copied(), Some(endpoint(2)));
}

#[test]
fn endpoints_can_be_updated() {
    let mut receivers = Receivers::new();
    receivers.receive_channel_request(&request(1), 5, None, NOW);
    assert_eq!(receivers.endpoints().len(), 0);
    receivers.set_endpoint(Id::from_array([1; 8]), Some(endpoint(1)));
    assert_eq!(receivers.endpoints().first().copied(), Some(endpoint(1)));
}

#[test]
fn receivers_stay_sorted_by_expiry() {
    let mut receivers = Receivers::new();
    receivers.receive_channel_request(&request(1), 5, Some(endpoint(1)), NOW);
    receivers.receive_channel_request(&request(2), 2, Some(endpoint(2)), NOW);
    receivers.receive_channel_request(&request(3), 9, Some(endpoint(3)), NOW);
    assert_eq!(receivers.endpoints(), vec![endpoint(2), endpoint(1), endpoint(3)]);
    // Equal expiries keep their arrival order.
    receivers.receive_channel_request(&request(4), 5, Some(endpoint(4)), NOW);
    assert_eq!(
        receivers.endpoints(),
        vec![endpoint(2), endpoint(1), endpoint(4), endpoint(3)]
    );
}
