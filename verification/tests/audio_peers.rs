use rusty_link::link::measurement::Ipv4Endpoint;
use rusty_link::link::node::NodeId;
use rusty_link::link_audio::engine::AudioPeers;

fn id(n: u8) -> NodeId {
    NodeId::from_array([n; 8])
}

fn at(port: u16) -> Ipv4Endpoint {
    Ipv4Endpoint { ip: 0x0a000001, port }
}

#[test]
fn endpoints_are_learned_once_and_forgotten_by_peer() {
    let mut peers = AudioPeers::new();
    peers.saw_link_audio_endpoint(id(1), Some(at(1)));
    peers.saw_link_audio_endpoint(id(2), Some(at(2)));
    // An endpoint already known changes nothing, whoever reports it.
    peers.saw_link_audio_endpoint(id(3), Some(at(1)));
    assert!(peers.metrics_for(at(1)).is_some());
    assert!(peers.metrics_for(at(2)).is_some());
    // The same peer at a second endpoint is a second entry.
    peers.saw_link_audio_endpoint(id(1), Some(at(3)));
    peers.saw_link_audio_endpoint(id(1), None);
    assert!(peers.metrics_for(at(1)).is_none());
    assert!(peers.metrics_for(at(3)).is_none());
    assert!(peers.metrics_for(at(2)).is_some());
}

#[test]
fn round_trips_are_recorded_for_the_peer_reached() {
    let mut peers = AudioPeers::new();
    peers.saw_link_audio_endpoint(id(1), Some(at(1)));
    assert!(peers.record_round_trip(at(1), 250));
    assert!(peers.record_round_trip(at(1), 350));
    assert!(!peers.record_round_trip(at(9), 100));
    let metrics = peers.metrics_for(at(1)).unwrap();
    assert_eq!(metrics.count(), 2);
    assert_eq!(metrics.samples(), vec![250, 350]);
}

#[test]
fn peers_outside_the_session_are_dropped() {
    let mut peers = AudioPeers::new();
    peers.saw_link_audio_endpoint(id(1), Some(at(1)));
    peers.saw_link_audio_endpoint(id(2), Some(at(2)));
    peers.record_round_trip(at(2), 10);
    peers.retain_peers(&[id(2)]);
    assert!(peers.metrics_for(at(1)).is_none());
    assert_eq!(peers.metrics_for(at(2)).unwrap().samples(), vec![10]);
}
