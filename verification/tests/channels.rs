use rusty_link::link::measurement::Ipv4Endpoint;
use rusty_link::link::node::NodeId;
use rusty_link::link::sessions::SessionId;
use rusty_link::link_audio::channels::{AnnouncedChannel, Channels};
use rusty_link::link_audio::payload::Id;

const SECOND: u64 = 1_000_000;
const NOW: u64 = 1_000 * SECOND;

fn id(n: u8) -> Id {
    NodeId::from_array([n; 8])
}

fn session(n: u8) -> SessionId {
    SessionId(NodeId::from_array([n; 8]))
}

/// 192.168.1.`last`:20808
fn endpoint(last: u8) -> Ipv4Endpoint {
    Ipv4Endpoint { ip: u32::from_be_bytes([192, 168, 1, last]), port: 20808 }
}

/// 192.168.1.10
fn gateway() -> u32 {
    u32::from_be_bytes([192, 168, 1, 10])
}

/// A network quality as an integer that orders as the quality does.
fn rank(quality: f64) -> u64 {
    quality.to_bits()
}

fn announce(
    channels: &mut Channels,
    peer: u8,
    peer_name: &str,
    names: &[(u8, &str)],
    quality: f64,
    now: u64,
) -> bool {
    let announced: Vec<AnnouncedChannel> = names
        .iter()
        .map(|(n, name)| AnnouncedChannel {
            id: id(*n),
            name: name.to_string(),
        })
        .collect();
    channels.saw_announcement(
        id(peer),
        peer_name,
        session(0),
        &announced,
        gateway(),
        endpoint(peer),
        rank(quality),
        5,
        now,
    )
}

#[test]
fn announcements_add_channels() {
    let mut channels = Channels::new();
    let now = NOW;
    assert!(announce(
        &mut channels,
        1,
        "Live",
        &[(10, "drums"), (11, "bass")],
        1.0,
        now
    ));
    assert!(!announce(
        &mut channels,
        1,
        "Live",
        &[(10, "drums"), (11, "bass")],
        1.0,
        now
    ));

    let session_channels = channels.session_channels(session(0));
    assert_eq!(session_channels.len(), 2);
    assert_eq!(session_channels[0].name, "drums");
    assert_eq!(session_channels[0].peer_name, "Live");
    assert_eq!(channels.peer_endpoint(id(1)), Some(endpoint(1)));
    assert_eq!(channels.channel_endpoint(id(11)), Some(endpoint(1)));
}

#[test]
fn renaming_a_channel_is_a_change() {
    let mut channels = Channels::new();
    let now = NOW;
    announce(&mut channels, 1, "Live", &[(10, "drums")], 1.0, now);
    assert!(announce(
        &mut channels,
        1,
        "Live",
        &[(10, "beats")],
        1.0,
        now
    ));
    assert_eq!(channels.session_channels(session(0))[0].name, "beats");
}

#[test]
fn better_gateways_win() {
    let mut channels = Channels::new();
    let now = NOW;
    announce(&mut channels, 1, "Live", &[(10, "drums")], 1.0, now);
    assert_eq!(channels.peer_endpoint(id(1)), Some(endpoint(1)));

    channels.saw_announcement(
        id(1),
        "Live",
        session(0),
        &[AnnouncedChannel {
            id: id(10),
            name: "drums".into(),
        }],
        gateway(),
        endpoint(99),
        rank(5.0),
        5,
        now,
    );
    assert_eq!(channels.peer_endpoint(id(1)), Some(endpoint(99)));

    // A worse gateway does not take over.
    channels.saw_announcement(
        id(1),
        "Live",
        session(0),
        &[AnnouncedChannel {
            id: id(10),
            name: "drums".into(),
        }],
        gateway(),
        endpoint(1),
        rank(0.5),
        5,
        now,
    );
    assert_eq!(channels.peer_endpoint(id(1)), Some(endpoint(99)));
}

#[test]
fn byes_remove_channels() {
    let mut channels = Channels::new();
    announce(
        &mut channels,
        1,
        "Live",
        &[(10, "drums"), (11, "bass")],
        1.0,
        NOW,
    );
    assert!(channels.channels_left(gateway(), &[id(10)]));
    assert_eq!(channels.session_channels(session(0)).len(), 1);
    assert!(!channels.channels_left(gateway(), &[id(10)]));
}

#[test]
fn expired_channels_are_pruned() {
    let mut channels = Channels::new();
    let now = NOW;
    announce(&mut channels, 1, "Live", &[(10, "drums")], 1.0, now);

    assert!(!channels.prune_expired(now + 5 * SECOND));
    assert!(channels.prune_expired(now + 7 * SECOND));
    assert!(channels.is_empty());
    assert_eq!(channels.peer_endpoint(id(1)), None);
}

#[test]
fn channels_of_departed_peers_are_removed() {
    let mut channels = Channels::new();
    let now = NOW;
    announce(&mut channels, 1, "Live", &[(10, "drums")], 1.0, now);
    announce(&mut channels, 2, "Bitwig", &[(20, "synth")], 1.0, now);

    assert!(channels.prune_peer_channels(&[id(2)]));
    assert_eq!(channels.all_channels().len(), 1);
    assert_eq!(channels.peer_endpoint(id(1)), None);
    assert_eq!(channels.peer_endpoint(id(2)), Some(endpoint(2)));
}

#[test]
fn closing_a_gateway_removes_its_channels() {
    let mut channels = Channels::new();
    announce(
        &mut channels,
        1,
        "Live",
        &[(10, "drums")],
        1.0,
        NOW,
    );
    assert!(channels.gateway_closed(gateway()));
    assert!(channels.is_empty());
    assert!(!channels.gateway_closed(gateway()));
}

#[test]
fn channels_of_other_sessions_are_not_listed() {
    let mut channels = Channels::new();
    announce(
        &mut channels,
        1,
        "Live",
        &[(10, "drums")],
        1.0,
        NOW,
    );
    assert!(channels.session_channels(session(9)).is_empty());
    assert_eq!(channels.all_channels().len(), 1);
}

#[test]
fn expiry_is_exclusive_of_the_padding() {
    let mut channels = Channels::new();
    announce(&mut channels, 1, "Live", &[(10, "drums")], 1.0, NOW);
    // Expires at NOW + 5 s, kept while expiry + 1 s is later than now.
    assert!(!channels.prune_expired(NOW + 6 * SECOND - 1));
    assert!(channels.prune_expired(NOW + 6 * SECOND));
}

#[test]
fn a_channel_on_two_gateways_is_listed_once() {
    let mut channels = Channels::new();
    announce(&mut channels, 1, "Live", &[(10, "drums")], 1.0, NOW);
    let other_gateway = u32::from_be_bytes([10, 0, 0, 1]);
    channels.saw_announcement(
        id(1),
        "Live",
        session(0),
        &[AnnouncedChannel { id: id(10), name: "drums".into() }],
        other_gateway,
        endpoint(1),
        rank(1.0),
        5,
        NOW,
    );
    assert_eq!(channels.all_channels().len(), 1);
    assert!(channels.gateway_closed(other_gateway));
    assert_eq!(channels.all_channels().len(), 1);
}

#[test]
fn channels_compare_by_every_field() {
    let mut channels = Channels::new();
    announce(&mut channels, 1, "Live", &[(10, "drums")], 1.0, NOW);
    let a = channels.all_channels()[0].clone();
    let b = channels.all_channels()[0].clone();
    assert!(a == b);
    assert!(a.same_as(&b));
}
