use rusty_link::link::node::NodeId;
use rusty_link::link::sessions::SessionId;
use rusty_link::link_audio::engine::{split_announcements, split_byes};
use rusty_link::link_audio::messages::MAX_PAYLOAD_SIZE;
use rusty_link::link_audio::payload::{ChannelAnnouncement, Entry, Id, PeerInfo};

#[test]
fn byes_are_split_across_messages() {
    let ids: Vec<Id> = (0..200).map(|i| NodeId::from_array([i as u8; 8])).collect();
    let messages = split_byes(&ids);
    assert!(messages.len() > 1);
    for message in &messages {
        assert!(message.size_in_byte_stream() as usize <= MAX_PAYLOAD_SIZE);
    }
    let total: usize = messages.iter().map(|m| m.byes.len()).sum();
    assert_eq!(total, ids.len());
}

#[test]
fn no_byes_produce_no_messages() {
    assert!(split_byes(&[]).is_empty());
}

#[test]
fn byes_fill_each_message_before_the_next() {
    let ids: Vec<Id> = (0..200).map(|i| NodeId::from_array([i as u8; 8])).collect();
    let messages = split_byes(&ids);
    // 8 + 4 + 8 * 145 = 1172 bytes fit; one more would not.
    assert_eq!(messages.len(), 2);
    assert_eq!(messages[0].byes.len(), 145);
    assert_eq!(messages[1].byes.len(), 55);
    assert_eq!(messages[1].byes[0].id, ids[145]);
}

fn channel(i: usize) -> ChannelAnnouncement {
    ChannelAnnouncement {
        name: format!("channel with a fairly long name number {}", i),
        id: NodeId::from_array([i as u8; 8]),
    }
}

#[test]
fn announcements_are_split_to_fit_the_payload_budget() {
    let channels: Vec<ChannelAnnouncement> = (0..40).map(channel).collect();
    let announcements = split_announcements(
        NodeId::from_array([1; 8]),
        SessionId(NodeId::from_array([2; 8])),
        &PeerInfo::new("rust"),
        &channels,
    );
    assert!(announcements.len() > 1);
    for announcement in &announcements {
        assert!(announcement.payload_size() as usize <= MAX_PAYLOAD_SIZE);
        assert_eq!(announcement.peer_info.name, "rust");
    }
    let total: usize = announcements.iter().map(|a| a.channels.channels.len()).sum();
    assert_eq!(total, 40);
    assert_eq!(announcements[1].channels.channels[0].name, channels[announcements[0].channels.channels.len()].name);
}

#[test]
fn without_channels_one_announcement_is_made() {
    let announcements = split_announcements(
        NodeId::from_array([1; 8]),
        SessionId(NodeId::from_array([2; 8])),
        &PeerInfo::new("rust"),
        &[],
    );
    assert_eq!(announcements.len(), 1);
    assert!(announcements[0].channels.channels.is_empty());
}

#[test]
fn a_channel_too_large_for_any_message_gets_one_of_its_own() {
    let big = ChannelAnnouncement { name: "x".repeat(2000), id: NodeId::from_array([9; 8]) };
    let announcements = split_announcements(
        NodeId::from_array([1; 8]),
        SessionId(NodeId::from_array([2; 8])),
        &PeerInfo::new("rust"),
        &[big],
    );
    assert_eq!(announcements.len(), 2);
    assert!(announcements[0].channels.channels.is_empty());
    assert_eq!(announcements[1].channels.channels.len(), 1);
}
