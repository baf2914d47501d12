//! The decisions of the LinkAudio engine that do not touch the network: how
//! goodbyes and announcements are split into messages that fit a payload.
use vstd::prelude::*;

use crate::link::node::NodeId;
use crate::link::sessions::SessionId;
use crate::link::measurement::Ipv4Endpoint;
use crate::seqs::{first_index, lemma_filter_step, lemma_first_index_prefix, lemma_first_index_step};

use super::channels::contains_id;
use super::network_metrics::NetworkMetricsFilter;

use super::channels::{is_fresh, peers_of, Channel, ChannelView, Channels, InfoView, PRUNE_PADDING_MICROS};
use super::receivers::{endpoints_of, receivers_wf, Receiver, Receivers};

use crate::bytes::{lemma_i64_roundtrip, lemma_u32_roundtrip, u32_be, u32_of_be};
use crate::encoding::skip_bytes;

use super::encoding::ByteStreamReader;
use super::messages::{
    audio_buffer_message, message_bytes, MAX_MESSAGE_SIZE, MESSAGE_HEADER_SIZE, PROTOCOL_HEADER_SIZE,
    header_of, parse_message_header, spec_protocol_header, MessageHeader, AUDIO_BUFFER, CHANNEL_BYES,
    CHANNEL_REQUEST, MAX_PAYLOAD_SIZE, PEER_ANNOUNCEMENT, PONG, STOP_CHANNEL_REQUEST,
};
use super::payload::{
    announcement_bytes, announcement_payload, string_bytes, announcements_bytes, lemma_announcements_bytes_len,
    lemma_announcements_bytes_push, lemma_ids_bytes_len, ChannelAnnouncement, ChannelAnnouncements,
    ChannelBye, ChannelByes, Entry, HostTime, Id, PeerAnnouncement, PeerInfo, ENTRY_HEADER_SIZE,
    announcement_parts, entry_bytes, is_zero_id, payload_entries, requested_channel, AnnouncementParts, AudioBuffer,
    ChannelRequest, ChannelStopRequest, AUDIO_BUFFER_KEY, CHANNEL_BYES_KEY, HOST_TIME_KEY,
};

verus! {

/// The size of an `aucb` entry that carries `n` goodbyes.
pub open spec fn byes_entry_size(n: nat) -> nat {
    (ENTRY_HEADER_SIZE + 4 + 8 * n) as nat
}

/// The goodbyes carried by each of `v`.
pub open spec fn bye_groups(v: Seq<ChannelByes>) -> Seq<Seq<Id>> {
    v.map_values(|b: ChannelByes| b@)
}

/// Splits the goodbyes for `ids` into as few messages as fit a payload,
/// filling each in turn: together they say goodbye to `ids`, in order; none
/// is empty or too large; and each but the last has no room for another.
pub fn split_byes(ids: &[Id]) -> (v: Vec<ChannelByes>)
    ensures
        bye_groups(v@).flatten() == ids@,
        forall|k: int|
            0 <= k < v@.len() ==> (#[trigger] v@[k])@.len() > 0 && byes_entry_size(v@[k]@.len())
                <= MAX_PAYLOAD_SIZE,
        forall|k: int|
            0 <= k < v@.len() - 1 ==> byes_entry_size((#[trigger] v@[k])@.len() + 1) > MAX_PAYLOAD_SIZE,
{
    let mut done: Vec<ChannelByes> = Vec::new();
    let mut current = ChannelByes::default();
    let mut i: usize = 0;
    while i < ids.len()
        invariant
            i <= ids@.len(),
            bye_groups(done@).flatten() + current@ == ids@.take(i as int),
            byes_entry_size(current@.len()) <= MAX_PAYLOAD_SIZE,
            current.byes@.len() == current@.len(),
            forall|k: int|
                0 <= k < done@.len() ==> (#[trigger] done@[k])@.len() > 0 && byes_entry_size(
                    done@[k]@.len(),
                ) <= MAX_PAYLOAD_SIZE && byes_entry_size(done@[k]@.len() + 1) > MAX_PAYLOAD_SIZE,
        decreases ids.len() - i,
    {
        let bye = ChannelBye { id: ids[i] };
        proof {
            lemma_ids_bytes_len(current@);
        }
        if current.size_in_byte_stream() + bye.size_in_byte_stream() > MAX_PAYLOAD_SIZE as u32 {
            let ghost before = done@;
            done.push(current);
            proof {
                assert(bye_groups(done@) =~= bye_groups(before).push(current@));
                bye_groups(before).lemma_flatten_push(current@);
            }
            current = ChannelByes::default();
        }
        let ghost cur = current@;
        current.byes.push(bye);
        proof {
            assert(current@ =~= cur.push(ids@[i as int]));
            assert(ids@.take(i + 1) =~= ids@.take(i as int).push(ids@[i as int]));
        }
        i = i + 1;
    }
    proof {
        assert(ids@.take(ids@.len() as int) =~= ids@);
    }
    if current.byes.len() > 0 {
        let ghost before = done@;
        done.push(current);
        proof {
            assert(bye_groups(done@) =~= bye_groups(before).push(current@));
            bye_groups(before).lemma_flatten_push(current@);
        }
    } else {
        assert(bye_groups(done@).flatten() + current@ =~= bye_groups(done@).flatten());
    }
    done
}

/// The size of the ping entry that goes with the first announcement.
pub const PING_ENTRY_SIZE: u32 = 16;

/// The channels that each of `v` announces.
pub open spec fn channel_groups(v: Seq<PeerAnnouncement>) -> Seq<Seq<(Seq<char>, NodeId)>> {
    v.map_values(|a: PeerAnnouncement| a.channels@)
}

/// What an announcement of the channels `cs` counts against the payload
/// budget: its payload, and the ping entry if it is the first message.
pub open spec fn budget_size(session: NodeId, name: Seq<char>, cs: Seq<(Seq<char>, NodeId)>, first: bool) -> int {
    announcement_payload(session, name, cs).len() + if first {
        PING_ENTRY_SIZE as int
    } else {
        0
    }
}

proof fn lemma_payload_len(session: NodeId, name: Seq<char>, cs: Seq<(Seq<char>, NodeId)>)
    ensures
        announcement_payload(session, name, cs).len() == 36 + string_bytes(name).len()
            + announcements_bytes(cs).len(),
{
}

proof fn lemma_announcements_bytes_concat(a: Seq<(Seq<char>, NodeId)>, b: Seq<(Seq<char>, NodeId)>)
    ensures
        announcements_bytes(a + b) == announcements_bytes(a) + announcements_bytes(b),
    decreases b.len(),
{
    if b.len() == 0 {
        assert(a + b =~= a);
        assert(announcements_bytes(a) + announcements_bytes(b) =~= announcements_bytes(a));
    } else {
        let b1 = b.drop_last();
        lemma_announcements_bytes_concat(a, b1);
        assert(a + b =~= (a + b1).push(b.last()));
        assert(b1.push(b.last()) =~= b);
        lemma_announcements_bytes_push(a + b1, b.last());
        lemma_announcements_bytes_push(b1, b.last());
        assert(announcements_bytes(a + b) =~= announcements_bytes(a) + announcements_bytes(b));
    }
}

/// Splits an announcement of `channels` into messages that fit a payload,
/// filling each in turn: the first carries the ping entry as well, and a
/// channel goes to the next message when the current one has no room for
/// it. A message that holds one channel may still be too large: that
/// channel fits no message.
pub fn split_announcements(
    node_id: NodeId,
    session_id: SessionId,
    peer_info: &PeerInfo,
    channels: &[ChannelAnnouncement],
) -> (v: Vec<PeerAnnouncement>)
    requires
        budget_size(
            session_id.0,
            peer_info@,
            channels@.map_values(|c: ChannelAnnouncement| c@),
            true,
        ) <= u32::MAX,
    ensures
        channel_groups(v@).flatten() == channels@.map_values(|c: ChannelAnnouncement| c@),
        v@.len() >= 1,
        forall|k: int|
            0 <= k < v@.len() ==> (#[trigger] v@[k]).node_id == node_id && v@[k].session_id
                == session_id && v@[k].peer_info@ == peer_info@,
        forall|k: int| 1 <= k < v@.len() ==> (#[trigger] v@[k]).channels@.len() > 0,
        forall|k: int|
            0 <= k < v@.len() ==> budget_size(session_id.0, peer_info@, (#[trigger] v@[k]).channels@, k == 0)
                <= MAX_PAYLOAD_SIZE || (k == 0 && v@[k].channels@.len() == 0) || (k > 0
                && v@[k].channels@.len() == 1),
        forall|k: int|
            0 <= k < v@.len() - 1 ==> budget_size(
                session_id.0,
                peer_info@,
                (#[trigger] v@[k]).channels@.push(v@[k + 1].channels@[0]),
                k == 0,
            ) > MAX_PAYLOAD_SIZE,
{
    let ghost cs = channels@.map_values(|c: ChannelAnnouncement| c@);
    let ghost sid = session_id.0;
    let ghost name = peer_info@;
    let ping_size = HostTime::default().size_in_byte_stream();
    assert(ping_size == PING_ENTRY_SIZE);
    let mut done: Vec<PeerAnnouncement> = Vec::new();
    let mut current = PeerAnnouncement {
        node_id,
        session_id,
        peer_info: PeerInfo { name: peer_info.name.clone() },
        channels: ChannelAnnouncements::default(),
    };
    let mut i: usize = 0;
    proof {
        lemma_announcements_bytes_concat(cs.take(0), cs.skip(0));
        assert(cs.take(0) + cs.skip(0) =~= cs);
    }
    while i < channels.len()
        invariant
            i <= cs.len(),
            ping_size == PING_ENTRY_SIZE,
            cs == channels@.map_values(|c: ChannelAnnouncement| c@),
            sid == session_id.0,
            name == peer_info@,
            budget_size(sid, name, cs, true) <= u32::MAX,
            announcements_bytes(cs.take(i as int)).len() <= announcements_bytes(cs).len(),
            announcements_bytes(current.channels@).len() <= announcements_bytes(cs.take(i as int)).len(),
            channel_groups(done@).flatten() + current.channels@ == cs.take(i as int),
            current.node_id == node_id && current.session_id == session_id && current.peer_info@ == name,
            current.channels.channels@.len() == current.channels@.len(),
            forall|k: int|
                0 <= k < done@.len() ==> (#[trigger] done@[k]).node_id == node_id
                    && done@[k].session_id == session_id && done@[k].peer_info@ == name,
            forall|k: int| 1 <= k < done@.len() ==> (#[trigger] done@[k]).channels@.len() > 0,
            forall|k: int|
                0 <= k < done@.len() ==> budget_size(sid, name, (#[trigger] done@[k]).channels@, k == 0)
                    <= MAX_PAYLOAD_SIZE || (k == 0 && done@[k].channels@.len() == 0) || (k > 0
                    && done@[k].channels@.len() == 1),
            forall|k: int|
                0 <= k < done@.len() - 1 ==> budget_size(
                    sid,
                    name,
                    (#[trigger] done@[k]).channels@.push(done@[k + 1].channels@[0]),
                    k == 0,
                ) > MAX_PAYLOAD_SIZE,
            done@.len() > 0 ==> current.channels@.len() > 0 && budget_size(
                sid,
                name,
                done@.last().channels@.push(current.channels@[0]),
                done@.len() == 1,
            ) > MAX_PAYLOAD_SIZE,
            budget_size(sid, name, current.channels@, done@.len() == 0) <= MAX_PAYLOAD_SIZE || (done@.len()
                == 0 && current.channels@.len() == 0) || (done@.len() > 0 && current.channels@.len()
                == 1),
        decreases channels.len() - i,
    {
        let channel = ChannelAnnouncement { name: channels[i].name.clone(), id: channels[i].id };
        let ghost c = cs[i as int];
        assert(channel@ == c);
        proof {
            assert(cs.take(i + 1) =~= cs.take(i as int).push(c));
            lemma_announcements_bytes_push(cs.take(i as int), c);
            lemma_announcements_bytes_concat(cs.take(i + 1), cs.skip(i + 1));
            assert(cs.take(i + 1) + cs.skip(i + 1) =~= cs);
            lemma_announcements_bytes_push(current.channels@, c);
            lemma_announcements_bytes_len(current.channels@);
            lemma_payload_len(sid, name, cs);
            lemma_payload_len(sid, name, current.channels@);
            lemma_payload_len(sid, name, current.channels@.push(c));
            lemma_payload_len(sid, name, seq![c]);
        }
        assert(announcements_bytes(cs.take(i + 1)).len() == announcements_bytes(cs.take(i as int)).len()
            + announcement_bytes(c).len());
        assert(announcements_bytes(cs).len() >= announcements_bytes(cs.take(i + 1)).len());
        assert(budget_size(sid, name, cs, true) >= 52 + announcement_bytes(c).len());
        let channel_size = channel.size_in_byte_stream();
        let added_size = if done.len() == 0 {
            channel_size + ping_size
        } else {
            channel_size
        };
        let current_size = current.payload_size();
        if current_size + added_size > MAX_PAYLOAD_SIZE as u32 {
            let ghost before = done@;
            done.push(current);
            proof {
                assert(channel_groups(done@) =~= channel_groups(before).push(current.channels@));
                channel_groups(before).lemma_flatten_push(current.channels@);
            }
            current = PeerAnnouncement {
                node_id,
                session_id,
                peer_info: PeerInfo { name: peer_info.name.clone() },
                channels: ChannelAnnouncements::default(),
            };
            proof {
                lemma_announcements_bytes_push(current.channels@, c);
            }
        }
        let ghost cur = current.channels@;
        current.channels.channels.push(channel);
        proof {
            assert(current.channels@ =~= cur.push(c));
        }
        i = i + 1;
    }
    proof {
        assert(cs.take(cs.len() as int) =~= cs);
    }
    let ghost before = done@;
    done.push(current);
    proof {
        assert(channel_groups(done@) =~= channel_groups(before).push(current.channels@));
        channel_groups(before).lemma_flatten_push(current.channels@);
    }
    done
}

// ---------------------------------------------------------------------------
// Reading the entries of a received payload
// ---------------------------------------------------------------------------

/// The entries that a walk over the payload `bytes` visits, as key and
/// body: in order, up to the first whose body runs past the end. Trailing
/// bytes too few for an entry header end the walk too.
pub open spec fn visited_entries(bytes: Seq<u8>) -> Seq<(u32, Seq<u8>)>
    decreases bytes.len(),
{
    if bytes.len() < 8 {
        seq![]
    } else {
        let key = u32_of_be(bytes[0], bytes[1], bytes[2], bytes[3]);
        let size = u32_of_be(bytes[4], bytes[5], bytes[6], bytes[7]) as int;
        if bytes.len() - 8 < size {
            seq![]
        } else {
            seq![(key, bytes.subrange(8, 8 + size))] + visited_entries(bytes.skip(8 + size))
        }
    }
}

/// What the last entry of kind `E` among `es` decodes to, walking `es` in
/// order from what was `found` before them; the walk stops at the first
/// entry of kind `E` that does not decode.
pub open spec fn last_decoded<E: Entry>(es: Seq<(u32, Seq<u8>)>, found: Option<E::V>) -> Option<E::V>
    decreases es.len(),
{
    if es.len() == 0 {
        found
    } else if es[0].0 == E::key() {
        match E::spec_decode_body(es[0].1) {
            Some(v) => last_decoded::<E>(es.skip(1), Some(v)),
            None => found,
        }
    } else {
        last_decoded::<E>(es.skip(1), found)
    }
}

/// An optional value by its view.
pub open spec fn option_view<E: View>(o: Option<E>) -> Option<E::V> {
    match o {
        Some(x) => Some(x@),
        None => None,
    }
}

/// The last entry of kind `E`, whose key is `key`, that the payload
/// `data` carries: its entries are walked in order, and the walk stops at an
/// entry whose body runs past the end or at an entry of kind `E` that does
/// not decode.
pub fn find_entry<E: Entry>(data: &[u8], key: u32) -> (r: Option<E>)
    requires
        key == E::key(),
    ensures
        option_view(r) == last_decoded::<E>(visited_entries(data@), None),
{
    let mut reader = ByteStreamReader::new(data);
    let mut found: Option<E> = None;
    while reader.remaining() >= ENTRY_HEADER_SIZE as usize
        invariant
            key == E::key(),
            last_decoded::<E>(visited_entries(data@), None) == last_decoded::<E>(
                visited_entries(reader.unread()),
                option_view(found),
            ),
        decreases reader.unread().len(),
    {
        let ghost u = reader.unread();
        let entry_key = match reader.read_u32() {
            Ok(v) => v,
            Err(_) => return found,
        };
        let size = match reader.read_u32() {
            Ok(v) => v as usize,
            Err(_) => return found,
        };
        proof {
            assert(u.skip(4).skip(4) =~= u.skip(8));
        }
        let body = match reader.read_bytes(size) {
            Ok(b) => b,
            Err(_) => {
                assert(visited_entries(u) =~= seq![]);
                return found;
            },
        };
        proof {
            assert(u.skip(8).skip(size as int) =~= u.skip(8 + size));
            assert(body@ =~= u.subrange(8, 8 + size));
            let es = visited_entries(u);
            assert(es =~= seq![(entry_key, body@)] + visited_entries(u.skip(8 + size)));
            assert(es[0] == (entry_key, body@));
            assert(es.skip(1) =~= visited_entries(u.skip(8 + size)));
        }
        if entry_key == key {
            let mut body_reader = ByteStreamReader::new(body);
            match E::decode_body(&mut body_reader) {
                Ok(v) => {
                    found = Some(v);
                },
                Err(_) => {
                    return found;
                },
            }
        }
    }
    proof {
        assert(visited_entries(reader.unread()) =~= seq![]);
    }
    found
}

/// An entry that a payload of its own carries is found again: the walk
/// visits it whole, and it decodes to what was written when its kind reads
/// back what it writes.
pub proof fn lemma_written_entry_is_found<E: Entry>(e: E)
    requires
        e.spec_body().len() <= u32::MAX,
        E::spec_decode_body(e.spec_body()) == Some(e@),
    ensures
        last_decoded::<E>(visited_entries(entry_bytes(E::key(), e.spec_body())), None) == Some(e@),
{
    let body = e.spec_body();
    let b = entry_bytes(E::key(), body);
    let k = u32_be(E::key());
    let n = u32_be(body.len() as u32);
    lemma_u32_roundtrip(E::key(), 0, 0, 0, 0);
    lemma_u32_roundtrip(body.len() as u32, 0, 0, 0, 0);
    assert(b[0] == k[0] && b[1] == k[1] && b[2] == k[2] && b[3] == k[3]);
    assert(b[4] == n[0] && b[5] == n[1] && b[6] == n[2] && b[7] == n[3]);
    assert(b.subrange(8, 8 + body.len() as int) =~= body);
    assert(b.skip(8 + body.len() as int) =~= Seq::<u8>::empty());
    assert(u32_of_be(b[0], b[1], b[2], b[3]) == E::key());
    assert(u32_of_be(b[4], b[5], b[6], b[7]) == body.len() as u32);
    assert(visited_entries(Seq::<u8>::empty()) == Seq::<(u32, Seq<u8>)>::empty());
    let es = visited_entries(b);
    assert(es =~= seq![(E::key(), body)]);
    assert(es.skip(1) =~= Seq::<(u32, Seq<u8>)>::empty());
    assert(es[0].1 == body);
    assert(last_decoded::<E>(es.skip(1), Some(e@)) == Some(e@));
}

/// A host time reads back what it writes.
pub proof fn lemma_host_time_roundtrip(t: HostTime)
    ensures
        HostTime::spec_decode_body(t.spec_body()) == Some(t@),
        t.spec_body().len() == 8,
{
    lemma_i64_roundtrip(t.time, Seq::<u8>::empty());
    assert(t.spec_body().take(8) =~= t.spec_body());
}

// ---------------------------------------------------------------------------
// Reading a received message
// ---------------------------------------------------------------------------

/// The message header that `data` starts with, if it starts with the
/// protocol header and is long enough to hold one.
pub open spec fn audio_message_header(data: Seq<u8>) -> Option<MessageHeader> {
    if data.len() >= 20 && data.take(8) == spec_protocol_header() {
        Some(header_of(data.subrange(8, 20)))
    } else {
        None
    }
}

/// The parts of the peer announcement that the payload `data` carries, if
/// it carries one.
pub open spec fn announcement_in(data: Seq<u8>) -> Option<AnnouncementParts> {
    match payload_entries(data) {
        Some(es) => announcement_parts(es),
        None => None,
    }
}

/// The channel that the request payload `data` names (`None` inside when it
/// names none), if the payload reads as a request.
pub open spec fn request_in(data: Seq<u8>) -> Option<Option<NodeId>> {
    match payload_entries(data) {
        Some(es) => requested_channel(es),
        None => None,
    }
}

/// Whether the announcement `a` of `peer_id` is the one that `parts` set.
pub open spec fn announces(a: PeerAnnouncement, peer_id: NodeId, parts: AnnouncementParts) -> bool {
    &&& a.node_id == peer_id
    &&& a.peer_info@ == parts.1
    &&& a.channels@ == parts.2
    &&& match parts.0 {
        Some(id) => a.session_id.0 == id,
        None => is_zero_id(a.session_id.0),
    }
}

/// Whether `channel_id` is the channel that a request naming `named` asks
/// for: the zero identity when it names none.
pub open spec fn requests(channel_id: NodeId, named: Option<NodeId>) -> bool {
    match named {
        Some(id) => channel_id == id,
        None => is_zero_id(channel_id),
    }
}

/// What a received LinkAudio message asks of the engine.
#[derive(Debug)]
pub enum AudioMessage {
    /// Nothing: the message is malformed, the node's own, of an unknown
    /// type, or carries nothing that the engine takes in.
    Ignore,
    /// A peer announced itself: its announcement, if the payload reads as
    /// one, and the host time to answer with a pong, if it carries one.
    PeerAnnouncement { peer_id: NodeId, ttl: u8, announcement: Option<PeerAnnouncement>, ping: Option<HostTime> },
    /// Channels went away (the list may be empty).
    ChannelByes(Vec<Id>),
    /// A pong came back carrying the host time at which the ping was sent,
    /// if it carries one.
    Pong(Option<i64>),
    /// A peer asks to receive a channel.
    ChannelRequest { request: ChannelRequest, ttl: u8 },
    /// A peer asks to stop receiving a channel.
    ChannelStopRequest(ChannelStopRequest),
    /// Audio for a channel.
    AudioBuffer(AudioBuffer),
}

/// The identities of a list of goodbyes, in order.
fn bye_ids(byes: &ChannelByes) -> (ids: Vec<Id>)
    ensures
        ids@ == byes@,
{
    let mut ids: Vec<Id> = Vec::new();
    let mut i: usize = 0;
    while i < byes.byes.len()
        invariant
            i <= byes.byes@.len(),
            ids@ == byes@.take(i as int),
        decreases byes.byes@.len() - i,
    {
        ids.push(byes.byes[i].id);
        i = i + 1;
        assert(ids@ =~= byes@.take(i as int));
    }
    assert(byes@.take(i as int) =~= byes@);
    ids
}

/// What the message `data`, received by the node `own_id`, asks of the
/// engine. A malformed header, the node's own messages and unknown types
/// are ignored; otherwise the payload after the header is read as the
/// message type says: an announcement (and its ping), the goodbyes, the
/// pong's host time, a start or stop request (ignored when the payload does
/// not read as one), or an audio buffer (ignored when none decodes).
pub fn read_audio_message(data: &[u8], own_id: NodeId) -> (m: AudioMessage)
    ensures
        match audio_message_header(data@) {
            None => m is Ignore,
            Some(h) => {
                let payload = data@.skip(20);
                if h.ident == own_id {
                    m is Ignore
                } else if h.message_type == PEER_ANNOUNCEMENT {
                    m matches AudioMessage::PeerAnnouncement { peer_id, ttl, announcement, ping }
                        && peer_id == h.ident && ttl == h.ttl && option_view(ping)
                        == last_decoded::<HostTime>(visited_entries(payload), None) && match announcement_in(
                        payload,
                    ) {
                        Some(parts) => announcement matches Some(a) && announces(a, h.ident, parts),
                        None => announcement is None,
                    }
                } else if h.message_type == CHANNEL_BYES {
                    m matches AudioMessage::ChannelByes(ids) && match last_decoded::<ChannelByes>(
                        visited_entries(payload),
                        None,
                    ) {
                        Some(v) => ids@ == v,
                        None => ids@.len() == 0,
                    }
                } else if h.message_type == PONG {
                    m matches AudioMessage::Pong(t) && t == last_decoded::<HostTime>(
                        visited_entries(payload),
                        None,
                    )
                } else if h.message_type == CHANNEL_REQUEST {
                    match request_in(payload) {
                        Some(named) => m matches AudioMessage::ChannelRequest { request, ttl }
                            && request.peer_id == h.ident && requests(request.channel_id, named)
                            && ttl == h.ttl,
                        None => m is Ignore,
                    }
                } else if h.message_type == STOP_CHANNEL_REQUEST {
                    match request_in(payload) {
                        Some(named) => m matches AudioMessage::ChannelStopRequest(request)
                            && request.peer_id == h.ident && requests(request.channel_id, named),
                        None => m is Ignore,
                    }
                } else if h.message_type == AUDIO_BUFFER {
                    match last_decoded::<AudioBuffer>(visited_entries(payload), None) {
                        Some(v) => m matches AudioMessage::AudioBuffer(b) && b@ == v,
                        None => m is Ignore,
                    }
                } else {
                    m is Ignore
                }
            },
        },
{
    let (header, offset) = match parse_message_header(data) {
        Ok(r) => r,
        Err(_) => return AudioMessage::Ignore,
    };
    let payload = skip_bytes(data, offset);
    if header.ident == own_id {
        return AudioMessage::Ignore;
    }
    match header.message_type {
        PEER_ANNOUNCEMENT => {
            let announcement = match PeerAnnouncement::from_payload(header.ident, payload) {
                Ok(a) => Some(a),
                Err(_) => None,
            };
            let ping = find_entry::<HostTime>(payload, HOST_TIME_KEY);
            AudioMessage::PeerAnnouncement { peer_id: header.ident, ttl: header.ttl, announcement, ping }
        },
        CHANNEL_BYES => {
            match find_entry::<ChannelByes>(payload, CHANNEL_BYES_KEY) {
                Some(byes) => AudioMessage::ChannelByes(bye_ids(&byes)),
                None => AudioMessage::ChannelByes(Vec::new()),
            }
        },
        PONG => {
            match find_entry::<HostTime>(payload, HOST_TIME_KEY) {
                Some(t) => AudioMessage::Pong(Some(t.time)),
                None => AudioMessage::Pong(None),
            }
        },
        CHANNEL_REQUEST => {
            match ChannelRequest::from_payload(header.ident, payload) {
                Ok(request) => AudioMessage::ChannelRequest { request, ttl: header.ttl },
                Err(_) => AudioMessage::Ignore,
            }
        },
        STOP_CHANNEL_REQUEST => {
            match ChannelStopRequest::from_payload(header.ident, payload) {
                Ok(request) => AudioMessage::ChannelStopRequest(request),
                Err(_) => AudioMessage::Ignore,
            }
        },
        AUDIO_BUFFER => {
            match find_entry::<AudioBuffer>(payload, AUDIO_BUFFER_KEY) {
                Some(b) => AudioMessage::AudioBuffer(b),
                None => AudioMessage::Ignore,
            }
        },
        _ => AudioMessage::Ignore,
    }
}

// ---------------------------------------------------------------------------
// The channels the API lists
// ---------------------------------------------------------------------------

/// Whether a channel belongs to the session `session_id`.
pub open spec fn in_session(session_id: SessionId) -> spec_fn(ChannelView) -> bool {
    |c: ChannelView| c.session_id == session_id
}

/// Whether a channel belongs to another session than `session_id`.
pub open spec fn outside_session(session_id: SessionId) -> spec_fn(ChannelView) -> bool {
    |c: ChannelView| c.session_id != session_id
}

/// The channels as the API lists them: those of the session `session_id`
/// first, then the others, each group in the order given.
pub open spec fn published_order(cs: Seq<ChannelView>, session_id: SessionId) -> Seq<ChannelView> {
    cs.filter(in_session(session_id)) + cs.filter(outside_session(session_id))
}

/// The known channels as the API lists them: those of the session
/// `session_id` first, then the others, each group in the order given.
pub fn published_channels(channels: &Vec<Channel>, session_id: SessionId) -> (v: Vec<Channel>)
    ensures
        v@.map_values(|c: Channel| c@) == published_order(
            channels@.map_values(|c: Channel| c@),
            session_id,
        ),
{
    let ghost views = channels@.map_values(|c: Channel| c@);
    let ghost own = in_session(session_id);
    let ghost other = outside_session(session_id);
    let mut v: Vec<Channel> = Vec::new();
    let mut i: usize = 0;
    while i < channels.len()
        invariant
            i <= channels@.len(),
            views == channels@.map_values(|c: Channel| c@),
            own == in_session(session_id),
            v@.map_values(|c: Channel| c@) == views.take(i as int).filter(own),
        decreases channels@.len() - i,
    {
        proof {
            lemma_filter_step(views, own, i as int);
        }
        if channels[i].session_id == session_id {
            let ghost before = v@;
            v.push(channels[i].clone());
            assert(v@.map_values(|c: Channel| c@) =~= before.map_values(|c: Channel| c@).push(views[i as int]));
        }
        i = i + 1;
    }
    assert(views.take(i as int) =~= views);
    let ghost first = v@.map_values(|c: Channel| c@);
    let mut j: usize = 0;
    while j < channels.len()
        invariant
            j <= channels@.len(),
            views == channels@.map_values(|c: Channel| c@),
            other == outside_session(session_id),
            first == views.filter(in_session(session_id)),
            v@.map_values(|c: Channel| c@) == first + views.take(j as int).filter(other),
        decreases channels@.len() - j,
    {
        proof {
            lemma_filter_step(views, other, j as int);
        }
        if channels[j].session_id != session_id {
            let ghost before = v@;
            v.push(channels[j].clone());
            assert(v@.map_values(|c: Channel| c@) =~= before.map_values(|c: Channel| c@).push(views[j as int]));
            assert(first + views.take(j as int).filter(other).push(views[j as int]) =~= first
                + views.take(j + 1).filter(other));
        }
        j = j + 1;
    }
    assert(views.take(j as int) =~= views);
    v
}

// ---------------------------------------------------------------------------
// The peers that audio is exchanged with
// ---------------------------------------------------------------------------

/// A Link peer with a LinkAudio endpoint, and the round-trip times measured
/// to it.
pub struct PeerReceiver {
    pub peer_id: NodeId,
    pub endpoint: Ipv4Endpoint,
    pub metrics: NetworkMetricsFilter,
}

impl View for PeerReceiver {
    type V = (NodeId, Ipv4Endpoint, Seq<i64>);

    open spec fn view(&self) -> (NodeId, Ipv4Endpoint, Seq<i64>) {
        (self.peer_id, self.endpoint, self.metrics.history())
    }
}

impl Clone for PeerReceiver {
    fn clone(&self) -> (c: Self)
        ensures
            c@ == self@,
            c.metrics.wf() == self.metrics.wf(),
    {
        PeerReceiver { peer_id: self.peer_id, endpoint: self.endpoint, metrics: self.metrics.clone() }
    }
}

/// Whether a peer is reached at `endpoint`.
pub open spec fn at_endpoint(endpoint: Ipv4Endpoint) -> spec_fn((NodeId, Ipv4Endpoint, Seq<i64>)) -> bool {
    |p: (NodeId, Ipv4Endpoint, Seq<i64>)| p.1 == endpoint
}

/// Whether a peer is another than `peer_id`.
pub open spec fn not_peer(peer_id: NodeId) -> spec_fn((NodeId, Ipv4Endpoint, Seq<i64>)) -> bool {
    |p: (NodeId, Ipv4Endpoint, Seq<i64>)| p.0 != peer_id
}

/// Whether a peer is among `ids`.
pub open spec fn among(ids: Seq<NodeId>) -> spec_fn((NodeId, Ipv4Endpoint, Seq<i64>)) -> bool {
    |p: (NodeId, Ipv4Endpoint, Seq<i64>)| ids.contains(p.0)
}

/// Which peers a pass over them keeps: those other than a peer, or those
/// among some peers.
enum Keep<'a> {
    Other(NodeId),
    Among(&'a [NodeId]),
}

/// What a `Keep` keeps.
spec fn keeps(k: Keep) -> spec_fn((NodeId, Ipv4Endpoint, Seq<i64>)) -> bool {
    match k {
        Keep::Other(id) => not_peer(id),
        Keep::Among(ids) => among(ids@),
    }
}

/// The peers that LinkAudio knows an endpoint of, in the order learned.
pub struct AudioPeers {
    peers: Vec<PeerReceiver>,
}

impl View for AudioPeers {
    type V = Seq<(NodeId, Ipv4Endpoint, Seq<i64>)>;

    closed spec fn view(&self) -> Seq<(NodeId, Ipv4Endpoint, Seq<i64>)> {
        self.peers@.map_values(|p: PeerReceiver| p@)
    }
}

impl AudioPeers {
    /// The invariant: every peer's round-trip window is well formed.
    pub closed spec fn wf(&self) -> bool {
        forall|i: int| 0 <= i < self.peers@.len() ==> (#[trigger] self.peers@[i]).metrics.wf()
    }

    /// No peers.
    pub fn new() -> (p: Self)
        ensures
            p.wf(),
            p@ == Seq::<(NodeId, Ipv4Endpoint, Seq<i64>)>::empty(),
    {
        let p = AudioPeers { peers: Vec::new() };
        assert(p@ =~= Seq::<(NodeId, Ipv4Endpoint, Seq<i64>)>::empty());
        p
    }

    /// The peers that `keep` keeps, in order, with their round-trip times.
    fn retained(&self, keep: Keep) -> (v: Vec<PeerReceiver>)
        requires
            self.wf(),
        ensures
            v@.map_values(|p: PeerReceiver| p@) == self@.filter(keeps(keep)),
            forall|i: int| 0 <= i < v@.len() ==> (#[trigger] v@[i]).metrics.wf(),
    {
        let ghost views = self@;
        let ghost pred = keeps(keep);
        let mut v: Vec<PeerReceiver> = Vec::new();
        let mut i: usize = 0;
        while i < self.peers.len()
            invariant
                i <= self.peers@.len(),
                self.wf(),
                views == self@,
                pred == keeps(keep),
                v@.map_values(|p: PeerReceiver| p@) == views.take(i as int).filter(pred),
                forall|k: int| 0 <= k < v@.len() ==> (#[trigger] v@[k]).metrics.wf(),
            decreases self.peers@.len() - i,
        {
            proof {
                lemma_filter_step(views, pred, i as int);
                assert(views[i as int] == self.peers@[i as int]@);
            }
            let id = self.peers[i].peer_id;
            let kept = match keep {
                Keep::Other(gone) => !(id == gone),
                Keep::Among(ids) => contains_id(ids, &id),
            };
            if kept {
                let ghost before = v@;
                let p = self.peers[i].clone();
                v.push(p);
                assert(v@.map_values(|p: PeerReceiver| p@) =~= before.map_values(|p: PeerReceiver| p@).push(
                    views[i as int],
                ));
            }
            i = i + 1;
        }
        assert(views.take(i as int) =~= views);
        v
    }

    /// Whether some peer is reached at `e`.
    fn knows_endpoint(&self, e: Ipv4Endpoint) -> (r: bool)
        ensures
            r == exists|i: int| 0 <= i < self@.len() && (#[trigger] self@[i]).1 == e,
    {
        let mut i: usize = 0;
        while i < self.peers.len()
            invariant
                i <= self.peers@.len(),
                forall|j: int| 0 <= j < i ==> (#[trigger] self@[j]).1 != e,
            decreases self.peers@.len() - i,
        {
            assert(self@[i as int] == self.peers@[i as int]@);
            if self.peers[i].endpoint == e {
                return true;
            }
            i = i + 1;
        }
        false
    }

    /// Learns or forgets the LinkAudio endpoint of the Link peer `peer_id`:
    /// a new endpoint adds the peer with no round trips measured (an
    /// endpoint already known changes nothing); no endpoint forgets every
    /// entry of the peer.
    pub fn saw_link_audio_endpoint(&mut self, peer_id: NodeId, endpoint: Option<Ipv4Endpoint>)
        requires
            old(self).wf(),
        ensures
            final(self).wf(),
            match endpoint {
                Some(e) => if exists|i: int| 0 <= i < old(self)@.len() && (#[trigger] old(self)@[i]).1 == e {
                    final(self)@ == old(self)@
                } else {
                    final(self)@ == old(self)@.push((peer_id, e, Seq::<i64>::empty()))
                },
                None => final(self)@ == old(self)@.filter(not_peer(peer_id)),
            },
    {
        match endpoint {
            Some(e) => {
                if self.knows_endpoint(e) {
                    return;
                }
                let ghost before = self.peers@;
                self.peers.push(PeerReceiver { peer_id, endpoint: e, metrics: NetworkMetricsFilter::new() });
                assert(self.peers@.map_values(|p: PeerReceiver| p@) =~= before.map_values(|p: PeerReceiver| p@).push(
                    (peer_id, e, Seq::<i64>::empty()),
                ));
            },
            None => {
                self.peers = self.retained(Keep::Other(peer_id));
            },
        }
    }

    /// Keeps the peers that are among `ids` (those still in the session).
    pub fn retain_peers(&mut self, ids: &[NodeId])
        requires
            old(self).wf(),
        ensures
            final(self).wf(),
            final(self)@ == old(self)@.filter(among(ids@)),
    {
        self.peers = self.retained(Keep::Among(ids));
    }

    /// Records the round-trip time `rtt` of a pong that came from
    /// `endpoint`, for the first peer reached there; says whether there was
    /// one.
    pub fn record_round_trip(&mut self, endpoint: Ipv4Endpoint, rtt: i64) -> (found: bool)
        requires
            old(self).wf(),
        ensures
            final(self).wf(),
            match first_index(old(self)@, at_endpoint(endpoint)) {
                Some(i) => found && final(self)@ == old(self)@.update(
                    i,
                    (old(self)@[i].0, old(self)@[i].1, old(self)@[i].2.push(rtt)),
                ),
                None => !found && final(self)@ == old(self)@,
            },
    {
        let ghost views = self@;
        let mut i: usize = 0;
        while i < self.peers.len()
            invariant
                i <= self.peers@.len(),
                *self == *old(self),
                self.wf(),
                views == self@,
                first_index(views.take(i as int), at_endpoint(endpoint)) is None,
            decreases self.peers@.len() - i,
        {
            proof {
                lemma_first_index_step(views, at_endpoint(endpoint), i as int);
                assert(views[i as int] == self.peers@[i as int]@);
            }
            if self.peers[i].endpoint == endpoint {
                proof {
                    lemma_first_index_prefix(views, at_endpoint(endpoint), i + 1);
                }
                let ghost before = self.peers@;
                let mut p = self.peers[i].clone();
                p.metrics.push(rtt);
                self.peers.set(i, p);
                proof {
                    assert(self@ =~= views.update(i as int, (views[i as int].0, views[i as int].1, views[i as int].2.push(rtt))));
                    assert forall|k: int| 0 <= k < self.peers@.len() implies (#[trigger] self.peers@[k]).metrics.wf() by {
                        if k != i {
                            assert(self.peers@[k] == before[k]);
                        }
                    }
                }
                return true;
            }
            i = i + 1;
        }
        assert(views.take(i as int) =~= views);
        false
    }

    /// The round trips measured to the first peer reached at `endpoint`, if
    /// any.
    pub fn metrics_for(&self, endpoint: Ipv4Endpoint) -> (m: Option<&NetworkMetricsFilter>)
        requires
            self.wf(),
        ensures
            match first_index(self@, at_endpoint(endpoint)) {
                Some(i) => m matches Some(f) && f.wf() && f.history() == self@[i].2,
                None => m is None,
            },
    {
        let ghost views = self@;
        let mut i: usize = 0;
        while i < self.peers.len()
            invariant
                i <= self.peers@.len(),
                self.wf(),
                views == self@,
                first_index(views.take(i as int), at_endpoint(endpoint)) is None,
            decreases self.peers@.len() - i,
        {
            proof {
                lemma_first_index_step(views, at_endpoint(endpoint), i as int);
                assert(views[i as int] == self.peers@[i as int]@);
            }
            if self.peers[i].endpoint == endpoint {
                proof {
                    lemma_first_index_prefix(views, at_endpoint(endpoint), i + 1);
                }
                return Some(&self.peers[i].metrics);
            }
            i = i + 1;
        }
        assert(views.take(i as int) =~= views);
        None
    }
}

// ---------------------------------------------------------------------------
// The processing tick
// ---------------------------------------------------------------------------

/// The message that carries the audio buffer `b` from `node_id`, if it fits
/// a message.
pub open spec fn buffer_message(node_id: NodeId, b: AudioBuffer) -> Option<Seq<u8>> {
    let payload = entry_bytes(AUDIO_BUFFER_KEY, b.spec_body());
    if PROTOCOL_HEADER_SIZE + MESSAGE_HEADER_SIZE + payload.len() <= MAX_MESSAGE_SIZE {
        Some(
            message_bytes(
                MessageHeader { message_type: AUDIO_BUFFER, ttl: 0, group_id: 0, ident: node_id },
                payload,
            ),
        )
    } else {
        None
    }
}

/// One message to each endpoint, in order.
pub open spec fn fan_out(message: Seq<u8>, endpoints: Seq<Ipv4Endpoint>) -> Seq<(Seq<u8>, Ipv4Endpoint)> {
    Seq::new(endpoints.len(), |j: int| (message, endpoints[j]))
}

/// The messages that send the buffers of `outbox`, in order, each to every
/// endpoint in order; a buffer too large for a message is dropped.
pub open spec fn outbox_messages(node_id: NodeId, outbox: Seq<AudioBuffer>, endpoints: Seq<Ipv4Endpoint>) -> Seq<
    (Seq<u8>, Ipv4Endpoint),
>
    decreases outbox.len(),
{
    if outbox.len() == 0 {
        seq![]
    } else {
        outbox_messages(node_id, outbox.drop_last(), endpoints) + match buffer_message(
            node_id,
            outbox.last(),
        ) {
            Some(m) => fan_out(m, endpoints),
            None => seq![],
        }
    }
}

/// A message and where it goes, by their views.
pub open spec fn addressed_view(m: (Vec<u8>, Ipv4Endpoint)) -> (Seq<u8>, Ipv4Endpoint) {
    (m.0@, m.1)
}

/// One processing tick of a sink at time `now`, for the node `node_id`:
/// drops the requests not refreshed in time, then addresses each encoded
/// buffer of `outbox`, in order, to every remaining receiver with an
/// endpoint. Gives the messages and whether the sink still has receivers.
pub fn process_sink(receivers: &mut Receivers, now: u64, node_id: NodeId, outbox: &[AudioBuffer]) -> (out: (
    Vec<(Vec<u8>, Ipv4Endpoint)>,
    bool,
))
    requires
        forall|k: int| 0 <= k < outbox@.len() ==> (#[trigger] outbox@[k]).spec_body().len() <= u32::MAX,
    ensures
        final(receivers)@ == old(receivers)@.filter(|r: Receiver| r.expires_at + PRUNE_PADDING_MICROS > now),
        receivers_wf(old(receivers)@) ==> receivers_wf(final(receivers)@),
        out.0@.map_values(|m: (Vec<u8>, Ipv4Endpoint)| addressed_view(m)) == outbox_messages(
            node_id,
            outbox@,
            endpoints_of(final(receivers)@),
        ),
        out.1 == (final(receivers)@.len() > 0),
{
    receivers.prune_expired(now);
    let connected = !receivers.is_empty();
    let endpoints = receivers.endpoints();
    let ghost eps = endpoints@;
    let mut messages: Vec<(Vec<u8>, Ipv4Endpoint)> = Vec::new();
    let mut k: usize = 0;
    while k < outbox.len()
        invariant
            k <= outbox@.len(),
            eps == endpoints@,
            forall|i: int| 0 <= i < outbox@.len() ==> (#[trigger] outbox@[i]).spec_body().len() <= u32::MAX,
            messages@.map_values(|m: (Vec<u8>, Ipv4Endpoint)| addressed_view(m)) == outbox_messages(
                node_id,
                outbox@.take(k as int),
                eps,
            ),
        decreases outbox@.len() - k,
    {
        proof {
            assert(outbox@.take(k + 1).drop_last() =~= outbox@.take(k as int));
            assert(outbox@.take(k + 1).last() == outbox@[k as int]);
        }
        let payload = outbox[k].to_payload();
        let ghost before = messages@.map_values(|m: (Vec<u8>, Ipv4Endpoint)| addressed_view(m));
        if payload.len() <= MAX_MESSAGE_SIZE - PROTOCOL_HEADER_SIZE - MESSAGE_HEADER_SIZE {
            match audio_buffer_message(node_id, payload.as_slice()) {
                Ok(message) => {
                    let ghost m = message@;
                    let mut j: usize = 0;
                    while j < endpoints.len()
                        invariant
                            j <= eps.len(),
                            eps == endpoints@,
                            m == message@,
                            messages@.map_values(|x: (Vec<u8>, Ipv4Endpoint)| addressed_view(x)) == before
                                + fan_out(m, eps).take(j as int),
                        decreases eps.len() - j,
                    {
                        let copy = message.clone();
                        proof {
                            assert(copy@ =~= message@);
                        }
                        let ghost prev = messages@;
                        messages.push((copy, endpoints[j]));
                        proof {
                            assert(messages@.map_values(|x: (Vec<u8>, Ipv4Endpoint)| addressed_view(x))
                                =~= prev.map_values(|x: (Vec<u8>, Ipv4Endpoint)| addressed_view(x)).push(
                                (m, eps[j as int]),
                            ));
                            assert(fan_out(m, eps).take(j + 1) =~= fan_out(m, eps).take(j as int).push(
                                (m, eps[j as int]),
                            ));
                            assert(messages@.map_values(|x: (Vec<u8>, Ipv4Endpoint)| addressed_view(x))
                                =~= before + fan_out(m, eps).take(j + 1));
                        }
                        j = j + 1;
                    }
                    proof {
                        assert(fan_out(m, eps).take(j as int) =~= fan_out(m, eps));
                    }
                },
                Err(_) => {},
            }
        }
        k = k + 1;
    }
    proof {
        assert(outbox@.take(k as int) =~= outbox@);
    }
    (messages, connected)
}

/// The end of a processing tick at time `now`: drops the channels whose
/// announcements expired, and says whether to publish the channel list,
/// which is when a sink's name changed or a channel expired.
pub fn process_step(channels: &mut Channels, now: u64, names_changed: bool) -> (publish: bool)
    ensures
        final(channels).entries() == old(channels).entries().filter(|e: InfoView| is_fresh(e, now)),
        final(channels).handlers() == if final(channels).entries().len() != old(channels).entries().len() {
            old(channels).handlers().restrict(peers_of(final(channels).entries()))
        } else {
            old(channels).handlers()
        },
        publish == (names_changed || final(channels).entries().len() != old(channels).entries().len()),
{
    let expired = channels.prune_expired(now);
    names_changed || expired
}

} // verus!
