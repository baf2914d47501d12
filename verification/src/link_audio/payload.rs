//! Payload entries of the LinkAudio protocol.
//!
//! LinkAudio reuses the Link payload framing (a four character `key`, then a
//! `u32` body size, then the body), with its own set of entries.
use vstd::prelude::*;
use vstd::string::StringSliceAdditionalSpecFns;
use vstd::utf8::{encode_utf8, is_char_boundary};

use crate::bytes::{
    i64_be, lemma_i64_roundtrip, lemma_u16_roundtrip, lemma_u32_roundtrip, lemma_u64_roundtrip,
    u16_be, u32_be, u32_of_be, u64_be,
};
use crate::encoding::{array_of, write_bytes};
use crate::link::beats::Beats;
use crate::link::node::NodeId;
use crate::link::sessions::SessionId;

use super::encoding::{
    lemma_skip_skip, lemma_string_roundtrip, read_elems_spec, read_string_spec, read_vec_spec, size_of_string, ByteStreamReader,
    ByteStreamWrite, StreamRead,
};
use super::error::AudioError;
use super::messages::MAX_NAME_SIZE;

verus! {

/// Size of a payload entry header (key + size).
pub const ENTRY_HEADER_SIZE: u32 = 8;

/// `__pi`
pub const PEER_INFO_KEY: u32 = 0x5f5f7069;

/// `chid`
pub const CHANNEL_ID_KEY: u32 = 0x63686964;

/// `auca`
pub const CHANNEL_ANNOUNCEMENTS_KEY: u32 = 0x61756361;

/// `aucb`
pub const CHANNEL_BYES_KEY: u32 = 0x61756362;

/// `_abu`
pub const AUDIO_BUFFER_KEY: u32 = 0x5f616275;

/// `sess`
pub const SESSION_MEMBERSHIP_KEY: u32 = 0x73657373;

/// `__ht`
pub const HOST_TIME_KEY: u32 = 0x5f5f6874;

/// The bytes of an entry: its key, the size of its body, and the body.
pub open spec fn entry_bytes(key: u32, body: Seq<u8>) -> Seq<u8> {
    u32_be(key) + u32_be(body.len() as u32) + body
}

/// A value that can be carried as a LinkAudio payload entry.
pub trait Entry: Sized + View {
    /// The key of the entry.
    spec fn key() -> u32;

    /// The bytes of the entry's body.
    spec fn spec_body(&self) -> Seq<u8>;

    /// What a body that starts `bytes` decodes to (as a view), if anything.
    spec fn spec_decode_body(bytes: Seq<u8>) -> Option<Self::V>;

    fn entry_key(&self) -> (k: u32)
        ensures
            k == Self::key(),
    ;

    /// Size of the encoded body, excluding the entry header.
    fn body_size(&self) -> (n: u32)
        requires
            self.spec_body().len() <= u32::MAX,
        ensures
            n == self.spec_body().len(),
    ;

    fn encode_body(&self, out: &mut Vec<u8>)
        ensures
            final(out)@ == old(out)@ + self.spec_body(),
    ;

    fn decode_body(reader: &mut ByteStreamReader<'_>) -> (r: Result<Self, AudioError>)
        ensures
            match Self::spec_decode_body(old(reader).unread()) {
                Some(v) => r matches Ok(x) && x@ == v,
                None => r is Err,
            },
    ;

    /// Size of the entry including its header.
    fn size_in_byte_stream(&self) -> (n: u32)
        requires
            self.spec_body().len() + ENTRY_HEADER_SIZE <= u32::MAX,
        ensures
            n == ENTRY_HEADER_SIZE + self.spec_body().len(),
    {
        ENTRY_HEADER_SIZE + self.body_size()
    }

    /// Appends the entry (header and body) to `out`.
    fn encode(&self, out: &mut Vec<u8>)
        requires
            self.spec_body().len() <= u32::MAX,
        ensures
            final(out)@ == old(out)@ + entry_bytes(Self::key(), self.spec_body()),
    {
        out.write_u32(self.entry_key());
        out.write_u32(self.body_size());
        self.encode_body(out);
        assert(out@ =~= old(out)@ + entry_bytes(Self::key(), self.spec_body()));
    }

    /// Encodes the entry into a standalone payload buffer.
    fn to_payload(&self) -> (v: Vec<u8>)
        requires
            self.spec_body().len() <= u32::MAX,
        ensures
            v@ == entry_bytes(Self::key(), self.spec_body()),
    {
        let mut out = Vec::new();
        self.encode(&mut out);
        assert(out@ =~= entry_bytes(Self::key(), self.spec_body()));
        out
    }
}

/// The entries of a payload, as key and body, or nothing if an entry's body
/// runs past the end. Trailing bytes too few for an entry header are ignored.
pub open spec fn payload_entries(bytes: Seq<u8>) -> Option<Seq<(u32, Seq<u8>)>>
    decreases bytes.len(),
{
    if bytes.len() < 8 {
        Some(seq![])
    } else {
        let key = u32_of_be(bytes[0], bytes[1], bytes[2], bytes[3]);
        let size = u32_of_be(bytes[4], bytes[5], bytes[6], bytes[7]) as int;
        if bytes.len() - 8 < size {
            None
        } else {
            match payload_entries(bytes.skip(8 + size)) {
                Some(rest) => Some(seq![(key, bytes.subrange(8, 8 + size))] + rest),
                None => None,
            }
        }
    }
}

/// The entries of the payload `data`, in order, each as its key and body.
/// Unknown entries are returned like known ones: callers skip what they do
/// not know, as the protocol's forward-compatible parsing asks.
pub fn parse_payload<'a>(data: &'a [u8]) -> (r: Result<Vec<(u32, &'a [u8])>, AudioError>)
    ensures
        match payload_entries(data@) {
            Some(es) => r matches Ok(v) && v@.len() == es.len() && forall|i: int|
                0 <= i < es.len() ==> (#[trigger] v@[i]).0 == es[i].0 && v@[i].1@ == es[i].1,
            None => r matches Err(e) && e is Range,
        },
{
    let mut reader = ByteStreamReader::new(data);
    let mut out: Vec<(u32, &'a [u8])> = Vec::new();
    let ghost total = payload_entries(data@);
    while reader.remaining() >= ENTRY_HEADER_SIZE as usize
        invariant
            total == payload_entries(data@),
            match payload_entries(reader.unread()) {
                Some(rest) => total matches Some(es) && es.len() == out@.len() + rest.len()
                    && (forall|i: int|
                    0 <= i < out@.len() ==> (#[trigger] out@[i]).0 == es[i].0 && out@[i].1@
                        == es[i].1) && (forall|i: int|
                    0 <= i < rest.len() ==> (#[trigger] rest[i]) == es[out@.len() + i]),
                None => total is None,
            },
        decreases reader.unread().len(),
    {
        let ghost u = reader.unread();
        let key = match reader.read_u32() {
            Ok(v) => v,
            Err(e) => return Err(e),
        };
        let size = match reader.read_u32() {
            Ok(v) => v as usize,
            Err(e) => return Err(e),
        };
        proof {
            assert(u.skip(4).skip(4) =~= u.skip(8));
        }
        let body = match reader.read_bytes(size) {
            Ok(b) => b,
            Err(e) => {
                return Err(e);
            },
        };
        let ghost old_out = out@;
        out.push((key, body));
        proof {
            assert(u.skip(8).skip(size as int) =~= u.skip(8 + size));
            assert(body@ =~= u.subrange(8, 8 + size));
            assert(u.len() >= 8);
            assert(key == u32_of_be(u[0], u[1], u[2], u[3]));
            assert(size == u32_of_be(u[4], u[5], u[6], u[7]));
            let rest = payload_entries(u.skip(8 + size));
            match rest {
                Some(r2) => {
                    let r1 = seq![(key, body@)] + r2;
                    assert(payload_entries(u) == Some(r1));
                    let es = total->Some_0;
                    assert(r1[0] == es[old_out.len() as int]);
                    assert(out@[old_out.len() as int] == (key, body));
                    assert forall|i: int| 0 <= i < out@.len() implies (#[trigger] out@[i]).0 == es[i].0
                        && out@[i].1@ == es[i].1 by {
                        if i < old_out.len() {
                            assert(out@[i] == old_out[i]);
                        }
                    }
                    assert forall|i: int| 0 <= i < r2.len() implies (#[trigger] r2[i]) == es[out@.len() + i] by {
                        assert(r2[i] == r1[i + 1]);
                    }
                },
                None => {
                    assert(payload_entries(u) is None);
                },
            }
        }
    }
    proof {
        let es = total->Some_0;
        assert(payload_entries(reader.unread()) == Some(Seq::<(u32, Seq<u8>)>::empty()));
    }
    Ok(out)
}

/// The longest prefix of `bytes`, of at most `k` bytes, that ends at a
/// character boundary: its length.
pub open spec fn boundary_at_or_below(bytes: Seq<u8>, k: int) -> int
    decreases k,
{
    if k <= 0 || is_char_boundary(bytes, k) {
        if k <= 0 {
            0
        } else {
            k
        }
    } else {
        boundary_at_or_below(bytes, k - 1)
    }
}

/// Truncates a name to the maximum size allowed on the wire, respecting UTF-8
/// character boundaries.
pub fn truncate_name(name: &str) -> (s: String)
    ensures
        name.spec_bytes().len() <= MAX_NAME_SIZE ==> s@ == name@,
        name.spec_bytes().len() > MAX_NAME_SIZE ==> encode_utf8(s@) == name.spec_bytes().take(
            boundary_at_or_below(name.spec_bytes(), MAX_NAME_SIZE as int),
        ),
{
    if name.as_bytes().len() <= MAX_NAME_SIZE {
        return name.to_owned();
    }
    proof {
        vstd::utf8::encode_utf8_valid_utf8(name@);
    }
    let mut end = MAX_NAME_SIZE;
    while end > 0 && !name.is_char_boundary(end)
        invariant
            end <= MAX_NAME_SIZE,
            end < name.spec_bytes().len(),
            vstd::utf8::valid_utf8(name.spec_bytes()),
            boundary_at_or_below(name.spec_bytes(), MAX_NAME_SIZE as int) == boundary_at_or_below(
                name.spec_bytes(),
                end as int,
            ),
        decreases end,
    {
        end = end - 1;
    }
    proof {
        vstd::utf8::is_char_boundary_start_end_of_seq(name.spec_bytes());
    }
    let (head, _) = name.split_at(end);
    let s = head.to_owned();
    proof {
        vstd::utf8::encode_utf8_decode_utf8(s@);
        assert(head.spec_bytes() =~= name.spec_bytes().take(end as int));
    }
    s
}

/// The identifier type shared by peers, sessions and channels.
pub type Id = NodeId;

/// The identifier at the front of `bytes`, and its size, if there is one.
pub open spec fn read_id_spec(bytes: Seq<u8>) -> Option<(NodeId, nat)> {
    if bytes.len() < 8 {
        None
    } else {
        Some((NodeId(array_of::<8>(bytes.take(8))), 8))
    }
}

fn write_id(out: &mut Vec<u8>, id: &Id)
    ensures
        final(out)@ == old(out)@ + id.0@,
{
    write_bytes(out, id.0.as_slice());
}

fn read_id(reader: &mut ByteStreamReader<'_>) -> (r: Result<Id, AudioError>)
    ensures
        final(reader).bytes() == old(reader).bytes(),
        match read_id_spec(old(reader).unread()) {
            Some((id, n)) => r == Ok::<Id, AudioError>(id) && final(reader).pos() == old(
                reader,
            ).pos() + n && final(reader).unread() == old(reader).unread().skip(8),
            None => r matches Err(e) && e is Range && final(reader).pos() == old(reader).pos(),
        },
{
    match reader.read_array::<8>() {
        Ok(a) => {
            let ghost c = array_of::<8>(old(reader).unread().take(8));
            assert(c@ == old(reader).unread().take(8));
            assert(c =~= a);
            Ok(NodeId(a))
        },
        Err(e) => Err(e),
    }
}

impl View for NodeId {
    type V = NodeId;

    open spec fn view(&self) -> NodeId {
        *self
    }
}

impl StreamRead for NodeId {
    open spec fn spec_read(bytes: Seq<u8>) -> Option<(NodeId, nat)> {
        read_id_spec(bytes)
    }

    fn read_from(reader: &mut ByteStreamReader) -> (r: Result<NodeId, AudioError>) {
        read_id(reader)
    }
}

/// `__pi`: the display name of a peer.
#[derive(Debug, Clone)]
pub struct PeerInfo {
    pub name: String,
}

impl View for PeerInfo {
    type V = Seq<char>;

    open spec fn view(&self) -> Seq<char> {
        self.name@
    }
}

impl Default for PeerInfo {
    fn default() -> (p: Self)
        ensures
            p@ == Seq::<char>::empty(),
    {
        PeerInfo { name: String::new() }
    }
}

impl PeerInfo {
    /// A peer info whose name is `name`, truncated to the maximum name size.
    pub fn new(name: &str) -> (p: Self)
        ensures
            name.spec_bytes().len() <= MAX_NAME_SIZE ==> p@ == name@,
            name.spec_bytes().len() > MAX_NAME_SIZE ==> encode_utf8(p@) == name.spec_bytes().take(
                boundary_at_or_below(name.spec_bytes(), MAX_NAME_SIZE as int),
            ),
    {
        Self { name: truncate_name(name) }
    }
}

/// The bytes of a `u32`-length-prefixed string.
pub open spec fn string_bytes(s: Seq<char>) -> Seq<u8> {
    u32_be(encode_utf8(s).len() as u32) + encode_utf8(s)
}

impl Entry for PeerInfo {
    open spec fn key() -> u32 {
        PEER_INFO_KEY
    }

    open spec fn spec_body(&self) -> Seq<u8> {
        string_bytes(self.name@)
    }

    open spec fn spec_decode_body(bytes: Seq<u8>) -> Option<Seq<char>> {
        match read_string_spec(bytes) {
            Some((s, _)) => Some(s),
            None => None,
        }
    }

    fn entry_key(&self) -> (k: u32) {
        PEER_INFO_KEY
    }

    fn body_size(&self) -> (n: u32) {
        4 + (self.name.as_str().len() as u32)
    }

    fn encode_body(&self, out: &mut Vec<u8>) {
        out.write_string(self.name.as_str());
    }

    fn decode_body(reader: &mut ByteStreamReader<'_>) -> (r: Result<PeerInfo, AudioError>) {
        match reader.read_string() {
            Ok(name) => Ok(PeerInfo { name }),
            Err(e) => Err(e),
        }
    }
}

/// `chid`: the identifier of a channel.
#[derive(Debug, Clone, Copy)]
pub struct ChannelId {
    pub id: Id,
}

impl View for ChannelId {
    type V = NodeId;

    open spec fn view(&self) -> NodeId {
        self.id
    }
}

impl Entry for ChannelId {
    open spec fn key() -> u32 {
        CHANNEL_ID_KEY
    }

    open spec fn spec_body(&self) -> Seq<u8> {
        self.id.0@
    }

    open spec fn spec_decode_body(bytes: Seq<u8>) -> Option<NodeId> {
        match read_id_spec(bytes) {
            Some((id, _)) => Some(id),
            None => None,
        }
    }

    fn entry_key(&self) -> (k: u32) {
        CHANNEL_ID_KEY
    }

    fn body_size(&self) -> (n: u32) {
        8
    }

    fn encode_body(&self, out: &mut Vec<u8>) {
        write_id(out, &self.id);
    }

    fn decode_body(reader: &mut ByteStreamReader<'_>) -> (r: Result<ChannelId, AudioError>) {
        match read_id(reader) {
            Ok(id) => Ok(ChannelId { id }),
            Err(e) => Err(e),
        }
    }
}

/// `sess`: the session a peer belongs to.
#[derive(Debug, Clone, Copy)]
pub struct SessionMembership {
    pub session_id: SessionId,
}

impl View for SessionMembership {
    type V = NodeId;

    open spec fn view(&self) -> NodeId {
        self.session_id.0
    }
}

impl Entry for SessionMembership {
    open spec fn key() -> u32 {
        SESSION_MEMBERSHIP_KEY
    }

    open spec fn spec_body(&self) -> Seq<u8> {
        self.session_id.0.0@
    }

    open spec fn spec_decode_body(bytes: Seq<u8>) -> Option<NodeId> {
        match read_id_spec(bytes) {
            Some((id, _)) => Some(id),
            None => None,
        }
    }

    fn entry_key(&self) -> (k: u32) {
        SESSION_MEMBERSHIP_KEY
    }

    fn body_size(&self) -> (n: u32) {
        8
    }

    fn encode_body(&self, out: &mut Vec<u8>) {
        write_id(out, &self.session_id.0);
    }

    fn decode_body(reader: &mut ByteStreamReader<'_>) -> (r: Result<SessionMembership, AudioError>) {
        match read_id(reader) {
            Ok(id) => Ok(SessionMembership { session_id: SessionId(id) }),
            Err(e) => Err(e),
        }
    }
}

/// `__ht`: a host time in microseconds, for the ping/pong network quality
/// measurement.
#[derive(Debug, Clone, Copy, PartialEq, Eq, Structural)]
pub struct HostTime {
    pub time: i64,
}

impl Default for HostTime {
    fn default() -> (t: Self)
        ensures
            t.time == 0,
    {
        HostTime { time: 0 }
    }
}

impl View for HostTime {
    type V = i64;

    open spec fn view(&self) -> i64 {
        self.time
    }
}

impl Entry for HostTime {
    open spec fn key() -> u32 {
        HOST_TIME_KEY
    }

    open spec fn spec_body(&self) -> Seq<u8> {
        i64_be(self.time)
    }

    open spec fn spec_decode_body(bytes: Seq<u8>) -> Option<i64> {
        if bytes.len() < 8 {
            None
        } else {
            Some(crate::bytes::i64_of_be(bytes.take(8)))
        }
    }

    fn entry_key(&self) -> (k: u32) {
        HOST_TIME_KEY
    }

    fn body_size(&self) -> (n: u32) {
        8
    }

    fn encode_body(&self, out: &mut Vec<u8>) {
        out.write_i64(self.time);
    }

    fn decode_body(reader: &mut ByteStreamReader<'_>) -> (r: Result<HostTime, AudioError>) {
        match reader.read_i64() {
            Ok(time) => Ok(HostTime { time }),
            Err(e) => Err(e),
        }
    }
}

/// A single channel offered by a peer.
#[derive(Debug, Clone)]
pub struct ChannelAnnouncement {
    pub name: String,
    pub id: Id,
}

impl View for ChannelAnnouncement {
    type V = (Seq<char>, NodeId);

    open spec fn view(&self) -> (Seq<char>, NodeId) {
        (self.name@, self.id)
    }
}

/// The bytes of a channel announcement: its name, then its identifier.
pub open spec fn announcement_bytes(a: (Seq<char>, NodeId)) -> Seq<u8> {
    string_bytes(a.0) + a.1.0@
}

impl ChannelAnnouncement {
    pub fn size_in_byte_stream(&self) -> (n: u32)
        requires
            encode_utf8(self.name@).len() + 12 <= u32::MAX,
        ensures
            n == announcement_bytes(self@).len(),
    {
        size_of_string(self.name.as_str()) + 8
    }

    fn encode(&self, out: &mut Vec<u8>)
        ensures
            final(out)@ == old(out)@ + announcement_bytes(self@),
    {
        out.write_string(self.name.as_str());
        write_id(out, &self.id);
        assert(out@ =~= old(out)@ + announcement_bytes(self@));
    }
}

impl StreamRead for ChannelAnnouncement {
    open spec fn spec_read(bytes: Seq<u8>) -> Option<((Seq<char>, NodeId), nat)> {
        match read_string_spec(bytes) {
            Some((name, n)) => match read_id_spec(bytes.skip(n as int)) {
                Some((id, m)) => Some(((name, id), n + m)),
                None => None,
            },
            None => None,
        }
    }

    fn read_from(reader: &mut ByteStreamReader) -> (r: Result<ChannelAnnouncement, AudioError>) {
        let ghost u = reader.unread();
        let name = match reader.read_string() {
            Ok(s) => s,
            Err(e) => return Err(e),
        };
        let id = match read_id(reader) {
            Ok(id) => id,
            Err(e) => return Err(e),
        };
        Ok(ChannelAnnouncement { name, id })
    }
}

/// The bytes of a run of channel announcements.
pub open spec fn announcements_bytes(cs: Seq<(Seq<char>, NodeId)>) -> Seq<u8>
    decreases cs.len(),
{
    if cs.len() == 0 {
        seq![]
    } else {
        announcement_bytes(cs[0]) + announcements_bytes(cs.skip(1))
    }
}

/// Appending an announcement appends its bytes.
pub proof fn lemma_announcements_bytes_push(cs: Seq<(Seq<char>, NodeId)>, c: (Seq<char>, NodeId))
    ensures
        announcements_bytes(cs.push(c)) == announcements_bytes(cs) + announcement_bytes(c),
    decreases cs.len(),
{
    let s = cs.push(c);
    if cs.len() == 0 {
        assert(s.skip(1) =~= Seq::<(Seq<char>, NodeId)>::empty());
        assert(announcements_bytes(s.skip(1)) == Seq::<u8>::empty());
        assert(announcements_bytes(s) =~= announcement_bytes(c));
    } else {
        assert(s.skip(1) =~= cs.skip(1).push(c));
        lemma_announcements_bytes_push(cs.skip(1), c);
        assert(announcements_bytes(s) =~= announcements_bytes(cs) + announcement_bytes(c));
    }
}

/// `auca`: the set of channels a peer currently offers.
#[derive(Debug, Clone)]
pub struct ChannelAnnouncements {
    pub channels: Vec<ChannelAnnouncement>,
}

impl View for ChannelAnnouncements {
    type V = Seq<(Seq<char>, NodeId)>;

    open spec fn view(&self) -> Seq<(Seq<char>, NodeId)> {
        self.channels@.map_values(|c: ChannelAnnouncement| c@)
    }
}

impl Default for ChannelAnnouncements {
    fn default() -> (a: Self)
        ensures
            a@ == Seq::<(Seq<char>, NodeId)>::empty(),
    {
        let a = ChannelAnnouncements { channels: Vec::new() };
        assert(a@ =~= Seq::<(Seq<char>, NodeId)>::empty());
        a
    }
}

impl Entry for ChannelAnnouncements {
    open spec fn key() -> u32 {
        CHANNEL_ANNOUNCEMENTS_KEY
    }

    open spec fn spec_body(&self) -> Seq<u8> {
        u32_be(self.channels@.len() as u32) + announcements_bytes(self@)
    }

    open spec fn spec_decode_body(bytes: Seq<u8>) -> Option<Seq<(Seq<char>, NodeId)>> {
        match read_vec_spec::<ChannelAnnouncement>(bytes) {
            Some((vs, _)) => Some(vs),
            None => None,
        }
    }

    fn entry_key(&self) -> (k: u32) {
        CHANNEL_ANNOUNCEMENTS_KEY
    }

    fn body_size(&self) -> (n: u32) {
        let mut size: u32 = 4;
        let mut i: usize = 0;
        while i < self.channels.len()
            invariant
                i <= self.channels@.len(),
                self.spec_body().len() <= u32::MAX,
                size == 4 + announcements_bytes(self@.take(i as int)).len(),
            decreases self.channels@.len() - i,
        {
            let c = &self.channels[i];
            proof {
                assert(self@.take(i + 1) =~= self@.take(i as int).push(c@));
                lemma_announcements_bytes_push(self@.take(i as int), c@);
                lemma_announcements_prefix_len(self@, i + 1);
            }
            size = size + c.size_in_byte_stream();
            i = i + 1;
        }
        assert(self@.take(i as int) =~= self@);
        size
    }

    fn encode_body(&self, out: &mut Vec<u8>) {
        out.write_u32(self.channels.len() as u32);
        let ghost start = out@;
        let mut i: usize = 0;
        while i < self.channels.len()
            invariant
                i <= self.channels@.len(),
                out@ == start + announcements_bytes(self@.take(i as int)),
            decreases self.channels@.len() - i,
        {
            let c = &self.channels[i];
            c.encode(out);
            proof {
                assert(self@.take(i + 1) =~= self@.take(i as int).push(c@));
                lemma_announcements_bytes_push(self@.take(i as int), c@);
            }
            i = i + 1;
        }
        assert(self@.take(i as int) =~= self@);
        assert(out@ =~= old(out)@ + self.spec_body());
    }

    fn decode_body(reader: &mut ByteStreamReader<'_>) -> (r: Result<ChannelAnnouncements, AudioError>) {
        match reader.read_vec::<ChannelAnnouncement>() {
            Ok(channels) => Ok(ChannelAnnouncements { channels }),
            Err(e) => Err(e),
        }
    }
}

/// The bytes of a prefix of the announcements are no more than all of them.
pub proof fn lemma_announcements_prefix_len(cs: Seq<(Seq<char>, NodeId)>, n: int)
    requires
        0 <= n <= cs.len(),
    ensures
        announcements_bytes(cs.take(n)).len() <= announcements_bytes(cs).len(),
    decreases cs.len(),
{
    if n > 0 {
        assert(cs.take(n).skip(1) =~= cs.skip(1).take(n - 1));
        lemma_announcements_prefix_len(cs.skip(1), n - 1);
    }
}

/// A channel that is no longer offered.
#[derive(Debug, Clone, Copy)]
pub struct ChannelBye {
    pub id: Id,
}

impl View for ChannelBye {
    type V = NodeId;

    open spec fn view(&self) -> NodeId {
        self.id
    }
}

impl ChannelBye {
    pub fn size_in_byte_stream(&self) -> (n: u32)
        ensures
            n == 8,
    {
        8
    }
}

impl StreamRead for ChannelBye {
    open spec fn spec_read(bytes: Seq<u8>) -> Option<(NodeId, nat)> {
        read_id_spec(bytes)
    }

    fn read_from(reader: &mut ByteStreamReader) -> (r: Result<ChannelBye, AudioError>) {
        match read_id(reader) {
            Ok(id) => Ok(ChannelBye { id }),
            Err(e) => Err(e),
        }
    }
}

/// The bytes of a run of identifiers.
pub open spec fn ids_bytes(ids: Seq<NodeId>) -> Seq<u8>
    decreases ids.len(),
{
    if ids.len() == 0 {
        seq![]
    } else {
        ids[0].0@ + ids_bytes(ids.skip(1))
    }
}

/// Each identity takes eight bytes.
pub proof fn lemma_ids_bytes_len(ids: Seq<NodeId>)
    ensures
        ids_bytes(ids).len() == 8 * ids.len(),
    decreases ids.len(),
{
    if ids.len() > 0 {
        lemma_ids_bytes_len(ids.skip(1));
    }
}

/// Appending an identity appends its bytes.
pub proof fn lemma_ids_bytes_push(ids: Seq<NodeId>, id: NodeId)
    ensures
        ids_bytes(ids.push(id)) == ids_bytes(ids) + id.0@,
    decreases ids.len(),
{
    let s = ids.push(id);
    if ids.len() == 0 {
        assert(s.skip(1) =~= Seq::<NodeId>::empty());
        assert(ids_bytes(s.skip(1)) == Seq::<u8>::empty());
        assert(ids_bytes(s) =~= id.0@);
    } else {
        assert(s.skip(1) =~= ids.skip(1).push(id));
        lemma_ids_bytes_push(ids.skip(1), id);
        assert(ids_bytes(s) =~= ids_bytes(ids) + id.0@);
    }
}

/// `aucb`: channels that have gone away.
#[derive(Debug, Clone)]
pub struct ChannelByes {
    pub byes: Vec<ChannelBye>,
}

impl View for ChannelByes {
    type V = Seq<NodeId>;

    open spec fn view(&self) -> Seq<NodeId> {
        self.byes@.map_values(|b: ChannelBye| b.id)
    }
}

impl Default for ChannelByes {
    fn default() -> (b: Self)
        ensures
            b@ == Seq::<NodeId>::empty(),
    {
        let b = ChannelByes { byes: Vec::new() };
        assert(b@ =~= Seq::<NodeId>::empty());
        b
    }
}

impl Entry for ChannelByes {
    open spec fn key() -> u32 {
        CHANNEL_BYES_KEY
    }

    open spec fn spec_body(&self) -> Seq<u8> {
        u32_be(self.byes@.len() as u32) + ids_bytes(self@)
    }

    open spec fn spec_decode_body(bytes: Seq<u8>) -> Option<Seq<NodeId>> {
        match read_vec_spec::<ChannelBye>(bytes) {
            Some((vs, _)) => Some(vs),
            None => None,
        }
    }

    fn entry_key(&self) -> (k: u32) {
        CHANNEL_BYES_KEY
    }

    fn body_size(&self) -> (n: u32) {
        proof {
            lemma_ids_bytes_len(self@);
        }
        4 + 8 * (self.byes.len() as u32)
    }

    fn encode_body(&self, out: &mut Vec<u8>) {
        out.write_u32(self.byes.len() as u32);
        let ghost start = out@;
        let mut i: usize = 0;
        while i < self.byes.len()
            invariant
                i <= self.byes@.len(),
                out@ == start + ids_bytes(self@.take(i as int)),
            decreases self.byes@.len() - i,
        {
            let b = &self.byes[i];
            write_id(out, &b.id);
            proof {
                assert(self@.take(i + 1) =~= self@.take(i as int).push(b.id));
                lemma_ids_bytes_push(self@.take(i as int), b.id);
            }
            i = i + 1;
        }
        assert(self@.take(i as int) =~= self@);
        assert(out@ =~= old(out)@ + self.spec_body());
    }

    fn decode_body(reader: &mut ByteStreamReader<'_>) -> (r: Result<ChannelByes, AudioError>) {
        match reader.read_vec::<ChannelBye>() {
            Ok(byes) => {
                let r = ChannelByes { byes };
                assert(r@ =~= byes@.map_values(|x: ChannelBye| x@));
                Ok(r)
            },
            Err(e) => Err(e),
        }
    }
}

/// The audio codec used for an [`AudioBuffer`].
#[derive(Debug, Clone, Copy, PartialEq, Eq, Structural)]
pub enum Codec {
    Invalid,
    /// Interleaved 16-bit signed PCM.
    PcmI16,
}

impl Default for Codec {
    fn default() -> (c: Self)
        ensures
            c == Codec::Invalid,
    {
        Codec::Invalid
    }
}

/// The number of a codec on the wire.
pub open spec fn codec_number(c: Codec) -> u8 {
    match c {
        Codec::Invalid => 0,
        Codec::PcmI16 => 1,
    }
}

/// The codec of a number on the wire; unknown numbers are invalid.
pub open spec fn codec_of(v: u8) -> Codec {
    if v == 1 {
        Codec::PcmI16
    } else {
        Codec::Invalid
    }
}

impl Codec {
    pub fn to_u8(self) -> (v: u8)
        ensures
            v == codec_number(self),
    {
        match self {
            Codec::Invalid => 0,
            Codec::PcmI16 => 1,
        }
    }

    pub fn from_u8(v: u8) -> (c: Self)
        ensures
            c == codec_of(v),
    {
        match v {
            1 => Codec::PcmI16,
            _ => Codec::Invalid,
        }
    }
}

/// A contiguous run of frames within an [`AudioBuffer`] that shares one tempo
/// and beat origin. The tempo is held as the wire holds it: the length of a
/// beat in microseconds, 0 for no tempo.
#[derive(Debug, Clone, Copy, PartialEq, Eq, Structural)]
pub struct Chunk {
    pub count: u64,
    pub num_frames: u16,
    pub begin_beats: Beats,
    pub micros_per_beat: i64,
}

impl Default for Chunk {
    fn default() -> (c: Self)
        ensures
            c.count == 0 && c.num_frames == 0 && c.begin_beats.value == 0 && c.micros_per_beat == 0,
    {
        Chunk { count: 0, num_frames: 0, begin_beats: Beats { value: 0 }, micros_per_beat: 0 }
    }
}

impl View for Chunk {
    type V = Chunk;

    open spec fn view(&self) -> Chunk {
        *self
    }
}

/// The bytes of a chunk.
pub open spec fn chunk_bytes(c: Chunk) -> Seq<u8> {
    u64_be(c.count) + u16_be(c.num_frames) + i64_be(c.begin_beats.value) + i64_be(c.micros_per_beat)
}

impl Chunk {
    pub const SIZE: u32 = 26;

    fn encode(&self, out: &mut Vec<u8>)
        ensures
            final(out)@ == old(out)@ + chunk_bytes(*self),
    {
        out.write_u64(self.count);
        out.write_u16(self.num_frames);
        out.write_i64(self.begin_beats.value);
        out.write_i64(self.micros_per_beat);
        assert(out@ =~= old(out)@ + chunk_bytes(*self));
    }
}

impl StreamRead for Chunk {
    open spec fn spec_read(bytes: Seq<u8>) -> Option<(Chunk, nat)> {
        if bytes.len() < 26 {
            None
        } else {
            Some(
                (
                    Chunk {
                        count: crate::bytes::u64_of_be(bytes.take(8)),
                        num_frames: crate::bytes::u16_of_be(bytes[8], bytes[9]),
                        begin_beats: Beats { value: crate::bytes::i64_of_be(bytes.subrange(10, 18)) },
                        micros_per_beat: crate::bytes::i64_of_be(bytes.subrange(18, 26)),
                    },
                    26,
                ),
            )
        }
    }

    fn read_from(reader: &mut ByteStreamReader) -> (r: Result<Chunk, AudioError>) {
        let ghost u = reader.unread();
        if reader.remaining() < 26 {
            return Err(AudioError::Range("parsing type from byte stream failed"));
        }
        let count = match reader.read_u64() {
            Ok(v) => v,
            Err(e) => return Err(e),
        };
        let num_frames = match reader.read_u16() {
            Ok(v) => v,
            Err(e) => return Err(e),
        };
        let beats = match reader.read_i64() {
            Ok(v) => v,
            Err(e) => return Err(e),
        };
        let micros_per_beat = match reader.read_i64() {
            Ok(v) => v,
            Err(e) => return Err(e),
        };
        proof {
            assert(u.skip(8).skip(2).take(8) =~= u.subrange(10, 18));
            assert(u.skip(8).skip(2).skip(8).take(8) =~= u.subrange(18, 26));
            assert(u.skip(8)[0] == u[8] && u.skip(8)[1] == u[9]);
        }
        Ok(Chunk { count, num_frames, begin_beats: Beats { value: beats }, micros_per_beat })
    }
}

/// The bytes of a run of chunks.
pub open spec fn chunks_bytes(cs: Seq<Chunk>) -> Seq<u8>
    decreases cs.len(),
{
    if cs.len() == 0 {
        seq![]
    } else {
        chunk_bytes(cs[0]) + chunks_bytes(cs.skip(1))
    }
}

/// Appending a chunk appends its bytes.
pub proof fn lemma_chunks_bytes_push(cs: Seq<Chunk>, c: Chunk)
    ensures
        chunks_bytes(cs.push(c)) == chunks_bytes(cs) + chunk_bytes(c),
    decreases cs.len(),
{
    let s = cs.push(c);
    if cs.len() == 0 {
        assert(s.skip(1) =~= Seq::<Chunk>::empty());
        assert(chunks_bytes(s.skip(1)) == Seq::<u8>::empty());
        assert(chunks_bytes(s) =~= chunk_bytes(c));
    } else {
        assert(s.skip(1) =~= cs.skip(1).push(c));
        lemma_chunks_bytes_push(cs.skip(1), c);
        assert(chunks_bytes(s) =~= chunks_bytes(cs) + chunk_bytes(c));
    }
}

/// Each chunk takes twenty-six bytes.
pub proof fn lemma_chunks_bytes_len(cs: Seq<Chunk>)
    ensures
        chunks_bytes(cs).len() == 26 * cs.len(),
    decreases cs.len(),
{
    if cs.len() > 0 {
        lemma_chunks_bytes_len(cs.skip(1));
    }
}

/// The number of frames of a run of chunks.
pub open spec fn frames_sum(cs: Seq<Chunk>) -> int
    decreases cs.len(),
{
    if cs.len() == 0 {
        0
    } else {
        frames_sum(cs.drop_last()) + cs.last().num_frames
    }
}

proof fn lemma_frames_sum_bound(cs: Seq<Chunk>)
    ensures
        0 <= frames_sum(cs) <= 65535 * cs.len(),
    decreases cs.len(),
{
    if cs.len() > 0 {
        lemma_frames_sum_bound(cs.drop_last());
    }
}

/// The number of frames of `chunks`, computed without overflow.
fn frames_of(chunks: &Vec<Chunk>) -> (n: u128)
    ensures
        n == frames_sum(chunks@),
{
    let mut n: u128 = 0;
    let mut i: usize = 0;
    while i < chunks.len()
        invariant
            i <= chunks@.len(),
            n == frames_sum(chunks@.take(i as int)),
            n <= 65535 * i,
        decreases chunks@.len() - i,
    {
        let ghost prefix = chunks@.take(i + 1);
        assert(prefix.drop_last() =~= chunks@.take(i as int));
        n = n + chunks[i].num_frames as u128;
        i = i + 1;
    }
    assert(chunks@.take(i as int) =~= chunks@);
    n
}

/// Why a body fails to decode: it ends too soon, or it is malformed.
#[derive(Debug, Clone, Copy, PartialEq, Eq, Structural)]
pub enum BodyError {
    Range,
    Invalid,
}

/// The view of an audio buffer: channel, session, chunks, codec, sample
/// rate, number of channels and audio bytes.
pub type AudioBufferView = (NodeId, NodeId, Seq<Chunk>, Codec, u32, u8, Seq<u8>);

/// What the body `b` of an audio buffer decodes to, or why it does not.
pub open spec fn audio_buffer_decode(b: Seq<u8>) -> Result<AudioBufferView, BodyError> {
    if b.len() < 16 {
        Err(BodyError::Range)
    } else {
        let channel_id = read_id_spec(b)->Some_0.0;
        let session_id = read_id_spec(b.skip(8))->Some_0.0;
        match read_vec_spec::<Chunk>(b.skip(16)) {
            None => Err(BodyError::Range),
            Some((cs, n)) => {
                if cs.len() == 0 {
                    Err(BodyError::Invalid)
                } else {
                    let r1 = b.skip(16).skip(n as int);
                    if r1.len() < 1 {
                        Err(BodyError::Range)
                    } else if codec_of(r1[0]) == Codec::Invalid {
                        Err(BodyError::Invalid)
                    } else {
                        let r2 = r1.skip(1);
                        if r2.len() < 7 {
                            Err(BodyError::Range)
                        } else {
                            let codec = codec_of(r1[0]);
                            let sample_rate = u32_of_be(r2[0], r2[1], r2[2], r2[3]);
                            let num_channels = r2[4];
                            let num_bytes = crate::bytes::u16_of_be(r2[5], r2[6]) as int;
                            if codec == Codec::PcmI16 && frames_sum(cs) * num_channels * 2
                                != num_bytes {
                                Err(BodyError::Invalid)
                            } else if r2.len() - 7 < num_bytes {
                                Err(BodyError::Range)
                            } else {
                                Ok(
                                    (
                                        channel_id,
                                        session_id,
                                        cs,
                                        codec,
                                        sample_rate,
                                        num_channels,
                                        r2.subrange(7, 7 + num_bytes),
                                    ),
                                )
                            }
                        }
                    }
                }
            },
        }
    }
}

/// `_abu`: a block of encoded audio for one channel.
#[derive(Debug, Clone)]
pub struct AudioBuffer {
    pub channel_id: Id,
    pub session_id: Id,
    pub chunks: Vec<Chunk>,
    pub codec: Codec,
    pub sample_rate: u32,
    pub num_channels: u8,
    pub bytes: Vec<u8>,
}

impl View for AudioBuffer {
    type V = AudioBufferView;

    open spec fn view(&self) -> AudioBufferView {
        (
            self.channel_id,
            self.session_id,
            self.chunks@,
            self.codec,
            self.sample_rate,
            self.num_channels,
            self.bytes@,
        )
    }
}

impl Default for AudioBuffer {
    fn default() -> (b: Self)
        ensures
            b.chunks@.len() == 0 && b.codec == Codec::Invalid && b.sample_rate == 0
                && b.num_channels == 0 && b.bytes@.len() == 0,
    {
        AudioBuffer {
            channel_id: NodeId::default(),
            session_id: NodeId::default(),
            chunks: Vec::new(),
            codec: Codec::Invalid,
            sample_rate: 0,
            num_channels: 0,
            bytes: Vec::new(),
        }
    }
}

impl AudioBuffer {
    /// Bytes of an audio buffer message that are not audio data.
    pub const NON_AUDIO_BYTES: usize = 50;

    /// Maximum number of encoded audio bytes that fit in one message.
    pub const MAX_AUDIO_BYTES: usize = 1126;

    /// The number of frames of all chunks.
    pub fn num_frames(&self) -> (n: u32)
        requires
            frames_sum(self.chunks@) <= u32::MAX,
        ensures
            n == frames_sum(self.chunks@),
    {
        frames_of(&self.chunks) as u32
    }
}

impl Entry for AudioBuffer {
    open spec fn key() -> u32 {
        AUDIO_BUFFER_KEY
    }

    open spec fn spec_body(&self) -> Seq<u8> {
        self.channel_id.0@ + self.session_id.0@ + u32_be(self.chunks@.len() as u32) + chunks_bytes(
            self.chunks@,
        ) + seq![codec_number(self.codec)] + u32_be(self.sample_rate) + seq![self.num_channels]
            + u16_be(self.bytes@.len() as u16) + self.bytes@
    }

    open spec fn spec_decode_body(bytes: Seq<u8>) -> Option<AudioBufferView> {
        match audio_buffer_decode(bytes) {
            Ok(v) => Some(v),
            Err(_) => None,
        }
    }

    fn entry_key(&self) -> (k: u32) {
        AUDIO_BUFFER_KEY
    }

    fn body_size(&self) -> (n: u32) {
        proof {
            lemma_chunks_bytes_len(self.chunks@);
        }
        8 + 8 + 4 + self.chunks.len() as u32 * Chunk::SIZE + 1 + 4 + 1 + 2 + self.bytes.len() as u32
    }

    fn encode_body(&self, out: &mut Vec<u8>) {
        write_id(out, &self.channel_id);
        write_id(out, &self.session_id);
        out.write_u32(#[verifier::truncate] (self.chunks.len() as u32));
        let ghost start = out@;
        let mut i: usize = 0;
        while i < self.chunks.len()
            invariant
                i <= self.chunks@.len(),
                out@ == start + chunks_bytes(self.chunks@.take(i as int)),
            decreases self.chunks@.len() - i,
        {
            let c = &self.chunks[i];
            c.encode(out);
            proof {
                assert(self.chunks@.take(i + 1) =~= self.chunks@.take(i as int).push(*c));
                lemma_chunks_bytes_push(self.chunks@.take(i as int), *c);
            }
            i = i + 1;
        }
        assert(self.chunks@.take(i as int) =~= self.chunks@);
        out.write_u8(self.codec.to_u8());
        out.write_u32(self.sample_rate);
        out.write_u8(self.num_channels);
        out.write_u16(#[verifier::truncate] (self.bytes.len() as u16));
        write_bytes(out, self.bytes.as_slice());
        assert(out@ =~= old(out)@ + self.spec_body());
    }

    fn decode_body(reader: &mut ByteStreamReader<'_>) -> (r: Result<AudioBuffer, AudioError>)
        ensures
            match audio_buffer_decode(old(reader).unread()) {
                Ok(v) => r matches Ok(x) && x@ == v,
                Err(BodyError::Range) => r matches Err(e) && e is Range,
                Err(BodyError::Invalid) => r matches Err(e) && e is Invalid,
            },
    {
        let ghost b = reader.unread();
        let channel_id = match read_id(reader) {
            Ok(v) => v,
            Err(e) => return Err(e),
        };
        let session_id = match read_id(reader) {
            Ok(v) => v,
            Err(e) => return Err(e),
        };
        proof {
            assert(b.skip(8).skip(8) =~= b.skip(16));
        }
        let ghost before_chunks = reader.unread();
        let chunks = match reader.read_vec::<Chunk>() {
            Ok(v) => v,
            Err(e) => return Err(e),
        };
        proof {
            let (cs, n) = read_vec_spec::<Chunk>(b.skip(16))->Some_0;
            assert(chunks@ =~= chunks@.map_values(|x: Chunk| x@));
        }
        if chunks.len() == 0 {
            return Err(AudioError::Invalid("audio buffer has no chunks"));
        }
        let ghost r1 = reader.unread();
        let codec = match reader.read_u8() {
            Ok(v) => Codec::from_u8(v),
            Err(e) => return Err(e),
        };
        if codec == Codec::Invalid {
            return Err(AudioError::Invalid("invalid codec"));
        }
        let ghost r2 = reader.unread();
        let sample_rate = match reader.read_u32() {
            Ok(v) => v,
            Err(e) => return Err(e),
        };
        let num_channels = match reader.read_u8() {
            Ok(v) => v,
            Err(e) => return Err(e),
        };
        let num_bytes = match reader.read_u16() {
            Ok(v) => v,
            Err(e) => return Err(e),
        };
        proof {
            assert(r2.skip(4)[0] == r2[4]);
            assert(r2.skip(4).skip(1)[0] == r2[5] && r2.skip(4).skip(1)[1] == r2[6]);
            assert(r2.skip(4).skip(1).skip(2) =~= r2.skip(7));
        }
        let frames = frames_of(&chunks);
        let nchunks = chunks.len();
        proof {
            lemma_frames_sum_bound(chunks@);
            assert(frames * (num_channels as u128) * 2 <= 65535 * 255 * 2 * 0xFFFF_FFFF_FFFF_FFFFu128) by (nonlinear_arith)
                requires
                    frames <= 65535 * nchunks,
                    nchunks <= 0xFFFF_FFFF_FFFF_FFFFu64,
                    num_channels <= 255,
            ;
        }
        if codec == Codec::PcmI16 && frames * (num_channels as u128) * 2 != num_bytes as u128 {
            return Err(AudioError::Invalid("byte count / frame count mismatch"));
        }
        let data = match reader.read_bytes(num_bytes as usize) {
            Ok(d) => d,
            Err(e) => return Err(e),
        };
        let bytes = vstd::slice::slice_to_vec(data);
        proof {
            assert(data@ =~= r2.subrange(7, 7 + num_bytes as int));
        }
        Ok(AudioBuffer { channel_id, session_id, chunks, codec, sample_rate, num_channels, bytes })
    }
}

/// What a peer announcement's entries set, in order: the session (if any),
/// the name and the channels; or nothing if a known entry fails to decode.
pub type AnnouncementParts = (Option<NodeId>, Seq<char>, Seq<(Seq<char>, NodeId)>);

/// The parts that the entries `es` of a peer announcement set; later entries
/// of a kind replace earlier ones, and unknown keys are skipped.
pub open spec fn announcement_parts(es: Seq<(u32, Seq<u8>)>) -> Option<AnnouncementParts>
    decreases es.len(),
{
    if es.len() == 0 {
        Some((None, seq![], seq![]))
    } else {
        match announcement_parts(es.drop_last()) {
            None => None,
            Some((session, name, channels)) => {
                let (key, body) = es.last();
                if key == SESSION_MEMBERSHIP_KEY {
                    match SessionMembership::spec_decode_body(body) {
                        Some(id) => Some((Some(id), name, channels)),
                        None => None,
                    }
                } else if key == PEER_INFO_KEY {
                    match PeerInfo::spec_decode_body(body) {
                        Some(n) => Some((session, n, channels)),
                        None => None,
                    }
                } else if key == CHANNEL_ANNOUNCEMENTS_KEY {
                    match ChannelAnnouncements::spec_decode_body(body) {
                        Some(cs) => Some((session, name, cs)),
                        None => None,
                    }
                } else {
                    Some((session, name, channels))
                }
            },
        }
    }
}

/// Once a prefix of the entries fails to decode, so do all of them.
proof fn lemma_parts_error_persists(es: Seq<(u32, Seq<u8>)>, k: int)
    requires
        0 <= k <= es.len(),
        announcement_parts(es.take(k)) is None,
    ensures
        announcement_parts(es) is None,
    decreases es.len() - k,
{
    if k < es.len() {
        assert(es.take(k + 1).drop_last() =~= es.take(k));
        lemma_parts_error_persists(es, k + 1);
    } else {
        assert(es.take(k) =~= es);
    }
}

/// Once a prefix of the entries fails to decode, so do all of them.
proof fn lemma_request_error_persists(es: Seq<(u32, Seq<u8>)>, k: int)
    requires
        0 <= k <= es.len(),
        requested_channel(es.take(k)) is None,
    ensures
        requested_channel(es) is None,
    decreases es.len() - k,
{
    if k < es.len() {
        assert(es.take(k + 1).drop_last() =~= es.take(k));
        lemma_request_error_persists(es, k + 1);
    } else {
        assert(es.take(k) =~= es);
    }
}

/// The bytes of the payload of a peer announcement.
pub open spec fn announcement_payload(session: NodeId, name: Seq<char>, channels: Seq<(Seq<char>, NodeId)>) -> Seq<u8> {
    entry_bytes(SESSION_MEMBERSHIP_KEY, session.0@) + entry_bytes(PEER_INFO_KEY, string_bytes(name))
        + entry_bytes(
        CHANNEL_ANNOUNCEMENTS_KEY,
        u32_be(channels.len() as u32) + announcements_bytes(channels),
    )
}

/// A peer's announcement of itself and the channels it offers.
#[derive(Debug, Clone)]
pub struct PeerAnnouncement {
    pub node_id: NodeId,
    pub session_id: SessionId,
    pub peer_info: PeerInfo,
    pub channels: ChannelAnnouncements,
}

impl PeerAnnouncement {
    /// Whether the entries fit the `u32` sizes of the wire format.
    pub open spec fn fits(&self) -> bool {
        8 + 8 + 8 + self.peer_info.spec_body().len() + 8 + self.channels.spec_body().len() <= u32::MAX
    }

    pub fn ident(&self) -> (id: NodeId)
        ensures
            id == self.node_id,
    {
        self.node_id
    }

    pub fn payload_size(&self) -> (n: u32)
        requires
            self.fits(),
        ensures
            n == announcement_payload(self.session_id.0, self.peer_info@, self.channels@).len(),
    {
        SessionMembership { session_id: self.session_id }.size_in_byte_stream()
            + self.peer_info.size_in_byte_stream() + self.channels.size_in_byte_stream()
    }

    pub fn to_payload(&self) -> (v: Vec<u8>)
        requires
            self.fits(),
        ensures
            v@ == announcement_payload(self.session_id.0, self.peer_info@, self.channels@),
    {
        let mut out = Vec::new();
        SessionMembership { session_id: self.session_id }.encode(&mut out);
        self.peer_info.encode(&mut out);
        self.channels.encode(&mut out);
        assert(out@ =~= announcement_payload(self.session_id.0, self.peer_info@, self.channels@));
        out
    }

    /// The announcement of `node_id` that the payload `data` carries.
    pub fn from_payload(node_id: NodeId, data: &[u8]) -> (r: Result<Self, AudioError>)
        ensures
            match payload_entries(data@) {
                None => r is Err,
                Some(es) => match announcement_parts(es) {
                    None => r is Err,
                    Some((session, name, channels)) => r matches Ok(a) && a.node_id == node_id
                        && a.peer_info@ == name && a.channels@ == channels && match session {
                        Some(id) => a.session_id.0 == id,
                        None => is_zero_id(a.session_id.0),
                    },
                },
            },
    {
        let entries = match parse_payload(data) {
            Ok(v) => v,
            Err(e) => return Err(e),
        };
        let ghost es = payload_entries(data@)->Some_0;
        let mut announcement = PeerAnnouncement {
            node_id,
            session_id: SessionId::default(),
            peer_info: PeerInfo::default(),
            channels: ChannelAnnouncements::default(),
        };
        let mut i: usize = 0;
        while i < entries.len()
            invariant
                i <= entries@.len(),
                payload_entries(data@) == Some(es),
                entries@.len() == es.len(),
                forall|j: int|
                    0 <= j < es.len() ==> (#[trigger] entries@[j]).0 == es[j].0 && entries@[j].1@
                        == es[j].1,
                announcement.node_id == node_id,
                match announcement_parts(es.take(i as int)) {
                    None => false,
                    Some((session, name, channels)) => announcement.peer_info@ == name
                        && announcement.channels@ == channels && match session {
                        Some(id) => announcement.session_id.0 == id,
                        None => is_zero_id(announcement.session_id.0),
                    },
                },
            decreases entries@.len() - i,
        {
            let (key, body) = entries[i];
            assert(entries@[i as int].0 == es[i as int].0 && entries@[i as int].1@ == es[i as int].1);
            let ghost prefix = es.take(i + 1);
            assert(prefix.drop_last() =~= es.take(i as int));
            assert(prefix.last() == es[i as int]);
            let mut reader = ByteStreamReader::new(body);
            if key == SESSION_MEMBERSHIP_KEY {
                match SessionMembership::decode_body(&mut reader) {
                    Ok(m) => {
                        announcement.session_id = m.session_id;
                    },
                    Err(e) => {
                        proof {
                            lemma_parts_error_persists(es, i + 1);
                        }
                        return Err(e);
                    },
                }
            } else if key == PEER_INFO_KEY {
                match PeerInfo::decode_body(&mut reader) {
                    Ok(p) => {
                        announcement.peer_info = p;
                    },
                    Err(e) => {
                        proof {
                            lemma_parts_error_persists(es, i + 1);
                        }
                        return Err(e);
                    },
                }
            } else if key == CHANNEL_ANNOUNCEMENTS_KEY {
                match ChannelAnnouncements::decode_body(&mut reader) {
                    Ok(c) => {
                        announcement.channels = c;
                    },
                    Err(e) => {
                        proof {
                            lemma_parts_error_persists(es, i + 1);
                        }
                        return Err(e);
                    },
                }
            }
            i = i + 1;
        }
        assert(es.take(i as int) =~= es);
        Ok(announcement)
    }
}

/// Eight zero bytes: the identity that `Default` gives.
pub open spec fn is_zero_id(id: NodeId) -> bool {
    crate::link::node::is_zero_id(id)
}

/// The channel that the `chid` entries of `es` name: the last one, or none;
/// or nothing at all if one fails to decode.
pub open spec fn requested_channel(es: Seq<(u32, Seq<u8>)>) -> Option<Option<NodeId>>
    decreases es.len(),
{
    if es.len() == 0 {
        Some(None)
    } else {
        match requested_channel(es.drop_last()) {
            None => None,
            Some(prev) => {
                let (key, body) = es.last();
                if key == CHANNEL_ID_KEY {
                    match ChannelId::spec_decode_body(body) {
                        Some(id) => Some(Some(id)),
                        None => None,
                    }
                } else {
                    Some(prev)
                }
            },
        }
    }
}

/// The channel that a request payload names, or none, or an error.
fn channel_from_payload(data: &[u8]) -> (r: Result<Option<Id>, AudioError>)
    ensures
        match payload_entries(data@) {
            None => r is Err,
            Some(es) => match requested_channel(es) {
                None => r is Err,
                Some(c) => r == Ok::<Option<Id>, AudioError>(c),
            },
        },
{
    let entries = match parse_payload(data) {
        Ok(v) => v,
        Err(e) => return Err(e),
    };
    let ghost es = payload_entries(data@)->Some_0;
    let mut channel: Option<Id> = None;
    let mut i: usize = 0;
    while i < entries.len()
        invariant
            i <= entries@.len(),
            payload_entries(data@) == Some(es),
            entries@.len() == es.len(),
            forall|j: int|
                0 <= j < es.len() ==> (#[trigger] entries@[j]).0 == es[j].0 && entries@[j].1@
                    == es[j].1,
            requested_channel(es.take(i as int)) == Some(channel),
        decreases entries@.len() - i,
    {
        let (key, body) = entries[i];
        assert(entries@[i as int].0 == es[i as int].0 && entries@[i as int].1@ == es[i as int].1);
        let ghost prefix = es.take(i + 1);
        assert(prefix.drop_last() =~= es.take(i as int));
        assert(prefix.last() == es[i as int]);
        if key == CHANNEL_ID_KEY {
            let mut reader = ByteStreamReader::new(body);
            match ChannelId::decode_body(&mut reader) {
                Ok(c) => {
                    channel = Some(c.id);
                },
                Err(e) => {
                    proof {
                        lemma_request_error_persists(es, i + 1);
                    }
                    return Err(e);
                },
            }
        }
        i = i + 1;
    }
    assert(es.take(i as int) =~= es);
    Ok(channel)
}

/// A request from a peer to start receiving a channel.
#[derive(Debug, Clone, Copy)]
pub struct ChannelRequest {
    pub peer_id: Id,
    pub channel_id: Id,
}

impl ChannelRequest {
    /// The payload of a request: the channel's `chid` entry.
    pub fn to_payload(&self) -> (v: Vec<u8>)
        ensures
            v@ == entry_bytes(CHANNEL_ID_KEY, self.channel_id.0@),
    {
        ChannelId { id: self.channel_id }.to_payload()
    }

    /// The request of `peer_id` that `data` carries: the channel of its last
    /// `chid` entry, or the zero identity if it has none.
    pub fn from_payload(peer_id: Id, data: &[u8]) -> (r: Result<Self, AudioError>)
        ensures
            match payload_entries(data@) {
                None => r is Err,
                Some(es) => match requested_channel(es) {
                    None => r is Err,
                    Some(c) => r matches Ok(req) && req.peer_id == peer_id && match c {
                        Some(id) => req.channel_id == id,
                        None => is_zero_id(req.channel_id),
                    },
                },
            },
    {
        match channel_from_payload(data) {
            Ok(Some(id)) => Ok(ChannelRequest { peer_id, channel_id: id }),
            Ok(None) => Ok(ChannelRequest { peer_id, channel_id: NodeId::default() }),
            Err(e) => Err(e),
        }
    }
}

/// A request from a peer to stop receiving a channel.
#[derive(Debug, Clone, Copy)]
pub struct ChannelStopRequest {
    pub peer_id: Id,
    pub channel_id: Id,
}

impl ChannelStopRequest {
    /// The payload of a request: the channel's `chid` entry.
    pub fn to_payload(&self) -> (v: Vec<u8>)
        ensures
            v@ == entry_bytes(CHANNEL_ID_KEY, self.channel_id.0@),
    {
        ChannelId { id: self.channel_id }.to_payload()
    }

    /// The request of `peer_id` that `data` carries, read as a start request.
    pub fn from_payload(peer_id: Id, data: &[u8]) -> (r: Result<Self, AudioError>)
        ensures
            match payload_entries(data@) {
                None => r is Err,
                Some(es) => match requested_channel(es) {
                    None => r is Err,
                    Some(c) => r matches Ok(req) && req.peer_id == peer_id && match c {
                        Some(id) => req.channel_id == id,
                        None => is_zero_id(req.channel_id),
                    },
                },
            },
    {
        match ChannelRequest::from_payload(peer_id, data) {
            Ok(request) => Ok(ChannelStopRequest { peer_id: request.peer_id, channel_id: request.channel_id }),
            Err(e) => Err(e),
        }
    }
}

// ---------------------------------------------------------------------------
// Laws
// ---------------------------------------------------------------------------

/// An entry at the front of a payload parses as its key and body, followed
/// by the entries of what comes after it.
pub proof fn lemma_payload_entries_cons(key: u32, body: Seq<u8>, rest: Seq<u8>)
    requires
        body.len() <= u32::MAX,
    ensures
        payload_entries(entry_bytes(key, body) + rest) == match payload_entries(rest) {
            Some(r) => Some(seq![(key, body)] + r),
            None => None::<Seq<(u32, Seq<u8>)>>,
        },
{
    let data = entry_bytes(key, body) + rest;
    lemma_u32_roundtrip(key, 0, 0, 0, 0);
    lemma_u32_roundtrip(body.len() as u32, 0, 0, 0, 0);
    assert(data[0] == u32_be(key)[0] && data[1] == u32_be(key)[1] && data[2] == u32_be(key)[2]
        && data[3] == u32_be(key)[3]);
    assert(data[4] == u32_be(body.len() as u32)[0] && data[5] == u32_be(body.len() as u32)[1]
        && data[6] == u32_be(body.len() as u32)[2] && data[7] == u32_be(body.len() as u32)[3]);
    assert(data.subrange(8, 8 + body.len() as int) =~= body);
    assert(data.skip(8 + body.len() as int) =~= rest);
}

/// Channel announcements written one after the other read back as the same
/// announcements.
pub proof fn lemma_announcements_roundtrip(cs: Seq<(Seq<char>, NodeId)>, rest: Seq<u8>)
    requires
        forall|i: int| 0 <= i < cs.len() ==> encode_utf8((#[trigger] cs[i]).0).len() <= u32::MAX,
    ensures
        read_elems_spec::<ChannelAnnouncement>(announcements_bytes(cs) + rest, cs.len()) == Some(
            (cs, announcements_bytes(cs).len()),
        ),
    decreases cs.len(),
{
    if cs.len() == 0 {
        assert(cs =~= Seq::<(Seq<char>, NodeId)>::empty());
    } else {
        let c = cs[0];
        let tail = cs.skip(1);
        assert forall|i: int| 0 <= i < tail.len() implies encode_utf8((#[trigger] tail[i]).0).len()
            <= u32::MAX by {
            assert(tail[i] == cs[i + 1]);
        }
        let data = announcements_bytes(cs) + rest;
        let after_name = c.1.0@ + announcements_bytes(tail) + rest;
        assert(data =~= string_bytes(c.0) + after_name);
        assert(encode_utf8(c.0).len() <= u32::MAX);
        lemma_string_roundtrip(c.0, after_name);
        assert(u32_be(encode_utf8(c.0).len() as u32) + encode_utf8(c.0) + after_name =~= data);
        let n = 4 + encode_utf8(c.0).len();
        assert(data.skip(n as int) =~= after_name);
        assert(after_name.take(8) =~= c.1.0@);
        let id = array_of::<8>(c.1.0@);
        assert(id@ == c.1.0@);
        assert(id =~= c.1.0);
        assert(data.skip((n + 8) as int) =~= announcements_bytes(tail) + rest);
        assert(data.len() > 0);
        lemma_announcements_roundtrip(tail, rest);
        assert(seq![c] + tail =~= cs);
    }
}

/// Each announcement takes at least twelve bytes.
pub proof fn lemma_announcements_bytes_len(cs: Seq<(Seq<char>, NodeId)>)
    ensures
        announcements_bytes(cs).len() >= 12 * cs.len(),
    decreases cs.len(),
{
    if cs.len() > 0 {
        lemma_announcements_bytes_len(cs.skip(1));
    }
}

/// The body of a set of channel announcements decodes to the same set.
pub proof fn lemma_channel_announcements_roundtrip(a: ChannelAnnouncements)
    requires
        a.spec_body().len() <= u32::MAX,
        forall|i: int| 0 <= i < a@.len() ==> encode_utf8((#[trigger] a@[i]).0).len() <= u32::MAX,
    ensures
        ChannelAnnouncements::spec_decode_body(a.spec_body()) == Some(a@),
{
    let cs = a@;
    let b = a.spec_body();
    assert(a.channels@.len() == cs.len());
    lemma_announcements_bytes_len(cs);
    assert(cs.len() <= u32::MAX);
    lemma_u32_roundtrip(cs.len() as u32, 0, 0, 0, 0);
    let w = u32_be(cs.len() as u32);
    assert(b[0] == w[0] && b[1] == w[1] && b[2] == w[2] && b[3] == w[3]);
    assert(b.skip(4) =~= announcements_bytes(cs) + Seq::<u8>::empty());
    lemma_announcements_roundtrip(cs, Seq::<u8>::empty());
}

/// The body of a peer info decodes to the same name.
pub proof fn lemma_peer_info_roundtrip(p: PeerInfo)
    requires
        encode_utf8(p@).len() <= u32::MAX,
    ensures
        PeerInfo::spec_decode_body(p.spec_body()) == Some(p@),
{
    lemma_string_roundtrip(p@, Seq::<u8>::empty());
    assert(p.spec_body() + Seq::<u8>::empty() =~= p.spec_body());
}

/// An identifier's bytes decode to the same identifier.
pub proof fn lemma_id_roundtrip(id: NodeId, rest: Seq<u8>)
    ensures
        read_id_spec(id.0@ + rest) == Some((id, 8nat)),
{
    assert((id.0@ + rest).take(8) =~= id.0@);
    let c = array_of::<8>(id.0@);
    assert(c@ == id.0@);
    assert(c =~= id.0);
}

/// A peer announcement read back from its own payload is the same
/// announcement, provided its entries fit the wire format's `u32` sizes.
#[verifier::spinoff_prover]
#[verifier::rlimit(40)]
pub proof fn lemma_peer_announcement_roundtrip(a: PeerAnnouncement)
    requires
        a.fits(),
        forall|i: int| 0 <= i < a.channels@.len() ==> encode_utf8((#[trigger] a.channels@[i]).0).len()
            <= u32::MAX,
    ensures
        payload_entries(announcement_payload(a.session_id.0, a.peer_info@, a.channels@)) matches Some(
            es,
        ) && announcement_parts(es) == Some((Some(a.session_id.0), a.peer_info@, a.channels@)),
{
    let sb = a.session_id.0.0@;
    let pb = a.peer_info.spec_body();
    let cb = a.channels.spec_body();
    let e1 = entry_bytes(SESSION_MEMBERSHIP_KEY, sb);
    let e2 = entry_bytes(PEER_INFO_KEY, pb);
    let e3 = entry_bytes(CHANNEL_ANNOUNCEMENTS_KEY, cb);
    let empty = Seq::<u8>::empty();
    assert(announcement_payload(a.session_id.0, a.peer_info@, a.channels@) =~= e1 + (e2 + (e3
        + empty)));
    assert(payload_entries(empty) == Some(Seq::<(u32, Seq<u8>)>::empty()));
    lemma_payload_entries_cons(CHANNEL_ANNOUNCEMENTS_KEY, cb, empty);
    lemma_payload_entries_cons(PEER_INFO_KEY, pb, e3 + empty);
    lemma_payload_entries_cons(SESSION_MEMBERSHIP_KEY, sb, e2 + (e3 + empty));
    let es = seq![(SESSION_MEMBERSHIP_KEY, sb), (PEER_INFO_KEY, pb), (CHANNEL_ANNOUNCEMENTS_KEY, cb)];
    assert(payload_entries(e1 + (e2 + (e3 + empty))) == Some(es)) by {
        assert(seq![(SESSION_MEMBERSHIP_KEY, sb)] + (seq![(PEER_INFO_KEY, pb)] + (seq![
            (CHANNEL_ANNOUNCEMENTS_KEY, cb),
        ] + Seq::<(u32, Seq<u8>)>::empty())) =~= es);
    }
    lemma_id_roundtrip(a.session_id.0, empty);
    assert(sb + empty =~= sb);
    lemma_peer_info_roundtrip(a.peer_info);
    lemma_channel_announcements_roundtrip(a.channels);
    let es1 = es.drop_last().drop_last();
    let es2 = es.drop_last();
    assert(es1.drop_last() =~= Seq::<(u32, Seq<u8>)>::empty());
    assert(es1.last() == (SESSION_MEMBERSHIP_KEY, sb));
    assert(es2.drop_last() == es1);
    assert(es2.last() == (PEER_INFO_KEY, pb));
    assert(es.last() == (CHANNEL_ANNOUNCEMENTS_KEY, cb));
    assert(announcement_parts(es1.drop_last()) == Some(
        (None::<NodeId>, Seq::<char>::empty(), Seq::<(Seq<char>, NodeId)>::empty()),
    ));
    assert(announcement_parts(es1) == Some(
        (Some(a.session_id.0), Seq::<char>::empty(), Seq::<(Seq<char>, NodeId)>::empty()),
    ));
    assert(announcement_parts(es2) == Some(
        (Some(a.session_id.0), a.peer_info@, Seq::<(Seq<char>, NodeId)>::empty()),
    ));
}

/// A channel request read back from its own payload names the same channel.
pub proof fn lemma_channel_request_roundtrip(channel_id: NodeId)
    ensures
        payload_entries(entry_bytes(CHANNEL_ID_KEY, channel_id.0@)) matches Some(es)
            && requested_channel(es) == Some(Some(channel_id)),
{
    let empty = Seq::<u8>::empty();
    let b = channel_id.0@;
    assert(entry_bytes(CHANNEL_ID_KEY, b) =~= entry_bytes(CHANNEL_ID_KEY, b) + empty);
    assert(payload_entries(empty) == Some(Seq::<(u32, Seq<u8>)>::empty()));
    lemma_payload_entries_cons(CHANNEL_ID_KEY, b, empty);
    let es = seq![(CHANNEL_ID_KEY, b)];
    assert(seq![(CHANNEL_ID_KEY, b)] + Seq::<(u32, Seq<u8>)>::empty() =~= es);
    lemma_id_roundtrip(channel_id, empty);
    assert(b + empty =~= b);
    assert(es.drop_last() =~= Seq::<(u32, Seq<u8>)>::empty());
    assert(requested_channel(es.drop_last()) == Some(None::<NodeId>));
    assert(payload_entries(entry_bytes(CHANNEL_ID_KEY, b)) == Some(es));
}

/// Goodbyes written one after the other read back as the same identities.
pub proof fn lemma_ids_roundtrip(ids: Seq<NodeId>, rest: Seq<u8>)
    ensures
        read_elems_spec::<ChannelBye>(ids_bytes(ids) + rest, ids.len()) == Some((ids, ids_bytes(ids).len())),
    decreases ids.len(),
{
    if ids.len() == 0 {
        assert(ids =~= Seq::<NodeId>::empty());
    } else {
        let tail = ids.skip(1);
        let data = ids_bytes(ids) + rest;
        lemma_id_roundtrip(ids[0], ids_bytes(tail) + rest);
        assert(data =~= ids[0].0@ + (ids_bytes(tail) + rest));
        assert(data.skip(8) =~= ids_bytes(tail) + rest);
        assert(data.len() > 0);
        lemma_ids_roundtrip(tail, rest);
        assert(seq![ids[0]] + tail =~= ids);
    }
}

/// The body of a set of goodbyes decodes to the same identities.
pub proof fn lemma_channel_byes_roundtrip(b: ChannelByes)
    requires
        b@.len() <= u32::MAX,
    ensures
        ChannelByes::spec_decode_body(b.spec_body()) == Some(b@),
{
    let ids = b@;
    let body = b.spec_body();
    assert(b.byes@.len() == ids.len());
    lemma_u32_roundtrip(ids.len() as u32, 0, 0, 0, 0);
    let w = u32_be(ids.len() as u32);
    assert(body[0] == w[0] && body[1] == w[1] && body[2] == w[2] && body[3] == w[3]);
    assert(body.skip(4) =~= ids_bytes(ids) + Seq::<u8>::empty());
    lemma_ids_roundtrip(ids, Seq::<u8>::empty());
}

/// A chunk's bytes read back as the same chunk.
proof fn lemma_chunk_roundtrip(c: Chunk, rest: Seq<u8>)
    ensures
        Chunk::spec_read(chunk_bytes(c) + rest) == Some((c, 26nat)),
{
    let b = chunk_bytes(c) + rest;
    lemma_u64_roundtrip(c.count, seq![]);
    lemma_u16_roundtrip(c.num_frames, 0, 0);
    lemma_i64_roundtrip(c.begin_beats.value, seq![]);
    lemma_i64_roundtrip(c.micros_per_beat, seq![]);
    assert(b.take(8) =~= u64_be(c.count));
    assert(b[8] == u16_be(c.num_frames)[0] && b[9] == u16_be(c.num_frames)[1]);
    assert(b.subrange(10, 18) =~= i64_be(c.begin_beats.value));
    assert(b.subrange(18, 26) =~= i64_be(c.micros_per_beat));
}

/// Chunks written one after the other read back as the same chunks.
proof fn lemma_chunks_roundtrip(cs: Seq<Chunk>, rest: Seq<u8>)
    ensures
        read_elems_spec::<Chunk>(chunks_bytes(cs) + rest, cs.len()) == Some((cs, chunks_bytes(cs).len())),
    decreases cs.len(),
{
    if cs.len() == 0 {
        assert(cs =~= Seq::<Chunk>::empty());
    } else {
        let tail = cs.skip(1);
        let data = chunks_bytes(cs) + rest;
        lemma_chunk_roundtrip(cs[0], chunks_bytes(tail) + rest);
        assert(data =~= chunk_bytes(cs[0]) + (chunks_bytes(tail) + rest));
        assert(data.skip(26) =~= chunks_bytes(tail) + rest);
        assert(data.len() > 0);
        lemma_chunks_roundtrip(tail, rest);
        assert(seq![cs[0]] + tail =~= cs);
    }
}

/// The bytes after the chunks of an audio buffer read back as its codec,
/// sample rate, number of channels and audio bytes.
proof fn lemma_audio_tail(codec: Codec, sample_rate: u32, num_channels: u8, bytes: Seq<u8>)
    requires
        bytes.len() <= u16::MAX,
    ensures
        ({
            let r1 = seq![codec_number(codec)] + u32_be(sample_rate) + seq![num_channels] + u16_be(
                bytes.len() as u16,
            ) + bytes;
            let r2 = r1.skip(1);
            &&& r1.len() >= 1
            &&& codec_of(r1[0]) == codec
            &&& r2.len() >= 7
            &&& u32_of_be(r2[0], r2[1], r2[2], r2[3]) == sample_rate
            &&& r2[4] == num_channels
            &&& crate::bytes::u16_of_be(r2[5], r2[6]) as int == bytes.len()
            &&& r2.len() - 7 == bytes.len()
            &&& r2.subrange(7, 7 + bytes.len() as int) == bytes
        }),
{
    let r1 = seq![codec_number(codec)] + u32_be(sample_rate) + seq![num_channels] + u16_be(
        bytes.len() as u16,
    ) + bytes;
    let r2 = r1.skip(1);
    lemma_u32_roundtrip(sample_rate, 0, 0, 0, 0);
    lemma_u16_roundtrip(bytes.len() as u16, 0, 0);
    assert(r2 =~= u32_be(sample_rate) + seq![num_channels] + u16_be(bytes.len() as u16) + bytes);
    assert(r2.subrange(7, 7 + bytes.len() as int) =~= bytes);
}

/// The bytes of an audio buffer up to its codec read back as its
/// identities and chunks.
proof fn lemma_audio_head(a: AudioBuffer, after_chunks: Seq<u8>)
    requires
        a.chunks@.len() <= u32::MAX,
    ensures
        ({
            let b = a.channel_id.0@ + a.session_id.0@ + u32_be(a.chunks@.len() as u32) + chunks_bytes(
                a.chunks@,
            ) + after_chunks;
            &&& b.len() >= 16
            &&& read_id_spec(b)->Some_0.0 == a.channel_id
            &&& read_id_spec(b.skip(8))->Some_0.0 == a.session_id
            &&& read_vec_spec::<Chunk>(b.skip(16)) == Some((a.chunks@, (chunks_bytes(a.chunks@).len() + 4) as nat))
            &&& b.skip(16).skip((chunks_bytes(a.chunks@).len() + 4) as int) == after_chunks
        }),
{
    let cs = a.chunks@;
    let b = a.channel_id.0@ + a.session_id.0@ + u32_be(cs.len() as u32) + chunks_bytes(cs) + after_chunks;
    lemma_id_roundtrip(a.channel_id, b.skip(8));
    assert(b =~= a.channel_id.0@ + b.skip(8));
    lemma_id_roundtrip(a.session_id, b.skip(16));
    assert(b.skip(8) =~= a.session_id.0@ + b.skip(16));
    let v = b.skip(16);
    assert(v =~= u32_be(cs.len() as u32) + (chunks_bytes(cs) + after_chunks));
    lemma_u32_roundtrip(cs.len() as u32, 0, 0, 0, 0);
    let w = u32_be(cs.len() as u32);
    assert(v[0] == w[0] && v[1] == w[1] && v[2] == w[2] && v[3] == w[3]);
    assert(v.skip(4) =~= chunks_bytes(cs) + after_chunks);
    lemma_chunks_roundtrip(cs, after_chunks);
    assert(v.skip((chunks_bytes(cs).len() + 4) as int) =~= after_chunks);
}

/// An audio buffer whose audio bytes match its frames reads back from its
/// own body as the same buffer.
pub proof fn lemma_audio_buffer_roundtrip(a: AudioBuffer)
    requires
        a.chunks@.len() > 0,
        a.chunks@.len() <= u32::MAX,
        a.codec == Codec::PcmI16,
        a.bytes@.len() <= u16::MAX,
        a.bytes@.len() == frames_sum(a.chunks@) * a.num_channels * 2,
    ensures
        audio_buffer_decode(a.spec_body()) == Ok::<AudioBufferView, BodyError>(a@),
{
    let after_chunks = seq![codec_number(a.codec)] + u32_be(a.sample_rate) + seq![a.num_channels]
        + u16_be(a.bytes@.len() as u16) + a.bytes@;
    assert(a.spec_body() =~= a.channel_id.0@ + a.session_id.0@ + u32_be(a.chunks@.len() as u32)
        + chunks_bytes(a.chunks@) + after_chunks);
    lemma_audio_head(a, after_chunks);
    lemma_audio_tail(a.codec, a.sample_rate, a.num_channels, a.bytes@);
}

} // verus!
