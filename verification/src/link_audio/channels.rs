//! The registry of audio channels discovered in a Link session.
//!
//! Channels are learned from peer announcements, tracked per gateway, expire
//! after their time to live, and are removed when the announcing peer leaves
//! the session or says goodbye. Times are microseconds on the caller's
//! monotonic clock; a gateway is an IPv4 address as its big-endian number.
use vstd::prelude::*;

use crate::link::measurement::Ipv4Endpoint;
use crate::link::node::NodeId;
use crate::link::sessions::SessionId;
use crate::seqs::{
    first_index, lemma_filter_step, lemma_first_index_at, lemma_first_index_prefix,
    lemma_first_index_push, lemma_first_index_spec, lemma_first_index_step,
    lemma_first_index_update_other, lemma_first_index_update_same,
};

use super::payload::Id;

verus! {

/// How long past its expiry an entry is kept, in microseconds.
pub const PRUNE_PADDING_MICROS: u64 = 1_000_000;

/// Microseconds in a second.
pub const MICROS_PER_SECOND: u64 = 1_000_000;

// ---------------------------------------------------------------------------
// Channels
// ---------------------------------------------------------------------------

/// What a channel is, as plain values.
pub struct ChannelView {
    pub id: NodeId,
    pub name: Seq<char>,
    pub peer_id: NodeId,
    pub peer_name: Seq<char>,
    pub session_id: SessionId,
}

/// An audio channel available in the Link session.
#[derive(Debug)]
pub struct Channel {
    pub id: Id,
    pub name: String,
    pub peer_id: Id,
    pub peer_name: String,
    pub session_id: SessionId,
}

impl View for Channel {
    type V = ChannelView;

    open spec fn view(&self) -> ChannelView {
        ChannelView {
            id: self.id,
            name: self.name@,
            peer_id: self.peer_id,
            peer_name: self.peer_name@,
            session_id: self.session_id,
        }
    }
}

impl Channel {
    /// Whether two channels agree in every field.
    pub fn same_as(&self, other: &Channel) -> (r: bool)
        ensures
            r == (self@ == other@),
    {
        self.id == other.id && self.name == other.name && self.peer_id == other.peer_id
            && self.peer_name == other.peer_name && self.session_id == other.session_id
    }
}

impl Clone for Channel {
    fn clone(&self) -> (c: Self)
        ensures
            c@ == self@,
    {
        Channel {
            id: self.id,
            name: self.name.clone(),
            peer_id: self.peer_id,
            peer_name: self.peer_name.clone(),
            session_id: self.session_id,
        }
    }
}

impl PartialEq for Channel {
    fn eq(&self, other: &Self) -> (r: bool) {
        self.same_as(other)
    }
}

impl vstd::std_specs::cmp::PartialEqSpecImpl for Channel {
    open spec fn obeys_eq_spec() -> bool {
        true
    }

    open spec fn eq_spec(&self, other: &Channel) -> bool {
        self@ == other@
    }
}

/// A single channel as announced by a peer.
#[derive(Debug)]
pub struct AnnouncedChannel {
    pub id: Id,
    pub name: String,
}

impl View for AnnouncedChannel {
    type V = (NodeId, Seq<char>);

    open spec fn view(&self) -> (NodeId, Seq<char>) {
        (self.id, self.name@)
    }
}

impl Clone for AnnouncedChannel {
    fn clone(&self) -> (c: Self)
        ensures
            c@ == self@,
    {
        AnnouncedChannel { id: self.id, name: self.name.clone() }
    }
}

// ---------------------------------------------------------------------------
// The registry
// ---------------------------------------------------------------------------

/// What the registry knows of one channel learned on one gateway.
pub struct InfoView {
    pub channel: ChannelView,
    pub gateway: u32,
    pub expires_at: u64,
}

#[derive(Debug)]
struct ChannelInfo {
    channel: Channel,
    gateway_addr: u32,
    expires_at: u64,
}

impl View for ChannelInfo {
    type V = InfoView;

    closed spec fn view(&self) -> InfoView {
        InfoView { channel: self.channel@, gateway: self.gateway_addr, expires_at: self.expires_at }
    }
}

impl ChannelInfo {
    fn duplicate(&self) -> (c: ChannelInfo)
        ensures
            c@ == self@,
    {
        ChannelInfo {
            channel: self.channel.clone(),
            gateway_addr: self.gateway_addr,
            expires_at: self.expires_at,
        }
    }
}

/// Where to send to a peer, and how good the link there was: an integer that
/// orders as the measured network quality does.
#[derive(Debug, Clone, Copy, PartialEq, Eq, Structural)]
pub struct PeerSendHandler {
    pub endpoint: Ipv4Endpoint,
    pub quality_rank: u64,
}

#[derive(Debug, Clone, Copy)]
struct HandlerEntry {
    peer_id: NodeId,
    handler: PeerSendHandler,
}

/// The handler of each peer: of its entries, the last one counts.
spec fn handler_map(s: Seq<HandlerEntry>) -> Map<NodeId, PeerSendHandler>
    decreases s.len(),
{
    if s.len() == 0 {
        Map::empty()
    } else {
        handler_map(s.drop_last()).insert(s.last().peer_id, s.last().handler)
    }
}

spec fn entry_keeps(p: spec_fn(NodeId) -> bool) -> spec_fn(HandlerEntry) -> bool {
    |e: HandlerEntry| p(e.peer_id)
}

/// Dropping the entries of the peers that `p` rejects drops their handlers.
proof fn lemma_handler_map_filter(s: Seq<HandlerEntry>, p: spec_fn(NodeId) -> bool)
    ensures
        handler_map(s.filter(entry_keeps(p))) == handler_map(s).restrict(Set::new(p)),
    decreases s.len(),
{
    reveal(Seq::filter);
    if s.len() == 0 {
        assert(handler_map(s).restrict(Set::new(p)) =~= Map::empty());
    } else {
        let d = s.drop_last();
        let l = s.last();
        lemma_handler_map_filter(d, p);
        let fd = d.filter(entry_keeps(p));
        if p(l.peer_id) {
            assert(s.filter(entry_keeps(p)) == fd.push(l));
            assert(fd.push(l).drop_last() =~= fd);
            assert(handler_map(s.filter(entry_keeps(p))) =~= handler_map(s).restrict(Set::new(p)));
        } else {
            assert(s.filter(entry_keeps(p)) == fd);
            assert(handler_map(s.filter(entry_keeps(p))) =~= handler_map(s).restrict(Set::new(p)));
        }
    }
}

/// Entries after index `i` that belong to other peers do not change what
/// the map says of `k`.
proof fn lemma_handler_map_suffix(s: Seq<HandlerEntry>, k: NodeId, i: int)
    requires
        0 <= i <= s.len(),
        forall|j: int| i <= j < s.len() ==> (#[trigger] s[j]).peer_id != k,
    ensures
        handler_map(s).dom().contains(k) == handler_map(s.take(i)).dom().contains(k),
        handler_map(s).dom().contains(k) ==> handler_map(s)[k] == handler_map(s.take(i))[k],
    decreases s.len() - i,
{
    if i < s.len() {
        let d = s.drop_last();
        assert forall|j: int| i <= j < d.len() implies (#[trigger] d[j]).peer_id != k by {
            assert(d[j] == s[j]);
        }
        lemma_handler_map_suffix(d, k, i);
        assert(d.take(i) =~= s.take(i));
    } else {
        assert(s.take(i) =~= s);
    }
}

/// The endpoint of `peer` in a handler map, if it has one.
pub open spec fn endpoint_of(m: Map<NodeId, PeerSendHandler>, peer: NodeId) -> Option<Ipv4Endpoint> {
    if m.dom().contains(peer) {
        Some(m[peer].endpoint)
    } else {
        None
    }
}

/// Whether `e` is the entry of channel `id` learned on `gateway`.
pub open spec fn is_entry_for(e: InfoView, id: NodeId, gateway: u32) -> bool {
    e.channel.id == id && e.gateway == gateway
}

pub open spec fn entry_for(id: NodeId, gateway: u32) -> spec_fn(InfoView) -> bool {
    |e: InfoView| is_entry_for(e, id, gateway)
}

pub open spec fn entry_of_channel(id: NodeId) -> spec_fn(InfoView) -> bool {
    |e: InfoView| e.channel.id == id
}

/// One announced channel applied to the entries `s`: the first entry of the
/// channel on the gateway takes its new value and expiry, or a new entry is
/// added; and whether the visible channel changed.
pub open spec fn announce_step(s: Seq<InfoView>, c: ChannelView, gateway: u32, expires_at: u64) -> (
    Seq<InfoView>,
    bool,
) {
    let fresh = InfoView { channel: c, gateway, expires_at };
    match first_index(s, entry_for(c.id, gateway)) {
        Some(i) => (s.update(i, fresh), s[i].channel != c),
        None => (s.push(fresh), true),
    }
}

/// The announced channels `cs` applied in order, and whether any of them
/// changed what is visible.
pub open spec fn announce_all(s: Seq<InfoView>, cs: Seq<ChannelView>, gateway: u32, expires_at: u64) -> (
    Seq<InfoView>,
    bool,
)
    decreases cs.len(),
{
    if cs.len() == 0 {
        (s, false)
    } else {
        let (s1, changed1) = announce_all(s, cs.drop_last(), gateway, expires_at);
        let (s2, changed2) = announce_step(s1, cs.last(), gateway, expires_at);
        (s2, changed1 || changed2)
    }
}

/// The channels that an announcement by `peer_id` describes.
pub open spec fn announced_views(
    announced: Seq<AnnouncedChannel>,
    peer_id: NodeId,
    peer_name: Seq<char>,
    session_id: SessionId,
) -> Seq<ChannelView> {
    announced.map_values(
        |a: AnnouncedChannel| ChannelView { id: a.id, name: a.name@, peer_id, peer_name, session_id },
    )
}

/// Whether some channel in `d` has identity `id`.
pub open spec fn has_id(d: Seq<ChannelView>, id: NodeId) -> bool {
    exists|j: int| 0 <= j < d.len() && (#[trigger] d[j]).id == id
}

/// The channels of the entries `s`, of the session `session` if one is
/// given, each identity once, in the order it was first learned.
pub open spec fn listed(s: Seq<InfoView>, session: Option<SessionId>) -> Seq<ChannelView>
    decreases s.len(),
{
    if s.len() == 0 {
        seq![]
    } else {
        let d = listed(s.drop_last(), session);
        let c = s.last().channel;
        let in_session = match session {
            Some(sid) => c.session_id == sid,
            None => true,
        };
        if in_session && !has_id(d, c.id) {
            d.push(c)
        } else {
            d
        }
    }
}

/// The peers that some entry of `s` belongs to.
pub open spec fn peers_of(s: Seq<InfoView>) -> Set<NodeId> {
    Set::new(|k: NodeId| exists|i: int| 0 <= i < s.len() && (#[trigger] s[i]).channel.peer_id == k)
}

/// Which entries a removal keeps.
enum Keep<'a> {
    NotSaidBye(u32, &'a [Id]),
    NotOnGateway(u32),
    OfPeers(&'a [Id]),
    NotExpired(u64),
}

/// Whether entry `e` is gone after its peer said goodbye to the channels
/// `byes` on `gateway`.
pub open spec fn said_bye(e: InfoView, gateway: u32, byes: Seq<NodeId>) -> bool {
    e.gateway == gateway && byes.contains(e.channel.id)
}

/// Whether entry `e` is still fresh at time `now`.
pub open spec fn is_fresh(e: InfoView, now: u64) -> bool {
    e.expires_at + PRUNE_PADDING_MICROS > now
}

impl<'a> Keep<'a> {
    spec fn pred(&self) -> spec_fn(InfoView) -> bool {
        match *self {
            Keep::NotSaidBye(gateway, byes) => |e: InfoView| !said_bye(e, gateway, byes@),
            Keep::NotOnGateway(gateway) => |e: InfoView| e.gateway != gateway,
            Keep::OfPeers(peers) => |e: InfoView| peers@.contains(e.channel.peer_id),
            Keep::NotExpired(now) => |e: InfoView| is_fresh(e, now),
        }
    }

    fn keeps(&self, info: &ChannelInfo) -> (r: bool)
        ensures
            r == (self.pred())(info@),
    {
        match self {
            Keep::NotSaidBye(gateway, byes) => !(info.gateway_addr == *gateway && contains_id(
                byes,
                &info.channel.id,
            )),
            Keep::NotOnGateway(gateway) => info.gateway_addr != *gateway,
            Keep::OfPeers(peers) => contains_id(peers, &info.channel.peer_id),
            Keep::NotExpired(now) => info.expires_at > *now || *now - info.expires_at
                < PRUNE_PADDING_MICROS,
        }
    }
}

/// Whether `id` occurs in `ids`.
pub(crate) fn contains_id(ids: &[Id], id: &Id) -> (r: bool)
    ensures
        r == ids@.contains(*id),
{
    let mut i: usize = 0;
    while i < ids.len()
        invariant
            i <= ids@.len(),
            forall|j: int| 0 <= j < i ==> ids@[j] != *id,
        decreases ids.len() - i,
    {
        if ids[i] == *id {
            return true;
        }
        i = i + 1;
    }
    false
}

/// Everything known about the audio channels of the current session.
#[derive(Debug)]
pub struct Channels {
    channels: Vec<ChannelInfo>,
    handlers: Vec<HandlerEntry>,
}

impl Channels {
    /// The entries, in the order they were learned.
    pub closed spec fn entries(&self) -> Seq<InfoView> {
        self.channels@.map_values(|c: ChannelInfo| c@)
    }

    /// The send handler of each peer.
    pub closed spec fn handlers(&self) -> Map<NodeId, PeerSendHandler> {
        handler_map(self.handlers@)
    }

    pub fn new() -> (c: Self)
        ensures
            c.entries() == Seq::<InfoView>::empty(),
            c.handlers() == Map::<NodeId, PeerSendHandler>::empty(),
    {
        let c = Channels { channels: Vec::new(), handlers: Vec::new() };
        assert(c.entries() =~= Seq::<InfoView>::empty());
        c
    }

    /// The first entry of channel `id` on `gateway`.
    fn find_entry(&self, id: &Id, gateway: u32) -> (r: Option<usize>)
        ensures
            match r {
                Some(i) => i < self.entries().len() && first_index(self.entries(), entry_for(*id, gateway))
                    == Some(i as int),
                None => first_index(self.entries(), entry_for(*id, gateway)) is None,
            },
    {
        let ghost s = self.entries();
        let ghost p = entry_for(*id, gateway);
        let mut i: usize = 0;
        while i < self.channels.len()
            invariant
                i <= self.channels@.len(),
                s == self.entries(),
                p == entry_for(*id, gateway),
                first_index(s.take(i as int), p) is None,
            decreases self.channels.len() - i,
        {
            proof {
                lemma_first_index_step(s, p, i as int);
            }
            if self.channels[i].channel.id == *id && self.channels[i].gateway_addr == gateway {
                proof {
                    lemma_first_index_prefix(s, p, i + 1);
                }
                return Some(i);
            }
            i = i + 1;
        }
        proof {
            assert(s.take(s.len() as int) =~= s);
        }
        None
    }

    /// The send handler of `peer`.
    fn find_handler(&self, peer: &Id) -> (r: Option<PeerSendHandler>)
        ensures
            match r {
                Some(h) => self.handlers().dom().contains(*peer) && self.handlers()[*peer] == h,
                None => !self.handlers().dom().contains(*peer),
            },
    {
        let ghost s = self.handlers@;
        let mut i: usize = self.handlers.len();
        while i > 0
            invariant
                i <= s.len(),
                s == self.handlers@,
                forall|j: int| i <= j < s.len() ==> (#[trigger] s[j]).peer_id != *peer,
            decreases i,
        {
            if self.handlers[i - 1].peer_id == *peer {
                proof {
                    lemma_handler_map_suffix(s, *peer, i as int);
                    assert(s.take(i as int).drop_last() =~= s.take(i - 1));
                }
                return Some(self.handlers[i - 1].handler);
            }
            i = i - 1;
        }
        proof {
            lemma_handler_map_suffix(s, *peer, 0);
        }
        None
    }

    /// Keeps the handlers of the peers that `p` accepts, where `p` is
    /// membership in `peers` or any peer but `except`.
    fn retain_handlers(&mut self, peers: Option<&[Id]>, except: &Id)
        ensures
            final(self).channels@ == old(self).channels@,
            final(self).handlers() == old(self).handlers().restrict(
                Set::new(
                    |k: NodeId|
                        match peers {
                            Some(ps) => ps@.contains(k),
                            None => k != *except,
                        },
                ),
            ),
    {
        let ghost p = |k: NodeId|
            match peers {
                Some(ps) => ps@.contains(k),
                None => k != *except,
            };
        let ghost s = self.handlers@;
        let mut out: Vec<HandlerEntry> = Vec::new();
        let mut i: usize = 0;
        while i < self.handlers.len()
            invariant
                i <= s.len(),
                s == self.handlers@,
                self.channels@ == old(self).channels@,
                s == old(self).handlers@,
                p == (|k: NodeId|
                    match peers {
                        Some(ps) => ps@.contains(k),
                        None => k != *except,
                    }),
                out@ == s.take(i as int).filter(entry_keeps(p)),
            decreases self.handlers.len() - i,
        {
            let e = self.handlers[i];
            let keep = match peers {
                Some(ps) => contains_id(ps, &e.peer_id),
                None => !(e.peer_id == *except),
            };
            proof {
                lemma_filter_step(s, entry_keeps(p), i as int);
            }
            if keep {
                out.push(e);
            }
            i = i + 1;
        }
        proof {
            assert(s.take(s.len() as int) =~= s);
            lemma_handler_map_filter(s, p);
        }
        self.handlers = out;
    }

    /// Sets the send handler of `peer`.
    fn set_handler(&mut self, peer: Id, handler: PeerSendHandler)
        ensures
            final(self).channels@ == old(self).channels@,
            final(self).handlers() == old(self).handlers().insert(peer, handler),
    {
        self.retain_handlers(None, &peer);
        let ghost mid = self.handlers@;
        assert(forall|k: NodeId| #[trigger] handler_map(mid).dom().contains(k) <==> (old(
            self,
        ).handlers().dom().contains(k) && k != peer));
        self.handlers.push(HandlerEntry { peer_id: peer, handler });
        proof {
            assert(self.handlers@.drop_last() =~= mid);
            assert(handler_map(self.handlers@) =~= old(self).handlers().insert(peer, handler));
        }
    }
    /// Keeps the entries that `rule` keeps, in order.
    fn retain_entries(&mut self, rule: &Keep) -> (changed: bool)
        ensures
            final(self).handlers@ == old(self).handlers@,
            final(self).entries() == old(self).entries().filter(rule.pred()),
            changed == (final(self).entries().len() != old(self).entries().len()),
    {
        let ghost s = self.entries();
        let mut out: Vec<ChannelInfo> = Vec::new();
        let mut i: usize = 0;
        while i < self.channels.len()
            invariant
                i <= s.len(),
                s == self.entries(),
                s == old(self).entries(),
                self.channels@.len() == s.len(),
                self.handlers@ == old(self).handlers@,
                out@.map_values(|c: ChannelInfo| c@) == s.take(i as int).filter(rule.pred()),
            decreases self.channels.len() - i,
        {
            proof {
                lemma_filter_step(s, rule.pred(), i as int);
            }
            let ghost before = out@;
            if rule.keeps(&self.channels[i]) {
                out.push(self.channels[i].duplicate());
                proof {
                    assert(out@.map_values(|c: ChannelInfo| c@) =~= before.map_values(
                        |c: ChannelInfo| c@,
                    ).push(s[i as int]));
                }
            }
            i = i + 1;
        }
        proof {
            assert(s.take(s.len() as int) =~= s);
        }
        let changed = out.len() != self.channels.len();
        self.channels = out;
        changed
    }

    /// Keeps the send handlers of the peers that some entry belongs to.
    fn prune_send_handlers(&mut self)
        ensures
            final(self).channels@ == old(self).channels@,
            final(self).handlers() == old(self).handlers().restrict(peers_of(old(self).entries())),
    {
        let ghost s = self.entries();
        let mut peers: Vec<Id> = Vec::new();
        let mut i: usize = 0;
        while i < self.channels.len()
            invariant
                i <= s.len(),
                s == self.entries(),
                self.channels@.len() == s.len(),
                peers@.len() == i,
                forall|j: int| 0 <= j < i ==> peers@[j] == (#[trigger] s[j]).channel.peer_id,
            decreases self.channels.len() - i,
        {
            peers.push(self.channels[i].channel.peer_id);
            i = i + 1;
        }
        self.retain_handlers(Some(peers.as_slice()), &NodeId::default());
        proof {
            assert(Set::new(
                |k: NodeId|
                    match Some(peers@) {
                        Some(ps) => ps.contains(k),
                        None => false,
                    },
            ) =~= peers_of(s)) by {
                assert forall|k: NodeId| peers@.contains(k) <==> peers_of(s).contains(k) by {
                    if peers@.contains(k) {
                        let j = choose|j: int| 0 <= j < peers@.len() && peers@[j] == k;
                        assert(s[j].channel.peer_id == k);
                    }
                    if peers_of(s).contains(k) {
                        let j = choose|j: int| 0 <= j < s.len() && (#[trigger] s[j]).channel.peer_id == k;
                        assert(peers@[j] == k);
                    }
                }
            }
            assert(self.handlers() =~= old(self).handlers().restrict(peers_of(s)));
        }
    }

    /// Records the channels announced by `peer_id` on a gateway, received
    /// from `from` at time `now` with a time to live of `ttl` seconds.
    /// Returns whether the visible set of channels changed: whether some
    /// announced channel was new on the gateway or differed, in any field,
    /// from what was known of it. The peer is
    /// reached through `from` unless a gateway of at least the same quality
    /// is already known.
    pub fn saw_announcement(
        &mut self,
        peer_id: Id,
        peer_name: &str,
        session_id: SessionId,
        announced: &[AnnouncedChannel],
        gateway_addr: u32,
        from: Ipv4Endpoint,
        quality_rank: u64,
        ttl: u8,
        now: u64,
    ) -> (changed: bool)
        requires
            now + ttl * MICROS_PER_SECOND <= u64::MAX,
        ensures
            (final(self).entries(), changed) == announce_all(
                old(self).entries(),
                announced_views(announced@, peer_id, peer_name@, session_id),
                gateway_addr,
                (now + ttl * MICROS_PER_SECOND) as u64,
            ),
            changed <==> exists|k: int|
                0 <= k < announced@.len() && !shown_as(
                    old(self).entries(),
                    #[trigger] announced_views(announced@, peer_id, peer_name@, session_id)[k],
                    gateway_addr,
                ),
            final(self).handlers() == if old(self).handlers().dom().contains(peer_id) && old(
                self,
            ).handlers()[peer_id].quality_rank >= quality_rank {
                old(self).handlers()
            } else {
                old(self).handlers().insert(peer_id, PeerSendHandler { endpoint: from, quality_rank })
            },
    {
        let expires_at: u64 = now + (ttl as u64) * MICROS_PER_SECOND;
        let ghost cs = announced_views(announced@, peer_id, peer_name@, session_id);
        let mut changed = false;
        let mut k: usize = 0;
        while k < announced.len()
            invariant
                k <= announced@.len(),
                cs == announced_views(announced@, peer_id, peer_name@, session_id),
                (self.entries(), changed) == announce_all(
                    old(self).entries(),
                    cs.take(k as int),
                    gateway_addr,
                    expires_at,
                ),
                self.handlers@ == old(self).handlers@,
            decreases announced.len() - k,
        {
            let ghost s = self.entries();
            let channel = Channel {
                id: announced[k].id,
                name: announced[k].name.clone(),
                peer_id,
                peer_name: peer_name.to_owned(),
                session_id,
            };
            assert(channel@ == cs[k as int]);
            let info = ChannelInfo { channel, gateway_addr, expires_at };
            match self.find_entry(&announced[k].id, gateway_addr) {
                Some(i) => {
                    if !self.channels[i].channel.same_as(&info.channel) {
                        changed = true;
                    }
                    self.channels.set(i, info);
                    proof {
                        assert(self.entries() =~= s.update(i as int, info@));
                    }
                },
                None => {
                    changed = true;
                    self.channels.push(info);
                    proof {
                        assert(self.entries() =~= s.push(info@));
                    }
                },
            }
            proof {
                assert(cs.take(k + 1).drop_last() =~= cs.take(k as int));
            }
            k = k + 1;
        }
        proof {
            assert(cs.take(cs.len() as int) =~= cs);
            lemma_announcement_changes(old(self).entries(), cs, gateway_addr, expires_at);
        }
        let keep_existing = match self.find_handler(&peer_id) {
            Some(existing) => existing.quality_rank >= quality_rank,
            None => false,
        };
        if !keep_existing {
            self.set_handler(peer_id, PeerSendHandler { endpoint: from, quality_rank });
        }
        changed
    }

    /// Removes the channels `byes` that a peer said goodbye to on a gateway.
    /// Returns whether any was known.
    pub fn channels_left(&mut self, gateway_addr: u32, byes: &[Id]) -> (changed: bool)
        ensures
            final(self).entries() == old(self).entries().filter(
                |e: InfoView| !said_bye(e, gateway_addr, byes@),
            ),
            changed == (final(self).entries().len() != old(self).entries().len()),
            final(self).handlers() == if changed {
                old(self).handlers().restrict(peers_of(final(self).entries()))
            } else {
                old(self).handlers()
            },
    {
        let rule = Keep::NotSaidBye(gateway_addr, byes);
        let changed = self.retain_entries(&rule);
        proof {
            assert(rule.pred() =~= (|e: InfoView| !said_bye(e, gateway_addr, byes@)));
        }
        if changed {
            self.prune_send_handlers();
        }
        changed
    }

    /// Removes every channel learned on a gateway that has gone away.
    pub fn gateway_closed(&mut self, gateway_addr: u32) -> (changed: bool)
        ensures
            final(self).entries() == old(self).entries().filter(
                |e: InfoView| e.gateway != gateway_addr,
            ),
            changed == (final(self).entries().len() != old(self).entries().len()),
            final(self).handlers() == if changed {
                old(self).handlers().restrict(peers_of(final(self).entries()))
            } else {
                old(self).handlers()
            },
    {
        let rule = Keep::NotOnGateway(gateway_addr);
        let changed = self.retain_entries(&rule);
        proof {
            assert(rule.pred() =~= (|e: InfoView| e.gateway != gateway_addr));
        }
        if changed {
            self.prune_send_handlers();
        }
        changed
    }

    /// Removes the channels of peers that are no longer in the session, and
    /// their send handlers.
    pub fn prune_peer_channels(&mut self, connected_peers: &[Id]) -> (changed: bool)
        ensures
            final(self).entries() == old(self).entries().filter(
                |e: InfoView| connected_peers@.contains(e.channel.peer_id),
            ),
            changed == (final(self).entries().len() != old(self).entries().len()),
            final(self).handlers() == old(self).handlers().restrict(
                Set::new(|k: NodeId| connected_peers@.contains(k)),
            ),
    {
        let rule = Keep::OfPeers(connected_peers);
        let changed = self.retain_entries(&rule);
        proof {
            assert(rule.pred() =~= (|e: InfoView| connected_peers@.contains(e.channel.peer_id)));
        }
        self.retain_handlers(Some(connected_peers), &NodeId::default());
        proof {
            assert(Set::new(
                |k: NodeId|
                    match Some(connected_peers) {
                        Some(ps) => ps@.contains(k),
                        None => false,
                    },
            ) =~= Set::new(|k: NodeId| connected_peers@.contains(k)));
        }
        changed
    }

    /// Removes the channels whose announcements have not been refreshed by
    /// time `now`.
    pub fn prune_expired(&mut self, now: u64) -> (changed: bool)
        ensures
            final(self).entries() == old(self).entries().filter(|e: InfoView| is_fresh(e, now)),
            changed == (final(self).entries().len() != old(self).entries().len()),
            final(self).handlers() == if changed {
                old(self).handlers().restrict(peers_of(final(self).entries()))
            } else {
                old(self).handlers()
            },
    {
        let rule = Keep::NotExpired(now);
        let changed = self.retain_entries(&rule);
        proof {
            assert(rule.pred() =~= (|e: InfoView| is_fresh(e, now)));
        }
        if changed {
            self.prune_send_handlers();
        }
        changed
    }

    /// Whether some channel in `result` has identity `id`.
    fn listed_has_id(result: &Vec<Channel>, id: &Id) -> (r: bool)
        ensures
            r == has_id(result@.map_values(|c: Channel| c@), *id),
    {
        let ghost d = result@.map_values(|c: Channel| c@);
        let mut j: usize = 0;
        while j < result.len()
            invariant
                j <= result@.len(),
                d == result@.map_values(|c: Channel| c@),
                forall|i: int| 0 <= i < j ==> (#[trigger] d[i]).id != *id,
            decreases result.len() - j,
        {
            if result[j].id == *id {
                assert(d[j as int].id == *id);
                return true;
            }
            j = j + 1;
        }
        false
    }

    /// The channels of the session `session`, if one is given, else of all
    /// sessions, each identity once, in the order it was first learned.
    fn list(&self, session: Option<SessionId>) -> (v: Vec<Channel>)
        ensures
            v@.map_values(|c: Channel| c@) == listed(self.entries(), session),
    {
        let ghost s = self.entries();
        let mut result: Vec<Channel> = Vec::new();
        let mut i: usize = 0;
        while i < self.channels.len()
            invariant
                i <= s.len(),
                s == self.entries(),
                self.channels@.len() == s.len(),
                result@.map_values(|c: Channel| c@) == listed(s.take(i as int), session),
            decreases self.channels.len() - i,
        {
            let info = &self.channels[i];
            let in_session = match session {
                Some(sid) => info.channel.session_id == sid,
                None => true,
            };
            proof {
                assert(s.take(i + 1).drop_last() =~= s.take(i as int));
            }
            let ghost before = result@;
            if in_session && !Self::listed_has_id(&result, &info.channel.id) {
                result.push(info.channel.clone());
                proof {
                    assert(result@.map_values(|c: Channel| c@) =~= before.map_values(
                        |c: Channel| c@,
                    ).push(s[i as int].channel));
                }
            }
            i = i + 1;
        }
        proof {
            assert(s.take(s.len() as int) =~= s);
        }
        result
    }

    /// The channels of a session, de-duplicated across gateways.
    pub fn session_channels(&self, session_id: SessionId) -> (v: Vec<Channel>)
        ensures
            v@.map_values(|c: Channel| c@) == listed(self.entries(), Some(session_id)),
    {
        self.list(Some(session_id))
    }

    /// All known channels, de-duplicated across gateways.
    pub fn all_channels(&self) -> (v: Vec<Channel>)
        ensures
            v@.map_values(|c: Channel| c@) == listed(self.entries(), None),
    {
        self.list(None)
    }

    /// The endpoint to reach a peer on.
    pub fn peer_endpoint(&self, peer_id: Id) -> (r: Option<Ipv4Endpoint>)
        ensures
            r == endpoint_of(self.handlers(), peer_id),
    {
        match self.find_handler(&peer_id) {
            Some(h) => Some(h.endpoint),
            None => None,
        }
    }

    /// The endpoint to reach the peer publishing a channel: that of the peer
    /// of the channel's first entry.
    pub fn channel_endpoint(&self, channel_id: Id) -> (r: Option<Ipv4Endpoint>)
        ensures
            r == match first_index(self.entries(), entry_of_channel(channel_id)) {
                Some(i) => endpoint_of(self.handlers(), self.entries()[i].channel.peer_id),
                None => None,
            },
    {
        let ghost s = self.entries();
        let ghost p = entry_of_channel(channel_id);
        let mut i: usize = 0;
        while i < self.channels.len()
            invariant
                i <= s.len(),
                s == self.entries(),
                self.channels@.len() == s.len(),
                p == entry_of_channel(channel_id),
                first_index(s.take(i as int), p) is None,
            decreases self.channels.len() - i,
        {
            proof {
                lemma_first_index_step(s, p, i as int);
            }
            if self.channels[i].channel.id == channel_id {
                proof {
                    lemma_first_index_prefix(s, p, i + 1);
                }
                return self.peer_endpoint(self.channels[i].channel.peer_id);
            }
            i = i + 1;
        }
        proof {
            assert(s.take(s.len() as int) =~= s);
        }
        None
    }

    /// Whether no channel is known.
    pub fn is_empty(&self) -> (r: bool)
        ensures
            r == (self.entries().len() == 0),
    {
        self.channels.len() == 0
    }
}

impl Default for Channels {
    fn default() -> (c: Self)
        ensures
            c.entries() == Seq::<InfoView>::empty(),
            c.handlers() == Map::<NodeId, PeerSendHandler>::empty(),
    {
        Channels::new()
    }
}

// ---------------------------------------------------------------------------
// Laws
// ---------------------------------------------------------------------------

/// No two channels of `cs` share an identity.
pub open spec fn distinct_ids(cs: Seq<ChannelView>) -> bool {
    forall|a: int, b: int| 0 <= a < b < cs.len() ==> (#[trigger] cs[a]).id != (#[trigger] cs[b]).id
}

/// Whether the first entry of channel `c` on `gateway` in `s` is `c` itself,
/// with expiry `expires_at`.
pub open spec fn recorded(s: Seq<InfoView>, c: ChannelView, gateway: u32, expires_at: u64) -> bool {
    match first_index(s, entry_for(c.id, gateway)) {
        Some(i) => 0 <= i < s.len() && s[i] == InfoView { channel: c, gateway, expires_at },
        None => false,
    }
}

/// Whether the first entry of channel `c` on `gateway` in `s` shows `c`.
pub open spec fn shown(s: Seq<InfoView>, c: ChannelView, gateway: u32) -> bool {
    match first_index(s, entry_for(c.id, gateway)) {
        Some(i) => 0 <= i < s.len() && s[i].channel == c,
        None => false,
    }
}

/// One announced channel leaves the first entries of the other channels
/// where and what they were.
proof fn lemma_step_keeps_others(s: Seq<InfoView>, c: ChannelView, gateway: u32, expires_at: u64, d: ChannelView)
    requires
        d.id != c.id,
    ensures
        announce_step(s, c, gateway, expires_at).0.len() >= s.len(),
        first_index(announce_step(s, c, gateway, expires_at).0, entry_for(d.id, gateway))
            == first_index(s, entry_for(d.id, gateway)),
        match first_index(s, entry_for(d.id, gateway)) {
            Some(k) => 0 <= k < s.len() ==> announce_step(s, c, gateway, expires_at).0[k] == s[k],
            None => true,
        },
{
    let fresh = InfoView { channel: c, gateway, expires_at };
    let pc = entry_for(c.id, gateway);
    let pd = entry_for(d.id, gateway);
    lemma_first_index_spec(s, pc);
    lemma_first_index_spec(s, pd);
    match first_index(s, pc) {
        Some(i) => {
            lemma_first_index_update_other(s, pd, i, fresh);
        },
        None => {
            lemma_first_index_push(s, pd, fresh);
        },
    }
}

/// One announced channel is recorded by its own step.
proof fn lemma_step_records(s: Seq<InfoView>, c: ChannelView, gateway: u32, expires_at: u64)
    ensures
        recorded(announce_step(s, c, gateway, expires_at).0, c, gateway, expires_at),
{
    let fresh = InfoView { channel: c, gateway, expires_at };
    let pc = entry_for(c.id, gateway);
    lemma_first_index_spec(s, pc);
    match first_index(s, pc) {
        Some(i) => {
            lemma_first_index_update_same(s, pc, i, fresh);
        },
        None => {
            lemma_first_index_push(s, pc, fresh);
        },
    }
}

/// After an announcement of channels with distinct identities, the first
/// entry of each of them on the gateway is that channel, with the new expiry.
pub proof fn lemma_announce_records(s: Seq<InfoView>, cs: Seq<ChannelView>, gateway: u32, expires_at: u64)
    requires
        distinct_ids(cs),
    ensures
        forall|j: int|
            0 <= j < cs.len() ==> recorded(
                announce_all(s, cs, gateway, expires_at).0,
                #[trigger] cs[j],
                gateway,
                expires_at,
            ),
    decreases cs.len(),
{
    if cs.len() > 0 {
        let d = cs.drop_last();
        assert forall|a: int, b: int| 0 <= a < b < d.len() implies (#[trigger] d[a]).id != (
        #[trigger] d[b]).id by {
            assert(d[a] == cs[a] && d[b] == cs[b]);
        }
        lemma_announce_records(s, d, gateway, expires_at);
        let s1 = announce_all(s, d, gateway, expires_at).0;
        let c = cs.last();
        lemma_step_records(s1, c, gateway, expires_at);
        assert forall|j: int| 0 <= j < cs.len() implies recorded(
            announce_all(s, cs, gateway, expires_at).0,
            #[trigger] cs[j],
            gateway,
            expires_at,
        ) by {
            assert(announce_all(s, cs, gateway, expires_at).0 == announce_step(s1, c, gateway, expires_at).0);
            if j < cs.len() - 1 {
                assert(d[j] == cs[j]);
                assert(recorded(s1, d[j], gateway, expires_at));
                assert(cs[j].id != c.id);
                lemma_step_keeps_others(s1, c, gateway, expires_at, cs[j]);
            }
        }
    }
}

/// Announcing, over entries that already show each of the channels `cs`,
/// reports no change and keeps showing them.
proof fn lemma_announce_shown(t: Seq<InfoView>, cs: Seq<ChannelView>, gateway: u32, expires_at: u64, n: int)
    requires
        distinct_ids(cs),
        0 <= n <= cs.len(),
        forall|j: int| 0 <= j < cs.len() ==> shown(t, #[trigger] cs[j], gateway),
    ensures
        !announce_all(t, cs.take(n), gateway, expires_at).1,
        forall|j: int|
            0 <= j < cs.len() ==> shown(
                announce_all(t, cs.take(n), gateway, expires_at).0,
                #[trigger] cs[j],
                gateway,
            ),
    decreases n,
{
    if n > 0 {
        lemma_announce_shown(t, cs, gateway, expires_at, n - 1);
        assert(cs.take(n).drop_last() =~= cs.take(n - 1));
        let s1 = announce_all(t, cs.take(n - 1), gateway, expires_at).0;
        let c = cs[n - 1];
        assert(shown(s1, c, gateway));
        lemma_step_records(s1, c, gateway, expires_at);
        assert forall|j: int| 0 <= j < cs.len() implies shown(
            announce_all(t, cs.take(n), gateway, expires_at).0,
            #[trigger] cs[j],
            gateway,
        ) by {
            if j != n - 1 {
                assert(cs[j].id != c.id);
                assert(shown(s1, cs[j], gateway));
                lemma_step_keeps_others(s1, c, gateway, expires_at, cs[j]);
            }
        }
    }
}

/// Announcing the same channels, with distinct identities, again on the same
/// gateway reports no change, whatever the new expiry.
pub proof fn lemma_reannounce_is_no_change(
    s: Seq<InfoView>,
    cs: Seq<ChannelView>,
    gateway: u32,
    first_expiry: u64,
    second_expiry: u64,
)
    requires
        distinct_ids(cs),
    ensures
        !announce_all(announce_all(s, cs, gateway, first_expiry).0, cs, gateway, second_expiry).1,
{
    let t = announce_all(s, cs, gateway, first_expiry).0;
    lemma_announce_records(s, cs, gateway, first_expiry);
    assert forall|j: int| 0 <= j < cs.len() implies shown(t, #[trigger] cs[j], gateway) by {
        assert(recorded(t, cs[j], gateway, first_expiry));
    }
    lemma_announce_shown(t, cs, gateway, second_expiry, cs.len() as int);
    assert(cs.take(cs.len() as int) =~= cs);
}

/// No two entries of `s` hold the same channel on the same gateway.
pub open spec fn no_duplicate_entries(s: Seq<InfoView>) -> bool {
    forall|a: int, b: int|
        0 <= a < b < s.len() ==> !is_entry_for(#[trigger] s[b], (#[trigger] s[a]).channel.id, s[a].gateway)
}

/// An announcement never makes a second entry for a channel on a gateway.
pub proof fn lemma_announce_keeps_entries_unique(
    s: Seq<InfoView>,
    cs: Seq<ChannelView>,
    gateway: u32,
    expires_at: u64,
)
    requires
        no_duplicate_entries(s),
    ensures
        no_duplicate_entries(announce_all(s, cs, gateway, expires_at).0),
    decreases cs.len(),
{
    if cs.len() > 0 {
        lemma_announce_keeps_entries_unique(s, cs.drop_last(), gateway, expires_at);
        let s1 = announce_all(s, cs.drop_last(), gateway, expires_at).0;
        let c = cs.last();
        let fresh = InfoView { channel: c, gateway, expires_at };
        let t = announce_step(s1, c, gateway, expires_at).0;
        lemma_first_index_spec(s1, entry_for(c.id, gateway));
        match first_index(s1, entry_for(c.id, gateway)) {
            Some(i) => {
                assert forall|a: int, b: int| 0 <= a < b < t.len() implies !is_entry_for(
                    #[trigger] t[b],
                    (#[trigger] t[a]).channel.id,
                    t[a].gateway,
                ) by {
                    assert(!is_entry_for(s1[b], s1[a].channel.id, s1[a].gateway));
                }
            },
            None => {
                assert forall|a: int, b: int| 0 <= a < b < t.len() implies !is_entry_for(
                    #[trigger] t[b],
                    (#[trigger] t[a]).channel.id,
                    t[a].gateway,
                ) by {
                    if b < s1.len() {
                        assert(!is_entry_for(s1[b], s1[a].channel.id, s1[a].gateway));
                    } else {
                        assert(!(entry_for(c.id, gateway))(s1[a]));
                    }
                }
            },
        }
    }
}

/// Removing entries never makes a second entry for a channel on a gateway.
pub proof fn lemma_removal_keeps_entries_unique(s: Seq<InfoView>, p: spec_fn(InfoView) -> bool)
    requires
        no_duplicate_entries(s),
    ensures
        no_duplicate_entries(s.filter(p)),
    decreases s.len(),
{
    reveal(Seq::filter);
    if s.len() > 0 {
        let d = s.drop_last();
        let l = s.last();
        assert forall|a: int, b: int| 0 <= a < b < d.len() implies !is_entry_for(
            #[trigger] d[b],
            (#[trigger] d[a]).channel.id,
            d[a].gateway,
        ) by {
            assert(d[a] == s[a] && d[b] == s[b]);
        }
        lemma_removal_keeps_entries_unique(d, p);
        let fd = d.filter(p);
        if p(l) {
            let t = fd.push(l);
            assert(s.filter(p) == t);
            assert forall|a: int, b: int| 0 <= a < b < t.len() implies !is_entry_for(
                #[trigger] t[b],
                (#[trigger] t[a]).channel.id,
                t[a].gateway,
            ) by {
                if b == t.len() - 1 {
                    let x = fd[a];
                    assert(fd.contains(x));
                    d.lemma_filter_contains_rev(p, x);
                    let k = choose|k: int| 0 <= k < d.len() && d[k] == x;
                    assert(s[k] == x);
                    assert(s[s.len() - 1] == l);
                    assert(!is_entry_for(s[s.len() - 1], s[k].channel.id, s[k].gateway));
                } else {
                    assert(t[a] == fd[a] && t[b] == fd[b]);
                }
            }
        }
    }
}

/// A removal keeps only the entries that its rule accepts, so the same
/// removal made again removes nothing (and reports no change).
pub proof fn lemma_removal_is_idempotent(s: Seq<InfoView>, p: spec_fn(InfoView) -> bool)
    ensures
        forall|i: int| 0 <= i < s.filter(p).len() ==> p(#[trigger] s.filter(p)[i]),
        s.filter(p).filter(p) == s.filter(p),
    decreases s.len(),
{
    broadcast use vstd::seq_lib::group_filter_ensures;

    reveal(Seq::filter);
    if s.len() > 0 {
        let d = s.drop_last();
        lemma_removal_is_idempotent(d, p);
        let fd = d.filter(p);
        if p(s.last()) {
            assert(fd.push(s.last()).drop_last() =~= fd);
        }
    }
}

/// Whether the entries `s` already show the channel `c` on `gateway`
/// exactly as announced: the first entry of `c`'s identity on that gateway
/// agrees with `c` in every field (name, peer, peer name and session).
pub open spec fn shown_as(s: Seq<InfoView>, c: ChannelView, gateway: u32) -> bool {
    exists|i: int|
        0 <= i < s.len() && is_entry_for(#[trigger] s[i], c.id, gateway) && (forall|j: int|
            0 <= j < i ==> !is_entry_for(#[trigger] s[j], c.id, gateway)) && s[i].channel == c
}

/// Entries that agree position by position in channel and gateway show the
/// same channels.
proof fn lemma_shown_as_agree(s: Seq<InfoView>, t: Seq<InfoView>, c: ChannelView, gateway: u32)
    requires
        s.len() == t.len(),
        forall|i: int| 0 <= i < s.len() ==> (#[trigger] s[i]).channel == t[i].channel && s[i].gateway == t[i].gateway,
    ensures
        shown_as(s, c, gateway) == shown_as(t, c, gateway),
{
    if shown_as(s, c, gateway) {
        let i = choose|i: int|
            0 <= i < s.len() && is_entry_for(#[trigger] s[i], c.id, gateway) && (forall|j: int|
                0 <= j < i ==> !is_entry_for(#[trigger] s[j], c.id, gateway)) && s[i].channel == c;
        assert forall|j: int| 0 <= j < i implies !is_entry_for(#[trigger] t[j], c.id, gateway) by {
            assert(!is_entry_for(s[j], c.id, gateway));
        }
        assert(is_entry_for(t[i], c.id, gateway));
    }
    if shown_as(t, c, gateway) {
        let i = choose|i: int|
            0 <= i < t.len() && is_entry_for(#[trigger] t[i], c.id, gateway) && (forall|j: int|
                0 <= j < i ==> !is_entry_for(#[trigger] t[j], c.id, gateway)) && t[i].channel == c;
        assert forall|j: int| 0 <= j < i implies !is_entry_for(#[trigger] s[j], c.id, gateway) by {
            assert(!is_entry_for(t[j], c.id, gateway));
        }
        assert(is_entry_for(s[i], c.id, gateway));
    }
}

/// One announced channel changes what is visible exactly when the entries
/// did not show it as announced; when they did, the entries keep every
/// channel and gateway.
proof fn lemma_announce_step_changed(s: Seq<InfoView>, c: ChannelView, gateway: u32, expires_at: u64)
    ensures
        announce_step(s, c, gateway, expires_at).1 == !shown_as(s, c, gateway),
        shown_as(s, c, gateway) ==> ({
            let t = announce_step(s, c, gateway, expires_at).0;
            &&& t.len() == s.len()
            &&& forall|i: int| 0 <= i < s.len() ==> (#[trigger] t[i]).channel == s[i].channel && t[i].gateway == s[i].gateway
        }),
{
    let p = entry_for(c.id, gateway);
    lemma_first_index_spec(s, p);
    match first_index(s, p) {
        Some(k) => {
            if shown_as(s, c, gateway) {
                let i = choose|i: int|
                    0 <= i < s.len() && is_entry_for(#[trigger] s[i], c.id, gateway) && (forall|j: int|
                        0 <= j < i ==> !is_entry_for(#[trigger] s[j], c.id, gateway)) && s[i].channel == c;
                if i < k {
                    assert(p(s[i]));
                } else if k < i {
                    assert(p(s[k]));
                    assert(!is_entry_for(s[k], c.id, gateway));
                }
            } else {
                if s[k].channel == c {
                    assert forall|j: int| 0 <= j < k implies !is_entry_for(#[trigger] s[j], c.id, gateway) by {
                        assert(!p(s[j]));
                    }
                    assert(is_entry_for(s[k], c.id, gateway));
                }
            }
        },
        None => {
            if shown_as(s, c, gateway) {
                let i = choose|i: int|
                    0 <= i < s.len() && is_entry_for(#[trigger] s[i], c.id, gateway) && (forall|j: int|
                        0 <= j < i ==> !is_entry_for(#[trigger] s[j], c.id, gateway)) && s[i].channel == c;
                assert(!p(s[i]));
            }
        },
    }
}

/// An announcement changes the visible channels exactly when some channel
/// it announces is not shown as announced by the entries it arrives at:
/// new on the gateway, or differing in any field. When none differs, the
/// entries keep every channel and gateway.
pub proof fn lemma_announcement_changes(s: Seq<InfoView>, cs: Seq<ChannelView>, gateway: u32, expires_at: u64)
    ensures
        announce_all(s, cs, gateway, expires_at).1 <==> exists|k: int|
            0 <= k < cs.len() && !shown_as(s, #[trigger] cs[k], gateway),
        (forall|k: int| 0 <= k < cs.len() ==> shown_as(s, #[trigger] cs[k], gateway)) ==> ({
            let t = announce_all(s, cs, gateway, expires_at).0;
            &&& t.len() == s.len()
            &&& forall|i: int| 0 <= i < s.len() ==> (#[trigger] t[i]).channel == s[i].channel && t[i].gateway == s[i].gateway
        }),
    decreases cs.len(),
{
    if cs.len() > 0 {
        let d = cs.drop_last();
        lemma_announcement_changes(s, d, gateway, expires_at);
        let (s1, ch1) = announce_all(s, d, gateway, expires_at);
        let c = cs.last();
        lemma_announce_step_changed(s1, c, gateway, expires_at);
        if forall|k: int| 0 <= k < d.len() ==> shown_as(s, #[trigger] d[k], gateway) {
            lemma_shown_as_agree(s1, s, c, gateway);
            assert(!ch1) by {
                if ch1 {
                    let k = choose|k: int| 0 <= k < d.len() && !shown_as(s, #[trigger] d[k], gateway);
                }
            }
            if exists|k: int| 0 <= k < cs.len() && !shown_as(s, #[trigger] cs[k], gateway) {
                let k = choose|k: int| 0 <= k < cs.len() && !shown_as(s, #[trigger] cs[k], gateway);
                if k < d.len() {
                    assert(d[k] == cs[k]);
                }
            }
            if !shown_as(s, c, gateway) {
                assert(!shown_as(s, cs[cs.len() - 1], gateway));
            }
        } else {
            let k = choose|k: int| 0 <= k < d.len() && !shown_as(s, #[trigger] d[k], gateway);
            assert(cs[k] == d[k]);
            assert(!shown_as(s, cs[k], gateway));
        }
    }
}

} // verus!
