//! What the discovery messenger decides: what to do with a datagram it
//! receives, when to broadcast, and which interfaces to listen on.
use vstd::prelude::*;

use crate::bytes::u16_of_be;
use crate::encoding::{array_of, skip_bytes, Decode, DecodeError};
use crate::link::measurement::Ipv4Endpoint;
use crate::link::node::{describes, NodeId, NodeState};
use crate::link::payload::{payload_decode, PayloadEntry};
use crate::seqs::lemma_filter_step;

use super::messages::{
    has_message_headers, is_payload, parse_message_header, parse_payload, MessageHeader,
    SessionGroupId, ALIVE, BYEBYE, RESPONSE,
};

verus! {

/// A peer's state as a discovery message carries it.
#[derive(Debug, Clone, Copy)]
pub struct PeerStateMessageType {
    pub node_state: NodeState,
    pub ttl: u8,
    pub measurement_endpoint: Option<Ipv4Endpoint>,
}

/// What to do with a received datagram.
#[derive(Debug, Clone, Copy)]
pub enum DatagramAction {
    /// Nothing: it is this node's own message, Link is disabled, or the
    /// message type is unknown.
    Ignore,
    /// Take in a peer's state; answer with a response first if `respond`.
    PeerState { respond: bool, message: PeerStateMessageType },
    /// A peer said goodbye.
    ByeBye(NodeId),
}

/// The message header of a datagram that has both headers.
pub open spec fn datagram_header(data: Seq<u8>) -> MessageHeader {
    MessageHeader {
        message_type: data[8],
        ttl: data[9],
        group_id: u16_of_be(data[10], data[11]),
        ident: NodeId(array_of::<8>(data.subrange(12, 20))),
    }
}

/// The first present measurement endpoint among `es`.
pub open spec fn first_measurement_endpoint(es: Seq<PayloadEntry>) -> Option<Ipv4Endpoint>
    decreases es.len(),
{
    if es.len() == 0 {
        None
    } else {
        match es[0] {
            PayloadEntry::MeasurementEndpointV4(m) => match m.endpoint {
                Some(e) => Some(e),
                None => first_measurement_endpoint(es.skip(1)),
            },
            _ => first_measurement_endpoint(es.skip(1)),
        }
    }
}

/// Whether the datagram `data` carries a peer state that is read: an alive
/// or a response message from another node while Link is enabled.
pub open spec fn carries_peer_state(data: Seq<u8>, own_ident: NodeId, group_id: SessionGroupId, enabled: bool) -> bool {
    let h = datagram_header(data);
    &&& !(h.ident == own_ident && h.group_id == group_id)
    &&& (h.message_type == ALIVE || h.message_type == RESPONSE)
    &&& enabled
}

/// Whether the datagram `data`, received by the node `own_ident` of session
/// group `group_id` with Link enabled or not, carries a peer state that is
/// read, so that its payload must decode.
pub fn reads_peer_state(data: &[u8], own_ident: NodeId, group_id: SessionGroupId, enabled: bool) -> (r: bool)
    requires
        has_message_headers(data@),
    ensures
        r == carries_peer_state(data@, own_ident, group_id, enabled),
{
    let header = match parse_message_header(data) {
        Ok((h, _)) => h,
        Err(_) => return false,
    };
    proof {
        assert(data@.subrange(8, 20).subrange(4, 12) =~= data@.subrange(12, 20));
        assert(header == datagram_header(data@));
    }
    !(header.ident == own_ident && header.group_id == group_id) && (header.message_type == ALIVE
        || header.message_type == RESPONSE) && enabled
}

/// The first present measurement endpoint among the entries of a payload.
fn find_measurement_endpoint(entries: &Vec<PayloadEntry>) -> (r: Option<Ipv4Endpoint>)
    ensures
        r == first_measurement_endpoint(entries@),
{
    let mut i: usize = 0;
    assert(entries@.skip(0) =~= entries@);
    while i < entries.len()
        invariant
            i <= entries@.len(),
            first_measurement_endpoint(entries@) == first_measurement_endpoint(entries@.skip(i as int)),
        decreases entries.len() - i,
    {
        proof {
            assert(entries@.skip(i as int)[0] == entries@[i as int]);
            assert(entries@.skip(i as int).skip(1) =~= entries@.skip(i + 1));
        }
        match entries[i] {
            PayloadEntry::MeasurementEndpointV4(m) => match m.endpoint {
                Some(e) => {
                    return Some(e);
                },
                None => {},
            },
            _ => {},
        }
        i = i + 1;
    }
    assert(entries@.skip(i as int) =~= Seq::<PayloadEntry>::empty());
    None
}

/// What to do with the datagram `data`, received by the node `own_ident` of
/// session group `group_id`, with Link enabled or not. A node's own
/// messages are ignored; alive and response messages are read only while
/// Link is enabled, and an alive message is answered; a goodbye is always
/// taken in.
pub fn on_datagram(data: &[u8], own_ident: NodeId, group_id: SessionGroupId, enabled: bool) -> (a: DatagramAction)
    requires
        has_message_headers(data@),
        carries_peer_state(data@, own_ident, group_id, enabled) ==> is_payload(data@.skip(20)),
    ensures
        ({
            let h = datagram_header(data@);
            let es = payload_decode(data@.skip(20)).0;
            if h.ident == own_ident && h.group_id == group_id {
                a is Ignore
            } else if h.message_type == ALIVE || h.message_type == RESPONSE {
                if enabled {
                    a matches DatagramAction::PeerState { respond, message } && respond == (
                    h.message_type == ALIVE) && message.ttl == h.ttl && describes(
                        message.node_state,
                        h.ident,
                        es,
                    ) && message.measurement_endpoint == first_measurement_endpoint(es)
                } else {
                    a is Ignore
                }
            } else if h.message_type == BYEBYE {
                a == DatagramAction::ByeBye(h.ident)
            } else {
                a is Ignore
            }
        }),
{
    let (header, header_len) = match parse_message_header(data) {
        Ok(h) => h,
        Err(_) => return DatagramAction::Ignore,
    };
    proof {
        assert(data@.subrange(8, 20).subrange(4, 12) =~= data@.subrange(12, 20));
        assert(header == datagram_header(data@));
    }
    if header.ident == own_ident && header.group_id == group_id {
        return DatagramAction::Ignore;
    }
    if header.message_type == ALIVE || header.message_type == RESPONSE {
        if !enabled {
            return DatagramAction::Ignore;
        }
        let body = skip_bytes(data, header_len);
        let payload = match parse_payload(body) {
            Ok(p) => p,
            Err(_) => return DatagramAction::Ignore,
        };
        let measurement_endpoint = find_measurement_endpoint(&payload.entries);
        let node_state = NodeState::from_payload(header.ident, &payload);
        DatagramAction::PeerState {
            respond: header.message_type == ALIVE,
            message: PeerStateMessageType { node_state, ttl: header.ttl, measurement_endpoint },
        }
    } else if header.message_type == BYEBYE {
        DatagramAction::ByeBye(header.ident)
    } else {
        DatagramAction::Ignore
    }
}

// ---------------------------------------------------------------------------
// Broadcasting
// ---------------------------------------------------------------------------

/// Broadcasts are at least this many milliseconds apart.
pub const MIN_BROADCAST_PERIOD_MILLIS: u64 = 50;

/// The pause before the next broadcast, in milliseconds, and whether to
/// broadcast now, given the ttl, how many broadcasts a ttl should hold, and
/// the milliseconds since the last broadcast. Within the minimum period of
/// the last broadcast the loop waits out the rest of it; otherwise it
/// broadcasts now and then waits the nominal period, `ttl / ttl_ratio`
/// seconds.
pub fn broadcast_timing(ttl: u8, ttl_ratio: u8, since_last_broadcast: u64) -> (r: (u64, bool))
    requires
        ttl_ratio > 0,
    ensures
        since_last_broadcast > MIN_BROADCAST_PERIOD_MILLIS ==> r == ((ttl as int * 1000 / ttl_ratio as int) as u64, true),
        since_last_broadcast < MIN_BROADCAST_PERIOD_MILLIS ==> r == ((MIN_BROADCAST_PERIOD_MILLIS - since_last_broadcast) as u64, false),
        since_last_broadcast == MIN_BROADCAST_PERIOD_MILLIS ==> r == ((ttl as int * 1000 / ttl_ratio as int) as u64, true),
{
    let nominal = ttl as u64 * 1000 / ttl_ratio as u64;
    let delay = if since_last_broadcast > MIN_BROADCAST_PERIOD_MILLIS {
        0
    } else {
        MIN_BROADCAST_PERIOD_MILLIS - since_last_broadcast
    };
    let sleep = if delay > 0 {
        delay
    } else {
        nominal
    };
    (sleep, delay < 1)
}

// ---------------------------------------------------------------------------
// Interfaces
// ---------------------------------------------------------------------------

/// A network interface that discovery runs on: its IPv4 address (as the
/// big-endian number of its four bytes) and its index.
#[derive(Clone, Copy, Debug, PartialEq, Eq, Structural)]
pub struct Ipv4Interface {
    pub addr: u32,
    pub index: u32,
}

/// How the interfaces of the host changed since the last scan.
#[derive(Debug)]
pub struct InterfaceChanges {
    /// Known interfaces that are gone, in the order known.
    pub stale: Vec<Ipv4Interface>,
    /// Current interfaces not known before, in the order found.
    pub added: Vec<Ipv4Interface>,
    /// Whether the set of gateways changed: something went or came.
    pub changed: bool,
}

/// The elements of `s` that `t` does not hold.
pub open spec fn missing_from(s: Seq<Ipv4Interface>, t: Seq<Ipv4Interface>) -> Seq<Ipv4Interface> {
    s.filter(|x: Ipv4Interface| !t.contains(x))
}

/// Whether `s` holds `x`.
fn holds(s: &[Ipv4Interface], x: Ipv4Interface) -> (r: bool)
    ensures
        r == s@.contains(x),
{
    let mut i: usize = 0;
    while i < s.len()
        invariant
            i <= s@.len(),
            forall|j: int| 0 <= j < i ==> s@[j] != x,
        decreases s@.len() - i,
    {
        if s[i] == x {
            assert(s@[i as int] == x);
            return true;
        }
        i = i + 1;
    }
    false
}

/// The elements of `s` that `t` does not hold, in order.
fn not_in(s: &[Ipv4Interface], t: &[Ipv4Interface]) -> (v: Vec<Ipv4Interface>)
    ensures
        v@ == missing_from(s@, t@),
{
    let ghost keep = |x: Ipv4Interface| !t@.contains(x);
    let mut v: Vec<Ipv4Interface> = Vec::new();
    let mut i: usize = 0;
    while i < s.len()
        invariant
            i <= s@.len(),
            keep == (|x: Ipv4Interface| !t@.contains(x)),
            v@ == s@.take(i as int).filter(keep),
        decreases s@.len() - i,
    {
        proof {
            lemma_filter_step(s@, keep, i as int);
        }
        if !holds(t, s[i]) {
            v.push(s[i]);
        }
        i = i + 1;
    }
    assert(s@.take(i as int) =~= s@);
    v
}

/// How the interfaces changed from those `known` to those found now
/// (`current`): the known ones that are gone, the current ones that are
/// new, and whether either list is non-empty.
pub fn interface_changes(known: &[Ipv4Interface], current: &[Ipv4Interface]) -> (c: InterfaceChanges)
    ensures
        c.stale@ == missing_from(known@, current@),
        c.added@ == missing_from(current@, known@),
        c.changed == (c.stale@.len() > 0 || c.added@.len() > 0),
{
    let stale = not_in(known, current);
    let added = not_in(current, known);
    let changed = stale.len() > 0 || added.len() > 0;
    InterfaceChanges { stale, added, changed }
}

/// After a scan, dropping the stale interfaces from those known and adding
/// the new ones leaves exactly the interfaces found now.
pub proof fn lemma_changes_reach_current(known: Seq<Ipv4Interface>, current: Seq<Ipv4Interface>)
    ensures
        forall|x: Ipv4Interface|
            ((known.contains(x) && !missing_from(known, current).contains(x)) || missing_from(
                current,
                known,
            ).contains(x)) <==> current.contains(x),
{
    broadcast use vstd::seq_lib::group_filter_ensures;

    let keep_stale = |x: Ipv4Interface| !current.contains(x);
    let keep_new = |x: Ipv4Interface| !known.contains(x);
    assert forall|x: Ipv4Interface|
        ((known.contains(x) && !missing_from(known, current).contains(x)) || missing_from(
            current,
            known,
        ).contains(x)) <==> current.contains(x) by {
        if missing_from(known, current).contains(x) {
            known.lemma_filter_contains_rev(keep_stale, x);
            let i = choose|i: int| 0 <= i < known.filter(keep_stale).len() && known.filter(keep_stale)[i] == x;
            known.lemma_filter_pred(keep_stale, i);
        }
        if missing_from(current, known).contains(x) {
            current.lemma_filter_contains_rev(keep_new, x);
            let i = choose|i: int| 0 <= i < current.filter(keep_new).len() && current.filter(keep_new)[i] == x;
            current.lemma_filter_pred(keep_new, i);
        }
        if known.contains(x) && !current.contains(x) {
            let i = choose|i: int| 0 <= i < known.len() && known[i] == x;
            known.lemma_filter_contains(keep_stale, i);
        }
        if current.contains(x) && !known.contains(x) {
            let i = choose|i: int| 0 <= i < current.len() && current[i] == x;
            current.lemma_filter_contains(keep_new, i);
        }
    }
}

/// Whether `a` is preferred to `b` as the interface to answer through for a
/// datagram sent to `destination`: one whose address is the destination
/// comes first, then the lower address.
pub open spec fn preferred(a: Ipv4Interface, b: Ipv4Interface, destination: Option<u32>) -> bool {
    let a_off = destination != Some(a.addr);
    let b_off = destination != Some(b.addr);
    (!a_off && b_off) || (a_off == b_off && a.addr <= b.addr)
}

/// Whether `(x, cancelled)` is a live registration of the interface with
/// index `index`.
pub open spec fn serves(entry: (Ipv4Interface, bool), index: u64) -> bool {
    entry.0.index as u64 == index && !entry.1
}

/// The interface to answer a datagram through that came in on the interface
/// with index `index`, addressed to `destination` (`None` when it is not an
/// IPv4 address): among the registered interfaces (each with whether it was
/// cancelled) of that index that are live, the one whose address is the
/// destination, or else the one with the lowest address. `None` when no
/// live interface has that index.
pub fn ingress_interface(
    registered: &[(Ipv4Interface, bool)],
    index: u64,
    destination: Option<u32>,
) -> (r: Option<Ipv4Interface>)
    ensures
        r is None <==> forall|j: int| 0 <= j < registered@.len() ==> !serves(#[trigger] registered@[j], index),
        r matches Some(x) ==> exists|j: int|
            0 <= j < registered@.len() && serves(#[trigger] registered@[j], index) && registered@[j].0 == x,
        r matches Some(x) ==> forall|j: int|
            0 <= j < registered@.len() && serves(#[trigger] registered@[j], index) ==> preferred(
                x,
                registered@[j].0,
                destination,
            ),
{
    let mut best: Option<Ipv4Interface> = None;
    let mut i: usize = 0;
    while i < registered.len()
        invariant
            i <= registered@.len(),
            best is None <==> forall|j: int| 0 <= j < i ==> !serves(#[trigger] registered@[j], index),
            best matches Some(x) ==> exists|j: int|
                0 <= j < i && serves(#[trigger] registered@[j], index) && registered@[j].0 == x,
            best matches Some(x) ==> forall|j: int|
                0 <= j < i && serves(#[trigger] registered@[j], index) ==> preferred(
                    x,
                    registered@[j].0,
                    destination,
                ),
        decreases registered@.len() - i,
    {
        let (candidate, cancelled) = registered[i];
        if candidate.index as u64 == index && !cancelled {
            let better = match best {
                None => true,
                Some(b) => {
                    let c_off = destination != Some(candidate.addr);
                    let b_off = destination != Some(b.addr);
                    (!c_off && b_off) || (c_off == b_off && candidate.addr < b.addr)
                },
            };
            if better {
                best = Some(candidate);
            }
        }
        i = i + 1;
    }
    best
}

} // verus!
