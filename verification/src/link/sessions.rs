//! Session identities and the `sess` payload entry.
use vstd::prelude::*;
use vstd::string::StringExecFns;

use crate::encoding::{Decode, DecodeError, Encode, Roundtrip};

use super::encoding::PayloadEntryHeader;
use super::error::Error;
use super::node::{hex_lower, NodeId};
use super::timeline::Timeline;
use crate::seqs::{first_index, lemma_filter_step, lemma_first_index_prefix, lemma_first_index_step};

verus! {

/// The `sess` key.
pub const SESSION_MEMBERSHIP_HEADER_KEY: u32 = 0x73657373;

/// Size in bytes of the body of a `sess` entry.
pub const SESSION_MEMBERSHIP_SIZE: u32 = 8;

/// The header of every `sess` entry.
pub open spec fn spec_session_membership_header() -> PayloadEntryHeader {
    PayloadEntryHeader { key: SESSION_MEMBERSHIP_HEADER_KEY, size: SESSION_MEMBERSHIP_SIZE }
}

/// The header of every `sess` entry.
#[verifier::when_used_as_spec(spec_session_membership_header)]
pub fn session_membership_header() -> (h: PayloadEntryHeader)
    ensures
        h == spec_session_membership_header(),
{
    PayloadEntryHeader { key: SESSION_MEMBERSHIP_HEADER_KEY, size: SESSION_MEMBERSHIP_SIZE }
}

/// A session is identified by the node that founded it.
#[derive(Clone, Copy, Debug, PartialOrd)]
pub struct SessionId(pub NodeId);

impl PartialEq for SessionId {
    fn eq(&self, other: &Self) -> (r: bool) {
        self.0 == other.0
    }
}

impl vstd::std_specs::cmp::PartialEqSpecImpl for SessionId {
    open spec fn obeys_eq_spec() -> bool {
        true
    }

    open spec fn eq_spec(&self, other: &SessionId) -> bool {
        *self == *other
    }
}

impl Eq for SessionId {
}

impl Default for SessionId {
    fn default() -> (id: Self)
        ensures
            id.0.0@ == seq![0u8, 0, 0, 0, 0, 0, 0, 0],
    {
        SessionId(NodeId::default())
    }
}

impl SessionId {
    /// The identity as `0x` followed by its bytes in lower-case hexadecimal.
    pub fn to_string(&self) -> (s: String)
        ensures
            s@ == seq!['0', 'x'] + hex_lower(self.0.0@),
    {
        let hex = self.0.to_string();
        let mut s = String::from_str("0x");
        proof {
            reveal_strlit("0x");
        }
        s.append(hex.as_str());
        s
    }
}

impl Encode for SessionId {
    open spec fn spec_encode(&self) -> Seq<u8> {
        self.0.spec_encode()
    }

    fn encode_to(&self, out: &mut Vec<u8>) {
        self.0.encode_to(out);
    }

    fn encoded_size(&self) -> (n: usize) {
        self.0.encoded_size()
    }
}

impl Decode for SessionId {
    open spec fn spec_decode(bytes: Seq<u8>) -> Result<(SessionId, nat), DecodeError> {
        match NodeId::spec_decode(bytes) {
            Ok((id, n)) => Ok((SessionId(id), n)),
            Err(e) => Err(e),
        }
    }

    fn decode_from(bytes: &[u8]) -> (r: Result<(SessionId, usize), DecodeError>) {
        match NodeId::decode_from(bytes) {
            Ok((id, n)) => Ok((SessionId(id), n)),
            Err(e) => Err(e),
        }
    }
}

impl Roundtrip for SessionId {
    proof fn lemma_roundtrip(v: SessionId, rest: Seq<u8>) {
        NodeId::lemma_roundtrip(v.0, rest);
    }
}

/// The `sess` payload entry: the session a node belongs to.
#[derive(Clone, Copy, Debug)]
pub struct SessionMembership {
    pub session_id: SessionId,
}

impl Default for SessionMembership {
    fn default() -> (m: Self)
        ensures
            m.session_id.0.0@ == seq![0u8, 0, 0, 0, 0, 0, 0, 0],
    {
        SessionMembership { session_id: SessionId::default() }
    }
}

impl Encode for SessionMembership {
    open spec fn spec_encode(&self) -> Seq<u8> {
        self.session_id.spec_encode()
    }

    fn encode_to(&self, out: &mut Vec<u8>) {
        self.session_id.encode_to(out);
    }

    fn encoded_size(&self) -> (n: usize) {
        self.session_id.encoded_size()
    }
}

impl Decode for SessionMembership {
    open spec fn spec_decode(bytes: Seq<u8>) -> Result<(SessionMembership, nat), DecodeError> {
        match SessionId::spec_decode(bytes) {
            Ok((id, n)) => Ok((SessionMembership { session_id: id }, n)),
            Err(e) => Err(e),
        }
    }

    fn decode_from(bytes: &[u8]) -> (r: Result<(SessionMembership, usize), DecodeError>) {
        match SessionId::decode_from(bytes) {
            Ok((id, n)) => Ok((SessionMembership { session_id: id }, n)),
            Err(e) => Err(e),
        }
    }
}

impl Roundtrip for SessionMembership {
    proof fn lemma_roundtrip(v: SessionMembership, rest: Seq<u8>) {
        SessionId::lemma_roundtrip(v.session_id, rest);
    }
}

impl From<SessionId> for SessionMembership {
    fn from(session_id: SessionId) -> (m: SessionMembership) {
        SessionMembership { session_id }
    }
}

impl vstd::std_specs::convert::FromSpecImpl<SessionId> for SessionMembership {
    open spec fn obeys_from_spec() -> bool {
        true
    }

    open spec fn from_spec(session_id: SessionId) -> SessionMembership {
        SessionMembership { session_id }
    }
}

impl SessionMembership {
    /// The `sess` entry: its header followed by the session id.
    pub fn encode(&self) -> (r: Result<Vec<u8>, Error>)
        ensures
            r matches Ok(bytes) && bytes@ == session_membership_header().spec_encode()
                + self.spec_encode(),
    {
        let mut encoded = match session_membership_header().encode() {
            Ok(v) => v,
            Err(e) => return Err(e),
        };
        self.session_id.encode_to(&mut encoded);
        Ok(encoded)
    }
}

// ---------------------------------------------------------------------------
// Choosing a session
// ---------------------------------------------------------------------------

/// Whether `a` comes before `b` in lexicographic byte order.
pub open spec fn lex_less(a: Seq<u8>, b: Seq<u8>) -> bool {
    exists|i: int| 0 <= i < a.len() && i < b.len() && a.take(i) == b.take(i) && a[i] < b[i]
}

/// Whether session `a` orders before session `b`: by their bytes.
pub open spec fn session_less(a: SessionId, b: SessionId) -> bool {
    lex_less(a.0.0@, b.0.0@)
}

/// Whether node `a` orders before node `b`: by their bytes.
pub fn node_id_less(a: &NodeId, b: &NodeId) -> (r: bool)
    ensures
        r == lex_less(a.0@, b.0@),
{
    let x = &a.0;
    let y = &b.0;
    let mut i: usize = 0;
    while i < 8
        invariant
            i <= 8,
            x@.len() == 8 && y@.len() == 8,
            x@.take(i as int) == y@.take(i as int),
            x@ == a.0@ && y@ == b.0@,
        decreases 8 - i,
    {
        if x[i] != y[i] {
            let r = x[i] < y[i];
            proof {
                if !r {
                    assert forall|j: int|
                        0 <= j < x@.len() && j < y@.len() && x@.take(j) == y@.take(j) implies !(x@[j]
                        < y@[j]) by {
                        if j < i {
                            assert(x@.take(i as int)[j] == y@.take(i as int)[j]);
                        } else if j > i {
                            assert(x@.take(j)[i as int] == y@.take(j)[i as int]);
                        }
                    }
                }
            }
            return r;
        }
        assert(x@.take(i + 1) =~= x@.take(i as int).push(x@[i as int]));
        assert(y@.take(i + 1) =~= y@.take(i as int).push(y@[i as int]));
        i = i + 1;
    }
    proof {
        assert(x@.take(8) =~= x@);
        assert(y@.take(8) =~= y@);
        assert forall|j: int| 0 <= j < x@.len() && j < y@.len() implies !(x@[j] < y@[j]) by {}
    }
    false
}

/// Whether session `a` orders before session `b`.
pub fn session_id_less(a: &SessionId, b: &SessionId) -> (r: bool)
    ensures
        r == session_less(*a, *b),
{
    node_id_less(&a.0, &b.0)
}

/// Two sessions never each order before the other.
pub proof fn lemma_session_less_asymmetric(a: SessionId, b: SessionId)
    ensures
        !(session_less(a, b) && session_less(b, a)),
{
    if session_less(a, b) && session_less(b, a) {
        let i = choose|i: int| 0 <= i < a.0.0@.len() && i < b.0.0@.len() && a.0.0@.take(i) == b.0.0@.take(i)
            && a.0.0@[i] < b.0.0@[i];
        let j = choose|j: int| 0 <= j < b.0.0@.len() && j < a.0.0@.len() && b.0.0@.take(j) == a.0.0@.take(j)
            && b.0.0@[j] < a.0.0@[j];
        if i < j {
            assert(b.0.0@.take(j)[i] == a.0.0@.take(j)[i]);
        } else if j < i {
            assert(a.0.0@.take(i)[j] == b.0.0@.take(i)[j]);
        }
    }
}

/// Two different byte strings of one length that agree on their first `k`
/// bytes: one comes before the other.
proof fn lemma_first_difference(x: Seq<u8>, y: Seq<u8>, k: int)
    requires
        0 <= k <= x.len(),
        x.len() == y.len(),
        x.take(k) == y.take(k),
        x != y,
    ensures
        lex_less(x, y) || lex_less(y, x),
    decreases x.len() - k,
{
    if k == x.len() {
        assert(x =~= x.take(k));
        assert(y =~= y.take(k));
    } else if x[k] != y[k] {
        assert(x[k] < y[k] ==> lex_less(x, y));
        assert(y[k] < x[k] ==> lex_less(y, x));
    } else {
        assert(x.take(k + 1) =~= x.take(k).push(x[k]));
        assert(y.take(k + 1) =~= y.take(k).push(y[k]));
        lemma_first_difference(x, y, k + 1);
    }
}

/// Of two different sessions, one orders before the other.
pub proof fn lemma_session_less_total(a: SessionId, b: SessionId)
    requires
        a != b,
    ensures
        session_less(a, b) || session_less(b, a),
{
    if a.0.0@ == b.0.0@ {
        assert(a.0.0 =~= b.0.0);
    }
    assert(a.0.0@.take(0) =~= b.0.0@.take(0));
    lemma_first_difference(a.0.0@, b.0.0@, 0);
}

/// How close, in microseconds, two sessions' ghost times may be and still
/// count as a tie.
pub const SESSION_EPS_MICROS: i64 = 500000;

/// Whether a measured session wins over the current one: its ghost time is
/// well ahead of ours (by `ghost_diff` microseconds), or the two are within
/// the tie margin and it orders before the current session.
pub open spec fn session_wins_spec(ghost_diff: i64, session_id: SessionId, current_id: SessionId) -> bool {
    ghost_diff > SESSION_EPS_MICROS || (-SESSION_EPS_MICROS < ghost_diff < SESSION_EPS_MICROS
        && session_less(session_id, current_id))
}

/// Whether the measured session `session_id`, whose ghost time is
/// `ghost_diff` microseconds ahead of the current session's, wins over the
/// current session `current_id`.
pub fn session_wins(ghost_diff: i64, session_id: &SessionId, current_id: &SessionId) -> (r: bool)
    requires
        ghost_diff > i64::MIN,
    ensures
        r == session_wins_spec(ghost_diff, *session_id, *current_id),
{
    ghost_diff > SESSION_EPS_MICROS || (-SESSION_EPS_MICROS < ghost_diff && ghost_diff
        < SESSION_EPS_MICROS && session_id_less(session_id, current_id))
}

/// Two peers in different sessions that measure each other never both
/// switch to the other's session; and unless their ghost times differ by
/// exactly the tie margin, exactly one of them does.
pub proof fn lemma_session_choice_agrees(ghost_diff: i64, a: SessionId, b: SessionId)
    requires
        ghost_diff > i64::MIN,
        a != b,
    ensures
        !(session_wins_spec(ghost_diff, a, b) && session_wins_spec(-ghost_diff as i64, b, a)),
        ghost_diff != SESSION_EPS_MICROS && ghost_diff != -SESSION_EPS_MICROS ==> (session_wins_spec(
            ghost_diff,
            a,
            b,
        ) || session_wins_spec(-ghost_diff as i64, b, a)),
{
    lemma_session_less_asymmetric(a, b);
    lemma_session_less_total(a, b);
}

// ---------------------------------------------------------------------------
// Sessions
// ---------------------------------------------------------------------------

/// What a session measurement found: a transform from host time to ghost
/// time, of the caller's type, and when it was taken, in microseconds.
#[derive(Clone, Copy, Debug)]
pub struct SessionMeasurement<X> {
    pub x_form: X,
    pub timestamp: i64,
}

/// A session: its identity, its timeline and how it was last measured.
#[derive(Clone, Copy, Debug)]
pub struct Session<X> {
    pub session_id: SessionId,
    pub timeline: Timeline,
    pub measurement: SessionMeasurement<X>,
}

/// `session` with its timeline replaced by `timeline` if that starts at a
/// later beat.
pub open spec fn adopt<X>(session: Session<X>, timeline: Timeline) -> Session<X> {
    if timeline.beat_origin.value > session.timeline.beat_origin.value {
        Session { session_id: session.session_id, timeline, measurement: session.measurement }
    } else {
        session
    }
}

pub open spec fn of_session<X>(id: SessionId) -> spec_fn(Session<X>) -> bool {
    |s: Session<X>| s.session_id == id
}

/// What follows a successful measurement.
#[derive(Clone, Copy, Debug)]
pub enum MeasurementOutcome<X> {
    /// Nothing changes.
    Stay,
    /// The current session was measured: join it again.
    Join(Session<X>),
    /// The measured session won: join it, and measure it again later.
    Switch(Session<X>),
}

/// The session this peer is in, and the other sessions it has seen.
#[derive(Debug)]
pub struct Sessions<X> {
    pub current: Session<X>,
    pub others: Vec<Session<X>>,
    pub has_joined: bool,
}

/// The timeline of `session` after seeing `timeline`.
pub fn update_timeline<X: Copy>(session: Session<X>, timeline: Timeline) -> (r: Session<X>)
    ensures
        r == adopt(session, timeline),
{
    if timeline.beat_origin.value > session.timeline.beat_origin.value {
        Session { session_id: session.session_id, timeline, measurement: session.measurement }
    } else {
        session
    }
}

/// A session's beat origin never moves back.
pub proof fn lemma_adopt_never_goes_back<X>(session: Session<X>, timeline: Timeline)
    ensures
        adopt(session, timeline).timeline.beat_origin.value >= session.timeline.beat_origin.value,
        adopt(session, timeline).timeline.beat_origin.value >= timeline.beat_origin.value,
        adopt(session, timeline).session_id == session.session_id,
{
}

impl<X: Copy> Sessions<X> {
    /// Sessions that start in `init`, which is also the first other session.
    pub fn new(init: Session<X>) -> (s: Self)
        ensures
            s.current == init,
            s.others@ == seq![init],
            !s.has_joined,
    {
        let mut others = Vec::new();
        others.push(init);
        Sessions { current: init, others, has_joined: false }
    }

    /// The first other session with identity `id`.
    fn find_other(&self, id: &SessionId) -> (r: Option<usize>)
        ensures
            match r {
                Some(i) => i < self.others@.len() && first_index(self.others@, of_session(*id)) == Some(
                    i as int,
                ),
                None => first_index(self.others@, of_session(*id)) is None,
            },
    {
        let ghost s = self.others@;
        let ghost p = of_session::<X>(*id);
        let mut i: usize = 0;
        while i < self.others.len()
            invariant
                i <= s.len(),
                s == self.others@,
                p == of_session::<X>(*id),
                first_index(s.take(i as int), p) is None,
            decreases self.others.len() - i,
        {
            proof {
                lemma_first_index_step(s, p, i as int);
            }
            if self.others[i].session_id == *id {
                proof {
                    lemma_first_index_prefix(s, p, i + 1);
                }
                return Some(i);
            }
            i = i + 1;
        }
        proof {
            assert(s.take(s.len() as int) =~= s);
        }
        None
    }

    /// Starts over in `session`, forgetting the other sessions.
    pub fn reset_session(&mut self, session: Session<X>)
        ensures
            final(self).current == session,
            final(self).others@ == Seq::<Session<X>>::empty(),
            final(self).has_joined == old(self).has_joined,
    {
        self.current = session;
        self.others = Vec::new();
    }

    /// Gives the first other session that is the current one `timeline`.
    pub fn reset_timeline(&mut self, timeline: Timeline)
        ensures
            final(self).current == old(self).current,
            final(self).has_joined == old(self).has_joined,
            final(self).others@ == match first_index(old(self).others@, of_session(old(self).current.session_id)) {
                Some(i) => old(self).others@.update(
                    i,
                    Session {
                        session_id: old(self).others@[i].session_id,
                        timeline,
                        measurement: old(self).others@[i].measurement,
                    },
                ),
                None => old(self).others@,
            },
    {
        let id = self.current.session_id;
        match self.find_other(&id) {
            Some(i) => {
                let s = self.others[i];
                self.others.set(
                    i,
                    Session { session_id: s.session_id, timeline, measurement: s.measurement },
                );
            },
            None => {},
        }
    }

    /// Takes in the timeline that a peer of session `session_id` reported.
    /// The current session, or a known other session, adopts it if it
    /// starts at a later beat; a session not seen before is added with the
    /// measurement `unmeasured` and returned, to be measured. Returns the
    /// current timeline as well.
    pub fn saw_session_timeline(
        &mut self,
        session_id: SessionId,
        timeline: Timeline,
        unmeasured: SessionMeasurement<X>,
    ) -> (r: (Timeline, Option<Session<X>>))
        ensures
            r.0 == final(self).current.timeline,
            old(self).current.session_id == session_id ==> {
                &&& final(self).current == adopt(old(self).current, timeline)
                &&& final(self).others@ == old(self).others@
                &&& final(self).has_joined
                &&& r.1 is None
            },
            old(self).current.session_id != session_id ==> {
                &&& final(self).current == old(self).current
                &&& final(self).has_joined == old(self).has_joined
                &&& match first_index(old(self).others@, of_session(session_id)) {
                    Some(i) => final(self).others@ == old(self).others@.update(
                        i,
                        adopt(old(self).others@[i], timeline),
                    ) && r.1 is None,
                    None => {
                        let fresh = Session { session_id, timeline, measurement: unmeasured };
                        final(self).others@ == old(self).others@.push(fresh) && r.1 == Some(fresh)
                    },
                }
            },
    {
        if self.current.session_id == session_id {
            self.current = update_timeline(self.current, timeline);
            if !self.has_joined {
                self.has_joined = true;
            }
            (self.current.timeline, None)
        } else {
            match self.find_other(&session_id) {
                Some(i) => {
                    let s = update_timeline(self.others[i], timeline);
                    self.others.set(i, s);
                    (self.current.timeline, None)
                },
                None => {
                    let fresh = Session { session_id, timeline, measurement: unmeasured };
                    self.others.push(fresh);
                    (self.current.timeline, Some(fresh))
                },
            }
        }
    }

    /// Takes in a successful measurement of session `session_id`, whose
    /// ghost time is `ghost_diff` microseconds ahead of the current
    /// session's. The current session is measured anew and joined again; a
    /// known other session takes the measurement, and becomes the current one
    /// if it wins, the previous current session taking its place among the
    /// others.
    pub fn measurement_succeeded(
        &mut self,
        session_id: SessionId,
        measurement: SessionMeasurement<X>,
        ghost_diff: i64,
    ) -> (r: MeasurementOutcome<X>)
        requires
            ghost_diff > i64::MIN,
        ensures
            final(self).has_joined == old(self).has_joined,
            old(self).current.session_id == session_id ==> {
                let c = Session {
                    session_id: old(self).current.session_id,
                    timeline: old(self).current.timeline,
                    measurement,
                };
                &&& final(self).current == c
                &&& final(self).others@ == old(self).others@
                &&& r == MeasurementOutcome::Join(c)
            },
            old(self).current.session_id != session_id ==> match first_index(
                old(self).others@,
                of_session(session_id),
            ) {
                Some(i) => {
                    let s = Session {
                        session_id: old(self).others@[i].session_id,
                        timeline: old(self).others@[i].timeline,
                        measurement,
                    };
                    if session_wins_spec(ghost_diff, session_id, old(self).current.session_id) {
                        &&& final(self).current == s
                        &&& final(self).others@ == old(self).others@.update(i, old(self).current)
                        &&& r == MeasurementOutcome::Switch(s)
                    } else {
                        &&& final(self).current == old(self).current
                        &&& final(self).others@ == old(self).others@.update(i, s)
                        &&& r == MeasurementOutcome::<X>::Stay
                    }
                },
                None => {
                    &&& final(self).current == old(self).current
                    &&& final(self).others@ == old(self).others@
                    &&& r == MeasurementOutcome::<X>::Stay
                },
            },
    {
        if self.current.session_id == session_id {
            self.current = Session {
                session_id: self.current.session_id,
                timeline: self.current.timeline,
                measurement,
            };
            MeasurementOutcome::Join(self.current)
        } else {
            match self.find_other(&session_id) {
                Some(i) => {
                    let o = self.others[i];
                    let s = Session { session_id: o.session_id, timeline: o.timeline, measurement };
                    let current_id = self.current.session_id;
                    if session_wins(ghost_diff, &session_id, &current_id) {
                        let c = self.current;
                        self.current = s;
                        self.others.set(i, c);
                        MeasurementOutcome::Switch(s)
                    } else {
                        self.others.set(i, s);
                        MeasurementOutcome::Stay
                    }
                },
                None => MeasurementOutcome::Stay,
            }
        }
    }

    /// Takes in a failed measurement of session `session_id`: the current
    /// session is returned, to be measured again; another session is
    /// forgotten.
    pub fn measurement_failed(&mut self, session_id: SessionId) -> (r: Option<Session<X>>)
        ensures
            final(self).current == old(self).current,
            final(self).has_joined == old(self).has_joined,
            old(self).current.session_id == session_id ==> r == Some(old(self).current)
                && final(self).others@ == old(self).others@,
            old(self).current.session_id != session_id ==> r is None && final(self).others@ == old(
                self,
            ).others@.filter(|s: Session<X>| s.session_id != session_id),
    {
        if self.current.session_id == session_id {
            return Some(self.current);
        }
        let ghost s = self.others@;
        let ghost p = |x: Session<X>| x.session_id != session_id;
        let mut out: Vec<Session<X>> = Vec::new();
        let mut i: usize = 0;
        while i < self.others.len()
            invariant
                i <= s.len(),
                s == self.others@,
                p == (|x: Session<X>| x.session_id != session_id),
                out@ == s.take(i as int).filter(p),
            decreases self.others.len() - i,
        {
            proof {
                lemma_filter_step(s, p, i as int);
            }
            let o = self.others[i];
            if !(o.session_id == session_id) {
                out.push(o);
            }
            i = i + 1;
        }
        proof {
            assert(s.take(s.len() as int) =~= s);
        }
        self.others = out;
        None
    }
}

} // verus!
