//! The client session engine as a state machine. The loop that owns the
//! stream hands each decoded inbound packet and each packet the application
//! enqueued to the engine, then carries out what comes back: frames to write,
//! a packet to forward to the application, and whether to go on.

use crate::codec::{QoSLevel, Reason};
use crate::decode::packet_bytes;
use crate::encode::encode_packet;
use crate::error::{ErrorKind, MqttError};
use crate::packet::{
    body_bytes, opt_str_view, packet_wf, ConnAck, Connect, Packet, PacketModel,
    PubResp, PubRespModel, Publish, PublishModel,
};
use crate::property::{
    props_bytes, props_view, Property, PropertyModel, PropertyType, PropertyValue, ValueModel,
};
use crate::wire::bytes_to_vec;
use vstd::prelude::*;

verus! {

/// How many publishes may wait for send credit.
pub const MAX_QUEUE_LEN: usize = 100;

/// Receive maximum of a client that names none.
pub const DEFAULT_RECV_MAX: u16 = 100;

/// Session expiry interval, in seconds, of a client that names none.
pub const DEFAULT_SESSION_EXPIRY: u32 = 1000;

/// The state of a session.
pub struct SessionModel {
    /// The most publishes that may await acknowledgement at once.
    pub receive_max: u16,
    /// How many more at-least-once publishes may be sent now.
    pub credit: u16,
    /// The packet identifier given out last.
    pub last_packet_id: u16,
    pub auto_ack: bool,
    pub auto_packet_id: bool,
    pub connected: bool,
    pub client_id: Option<Seq<char>>,
    /// Publishes sent and not yet acknowledged, in the order they were sent.
    pub in_flight: Seq<PublishModel>,
    /// Publishes waiting to be sent, oldest first.
    pub pending: Seq<PublishModel>,
}

/// Session state owned by the engine.
pub struct Session {
    receive_max: u16,
    credit: u16,
    last_packet_id: u16,
    auto_ack: bool,
    auto_packet_id: bool,
    connected: bool,
    client_id: Option<String>,
    in_flight: Vec<Publish>,
    pending: Vec<Publish>,
}

pub open spec fn pubs_view(v: Seq<Publish>) -> Seq<PublishModel> {
    Seq::new(v.len(), |i: int| v[i]@)
}

pub open spec fn frames_view(v: Seq<Vec<u8>>) -> Seq<Seq<u8>> {
    Seq::new(v.len(), |i: int| v[i]@)
}

/// The frames of some publishes, in order.
pub open spec fn publish_frames(q: Seq<PublishModel>) -> Seq<Seq<u8>> {
    Seq::new(q.len(), |i: int| packet_bytes(PacketModel::Publish(q[i])))
}

impl View for Session {
    type V = SessionModel;

    closed spec fn view(&self) -> SessionModel {
        SessionModel {
            receive_max: self.receive_max,
            credit: self.credit,
            last_packet_id: self.last_packet_id,
            auto_ack: self.auto_ack,
            auto_packet_id: self.auto_packet_id,
            connected: self.connected,
            client_id: opt_str_view(self.client_id),
            in_flight: pubs_view(self.in_flight@),
            pending: pubs_view(self.pending@),
        }
    }
}

/// Every publish the session holds, sent ones first.
pub open spec fn queued(s: SessionModel) -> Seq<PublishModel> {
    s.in_flight + s.pending
}

/// Whether some publish of `q` carries identifier `id`.
pub open spec fn holds_id(q: Seq<PublishModel>, id: u16) -> bool {
    exists|i: int| 0 <= i < q.len() && q[i].packet_id == Some(id)
}

pub open spec fn ids_distinct(q: Seq<PublishModel>) -> bool {
    forall|i: int, j: int| 0 <= i < j < q.len() ==> q[i].packet_id != q[j].packet_id
}

/// An at-least-once publish with a non-zero identifier that can be encoded.
pub open spec fn tracked_publish(p: PublishModel) -> bool {
    &&& p.qos == QoSLevel::AtLeastOnce
    &&& p.packet_id is Some
    &&& p.packet_id != Some(0u16)
    &&& packet_wf(PacketModel::Publish(p))
}

/// The session's invariant: credit and the in-flight publishes add up to the
/// receive maximum; while connected, publishes wait only when credit is used
/// up; every publish held is tracked, and no two carry the same identifier.
pub open spec fn session_wf(s: SessionModel) -> bool {
    &&& s.credit + s.in_flight.len() == s.receive_max
    &&& (s.connected && s.pending.len() > 0 ==> s.credit == 0)
    &&& forall|i: int| 0 <= i < queued(s).len() ==> tracked_publish(#[trigger] queued(s)[i])
    &&& ids_distinct(queued(s))
}

/// `p` with packet identifier `id`.
pub open spec fn with_id(p: PublishModel, id: u16) -> PublishModel {
    PublishModel { packet_id: Some(id), ..p }
}

/// The identifier assigned to the client by a CONNACK's properties: the value
/// of the first AssignedClientId property, if it is a string.
pub open spec fn assigned_id(ps: Seq<PropertyModel>) -> Option<Seq<char>>
    decreases ps.len(),
{
    if ps.len() == 0 {
        None
    } else if ps[0].ptype == PropertyType::AssignedClientId {
        match ps[0].value {
            ValueModel::Utf8(c) => Some(c),
            _ => None,
        }
    } else {
        assigned_id(ps.subrange(1, ps.len() as int))
    }
}

/// The PUBACK that acknowledges publish `id`.
pub open spec fn puback_model(id: u16) -> PacketModel {
    PacketModel::PubAck(PubRespModel { packet_id: id, reason: Reason::Success, properties: Seq::empty() })
}

/// The value of the first AssignedClientId property, if it is a string.
fn find_assigned_id(ps: &Vec<Property>) -> (r: Option<String>)
    ensures
        opt_str_view(r) == assigned_id(props_view(ps@)),
{
    let ghost v = props_view(ps@);
    let mut i: usize = 0;
    assert(v.subrange(0, v.len() as int) =~= v);
    while i < ps.len()
        invariant
            i <= ps@.len(),
            v == props_view(ps@),
            assigned_id(v) == assigned_id(v.subrange(i as int, v.len() as int)),
        decreases ps@.len() - i,
    {
        let ghost rest = v.subrange(i as int, v.len() as int);
        assert(rest[0] == ps@[i as int]@);
        if ps[i].ptype == PropertyType::AssignedClientId {
            match &ps[i].value {
                PropertyValue::Utf8(c) => {
                    return Some(c.clone());
                },
                _ => {
                    return None;
                },
            }
        }
        assert(rest.subrange(1, rest.len() as int) =~= v.subrange(i + 1, v.len() as int));
        i = i + 1;
    }
    None
}

/// How many waiting publishes the credit lets through now.
pub open spec fn drain_count(s: SessionModel) -> int {
    if s.credit < s.pending.len() {
        s.credit as int
    } else {
        s.pending.len() as int
    }
}

/// The state after sending waiting publishes, oldest first, while credit remains.
pub open spec fn drained(s: SessionModel) -> SessionModel {
    SessionModel {
        credit: (s.credit - drain_count(s)) as u16,
        in_flight: s.in_flight + s.pending.subrange(0, drain_count(s)),
        pending: s.pending.subrange(drain_count(s), s.pending.len() as int),
        ..s
    }
}

/// The frames that draining sends.
pub open spec fn drained_frames(s: SessionModel) -> Seq<Seq<u8>> {
    publish_frames(s.pending.subrange(0, drain_count(s)))
}

/// The state after the session ends: in-flight publishes go back in front of
/// the waiting ones, in the order they were sent, and credit is restored.
pub open spec fn flushed(s: SessionModel) -> SessionModel {
    SessionModel {
        connected: false,
        credit: s.receive_max,
        in_flight: Seq::empty(),
        pending: s.in_flight + s.pending,
        ..s
    }
}

/// The state after the acknowledgement of the in-flight publish at `i`.
pub open spec fn acked(s: SessionModel, i: int) -> SessionModel {
    SessionModel { credit: (s.credit + 1) as u16, in_flight: s.in_flight.remove(i), ..s }
}

/// Whether a CONNACK lets the session start: it reports success, and the
/// client has an identifier of its own or the broker assigned one.
pub open spec fn connack_accepted(s: SessionModel, c: crate::packet::ConnAckModel) -> bool {
    c.reason == Reason::Success && (s.client_id is Some || assigned_id(c.properties) is Some)
}

pub open spec fn credential_user(c: Option<(String, String)>) -> Option<Seq<char>> {
    match c {
        Some((u, _)) => Some(u@),
        None => None,
    }
}

pub open spec fn credential_password(c: Option<(String, String)>) -> Option<Seq<u8>> {
    match c {
        Some((_, p)) => Some(vstd::utf8::encode_utf8(p@)),
        None => None,
    }
}

/// What enqueueing the at-least-once publish `x` does to a session in state
/// `s0`: it gets an identifier (the next free one, or its own when the caller
/// assigns them), then it is sent if the session is connected and has credit,
/// else it waits; a full waiting queue ends the session.
pub open spec fn enqueued(
    s0: SessionModel,
    s1: SessionModel,
    x: PublishModel,
    sent: Seq<Seq<u8>>,
    o: Outcome,
) -> bool {
    if s0.auto_packet_id && (forall|id: u16| id != 0 ==> holds_id(queued(s0), id)) {
        s1 == s0 && sent.len() == 0 && rejects_with(o, ErrorKind::Protocol(Reason::QuotaExceeded))
    } else if !s0.auto_packet_id && (x.packet_id is None || x.packet_id == Some(0u16)) {
        s1 == s0 && sent.len() == 0 && rejects_with(o, ErrorKind::Protocol(Reason::MalformedPacket))
    } else if !s0.auto_packet_id && holds_id(queued(s0), x.packet_id->Some_0) {
        s1 == s0 && sent.len() == 0 && rejects_with(o, ErrorKind::Protocol(Reason::PacketIdInUse))
    } else {
        exists|id: u16|
            {
                &&& id != 0
                &&& !holds_id(queued(s0), id)
                &&& (!s0.auto_packet_id ==> x.packet_id == Some(id))
                &&& enqueued_with(s0, s1, x, id, sent, o)
            }
    }
}

/// The rest of `enqueued`, once the publish has identifier `id`.
pub open spec fn enqueued_with(
    s0: SessionModel,
    s1: SessionModel,
    x: PublishModel,
    id: u16,
    sent: Seq<Seq<u8>>,
    o: Outcome,
) -> bool {
    let s = SessionModel {
        last_packet_id: if s0.auto_packet_id {
            id
        } else {
            s0.last_packet_id
        },
        ..s0
    };
    let y = with_id(x, id);
    if !packet_wf(PacketModel::Publish(y)) {
        s1 == s && sent.len() == 0 && rejects_with(o, ErrorKind::Codec)
    } else if s.connected && s.credit > 0 {
        &&& s1 == SessionModel { credit: (s.credit - 1) as u16, in_flight: s.in_flight.push(y), ..s }
        &&& sent == seq![packet_bytes(PacketModel::Publish(y))]
        &&& o is Continue
    } else if s.pending.len() < MAX_QUEUE_LEN {
        s1 == SessionModel { pending: s.pending.push(y), ..s } && sent.len() == 0 && o is Continue
    } else {
        s1 == flushed(SessionModel { pending: s.pending.push(y), ..s }) && sent.len() == 0
            && fails_with(o, ErrorKind::Protocol(Reason::ReceiveMaxExceeded))
    }
}

/// Sending a packet other than an at-least-once publish or a DISCONNECT: it
/// is written as it is, if it can be encoded.
pub open spec fn sent_as_is(
    s0: SessionModel,
    s1: SessionModel,
    p: PacketModel,
    sent: Seq<Seq<u8>>,
    o: Outcome,
) -> bool {
    &&& s1 == s0
    &&& if packet_wf(p) {
        sent == seq![packet_bytes(p)] && o is Continue
    } else {
        sent.len() == 0 && rejects_with(o, ErrorKind::Codec)
    }
}

/// What the loop does after one event.
pub enum Outcome {
    /// Go on.
    Continue,
    /// The packet was not sent; the session goes on.
    Rejected(MqttError),
    /// The session ended cleanly.
    Stop,
    /// The session ended on an error.
    Fail(MqttError),
}

/// Frames to write, in order, a packet to forward to the application, and
/// how to go on.
pub struct Actions {
    pub transmit: Vec<Vec<u8>>,
    pub deliver: Option<Packet>,
    pub outcome: Outcome,
}

pub open spec fn fails_with(o: Outcome, k: ErrorKind) -> bool {
    o matches Outcome::Fail(e) && e.spec_kind() == k
}

pub open spec fn rejects_with(o: Outcome, k: ErrorKind) -> bool {
    o matches Outcome::Rejected(e) && e.spec_kind() == k
}

/// Flow control: in a well-formed session at most `receive_max` publishes
/// await acknowledgement, and the identifiers of the publishes held, in
/// flight or waiting, are pairwise distinct and never zero.
pub proof fn lemma_flow_control(s: SessionModel)
    requires
        session_wf(s),
    ensures
        s.in_flight.len() <= s.receive_max,
        forall|i: int, j: int|
            0 <= i < j < s.in_flight.len() ==> s.in_flight[i].packet_id != s.in_flight[j].packet_id,
        forall|i: int| 0 <= i < s.in_flight.len() ==> s.in_flight[i].packet_id != Some(0u16),
{
    assert forall|i: int, j: int| 0 <= i < j < s.in_flight.len() implies s.in_flight[i].packet_id
        != s.in_flight[j].packet_id by {
        assert(queued(s)[i] == s.in_flight[i]);
        assert(queued(s)[j] == s.in_flight[j]);
    }
    assert forall|i: int| 0 <= i < s.in_flight.len() implies s.in_flight[i].packet_id != Some(
        0u16,
    ) by {
        assert(queued(s)[i] == s.in_flight[i]);
        assert(tracked_publish(queued(s)[i]));
    }
}

/// Fresh identifiers: in a well-formed session no waiting publish, hence none
/// that draining sends, carries the identifier of a publish in flight, and
/// an enqueued publish is given an identifier that no held publish carries.
pub proof fn lemma_sent_ids_fresh(s: SessionModel)
    requires
        session_wf(s),
    ensures
        forall|i: int|
            0 <= i < s.pending.len() ==> !holds_id(s.in_flight, #[trigger] s.pending[i].packet_id->Some_0),
{
    assert forall|i: int| 0 <= i < s.pending.len() implies !holds_id(
        s.in_flight,
        #[trigger] s.pending[i].packet_id->Some_0,
    ) by {
        let q = queued(s);
        let k = s.in_flight.len() + i;
        assert(q[k] == s.pending[i]);
        assert(tracked_publish(q[k]));
        if holds_id(s.in_flight, s.pending[i].packet_id->Some_0) {
            let j = choose|j: int|
                0 <= j < s.in_flight.len() && s.in_flight[j].packet_id == Some(
                    s.pending[i].packet_id->Some_0,
                );
            assert(q[j] == s.in_flight[j]);
        }
    }
}

proof fn lemma_drained_wf(s: SessionModel)
    requires
        s.credit + s.in_flight.len() == s.receive_max,
        forall|i: int| 0 <= i < queued(s).len() ==> tracked_publish(#[trigger] queued(s)[i]),
        ids_distinct(queued(s)),
    ensures
        session_wf(drained(s)),
        queued(drained(s)) == queued(s),
{
    assert(queued(drained(s)) =~= queued(s));
}

proof fn lemma_acked_wf(s: SessionModel, i: int)
    requires
        session_wf(s),
        0 <= i < s.in_flight.len(),
    ensures
        acked(s, i).credit + acked(s, i).in_flight.len() == acked(s, i).receive_max,
        forall|j: int|
            0 <= j < queued(acked(s, i)).len() ==> tracked_publish(#[trigger] queued(acked(s, i))[j]),
        ids_distinct(queued(acked(s, i))),
{
    let q = queued(s);
    let r = queued(acked(s, i));
    assert(r =~= q.remove(i));
    assert forall|j: int| 0 <= j < r.len() implies tracked_publish(#[trigger] r[j]) by {
        if j < i {
            assert(r[j] == q[j]);
        } else {
            assert(r[j] == q[j + 1]);
        }
    }
    assert forall|a: int, b: int| 0 <= a < b < r.len() implies r[a].packet_id != r[b].packet_id by {
        let a2 = if a < i { a } else { a + 1 };
        let b2 = if b < i { b } else { b + 1 };
        assert(r[a] == q[a2]);
        assert(r[b] == q[b2]);
    }
}

proof fn lemma_push_wf(q: Seq<PublishModel>, y: PublishModel, id: u16)
    requires
        forall|i: int| 0 <= i < q.len() ==> tracked_publish(#[trigger] q[i]),
        ids_distinct(q),
        !holds_id(q, id),
        y.packet_id == Some(id),
        tracked_publish(y),
    ensures
        forall|i: int| 0 <= i < q.push(y).len() ==> tracked_publish(#[trigger] q.push(y)[i]),
        ids_distinct(q.push(y)),
{
    let r = q.push(y);
    assert forall|i: int| 0 <= i < r.len() implies tracked_publish(#[trigger] r[i]) by {
        if i < q.len() {
            assert(r[i] == q[i]);
        }
    }
    assert forall|a: int, b: int| 0 <= a < b < r.len() implies r[a].packet_id != r[b].packet_id by {
        assert(r[a] == q[a]);
        if b < q.len() {
            assert(r[b] == q[b]);
        } else {
            assert(q[a].packet_id != Some(id));
        }
    }
}

proof fn lemma_puback_wf(id: u16)
    ensures
        packet_wf(puback_model(id)),
{
    reveal(body_bytes);
    assert(props_bytes(Seq::<PropertyModel>::empty()) =~= Seq::<u8>::empty());
}

impl Session {
    /// A disconnected session with full credit and nothing queued.
    pub fn new(client_id: Option<String>, auto_ack: bool, receive_max: u16, auto_packet_id: bool) -> (r:
        Session)
        ensures
            session_wf(r@),
            r@.receive_max == receive_max,
            r@.credit == receive_max,
            r@.last_packet_id == 0,
            r@.auto_ack == auto_ack,
            r@.auto_packet_id == auto_packet_id,
            !r@.connected,
            r@.client_id == opt_str_view(client_id),
            r@.in_flight.len() == 0,
            r@.pending.len() == 0,
    {
        let r = Session {
            receive_max,
            credit: receive_max,
            last_packet_id: 0,
            auto_ack,
            auto_packet_id,
            connected: false,
            client_id,
            in_flight: Vec::new(),
            pending: Vec::new(),
        };
        assert(queued(r@) =~= Seq::<PublishModel>::empty());
        r
    }

    pub fn connected(&self) -> (r: bool)
        ensures
            r == self@.connected,
    {
        self.connected
    }

    pub fn receive_max(&self) -> (r: u16)
        ensures
            r == self@.receive_max,
    {
        self.receive_max
    }

    pub fn credit(&self) -> (r: u16)
        ensures
            r == self@.credit,
    {
        self.credit
    }

    pub fn last_packet_id(&self) -> (r: u16)
        ensures
            r == self@.last_packet_id,
    {
        self.last_packet_id
    }

    pub fn in_flight_len(&self) -> (r: usize)
        ensures
            r == self@.in_flight.len(),
    {
        self.in_flight.len()
    }

    pub fn pending_len(&self) -> (r: usize)
        ensures
            r == self@.pending.len(),
    {
        self.pending.len()
    }

    /// The identifier of the publish waiting at position `i`.
    pub fn pending_packet_id(&self, i: usize) -> (r: Option<u16>)
        requires
            i < self@.pending.len(),
        ensures
            r == self@.pending[i as int].packet_id,
    {
        self.pending[i].packet_id
    }

    /// The identifier of the publish in flight at position `i`.
    pub fn in_flight_packet_id(&self, i: usize) -> (r: Option<u16>)
        requires
            i < self@.in_flight.len(),
        ensures
            r == self@.in_flight[i as int].packet_id,
    {
        self.in_flight[i].packet_id
    }

    pub fn client_id(&self) -> (r: Option<String>)
        ensures
            opt_str_view(r) == self@.client_id,
    {
        match &self.client_id {
            Some(c) => Some(c.clone()),
            None => None,
        }
    }

    /// The position of the in-flight publish with identifier `id`.
    fn find_in_flight(&self, id: u16) -> (r: Option<usize>)
        ensures
            match r {
                Some(i) => i < self@.in_flight.len() && self@.in_flight[i as int].packet_id == Some(
                    id,
                ),
                None => !holds_id(self@.in_flight, id),
            },
    {
        let mut i: usize = 0;
        while i < self.in_flight.len()
            invariant
                i <= self.in_flight@.len(),
                forall|j: int| 0 <= j < i ==> self.in_flight@[j].packet_id != Some(id),
            decreases self.in_flight@.len() - i,
        {
            if self.in_flight[i].packet_id == Some(id) {
                return Some(i);
            }
            i = i + 1;
        }
        None
    }

    /// Whether a publish held by the session carries identifier `id`.
    fn id_in_use(&self, id: u16) -> (r: bool)
        ensures
            r == holds_id(queued(self@), id),
    {
        let ghost q = queued(self@);
        let mut i: usize = 0;
        while i < self.in_flight.len()
            invariant
                i <= self.in_flight@.len(),
                q == queued(self@),
                forall|j: int| 0 <= j < i ==> q[j].packet_id != Some(id),
            decreases self.in_flight@.len() - i,
        {
            if self.in_flight[i].packet_id == Some(id) {
                assert(q[i as int].packet_id == Some(id));
                return true;
            }
            i = i + 1;
        }
        let mut k: usize = 0;
        while k < self.pending.len()
            invariant
                k <= self.pending@.len(),
                i == self.in_flight@.len(),
                q == queued(self@),
                forall|j: int| 0 <= j < i + k ==> q[j].packet_id != Some(id),
            decreases self.pending@.len() - k,
        {
            if self.pending[k].packet_id == Some(id) {
                assert(q[i + k].packet_id == Some(id));
                return true;
            }
            k = k + 1;
        }
        false
    }

    /// Gives out the first identifier after the last one given out, wrapping
    /// past 65,535 and skipping 0, that no publish held by the session carries.
    fn allocate_id(&mut self) -> (r: Option<u16>)
        ensures
            match r {
                Some(id) => id != 0 && !holds_id(queued(old(self)@), id) && final(self)@
                    == (SessionModel { last_packet_id: id, ..old(self)@ }),
                None => (forall|id: u16| id != 0 ==> holds_id(queued(old(self)@), id))
                    && final(self)@ == old(self)@,
            },
    {
        let last = self.last_packet_id;
        let mut c: u32 = last as u32 + 1;
        while c <= 65535
            invariant
                last == self.last_packet_id,
                last < c <= 65536,
                self@ == old(self)@,
                forall|id: u16| last < id < c ==> holds_id(queued(self@), id),
            decreases 65536 - c,
        {
            if !self.id_in_use(c as u16) {
                self.last_packet_id = c as u16;
                return Some(c as u16);
            }
            c = c + 1;
        }
        let mut d: u32 = 1;
        while d <= last as u32
            invariant
                last == self.last_packet_id,
                1 <= d <= last as int + 1,
                self@ == old(self)@,
                forall|id: u16| last < id ==> holds_id(queued(self@), id),
                forall|id: u16| 1 <= id < d ==> holds_id(queued(self@), id),
            decreases last as u32 + 1 - d,
        {
            if !self.id_in_use(d as u16) {
                self.last_packet_id = d as u16;
                return Some(d as u16);
            }
            d = d + 1;
        }
        None
    }

    /// Sends waiting publishes, oldest first, while credit remains; each one
    /// sent uses one unit of credit and joins the in-flight publishes.
    fn drain(&mut self, transmit: &mut Vec<Vec<u8>>)
        requires
            forall|i: int|
                0 <= i < old(self)@.pending.len() ==> tracked_publish(#[trigger] old(self)@.pending[i]),
        ensures
            final(self)@ == drained(old(self)@),
            frames_view(final(transmit)@) == frames_view(old(transmit)@) + drained_frames(
                old(self)@,
            ),
    {
        let ghost s0 = self@;
        let ghost t0 = frames_view(transmit@);
        let ghost mut j: int = 0;
        assert(s0.in_flight + s0.pending.subrange(0, 0) =~= s0.in_flight);
        assert(s0.pending.subrange(0, s0.pending.len() as int) =~= s0.pending);
        assert(t0 + publish_frames(s0.pending.subrange(0, 0)) =~= t0);
        while self.credit > 0 && self.pending.len() > 0
            invariant
                0 <= j <= s0.pending.len(),
                j <= s0.credit,
                self@ == (SessionModel {
                    credit: (s0.credit - j) as u16,
                    in_flight: s0.in_flight + s0.pending.subrange(0, j),
                    pending: s0.pending.subrange(j, s0.pending.len() as int),
                    ..s0
                }),
                frames_view(transmit@) == t0 + publish_frames(s0.pending.subrange(0, j)),
                forall|i: int| 0 <= i < s0.pending.len() ==> tracked_publish(#[trigger] s0.pending[i]),
            decreases self.pending@.len(),
        {
            let ghost before_in = self.in_flight@;
            let ghost before_tr = transmit@;
            assert(self@.pending == pubs_view(self.pending@));
            assert(self@.pending[0] == s0.pending[j]);
            assert(pubs_view(self.pending@)[0] == self.pending@[0]@);
            let ghost before_pending = self.pending@;
            assert(pubs_view(before_pending) == s0.pending.subrange(j, s0.pending.len() as int));
            assert(pubs_view(before_in) == s0.in_flight + s0.pending.subrange(0, j));
            let x = self.pending.remove(0);
            assert(x@ == s0.pending[j]);
            let ghost xv = x@;
            let pk = Packet::Publish(x);
            match encode_packet(&pk) {
                Ok(bytes) => {
                    assert(bytes@ == packet_bytes(PacketModel::Publish(xv)));
                    transmit.push(bytes);
                },
                Err(_) => {
                    assert(tracked_publish(s0.pending[j]));
                },
            }
            match pk {
                Packet::Publish(x) => {
                    self.in_flight.push(x);
                },
                _ => {},
            }
            self.credit = self.credit - 1;
            proof {
                assert(self.pending@ == before_pending.remove(0));
                assert forall|i: int| 0 <= i < self.pending@.len() implies pubs_view(self.pending@)[i]
                    == s0.pending[j + 1 + i] by {
                    assert(self.pending@[i] == before_pending[i + 1]);
                    assert(pubs_view(before_pending)[i + 1] == before_pending[i + 1]@);
                }
                assert(pubs_view(self.pending@) =~= s0.pending.subrange(j + 1, s0.pending.len() as int));
                assert(self.in_flight@.len() == before_in.len() + 1);
                assert(self.in_flight@[before_in.len() as int]@ == xv);
                assert(s0.pending.subrange(0, j).len() == j);
                assert(pubs_view(before_in).len() == before_in.len());
                assert(before_in.len() == s0.in_flight.len() + j);
                assert forall|i: int| 0 <= i < self.in_flight@.len() implies pubs_view(self.in_flight@)[i]
                    == (s0.in_flight + s0.pending.subrange(0, j + 1))[i] by {
                    if i < before_in.len() {
                        assert(self.in_flight@[i] == before_in[i]);
                        assert(pubs_view(before_in)[i] == before_in[i]@);
                    } else {
                        assert(pubs_view(self.in_flight@)[i] == xv);
                    }
                }
                assert(pubs_view(self.in_flight@) =~= s0.in_flight + s0.pending.subrange(0, j + 1));
                assert(transmit@.len() == before_tr.len() + 1);
                assert(frames_view(before_tr) == t0 + publish_frames(s0.pending.subrange(0, j)));
                assert(frames_view(before_tr).len() == before_tr.len());
                assert forall|i: int| 0 <= i < transmit@.len() implies frames_view(transmit@)[i]
                    == (t0 + publish_frames(s0.pending.subrange(0, j + 1)))[i] by {
                    if i < before_tr.len() {
                        assert(transmit@[i] == before_tr[i]);
                        assert(frames_view(before_tr)[i] == before_tr[i]@);
                    } else {
                        assert(transmit@[i]@ == packet_bytes(PacketModel::Publish(xv)));
                    }
                }
                assert(frames_view(transmit@) =~= t0 + publish_frames(s0.pending.subrange(0, j + 1)));
                j = j + 1;
            }
        }
        assert(self@.pending.len() == self.pending@.len());
        assert(self@.credit == self.credit);
        assert(j == drain_count(s0));
    }

    /// Ends the session's traffic: the in-flight publishes go back to the
    /// front of the waiting ones, in the order they were sent, so that a new
    /// session can send them again; credit is restored.
    pub fn flush(&mut self)
        ensures
            final(self)@ == flushed(old(self)@),
            session_wf(old(self)@) ==> session_wf(final(self)@),
    {
        let ghost s0 = self@;
        let mut moved: Vec<Publish> = Vec::new();
        std::mem::swap(&mut moved, &mut self.in_flight);
        moved.append(&mut self.pending);
        self.pending = moved;
        self.credit = self.receive_max;
        self.connected = false;
        assert(pubs_view(self.pending@) =~= s0.in_flight + s0.pending);
        assert(pubs_view(self.in_flight@) =~= Seq::<PublishModel>::empty());
        assert(queued(self@) =~= queued(s0));
    }

    /// The CONNECT that opens a session: the client's identifier (empty when
    /// the broker is to assign one), the clean-start flag, the session expiry
    /// interval as a property, and the credentials if any.
    pub fn connect_packet(
        &self,
        clean_start: bool,
        session_expiry: u32,
        credentials: Option<(String, String)>,
    ) -> (r: Connect)
        ensures
            r@.client_id == (match self@.client_id {
                Some(c) => c,
                None => Seq::<char>::empty(),
            }),
            r@.clean_start == clean_start,
            r@.keep_alive == 0,
            r@.properties == seq![
                (PropertyModel {
                    ptype: PropertyType::SessionExpiryInterval,
                    value: ValueModel::FourByte(session_expiry),
                }),
            ],
            r@.username == credential_user(credentials),
            r@.password == credential_password(credentials),
    {
        let client_id = match &self.client_id {
            Some(c) => c.clone(),
            None => String::new(),
        };
        let mut properties: Vec<Property> = Vec::new();
        properties.push(
            Property {
                ptype: PropertyType::SessionExpiryInterval,
                value: PropertyValue::FourByte(session_expiry),
            },
        );
        let (username, password) = match credentials {
            Some((u, p)) => (Some(u), Some(bytes_to_vec(p.as_str().as_bytes()))),
            None => (None, None),
        };
        let r = Connect { client_id, clean_start, keep_alive: 0, properties, username, password };
        assert(r@.properties =~= seq![
            (PropertyModel {
                ptype: PropertyType::SessionExpiryInterval,
                value: ValueModel::FourByte(session_expiry),
            }),
        ]);
        r
    }

    /// Takes the broker's CONNACK. Success connects the session, takes the
    /// assigned client identifier when the client has none, and sends the
    /// publishes that wait, as far as credit goes. A refusal reports the
    /// broker's reason; success without an identifier for the client reports
    /// an invalid client identifier. Either way the session stays disconnected.
    pub fn handle_connack(&mut self, connack: &ConnAck) -> (r: Result<Vec<Vec<u8>>, MqttError>)
        requires
            session_wf(old(self)@),
        ensures
            session_wf(final(self)@),
            r is Ok <==> connack_accepted(old(self)@, connack@),
            connack.reason != Reason::Success ==> r is Err && r->Err_0.spec_kind() == ErrorKind::Protocol(
                connack.reason,
            ),
            connack.reason == Reason::Success && !connack_accepted(old(self)@, connack@) ==> r is Err
                && r->Err_0.spec_kind() == ErrorKind::Protocol(Reason::InvalidClientId),
            r is Err ==> final(self)@ == (SessionModel { connected: false, ..old(self)@ }),
            r is Ok ==> ({
                let s1 = SessionModel {
                    connected: true,
                    client_id: if old(self)@.client_id is Some {
                        old(self)@.client_id
                    } else {
                        assigned_id(connack@.properties)
                    },
                    ..old(self)@
                };
                final(self)@ == drained(s1) && frames_view(r->Ok_0@) == drained_frames(s1)
            }),
    {
        if connack.reason != Reason::Success {
            self.connected = false;
            return Err(MqttError::new("connection refused", ErrorKind::Protocol(connack.reason)));
        }
        if self.client_id.is_none() {
            match find_assigned_id(&connack.properties) {
                Some(id) => {
                    self.client_id = Some(id);
                },
                None => {
                    self.connected = false;
                    return Err(
                        MqttError::new(
                            "no assigned client id",
                            ErrorKind::Protocol(Reason::InvalidClientId),
                        ),
                    );
                },
            }
        }
        self.connected = true;
        let ghost s1 = self@;
        proof {
            lemma_drained_wf(s1);
            assert forall|i: int| 0 <= i < s1.pending.len() implies tracked_publish(
                #[trigger] s1.pending[i],
            ) by {
                assert(queued(s1)[s1.in_flight.len() + i] == s1.pending[i]);
            }
        }
        let mut frames: Vec<Vec<u8>> = Vec::new();
        assert(frames_view(frames@) =~= Seq::<Seq<u8>>::empty());
        self.drain(&mut frames);
        assert(frames_view(frames@) =~= drained_frames(s1));
        Ok(frames)
    }

    /// Takes the first packet the broker sends after CONNECT: a CONNACK is
    /// handled as `handle_connack` says; a DISCONNECT reports the broker's
    /// reason; anything else is a protocol error.
    pub fn handshake(&mut self, reply: Packet) -> (r: Result<Vec<Vec<u8>>, MqttError>)
        requires
            session_wf(old(self)@),
        ensures
            session_wf(final(self)@),
            match reply@ {
                PacketModel::ConnAck(c) => (r is Ok <==> connack_accepted(old(self)@, c)),
                PacketModel::Disconnect(d) => r is Err && r->Err_0.spec_kind() == ErrorKind::Protocol(
                    d.reason,
                ) && final(self)@ == (SessionModel { connected: false, ..old(self)@ }),
                _ => r is Err && r->Err_0.spec_kind() == ErrorKind::Protocol(Reason::ProtocolErr)
                    && final(self)@ == (SessionModel { connected: false, ..old(self)@ }),
            },
    {
        match reply {
            Packet::ConnAck(c) => self.handle_connack(&c),
            Packet::Disconnect(d) => {
                self.connected = false;
                Err(MqttError::new("disconnect received", ErrorKind::Protocol(d.reason)))
            },
            _ => {
                self.connected = false;
                Err(MqttError::new("unexpected packet type", ErrorKind::Protocol(Reason::ProtocolErr)))
            },
        }
    }

    /// Dispatches a packet read from the broker. A DISCONNECT ends the
    /// session with the broker's reason, its publishes kept for a new
    /// session. An at-least-once publish is acknowledged when the session
    /// acknowledges automatically; one without identifier ends the session.
    /// A PUBACK for an in-flight publish retires it, restores one unit of
    /// credit and sends what waits; an unmatched one changes nothing. All but
    /// the DISCONNECT and the faulty publish are handed to the application.
    pub fn on_inbound(&mut self, p: Packet) -> (a: Actions)
        requires
            session_wf(old(self)@),
        ensures
            session_wf(final(self)@),
            match p@ {
                PacketModel::Disconnect(d) => {
                    &&& final(self)@ == flushed(old(self)@)
                    &&& a.transmit@.len() == 0
                    &&& a.deliver is None
                    &&& fails_with(a.outcome, ErrorKind::Protocol(d.reason))
                },
                PacketModel::Publish(x) => if x.qos == QoSLevel::AtLeastOnce && old(self)@.auto_ack
                    && x.packet_id is None {
                    &&& final(self)@ == flushed(old(self)@)
                    &&& a.transmit@.len() == 0
                    &&& a.deliver is None
                    &&& fails_with(a.outcome, ErrorKind::Protocol(Reason::MalformedPacket))
                } else {
                    &&& final(self)@ == old(self)@
                    &&& frames_view(a.transmit@) == (if x.qos == QoSLevel::AtLeastOnce
                        && old(self)@.auto_ack {
                        seq![packet_bytes(puback_model(x.packet_id->Some_0))]
                    } else {
                        Seq::empty()
                    })
                    &&& a.deliver matches Some(q) && q@ == p@
                    &&& a.outcome is Continue
                },
                PacketModel::PubAck(ack) => {
                    &&& (if holds_id(old(self)@.in_flight, ack.packet_id) {
                        exists|i: int|
                            0 <= i < old(self)@.in_flight.len() && old(self)@.in_flight[i].packet_id
                                == Some(ack.packet_id) && final(self)@ == drained(
                                acked(old(self)@, i),
                            ) && frames_view(a.transmit@) == drained_frames(acked(old(self)@, i))
                    } else {
                        final(self)@ == old(self)@ && a.transmit@.len() == 0
                    })
                    &&& a.deliver matches Some(q) && q@ == p@
                    &&& a.outcome is Continue
                },
                _ => {
                    &&& final(self)@ == old(self)@
                    &&& a.transmit@.len() == 0
                    &&& a.deliver matches Some(q) && q@ == p@
                    &&& a.outcome is Continue
                },
            },
    {
        let mut transmit: Vec<Vec<u8>> = Vec::new();
        assert(frames_view(transmit@) =~= Seq::<Seq<u8>>::empty());
        match &p {
            Packet::Disconnect(d) => {
                let reason = d.reason;
                self.flush();
                return Actions {
                    transmit,
                    deliver: None,
                    outcome: Outcome::Fail(
                        MqttError::new("disconnect received", ErrorKind::Protocol(reason)),
                    ),
                };
            },
            Packet::Publish(x) => {
                if x.qos == QoSLevel::AtLeastOnce && self.auto_ack {
                    match x.packet_id {
                        None => {
                            self.flush();
                            return Actions {
                                transmit,
                                deliver: None,
                                outcome: Outcome::Fail(
                                    MqttError::new(
                                        "no packet identifier on an acknowledged publish",
                                        ErrorKind::Protocol(Reason::MalformedPacket),
                                    ),
                                ),
                            };
                        },
                        Some(id) => {
                            let properties: Vec<Property> = Vec::new();
                            assert(props_view(properties@) =~= Seq::<PropertyModel>::empty());
                            let ack = Packet::PubAck(
                                PubResp { packet_id: id, reason: Reason::Success, properties },
                            );
                            proof {
                                lemma_puback_wf(id);
                                assert(ack@ == puback_model(id));
                            }
                            match encode_packet(&ack) {
                                Ok(b) => {
                                    transmit.push(b);
                                },
                                Err(_) => {},
                            }
                            assert(frames_view(transmit@) =~= seq![packet_bytes(puback_model(id))]);
                        },
                    }
                }
            },
            Packet::PubAck(ack) => {
                match self.find_in_flight(ack.packet_id) {
                    Some(i) => {
                        let ghost s0 = self@;
                        let ghost pre_in = self.in_flight@;
                        let _done = self.in_flight.remove(i);
                        self.credit = self.credit + 1;
                        proof {
                            assert(pubs_view(self.in_flight@) =~= s0.in_flight.remove(i as int)) by {
                                assert(pubs_view(pre_in) == s0.in_flight);
                                assert forall|j: int| 0 <= j < self.in_flight@.len() implies pubs_view(
                                    self.in_flight@,
                                )[j] == s0.in_flight.remove(i as int)[j] by {
                                    if j < i {
                                        assert(self.in_flight@[j] == pre_in[j]);
                                        assert(pubs_view(pre_in)[j] == pre_in[j]@);
                                    } else {
                                        assert(self.in_flight@[j] == pre_in[j + 1]);
                                        assert(pubs_view(pre_in)[j + 1] == pre_in[j + 1]@);
                                    }
                                }
                            }
                            assert(self@ == acked(s0, i as int));
                            lemma_acked_wf(s0, i as int);
                            lemma_drained_wf(acked(s0, i as int));
                            let s1 = acked(s0, i as int);
                            assert forall|k: int| 0 <= k < s1.pending.len() implies tracked_publish(
                                #[trigger] s1.pending[k],
                            ) by {
                                assert(queued(s1)[s1.in_flight.len() + k] == s1.pending[k]);
                            }
                        }
                        self.drain(&mut transmit);
                    },
                    None => {},
                }
            },
            _ => {},
        }
        Actions { transmit, deliver: Some(p), outcome: Outcome::Continue }
    }


    fn enqueue_publish(&mut self, x: Publish) -> (a: Actions)
        requires
            session_wf(old(self)@),
            x.qos == QoSLevel::AtLeastOnce,
        ensures
            session_wf(final(self)@),
            a.deliver is None,
            enqueued(old(self)@, final(self)@, x@, frames_view(a.transmit@), a.outcome),
    {
        let ghost s0 = self@;
        let ghost x0 = x@;
        let mut x = x;
        let mut transmit: Vec<Vec<u8>> = Vec::new();
        assert(frames_view(transmit@) =~= Seq::<Seq<u8>>::empty());
        let id: u16 = if self.auto_packet_id {
            match self.allocate_id() {
                Some(id) => id,
                None => {
                    return Actions {
                        transmit,
                        deliver: None,
                        outcome: Outcome::Rejected(
                            MqttError::new(
                                "no free packet identifier",
                                ErrorKind::Protocol(Reason::QuotaExceeded),
                            ),
                        ),
                    };
                },
            }
        } else {
            match x.packet_id {
                Some(id) => {
                    if id == 0 {
                        return Actions {
                            transmit,
                            deliver: None,
                            outcome: Outcome::Rejected(
                                MqttError::new(
                                    "packet identifier 0",
                                    ErrorKind::Protocol(Reason::MalformedPacket),
                                ),
                            ),
                        };
                    }
                    if self.id_in_use(id) {
                        return Actions {
                            transmit,
                            deliver: None,
                            outcome: Outcome::Rejected(
                                MqttError::new(
                                    "packet identifier in use",
                                    ErrorKind::Protocol(Reason::PacketIdInUse),
                                ),
                            ),
                        };
                    }
                    id
                },
                None => {
                    return Actions {
                        transmit,
                        deliver: None,
                        outcome: Outcome::Rejected(
                            MqttError::new(
                                "no packet identifier",
                                ErrorKind::Protocol(Reason::MalformedPacket),
                            ),
                        ),
                    };
                },
            }
        };
        x.packet_id = Some(id);
        let ghost y = x@;
        assert(y == with_id(x0, id));
        let ghost s = self@;
        assert(s == (SessionModel {
            last_packet_id: if s0.auto_packet_id { id } else { s0.last_packet_id },
            ..s0
        }));
        assert(queued(s) == queued(s0));
        let pk = Packet::Publish(x);
        let bytes = match encode_packet(&pk) {
            Ok(b) => b,
            Err(_) => {
                let a = Actions {
                    transmit,
                    deliver: None,
                    outcome: Outcome::Rejected(
                        MqttError::new("publish cannot be encoded", ErrorKind::Codec),
                    ),
                };
                assert(enqueued_with(s0, self@, x0, id, frames_view(a.transmit@), a.outcome));
                return a;
            },
        };
        let x = match pk {
            Packet::Publish(x) => x,
            _ => {
                return Actions { transmit, deliver: None, outcome: Outcome::Continue };
            },
        };
        assert(tracked_publish(y));
        proof {
            lemma_push_wf(queued(s), y, id);
        }
        let ghost pre_in = self.in_flight@;
        let ghost pre_pending = self.pending@;
        assert(pubs_view(pre_in) == s.in_flight);
        assert(pubs_view(pre_pending) == s.pending);
        if self.connected && self.credit > 0 {
            self.credit = self.credit - 1;
            self.in_flight.push(x);
            transmit.push(bytes);
            assert(pubs_view(self.in_flight@) =~= s.in_flight.push(y)) by {
                assert forall|j: int| 0 <= j < pre_in.len() implies pubs_view(self.in_flight@)[j]
                    == s.in_flight[j] by {
                    assert(self.in_flight@[j] == pre_in[j]);
                    assert(pubs_view(pre_in)[j] == pre_in[j]@);
                }
            }
            assert(s.pending.len() == 0);
            assert(queued(self@) =~= queued(s).push(y));
            assert(frames_view(transmit@) =~= seq![packet_bytes(PacketModel::Publish(y))]);
            let a = Actions { transmit, deliver: None, outcome: Outcome::Continue };
            assert(enqueued_with(s0, self@, x0, id, frames_view(a.transmit@), a.outcome));
            a
        } else {
            let room = self.pending.len() < MAX_QUEUE_LEN;
            self.pending.push(x);
            assert(pubs_view(self.pending@) =~= s.pending.push(y)) by {
                assert forall|j: int| 0 <= j < pre_pending.len() implies pubs_view(self.pending@)[j]
                    == s.pending[j] by {
                    assert(self.pending@[j] == pre_pending[j]);
                    assert(pubs_view(pre_pending)[j] == pre_pending[j]@);
                }
            }
            assert(queued(self@) =~= queued(s).push(y));
            if room {
                let a = Actions { transmit, deliver: None, outcome: Outcome::Continue };
                assert(enqueued_with(s0, self@, x0, id, frames_view(a.transmit@), a.outcome));
                a
            } else {
                self.flush();
                let a = Actions {
                    transmit,
                    deliver: None,
                    outcome: Outcome::Fail(
                        MqttError::new(
                            "too many publishes waiting for credit",
                            ErrorKind::Protocol(Reason::ReceiveMaxExceeded),
                        ),
                    ),
                };
                assert(enqueued_with(s0, self@, x0, id, frames_view(a.transmit@), a.outcome));
                a
            }
        }
    }

    fn send_as_is(&mut self, p: Packet) -> (a: Actions)
        ensures
            final(self)@ == old(self)@,
            a.deliver is None,
            sent_as_is(old(self)@, final(self)@, p@, frames_view(a.transmit@), a.outcome),
    {
        let mut transmit: Vec<Vec<u8>> = Vec::new();
        match encode_packet(&p) {
            Ok(b) => {
                transmit.push(b);
                assert(frames_view(transmit@) =~= seq![packet_bytes(p@)]);
                Actions { transmit, deliver: None, outcome: Outcome::Continue }
            },
            Err(_) => {
                assert(frames_view(transmit@) =~= Seq::<Seq<u8>>::empty());
                Actions {
                    transmit,
                    deliver: None,
                    outcome: Outcome::Rejected(
                        MqttError::new("packet cannot be encoded", ErrorKind::Codec),
                    ),
                }
            },
        }
    }

    /// Dispatches a packet the application enqueued. An at-least-once
    /// publish is enqueued as `enqueued` says. A DISCONNECT is written and
    /// ends the session cleanly, its publishes kept for a new session. Any
    /// other packet is written as it is.
    pub fn on_outbound(&mut self, p: Packet) -> (a: Actions)
        requires
            session_wf(old(self)@),
        ensures
            session_wf(final(self)@),
            a.deliver is None,
            match p@ {
                PacketModel::Publish(x) => if x.qos == QoSLevel::AtLeastOnce {
                    enqueued(old(self)@, final(self)@, x, frames_view(a.transmit@), a.outcome)
                } else {
                    sent_as_is(old(self)@, final(self)@, p@, frames_view(a.transmit@), a.outcome)
                },
                PacketModel::Disconnect(_) => if packet_wf(p@) {
                    &&& final(self)@ == flushed(old(self)@)
                    &&& frames_view(a.transmit@) == seq![packet_bytes(p@)]
                    &&& a.outcome is Stop
                } else {
                    final(self)@ == old(self)@ && a.transmit@.len() == 0 && rejects_with(
                        a.outcome,
                        ErrorKind::Codec,
                    )
                },
                _ => sent_as_is(old(self)@, final(self)@, p@, frames_view(a.transmit@), a.outcome),
            },
    {
        match p {
            Packet::Publish(x) => {
                if x.qos == QoSLevel::AtLeastOnce {
                    self.enqueue_publish(x)
                } else {
                    self.send_as_is(Packet::Publish(x))
                }
            },
            Packet::Disconnect(d) => {
                let pk = Packet::Disconnect(d);
                let a = self.send_as_is(pk);
                if matches!(a.outcome, Outcome::Continue) {
                    self.flush();
                    Actions { transmit: a.transmit, deliver: None, outcome: Outcome::Stop }
                } else {
                    a
                }
            },
            other => self.send_as_is(other),
        }
    }

}

} // verus!
