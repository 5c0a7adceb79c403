//! Per-topic publisher: the owner of a topic's type binding, its
//! listening endpoint, and the set of live subscriber connections.
//!
//! Inbound connections run a header handshake against the publisher's
//! bound identity before they join the subscriber set; a stream handle
//! broadcasts each framed payload to every live connection, with a
//! bounded per-connection queue that drops the oldest pending frame
//! rather than stall the producer.

use vstd::prelude::*;
use vstd::slice::slice_to_vec;
use crate::error::{Error, IoErrorKind, spec_is_closed_connection, is_closed_connection};
use crate::header::{fields_view, spec_lookup, lookup_field, str_eq, frame_bytes, frame_payload};
use crate::{Topic, TopicV, RawMessageDescription, description_matches};

verus! {

/// The byte sequences of a list of owned frames.
pub open spec fn frames_view(q: Seq<Vec<u8>>) -> Seq<Seq<u8>> {
    Seq::new(q.len(), |i: int| q[i]@)
}

/// One live subscriber connection, always in its streaming phase:
/// a connection that has not passed the handshake is never stored.
pub struct Connection {
    /// Identity of this connection within its publisher.
    pub id: u64,
    /// The peer identifier the subscriber declared in its handshake.
    pub caller_id: String,
    /// Whether the subscriber asked for the latched last message.
    pub latching: bool,
    /// Whether the subscriber asked to disable write coalescing.
    pub tcp_nodelay: bool,
    /// Framed payloads accepted for this connection and not yet
    /// written to its socket; at most `queue_size` of them.
    pub queue: Vec<Vec<u8>>,
    /// Every framed payload ever accepted for this connection, in
    /// order of acceptance.
    pub history: Ghost<Seq<Seq<u8>>>,
}

/// Mathematical image of a [`Connection`].
#[verifier::ext_equal]
pub struct ConnectionV {
    pub id: u64,
    pub caller_id: Seq<char>,
    pub latching: bool,
    pub tcp_nodelay: bool,
    pub queue: Seq<Seq<u8>>,
    pub history: Seq<Seq<u8>>,
}

impl View for Connection {
    type V = ConnectionV;

    open spec fn view(&self) -> ConnectionV {
        ConnectionV {
            id: self.id,
            caller_id: self.caller_id@,
            latching: self.latching,
            tcp_nodelay: self.tcp_nodelay,
            queue: frames_view(self.queue@),
            history: self.history@,
        }
    }
}

/// A bounded enqueue: room left means the frame is appended; a full
/// queue first gives up its oldest frame.
pub open spec fn push_bounded(q: Seq<Seq<u8>>, cap: usize, m: Seq<u8>) -> Seq<Seq<u8>> {
    if q.len() < cap || q.len() == 0 {
        q.push(m)
    } else {
        q.drop_first().push(m)
    }
}

impl ConnectionV {
    /// The queue never exceeds the owning publisher's bound.
    pub open spec fn wf(self, cap: usize) -> bool {
        self.queue.len() <= cap
    }

    /// This connection after accepting one framed payload.
    pub open spec fn recv(self, cap: usize, m: Seq<u8>) -> ConnectionV {
        ConnectionV {
            id: self.id,
            caller_id: self.caller_id,
            latching: self.latching,
            tcp_nodelay: self.tcp_nodelay,
            queue: push_bounded(self.queue, cap, m),
            history: self.history.push(m),
        }
    }
}

/// The index of the first connection with identity `id`, or `-1`.
pub open spec fn conn_index(subs: Seq<ConnectionV>, id: u64) -> int
    decreases subs.len(),
{
    if subs.len() == 0 {
        -1
    } else if subs[0].id == id {
        0
    } else {
        let rest = conn_index(subs.drop_first(), id);
        if rest == -1 {
            -1
        } else {
            rest + 1
        }
    }
}

/// `conn_index` names the first match: a prefix without the identity
/// and a match at its end pin the index down.
pub proof fn lemma_conn_index_at(subs: Seq<ConnectionV>, id: u64, i: int)
    requires
        0 <= i < subs.len(),
        subs[i].id == id,
        forall|j: int| 0 <= j < i ==> subs[j].id != id,
    ensures
        conn_index(subs, id) == i,
    decreases i,
{
    if i == 0 {
    } else {
        assert(subs.drop_first()[i - 1].id == id);
        assert(forall|j: int| 0 <= j < i - 1 ==> subs.drop_first()[j].id != id);
        lemma_conn_index_at(subs.drop_first(), id, i - 1);
    }
}

/// A sequence without the identity anywhere answers `-1`.
pub proof fn lemma_conn_index_absent(subs: Seq<ConnectionV>, id: u64)
    requires
        forall|j: int| 0 <= j < subs.len() ==> subs[j].id != id,
    ensures
        conn_index(subs, id) == -1,
    decreases subs.len(),
{
    if subs.len() > 0 {
        assert(forall|j: int| 0 <= j < subs.len() - 1 ==> subs.drop_first()[j].id != id);
        lemma_conn_index_absent(subs.drop_first(), id);
    }
}

/// Mathematical image of a [`Publisher`].
#[verifier::ext_equal]
pub struct PublisherV {
    pub topic: TopicV,
    pub caller_id: Seq<char>,
    pub hostname: Seq<char>,
    pub port: u16,
    pub queue_size: usize,
    pub subscribers: Seq<ConnectionV>,
    pub next_conn_id: u64,
    pub next_stream_id: u64,
}

impl PublisherV {
    /// Validity: a positive queue bound, connection identities that
    /// are pairwise distinct and below the allocation counter, and
    /// every queue within the bound.
    pub open spec fn wf(self) -> bool {
        &&& self.queue_size >= 1
        &&& forall|i: int|
            0 <= i < self.subscribers.len() ==> (#[trigger] self.subscribers[i]).wf(
                self.queue_size,
            ) && self.subscribers[i].id < self.next_conn_id
        &&& forall|i: int, j: int|
            0 <= i < j < self.subscribers.len() ==> (#[trigger] self.subscribers[i]).id != (
            #[trigger] self.subscribers[j]).id
    }

    /// This publisher after broadcasting one framed payload to every
    /// live connection.
    pub open spec fn broadcast_frame(self, m: Seq<u8>) -> PublisherV {
        PublisherV {
            subscribers: Seq::new(
                self.subscribers.len(),
                |i: int| self.subscribers[i].recv(self.queue_size, m),
            ),
            ..self
        }
    }

    /// This publisher after broadcasting each payload of `ms` in turn.
    pub open spec fn broadcast_all(self, ms: Seq<Seq<u8>>) -> PublisherV
        decreases ms.len(),
    {
        if ms.len() == 0 {
            self
        } else {
            self.broadcast_frame(ms.first()).broadcast_all(ms.drop_first())
        }
    }

    /// This publisher after admitting one validated subscriber: a
    /// fresh connection with an empty queue joins the set and the
    /// identity counter advances.
    pub open spec fn with_new_subscriber(self, iv: SubscriberInfoV) -> PublisherV {
        PublisherV {
            subscribers: self.subscribers.push(
                ConnectionV {
                    id: self.next_conn_id,
                    caller_id: iv.caller_id,
                    latching: iv.latching,
                    tcp_nodelay: iv.tcp_nodelay,
                    queue: Seq::empty(),
                    history: Seq::empty(),
                },
            ),
            next_conn_id: (self.next_conn_id + 1) as u64,
            ..self
        }
    }

    /// This publisher with the first connection of identity `id`
    /// removed; unchanged when no connection carries it.
    pub open spec fn without_conn(self, id: u64) -> PublisherV {
        let i = conn_index(self.subscribers, id);
        if i == -1 {
            self
        } else {
            PublisherV { subscribers: self.subscribers.remove(i), ..self }
        }
    }

    /// This publisher with the pending queue of connection `id`
    /// emptied; unchanged when no connection carries it.
    pub open spec fn with_drained(self, id: u64) -> PublisherV {
        let i = conn_index(self.subscribers, id);
        if i == -1 {
            self
        } else {
            PublisherV {
                subscribers: self.subscribers.update(
                    i,
                    ConnectionV { queue: Seq::empty(), ..self.subscribers[i] },
                ),
                ..self
            }
        }
    }

    /// Everything but the subscriber set agrees between the two
    /// states.
    pub open spec fn same_admin(self, other: PublisherV) -> bool {
        &&& self.topic == other.topic
        &&& self.caller_id == other.caller_id
        &&& self.hostname == other.hostname
        &&& self.port == other.port
        &&& self.queue_size == other.queue_size
        &&& self.next_conn_id == other.next_conn_id
        &&& self.next_stream_id == other.next_stream_id
    }
}

/// What a subscriber's accepted handshake declares, beyond the topic
/// identity: its peer name and its transport-tuning flags.
#[derive(Clone, Debug)]
pub struct SubscriberInfo {
    pub caller_id: String,
    pub latching: bool,
    pub tcp_nodelay: bool,
}

/// Mathematical image of a [`SubscriberInfo`].
#[verifier::ext_equal]
pub struct SubscriberInfoV {
    pub caller_id: Seq<char>,
    pub latching: bool,
    pub tcp_nodelay: bool,
}

impl View for SubscriberInfo {
    type V = SubscriberInfoV;

    open spec fn view(&self) -> SubscriberInfoV {
        SubscriberInfoV {
            caller_id: self.caller_id@,
            latching: self.latching,
            tcp_nodelay: self.tcp_nodelay,
        }
    }
}

/// Why a handshake is rejected: a required field is absent, or a
/// field's value differs from the publisher's binding (field,
/// expected, actual).
pub enum HandshakeRejection {
    MissingField(Seq<char>),
    Mismatch(Seq<char>, Seq<char>, Seq<char>),
}

/// The error value owed for a rejection: the matching taxonomy
/// variant carrying exactly the rejection's strings.
pub open spec fn rejection_matches(e: Error, rej: HandshakeRejection) -> bool {
    match rej {
        HandshakeRejection::MissingField(f) => e matches Error::HeaderMissingField(g) && g@ == f,
        HandshakeRejection::Mismatch(f, exp, act) => e matches Error::HeaderMismatch(
            g,
            e2,
            a2,
        ) && g@ == f && e2@ == exp && a2@ == act,
    }
}

/// The handshake validation policy, checked in a fixed order: the
/// declared content hash, type name and topic name must each be
/// present and equal to the binding, and a peer identifier must be
/// present.  The optional flags `latching` and `tcp_nodelay` are on
/// exactly when declared as `1`.
pub open spec fn spec_validate(topic: TopicV, fv: Seq<(Seq<char>, Seq<char>)>) -> Result<
    SubscriberInfoV,
    HandshakeRejection,
> {
    if spec_lookup(fv, "md5sum"@) is None {
        Result::Err(HandshakeRejection::MissingField("md5sum"@))
    } else if spec_lookup(fv, "md5sum"@) != Some(topic.md5sum) {
        Result::Err(
            HandshakeRejection::Mismatch(
                "md5sum"@,
                topic.md5sum,
                spec_lookup(fv, "md5sum"@)->Some_0,
            ),
        )
    } else if spec_lookup(fv, "type"@) is None {
        Result::Err(HandshakeRejection::MissingField("type"@))
    } else if spec_lookup(fv, "type"@) != Some(topic.msg_type) {
        Result::Err(
            HandshakeRejection::Mismatch("type"@, topic.msg_type, spec_lookup(fv, "type"@)->Some_0),
        )
    } else if spec_lookup(fv, "topic"@) is None {
        Result::Err(HandshakeRejection::MissingField("topic"@))
    } else if spec_lookup(fv, "topic"@) != Some(topic.name) {
        Result::Err(
            HandshakeRejection::Mismatch("topic"@, topic.name, spec_lookup(fv, "topic"@)->Some_0),
        )
    } else if spec_lookup(fv, "callerid"@) is None {
        Result::Err(HandshakeRejection::MissingField("callerid"@))
    } else {
        Result::Ok(
            SubscriberInfoV {
                caller_id: spec_lookup(fv, "callerid"@)->Some_0,
                latching: spec_lookup(fv, "latching"@) == Some("1"@),
                tcp_nodelay: spec_lookup(fv, "tcp_nodelay"@) == Some("1"@),
            },
        )
    }
}

/// Validates an inbound connection's declared identity against a
/// topic binding, as [`spec_validate`] states.
pub fn validate_handshake(topic: &Topic, fields: &Vec<(String, String)>) -> (r: Result<
    SubscriberInfo,
    Error,
>)
    ensures
        ({
            let s = spec_validate(topic@, fields_view(fields@));
            match r {
                Ok(info) => s matches Ok(iv) && info@ == iv,
                Err(e) => s matches Err(rej) && rejection_matches(e, rej),
            }
        }),
{
    let md5 = match lookup_field(fields, "md5sum") {
        None => { return Err(Error::HeaderMissingField("md5sum".to_owned())) },
        Some(v) => v,
    };
    if !str_eq(md5.as_str(), topic.md5sum.as_str()) {
        return Err(
            Error::HeaderMismatch("md5sum".to_owned(), topic.md5sum.clone(), md5.clone()),
        );
    }
    let typ = match lookup_field(fields, "type") {
        None => { return Err(Error::HeaderMissingField("type".to_owned())) },
        Some(v) => v,
    };
    if !str_eq(typ.as_str(), topic.msg_type.as_str()) {
        return Err(
            Error::HeaderMismatch("type".to_owned(), topic.msg_type.clone(), typ.clone()),
        );
    }
    let name = match lookup_field(fields, "topic") {
        None => { return Err(Error::HeaderMissingField("topic".to_owned())) },
        Some(v) => v,
    };
    if !str_eq(name.as_str(), topic.name.as_str()) {
        return Err(Error::HeaderMismatch("topic".to_owned(), topic.name.clone(), name.clone()));
    }
    let caller_id = match lookup_field(fields, "callerid") {
        None => { return Err(Error::HeaderMissingField("callerid".to_owned())) },
        Some(v) => v.clone(),
    };
    let latching = match lookup_field(fields, "latching") {
        None => false,
        Some(v) => str_eq(v.as_str(), "1"),
    };
    let tcp_nodelay = match lookup_field(fields, "tcp_nodelay") {
        None => false,
        Some(v) => str_eq(v.as_str(), "1"),
    };
    Ok(SubscriberInfo { caller_id, latching, tcp_nodelay })
}

/// Broadcasting a frame keeps a publisher well formed: each bounded
/// queue stays within the bound and no identity changes.
pub proof fn lemma_broadcast_frame_wf(p: PublisherV, m: Seq<u8>)
    requires
        p.wf(),
    ensures
        p.broadcast_frame(m).wf(),
{
    let q = p.broadcast_frame(m);
    assert forall|i: int| 0 <= i < q.subscribers.len() implies (#[trigger] q.subscribers[i]).wf(
        q.queue_size,
    ) && q.subscribers[i].id < q.next_conn_id by {
        assert(p.subscribers[i].wf(p.queue_size));
    }
}

/// Removing a connection keeps a publisher well formed.
pub proof fn lemma_without_conn_wf(p: PublisherV, id: u64)
    requires
        p.wf(),
    ensures
        p.without_conn(id).wf(),
{
    let i = conn_index(p.subscribers, id);
    if i != -1 {
        lemma_conn_index_in_range(p.subscribers, id);
        let s2 = p.subscribers.remove(i);
        assert forall|k: int| 0 <= k < s2.len() implies (#[trigger] s2[k]).wf(p.queue_size) && s2[k].id
            < p.next_conn_id by {
            if k < i {
                assert(s2[k] == p.subscribers[k]);
            } else {
                assert(s2[k] == p.subscribers[k + 1]);
            }
        }
        assert forall|k: int, l: int| 0 <= k < l < s2.len() implies (#[trigger] s2[k]).id != (
        #[trigger] s2[l]).id by {
            if k < i {
                assert(s2[k] == p.subscribers[k]);
            } else {
                assert(s2[k] == p.subscribers[k + 1]);
            }
            if l < i {
                assert(s2[l] == p.subscribers[l]);
            } else {
                assert(s2[l] == p.subscribers[l + 1]);
            }
        }
    }
}

/// A found index lies within the sequence and carries the identity.
pub proof fn lemma_conn_index_in_range(subs: Seq<ConnectionV>, id: u64)
    ensures
        conn_index(subs, id) == -1 || (0 <= conn_index(subs, id) < subs.len() && subs[conn_index(
            subs,
            id,
        )].id == id),
    decreases subs.len(),
{
    if subs.len() > 0 && subs[0].id != id {
        lemma_conn_index_in_range(subs.drop_first(), id);
    }
}

/// What a publisher binds at creation: the caller's declared identity
/// becomes the topic's binding, the subscriber set starts empty.
pub open spec fn spec_new_publisher(
    hostname: Seq<char>,
    topic: Seq<char>,
    queue_size: usize,
    caller_id: Seq<char>,
    desc_type: Seq<char>,
    desc_md5: Seq<char>,
    port: u16,
) -> PublisherV {
    PublisherV {
        topic: TopicV { name: topic, msg_type: desc_type, md5sum: desc_md5 },
        caller_id: caller_id,
        hostname: hostname,
        port: port,
        queue_size: if queue_size == 0 {
            1
        } else {
            queue_size
        },
        subscribers: Seq::empty(),
        next_conn_id: 0,
        next_stream_id: 0,
    }
}

/// Per-topic publisher state.  Exactly one exists per topic name in a
/// registry; it is created on the first stream request and destroyed
/// only by explicit removal.
pub struct Publisher {
    pub topic: Topic,
    pub caller_id: String,
    pub hostname: String,
    pub port: u16,
    pub queue_size: usize,
    pub subscribers: Vec<Connection>,
    pub next_conn_id: u64,
    pub next_stream_id: u64,
}

impl View for Publisher {
    type V = PublisherV;

    open spec fn view(&self) -> PublisherV {
        PublisherV {
            topic: self.topic@,
            caller_id: self.caller_id@,
            hostname: self.hostname@,
            port: self.port,
            queue_size: self.queue_size,
            subscribers: Seq::new(self.subscribers@.len(), |i: int| self.subscribers@[i]@),
            next_conn_id: self.next_conn_id,
            next_stream_id: self.next_stream_id,
        }
    }
}

/// A cloneable typed handle bound to one publisher; every write
/// through it is broadcast to all live subscriber connections of that
/// publisher.  The type binding is carried as data so agreement
/// between handles is a plain value comparison.
#[derive(Clone, Debug)]
pub struct PublisherStream {
    pub topic: Topic,
    pub queue_size: usize,
    pub stream_id: u64,
}

/// Mathematical image of a [`PublisherStream`].
#[verifier::ext_equal]
pub struct PublisherStreamV {
    pub topic: TopicV,
    pub queue_size: usize,
    pub stream_id: u64,
}

impl View for PublisherStream {
    type V = PublisherStreamV;

    open spec fn view(&self) -> PublisherStreamV {
        PublisherStreamV {
            topic: self.topic@,
            queue_size: self.queue_size,
            stream_id: self.stream_id,
        }
    }
}

impl Publisher {
    /// Creates a publisher bound to a freshly allocated listening
    /// port.  The caller's declared message description becomes the
    /// topic's binding; a zero queue bound is raised to one so a
    /// bounded queue can always hold the newest frame.
    pub fn new(
        hostname: &str,
        topic: &str,
        queue_size: usize,
        caller_id: &str,
        message_description: RawMessageDescription,
        port: u16,
    ) -> (p: Publisher)
        ensures
            p@ == spec_new_publisher(
                hostname@,
                topic@,
                queue_size,
                caller_id@,
                message_description@.msg_type,
                message_description@.md5sum,
                port,
            ),
            p@.wf(),
    {
        let p = Publisher {
            topic: Topic {
                name: topic.to_owned(),
                msg_type: message_description.msg_type,
                md5sum: message_description.md5sum,
            },
            caller_id: caller_id.to_owned(),
            hostname: hostname.to_owned(),
            port: port,
            queue_size: if queue_size == 0 {
                1
            } else {
                queue_size
            },
            subscribers: Vec::new(),
            next_conn_id: 0,
            next_stream_id: 0,
        };
        proof {
            assert(p@.subscribers =~= Seq::<ConnectionV>::empty());
        }
        p
    }

    /// The topic identity this publisher is bound to.
    pub fn get_topic(&self) -> (t: &Topic)
        ensures
            t@ == self@.topic,
    {
        &self.topic
    }

    /// Requests a new stream handle from this publisher.  The
    /// declared description must agree with the bound type on both
    /// the type name and the content hash; a mismatching request is
    /// rejected naming the bound and the requested type, and changes
    /// nothing.
    pub fn stream(&mut self, queue_size: usize, message_description: RawMessageDescription) -> (r:
        Result<PublisherStream, Error>)
        ensures
            description_matches(old(self)@.topic, message_description@) ==> ({
                &&& r matches Ok(s)
                &&& s@.topic == old(self)@.topic
                &&& s@.queue_size == queue_size
                &&& s@.stream_id == old(self)@.next_stream_id
                &&& final(self)@ == PublisherV {
                    next_stream_id: if old(self)@.next_stream_id < u64::MAX {
                        (old(self)@.next_stream_id + 1) as u64
                    } else {
                        old(self)@.next_stream_id
                    },
                    ..old(self)@
                }
            }),
            !description_matches(old(self)@.topic, message_description@) ==> ({
                &&& r matches Err(e)
                &&& e matches Error::MessageTypeMismatch(expected, actual)
                &&& expected@ == old(self)@.topic.msg_type
                &&& actual@ == message_description@.msg_type
                &&& final(self)@ == old(self)@
            }),
            old(self)@.wf() ==> final(self)@.wf(),
    {
        let type_ok = str_eq(self.topic.msg_type.as_str(), message_description.msg_type.as_str());
        let md5_ok = str_eq(self.topic.md5sum.as_str(), message_description.md5sum.as_str());
        if type_ok && md5_ok {
            let s = PublisherStream {
                topic: Topic {
                    name: self.topic.name.clone(),
                    msg_type: self.topic.msg_type.clone(),
                    md5sum: self.topic.md5sum.clone(),
                },
                queue_size: queue_size,
                stream_id: self.next_stream_id,
            };
            if self.next_stream_id < u64::MAX {
                self.next_stream_id = self.next_stream_id + 1;
            }
            Ok(s)
        } else {
            Err(
                Error::MessageTypeMismatch(
                    self.topic.msg_type.clone(),
                    message_description.msg_type,
                ),
            )
        }
    }

    /// Runs the handshake for one inbound connection.  A declared
    /// identity that matches the binding admits the connection to the
    /// subscriber set, in its streaming phase, and returns its fresh
    /// identity; any validation failure rejects the connection
    /// without touching the set or the binding.
    pub fn accept_subscriber(&mut self, fields: &Vec<(String, String)>) -> (r: Result<u64, Error>)
        requires
            old(self)@.next_conn_id < u64::MAX,
        ensures
            ({
                let s = spec_validate(old(self)@.topic, fields_view(fields@));
                match r {
                    Ok(id) => s matches Ok(iv) && id == old(self)@.next_conn_id && final(self)@
                        == old(self)@.with_new_subscriber(iv),
                    Err(e) => s matches Err(rej) && rejection_matches(e, rej) && final(self)@
                        == old(self)@,
                }
            }),
            old(self)@.wf() ==> final(self)@.wf(),
    {
        let info = match validate_handshake(&self.topic, fields) {
            Err(e) => { return Err(e) },
            Ok(info) => info,
        };
        let id = self.next_conn_id;
        let conn = Connection {
            id: id,
            caller_id: info.caller_id,
            latching: info.latching,
            tcp_nodelay: info.tcp_nodelay,
            queue: Vec::new(),
            history: Ghost(Seq::empty()),
        };
        let ghost cv = conn@;
        proof {
            assert(cv.queue =~= Seq::<Seq<u8>>::empty());
        }
        self.subscribers.push(conn);
        self.next_conn_id = id + 1;
        proof {
            assert(self@.subscribers =~~= old(self)@.subscribers.push(cv));
        }
        Ok(id)
    }

    /// The response header sent back after a successful handshake:
    /// it echoes the publisher's bound content hash, type name, topic
    /// name and caller identity.
    pub fn response_header(&self) -> (r: Vec<(String, String)>)
        ensures
            fields_view(r@) =~~= seq![
                ("md5sum"@, self@.topic.md5sum),
                ("type"@, self@.topic.msg_type),
                ("topic"@, self@.topic.name),
                ("callerid"@, self@.caller_id),
            ],
    {
        let mut r: Vec<(String, String)> = Vec::new();
        r.push(("md5sum".to_owned(), self.topic.md5sum.clone()));
        r.push(("type".to_owned(), self.topic.msg_type.clone()));
        r.push(("topic".to_owned(), self.topic.name.clone()));
        r.push(("callerid".to_owned(), self.caller_id.clone()));
        r
    }

    /// Broadcasts one framed payload: every live connection accepts
    /// it into its own bounded queue, independently of the others;
    /// a full queue gives up its oldest pending frame rather than
    /// block, so one slow subscriber stalls nobody.
    pub fn send(&mut self, frame: &Vec<u8>)
        ensures
            final(self)@ == old(self)@.broadcast_frame(frame@),
            old(self)@.wf() ==> final(self)@.wf(),
    {
        let ghost orig = old(self)@;
        let mut updated: Vec<Connection> = Vec::new();
        while self.subscribers.len() > 0
            invariant
                orig == old(self)@,
                self@.same_admin(orig),
                updated@.len() + self.subscribers@.len() == orig.subscribers.len(),
                forall|i: int|
                    0 <= i < updated@.len() ==> (#[trigger] updated@[i])@ =~~= orig.subscribers[
                        i
                    ].recv(orig.queue_size, frame@),
                forall|i: int|
                    0 <= i < self.subscribers@.len() ==> (#[trigger] self.subscribers@[i])@
                        =~~= orig.subscribers[updated@.len() + i],
            decreases self.subscribers@.len(),
        {
            let ghost k = updated@.len() as int;
            let ghost pre_subs = self.subscribers@;
            let mut c = self.subscribers.remove(0);
            proof {
                pre_subs.remove_ensures(0);
                assert(c@ =~~= orig.subscribers[k]);
            }
            let ghost cq = c@.queue;
            if c.queue.len() >= self.queue_size && c.queue.len() > 0 {
                c.queue.remove(0);
            }
            c.queue.push(slice_to_vec(frame.as_slice()));
            c.history = Ghost(c.history@.push(frame@));
            proof {
                if cq.len() < orig.queue_size || cq.len() == 0 {
                    assert(frames_view(c.queue@) =~~= cq.push(frame@));
                } else {
                    assert(frames_view(c.queue@) =~~= cq.drop_first().push(frame@));
                }
                assert(c@ =~~= orig.subscribers[k].recv(orig.queue_size, frame@));
            }
            updated.push(c);
        }
        self.subscribers = updated;
        proof {
            assert(self@.subscribers =~~= orig.broadcast_frame(frame@).subscribers);
            assert(self@ =~~= orig.broadcast_frame(frame@));
            if orig.wf() {
                lemma_broadcast_frame_wf(orig, frame@);
            }
        }
    }

    /// Removes the connection of identity `id` from the subscriber
    /// set; a connection is dropped the moment its socket is known to
    /// be closed, and the call is idempotent.
    pub fn remove_connection(&mut self, id: u64)
        ensures
            final(self)@ == old(self)@.without_conn(id),
            old(self)@.wf() ==> final(self)@.wf(),
    {
        let ghost orig = old(self)@;
        let n = self.subscribers.len();
        for i in 0..n
            invariant
                orig == old(self)@,
                self@ == orig,
                n == self.subscribers@.len(),
                forall|j: int| 0 <= j < i ==> orig.subscribers[j].id != id,
        {
            proof {
                assert(orig.subscribers[i as int] == self.subscribers@[i as int]@);
            }
            if self.subscribers[i].id == id {
                proof {
                    lemma_conn_index_at(orig.subscribers, id, i as int);
                    if orig.wf() {
                        lemma_without_conn_wf(orig, id);
                    }
                }
                self.subscribers.remove(i);
                proof {
                    assert(self@ =~~= PublisherV {
                        subscribers: orig.subscribers.remove(i as int),
                        ..orig
                    });
                }
                return ;
            }
        }
        proof {
            lemma_conn_index_absent(orig.subscribers, id);
        }
    }

    /// Takes every pending frame of connection `id`, in order, so the
    /// caller can write them to that connection's socket; the
    /// connection stays live with an empty queue.
    pub fn drain_queue(&mut self, id: u64) -> (r: Option<Vec<Vec<u8>>>)
        ensures
            final(self)@ == old(self)@.with_drained(id),
            ({
                let i = conn_index(old(self)@.subscribers, id);
                match r {
                    Some(q) => i != -1 && frames_view(q@) == old(self)@.subscribers[i].queue,
                    None => i == -1,
                }
            }),
            old(self)@.wf() ==> final(self)@.wf(),
    {
        let ghost orig = old(self)@;
        let n = self.subscribers.len();
        for i in 0..n
            invariant
                orig == old(self)@,
                self@ == orig,
                n == self.subscribers@.len(),
                forall|j: int| 0 <= j < i ==> orig.subscribers[j].id != id,
        {
            proof {
                assert(orig.subscribers[i as int] == self.subscribers@[i as int]@);
            }
            if self.subscribers[i].id == id {
                proof {
                    lemma_conn_index_at(orig.subscribers, id, i as int);
                }
                let mut c = self.subscribers.remove(i);
                let mut q: Vec<Vec<u8>> = Vec::new();
                core::mem::swap(&mut q, &mut c.queue);
                self.subscribers.insert(i, c);
                proof {
                    let cv2 = ConnectionV { queue: Seq::empty(), ..orig.subscribers[i as int] };
                    assert(c@ =~~= cv2);
                    assert(self@ =~~= PublisherV {
                        subscribers: orig.subscribers.update(i as int, cv2),
                        ..orig
                    });
                    if orig.wf() {
                        assert(final(self)@.wf());
                    }
                }
                return Some(q);
            }
        }
        proof {
            lemma_conn_index_absent(orig.subscribers, id);
        }
        None
    }

    /// Applies the outcome of one socket write that the owner of the
    /// transport performed for connection `id`.  Success keeps the
    /// connection; any failure removes it, and the disposition says
    /// whether the failure was an expected closed-connection event,
    /// removed silently, or an anomaly worth reporting.
    pub fn report_write_outcome(&mut self, id: u64, outcome: Result<(), IoErrorKind>) -> (d:
        WriteDisposition)
        ensures
            match outcome {
                Ok(_) => d == WriteDisposition::Kept && final(self)@ == old(self)@,
                Err(k) => final(self)@ == old(self)@.without_conn(id) && d == (
                if spec_is_closed_connection(k) {
                    WriteDisposition::RemovedClosed
                } else {
                    WriteDisposition::RemovedAnomaly
                }),
            },
            old(self)@.wf() ==> final(self)@.wf(),
    {
        match outcome {
            Ok(_) => WriteDisposition::Kept,
            Err(k) => {
                self.remove_connection(id);
                if is_closed_connection(&k) {
                    WriteDisposition::RemovedClosed
                } else {
                    WriteDisposition::RemovedAnomaly
                }
            },
        }
    }
}

/// What became of a connection after a write outcome was applied.
#[derive(Clone, Copy, Debug, PartialEq, Eq, Structural)]
pub enum WriteDisposition {
    /// The write succeeded; the connection stays.
    Kept,
    /// The peer was gone (graceful close or abrupt severance); the
    /// connection was removed as an expected lifecycle event.
    RemovedClosed,
    /// Another transport failure; the connection was removed and the
    /// failure is worth reporting.
    RemovedAnomaly,
}

impl PublisherStream {
    /// Broadcasts one serialized message to every live subscriber of
    /// the owning publisher.  The payload is framed once with its
    /// length prefix and then enqueued to each connection
    /// independently; per-connection transport failures are never
    /// this call's failures.
    pub fn send(&self, publisher: &mut Publisher, payload: &Vec<u8>) -> (r: Result<(), Error>)
        requires
            self@.topic.name == old(publisher)@.topic.name,
            payload@.len() <= u32::MAX,
        ensures
            r is Ok,
            final(publisher)@ == old(publisher)@.broadcast_frame(frame_bytes(payload@)),
            old(publisher)@.wf() ==> final(publisher)@.wf(),
    {
        let f = frame_payload(payload);
        publisher.send(&f);
        Ok(())
    }
}

/// A handshake that declares a mismatched content hash is rejected
/// naming the hash field and the two values; by the acceptance
/// contract such a connection never joins the subscriber set and the
/// publisher's binding is untouched.
pub proof fn lemma_md5_mismatch_rejected(
    topic: TopicV,
    fv: Seq<(Seq<char>, Seq<char>)>,
    declared: Seq<char>,
)
    requires
        spec_lookup(fv, "md5sum"@) == Some(declared),
        declared != topic.md5sum,
    ensures
        spec_validate(topic, fv) matches Err(r) && r matches HandshakeRejection::Mismatch(
            f,
            exp,
            act,
        ) && f == "md5sum"@ && exp == topic.md5sum && act == declared,
{
}

/// Broadcasting a sequence of payloads delivers every payload, in
/// order, to every connection of the set: each connection's history
/// is extended by exactly the broadcast sequence, and no identity
/// changes.
pub proof fn lemma_broadcast_delivers_all(p: PublisherV, ms: Seq<Seq<u8>>)
    ensures
        p.broadcast_all(ms).subscribers.len() == p.subscribers.len(),
        forall|i: int|
            0 <= i < p.subscribers.len() ==> (#[trigger] p.broadcast_all(ms).subscribers[i]).history
                =~= p.subscribers[i].history + ms,
        forall|i: int|
            0 <= i < p.subscribers.len() ==> (#[trigger] p.broadcast_all(ms).subscribers[i]).id
                == p.subscribers[i].id,
    decreases ms.len(),
{
    if ms.len() == 0 {
        assert forall|i: int|
            0 <= i < p.subscribers.len() implies (#[trigger] p.broadcast_all(
            ms,
        ).subscribers[i]).history =~= p.subscribers[i].history + ms by {
            assert(p.subscribers[i].history + ms =~= p.subscribers[i].history);
        }
    } else {
        let p1 = p.broadcast_frame(ms.first());
        lemma_broadcast_delivers_all(p1, ms.drop_first());
        assert forall|i: int|
            0 <= i < p.subscribers.len() implies (#[trigger] p.broadcast_all(
            ms,
        ).subscribers[i]).history =~= p.subscribers[i].history + ms by {
            assert(p1.subscribers[i].history == p.subscribers[i].history.push(ms.first()));
            assert(p.broadcast_all(ms).subscribers[i].history =~= p1.subscribers[i].history
                + ms.drop_first());
            assert(p.subscribers[i].history.push(ms.first()) + ms.drop_first()
                =~= p.subscribers[i].history + ms);
        }
    }
}

/// A connection forcibly closed between two broadcast bursts takes
/// nothing from the others: every connection with a different
/// identity still receives both bursts, in order, with no gap.
pub proof fn lemma_close_leaves_others(
    p: PublisherV,
    ms1: Seq<Seq<u8>>,
    id: u64,
    ms2: Seq<Seq<u8>>,
    i: int,
)
    requires
        p.wf(),
        0 <= i < p.subscribers.len(),
        p.subscribers[i].id != id,
    ensures
        ({
            let p3 = p.broadcast_all(ms1).without_conn(id).broadcast_all(ms2);
            exists|j: int|
                0 <= j < p3.subscribers.len() && (#[trigger] p3.subscribers[j]).id
                    == p.subscribers[i].id && p3.subscribers[j].history =~= p.subscribers[i].history
                    + ms1 + ms2
        }),
{
    let p1 = p.broadcast_all(ms1);
    let p2 = p1.without_conn(id);
    let p3 = p2.broadcast_all(ms2);
    lemma_broadcast_delivers_all(p, ms1);
    lemma_broadcast_delivers_all(p2, ms2);
    let ci = conn_index(p1.subscribers, id);
    lemma_conn_index_in_range(p1.subscribers, id);
    if ci == -1 {
        assert(p2 == p1);
        assert(p3.subscribers[i].id == p.subscribers[i].id);
        assert(p3.subscribers[i].history =~= p1.subscribers[i].history + ms2);
        assert(p1.subscribers[i].history + ms2 =~= p.subscribers[i].history + ms1 + ms2);
    } else {
        assert(p1.subscribers[ci].id == id);
        let j = if i < ci {
            i
        } else {
            i - 1
        };
        assert(p2.subscribers == p1.subscribers.remove(ci));
        if i < ci {
            assert(p2.subscribers[j] == p1.subscribers[i]);
        } else {
            assert(i != ci);
            assert(p2.subscribers[j] == p1.subscribers[i]);
        }
        assert(p3.subscribers[j].id == p.subscribers[i].id);
        assert(p3.subscribers[j].history =~= p2.subscribers[j].history + ms2);
        assert(p2.subscribers[j].history =~= p.subscribers[i].history + ms1);
        assert(p3.subscribers[j].history =~= p.subscribers[i].history + ms1 + ms2);
    }
}

/// The phases an inbound connection moves through.
#[derive(Clone, Copy, Debug, PartialEq, Eq, Structural)]
pub enum ConnectionPhase {
    /// Raw transport established.
    Accepted,
    /// Waiting for the handshake header.
    AwaitingHeader,
    /// Header validated against the binding.
    Validated,
    /// Response sent; payloads flow.
    Streaming,
    /// Validation failed; terminal.
    Rejected,
    /// Transport gone; terminal.
    Closed,
}

/// What happened to a connection.
#[derive(Clone, Copy, Debug, PartialEq, Eq, Structural)]
pub enum ConnectionEvent {
    /// The transport finished connecting.
    TransportReady,
    /// The handshake header passed validation.
    HeaderValid,
    /// The handshake header failed validation.
    HeaderInvalid,
    /// The response header was written back.
    ResponseSent,
    /// The peer closed its end.
    PeerClosed,
    /// A read or write failed.
    IoFailure,
    /// The owning publisher was removed from the registry.
    PublisherDropped,
}

/// The connection life cycle: acceptance, header validation,
/// streaming, and the two terminal phases.  Any event that a phase
/// does not expect leaves the phase unchanged.
pub open spec fn spec_connection_step(phase: ConnectionPhase, event: ConnectionEvent)
    -> ConnectionPhase {
    match (phase, event) {
        (ConnectionPhase::Accepted, ConnectionEvent::TransportReady) =>
            ConnectionPhase::AwaitingHeader,
        (ConnectionPhase::AwaitingHeader, ConnectionEvent::HeaderValid) =>
            ConnectionPhase::Validated,
        (ConnectionPhase::AwaitingHeader, ConnectionEvent::HeaderInvalid) =>
            ConnectionPhase::Rejected,
        (ConnectionPhase::Validated, ConnectionEvent::ResponseSent) => ConnectionPhase::Streaming,
        (ConnectionPhase::Streaming, ConnectionEvent::PeerClosed) => ConnectionPhase::Closed,
        (ConnectionPhase::Streaming, ConnectionEvent::IoFailure) => ConnectionPhase::Closed,
        (ConnectionPhase::Streaming, ConnectionEvent::PublisherDropped) => ConnectionPhase::Closed,
        (p, _) => p,
    }
}

/// Advances a connection's phase by one event, exactly as
/// [`spec_connection_step`] states.
pub fn connection_step(phase: ConnectionPhase, event: ConnectionEvent) -> (next: ConnectionPhase)
    ensures
        next == spec_connection_step(phase, event),
{
    match (phase, event) {
        (ConnectionPhase::Accepted, ConnectionEvent::TransportReady) =>
            ConnectionPhase::AwaitingHeader,
        (ConnectionPhase::AwaitingHeader, ConnectionEvent::HeaderValid) =>
            ConnectionPhase::Validated,
        (ConnectionPhase::AwaitingHeader, ConnectionEvent::HeaderInvalid) =>
            ConnectionPhase::Rejected,
        (ConnectionPhase::Validated, ConnectionEvent::ResponseSent) => ConnectionPhase::Streaming,
        (ConnectionPhase::Streaming, ConnectionEvent::PeerClosed) => ConnectionPhase::Closed,
        (ConnectionPhase::Streaming, ConnectionEvent::IoFailure) => ConnectionPhase::Closed,
        (ConnectionPhase::Streaming, ConnectionEvent::PublisherDropped) => ConnectionPhase::Closed,
        (p, _) => p,
    }
}

/// The error header written back to a rejected connection before its
/// transport is closed: one reserved `error` field whose value
/// describes the failure.
pub fn error_header(e: &Error) -> (r: Vec<(String, String)>)
    ensures
        fields_view(r@) =~~= seq![("error"@, e.spec_description())],
{
    let mut r: Vec<(String, String)> = Vec::new();
    r.push(("error".to_owned(), e.description().to_owned()));
    r
}

} // verus!
