//! Process-wide publications registry: the single source of truth for
//! which topics this process publishes.
//!
//! The registry maps topic names to publishers, one publisher per
//! name.  A stream request creates the publisher on first use, or
//! type-checks against the existing binding and reuses it; removal
//! erases the entry unconditionally.  Every operation is one atomic
//! step on the registry value; callers that share it across threads
//! wrap it in their own mutual exclusion.

use vstd::prelude::*;
use crate::error::Error;
use crate::header::str_eq;
use crate::publisher::{Publisher, PublisherV, PublisherStream, spec_new_publisher};
use crate::{RawMessageDescription, RawMessageDescriptionV, Topic, description_matches};

verus! {

/// The index of the first publisher bound to `name`, or `-1`.
pub open spec fn topic_index(pubs: Seq<PublisherV>, name: Seq<char>) -> int
    decreases pubs.len(),
{
    if pubs.len() == 0 {
        -1
    } else if pubs[0].topic.name == name {
        0
    } else {
        let rest = topic_index(pubs.drop_first(), name);
        if rest == -1 {
            -1
        } else {
            rest + 1
        }
    }
}

/// A prefix without the name and a match at its end pin the index.
pub proof fn lemma_topic_index_at(pubs: Seq<PublisherV>, name: Seq<char>, i: int)
    requires
        0 <= i < pubs.len(),
        pubs[i].topic.name == name,
        forall|j: int| 0 <= j < i ==> pubs[j].topic.name != name,
    ensures
        topic_index(pubs, name) == i,
    decreases i,
{
    if i == 0 {
    } else {
        assert(pubs.drop_first()[i - 1].topic.name == name);
        assert(forall|j: int| 0 <= j < i - 1 ==> pubs.drop_first()[j].topic.name != name);
        lemma_topic_index_at(pubs.drop_first(), name, i - 1);
    }
}

/// A sequence without the name anywhere answers `-1`.
pub proof fn lemma_topic_index_absent(pubs: Seq<PublisherV>, name: Seq<char>)
    requires
        forall|j: int| 0 <= j < pubs.len() ==> pubs[j].topic.name != name,
    ensures
        topic_index(pubs, name) == -1,
    decreases pubs.len(),
{
    if pubs.len() > 0 {
        assert(forall|j: int| 0 <= j < pubs.len() - 1 ==> pubs.drop_first()[j].topic.name != name);
        lemma_topic_index_absent(pubs.drop_first(), name);
    }
}

/// What a found or missing index means: a found index lies in range,
/// carries the name, and is the first to do so; `-1` means the name
/// is nowhere.
pub proof fn lemma_topic_index_first(pubs: Seq<PublisherV>, name: Seq<char>)
    ensures
        topic_index(pubs, name) == -1 ==> forall|j: int|
            0 <= j < pubs.len() ==> pubs[j].topic.name != name,
        topic_index(pubs, name) != -1 ==> 0 <= topic_index(pubs, name) < pubs.len() && pubs[
            topic_index(pubs, name)
        ].topic.name == name && forall|j: int|
            0 <= j < topic_index(pubs, name) ==> pubs[j].topic.name != name,
    decreases pubs.len(),
{
    if pubs.len() > 0 && pubs[0].topic.name != name {
        lemma_topic_index_first(pubs.drop_first(), name);
        let rest = topic_index(pubs.drop_first(), name);
        if rest == -1 {
            assert forall|j: int| 0 <= j < pubs.len() implies pubs[j].topic.name != name by {
                if j > 0 {
                    assert(pubs.drop_first()[j - 1] == pubs[j]);
                }
            }
        } else {
            assert(pubs[rest + 1] == pubs.drop_first()[rest]);
            assert forall|j: int| 0 <= j < rest + 1 implies pubs[j].topic.name != name by {
                if j > 0 {
                    assert(pubs.drop_first()[j - 1] == pubs[j]);
                }
            }
        }
    }
}

/// Mathematical image of a [`PublicationsTracker`].
#[verifier::ext_equal]
pub struct TrackerV {
    pub publishers: Seq<PublisherV>,
}

impl TrackerV {
    /// Validity: every publisher is well formed and no two share a
    /// topic name.
    pub open spec fn wf(self) -> bool {
        &&& forall|i: int|
            0 <= i < self.publishers.len() ==> (#[trigger] self.publishers[i]).wf()
        &&& forall|i: int, j: int|
            0 <= i < j < self.publishers.len() ==> (#[trigger] self.publishers[i]).topic.name != (
            #[trigger] self.publishers[j]).topic.name
    }

    /// Whether a publisher for `name` exists.
    pub open spec fn has_topic(self, name: Seq<char>) -> bool {
        topic_index(self.publishers, name) != -1
    }

    /// The registry after erasing the entry for `name`; unchanged
    /// when none exists, so erasure is idempotent.
    pub open spec fn spec_remove(self, name: Seq<char>) -> TrackerV {
        let i = topic_index(self.publishers, name);
        if i == -1 {
            self
        } else {
            TrackerV { publishers: self.publishers.remove(i) }
        }
    }

    /// When a stream request succeeds: the topic is new, or the
    /// declared description agrees with the existing binding.
    pub open spec fn spec_add_ok(self, name: Seq<char>, desc: RawMessageDescriptionV) -> bool {
        let i = topic_index(self.publishers, name);
        i == -1 || description_matches(self.publishers[i].topic, desc)
    }

    /// The registry after a successful stream request: a fresh
    /// publisher whose first handle is already out, or the existing
    /// publisher with its handle counter advanced.
    pub open spec fn spec_add(
        self,
        hostname: Seq<char>,
        name: Seq<char>,
        queue_size: usize,
        caller_id: Seq<char>,
        desc: RawMessageDescriptionV,
        port: u16,
    ) -> TrackerV {
        let i = topic_index(self.publishers, name);
        if i == -1 {
            TrackerV {
                publishers: self.publishers.push(
                    PublisherV {
                        next_stream_id: 1,
                        ..spec_new_publisher(
                            hostname,
                            name,
                            queue_size,
                            caller_id,
                            desc.msg_type,
                            desc.md5sum,
                            port,
                        )
                    },
                ),
            }
        } else {
            TrackerV {
                publishers: self.publishers.update(
                    i,
                    PublisherV {
                        next_stream_id: if self.publishers[i].next_stream_id < u64::MAX {
                            (self.publishers[i].next_stream_id + 1) as u64
                        } else {
                            self.publishers[i].next_stream_id
                        },
                        ..self.publishers[i]
                    },
                ),
            }
        }
    }

    /// The stream handle a successful request returns: bound to the
    /// topic's (new or existing) identity, carrying the next handle
    /// number.
    pub open spec fn spec_add_stream(
        self,
        name: Seq<char>,
        queue_size: usize,
        desc: RawMessageDescriptionV,
    ) -> crate::publisher::PublisherStreamV {
        let i = topic_index(self.publishers, name);
        if i == -1 {
            crate::publisher::PublisherStreamV {
                topic: crate::TopicV { name: name, msg_type: desc.msg_type, md5sum: desc.md5sum },
                queue_size: queue_size,
                stream_id: 0,
            }
        } else {
            crate::publisher::PublisherStreamV {
                topic: self.publishers[i].topic,
                queue_size: queue_size,
                stream_id: self.publishers[i].next_stream_id,
            }
        }
    }
}

/// The registry of every topic this process currently publishes.
pub struct PublicationsTracker {
    pub publishers: Vec<Publisher>,
}

impl View for PublicationsTracker {
    type V = TrackerV;

    open spec fn view(&self) -> TrackerV {
        TrackerV { publishers: Seq::new(self.publishers@.len(), |i: int| self.publishers@[i]@) }
    }
}

impl Default for PublicationsTracker {
    /// An empty registry: no topic is published yet.
    fn default() -> (r: PublicationsTracker)
        ensures
            r@.publishers =~= Seq::<PublisherV>::empty(),
            r@.wf(),
    {
        PublicationsTracker { publishers: Vec::new() }
    }
}

impl PublicationsTracker {
    /// An empty registry: no topic is published yet.
    pub fn new() -> (r: PublicationsTracker)
        ensures
            r@.publishers =~= Seq::<PublisherV>::empty(),
            r@.wf(),
    {
        PublicationsTracker { publishers: Vec::new() }
    }

    /// The index of the publisher bound to `topic`, when one exists.
    fn find_topic(&self, topic: &str) -> (r: Option<usize>)
        ensures
            match r {
                Some(i) => i < self.publishers@.len() && topic_index(self@.publishers, topic@)
                    == i as int,
                None => topic_index(self@.publishers, topic@) == -1,
            },
    {
        let n = self.publishers.len();
        for i in 0..n
            invariant
                n == self.publishers@.len(),
                forall|j: int| 0 <= j < i ==> self@.publishers[j].topic.name != topic@,
        {
            proof {
                assert(self@.publishers[i as int] == self.publishers@[i as int]@);
            }
            if str_eq(self.publishers[i].topic.name.as_str(), topic) {
                proof {
                    lemma_topic_index_at(self@.publishers, topic@, i as int);
                }
                return Some(i);
            }
        }
        proof {
            lemma_topic_index_absent(self@.publishers, topic@);
        }
        None
    }

    /// A snapshot of the current topic names, in registration order.
    pub fn get_topic_names(&self) -> (r: Vec<String>)
        ensures
            r@.len() == self@.publishers.len(),
            forall|i: int|
                0 <= i < r@.len() ==> (#[trigger] r@[i])@ == self@.publishers[i].topic.name,
    {
        let n = self.publishers.len();
        let mut r: Vec<String> = Vec::new();
        for i in 0..n
            invariant
                n == self.publishers@.len(),
                r@.len() == i,
                forall|j: int|
                    0 <= j < i ==> (#[trigger] r@[j])@ == self@.publishers[j].topic.name,
        {
            proof {
                assert(self@.publishers[i as int] == self.publishers@[i as int]@);
            }
            r.push(self.publishers[i].topic.name.clone());
        }
        r
    }

    /// A snapshot of the topic descriptors of all live publishers, in
    /// registration order.
    pub fn get_topics(&self) -> (r: Vec<Topic>)
        ensures
            r@.len() == self@.publishers.len(),
            forall|i: int| 0 <= i < r@.len() ==> (#[trigger] r@[i])@ == self@.publishers[i].topic,
    {
        let n = self.publishers.len();
        let mut r: Vec<Topic> = Vec::new();
        for i in 0..n
            invariant
                n == self.publishers@.len(),
                r@.len() == i,
                forall|j: int| 0 <= j < i ==> (#[trigger] r@[j])@ == self@.publishers[j].topic,
        {
            proof {
                assert(self@.publishers[i as int] == self.publishers@[i as int]@);
            }
            let t = Topic {
                name: self.publishers[i].topic.name.clone(),
                msg_type: self.publishers[i].topic.msg_type.clone(),
                md5sum: self.publishers[i].topic.md5sum.clone(),
            };
            r.push(t);
        }
        r
    }

    /// The listening port of the publisher for `topic`, or absent
    /// when no publisher exists.
    pub fn get_port(&self, topic: &str) -> (r: Option<i32>)
        ensures
            ({
                let i = topic_index(self@.publishers, topic@);
                match r {
                    Some(p) => i != -1 && p == self@.publishers[i].port as i32,
                    None => i == -1,
                }
            }),
    {
        match self.find_topic(topic) {
            Some(i) => {
                proof {
                    assert(self@.publishers[i as int] == self.publishers@[i as int]@);
                }
                Some(self.publishers[i].port as i32)
            },
            None => None,
        }
    }

    /// Erases the registry entry for `topic` if present; idempotent.
    /// Outstanding connections are not closed here: they observe
    /// closure when the publisher's resources are released.
    pub fn remove(&mut self, topic: &str)
        ensures
            final(self)@ == old(self)@.spec_remove(topic@),
            old(self)@.wf() ==> final(self)@.wf(),
    {
        let ghost orig = old(self)@;
        match self.find_topic(topic) {
            Some(i) => {
                self.publishers.remove(i);
                proof {
                    assert(self@ =~~= TrackerV {
                        publishers: orig.publishers.remove(i as int),
                    });
                    if orig.wf() {
                        lemma_tracker_remove_wf(orig, i as int);
                    }
                }
            },
            None => {
                proof {
                    assert(self@ =~~= orig);
                }
            },
        }
    }

    /// The central operation.  If no publisher exists for `topic`,
    /// one is created bound to `hostname` on the freshly bound
    /// `listen_port`, registered, and its first stream handle is
    /// returned.  Otherwise the declared description is validated
    /// against the existing binding: agreement returns a new handle
    /// from the same publisher, disagreement fails with the
    /// type-conflict error, naming the bound and the requested type,
    /// and alters nothing.
    pub fn add(
        &mut self,
        hostname: &str,
        topic: &str,
        queue_size: usize,
        caller_id: &str,
        message_description: RawMessageDescription,
        listen_port: u16,
    ) -> (r: Result<PublisherStream, Error>)
        ensures
            old(self)@.spec_add_ok(topic@, message_description@) ==> ({
                &&& r matches Ok(s)
                &&& s@ == old(self)@.spec_add_stream(topic@, queue_size, message_description@)
                &&& final(self)@ == old(self)@.spec_add(
                    hostname@,
                    topic@,
                    queue_size,
                    caller_id@,
                    message_description@,
                    listen_port,
                )
            }),
            !old(self)@.spec_add_ok(topic@, message_description@) ==> ({
                &&& r matches Err(e)
                &&& e matches Error::MessageTypeMismatch(expected, actual)
                &&& expected@ == old(self)@.publishers[topic_index(
                    old(self)@.publishers,
                    topic@,
                )].topic.msg_type
                &&& actual@ == message_description@.msg_type
                &&& final(self)@ == old(self)@
            }),
            old(self)@.wf() ==> final(self)@.wf(),
    {
        let ghost orig = old(self)@;
        match self.find_topic(topic) {
            Some(i) => {
                let ghost pre = self.publishers@;
                let mut p = self.publishers.remove(i);
                proof {
                    pre.remove_ensures(i as int);
                    assert(p@ == orig.publishers[i as int]);
                }
                let res = p.stream(queue_size, message_description);
                self.publishers.insert(i, p);
                proof {
                    assert(self@.publishers =~~= orig.publishers.update(i as int, p@));
                    if orig.wf() {
                        lemma_tracker_update_wf(orig, i as int, p@);
                    }
                }
                res
            },
            None => {
                let desc = message_description.duplicate();
                let mut p = Publisher::new(
                    hostname,
                    topic,
                    queue_size,
                    caller_id,
                    message_description,
                    listen_port,
                );
                let res = p.stream(queue_size, desc);
                let ghost pv = p@;
                self.publishers.push(p);
                proof {
                    assert(res is Ok);
                    assert(self@.publishers =~~= orig.publishers.push(pv));
                    assert(self@ =~~= orig.spec_add(
                        hostname@,
                        topic@,
                        queue_size,
                        caller_id@,
                        message_description@,
                        listen_port,
                    ));
                    if orig.wf() {
                        lemma_topic_index_first(orig.publishers, topic@);
                        lemma_tracker_push_wf(orig, pv);
                    }
                }
                res
            },
        }
    }
}

/// Stream requests for one topic with one agreed type never
/// conflict: stated for two consecutive requests (an arbitrary
/// interleaving being a sequence of them), the first creates at most
/// one publisher, the second succeeds and creates none, and the two
/// handles are distinct but bound to the same topic identity.
pub proof fn lemma_add_same_type_twice(
    t: TrackerV,
    hostname: Seq<char>,
    name: Seq<char>,
    qs1: usize,
    qs2: usize,
    caller: Seq<char>,
    desc: RawMessageDescriptionV,
    port: u16,
)
    requires
        t.wf(),
        t.spec_add_ok(name, desc),
        t.has_topic(name) ==> t.publishers[topic_index(t.publishers, name)].next_stream_id
            < u64::MAX,
    ensures
        ({
            let t1 = t.spec_add(hostname, name, qs1, caller, desc, port);
            &&& t1.spec_add_ok(name, desc)
            &&& t1.publishers.len() as int == (if t.has_topic(name) {
                t.publishers.len() as int
            } else {
                t.publishers.len() as int + 1
            })
            &&& t1.spec_add(hostname, name, qs2, caller, desc, port).publishers.len()
                == t1.publishers.len()
            &&& t.spec_add_stream(name, qs1, desc).topic == t1.spec_add_stream(
                name,
                qs2,
                desc,
            ).topic
            &&& t.spec_add_stream(name, qs1, desc).stream_id != t1.spec_add_stream(
                name,
                qs2,
                desc,
            ).stream_id
        }),
{
    let i = topic_index(t.publishers, name);
    let t1 = t.spec_add(hostname, name, qs1, caller, desc, port);
    lemma_topic_index_first(t.publishers, name);
    if i == -1 {
        lemma_topic_index_at(t1.publishers, name, t.publishers.len() as int);
    } else {
        assert(t1.publishers[i].topic.name == name);
        assert(forall|j: int| 0 <= j < i ==> t1.publishers[j] == t.publishers[j]);
        lemma_topic_index_at(t1.publishers, name, i);
    }
}

/// A topic bound to one type rejects a request declaring another:
/// the request fails the type check and, with the contract of the
/// stream request, the registry's binding stays at the first type.
pub proof fn lemma_add_conflicting_type(
    t: TrackerV,
    hostname: Seq<char>,
    name: Seq<char>,
    qs: usize,
    caller: Seq<char>,
    desc1: RawMessageDescriptionV,
    desc2: RawMessageDescriptionV,
    port: u16,
)
    requires
        t.wf(),
        !t.has_topic(name),
        desc1.msg_type != desc2.msg_type || desc1.md5sum != desc2.md5sum,
    ensures
        ({
            let t1 = t.spec_add(hostname, name, qs, caller, desc1, port);
            let i = topic_index(t1.publishers, name);
            &&& !t1.spec_add_ok(name, desc2)
            &&& t1.publishers[i].topic.msg_type == desc1.msg_type
            &&& t1.publishers[i].topic.md5sum == desc1.md5sum
        }),
{
    let t1 = t.spec_add(hostname, name, qs, caller, desc1, port);
    lemma_topic_index_first(t.publishers, name);
    lemma_topic_index_at(t1.publishers, name, t.publishers.len() as int);
}

/// After removal the topic is gone — a port query answers absent —
/// and a subsequent stream request builds a fresh publisher on the
/// newly bound port, with no subscribers carried over.
pub proof fn lemma_remove_then_add(
    t: TrackerV,
    hostname: Seq<char>,
    name: Seq<char>,
    qs: usize,
    caller: Seq<char>,
    desc: RawMessageDescriptionV,
    port: u16,
)
    requires
        t.wf(),
    ensures
        ({
            let tr = t.spec_remove(name);
            let t2 = tr.spec_add(hostname, name, qs, caller, desc, port);
            let i = topic_index(t2.publishers, name);
            &&& !tr.has_topic(name)
            &&& tr.spec_add_ok(name, desc)
            &&& i != -1
            &&& t2.publishers[i].port == port
            &&& t2.publishers[i].subscribers =~= Seq::<crate::publisher::ConnectionV>::empty()
            &&& t2.publishers[i].topic.msg_type == desc.msg_type
            &&& t2.publishers[i].topic.md5sum == desc.md5sum
        }),
{
    let i0 = topic_index(t.publishers, name);
    let tr = t.spec_remove(name);
    lemma_topic_index_first(t.publishers, name);
    if i0 != -1 {
        let s2 = t.publishers.remove(i0);
        assert forall|j: int| 0 <= j < s2.len() implies (#[trigger] s2[j]).topic.name != name by {
            if j < i0 {
                assert(s2[j] == t.publishers[j]);
            } else {
                assert(s2[j] == t.publishers[j + 1]);
            }
        }
        lemma_topic_index_absent(tr.publishers, name);
    }
    let t2 = tr.spec_add(hostname, name, qs, caller, desc, port);
    lemma_topic_index_at(t2.publishers, name, tr.publishers.len() as int);
}

/// Removing one publisher keeps a registry well formed.
pub proof fn lemma_tracker_remove_wf(t: TrackerV, i: int)
    requires
        t.wf(),
        0 <= i < t.publishers.len(),
    ensures
        (TrackerV { publishers: t.publishers.remove(i) }).wf(),
{
    let s2 = t.publishers.remove(i);
    assert forall|k: int| 0 <= k < s2.len() implies (#[trigger] s2[k]).wf() by {
        if k < i {
            assert(s2[k] == t.publishers[k]);
        } else {
            assert(s2[k] == t.publishers[k + 1]);
        }
    }
    assert forall|k: int, l: int| 0 <= k < l < s2.len() implies (#[trigger] s2[k]).topic.name != (
    #[trigger] s2[l]).topic.name by {
        if k < i {
            assert(s2[k] == t.publishers[k]);
        } else {
            assert(s2[k] == t.publishers[k + 1]);
        }
        if l < i {
            assert(s2[l] == t.publishers[l]);
        } else {
            assert(s2[l] == t.publishers[l + 1]);
        }
    }
}

/// Replacing one publisher by a well-formed one with the same topic
/// name keeps a registry well formed.
pub proof fn lemma_tracker_update_wf(t: TrackerV, i: int, p: PublisherV)
    requires
        t.wf(),
        0 <= i < t.publishers.len(),
        p.wf(),
        p.topic.name == t.publishers[i].topic.name,
    ensures
        (TrackerV { publishers: t.publishers.update(i, p) }).wf(),
{
    let s2 = t.publishers.update(i, p);
    assert forall|k: int, l: int| 0 <= k < l < s2.len() implies (#[trigger] s2[k]).topic.name != (
    #[trigger] s2[l]).topic.name by {
        assert(t.publishers[k].topic.name != t.publishers[l].topic.name);
    }
}

/// Registering a well-formed publisher under a fresh topic name
/// keeps a registry well formed.
pub proof fn lemma_tracker_push_wf(t: TrackerV, p: PublisherV)
    requires
        t.wf(),
        p.wf(),
        forall|j: int| 0 <= j < t.publishers.len() ==> (#[trigger] t.publishers[j]).topic.name
            != p.topic.name,
    ensures
        (TrackerV { publishers: t.publishers.push(p) }).wf(),
{
    let s2 = t.publishers.push(p);
    assert forall|k: int, l: int| 0 <= k < l < s2.len() implies (#[trigger] s2[k]).topic.name != (
    #[trigger] s2[l]).topic.name by {
        if l < s2.len() - 1 {
            assert(t.publishers[k].topic.name != t.publishers[l].topic.name);
        }
    }
}

} // verus!
