//! Node-local publication registry and topic-distribution layer for a
//! publish/subscribe messaging fabric.
//!
//! A process advertises named topics through a [`PublicationsTracker`],
//! accepts and validates inbound subscriber connections with a header
//! handshake, and fans typed messages out to every currently connected
//! subscriber of a topic.

use vstd::prelude::*;

pub mod error;
pub mod header;
pub mod publisher;
pub mod publications;
pub mod status;

verus! {

/// Immutable identity of a topic: name, message type name, and the
/// content hash (a fingerprint of the message schema) that detects
/// incompatible type definitions sharing a name.
#[derive(Clone, Debug)]
pub struct Topic {
    pub name: String,
    pub msg_type: String,
    pub md5sum: String,
}

/// Mathematical image of a [`Topic`]: the three identity strings as
/// character sequences.
#[verifier::ext_equal]
pub struct TopicV {
    pub name: Seq<char>,
    pub msg_type: Seq<char>,
    pub md5sum: Seq<char>,
}

impl View for Topic {
    type V = TopicV;

    open spec fn view(&self) -> TopicV {
        TopicV { name: self.name@, msg_type: self.msg_type@, md5sum: self.md5sum@ }
    }
}

/// The type identity a caller declares when it asks for a stream:
/// full schema text, type name, and content hash.
#[derive(Clone, Debug)]
pub struct RawMessageDescription {
    pub msg_definition: String,
    pub msg_type: String,
    pub md5sum: String,
}

/// Mathematical image of a [`RawMessageDescription`].
#[verifier::ext_equal]
pub struct RawMessageDescriptionV {
    pub msg_definition: Seq<char>,
    pub msg_type: Seq<char>,
    pub md5sum: Seq<char>,
}

impl View for RawMessageDescription {
    type V = RawMessageDescriptionV;

    open spec fn view(&self) -> RawMessageDescriptionV {
        RawMessageDescriptionV {
            msg_definition: self.msg_definition@,
            msg_type: self.msg_type@,
            md5sum: self.md5sum@,
        }
    }
}

impl RawMessageDescription {
    /// A copy describing the same type.
    pub fn duplicate(&self) -> (r: RawMessageDescription)
        ensures
            r@ == self@,
    {
        RawMessageDescription {
            msg_definition: self.msg_definition.clone(),
            msg_type: self.msg_type.clone(),
            md5sum: self.md5sum.clone(),
        }
    }
}

/// Capability set of a publishable message type: static type metadata
/// carried as data so the registry's type-consistency check is a plain
/// value comparison.  Implemented by message types outside this crate.
pub trait Message: Clone + Sized {
    fn msg_definition() -> String;

    fn md5sum() -> String;

    fn msg_type() -> String;
}

/// A message type that also names a request and a response payload,
/// for request/response exchanges layered over the same transport.
pub trait ServicePair: Message {
    type Request;

    type Response;
}

/// True when a declared description agrees with a topic's binding on
/// both the type name and the content hash.
pub open spec fn description_matches(topic: TopicV, desc: RawMessageDescriptionV) -> bool {
    desc.msg_type == topic.msg_type && desc.md5sum == topic.md5sum
}

} // verus!
