//! Faults of gossip topics and messages.

use vstd::prelude::*;

verus! {

/// Why a topic or a message could not be read.
#[derive(Clone, Debug, PartialEq, Eq)]
pub enum GossipsubError {
    /// The topic has not the expected form.
    InvalidTopic(String),
    /// The message could not be decoded.
    Decode(String),
}

/// The value of a [`GossipsubError`].
#[verifier::ext_equal]
pub enum TopicFault {
    /// The topic has not the expected form.
    InvalidTopic(Seq<char>),
    /// The message could not be decoded.
    Decode(Seq<char>),
}

impl View for GossipsubError {
    type V = TopicFault;

    open spec fn view(&self) -> TopicFault {
        match *self {
            GossipsubError::InvalidTopic(s) => TopicFault::InvalidTopic(s@),
            GossipsubError::Decode(s) => TopicFault::Decode(s@),
        }
    }
}

impl From<String> for GossipsubError {
    fn from(value: String) -> (r: Self) {
        GossipsubError::Decode(value)
    }
}

impl vstd::std_specs::convert::FromSpecImpl<String> for GossipsubError {
    open spec fn obeys_from_spec() -> bool {
        true
    }

    open spec fn from_spec(value: String) -> Self {
        GossipsubError::Decode(value)
    }
}

} // verus!
