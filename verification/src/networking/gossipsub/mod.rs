//! Gossip: topics, messages and their validation.

pub mod context;
pub mod error;
pub mod lean;
pub mod validate;

use vstd::prelude::*;

use crate::networking::gossipsub::error::{GossipsubError, TopicFault};
use crate::networking::gossipsub::lean::topics::{
    LeanGossipTopic, LeanGossipTopicKind, TopicModel,
};
use crate::networking::validate::GossipValidatorKind;

verus! {

/// How the payloads of a kind of topic are validated.
pub open spec fn validator_of(kind: LeanGossipTopicKind) -> GossipValidatorKind {
    match kind {
        LeanGossipTopicKind::Block => GossipValidatorKind::Block,
        LeanGossipTopicKind::AggregatedAttestation => GossipValidatorKind::AggregatedAttestation,
        LeanGossipTopicKind::AttestationSubnet(_) => GossipValidatorKind::Attestation,
    }
}

/// How the payloads of a topic are validated.
pub open spec fn topic_validator(topic: Seq<char>) -> Result<GossipValidatorKind, TopicFault> {
    match TopicModel::of_text(topic) {
        Ok(t) => Ok(validator_of(t.kind)),
        Err(e) => Err(e),
    }
}

/// How the payloads of a topic are validated.
pub fn kind_from_topic_hash(topic: &str) -> (r: Result<GossipValidatorKind, GossipsubError>)
    ensures
        match r {
            Ok(k) => topic_validator(topic@) == Ok::<GossipValidatorKind, TopicFault>(k),
            Err(e) => topic_validator(topic@) == Err::<GossipValidatorKind, TopicFault>(e@),
        },
{
    match LeanGossipTopic::from_topic_hash(topic) {
        Ok(t) => match t.kind {
            LeanGossipTopicKind::Block => Ok(GossipValidatorKind::Block),
            LeanGossipTopicKind::AggregatedAttestation => {
                Ok(GossipValidatorKind::AggregatedAttestation)
            },
            LeanGossipTopicKind::AttestationSubnet(_) => Ok(GossipValidatorKind::Attestation),
        },
        Err(e) => Err(e),
    }
}

} // verus!
