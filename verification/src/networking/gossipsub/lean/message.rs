//! Decoded gossip messages.

use vstd::prelude::*;

use crate::containers::attestation::{SignedAggregateModel, SignedAttestation};
use crate::containers::block::SignedBlockModel;
use crate::containers::gossip::{GossipAggregatedAttestation, GossipAttestation, GossipBlock};
use crate::networking::gossipsub::error::{GossipsubError, TopicFault};
use crate::networking::gossipsub::lean::topics::{
    LeanGossipTopic, LeanGossipTopicKind, TopicModel,
};

verus! {

/// A decoded gossip message.
#[derive(Clone, Debug, PartialEq, Eq)]
pub enum LeanGossipsubMessage {
    /// A signed block.
    Block(Box<GossipBlock>),
    /// An attestation outside the subnets.
    Attestation(Box<GossipAttestation>),
    /// An attestation of a subnet.
    AttestationSubnet { subnet_id: u64, attestation: Box<GossipAttestation> },
    /// An aggregated attestation.
    AggregatedAttestation(Box<GossipAggregatedAttestation>),
}

/// The value of a [`LeanGossipsubMessage`].
#[verifier::ext_equal]
pub enum MessageModel {
    Block(SignedBlockModel),
    Attestation(SignedAttestation),
    AttestationSubnet { subnet_id: u64, attestation: SignedAttestation },
    AggregatedAttestation(SignedAggregateModel),
}

impl View for LeanGossipsubMessage {
    type V = MessageModel;

    open spec fn view(&self) -> MessageModel {
        match *self {
            LeanGossipsubMessage::Block(b) => MessageModel::Block(b@),
            LeanGossipsubMessage::Attestation(a) => MessageModel::Attestation(a.attestation),
            LeanGossipsubMessage::AttestationSubnet { subnet_id, attestation } => {
                MessageModel::AttestationSubnet { subnet_id, attestation: attestation.attestation }
            },
            LeanGossipsubMessage::AggregatedAttestation(a) => {
                MessageModel::AggregatedAttestation(a@)
            },
        }
    }
}

impl MessageModel {
    /// What decoding a payload of a kind gives.
    pub open spec fn of_kind(kind: LeanGossipTopicKind, data: Seq<u8>) -> Result<
        MessageModel,
        TopicFault,
    > {
        match kind {
            LeanGossipTopicKind::Block => match SignedBlockModel::decoded(data, true) {
                Ok(b) => Ok(MessageModel::Block(b)),
                Err(e) => Err(TopicFault::Decode(e)),
            },
            LeanGossipTopicKind::AggregatedAttestation => match SignedAggregateModel::decoded(
                data,
                true,
            ) {
                Ok(a) => Ok(MessageModel::AggregatedAttestation(a)),
                Err(e) => Err(TopicFault::Decode(e)),
            },
            LeanGossipTopicKind::AttestationSubnet(subnet_id) => match SignedAttestation::decoded(
                data,
            ) {
                Ok(attestation) => Ok(MessageModel::AttestationSubnet { subnet_id, attestation }),
                Err(e) => Err(TopicFault::Decode(e)),
            },
        }
    }

    /// What decoding a payload of a topic gives.
    pub open spec fn decoded(topic: Seq<char>, data: Seq<u8>) -> Result<MessageModel, TopicFault> {
        match TopicModel::of_text(topic) {
            Ok(t) => Self::of_kind(t.kind, data),
            Err(e) => Err(e),
        }
    }
}

impl LeanGossipsubMessage {
    /// Decodes a payload of a topic.
    pub fn decode(topic: &str, data: &[u8]) -> (r: Result<Self, GossipsubError>)
        ensures
            match r {
                Ok(m) => MessageModel::decoded(topic@, data@) == Ok::<MessageModel, TopicFault>(m@),
                Err(e) => MessageModel::decoded(topic@, data@) == Err::<MessageModel, TopicFault>(
                    e@,
                ),
            },
    {
        let kind = match LeanGossipTopic::from_topic_hash(topic) {
            Ok(t) => t.kind,
            Err(e) => {
                return Err(e);
            },
        };
        match kind {
            LeanGossipTopicKind::Block => match GossipBlock::decode_ssz_checked(data) {
                Ok(b) => Ok(LeanGossipsubMessage::Block(Box::new(b))),
                Err(e) => Err(GossipsubError::from(e)),
            },
            LeanGossipTopicKind::AggregatedAttestation => {
                match GossipAggregatedAttestation::decode_ssz_checked(data) {
                    Ok(a) => Ok(LeanGossipsubMessage::AggregatedAttestation(Box::new(a))),
                    Err(e) => Err(GossipsubError::from(e)),
                }
            },
            LeanGossipTopicKind::AttestationSubnet(subnet_id) => {
                match GossipAttestation::decode_ssz_checked(data) {
                    Ok(a) => Ok(
                        LeanGossipsubMessage::AttestationSubnet {
                            subnet_id,
                            attestation: Box::new(a),
                        },
                    ),
                    Err(e) => Err(GossipsubError::from(e)),
                }
            },
        }
    }
}

} // verus!
