use std::collections::HashSet;

use peam::containers::attestation::{
    AggregatedSignatureProof, Attestation, AttestationData, SignedAttestation,
};
use peam::containers::checkpoint::Checkpoint;
use peam::crypto::pq::{devnet_validator_seed, DevnetValidatorKeyRole};
use peam::metrics::histogram::{AtomicCounter, AtomicHistogram, BUCKETS_SIG};
use peam::metrics::registry::MetricsRegistry;
use peam::networking::framing::{
    decode_uvi_len, encode_uvi_len, snappy_frame_compress, snappy_frame_decompress,
};
use peam::networking::gossipsub::context::GossipContext;
use peam::networking::gossipsub::validate::{
    validate_attestation_with_context, validate_subnet_attestation_basic, ValidationResult,
};
use peam::networking::validate::{GossipSignatureVerifier, SimpleGossipVerifier};
use peam::slot::Slot;
use peam::types::bitlist::BitList;
use peam::types::bytes::{ByteList, Bytes3112, Bytes32, Bytes52};
use peam::types::uint::Uint64;

#[test]
fn devnet_role_seeds_are_distinct_and_stable() {
    let attestation = devnet_validator_seed(0, DevnetValidatorKeyRole::Attestation);
    let proposal = devnet_validator_seed(0, DevnetValidatorKeyRole::Proposal);

    assert_ne!(attestation, proposal);
    assert_eq!(attestation[..8], [0, 0, 49, 84, 69, 78, 86, 68]);
    assert_eq!(proposal[..8], [82, 80, 49, 84, 69, 78, 86, 68]);
    assert!(attestation[8..].iter().all(|byte| *byte == 0));
    assert!(proposal[8..].iter().all(|byte| *byte == 0));
}

#[test]
fn seeds_meet_only_beyond_the_registry() {
    let attestation = |index| devnet_validator_seed(index, DevnetValidatorKeyRole::Attestation);
    let proposal = |index| devnet_validator_seed(index, DevnetValidatorKeyRole::Proposal);
    assert_ne!(attestation(1), attestation(2));
    assert_ne!(attestation(4_095), proposal(1));
    assert_eq!(attestation(0x5052), proposal(0));
}

#[test]
fn atomic_counter_inc_and_get() {
    let mut c = AtomicCounter::new();
    assert_eq!(c.get(), 0);
    c.inc();
    assert_eq!(c.get(), 1);
    c.add(5);
    assert_eq!(c.get(), 6);
}

#[test]
fn atomic_histogram_observe_and_render() {
    let boundaries: &'static [u64] = &[10, 50, 100];
    let mut h = AtomicHistogram::new(boundaries);
    h.observe(5);
    h.observe(25);
    h.observe(75);
    h.observe(200);

    assert_eq!(h.count(), 4);
    assert_eq!(h.sum(), 305);

    let rendered = h.render("test_metric", "A test histogram.", false);
    assert!(rendered.contains("# HELP test_metric A test histogram."));
    assert!(rendered.contains("# TYPE test_metric histogram"));
    assert!(rendered.contains("test_metric_bucket{le=\"10\"} 1"));
    assert!(rendered.contains("test_metric_bucket{le=\"50\"} 2"));
    assert!(rendered.contains("test_metric_bucket{le=\"100\"} 3"));
    assert!(rendered.contains("test_metric_bucket{le=\"+Inf\"} 4"));
    assert!(rendered.contains("test_metric_sum 305"));
    assert!(rendered.contains("test_metric_count 4"));
}

#[test]
fn atomic_histogram_nanos_to_secs_render() {
    let mut h = AtomicHistogram::new(&BUCKETS_SIG);
    h.observe(7_000_000);
    let rendered = h.render("lean_pq_signing", "PQ signing time.", true);
    assert!(rendered.contains("le=\"0.005000\""));
    assert!(rendered.contains("le=\"0.010000\""));
    assert!(rendered.contains("lean_pq_signing_sum"));
    assert!(rendered.contains("lean_pq_signing_count 1"));
}

#[test]
fn metrics_registry_creates() {
    let mut r = MetricsRegistry::new();
    assert!(r.start_time_seconds > 0);
    assert_eq!(r.pq_attestation_signatures_total.get(), 0);
    assert_eq!(r.fc_attestations_valid_total.get(), 0);
    r.pq_attestation_signatures_total.inc();
    assert_eq!(r.pq_attestation_signatures_total.get(), 1);
}

struct MockContext {
    current: Option<Slot>,
    finalized: Option<Slot>,
    known: HashSet<Bytes32>,
}

impl GossipContext for MockContext {
    fn current(&self) -> Option<Slot> {
        self.current
    }

    fn finalized(&self) -> Option<Slot> {
        self.finalized
    }

    fn knows(&self, root: Bytes32) -> bool {
        self.known.contains(&root)
    }

    fn current_slot(&self) -> Option<Slot> {
        self.current
    }

    fn finalized_slot(&self) -> Option<Slot> {
        self.finalized
    }

    fn knows_block_root(&self, root: &Bytes32) -> bool {
        self.known.contains(root)
    }
}

fn context() -> MockContext {
    MockContext {
        current: Some(Slot(Uint64(10))),
        finalized: Some(Slot(Uint64(5))),
        known: [Bytes32([1; 32]), Bytes32([2; 32]), Bytes32([3; 32])]
            .into_iter()
            .collect(),
    }
}

fn signed_attestation(slot: u64, source: u64, target: u64, head: u64) -> SignedAttestation {
    SignedAttestation {
        validator_id: Uint64(0),
        message: AttestationData {
            slot: Slot(Uint64(slot)),
            source: Checkpoint { root: Bytes32([1; 32]), slot: Slot(Uint64(source)) },
            target: Checkpoint { root: Bytes32([2; 32]), slot: Slot(Uint64(target)) },
            head: Checkpoint { root: Bytes32([3; 32]), slot: Slot(Uint64(head)) },
        },
        signature: Bytes3112::zero(),
    }
}

#[test]
fn attestation_context_rejects_inconsistent_time_geometry() {
    let att = signed_attestation(9, 8, 9, 8);
    let res = validate_attestation_with_context(&att, &context());
    assert!(matches!(res, ValidationResult::Reject(_)));
}

#[test]
fn attestation_context_ignores_far_future_slot() {
    let att = signed_attestation(12, 8, 9, 10);
    let res = validate_attestation_with_context(&att, &context());
    assert!(matches!(res, ValidationResult::Ignore(_)));
}

#[test]
fn attestation_context_accepts_a_known_vote() {
    let att = signed_attestation(10, 8, 9, 10);
    let res = validate_attestation_with_context(&att, &context());
    assert!(matches!(res, ValidationResult::Accept));
}

#[test]
fn subnet_attestation_rejects_wrong_subnet() {
    let att = signed_attestation(10, 8, 9, 10);
    let res = validate_subnet_attestation_basic(1, &att);
    assert!(matches!(res, ValidationResult::Reject(_)));
}

#[test]
fn reqresp_request_framing_roundtrip() {
    let payload = vec![1u8, 2, 3, 4, 5, 6, 7, 8];
    let mut frame = Vec::new();
    encode_uvi_len(payload.len(), &mut frame);
    frame.extend_from_slice(&snappy_frame_compress(&payload).expect("compress"));

    let (len, prefix_len) = decode_uvi_len(&frame).expect("decode varint");
    assert_eq!(len, payload.len());
    let decoded = snappy_frame_decompress(&frame[prefix_len..], len).expect("decompress request");
    assert_eq!(decoded, payload);
}

#[test]
fn reqresp_response_framing_roundtrip() {
    let payload = vec![42u8; 32];
    let mut frame = Vec::new();
    frame.push(0);
    encode_uvi_len(payload.len(), &mut frame);
    frame.extend_from_slice(&snappy_frame_compress(&payload).expect("compress"));

    assert_eq!(frame[0], 0);
    let (len, prefix_len) = decode_uvi_len(&frame[1..]).expect("decode varint");
    assert_eq!(len, payload.len());
    let decoded =
        snappy_frame_decompress(&frame[(1 + prefix_len)..], len).expect("decompress response");
    assert_eq!(decoded, payload);
}

fn sample_attestation_data(slot: u64) -> AttestationData {
    let checkpoint = Checkpoint { root: Bytes32::zero(), slot: Slot(Uint64(0)) };
    AttestationData {
        slot: Slot(Uint64(slot)),
        head: checkpoint,
        target: checkpoint,
        source: checkpoint,
    }
}

#[test]
fn simple_verifier_rejects_placeholder_aggregate_proof() {
    let verifier = SimpleGossipVerifier::new(vec![Bytes52([0u8; 52])], vec![Bytes52([0u8; 52])]);
    let bits = BitList::new(vec![true]).expect("bits");
    let attestation = Attestation {
        aggregation_bits: bits.clone(),
        data: sample_attestation_data(1),
    };
    let proof = AggregatedSignatureProof {
        participants: bits,
        proof_data: ByteList::new(Vec::new()).expect("proof bytes"),
    };

    assert!(!verifier.verify_attestation_signature(&attestation, &proof));
}

#[test]
fn simple_verifier_rejects_invalid_non_placeholder_aggregate_proof() {
    let verifier = SimpleGossipVerifier::new(vec![Bytes52([0u8; 52])], vec![Bytes52([0u8; 52])]);
    let bits = BitList::new(vec![true]).expect("bits");
    let attestation = Attestation {
        aggregation_bits: bits.clone(),
        data: sample_attestation_data(2),
    };
    let proof = AggregatedSignatureProof {
        participants: bits,
        proof_data: ByteList::new(vec![0u8; 10]).expect("proof bytes"),
    };

    assert!(!verifier.verify_attestation_signature(&attestation, &proof));
}

#[test]
fn one_accepted_aggregate_lets_no_other_pass() {
    let mut verifier =
        SimpleGossipVerifier::new(vec![Bytes52([0u8; 52])], vec![Bytes52([0u8; 52])]);
    let bits = BitList::new(vec![true]).expect("bits");
    let proof = |bytes: Vec<u8>| AggregatedSignatureProof {
        participants: bits.clone(),
        proof_data: ByteList::new(bytes).expect("proof bytes"),
    };
    let vote = |slot: u64| Attestation {
        aggregation_bits: bits.clone(),
        data: sample_attestation_data(slot),
    };
    let check = verifier.aggregate_check(&vote(1), &proof(vec![7; 10])).expect("check");
    verifier.set_accepted(vec![check]);
    assert!(verifier.verify_attestation_signature(&vote(1), &proof(vec![7; 10])));
    assert!(!verifier.verify_attestation_signature(&vote(1), &proof(vec![])));
    assert!(!verifier.verify_attestation_signature(&vote(1), &proof(vec![0; 10])));
    assert!(!verifier.verify_attestation_signature(&vote(2), &proof(vec![7; 10])));
}
