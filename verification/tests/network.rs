use peam::app::build_genesis;
use peam::containers::attestation::{AttestationData, SignedAttestation};
use peam::containers::block::{
    Block, BlockBody, BlockSignatures, BlockWithAttestation, SignedBlockWithAttestation,
};
use peam::containers::checkpoint::Checkpoint;
use peam::containers::config::Config;
use peam::containers::req_resp::{BlocksByRangeRequest, BlocksByRootRequest, Status};
use peam::containers::validator::ValidatorIndex;
use peam::metrics::histogram::AtomicHistogram;
use peam::metrics::registry::MetricsRegistry;
use peam::metrics::render::{http_reply_string, render_metrics_at, StoreGauges, SyncGauges};
use peam::networking::codec::{
    response_chunk, LeanReqRespCodec, LeanReqRespProtocol, LeanRequest, LeanResponse,
};
use peam::networking::discovery::Discovery;
use peam::networking::events::NetworkEvent;
use peam::networking::framing::{
    add_snappy_chunk, decode_uvi_len, encode_uvi_len, read_snappy_frame_exact, FrameFault,
};
use peam::networking::gossip::{Gossip, GossipMessage, OUTBOUND_PER_SEC};
use peam::networking::gossipsub::context::{
    GossipContext, NoopGossipContext, RecentRootCache, StateGossipContext,
};
use peam::networking::gossipsub::error::GossipsubError;
use peam::networking::gossipsub::lean::message::LeanGossipsubMessage;
use peam::networking::gossipsub::lean::topics::{LeanGossipTopic, LeanGossipTopicKind};
use peam::networking::gossipsub::validate::{
    is_retryable_unknown_roots_ignore, validate_basic_message, validate_with_context,
    ValidationResult,
};
use peam::networking::hex::{decode_hex_key, hex_encode, read_hex, to_hex};
use peam::networking::node_key::{choose_identity, read_node_key, with_peer, NodeIdentity};
use peam::networking::p2p::{request_route, subscriptions, P2pService, ReqRespRoute, SnappyTransform};
use peam::networking::peer_manager::{PeerManager, NANOS_PER_SEC};
use peam::networking::rate_limiter::RateLimiter;
use peam::networking::reqresp::{ReqResp, ReqRespMessage};
use peam::networking::reqresp_handler::{NoopReqRespHandler, ReqRespHandler, StoreReqRespHandler};
use peam::networking::reqresp_messages::{
    LeanRequestMessage, LeanResponseMessage, LeanSupportedProtocol,
};
use peam::networking::runtime::{Networking, NetworkingConfig};
use peam::networking::validate::{
    validate_gossip, verifier_from_validators, GossipSignatureVerifier, GossipValidatorKind,
    NoopGossipVerifier, SimpleGossipVerifier,
};
use peam::slot::Slot;
use peam::storage::BlockTable;
use peam::types::bitlist::BitList;
use peam::types::bytes::{Bytes3112, Bytes32, Bytes52};
use peam::types::collections::SszList;
use peam::types::uint::Uint64;

const BLOCKS: &str = "/leanconsensus/devnet3/blocks/ssz_snappy";
const VOTES: &str = "/leanconsensus/devnet3/attestation_0/ssz_snappy";

fn slot(n: u64) -> Slot {
    Slot(Uint64(n))
}

fn checkpoint(tag: u8, n: u64) -> Checkpoint {
    Checkpoint { root: Bytes32([tag; 32]), slot: slot(n) }
}

fn data(n: u64) -> AttestationData {
    AttestationData {
        slot: slot(n),
        head: checkpoint(3, n),
        target: checkpoint(2, n),
        source: checkpoint(1, 0),
    }
}

fn signed_vote(n: u64) -> SignedAttestation {
    SignedAttestation { validator_id: Uint64(0), message: data(n), signature: Bytes3112::zero() }
}

fn signed_block(n: u64) -> SignedBlockWithAttestation {
    SignedBlockWithAttestation {
        message: BlockWithAttestation {
            block: Block {
                slot: slot(n),
                proposer_index: ValidatorIndex(Uint64(1)),
                parent_root: Bytes32([4; 32]),
                state_root: Bytes32([5; 32]),
                body: BlockBody { attestations: SszList::empty() },
            },
            proposer_attestation: peam::containers::attestation::Attestation {
                aggregation_bits: BitList::new(vec![false, true]).unwrap(),
                data: data(n),
            },
        },
        signature: BlockSignatures {
            attestation_signatures: SszList::empty(),
            proposer_signature: Bytes3112::zero(),
        },
    }
}

fn service(max: usize) -> P2pService {
    let mut config = NetworkingConfig::default().p2p_config();
    config.allowed_topics = vec![BLOCKS.to_string(), VOTES.to_string()];
    config.topic_scores = vec![(BLOCKS.to_string(), 2)];
    config.topic_validators = vec![
        (BLOCKS.to_string(), GossipValidatorKind::Block),
        (VOTES.to_string(), GossipValidatorKind::Attestation),
    ];
    config.max_gossip_bytes = max;
    config.max_reqresp_bytes = max;
    P2pService::new(&config, "me".to_string())
}

#[test]
fn lengths_read_back() {
    for n in [0usize, 1, 127, 128, 300, 16_384, usize::MAX] {
        let mut b = vec![];
        encode_uvi_len(n, &mut b);
        assert_eq!(decode_uvi_len(&b), Ok((n, b.len())));
    }
    let mut b = vec![];
    encode_uvi_len(300, &mut b);
    assert_eq!(b, vec![0xac, 2]);
    assert_eq!(
        decode_uvi_len(&[0x80]),
        Err(FrameFault::UnexpectedEof("incomplete varint length".to_string()))
    );
}

#[test]
fn requests_read_back() {
    let codec = LeanReqRespCodec;
    let protocol = LeanReqRespProtocol(LeanSupportedProtocol::StatusV1.protocol_id());
    let payload = vec![7u8; 112];
    let frame = codec.write_request(&payload).unwrap();
    assert_ne!(frame, payload);
    let request = codec.read_request(&protocol, &frame).unwrap();
    assert_eq!(request.payload, payload);
    assert_eq!(request.protocol, protocol.0);
    for cut in 0..frame.len() {
        assert!(matches!(
            codec.read_request(&protocol, &frame[..cut]),
            Err(FrameFault::UnexpectedEof(_))
        ));
    }
    let mut spoilt = frame;
    spoilt[1] = 0;
    assert!(matches!(codec.read_request(&protocol, &spoilt), Err(FrameFault::Other(_))));
}

#[test]
fn responses_read_back() {
    let codec = LeanReqRespCodec;
    let protocol = LeanReqRespProtocol(LeanSupportedProtocol::BlocksByRootV1.protocol_id());
    let response = LeanResponse {
        protocol: protocol.0.clone(),
        response_code: 0,
        payloads: vec![vec![1; 100], vec![2; 5]],
    };
    let frame = codec.write_response(&response).unwrap();
    assert_eq!(codec.read_response(&protocol, &frame), Ok(response));
    let chunk = response_chunk(0, &[9; 40]).unwrap();
    let (code, payload, at) = codec.read_response_chunk(&chunk, 0).unwrap();
    assert_eq!((code, payload, at), (0, vec![9; 40], chunk.len()));
}

#[test]
fn responses_of_any_size_read_back() {
    let codec = LeanReqRespCodec;
    let mut seed: u32 = 1;
    let noise: Vec<u8> = (0..200_000)
        .map(|_| {
            seed = seed.wrapping_mul(1_664_525).wrapping_add(1_013_904_223);
            (seed >> 24) as u8
        })
        .collect();
    let protocol = LeanReqRespProtocol(LeanSupportedProtocol::BlocksByRangeV1.protocol_id());
    let response = LeanResponse {
        protocol: protocol.0.clone(),
        response_code: 0,
        payloads: vec![noise, vec![0; 200_000], vec![7], vec![1; 65_536]],
    };
    let frame = codec.write_response(&response).unwrap();
    assert_eq!(codec.read_response(&protocol, &frame), Ok(response.clone()));

    // A stream of blocks passes over refusals.
    let refusal = LeanResponse { response_code: 2, payloads: vec![], ..response };
    let frame = codec.write_response(&refusal).unwrap();
    assert_eq!(codec.read_response(&protocol, &frame).map(|r| r.payloads), Ok(vec![]));
}

#[test]
fn empty_payloads_cannot_be_read() {
    let codec = LeanReqRespCodec;
    let protocol = LeanReqRespProtocol(LeanSupportedProtocol::StatusV1.protocol_id());
    let response = LeanResponse {
        protocol: protocol.0.clone(),
        response_code: 0,
        payloads: vec![vec![]],
    };
    let frame = codec.write_response(&response).unwrap();
    assert_eq!(frame, vec![0, 0]);
    assert!(matches!(
        codec.read_response(&protocol, &frame),
        Err(FrameFault::UnexpectedEof(_))
    ));
}

#[test]
fn refusals_are_told() {
    let codec = LeanReqRespCodec;
    let protocol = LeanReqRespProtocol(LeanSupportedProtocol::StatusV1.protocol_id());
    let frame = response_chunk(1, &[b'n', b'o', 0xff]).unwrap();
    match codec.read_response(&protocol, &frame) {
        Err(FrameFault::InvalidData(s)) => {
            assert!(s.starts_with("non-success reqresp response code=1"));
            assert!(s.ends_with("detail=no\u{fffd}"));
        },
        other => panic!("unexpected {other:?}"),
    }
}

#[test]
fn snappy_chunks_are_taken_apart() {
    let payload = vec![3u8; 1_000];
    let frame = LeanReqRespCodec.write_request(&payload).unwrap();
    let (len, at) = decode_uvi_len(&frame).unwrap();
    let (out, end) = read_snappy_frame_exact(&frame, at, len).unwrap();
    assert_eq!(out, payload);
    assert_eq!(end, frame.len());
    let mut out = vec![];
    assert!(matches!(
        add_snappy_chunk(&mut out, 10, 1, &[0, 0]),
        Err(FrameFault::InvalidData(s)) if s == "snappy uncompressed chunk too short"
    ));
    assert!(matches!(
        add_snappy_chunk(&mut out, 10, 0, &[0, 0]),
        Err(FrameFault::InvalidData(s)) if s == "snappy compressed chunk too short"
    ));
    assert!(matches!(
        add_snappy_chunk(&mut out, 10, 5, &[0]),
        Err(FrameFault::InvalidData(s)) if s == "snappy reserved unskippable chunk"
    ));
}

#[test]
fn gossip_payloads_are_compressed() {
    let t = SnappyTransform::new(1_000);
    let payload = vec![8u8; 500];
    let packed = t.outbound_transform(&payload).unwrap();
    assert!(packed.len() < payload.len());
    assert_eq!(t.inbound_transform(&packed), Ok(payload));
    assert!(t.outbound_transform(&vec![0; 1_001]).is_err());
    let large = SnappyTransform::new(5_000).outbound_transform(&vec![0; 2_000]).unwrap();
    assert_eq!(
        t.inbound_transform(&large),
        Err(FrameFault::InvalidData("gossip message size (2000) exceeds max (1000)".to_string()))
    );
    assert!(matches!(t.inbound_transform(&[0xff; 12]), Err(FrameFault::Other(_))));
}

#[test]
fn topics_have_names() {
    let t = LeanGossipTopic::from_topic_hash(BLOCKS).unwrap();
    assert_eq!(t.fork, "devnet3");
    assert_eq!(t.kind, LeanGossipTopicKind::Block);
    assert_eq!(t.topic_string(), BLOCKS);
    let v = LeanGossipTopic::from_topic_hash(VOTES).unwrap();
    assert_eq!(v.kind, LeanGossipTopicKind::AttestationSubnet(0));
    assert_eq!(v.topic_string(), VOTES);
    match LeanGossipTopic::from_topic_hash("a\"b") {
        Err(GossipsubError::InvalidTopic(s)) => {
            assert_eq!(s, "Invalid topic format: TopicHash { hash: \"a\\\"b\" }");
        },
        other => panic!("unexpected {other:?}"),
    }
    assert!(LeanGossipTopic::from_topic_hash("/leanconsensus/devnet3/attestation_x/ssz_snappy").is_err());
    assert!(LeanGossipTopic::from_topic_hash("/leanconsensus/devnet3/other/ssz_snappy").is_err());
}

#[test]
fn messages_are_decoded_by_topic() {
    let b = signed_block(4);
    assert!(matches!(
        LeanGossipsubMessage::decode(BLOCKS, &b.encode_ssz()),
        Ok(LeanGossipsubMessage::Block(m)) if m.block == b
    ));
    let v = signed_vote(4);
    assert!(matches!(
        LeanGossipsubMessage::decode(VOTES, &v.encode_ssz()),
        Ok(LeanGossipsubMessage::AttestationSubnet { subnet_id: 0, attestation }) if attestation.attestation == v
    ));
    assert!(matches!(
        LeanGossipsubMessage::decode(BLOCKS, &[1, 2]),
        Err(GossipsubError::Decode(_))
    ));
}

#[test]
fn messages_in_order_are_accepted() {
    let m = LeanGossipsubMessage::decode(VOTES, &signed_vote(4).encode_ssz()).unwrap();
    assert!(matches!(validate_basic_message(&m), ValidationResult::Accept));
    assert!(matches!(validate_with_context(&m, &NoopGossipContext), ValidationResult::Accept));
    let state = build_genesis(Config { genesis_time: Uint64(0) }).unwrap();
    let context = StateGossipContext::with_slot_clock(&state, 4, RecentRootCache::new());
    match validate_with_context(&m, &context) {
        ValidationResult::Ignore(reason) => {
            assert!(is_retryable_unknown_roots_ignore(&reason));
        },
        other => panic!("unexpected {other:?}"),
    }
    let b = LeanGossipsubMessage::decode(BLOCKS, &signed_block(9).encode_ssz()).unwrap();
    assert!(!matches!(validate_with_context(&b, &context), ValidationResult::Accept));
    assert!(!is_retryable_unknown_roots_ignore("other"));
}

#[test]
fn contexts_know_recent_history() {
    let mut state = build_genesis(Config { genesis_time: Uint64(0) }).unwrap();
    let known = Bytes32([6; 32]);
    state.historical_block_hashes.data.push(known);
    state.slot = slot(2);
    let context = StateGossipContext::new(&state, RecentRootCache::new());
    assert_eq!(context.current_slot(), Some(slot(2)));
    assert_eq!(context.finalized_slot(), Some(slot(0)));
    assert!(context.knows_block_root(&known));
    assert!(!context.knows_block_root(&Bytes32([7; 32])));
}

#[test]
fn accepted_signatures_decide() {
    let mut v = SimpleGossipVerifier::new(vec![Bytes52([1; 52])], vec![Bytes52([2; 52])]);
    let vote = signed_vote(4);
    assert!(!v.verify_signed_attestation_signature(&vote));
    let check = v.vote_check(&vote).unwrap();
    assert_eq!(v.asked_checks(GossipValidatorKind::Attestation, &vote.encode_ssz()).len(), 1);
    v.set_accepted(vec![check]);
    assert!(v.verify_signed_attestation_signature(&vote));
    assert!(validate_gossip(GossipValidatorKind::Attestation, &vote.encode_ssz(), &v));
    assert!(!validate_gossip(GossipValidatorKind::Attestation, &signed_vote(5).encode_ssz(), &v));
    assert!(!validate_gossip(GossipValidatorKind::Attestation, &[1], &NoopGossipVerifier));
    assert!(validate_gossip(GossipValidatorKind::Unchecked, &[1], &NoopGossipVerifier));
    let state = build_genesis(Config { genesis_time: Uint64(0) }).unwrap();
    let from_registry = verifier_from_validators(&state.validators.data);
    assert!(!from_registry.verify_signed_attestation_signature(&vote));
}

#[test]
fn valid_gossip_is_passed_on() {
    let s = service(10_000);
    let peer = "p".to_string();
    let payload = signed_vote(4).encode_ssz();
    let events = s.on_gossip_message(
        &VOTES.to_string(),
        &payload,
        &peer,
        &NoopGossipVerifier,
        &NoopGossipContext,
    );
    assert!(events.contains(&NetworkEvent::GossipMessage {
        topic: VOTES.to_string(),
        payload: payload.clone(),
    }));
    let events = s.on_gossip_message(
        &"/other".to_string(),
        &payload,
        &peer,
        &NoopGossipVerifier,
        &NoopGossipContext,
    );
    assert!(events.iter().all(|e| !matches!(e, NetworkEvent::GossipMessage { .. })));
    let events = s.on_gossip_message(
        &VOTES.to_string(),
        &vec![1],
        &peer,
        &NoopGossipVerifier,
        &NoopGossipContext,
    );
    assert_eq!(
        events,
        vec![
            NetworkEvent::GossipValidated { topic: VOTES.to_string(), valid: true },
            NetworkEvent::PeerScored { peer_id: peer.clone(), score: -10 },
        ]
    );
    let events = s.on_gossip_message(
        &VOTES.to_string(),
        &vec![1; 10_001],
        &peer,
        &NoopGossipVerifier,
        &NoopGossipContext,
    );
    assert_eq!(events, vec![NetworkEvent::PeerScored { peer_id: peer, score: -25 }]);
}

#[test]
fn connections_are_told_once() {
    let s = service(1_000);
    let peer = "p".to_string();
    assert_eq!(s.local_peer_id(), "me");
    assert_eq!(s.listen_addr(), "/ip4/0.0.0.0/udp/9000/quic-v1");
    assert_eq!(
        s.on_connection_established(&peer, 1, true),
        Some(NetworkEvent::PeerConnected { peer_id: peer.clone(), inbound: true })
    );
    assert_eq!(s.on_connection_established(&peer, 2, true), None);
    assert_eq!(s.on_connection_closed(&peer, 1, false), None);
    assert_eq!(
        s.on_connection_closed(&peer, 0, false),
        Some(NetworkEvent::PeerDisconnected { peer_id: peer.clone(), inbound: false })
    );
    assert!(matches!(s.on_identified(&peer), NetworkEvent::PeerConnected { .. }));
    assert!(matches!(s.on_reqresp_failure(&peer), NetworkEvent::PeerScored { .. }));
}

#[test]
fn requests_are_answered() {
    let s = service(10_000);
    let peer = "p".to_string();
    let state = build_genesis(Config { genesis_time: Uint64(0) }).unwrap();
    let mut table = BlockTable::new();
    let signed = signed_block(3);
    let root = Bytes32(signed.message.block.hash_tree_root());
    table.insert(root, signed.clone());
    let handler = StoreReqRespHandler::new(&state, &table);
    let status = handler.build_status();
    let answers = handler.on_request(&LeanRequestMessage::Status(status));
    assert_eq!(answers, vec![LeanResponseMessage::Status(status)]);
    let request = LeanRequest {
        protocol: LeanSupportedProtocol::BlocksByRootV1.protocol_id(),
        payload: BlocksByRootRequest {
            roots: SszList::new(vec![Bytes32([9; 32]), root]).unwrap(),
        }
        .encode_ssz(),
    };
    let (_, reply) = s.on_request(&peer, &request, &handler);
    let reply = reply.unwrap();
    assert_eq!(reply.response_code, 0);
    assert_eq!(reply.payloads, vec![signed.encode_ssz()]);
    let told = s.on_response(&peer, &reply);
    assert!(told.iter().any(|e| matches!(e, NetworkEvent::ReqRespResponse { .. })));
    let bad = LeanRequest { protocol: request.protocol.clone(), payload: vec![1] };
    let (_, refusal) = s.on_request(&peer, &bad, &handler);
    assert_ne!(refusal.unwrap().response_code, 0);
    assert!(NoopReqRespHandler.on_request(&LeanRequestMessage::Status(status)).is_empty());
}

#[test]
fn protocols_have_names() {
    for p in [
        LeanSupportedProtocol::StatusV1,
        LeanSupportedProtocol::BlocksByRootV1,
        LeanSupportedProtocol::BlocksByRangeV1,
    ] {
        assert_eq!(LeanSupportedProtocol::parse_protocol_id(&p.protocol_id()), Some(p));
    }
    assert_eq!(LeanSupportedProtocol::StatusV1.protocol_id(), "/leanconsensus/req/status/1/ssz_snappy");
    assert_eq!(LeanSupportedProtocol::parse_protocol_id("/x"), None);
    assert_eq!(request_route("/x"), None);
    assert_eq!(
        request_route(&LeanSupportedProtocol::StatusV1.protocol_id()),
        Some(ReqRespRoute::Status)
    );
    let q = LeanRequestMessage::BlocksByRange(BlocksByRangeRequest {
        start_slot: Uint64(1),
        count: Uint64(2),
        step: Uint64(1),
    });
    assert_eq!(
        LeanRequestMessage::decode_ssz(LeanSupportedProtocol::BlocksByRangeV1, &q.encode_ssz()),
        Ok(q)
    );
    let s = LeanResponseMessage::Status(Status {
        fork_digest: Bytes32([1; 32]),
        finalized_root: Bytes32([2; 32]),
        finalized_epoch: Uint64(3),
        head_root: Bytes32([4; 32]),
        head_slot: Uint64(5),
    });
    assert_eq!(LeanResponseMessage::decode_ssz(LeanSupportedProtocol::StatusV1, &s.encode_ssz()), Ok(s));
    assert!(LeanRequestMessage::decode_ssz(LeanSupportedProtocol::StatusV1, &[0; 4]).is_err());
}

#[test]
fn windows_have_a_budget() {
    let mut l = RateLimiter::new(100, 2);
    assert!(l.allow("a", 0));
    assert!(l.allow("a", 50));
    assert!(!l.allow("a", 100));
    assert!(l.allow("b", 100));
    assert!(l.allow("a", 201));
}

#[test]
fn outbound_messages_are_limited() {
    let mut g = Gossip::new();
    for _ in 0..OUTBOUND_PER_SEC {
        assert!(g.publish("t".to_string(), vec![1], 5).0.is_some());
    }
    let (sent, event) = g.publish("t".to_string(), vec![1], 5);
    assert_eq!(sent, None);
    assert!(matches!(event, NetworkEvent::RateLimited { .. }));
    let mut r = ReqResp::new();
    let (sent, event) = r.send_request("p".to_string(), "q".to_string(), vec![3], 0);
    assert_eq!(
        sent,
        Some(ReqRespMessage::Request {
            peer_id: "p".to_string(),
            protocol: "q".to_string(),
            payload: vec![3],
        })
    );
    assert!(matches!(event, NetworkEvent::ReqRespRequest { .. }));
    let (sent, _) = r.send_response("p".to_string(), "q".to_string(), vec![4], 0);
    assert!(matches!(sent, Some(ReqRespMessage::Response { .. })));
}

#[test]
fn scores_decay_and_ban() {
    let mut m = PeerManager::new();
    let good = "good".to_string();
    let bad = "bad".to_string();
    m.connect(good.clone(), true);
    m.connect(bad.clone(), false);
    assert_eq!(m.peer_count(), 2);
    assert_eq!(m.connection_counts().connected_inbound.get(), 1);
    m.successful_response_from_peer(&good);
    assert_eq!(m.score(&good), Some(10));
    m.score_delta(&bad, -150);
    let (banned, events) = m.decay_and_prune(1, -100, 7);
    assert_eq!(banned, vec![bad.clone()]);
    assert!(events.iter().any(|e| matches!(e, NetworkEvent::PeerBanned { .. })));
    assert_eq!(m.score(&good), Some(9));
    assert!(!m.is_connected(&bad));
    for name in ["x", "y", "z"] {
        m.score_delta(&name.to_string(), -200);
    }
    let (mut banned, _) = m.decay_and_prune(0, -100, 7);
    banned.sort();
    assert_eq!(banned, vec!["x".to_string(), "y".to_string(), "z".to_string()]);
    assert_eq!(m.list(), vec![good.clone()]);
    assert_eq!(m.backoff_remaining(&bad, 7), Some(2 * NANOS_PER_SEC));
    assert_eq!(m.backoff_remaining(&good, 7), None);
    m.score_delta(&bad, -150);
    m.decay_and_prune(1, -100, 7);
    assert_eq!(m.backoff_remaining(&bad, 7), Some(4 * NANOS_PER_SEC));
    m.connect(bad.clone(), false);
    assert_eq!(m.backoff_remaining(&bad, 7), None);
    m.disconnect(&bad, false);
    m.failed_response_from_peer(&good);
    assert_eq!(m.score(&good), Some(-12));
    m.disconnect(&good, true);
    assert_eq!(m.peer_count(), 0);
}

#[test]
fn seeds_take_turns() {
    let mut d = Discovery::new(5);
    assert_eq!(d.interval_secs(), 5);
    assert_eq!(d.next_seed(), None);
    d.add_seed("/ip4/1.2.3.4/udp/9000/quic-v1");
    d.add_seed("no address");
    d.add_seed("/ip4/5.6.7.8/udp/9000/quic-v1");
    d.add_seed("/ip4/1.2.3.4/udp/9000/quic-v1");
    assert_eq!(d.next_seed(), Some("/ip4/1.2.3.4/udp/9000/quic-v1".to_string()));
    assert_eq!(d.next_seed(), Some("/ip4/5.6.7.8/udp/9000/quic-v1".to_string()));
    assert_eq!(d.next_seed(), Some("/ip4/1.2.3.4/udp/9000/quic-v1".to_string()));
    let mut e = Discovery::new(5);
    let peer = "QmYyQSo1c1Ym7orWxLYvCrM2EmxFTANf8wXmmE7DWjhx5N";
    e.add_seed(&format!("/ip4/1.2.3.4/udp/9000/quic-v1/p2p/{peer}"));
    let mut peers = PeerManager::new();
    assert!(e.next_dial(&peers).is_some());
    peers.connect(peer.to_string(), false);
    assert_eq!(e.next_dial(&peers), None);
}

#[test]
fn configurations_become_connections() {
    let mut c = NetworkingConfig::default();
    assert_eq!(c.ban_threshold, -100);
    assert_eq!(c.allowed_topics.len(), 3);
    c.bootnodes = vec!["/ip4/1.2.3.4/udp/1/quic-v1".to_string(), "junk".to_string()];
    c.trusted_peers = vec!["/ip4/9.9.9.9/udp/2/quic-v1".to_string()];
    c.listen_addr = "junk".to_string();
    let p = c.p2p_config();
    assert_eq!(
        p.bootnodes,
        vec!["/ip4/1.2.3.4/udp/1/quic-v1".to_string(), "/ip4/9.9.9.9/udp/2/quic-v1".to_string()]
    );
    assert_eq!(p.listen_addr, "/ip4/0.0.0.0/udp/9000/quic-v1");
    assert_eq!(p.gossipsub_topic, c.allowed_topics[0]);
    assert!(subscriptions(&p).contains(&c.allowed_topics[0]));
}

#[test]
fn inbound_gossip_is_scored() {
    let mut n = Networking::start_with_config(&NetworkingConfig::default());
    let msg = GossipMessage {
        peer_id: Some("p".to_string()),
        topic: "t".to_string(),
        payload: vec![],
    };
    for i in 0..10 {
        n.on_inbound_gossip(&msg, 0);
        assert_eq!(n.peers.score(&"p".to_string()), Some(i + 1));
    }
    let told = n.on_inbound_gossip(&msg, 0);
    assert_eq!(
        told[0],
        NetworkEvent::RateLimited { peer_id: "p".to_string(), category: "gossip_topic".to_string() }
    );
    assert_eq!(n.peers.score(&"p".to_string()), Some(0));
    let unknown = GossipMessage { peer_id: None, topic: "t".to_string(), payload: vec![] };
    assert!(n.on_inbound_gossip(&unknown, 0).is_empty());
    assert_eq!(n.peers.score(&"unknown".to_string()), None);
}

#[test]
fn inbound_requests_are_scored() {
    let mut n = Networking::start_with_config(&NetworkingConfig::default());
    let msg = ReqRespMessage::Request {
        peer_id: "p".to_string(),
        protocol: "q".to_string(),
        payload: vec![],
    };
    for _ in 0..128 {
        assert_eq!(n.on_inbound_reqresp(&msg, 0).len(), 1);
    }
    let told = n.on_inbound_reqresp(&msg, 0);
    assert_eq!(told.len(), 2);
    assert_eq!(n.peers.score(&"p".to_string()), Some(1_260));
    n.on_event(&NetworkEvent::PeerConnected { peer_id: "p".to_string(), inbound: true });
    assert!(n.peers.is_connected(&"p".to_string()));
    n.add_seed_peer("/ip4/1.2.3.4/udp/1/quic-v1");
    assert!(n.discovery.next_seed().is_some());
    let (banned, _) = n.decay_scores(0);
    assert!(banned.is_empty());
    assert_eq!(n.peers.score(&"p".to_string()), Some(1_259));
    n.on_event(&NetworkEvent::PeerDisconnected { peer_id: "p".to_string(), inbound: true });
    assert!(!n.peers.is_connected(&"p".to_string()));
    assert_eq!(n.peers.score(&"p".to_string()), None);
}

#[test]
fn hexadecimal_reads_back() {
    let bytes = [0u8, 1, 0x7f, 0x80, 0xff];
    assert_eq!(to_hex(&bytes), "00017f80ff");
    assert_eq!(hex_encode(&bytes), "0x00017f80ff");
    assert_eq!(read_hex(to_hex(&bytes).as_bytes()), Ok(bytes.to_vec()));
    assert_eq!(read_hex(b"00zz"), Err(1));
    assert_eq!(decode_hex_key(&format!(" 0x{} ", "ab".repeat(32))), Ok(vec![0xab; 32]));
    assert_eq!(
        decode_hex_key("abcd"),
        Err("expected 32-byte hex (64 chars), got 4 chars".to_string())
    );
    assert_eq!(
        decode_hex_key(&format!("{}zz", "ab".repeat(31))),
        Err("invalid hex at [62..64]: invalid digit found in string".to_string())
    );
}

#[test]
fn buckets_are_cumulative() {
    let mut h = AtomicHistogram::new(&[1, 2]);
    h.observe(1);
    h.observe(2);
    h.observe(3);
    let text = h.render("m", "h", false);
    assert!(text.contains("m_bucket{le=\"1\"} 1"));
    assert!(text.contains("m_bucket{le=\"2\"} 2"));
    assert!(text.contains("m_bucket{le=\"+Inf\"} 3"));
    h.observe_duration(std::time::Instant::now());
    assert_eq!(h.count(), 4);
}

#[test]
fn seconds_print_with_six_decimals() {
    for nanos in [
        0,
        499,
        500,
        501,
        1_500,
        2_500,
        7_812_500,
        23_437_500,
        123_456_789,
        9_007_199_254_740_993,
        18_446_744_073_709_551_615,
    ] {
        let mut h = AtomicHistogram::new(&[]);
        h.observe(nanos);
        let want = format!("m_sum {:.6}\n", nanos as f64 / 1e9);
        assert!(h.render("m", "h", true).contains(&want), "{want}");
    }
    let mut h = AtomicHistogram::new(&[]);
    h.observe(500);
    assert!(h.render("m", "h", true).contains("m_sum 0.000000\n"));
    h.observe(7_812_000);
    assert!(h.render("m", "h", true).contains("m_sum 0.007812\n"));
}

#[test]
fn metrics_are_rendered() {
    let state = build_genesis(Config { genesis_time: Uint64(0) }).unwrap();
    let registry = MetricsRegistry::started_at(7);
    let text = render_metrics_at(
        &state,
        StoreGauges {
            head_slot: Some(3),
            canonical_state_rows: 1,
            canonical_block_rows: 2,
            pending_block_rows: 0,
        },
        &None,
        4,
        SyncGauges { syncing: false, target_slot: 0, pending_depth: 0 },
        &registry,
        9,
    );
    assert!(text.contains("lean_node_start_time_seconds 7"));
    assert!(text.contains("lean_head_slot 3"));
    let reply = http_reply_string("abc");
    assert!(reply.starts_with("HTTP/1.1 200 OK\r\n"));
    assert!(reply.ends_with("\r\n\r\nabc"));
}

#[test]
fn finalized_blocks_are_rejected() {
    let mut state = build_genesis(Config { genesis_time: Uint64(0) }).unwrap();
    let parent = signed_block(5).message.block.parent_root;
    state.historical_block_hashes.data.push(parent);
    state.latest_finalized.slot = slot(5);
    state.slot = slot(20);
    let context = StateGossipContext::new(&state, RecentRootCache::new());
    for (n, rejected) in [(4, true), (5, true), (6, false)] {
        let m = LeanGossipsubMessage::decode(BLOCKS, &signed_block(n).encode_ssz()).unwrap();
        let verdict = validate_with_context(&m, &context);
        let told = matches!(
            verdict,
            ValidationResult::Reject(s) if s == "block at or before finalized slot"
        );
        assert_eq!(told, rejected);
    }
}

#[test]
fn connections_are_counted_by_direction() {
    let mut n = Networking::start_with_config(&NetworkingConfig::default());
    n.add_seed_peer("/ip4/1.2.3.4/udp/1/quic-v1");
    let p = "p".to_string();
    let q = "q".to_string();
    n.on_event(&NetworkEvent::PeerConnected { peer_id: p.clone(), inbound: true });
    n.on_event(&NetworkEvent::PeerConnected { peer_id: q.clone(), inbound: false });
    n.on_event(&NetworkEvent::PeerConnected { peer_id: q.clone(), inbound: false });
    n.on_event(&NetworkEvent::PeerDisconnected { peer_id: q, inbound: false });
    let counts = n.peers.connection_counts();
    assert_eq!(counts.connected_inbound.get(), 1);
    assert_eq!(counts.connected_outbound.get(), 1);
    assert_eq!(counts.disconnected_inbound.get(), 0);
    assert_eq!(counts.disconnected_outbound.get(), 1);
    assert!(n.discovery.next_seed().is_some());
}

#[test]
fn a_status_without_a_stored_head_names_the_latest_header() {
    let mut state = build_genesis(Config { genesis_time: Uint64(0) }).unwrap();
    state.slot = slot(9);
    state.latest_block_header.slot = slot(6);
    let table = BlockTable::new();
    let status = StoreReqRespHandler::new(&state, &table).build_status();
    assert_eq!(status.head_slot, Uint64(6));
    assert_eq!(status.head_root, Bytes32(state.latest_block_header.hash_tree_root()));
    assert_eq!(status.finalized_root, state.latest_finalized.root);
}

#[test]
fn key_files_give_identities() {
    let secret = "b71c71a67e1177ad4e901695e1b4b9ee17ae16c6668d313eac2f96dbcda3f291";
    let public =
        read_hex(b"03ca634cae0d49acb401d8a4c6b6fe8c55b70d115bf400769cc1400f3258cd3138").unwrap();
    let public = libp2p::identity::secp256k1::PublicKey::try_from_bytes(&public).unwrap();
    let peer = libp2p::PeerId::from_public_key(&public.into()).to_string();
    let key = read_hex(secret.as_bytes()).unwrap();
    assert_eq!(read_node_key(&format!("0x{secret}\n")), Ok((key.clone(), peer.clone())));
    assert_eq!(
        choose_identity(Some(Ok(secret.to_string()))),
        NodeIdentity::Stored { key: key.clone(), peer: peer.clone() }
    );
    assert_eq!(with_peer(key.clone(), Ok(peer.clone())), Ok((key.clone(), peer)));
    assert_eq!(
        with_peer(key, Err("no".to_string())),
        Err("failed to parse secp256k1 secret key: no".to_string())
    );
}

#[test]
fn key_files_at_fault_give_fresh_identities() {
    // Zero and the group's order are no secret keys.
    for scalar in [
        "00".repeat(32),
        "fffffffffffffffffffffffffffffffebaaedce6af48a03bbfd25e8cd0364141".to_string(),
    ] {
        let fault = read_node_key(&scalar).unwrap_err();
        assert!(fault.starts_with("failed to parse secp256k1 secret key: "));
        assert_eq!(
            choose_identity(Some(Ok(scalar))),
            NodeIdentity::Ephemeral { fault: Some(fault) }
        );
    }
    let short = "expected 32-byte hex (64 chars), got 4 chars".to_string();
    assert_eq!(read_node_key("abcd"), Err(short.clone()));
    assert_eq!(
        choose_identity(Some(Ok("abcd".to_string()))),
        NodeIdentity::Ephemeral { fault: Some(short) }
    );
    assert_eq!(
        choose_identity(Some(Err("failed to read k: gone".to_string()))),
        NodeIdentity::Ephemeral { fault: Some("failed to read k: gone".to_string()) }
    );
    assert_eq!(choose_identity(None), NodeIdentity::Ephemeral { fault: None });
}
