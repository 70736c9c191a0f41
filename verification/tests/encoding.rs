use peam::containers::attestation::{
    AggregatedSignatureProof, Attestation, AttestationData, SignedAggregatedAttestation,
    SignedAttestation,
};
use peam::containers::block::{
    Block, BlockBody, BlockHeader, BlockSignatures, BlockWithAttestation, BlockWithSignatures,
    SignedBlockWithAttestation,
};
use peam::containers::checkpoint::Checkpoint;
use peam::containers::config::Config;
use peam::containers::gossip::{
    GossipAggregatedAttestation, GossipAttestation, GossipBlock, GossipBlockHeader, VoluntaryExit,
};
use peam::containers::req_resp::{
    BlocksByRangeRequest, BlocksByRangeResponse, BlocksByRootRequest, BlocksByRootResponse, Ping,
    Pong, Status,
};
use peam::containers::validator::{Validator, ValidatorIndex};
use peam::networking::hex::to_hex;
use peam::networking::reqresp_messages::{LeanResponseMessage, LeanSupportedProtocol};
use peam::slot::Slot;
use peam::ssz::hash::{hash_nodes, merkleize, merkleize_limit, mix_in_length, to_chunks};
use peam::types::bitlist::BitList;
use peam::types::bytes::{ByteList, Bytes3112, Bytes32, Bytes52};
use peam::types::collections::SszList;
use peam::types::uint::Uint64;

fn slot(n: u64) -> Slot {
    Slot(Uint64(n))
}

fn checkpoint(tag: u8, n: u64) -> Checkpoint {
    Checkpoint { root: Bytes32([tag; 32]), slot: slot(n) }
}

fn data() -> AttestationData {
    AttestationData {
        slot: slot(9),
        head: checkpoint(3, 8),
        target: checkpoint(2, 7),
        source: checkpoint(1, 6),
    }
}

fn attestation(bits: Vec<bool>) -> Attestation {
    Attestation { aggregation_bits: BitList::new(bits).unwrap(), data: data() }
}

fn evidence() -> AggregatedSignatureProof {
    AggregatedSignatureProof {
        participants: BitList::new(vec![true, false, true]).unwrap(),
        proof_data: ByteList::new(vec![5, 6, 7]).unwrap(),
    }
}

fn block() -> Block {
    Block {
        slot: slot(9),
        proposer_index: ValidatorIndex(Uint64(2)),
        parent_root: Bytes32([4; 32]),
        state_root: Bytes32([5; 32]),
        body: BlockBody {
            attestations: SszList::new(vec![attestation(vec![true, true]), attestation(vec![false, true])])
                .unwrap(),
        },
    }
}

fn signed() -> SignedBlockWithAttestation {
    SignedBlockWithAttestation {
        message: BlockWithAttestation {
            block: block(),
            proposer_attestation: attestation(vec![false, false, true]),
        },
        signature: BlockSignatures {
            attestation_signatures: SszList::new(vec![evidence(), evidence()]).unwrap(),
            proposer_signature: Bytes3112([8; 3112]),
        },
    }
}

#[test]
fn sibling_nodes_hash_to_known_values() {
    let zero = Bytes32::zero();
    assert_eq!(
        to_hex(hash_nodes(&zero, &zero).as_slice()),
        "f5a5fd42d16a20302798ef6ed309979b43003d2320d9f0e8ea9831a92759fb4b"
    );
    assert_eq!(
        to_hex(merkleize_limit(&[], 4).as_slice()),
        "db56114e00fdd4c1f85c892bf35ac9a89289aaecb1ebd0a96cde606a748b5d71"
    );
    assert_ne!(hash_nodes(&Bytes32([1; 32]), &zero), hash_nodes(&zero, &Bytes32([1; 32])));
}

#[test]
fn merkleization_pads_with_zero_chunks() {
    let a = Bytes32([1; 32]);
    let b = Bytes32([2; 32]);
    let c = Bytes32([3; 32]);
    let zero = Bytes32::zero();
    let want = hash_nodes(&hash_nodes(&a, &b), &hash_nodes(&c, &zero));
    assert_eq!(merkleize(&[a, b, c]), want);
    assert_eq!(merkleize_limit(&[a, b, c], 4), want);
    assert_eq!(merkleize(&[a]), a);
    assert_eq!(mix_in_length(&a, 0), hash_nodes(&a, &zero));
    assert_eq!(to_chunks(&[7; 33]).len(), 2);
    assert_eq!(to_chunks(&[7; 33])[1].0[0], 7);
    assert_eq!(to_chunks(&[7; 33])[1].0[1], 0);
}

#[test]
fn empty_body_has_its_known_root() {
    let body = BlockBody { attestations: SszList::empty() };
    let root = to_hex(&body.hash_tree_root());
    assert!(root.starts_with("dba9671b"));
    assert!(root.ends_with("9136"));
}

#[test]
fn numbers_are_little_endian() {
    let n = Uint64(0x0102_0304_0506_0708);
    assert_eq!(n.encode_ssz(), vec![8, 7, 6, 5, 4, 3, 2, 1]);
    assert_eq!(Uint64::decode_ssz(&[8, 7, 6, 5, 4, 3, 2, 1]), Ok(n));
    assert_eq!(
        Uint64::decode_ssz(&[1, 2, 3]),
        Err("Uint64 expects 8 bytes, got 3".to_string())
    );
    let mut chunk = [0u8; 32];
    chunk[0] = 5;
    assert_eq!(Uint64(5).hash_tree_root(), chunk);
}

#[test]
fn bitlists_end_with_a_marker() {
    let bits: BitList<10> = BitList::new(vec![true, false, true]).unwrap();
    assert_eq!(bits.encode_ssz(), vec![0b1101]);
    assert_eq!(BitList::<10>::decode_ssz(&[0b1101]), Ok(bits));
    let long: BitList<10> = BitList::new(vec![true; 8]).unwrap();
    assert_eq!(long.encode_ssz(), vec![0xff, 1]);
    assert_eq!(BitList::<10>::decode_ssz(&[0xff, 1]), Ok(long));
    assert_eq!(BitList::<10>::decode_ssz(&[]), Err("BitList is empty".to_string()));
    assert_eq!(
        BitList::<10>::decode_ssz(&[1, 0]),
        Err("BitList end marker is missing".to_string())
    );
    assert_eq!(
        BitList::<10>::decode_ssz(&[0xff, 0xff]),
        Err("BitList exceeds its limit".to_string())
    );
    assert!(BitList::<2>::new(vec![true; 3]).is_err());
}

#[test]
fn limits_hold() {
    assert!(ByteList::<3>::new(vec![0; 3]).is_ok());
    assert_eq!(
        ByteList::<3>::new(vec![0; 4]),
        Err("ByteList exceeds its limit".to_string())
    );
    assert!(SszList::<Uint64, 2>::new(vec![Uint64(1); 2]).is_ok());
    assert_eq!(
        SszList::<Uint64, 2>::new(vec![Uint64(1); 3]),
        Err("SszList exceeds its limit".to_string())
    );
}

#[test]
fn fixed_size_containers_read_back() {
    let c = Config { genesis_time: Uint64(77) };
    assert_eq!(Config::decode_ssz_checked(&c.encode_ssz()), Ok(c));
    assert_eq!(
        Config::decode_ssz_checked(&[0; 9]),
        Err("Config expects 8 bytes, got 9".to_string())
    );
    let k = checkpoint(7, 3);
    assert_eq!(k.encode_ssz().len(), 40);
    assert_eq!(Checkpoint::decode_ssz_checked(&k.encode_ssz()), Ok(k));
    assert_eq!(AttestationData::decode_ssz_checked(&data().encode_ssz()), Ok(data()));
    let h = block().header();
    assert_eq!(BlockHeader::decode_ssz_checked(&h.encode_ssz()), Ok(h));
    let v = Validator {
        pubkey: Bytes52([9; 52]),
        index: ValidatorIndex(Uint64(4)),
        balance: Uint64(5),
    };
    assert_eq!(v.encode_ssz().len(), 68);
    assert_eq!(Validator::decode_ssz_checked(&v.encode_ssz()), Ok(v));
    let s = Status {
        fork_digest: Bytes32([1; 32]),
        finalized_root: Bytes32([2; 32]),
        finalized_epoch: Uint64(3),
        head_root: Bytes32([4; 32]),
        head_slot: Uint64(5),
    };
    assert_eq!(s.encode_ssz().len(), 112);
    assert_eq!(Status::decode_ssz_checked(&s.encode_ssz()), Ok(s));
    let p = Ping { seq_number: Uint64(6) };
    assert_eq!(Ping::decode_ssz_checked(&p.encode_ssz()), Ok(p));
    let q = Pong { seq_number: Uint64(7) };
    assert_eq!(Pong::decode_ssz_checked(&q.encode_ssz()), Ok(q));
    let signed_vote = SignedAttestation {
        validator_id: Uint64(3),
        message: data(),
        signature: Bytes3112([2; 3112]),
    };
    assert_eq!(
        SignedAttestation::decode_ssz_checked(&signed_vote.encode_ssz()),
        Ok(signed_vote.clone())
    );
    let gossip = GossipAttestation { attestation: signed_vote };
    assert_eq!(GossipAttestation::decode_ssz_checked(&gossip.encode_ssz()), Ok(gossip));
    let header = GossipBlockHeader { header: h };
    assert_eq!(GossipBlockHeader::decode_ssz_checked(&header.encode_ssz()), Ok(header));
}

#[test]
fn exits_read_back() {
    let bytes = [7u8; 16];
    let exit = VoluntaryExit::decode_ssz_checked(&bytes).unwrap();
    assert_eq!(exit.encode_ssz(), bytes.to_vec());
    assert_eq!(
        VoluntaryExit::decode_ssz_checked(&[0; 3]),
        Err("VoluntaryExit expects 16 bytes, got 3".to_string())
    );
}

#[test]
fn variable_size_containers_read_back() {
    let a = attestation(vec![true, false, true]);
    assert_eq!(Attestation::decode_ssz_checked(&a.encode_ssz()), Ok(a));
    assert_eq!(
        Attestation::decode_ssz_checked(&[0; 5]),
        Err("Attestation missing offset table".to_string())
    );
    let p = evidence();
    assert_eq!(AggregatedSignatureProof::decode_ssz(&p.encode_ssz()), Ok(p));
    let s = SignedAggregatedAttestation { data: data(), proof: evidence() };
    assert_eq!(
        SignedAggregatedAttestation::decode_ssz_checked(&s.encode_ssz()),
        Ok(s.clone())
    );
    let g = GossipAggregatedAttestation { attestation: s };
    assert_eq!(GossipAggregatedAttestation::decode_ssz_checked(&g.encode_ssz()), Ok(g));
    let b = block();
    assert_eq!(Block::decode_ssz_checked(&b.encode_ssz()), Ok(b.clone()));
    assert_eq!(BlockBody::decode_ssz_checked(&b.body.encode_ssz()), Ok(b.body.clone()));
    let w = BlockWithSignatures {
        block: b,
        signatures: SszList::new(vec![evidence()]).unwrap(),
    };
    assert_eq!(BlockWithSignatures::decode_ssz_checked(&w.encode_ssz()), Ok(w));
    assert_eq!(
        Block::decode_ssz_checked(&[1; 3]),
        Err("Block missing offset table".to_string())
    );
}

#[test]
fn signed_blocks_read_back() {
    let s = signed();
    assert_eq!(SignedBlockWithAttestation::decode_ssz_checked(&s.encode_ssz()), Ok(s.clone()));
    assert_eq!(BlockSignatures::decode_ssz_checked(&s.signature.encode_ssz()), Ok(s.signature.clone()));
    let g = GossipBlock { block: s.clone() };
    assert_eq!(GossipBlock::decode_ssz_checked(&g.encode_ssz()), Ok(g));
    assert!(SignedBlockWithAttestation::decode_ssz_checked(&[0; 4]).is_err());
    let range = BlocksByRangeResponse { blocks: SszList::new(vec![s.clone(), s.clone()]).unwrap() };
    assert_eq!(BlocksByRangeResponse::decode_ssz_checked(&range.encode_ssz()), Ok(range));
    let roots = BlocksByRootResponse { blocks: SszList::new(vec![s]).unwrap() };
    assert_eq!(BlocksByRootResponse::decode_ssz_checked(&roots.encode_ssz()), Ok(roots));
}

#[test]
fn blocks_with_any_proposer_read_back() {
    for index in [0usize, 2, 8, 140, 200, 300, 4_095] {
        let mut s = signed();
        let mut bits = vec![false; index + 1];
        bits[index] = true;
        s.message.proposer_attestation.aggregation_bits = BitList::new(bits).unwrap();
        let bytes = s.encode_ssz();
        assert_eq!(SignedBlockWithAttestation::decode_ssz_checked(&bytes), Ok(s.clone()));
        assert_eq!(SignedBlockWithAttestation::decode_ssz(&bytes), Ok(s.clone()));
        let response = LeanResponseMessage::BlocksByRoot(s);
        assert_eq!(
            LeanResponseMessage::decode_ssz(
                LeanSupportedProtocol::BlocksByRootV1,
                &response.encode_ssz()
            ),
            Ok(response)
        );
    }
}

#[test]
fn block_requests_read_back() {
    let by_root = BlocksByRootRequest {
        roots: SszList::new(vec![Bytes32([1; 32]), Bytes32([2; 32])]).unwrap(),
    };
    assert_eq!(BlocksByRootRequest::decode_ssz_checked(&by_root.encode_ssz()), Ok(by_root));
    let by_range = BlocksByRangeRequest { start_slot: Uint64(3), count: Uint64(4), step: Uint64(1) };
    assert_eq!(BlocksByRangeRequest::decode_ssz_checked(&by_range.encode_ssz()), Ok(by_range));
}

#[test]
fn a_block_and_its_header_have_the_same_root() {
    assert_eq!(block().hash_tree_root(), block().header().hash_tree_root());
    let mut other = block();
    other.slot = slot(10);
    assert_ne!(block().hash_tree_root(), other.hash_tree_root());
}

#[test]
fn basic_checks_name_the_fault() {
    assert_eq!(signed().validate_basic(), Ok(()));
    let mut s = signed();
    s.signature.attestation_signatures = SszList::empty();
    assert_eq!(
        s.validate_basic(),
        Err("attestation signatures count 0 does not match attestations 2".to_string())
    );
    let mut s = signed();
    s.message.proposer_attestation.data.slot = slot(8);
    assert_eq!(
        s.validate_basic(),
        Err("proposer attestation slot does not match block slot".to_string())
    );
    let mut s = signed();
    s.message.proposer_attestation.aggregation_bits = BitList::new(vec![true, true]).unwrap();
    assert_eq!(
        s.validate_basic(),
        Err("proposer attestation must have exactly one participant".to_string())
    );
    let mut s = signed();
    s.message.proposer_attestation.aggregation_bits = BitList::new(vec![true]).unwrap();
    assert_eq!(
        s.validate_basic(),
        Err("proposer attestation does not match proposer index".to_string())
    );
}

#[test]
fn proposers_take_turns() {
    assert!(ValidatorIndex(Uint64(2)).is_proposer_for(slot(7), 5));
    assert!(!ValidatorIndex(Uint64(3)).is_proposer_for(slot(7), 5));
    assert!(!ValidatorIndex(Uint64(0)).is_proposer_for(slot(0), 0));
}

#[test]
fn proposals_with_padding_are_read_without_checks() {
    let s = signed();
    let block = s.message.block.encode_ssz();
    let vote = s.message.proposer_attestation.encode_ssz();
    for first in [8u32, 12, 200] {
        let mut bytes = first.to_le_bytes().to_vec();
        bytes.extend((first + block.len() as u32).to_le_bytes());
        bytes.resize(first as usize, 0);
        bytes.extend(&block);
        bytes.extend(&vote);
        assert_eq!(BlockWithAttestation::decode_ssz(&bytes), Ok(s.message.clone()));
        assert_eq!(BlockWithAttestation::decode_ssz_checked(&bytes).is_ok(), first == 8);
    }
}
