use peam::app::{build_genesis, build_genesis_with_validator_count};
use peam::checkpoint_sync::{
    build_anchor_block, build_anchor_signed_block, checkpoint_state_from_reply,
    finalized_state_url, root_string, verify_checkpoint_state,
};
use peam::containers::attestation::{AggregatedSignatureProof, Attestation, AttestationData};
use peam::containers::block::{
    Block, BlockBody, BlockSignatures, BlockWithAttestation, SignedBlockWithAttestation,
};
use peam::containers::checkpoint::Checkpoint;
use peam::containers::config::Config;
use peam::containers::justification::{
    is_next_valid_justifiable_slot, is_slot_justified, set_justified_slot, shift_justified_window,
};
use peam::containers::pq_verifier::{collect_participant_keys, signature_check, SignatureCheck};
use peam::containers::state::{NoopSignatureVerifier, State};
use peam::containers::validator::ValidatorIndex;
use peam::crypto::pq::{
    check_aggregate_proofs, check_aggregate_signatures, check_sign_aggregate,
    check_verify_aggregate, devnet_validator_seed, generated_public_key, generated_signature,
    single_signature_answer, DevnetValidatorKeyRole,
};
use peam::fork_choice::ForkChoiceStore;
use peam::metrics::registry::MetricsRegistry;
use peam::slot::{
    interval_index_from_unix_millis, is_justifiable_after, next_slot_boundary_delay,
    slot_index_from_unix_millis, Slot,
};
use peam::storage::BlockTable;
use peam::types::bitlist::BitList;
use peam::types::bytes::{ByteList, Bytes3112, Bytes32};
use peam::types::collections::SszList;
use peam::types::uint::Uint64;

fn slot(n: u64) -> Slot {
    Slot(Uint64(n))
}

fn genesis() -> State {
    build_genesis(Config { genesis_time: Uint64(1_000) }).unwrap()
}

fn vote(bits: Vec<bool>, n: u64, source: Checkpoint, target: Checkpoint) -> Attestation {
    Attestation {
        aggregation_bits: BitList::new(bits).unwrap(),
        data: AttestationData { slot: slot(n), head: target, target, source },
    }
}

fn lone(index: u64) -> BitList<4096> {
    let mut bits = vec![false; index as usize + 1];
    bits[index as usize] = true;
    BitList::new(bits).unwrap()
}

fn evidence(a: &Attestation) -> AggregatedSignatureProof {
    AggregatedSignatureProof {
        participants: a.aggregation_bits.clone(),
        proof_data: ByteList::new(vec![1; 16]).unwrap(),
    }
}

/// A signed block on top of `state`, and the state behind it.
fn extend(state: &State, n: u64, attestations: Vec<Attestation>) -> (SignedBlockWithAttestation, State) {
    let mut ready = state.clone();
    ready.process_slots(slot(n)).unwrap();
    let parent_root = Bytes32(ready.latest_block_header.hash_tree_root());
    let proposer = n % ready.validators.data.len() as u64;
    let proofs = attestations.iter().map(evidence).collect::<Vec<_>>();
    let mut block = Block {
        slot: slot(n),
        proposer_index: ValidatorIndex(Uint64(proposer)),
        parent_root,
        state_root: Bytes32::zero(),
        body: BlockBody { attestations: SszList::new(attestations).unwrap() },
    };
    ready.process_block(&block).unwrap();
    block.state_root = Bytes32(ready.hash_tree_root());
    let here = Checkpoint { root: parent_root, slot: slot(n - 1) };
    let signed = SignedBlockWithAttestation {
        message: BlockWithAttestation {
            block,
            proposer_attestation: Attestation {
                aggregation_bits: lone(proposer),
                data: AttestationData { slot: slot(n), head: here, target: here, source: here },
            },
        },
        signature: BlockSignatures {
            attestation_signatures: SszList::new(proofs).unwrap(),
            proposer_signature: Bytes3112::zero(),
        },
    };
    let mut after = state.clone();
    after
        .process_signed_block(&signed, vec![Ok(()); signed.message.block.body.attestations.data.len() + 1])
        .unwrap();
    (signed, after)
}

fn root(signed: &SignedBlockWithAttestation) -> Bytes32 {
    Bytes32(signed.message.block.hash_tree_root())
}

#[test]
fn genesis_holds_the_registry() {
    let s = genesis();
    assert_eq!(s.validators.data.len(), 5);
    assert_eq!(s.validators.data[3].pubkey.0[0], 0xD1);
    assert_eq!(s.validators.data[3].pubkey.0[1], 3);
    assert_eq!(s.config.genesis_time, Uint64(1_000));
    assert_eq!(s.slot, slot(0));
    assert_eq!(
        build_genesis_with_validator_count(Config { genesis_time: Uint64(1) }, 0),
        Err("validator_count must be > 0".to_string())
    );
    assert_eq!(
        build_genesis_with_validator_count(Config { genesis_time: Uint64(1) }, 4_097),
        Err("SszList exceeds its limit".to_string())
    );
}

#[test]
fn states_read_back() {
    let (_, s) = extend(&genesis(), 1, vec![]);
    assert_eq!(State::decode_ssz_checked(&s.encode_ssz()), Ok(s));
    assert!(State::decode_ssz_checked(&[0; 10]).is_err());
}

#[test]
fn slots_advance_without_touching_the_rest() {
    let mut s = genesis();
    let before = s.clone();
    s.process_slots(slot(3)).unwrap();
    assert_eq!(s.slot, slot(3));
    assert_eq!(s.historical_block_hashes, before.historical_block_hashes);
    assert_eq!(s.latest_justified, before.latest_justified);
    assert_eq!(
        s.process_slots(slot(3)),
        Err("target slot must be in the future".to_string())
    );
}

#[test]
fn an_applied_block_is_the_next_parent() {
    let (first, s) = extend(&genesis(), 1, vec![]);
    assert_eq!(s.historical_block_hashes.data.len(), 1);
    let (second, t) = extend(&s, 4, vec![]);
    assert_eq!(second.message.block.parent_root, root(&first));
    assert_eq!(t.historical_block_hashes.data.len(), 4);
    assert_eq!(t.historical_block_hashes.data[1], root(&first));
    assert_eq!(t.historical_block_hashes.data[2], Bytes32::zero());
}

#[test]
fn refused_blocks_change_nothing() {
    let g = genesis();
    let (signed, _) = extend(&g, 1, vec![]);
    let mut wrong = signed.clone();
    wrong.message.block.state_root = Bytes32([9; 32]);
    let mut s = g.clone();
    assert_eq!(
        s.process_signed_block(&wrong, vec![Ok(())]),
        Err("block state root does not match computed state root".to_string())
    );
    assert_eq!(s, g);
    let mut wrong = signed.clone();
    wrong.message.block.parent_root = Bytes32([9; 32]);
    assert_eq!(
        s.process_signed_block(&wrong, vec![Ok(())]),
        Err("block parent root does not match latest header root".to_string())
    );
    let mut wrong = signed.clone();
    wrong.message.block.proposer_index = ValidatorIndex(Uint64(2));
    wrong.message.proposer_attestation.aggregation_bits = lone(2);
    assert_eq!(
        s.process_signed_block(&wrong, vec![Ok(())]),
        Err("block proposer index does not match expected proposer".to_string())
    );
    assert_eq!(s, g);
}

#[test]
fn every_signature_answer_counts() {
    let g = genesis();
    let (signed, after) = extend(&g, 1, vec![]);
    let mut s = g.clone();
    assert_eq!(
        s.process_signed_block(&signed, vec![]),
        Err("signature check has no answer".to_string())
    );
    assert_eq!(
        s.process_signed_block(&signed, vec![Err("no".to_string())]),
        Err("no".to_string())
    );
    assert_eq!(s, g);
    assert_eq!(s.process_signed_block(&signed, vec![Ok(())]), Ok(()));
    assert_eq!(s, after);
    let mut t = g.clone();
    assert_eq!(t.process_signed_block_with_verifier(&signed, &NoopSignatureVerifier), Ok(()));
    assert_eq!(t, after);
}

#[test]
fn signature_checks_are_listed_in_order() {
    let g = genesis();
    let (first, s) = extend(&g, 1, vec![]);
    let source = Checkpoint { root: s.latest_justified.root, slot: slot(0) };
    let target = Checkpoint { root: root(&first), slot: slot(1) };
    let (second, _) = extend(&s, 2, vec![vote(vec![true, false, true], 1, source, target)]);
    match signature_check(&second, &s, 0) {
        Ok(Some(SignatureCheck::Aggregate { public_keys, epoch, proof, .. })) => {
            assert_eq!(public_keys.len(), 2);
            assert_eq!(public_keys[1].0[1], 2);
            assert_eq!(epoch, 1);
            assert_eq!(proof, vec![1; 16]);
        },
        other => panic!("unexpected {other:?}"),
    }
    match signature_check(&second, &s, 1) {
        Ok(Some(SignatureCheck::Single { public_key, epoch, .. })) => {
            assert_eq!(public_key.0[1], 2);
            assert_eq!(epoch, 2);
        },
        other => panic!("unexpected {other:?}"),
    }
    assert_eq!(signature_check(&second, &s, 2), Ok(None));
    let bits: BitList<4096> = BitList::new(vec![false, false, false, false, false, true]).unwrap();
    assert_eq!(
        collect_participant_keys(&bits, &s.validators.data),
        Err("validator index out of range".to_string())
    );
}

/// Blocks 1 to 3 with votes of four of five validators for blocks 1 and 2.
fn voted_chain(voters: usize) -> (Vec<SignedBlockWithAttestation>, Vec<State>) {
    let g = genesis();
    let mut bits = vec![false; 5];
    for i in 0..voters {
        bits[i] = true;
    }
    let (b1, s1) = extend(&g, 1, vec![]);
    let source = Checkpoint { root: s1.latest_justified.root, slot: slot(0) };
    let first = Checkpoint { root: root(&b1), slot: slot(1) };
    let (b2, s2) = extend(&s1, 2, vec![vote(bits.clone(), 1, source, first)]);
    let second = Checkpoint { root: root(&b2), slot: slot(2) };
    let (b3, s3) = extend(&s2, 3, vec![vote(bits, 2, first, second)]);
    (vec![b1, b2, b3], vec![g, s1, s2, s3])
}

#[test]
fn supermajorities_justify_and_finalize() {
    let (blocks, states) = voted_chain(4);
    assert_eq!(states[2].latest_justified.slot, slot(1));
    assert_eq!(states[2].latest_justified.root, root(&blocks[0]));
    assert_eq!(states[2].latest_finalized.slot, slot(0));
    assert_eq!(states[3].latest_justified.slot, slot(2));
    assert_eq!(states[3].latest_finalized.slot, slot(1));
    assert_eq!(states[3].latest_finalized.root, root(&blocks[0]));
}

#[test]
fn three_of_five_votes_wait() {
    let (blocks, states) = voted_chain(3);
    assert_eq!(states[2].latest_justified.slot, slot(0));
    assert_eq!(states[2].justifications_roots.data, vec![root(&blocks[0])]);
    assert_eq!(states[2].justifications_validators.len(), 5);
    assert_eq!(states[3].latest_finalized.slot, slot(0));
}

#[test]
fn pending_votes_add_up() {
    let g = genesis();
    let (b1, s1) = extend(&g, 1, vec![]);
    let source = Checkpoint { root: s1.latest_justified.root, slot: slot(0) };
    let first = Checkpoint { root: root(&b1), slot: slot(1) };
    let (_, s2) = extend(&s1, 2, vec![vote(vec![true, true, true], 1, source, first)]);
    assert_eq!(s2.latest_justified.slot, slot(0));
    let (_, s3) = extend(&s2, 3, vec![vote(vec![false, false, false, true], 1, source, first)]);
    assert_eq!(s3.latest_justified, first);
    assert!(s3.justifications_roots.data.is_empty());
}

#[test]
fn the_window_answers_for_slots_behind_finality() {
    let mut window = vec![];
    set_justified_slot(&mut window, slot(4), slot(7)).unwrap();
    assert_eq!(window, vec![false, false, true]);
    assert!(is_slot_justified(&window, slot(4), slot(3)));
    assert!(!is_slot_justified(&window, slot(4), slot(5)));
    assert!(is_slot_justified(&window, slot(4), slot(7)));
    shift_justified_window(&mut window, 2);
    assert!(is_slot_justified(&window, slot(6), slot(7)));
    assert_eq!(window, vec![true]);
    assert!(set_justified_slot(&mut window, slot(0), slot(262_145)).is_err());
    assert_eq!(set_justified_slot(&mut window, slot(6), slot(6)), Ok(()));
    assert_eq!(set_justified_slot(&mut window, slot(6), slot(2)), Ok(()));
    assert_eq!(window, vec![true]);
    assert!(is_next_valid_justifiable_slot(slot(1), slot(2), slot(0)));
    assert!(!is_next_valid_justifiable_slot(slot(1), slot(3), slot(0)));
}

#[test]
fn justifiable_distances() {
    for n in 0..=5 {
        assert_eq!(is_justifiable_after(slot(n), slot(0)), Ok(true));
    }
    assert_eq!(is_justifiable_after(slot(6), slot(0)), Ok(true));
    assert_eq!(is_justifiable_after(slot(7), slot(0)), Ok(false));
    assert_eq!(is_justifiable_after(slot(9), slot(0)), Ok(true));
    assert_eq!(is_justifiable_after(slot(12), slot(0)), Ok(true));
    assert_eq!(is_justifiable_after(slot(10), slot(0)), Ok(false));
    assert!(is_justifiable_after(slot(1), slot(2)).is_err());
}

#[test]
fn slots_follow_the_clock() {
    assert_eq!(slot_index_from_unix_millis(10, 9_000), 0);
    assert_eq!(slot_index_from_unix_millis(10, 18_000), 2);
    assert_eq!(interval_index_from_unix_millis(10, 12_500), 2);
    assert_eq!(next_slot_boundary_delay(10, 9_000), 1_000);
    assert_eq!(next_slot_boundary_delay(10, 11_000), 3_000);
}

#[test]
fn the_head_follows_the_votes() {
    let g = genesis();
    let (a, sa) = extend(&g, 1, vec![]);
    let mut store = ForkChoiceStore::new(a.clone(), sa.clone()).unwrap();
    assert_eq!(store.head(), root(&a));
    let (b, sb) = extend(&sa, 2, vec![]);
    let (c, sc) = extend(&sa, 3, vec![]);
    store.on_block(b.clone(), sb).unwrap();
    store.on_block(c.clone(), sc).unwrap();
    let source = Checkpoint { root: root(&a), slot: slot(1) };
    let to_b = Checkpoint { root: root(&b), slot: slot(2) };
    let to_c = Checkpoint { root: root(&c), slot: slot(3) };
    assert!(store.on_attestation(&vote(vec![true, true], 3, source, to_b)));
    assert!(store.on_attestation(&vote(vec![false, false, true], 3, source, to_c)));
    assert!(!store.on_attestation(&vote(
        vec![true],
        3,
        source,
        Checkpoint { root: Bytes32([7; 32]), slot: slot(2) }
    )));
    store.accept_new_votes();
    assert_eq!(store.head(), root(&b));
    assert_eq!(store.head_slot(), 2);
    assert_eq!(store.latest_votes_count(), 4);
    assert!(store.on_attestation(&vote(vec![true, true], 4, source, to_c)));
    let reorgs = store.reorgs_total();
    assert_eq!(store.get_proposal_head(), root(&c));
    assert_eq!(store.reorgs_total(), reorgs + 1);
    assert_eq!(store.checkpoint_for_root(root(&b)), Some(to_b));
    assert_eq!(store.reorg_depth(root(&b), root(&c)), 1);
    assert_eq!(store.node_snapshots().len(), 3);
    assert_eq!(store.validator_count(), 5);
}

#[test]
fn checkpoints_move_forward_with_blocks() {
    let (blocks, states) = voted_chain(4);
    let mut store = ForkChoiceStore::new(blocks[0].clone(), states[1].clone()).unwrap();
    store.on_block(blocks[1].clone(), states[2].clone()).unwrap();
    assert_eq!(store.latest_justified().slot, slot(1));
    store.on_block(blocks[2].clone(), states[3].clone()).unwrap();
    assert_eq!(store.latest_justified().slot, slot(2));
    assert_eq!(store.latest_finalized().slot, slot(1));
    assert_eq!(store.head(), root(&blocks[2]));
    assert_eq!(store.reorgs_total(), 0);
    assert!(store.attestation_target(slot(1)).is_some());
    let wrong = states[1].clone();
    assert_eq!(
        store.on_block(blocks[2].clone(), wrong),
        Err("post-state root does not match block.state_root invariants".to_string())
    );
}

#[test]
fn an_anchor_needs_its_state() {
    let (blocks, states) = voted_chain(4);
    assert!(ForkChoiceStore::new(blocks[0].clone(), states[2].clone()).is_err());
}

#[test]
fn imports_fill_the_table() {
    let mut state = genesis();
    let (signed, after) = extend(&state, 1, vec![]);
    let mut table = BlockTable::new();
    assert!(table
        .put_signed_block(root(&signed), signed.clone(), &mut state, vec![Err("bad".to_string())])
        .is_err());
    assert_eq!(table.len(), 0);
    table
        .put_signed_block(root(&signed), signed.clone(), &mut state, vec![Ok(())])
        .unwrap();
    assert_eq!(state, after);
    assert_eq!(table.head(), Some(root(&signed)));
    assert_eq!(table.finalized(), Some(after.latest_finalized.root));
    assert!(table.contains(&root(&signed)));
    assert_eq!(table.get_signed_block(&root(&signed)), Some(&signed));
}

#[test]
fn transitions_are_counted() {
    let mut state = genesis();
    let (signed, _) = extend(&state, 3, vec![]);
    let mut metrics = MetricsRegistry::started_at(5);
    state
        .process_signed_block_with_metrics(&signed, vec![Ok(())], &mut metrics)
        .unwrap();
    assert_eq!(metrics.slots_processed_total.get(), 3);
}

#[test]
fn checkpoint_states_are_held_to_genesis() {
    let (_, states) = voted_chain(4);
    assert_eq!(verify_checkpoint_state(&states[3], &states[0]), Ok(()));
    let other = build_genesis(Config { genesis_time: Uint64(1_001) }).unwrap();
    assert_eq!(
        verify_checkpoint_state(&states[3], &other),
        Err("checkpoint genesis_time 1000 does not match config 1001".to_string())
    );
    let few = build_genesis_with_validator_count(Config { genesis_time: Uint64(1_000) }, 3).unwrap();
    assert_eq!(
        verify_checkpoint_state(&states[3], &few),
        Err("checkpoint validator count 5 does not match genesis 3".to_string())
    );
    let mut odd = states[3].clone();
    odd.latest_finalized.slot = slot(9);
    assert_eq!(
        verify_checkpoint_state(&odd, &states[0]),
        Err("checkpoint finalized slot is in the future".to_string())
    );
    let mut odd = states[3].clone();
    odd.latest_justified.slot = slot(0);
    assert_eq!(
        verify_checkpoint_state(&odd, &states[0]),
        Err("checkpoint justified slot is before finalized slot".to_string())
    );
    let mut odd = states[3].clone();
    odd.validators.data[2].pubkey.0[7] = 1;
    assert_eq!(
        verify_checkpoint_state(&odd, &states[0]),
        Err("checkpoint validator key mismatch at index 2".to_string())
    );
}

#[test]
fn anchors_carry_the_states_header() {
    let (blocks, states) = voted_chain(4);
    let anchor = build_anchor_block(&states[3]);
    assert_eq!(anchor.slot, slot(3));
    assert_eq!(anchor.parent_root, blocks[2].message.block.parent_root);
    let signed = build_anchor_signed_block(&states[3], &anchor).unwrap();
    assert_eq!(signed.validate_basic(), Ok(()));
    assert_eq!(signed.message.proposer_attestation.data.slot, slot(3));
}

#[test]
fn replies_hold_states() {
    let (_, s) = extend(&genesis(), 1, vec![]);
    assert_eq!(checkpoint_state_from_reply(200, &s.encode_ssz(), ""), Ok(s));
    let refused = checkpoint_state_from_reply(404, &[], "gone").unwrap_err();
    assert!(refused.starts_with("checkpoint sync HTTP 404"));
    assert!(refused.ends_with("gone"));
    assert_eq!(
        finalized_state_url("http://host:5052/"),
        Ok("http://host:5052/lean/v0/states/finalized".to_string())
    );
    assert_eq!(
        finalized_state_url("  "),
        Err("checkpoint sync url is empty".to_string())
    );
    assert!(root_string(&Bytes32([1; 32])).starts_with("Bytes32([1, 1, "));
}

#[test]
fn aggregation_counts_are_checked() {
    assert_eq!(check_sign_aggregate(2, 2), Ok(()));
    assert_eq!(
        check_sign_aggregate(0, 0),
        Err("aggregate signature participants must be non-empty".to_string())
    );
    assert_eq!(
        check_sign_aggregate(1, 2),
        Err("public key count (1) does not match secret key count (2)".to_string())
    );
    assert_eq!(
        check_aggregate_signatures(1, 2),
        Err("public key count (1) does not match signature count (2)".to_string())
    );
    assert_eq!(check_aggregate_proofs(1, 0, 0), Ok(()));
    assert_eq!(
        check_aggregate_proofs(0, 0, 0),
        Err("aggregate signature participants must be non-empty".to_string())
    );
    assert_eq!(
        check_verify_aggregate(1, 7),
        Err("failed to decode aggregate signature: proof too short".to_string())
    );
    assert_eq!(check_verify_aggregate(1, 8), Ok(()));
    assert_eq!(single_signature_answer(true), Ok(()));
    assert_eq!(
        single_signature_answer(false),
        Err("Proposer signature verification failed".to_string())
    );
    assert!(generated_public_key(&[0; 52]).is_ok());
    assert_eq!(
        generated_public_key(&[0; 51]),
        Err("unexpected public key length 51, expected 52".to_string())
    );
    assert_eq!(
        generated_signature(&[0; 5]),
        Err("unexpected signature length 5, expected 3112".to_string())
    );
}

#[test]
fn seeds_differ_by_validator() {
    let a = devnet_validator_seed(1, DevnetValidatorKeyRole::Attestation);
    let b = devnet_validator_seed(2, DevnetValidatorKeyRole::Attestation);
    assert_ne!(a, b);
}

#[test]
fn votes_count_the_same_in_one_list_or_two() {
    let (b1, s1) = extend(&genesis(), 1, vec![]);
    let (_, state) = extend(&s1, 2, vec![]);
    let source = Checkpoint { root: b1.message.block.parent_root, slot: slot(0) };
    let first = Checkpoint { root: root(&b1), slot: slot(1) };
    let a = vec![vote(vec![true, true], 1, source, first)];
    let b = vec![
        vote(vec![false, true, true], 1, source, first),
        vote(vec![false, false, false, true], 1, source, first),
    ];
    let mut joined = state.clone();
    let both = a.iter().chain(b.iter()).cloned().collect::<Vec<_>>();
    joined.process_attestations(&SszList::new(both).unwrap()).unwrap();
    let mut parted = state.clone();
    parted.process_attestations(&SszList::new(a).unwrap()).unwrap();
    assert_eq!(parted.justifications_roots.data, vec![first.root]);
    parted.process_attestations(&SszList::new(b).unwrap()).unwrap();
    assert_eq!(parted, joined);
    assert_eq!(parted.latest_justified, first);
}

#[test]
fn votes_behind_new_finality_count_the_same() {
    let (b1, s1) = extend(&genesis(), 1, vec![]);
    let (b2, s2) = extend(&s1, 2, vec![]);
    let (b3, s3) = extend(&s2, 3, vec![]);
    let (_, state) = extend(&s3, 4, vec![]);
    let all = vec![true; 5];
    let zeroth = Checkpoint { root: b1.message.block.parent_root, slot: slot(0) };
    let first = Checkpoint { root: root(&b1), slot: slot(1) };
    let second = Checkpoint { root: root(&b2), slot: slot(2) };
    let third = Checkpoint { root: root(&b3), slot: slot(3) };
    let a = vec![vote(all.clone(), 1, zeroth, first), vote(all.clone(), 2, first, second)];
    let b = vec![vote(all, 3, second, third)];
    let both = a.iter().chain(b.iter()).cloned().collect::<Vec<_>>();
    let mut joined = state.clone();
    joined.process_attestations(&SszList::new(both).unwrap()).unwrap();
    let mut parted = state.clone();
    parted.process_attestations(&SszList::new(a).unwrap()).unwrap();
    assert_eq!(parted.latest_finalized, first);
    parted.process_attestations(&SszList::new(b).unwrap()).unwrap();
    assert_eq!(parted, joined);
    assert_eq!(parted.latest_justified, third);
    assert_eq!(parted.latest_finalized, second);
}
