//! The metrics in the text exposition format.

use vstd::prelude::*;
use vstd::string::StringExecFns;

use crate::containers::state::{State, StateModel};
use crate::fork_choice;
use crate::fork_choice::{ForkChoiceModel, ForkChoiceStore};
use crate::metrics::registry::{unix_seconds, MetricsRegistry};
use crate::text;

verus! {

/// The sync status to report.
#[derive(Clone, Copy, Debug, PartialEq, Eq, Structural)]
pub struct SyncGauges {
    /// Whether the node is syncing.
    pub syncing: bool,
    /// Slot that it syncs to.
    pub target_slot: u64,
    /// Blocks that wait for their parents.
    pub pending_depth: u64,
}

/// What the store reports of itself.
#[derive(Clone, Copy, Debug, PartialEq, Eq, Structural)]
pub struct StoreGauges {
    /// Slot of the stored head block, if the head and its block are stored.
    pub head_slot: Option<u64>,
    /// Rows of the table of canonical states.
    pub canonical_state_rows: u64,
    /// Rows of the table of canonical blocks.
    pub canonical_block_rows: u64,
    /// Rows of the table of pending blocks.
    pub pending_block_rows: u64,
}

/// The numbers on the chain that are reported.
#[derive(Clone, Copy, Debug, PartialEq, Eq, Structural)]
pub struct ChainGauges {
    /// Slot of the state.
    pub current_slot: u64,
    /// Slot of the head.
    pub head_slot: u64,
    /// Latest justified slot.
    pub justified_slot: u64,
    /// Latest finalized slot.
    pub finalized_slot: u64,
    /// Slot justified before the latest.
    pub previous_justified_slot: u64,
    /// Slot of the safe target.
    pub safe_target_slot: u64,
    /// Number of validators.
    pub validators: u64,
    /// Number of reorganizations.
    pub reorgs_total: u64,
    /// Number of votes that wait to be accepted.
    pub gossip_signatures: u64,
    /// Number of accepted votes.
    pub latest_votes: u64,
}

/// The larger of two numbers.
pub open spec fn larger(a: u64, b: u64) -> u64 {
    if a >= b {
        a
    } else {
        b
    }
}

fn larger_of(a: u64, b: u64) -> (r: u64)
    ensures
        r == larger(a, b),
{
    if a >= b {
        a
    } else {
        b
    }
}

/// The model of a fork-choice store, where there is one.
pub open spec fn fork_choice_model(fc: Option<ForkChoiceStore>) -> Option<ForkChoiceModel> {
    match fc {
        Some(f) => Some(f@),
        None => None,
    }
}

/// The numbers to report without a fork-choice store: those of the state and of
/// the stored head.
pub open spec fn state_gauges(s: StateModel, store: StoreGauges) -> ChainGauges {
    ChainGauges {
        current_slot: s.slot.0.0,
        head_slot: match store.head_slot {
            Some(slot) => slot,
            None => s.slot.0.0,
        },
        justified_slot: s.latest_justified.slot.0.0,
        finalized_slot: s.latest_finalized.slot.0.0,
        previous_justified_slot: s.latest_justified.slot.0.0,
        safe_target_slot: 0,
        validators: s.validators.len() as u64,
        reorgs_total: 0,
        gossip_signatures: 0,
        latest_votes: 0,
    }
}

/// The numbers to report: the state's and the fork choice's, whichever is
/// further.
pub open spec fn chain_gauges(
    s: StateModel,
    store: StoreGauges,
    fc: Option<ForkChoiceModel>,
) -> ChainGauges {
    let base = state_gauges(s, store);
    match fc {
        None => base,
        Some(f) => ChainGauges {
            current_slot: base.current_slot,
            head_slot: larger(base.head_slot, f.head_slot),
            justified_slot: larger(base.justified_slot, f.latest_justified.slot.0.0),
            finalized_slot: larger(base.finalized_slot, f.latest_finalized.slot.0.0),
            previous_justified_slot: if f.previous_justified.slot.0.0 > 0 {
                f.previous_justified.slot.0.0
            } else {
                base.previous_justified_slot
            },
            safe_target_slot: fork_choice::slot_or_head(f, f.safe_target),
            validators: larger(base.validators, f.validator_count as u64),
            reorgs_total: f.reorgs_total,
            gossip_signatures: f.new_votes.dom().len() as u64,
            latest_votes: f.votes.dom().len() as u64,
        },
    }
}

/// Collects the numbers on the chain.
fn collect_gauges(state: &State, store: StoreGauges, fc: &Option<ForkChoiceStore>) -> (r:
    ChainGauges)
    requires
        fc matches Some(f) ==> f.wf(),
    ensures
        r == chain_gauges(state@, store, fork_choice_model(*fc)),
{
    let base = ChainGauges {
        current_slot: state.slot.0.0,
        head_slot: match store.head_slot {
            Some(slot) => slot,
            None => state.slot.0.0,
        },
        justified_slot: state.latest_justified.slot.0.0,
        finalized_slot: state.latest_finalized.slot.0.0,
        previous_justified_slot: state.latest_justified.slot.0.0,
        safe_target_slot: 0,
        validators: state.validators.data.len() as u64,
        reorgs_total: 0,
        gossip_signatures: 0,
        latest_votes: 0,
    };
    assert(base == state_gauges(state@, store));
    match fc {
        None => base,
        Some(f) => {
            let previous: u64 = f.previous_justified().slot.0.0;
            ChainGauges {
                current_slot: base.current_slot,
                head_slot: larger_of(base.head_slot, f.head_slot()),
                justified_slot: larger_of(base.justified_slot, f.latest_justified().slot.0.0),
                finalized_slot: larger_of(base.finalized_slot, f.latest_finalized().slot.0.0),
                previous_justified_slot: if previous > 0 {
                    previous
                } else {
                    base.previous_justified_slot
                },
                safe_target_slot: f.safe_target_slot(),
                validators: larger_of(base.validators, f.validator_count() as u64),
                reorgs_total: f.reorgs_total(),
                gossip_signatures: f.gossip_signatures_count() as u64,
                latest_votes: f.latest_votes_count() as u64,
            }
        },
    }
}

/// A line with a metric's value.
pub open spec fn value_line(name: Seq<char>, value: u64) -> Seq<char> {
    name + " "@ + text::decimal(value as nat) + "\n"@
}

/// A gauge: its type line and its value.
pub open spec fn gauge(name: Seq<char>, value: u64) -> Seq<char> {
    "# TYPE "@ + name + " gauge\n"@ + value_line(name, value)
}

/// A counter: its type line and its value.
pub open spec fn counter(name: Seq<char>, value: u64) -> Seq<char> {
    "# TYPE "@ + name + " counter\n"@ + value_line(name, value)
}

/// A line with a labelled metric's value.
pub open spec fn labeled(name: Seq<char>, labels: Seq<char>, value: u64) -> Seq<char> {
    name + "{"@ + labels + "} "@ + text::decimal(value as nat) + "\n"@
}

fn value_line_string(name: &str, value: u64) -> (r: String)
    ensures
        r@ == value_line(name@, value),
{
    let mut s: String = name.to_string();
    s.append(" ");
    s.append(text::decimal_string(value).as_str());
    s.append("\n");
    s
}

fn gauge_string(name: &str, value: u64) -> (r: String)
    ensures
        r@ == gauge(name@, value),
{
    let mut s: String = "# TYPE ".to_string();
    s.append(name);
    s.append(" gauge\n");
    s.append(value_line_string(name, value).as_str());
    s
}

fn counter_string(name: &str, value: u64) -> (r: String)
    ensures
        r@ == counter(name@, value),
{
    let mut s: String = "# TYPE ".to_string();
    s.append(name);
    s.append(" counter\n");
    s.append(value_line_string(name, value).as_str());
    s
}

fn labeled_string(name: &str, labels: &str, value: u64) -> (r: String)
    ensures
        r@ == labeled(name@, labels@, value),
{
    let mut s: String = name.to_string();
    s.append("{");
    s.append(labels);
    s.append("} ");
    s.append(text::decimal_string(value).as_str());
    s.append("\n");
    s
}

/// The node's identity and times.
pub open spec fn node_section(start_time: u64, now: u64) -> Seq<char> {
    "# HELP lean_node_info Client implementation metadata.\n# TYPE lean_node_info gauge\nlean_node_info{name=\"peam\",version=\"0.1.0\"} 1\n"@
        + gauge("lean_node_start_time_seconds"@, start_time)
        + gauge("lean_node_time_seconds"@, now)
}

/// Writes `node_section`.
fn node_section_string(start_time: u64, now: u64) -> (s: String)
    ensures
        s@ == node_section(start_time, now),
{
    let mut s: String = "# HELP lean_node_info Client implementation metadata.\n# TYPE lean_node_info gauge\nlean_node_info{name=\"peam\",version=\"0.1.0\"} 1\n".to_string();
    s.append(gauge_string("lean_node_start_time_seconds", start_time).as_str());
    s.append(gauge_string("lean_node_time_seconds", now).as_str());
    s
}

/// The chain's progress.
pub open spec fn chain_section(m: ChainGauges) -> Seq<char> {
    gauge("lean_current_slot"@, m.current_slot)
        + gauge("lean_head_slot"@, m.head_slot)
        + gauge("lean_latest_justified_slot"@, m.justified_slot)
        + gauge("lean_latest_finalized_slot"@, m.finalized_slot)
        + gauge("lean_previous_justified_slot"@, m.previous_justified_slot)
        + gauge("lean_safe_target_slot"@, m.safe_target_slot)
        + gauge("lean_validators_count"@, m.validators)
        + counter("lean_fork_choice_reorgs_total"@, m.reorgs_total)
        + gauge("lean_processed_deposits_total"@, 0)
        + gauge("lean_gossip_signatures"@, m.gossip_signatures)
        + gauge("lean_latest_known_aggregated_payloads"@, m.latest_votes)
        + gauge("lean_latest_new_aggregated_payloads"@, m.gossip_signatures)
}

/// Writes `chain_section`.
fn chain_section_string(m: ChainGauges) -> (s: String)
    ensures
        s@ == chain_section(m),
{
    let mut s: String = gauge_string("lean_current_slot", m.current_slot);
    s.append(gauge_string("lean_head_slot", m.head_slot).as_str());
    s.append(gauge_string("lean_latest_justified_slot", m.justified_slot).as_str());
    s.append(gauge_string("lean_latest_finalized_slot", m.finalized_slot).as_str());
    s.append(gauge_string("lean_previous_justified_slot", m.previous_justified_slot).as_str());
    s.append(gauge_string("lean_safe_target_slot", m.safe_target_slot).as_str());
    s.append(gauge_string("lean_validators_count", m.validators).as_str());
    s.append(counter_string("lean_fork_choice_reorgs_total", m.reorgs_total).as_str());
    s.append(gauge_string("lean_processed_deposits_total", 0).as_str());
    s.append(gauge_string("lean_gossip_signatures", m.gossip_signatures).as_str());
    s.append(gauge_string("lean_latest_known_aggregated_payloads", m.latest_votes).as_str());
    s.append(gauge_string("lean_latest_new_aggregated_payloads", m.gossip_signatures).as_str());
    s
}

/// The validator's duties.
pub open spec fn validator_section(is_aggregator: bool) -> Seq<char> {
    gauge("lean_is_aggregator"@, (if is_aggregator { 1u64 } else { 0u64 }))
        + gauge("lean_attestation_committee_subnet"@, 0)
        + gauge("lean_attestation_committee_count"@, 0)
}

/// Writes `validator_section`.
fn validator_section_string(is_aggregator: bool) -> (s: String)
    ensures
        s@ == validator_section(is_aggregator),
{
    let mut s: String = gauge_string("lean_is_aggregator", (if is_aggregator { 1u64 } else { 0u64 }));
    s.append(gauge_string("lean_attestation_committee_subnet", 0).as_str());
    s.append(gauge_string("lean_attestation_committee_count", 0).as_str());
    s
}

/// The peers and their connections.
pub open spec fn peer_section(peer_count: u64, r: MetricsRegistry) -> Seq<char> {
    gauge("lean_connected_peers"@, peer_count)
        + labeled("lean_connected_peers"@, "client=\"peam\""@, peer_count)
        + "# TYPE lean_peer_connection_events_total counter\n"@
        + labeled("lean_peer_connection_events_total"@, "direction=\"inbound\",result=\"success\""@, r.peer_connection_inbound@)
        + labeled("lean_peer_connection_events_total"@, "direction=\"outbound\",result=\"success\""@, r.peer_connection_outbound@)
        + labeled("lean_peer_connection_events_total"@, "direction=\"inbound\",result=\"timeout\""@, 0)
        + labeled("lean_peer_connection_events_total"@, "direction=\"outbound\",result=\"timeout\""@, 0)
        + labeled("lean_peer_connection_events_total"@, "direction=\"inbound\",result=\"error\""@, 0)
        + labeled("lean_peer_connection_events_total"@, "direction=\"outbound\",result=\"error\""@, 0)
}

/// Writes `peer_section`.
fn peer_section_string(peer_count: u64, r: &MetricsRegistry) -> (s: String)
    ensures
        s@ == peer_section(peer_count, *r),
{
    let mut s: String = gauge_string("lean_connected_peers", peer_count);
    s.append(labeled_string("lean_connected_peers", "client=\"peam\"", peer_count).as_str());
    s.append("# TYPE lean_peer_connection_events_total counter\n");
    s.append(labeled_string("lean_peer_connection_events_total", "direction=\"inbound\",result=\"success\"", r.peer_connection_inbound.get()).as_str());
    s.append(labeled_string("lean_peer_connection_events_total", "direction=\"outbound\",result=\"success\"", r.peer_connection_outbound.get()).as_str());
    s.append(labeled_string("lean_peer_connection_events_total", "direction=\"inbound\",result=\"timeout\"", 0).as_str());
    s.append(labeled_string("lean_peer_connection_events_total", "direction=\"outbound\",result=\"timeout\"", 0).as_str());
    s.append(labeled_string("lean_peer_connection_events_total", "direction=\"inbound\",result=\"error\"", 0).as_str());
    s.append(labeled_string("lean_peer_connection_events_total", "direction=\"outbound\",result=\"error\"", 0).as_str());
    s
}

/// The connections that closed.
pub open spec fn disconnection_section(r: MetricsRegistry) -> Seq<char> {
    "# TYPE lean_peer_disconnection_events_total counter\n"@
        + labeled("lean_peer_disconnection_events_total"@, "direction=\"inbound\",reason=\"remote_close\""@, r.peer_disconnection_inbound@)
        + labeled("lean_peer_disconnection_events_total"@, "direction=\"outbound\",reason=\"local_close\""@, r.peer_disconnection_outbound@)
        + labeled("lean_peer_disconnection_events_total"@, "direction=\"inbound\",reason=\"timeout\""@, 0)
        + labeled("lean_peer_disconnection_events_total"@, "direction=\"outbound\",reason=\"timeout\""@, 0)
        + labeled("lean_peer_disconnection_events_total"@, "direction=\"inbound\",reason=\"error\""@, 0)
        + labeled("lean_peer_disconnection_events_total"@, "direction=\"outbound\",reason=\"error\""@, 0)
}

/// Writes `disconnection_section`.
fn disconnection_section_string(r: &MetricsRegistry) -> (s: String)
    ensures
        s@ == disconnection_section(*r),
{
    let mut s: String = "# TYPE lean_peer_disconnection_events_total counter\n".to_string();
    s.append(labeled_string("lean_peer_disconnection_events_total", "direction=\"inbound\",reason=\"remote_close\"", r.peer_disconnection_inbound.get()).as_str());
    s.append(labeled_string("lean_peer_disconnection_events_total", "direction=\"outbound\",reason=\"local_close\"", r.peer_disconnection_outbound.get()).as_str());
    s.append(labeled_string("lean_peer_disconnection_events_total", "direction=\"inbound\",reason=\"timeout\"", 0).as_str());
    s.append(labeled_string("lean_peer_disconnection_events_total", "direction=\"outbound\",reason=\"timeout\"", 0).as_str());
    s.append(labeled_string("lean_peer_disconnection_events_total", "direction=\"inbound\",reason=\"error\"", 0).as_str());
    s.append(labeled_string("lean_peer_disconnection_events_total", "direction=\"outbound\",reason=\"error\"", 0).as_str());
    s
}

/// Syncing.
pub open spec fn sync_section(sync: SyncGauges) -> Seq<char> {
    gauge("lean_syncing"@, (if sync.syncing { 1u64 } else { 0u64 }))
        + gauge("lean_sync_target_slot"@, sync.target_slot)
        + gauge("lean_sync_pending_depth"@, sync.pending_depth)
}

/// Writes `sync_section`.
fn sync_section_string(sync: SyncGauges) -> (s: String)
    ensures
        s@ == sync_section(sync),
{
    let mut s: String = gauge_string("lean_syncing", (if sync.syncing { 1u64 } else { 0u64 }));
    s.append(gauge_string("lean_sync_target_slot", sync.target_slot).as_str());
    s.append(gauge_string("lean_sync_pending_depth", sync.pending_depth).as_str());
    s
}

/// The store's tables.
pub open spec fn store_section(store: StoreGauges) -> Seq<char> {
    gauge("lean_storage_canonical_state_rows"@, store.canonical_state_rows)
        + gauge("lean_storage_canonical_block_rows"@, store.canonical_block_rows)
        + gauge("lean_storage_pending_block_rows"@, store.pending_block_rows)
}

/// Writes `store_section`.
fn store_section_string(store: StoreGauges) -> (s: String)
    ensures
        s@ == store_section(store),
{
    let mut s: String = gauge_string("lean_storage_canonical_state_rows", store.canonical_state_rows);
    s.append(gauge_string("lean_storage_canonical_block_rows", store.canonical_block_rows).as_str());
    s.append(gauge_string("lean_storage_pending_block_rows", store.pending_block_rows).as_str());
    s
}

/// The signature counters.
pub open spec fn signature_section(r: MetricsRegistry) -> Seq<char> {
    counter("lean_pq_sig_attestation_signatures_total"@, r.pq_attestation_signatures_total@)
        + counter("lean_pq_sig_attestation_signatures_valid_total"@, r.pq_attestation_signatures_valid_total@)
        + counter("lean_pq_sig_attestation_signatures_invalid_total"@, r.pq_attestation_signatures_invalid_total@)
        + counter("lean_pq_proposer_signatures_total"@, r.pq_proposer_signatures_total@)
        + counter("lean_pq_proposer_signatures_valid_total"@, r.pq_proposer_signatures_valid_total@)
        + counter("lean_pq_proposer_signatures_invalid_total"@, r.pq_proposer_signatures_invalid_total@)
        + counter("lean_pq_sig_aggregated_signatures_total"@, r.pq_aggregated_signatures_total@)
        + counter("lean_pq_sig_aggregated_signatures_valid_total"@, r.pq_aggregated_signatures_valid_total@)
        + counter("lean_pq_sig_aggregated_signatures_invalid_total"@, r.pq_aggregated_signatures_invalid_total@)
        + counter("lean_pq_sig_attestations_in_aggregated_signatures_total"@, r.pq_attestations_in_aggregated_signatures_total@)
}

/// Writes `signature_section`.
fn signature_section_string(r: &MetricsRegistry) -> (s: String)
    ensures
        s@ == signature_section(*r),
{
    let mut s: String = counter_string("lean_pq_sig_attestation_signatures_total", r.pq_attestation_signatures_total.get());
    s.append(counter_string("lean_pq_sig_attestation_signatures_valid_total", r.pq_attestation_signatures_valid_total.get()).as_str());
    s.append(counter_string("lean_pq_sig_attestation_signatures_invalid_total", r.pq_attestation_signatures_invalid_total.get()).as_str());
    s.append(counter_string("lean_pq_proposer_signatures_total", r.pq_proposer_signatures_total.get()).as_str());
    s.append(counter_string("lean_pq_proposer_signatures_valid_total", r.pq_proposer_signatures_valid_total.get()).as_str());
    s.append(counter_string("lean_pq_proposer_signatures_invalid_total", r.pq_proposer_signatures_invalid_total.get()).as_str());
    s.append(counter_string("lean_pq_sig_aggregated_signatures_total", r.pq_aggregated_signatures_total.get()).as_str());
    s.append(counter_string("lean_pq_sig_aggregated_signatures_valid_total", r.pq_aggregated_signatures_valid_total.get()).as_str());
    s.append(counter_string("lean_pq_sig_aggregated_signatures_invalid_total", r.pq_aggregated_signatures_invalid_total.get()).as_str());
    s.append(counter_string("lean_pq_sig_attestations_in_aggregated_signatures_total", r.pq_attestations_in_aggregated_signatures_total.get()).as_str());
    s
}

/// The fork-choice and transition counters.
pub open spec fn transition_section(r: MetricsRegistry) -> Seq<char> {
    counter("lean_attestations_valid_total"@, r.fc_attestations_valid_total@)
        + counter("lean_attestations_invalid_total"@, r.fc_attestations_invalid_total@)
        + "# TYPE lean_finalizations_total counter\n"@
        + labeled("lean_finalizations_total"@, "result=\"success\""@, r.finalizations_success_total@)
        + labeled("lean_finalizations_total"@, "result=\"error\""@, r.finalizations_error_total@)
        + counter("lean_state_transition_slots_processed_total"@, r.slots_processed_total@)
        + counter("lean_state_transition_attestations_processed_total"@, r.attestations_processed_total@)
}

/// Writes `transition_section`.
fn transition_section_string(r: &MetricsRegistry) -> (s: String)
    ensures
        s@ == transition_section(*r),
{
    let mut s: String = counter_string("lean_attestations_valid_total", r.fc_attestations_valid_total.get());
    s.append(counter_string("lean_attestations_invalid_total", r.fc_attestations_invalid_total.get()).as_str());
    s.append("# TYPE lean_finalizations_total counter\n");
    s.append(labeled_string("lean_finalizations_total", "result=\"success\"", r.finalizations_success_total.get()).as_str());
    s.append(labeled_string("lean_finalizations_total", "result=\"error\"", r.finalizations_error_total.get()).as_str());
    s.append(counter_string("lean_state_transition_slots_processed_total", r.slots_processed_total.get()).as_str());
    s.append(counter_string("lean_state_transition_attestations_processed_total", r.attestations_processed_total.get()).as_str());
    s
}

/// The times of signing and verifying.
pub open spec fn signature_histograms(r: MetricsRegistry) -> Seq<char> {
    r.pq_attestation_signing_time@.rendered("lean_pq_sig_attestation_signing_time_seconds"@, "Time to produce a PQ attestation signature."@, true)
        + r.pq_proposer_signing_time@.rendered("lean_pq_proposer_signing_time"@, "Time to produce a PQ proposer signature."@, true)
        + r.pq_attestation_verification_time@.rendered("lean_pq_sig_attestation_verification_time_seconds"@, "Time to verify a PQ attestation signature."@, true)
        + r.pq_aggregated_signing_time@.rendered("lean_pq_sig_aggregated_signatures_building_time_seconds"@, "Time to build an aggregate PQ signature."@, true)
        + r.pq_aggregated_verification_time@.rendered("lean_pq_sig_aggregated_signatures_verification_time_seconds"@, "Time to verify an aggregate PQ signature."@, true)
}

/// Writes `signature_histograms`.
fn signature_histograms_string(r: &MetricsRegistry) -> (s: String)
    ensures
        s@ == signature_histograms(*r),
{
    let mut s: String = r.pq_attestation_signing_time.render("lean_pq_sig_attestation_signing_time_seconds", "Time to produce a PQ attestation signature.", true);
    s.append(r.pq_proposer_signing_time.render("lean_pq_proposer_signing_time", "Time to produce a PQ proposer signature.", true).as_str());
    s.append(r.pq_attestation_verification_time.render("lean_pq_sig_attestation_verification_time_seconds", "Time to verify a PQ attestation signature.", true).as_str());
    s.append(r.pq_aggregated_signing_time.render("lean_pq_sig_aggregated_signatures_building_time_seconds", "Time to build an aggregate PQ signature.", true).as_str());
    s.append(r.pq_aggregated_verification_time.render("lean_pq_sig_aggregated_signatures_verification_time_seconds", "Time to verify an aggregate PQ signature.", true).as_str());
    s
}

/// The times and depths of fork choice.
pub open spec fn fork_choice_histograms(r: MetricsRegistry) -> Seq<char> {
    r.fc_block_processing_time@.rendered("lean_fork_choice_block_processing_time_seconds"@, "Time for fork choice to process a block."@, true)
        + r.fc_attestation_validation_time@.rendered("lean_attestation_validation_time_seconds"@, "Time for fork choice attestation validation."@, true)
        + r.fc_reorg_depth@.rendered("lean_fork_choice_reorg_depth"@, "Depth of chain reorganizations."@, false)
        + r.fc_committee_aggregation_time@.rendered("lean_committee_signatures_aggregation_time_seconds"@, "Time for committee aggregation."@, true)
}

/// Writes `fork_choice_histograms`.
fn fork_choice_histograms_string(r: &MetricsRegistry) -> (s: String)
    ensures
        s@ == fork_choice_histograms(*r),
{
    let mut s: String = r.fc_block_processing_time.render("lean_fork_choice_block_processing_time_seconds", "Time for fork choice to process a block.", true);
    s.append(r.fc_attestation_validation_time.render("lean_attestation_validation_time_seconds", "Time for fork choice attestation validation.", true).as_str());
    s.append(r.fc_reorg_depth.render("lean_fork_choice_reorg_depth", "Depth of chain reorganizations.", false).as_str());
    s.append(r.fc_committee_aggregation_time.render("lean_committee_signatures_aggregation_time_seconds", "Time for committee aggregation.", true).as_str());
    s
}

/// The times of block transitions.
pub open spec fn transition_histograms(r: MetricsRegistry) -> Seq<char> {
    r.state_transition_time@.rendered("lean_state_transition_time_seconds"@, "Total state transition time."@, true)
        + r.state_transition_slots_processing_time@.rendered("lean_state_transition_slots_processing_time_seconds"@, "Time to process slots in state transition."@, true)
        + r.state_transition_block_processing_time@.rendered("lean_state_transition_block_processing_time_seconds"@, "Time to process block in state transition."@, true)
        + r.state_transition_attestations_processing_time@.rendered("lean_state_transition_attestations_processing_time_seconds"@, "Time to process attestations in state transition."@, true)
        + r.block_import_end_to_end_time@.rendered("lean_block_import_end_to_end_time"@, "End-to-end time to import a signed block."@, true)
}

/// Writes `transition_histograms`.
fn transition_histograms_string(r: &MetricsRegistry) -> (s: String)
    ensures
        s@ == transition_histograms(*r),
{
    let mut s: String = r.state_transition_time.render("lean_state_transition_time_seconds", "Total state transition time.", true);
    s.append(r.state_transition_slots_processing_time.render("lean_state_transition_slots_processing_time_seconds", "Time to process slots in state transition.", true).as_str());
    s.append(r.state_transition_block_processing_time.render("lean_state_transition_block_processing_time_seconds", "Time to process block in state transition.", true).as_str());
    s.append(r.state_transition_attestations_processing_time.render("lean_state_transition_attestations_processing_time_seconds", "Time to process attestations in state transition.", true).as_str());
    s.append(r.block_import_end_to_end_time.render("lean_block_import_end_to_end_time", "End-to-end time to import a signed block.", true).as_str());
    s
}

/// The whole report.
pub open spec fn metrics_text(
    m: ChainGauges,
    store: StoreGauges,
    peer_count: u64,
    sync: SyncGauges,
    r: MetricsRegistry,
    now: u64,
) -> Seq<char> {
    node_section(r.start_time_seconds, now)
        + chain_section(m)
        + validator_section(r.is_aggregator)
        + peer_section(peer_count, r)
        + disconnection_section(r)
        + sync_section(sync)
        + store_section(store)
        + signature_section(r)
        + transition_section(r)
        + signature_histograms(r)
        + fork_choice_histograms(r)
        + transition_histograms(r)
}

/// Writes the report for a given time.
pub fn render_metrics_at(
    state: &State,
    store: StoreGauges,
    fork_choice: &Option<ForkChoiceStore>,
    peer_count: u64,
    sync: SyncGauges,
    registry: &MetricsRegistry,
    now: u64,
) -> (s: String)
    requires
        fork_choice matches Some(f) ==> f.wf(),
    ensures
        s@ == metrics_text(
            chain_gauges(state@, store, fork_choice_model(*fork_choice)),
            store,
            peer_count,
            sync,
            *registry,
            now,
        ),
{
    let m = collect_gauges(state, store, fork_choice);
    let mut s: String = node_section_string(registry.start_time_seconds, now);
    s.append(chain_section_string(m).as_str());
    s.append(validator_section_string(registry.is_aggregator).as_str());
    s.append(peer_section_string(peer_count, registry).as_str());
    s.append(disconnection_section_string(registry).as_str());
    s.append(sync_section_string(sync).as_str());
    s.append(store_section_string(store).as_str());
    s.append(signature_section_string(registry).as_str());
    s.append(transition_section_string(registry).as_str());
    s.append(signature_histograms_string(registry).as_str());
    s.append(fork_choice_histograms_string(registry).as_str());
    s.append(transition_histograms_string(registry).as_str());
    s
}

/// Writes the report for the present time.
pub fn render_metrics(
    state: &State,
    store: StoreGauges,
    fork_choice: &Option<ForkChoiceStore>,
    peer_count: u64,
    sync: SyncGauges,
    registry: &MetricsRegistry,
) -> (s: String)
    requires
        fork_choice matches Some(f) ==> f.wf(),
    ensures
        exists|now: u64|
            s@ == #[trigger] metrics_text(
                chain_gauges(state@, store, fork_choice_model(*fork_choice)),
                store,
                peer_count,
                sync,
                *registry,
                now,
            ),
{
    let now: u64 = unix_seconds();
    render_metrics_at(state, store, fork_choice, peer_count, sync, registry, now)
}

/// The reply to a request for the metrics.
pub open spec fn http_reply(body: Seq<char>) -> Seq<char> {
    "HTTP/1.1 200 OK\r\nContent-Type: text/plain; version=0.0.4\r\nContent-Length: "@
        + text::decimal(vstd::utf8::encode_utf8(body).len() as usize as nat) + "\r\nConnection: close\r\n\r\n"@
        + body
}

/// Writes the reply to a request for the metrics.
pub fn http_reply_string(body: &str) -> (r: String)
    ensures
        r@ == http_reply(body@),
{
    let mut s: String =
        "HTTP/1.1 200 OK\r\nContent-Type: text/plain; version=0.0.4\r\nContent-Length: ".to_string();
    s.append(text::decimal_string(body.len() as u64).as_str());
    s.append("\r\nConnection: close\r\n\r\n");
    s.append(body);
    s
}

} // verus!
