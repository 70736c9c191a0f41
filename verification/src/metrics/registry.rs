//! All metrics of a node.

use std::time::{SystemTime, UNIX_EPOCH};

use vstd::prelude::*;

use crate::containers::block::SignedBlockWithAttestation;
use crate::containers::pq_verifier::PqSignatureVerifier;
use crate::containers::state;
use crate::containers::state::{State, StepTimes, StepsDone, TransitionReport};
use crate::metrics::histogram::{
    AtomicCounter, AtomicHistogram, HistogramModel, BUCKETS_AGG, BUCKETS_COMMITTEE_AGG,
    BUCKETS_FC_BLOCK, BUCKETS_REORG_DEPTH, BUCKETS_SIG, BUCKETS_STATE_TRANSITION,
};

verus! {

/// `SystemTime::now` as whole seconds since the Unix epoch, 0 for a clock before
/// it. The time is up to the machine, so nothing is claimed of the number.
#[verifier::external_body]
pub(crate) fn unix_seconds() -> (r: u64) {
    match SystemTime::now().duration_since(UNIX_EPOCH) {
        Ok(d) => d.as_secs(),
        Err(_) => 0,
    }
}

/// The counters and histograms of a node.
#[derive(Clone, Debug)]
pub struct MetricsRegistry {
    /// When the node started, in seconds since the Unix epoch.
    pub start_time_seconds: u64,
    /// Attestation signatures checked.
    pub pq_attestation_signatures_total: AtomicCounter,
    /// Attestation signatures found valid.
    pub pq_attestation_signatures_valid_total: AtomicCounter,
    /// Attestation signatures found invalid.
    pub pq_attestation_signatures_invalid_total: AtomicCounter,
    /// Proposer signatures checked.
    pub pq_proposer_signatures_total: AtomicCounter,
    /// Proposer signatures found valid.
    pub pq_proposer_signatures_valid_total: AtomicCounter,
    /// Proposer signatures found invalid.
    pub pq_proposer_signatures_invalid_total: AtomicCounter,
    /// Time to sign an attestation.
    pub pq_attestation_signing_time: AtomicHistogram,
    /// Time to sign a proposal.
    pub pq_proposer_signing_time: AtomicHistogram,
    /// Time to verify an attestation's signature.
    pub pq_attestation_verification_time: AtomicHistogram,
    /// Aggregate signatures built.
    pub pq_aggregated_signatures_total: AtomicCounter,
    /// Aggregate signatures found valid.
    pub pq_aggregated_signatures_valid_total: AtomicCounter,
    /// Aggregate signatures found invalid.
    pub pq_aggregated_signatures_invalid_total: AtomicCounter,
    /// Attestations covered by aggregate signatures.
    pub pq_attestations_in_aggregated_signatures_total: AtomicCounter,
    /// Time to build an aggregate signature.
    pub pq_aggregated_signing_time: AtomicHistogram,
    /// Time to verify an aggregate signature.
    pub pq_aggregated_verification_time: AtomicHistogram,
    /// Attestations that fork choice took.
    pub fc_attestations_valid_total: AtomicCounter,
    /// Attestations that fork choice refused.
    pub fc_attestations_invalid_total: AtomicCounter,
    /// Time for fork choice to process a block.
    pub fc_block_processing_time: AtomicHistogram,
    /// Time for fork choice to check an attestation.
    pub fc_attestation_validation_time: AtomicHistogram,
    /// Depth of reorganizations.
    pub fc_reorg_depth: AtomicHistogram,
    /// Time for committee aggregation.
    pub fc_committee_aggregation_time: AtomicHistogram,
    /// Blocks that advanced finality.
    pub finalizations_success_total: AtomicCounter,
    /// Finalizations that failed.
    pub finalizations_error_total: AtomicCounter,
    /// Slots advanced.
    pub slots_processed_total: AtomicCounter,
    /// Attestations processed.
    pub attestations_processed_total: AtomicCounter,
    /// Time for a whole transition.
    pub state_transition_time: AtomicHistogram,
    /// Time to advance the slots.
    pub state_transition_slots_processing_time: AtomicHistogram,
    /// Time to process the block.
    pub state_transition_block_processing_time: AtomicHistogram,
    /// Time to process the attestations.
    pub state_transition_attestations_processing_time: AtomicHistogram,
    /// Time from receiving a block to having imported it.
    pub block_import_end_to_end_time: AtomicHistogram,
    /// Whether the node aggregates.
    pub is_aggregator: bool,
    /// Inbound connections.
    pub peer_connection_inbound: AtomicCounter,
    /// Outbound connections.
    pub peer_connection_outbound: AtomicCounter,
    /// Inbound connections that closed.
    pub peer_disconnection_inbound: AtomicCounter,
    /// Outbound connections that closed.
    pub peer_disconnection_outbound: AtomicCounter,
}

impl MetricsRegistry {
    /// Whether nothing has been counted or taken in yet.
    pub open spec fn is_fresh(self) -> bool {
        &&& self.pq_attestation_signatures_total@ == 0
        &&& self.pq_attestation_signatures_valid_total@ == 0
        &&& self.pq_attestation_signatures_invalid_total@ == 0
        &&& self.pq_proposer_signatures_total@ == 0
        &&& self.pq_proposer_signatures_valid_total@ == 0
        &&& self.pq_proposer_signatures_invalid_total@ == 0
        &&& self.pq_attestation_signing_time@ == HistogramModel::fresh(BUCKETS_SIG@)
        &&& self.pq_proposer_signing_time@ == HistogramModel::fresh(BUCKETS_SIG@)
        &&& self.pq_attestation_verification_time@ == HistogramModel::fresh(BUCKETS_SIG@)
        &&& self.pq_aggregated_signatures_total@ == 0
        &&& self.pq_aggregated_signatures_valid_total@ == 0
        &&& self.pq_aggregated_signatures_invalid_total@ == 0
        &&& self.pq_attestations_in_aggregated_signatures_total@ == 0
        &&& self.pq_aggregated_signing_time@ == HistogramModel::fresh(BUCKETS_AGG@)
        &&& self.pq_aggregated_verification_time@ == HistogramModel::fresh(BUCKETS_AGG@)
        &&& self.fc_attestations_valid_total@ == 0
        &&& self.fc_attestations_invalid_total@ == 0
        &&& self.fc_block_processing_time@ == HistogramModel::fresh(BUCKETS_FC_BLOCK@)
        &&& self.fc_attestation_validation_time@ == HistogramModel::fresh(BUCKETS_SIG@)
        &&& self.fc_reorg_depth@ == HistogramModel::fresh(BUCKETS_REORG_DEPTH@)
        &&& self.fc_committee_aggregation_time@ == HistogramModel::fresh(BUCKETS_COMMITTEE_AGG@)
        &&& self.finalizations_success_total@ == 0
        &&& self.finalizations_error_total@ == 0
        &&& self.slots_processed_total@ == 0
        &&& self.attestations_processed_total@ == 0
        &&& self.state_transition_time@ == HistogramModel::fresh(BUCKETS_STATE_TRANSITION@)
        &&& self.state_transition_slots_processing_time@ == HistogramModel::fresh(BUCKETS_SIG@)
        &&& self.state_transition_block_processing_time@ == HistogramModel::fresh(BUCKETS_SIG@)
        &&& self.state_transition_attestations_processing_time@ == HistogramModel::fresh(BUCKETS_SIG@)
        &&& self.block_import_end_to_end_time@ == HistogramModel::fresh(BUCKETS_STATE_TRANSITION@)
        &&& !self.is_aggregator
        &&& self.peer_connection_inbound@ == 0
        &&& self.peer_connection_outbound@ == 0
        &&& self.peer_disconnection_inbound@ == 0
        &&& self.peer_disconnection_outbound@ == 0
    }

    /// A registry for a node that starts now.
    pub fn new() -> (r: Self)
        ensures
            r.is_fresh(),
    {
        let now: u64 = unix_seconds();
        MetricsRegistry::started_at(now)
    }

    /// A registry for a node that started at the given time.
    pub fn started_at(start_time_seconds: u64) -> (r: Self)
        ensures
            r.start_time_seconds == start_time_seconds,
            r.is_fresh(),
    {
        MetricsRegistry {
            start_time_seconds,
            pq_attestation_signatures_total: AtomicCounter::new(),
            pq_attestation_signatures_valid_total: AtomicCounter::new(),
            pq_attestation_signatures_invalid_total: AtomicCounter::new(),
            pq_proposer_signatures_total: AtomicCounter::new(),
            pq_proposer_signatures_valid_total: AtomicCounter::new(),
            pq_proposer_signatures_invalid_total: AtomicCounter::new(),
            pq_attestation_signing_time: AtomicHistogram::new(&BUCKETS_SIG),
            pq_proposer_signing_time: AtomicHistogram::new(&BUCKETS_SIG),
            pq_attestation_verification_time: AtomicHistogram::new(&BUCKETS_SIG),
            pq_aggregated_signatures_total: AtomicCounter::new(),
            pq_aggregated_signatures_valid_total: AtomicCounter::new(),
            pq_aggregated_signatures_invalid_total: AtomicCounter::new(),
            pq_attestations_in_aggregated_signatures_total: AtomicCounter::new(),
            pq_aggregated_signing_time: AtomicHistogram::new(&BUCKETS_AGG),
            pq_aggregated_verification_time: AtomicHistogram::new(&BUCKETS_AGG),
            fc_attestations_valid_total: AtomicCounter::new(),
            fc_attestations_invalid_total: AtomicCounter::new(),
            fc_block_processing_time: AtomicHistogram::new(&BUCKETS_FC_BLOCK),
            fc_attestation_validation_time: AtomicHistogram::new(&BUCKETS_SIG),
            fc_reorg_depth: AtomicHistogram::new(&BUCKETS_REORG_DEPTH),
            fc_committee_aggregation_time: AtomicHistogram::new(&BUCKETS_COMMITTEE_AGG),
            finalizations_success_total: AtomicCounter::new(),
            finalizations_error_total: AtomicCounter::new(),
            slots_processed_total: AtomicCounter::new(),
            attestations_processed_total: AtomicCounter::new(),
            state_transition_time: AtomicHistogram::new(&BUCKETS_STATE_TRANSITION),
            state_transition_slots_processing_time: AtomicHistogram::new(&BUCKETS_SIG),
            state_transition_block_processing_time: AtomicHistogram::new(&BUCKETS_SIG),
            state_transition_attestations_processing_time: AtomicHistogram::new(&BUCKETS_SIG),
            block_import_end_to_end_time: AtomicHistogram::new(&BUCKETS_STATE_TRANSITION),
            is_aggregator: false,
            peer_connection_inbound: AtomicCounter::new(),
            peer_connection_outbound: AtomicCounter::new(),
            peer_disconnection_inbound: AtomicCounter::new(),
            peer_disconnection_outbound: AtomicCounter::new(),
        }
    }

    /// Adds up what a block transition counted and takes in its times.
    pub fn record_transition(&mut self, report: TransitionReport, times: StepTimes)
        ensures
            counted(*old(self), *final(self), report),
            taken_in(old(self).state_transition_slots_processing_time@, final(self).state_transition_slots_processing_time@, times.slots),
            taken_in(old(self).state_transition_attestations_processing_time@, final(self).state_transition_attestations_processing_time@, times.attestations),
            taken_in(old(self).state_transition_block_processing_time@, final(self).state_transition_block_processing_time@, times.block),
            taken_in(old(self).state_transition_time@, final(self).state_transition_time@, times.total),
    {
        self.slots_processed_total.add(report.slots_processed);
        self.attestations_processed_total.add(report.attestations_processed);
        self.finalizations_success_total.add(report.finalizations);
        match times.slots {
            Some(n) => self.state_transition_slots_processing_time.observe(n),
            None => {},
        }
        match times.attestations {
            Some(n) => self.state_transition_attestations_processing_time.observe(n),
            None => {},
        }
        match times.block {
            Some(n) => self.state_transition_block_processing_time.observe(n),
            None => {},
        }
        match times.total {
            Some(n) => self.state_transition_time.observe(n),
            None => {},
        }
    }
}

/// The registry with a transition's counts added, apart from its times.
pub open spec fn counted(
    before: MetricsRegistry,
    after: MetricsRegistry,
    report: TransitionReport,
) -> bool {
    &&& after.slots_processed_total@ == before.slots_processed_total@.wrapping_add(
        report.slots_processed,
    )
    &&& after.attestations_processed_total@ == before.attestations_processed_total@.wrapping_add(
        report.attestations_processed,
    )
    &&& after.finalizations_success_total@ == before.finalizations_success_total@.wrapping_add(
        report.finalizations,
    )
    &&& after.start_time_seconds == before.start_time_seconds
    &&& after.pq_attestation_signatures_total == before.pq_attestation_signatures_total
    &&& after.pq_attestation_signatures_valid_total == before.pq_attestation_signatures_valid_total
    &&& after.pq_attestation_signatures_invalid_total == before.pq_attestation_signatures_invalid_total
    &&& after.pq_proposer_signatures_total == before.pq_proposer_signatures_total
    &&& after.pq_proposer_signatures_valid_total == before.pq_proposer_signatures_valid_total
    &&& after.pq_proposer_signatures_invalid_total == before.pq_proposer_signatures_invalid_total
    &&& after.pq_attestation_signing_time == before.pq_attestation_signing_time
    &&& after.pq_proposer_signing_time == before.pq_proposer_signing_time
    &&& after.pq_attestation_verification_time == before.pq_attestation_verification_time
    &&& after.pq_aggregated_signatures_total == before.pq_aggregated_signatures_total
    &&& after.pq_aggregated_signatures_valid_total == before.pq_aggregated_signatures_valid_total
    &&& after.pq_aggregated_signatures_invalid_total == before.pq_aggregated_signatures_invalid_total
    &&& after.pq_attestations_in_aggregated_signatures_total == before.pq_attestations_in_aggregated_signatures_total
    &&& after.pq_aggregated_signing_time == before.pq_aggregated_signing_time
    &&& after.pq_aggregated_verification_time == before.pq_aggregated_verification_time
    &&& after.fc_attestations_valid_total == before.fc_attestations_valid_total
    &&& after.fc_attestations_invalid_total == before.fc_attestations_invalid_total
    &&& after.fc_block_processing_time == before.fc_block_processing_time
    &&& after.fc_attestation_validation_time == before.fc_attestation_validation_time
    &&& after.fc_reorg_depth == before.fc_reorg_depth
    &&& after.fc_committee_aggregation_time == before.fc_committee_aggregation_time
    &&& after.finalizations_error_total == before.finalizations_error_total
    &&& after.block_import_end_to_end_time == before.block_import_end_to_end_time
    &&& after.is_aggregator == before.is_aggregator
    &&& after.peer_connection_inbound == before.peer_connection_inbound
    &&& after.peer_connection_outbound == before.peer_connection_outbound
    &&& after.peer_disconnection_inbound == before.peer_disconnection_inbound
    &&& after.peer_disconnection_outbound == before.peer_disconnection_outbound
}

/// A histogram that has taken in a time where there is one.
pub open spec fn taken_in(
    before: HistogramModel,
    after: HistogramModel,
    time: Option<u64>,
) -> bool {
    match time {
        Some(n) => after == before.observed(n),
        None => after == before,
    }
}

/// A histogram that has taken in one value, whichever, where the step was done.
pub open spec fn timed(before: HistogramModel, after: HistogramModel, done: bool) -> bool {
    if done {
        exists|n: u64| after == #[trigger] before.observed(n)
    } else {
        after == before
    }
}

/// The histograms of a transition, each with one value more where its step was
/// done.
pub open spec fn steps_timed(before: MetricsRegistry, after: MetricsRegistry, done: StepsDone) -> bool {
    &&& timed(
        before.state_transition_slots_processing_time@,
        after.state_transition_slots_processing_time@,
        done.slots,
    )
    &&& timed(
        before.state_transition_attestations_processing_time@,
        after.state_transition_attestations_processing_time@,
        done.attestations,
    )
    &&& timed(
        before.state_transition_block_processing_time@,
        after.state_transition_block_processing_time@,
        done.block,
    )
    &&& timed(before.state_transition_time@, after.state_transition_time@, done.total)
}

impl State {
    /// Imports a signed block on the answers of the signature scheme and records
    /// what the transition counted and how long its steps took. On a refusal the
    /// state stays as it was.
    pub fn process_signed_block_with_metrics(
        &mut self,
        signed: &SignedBlockWithAttestation,
        answers: Vec<Result<(), String>>,
        metrics: &mut MetricsRegistry,
    ) -> (r: Result<(), String>)
        ensures
            match state::import_verdict((PqSignatureVerifier { answers }), old(self)@, signed@) {
                Ok(next) => r is Ok && final(self)@ == next,
                Err(e) => crate::ssz::plain_outcome(r) == Err::<(), Seq<char>>(e) && final(self)@
                    == old(self)@,
            },
            counted(
                *old(metrics),
                *final(metrics),
                state::import_report((PqSignatureVerifier { answers }), old(self)@, signed@),
            ),
            steps_timed(
                *old(metrics),
                *final(metrics),
                state::import_steps((PqSignatureVerifier { answers }), old(self)@, signed@),
            ),
    {
        let verifier = PqSignatureVerifier { answers };
        let (answer, report, times) = self.import_reported(signed, &verifier);
        metrics.record_transition(report, times);
        answer
    }
}

} // verus!
