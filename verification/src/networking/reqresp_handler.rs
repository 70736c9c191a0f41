//! Answers to requests.

use vstd::prelude::*;

use crate::containers::block::SignedBlockModel;
use crate::containers::req_resp::{Status, MAX_BLOCKS_PER_ROOT_REQUEST};
use crate::containers::state::{State, StateModel};
use crate::networking::reqresp_messages::{
    LeanRequestMessage, LeanResponseMessage, RequestModel, ResponseModel,
};
use crate::storage::{BlockTable, TableModel};
use crate::types::bytes::Bytes32;

verus! {

/// The values of a series of responses.
pub open spec fn response_models(v: Seq<LeanResponseMessage>) -> Seq<ResponseModel> {
    v.map_values(|m: LeanResponseMessage| m@)
}

/// Every response of a series can be encoded.
pub open spec fn all_encodable(v: Seq<ResponseModel>) -> bool {
    forall|i: int| 0 <= i < v.len() ==> (#[trigger] v[i]).encodable()
}

/// Answers requests.
pub trait ReqRespHandler {
    /// The answers to a request.
    spec fn answers(&self, request: RequestModel) -> Seq<ResponseModel>;

    /// Answers a request. Every answer can be encoded.
    fn on_request(&self, request: &LeanRequestMessage) -> (r: Vec<LeanResponseMessage>)
        ensures
            response_models(r@) == self.answers(request@),
            all_encodable(self.answers(request@)),
    ;
}

/// Answers nothing.
#[derive(Clone, Copy, Debug)]
pub struct NoopReqRespHandler;

impl ReqRespHandler for NoopReqRespHandler {
    open spec fn answers(&self, request: RequestModel) -> Seq<ResponseModel> {
        Seq::empty()
    }

    fn on_request(&self, _request: &LeanRequestMessage) -> (r: Vec<LeanResponseMessage>) {
        let r: Vec<LeanResponseMessage> = Vec::new();
        assert(response_models(r@) =~= Seq::empty());
        r
    }
}

/// Answers from a state and a table of blocks: a status with the node's own, and
/// a request by root with the known ones of its blocks.
pub struct StoreReqRespHandler<'a> {
    state: &'a State,
    store: &'a BlockTable,
}

/// The status of a node: the head and finality of the table, or the latest header and
/// the finality of the state where the table knows none.
pub open spec fn status_of(s: StateModel, t: TableModel) -> Status {
    let stored = match t.head {
        Some(root) => t.blocks.contains_key(root),
        None => false,
    };
    Status {
        fork_digest: Bytes32::zero_value(),
        finalized_root: match t.finalized {
            Some(root) => root,
            None => s.latest_finalized.root,
        },
        finalized_epoch: s.latest_finalized.slot.0,
        head_root: if stored {
            t.head->0
        } else {
            s.latest_block_header.root_value()
        },
        head_slot: if stored {
            t.blocks[t.head->0].message.block.slot.0
        } else {
            s.latest_block_header.slot.0
        },
    }
}

/// The known ones among the first `k` roots, as responses, in their order.
pub open spec fn found_blocks(
    blocks: Map<Bytes32, SignedBlockModel>,
    roots: Seq<Bytes32>,
    k: nat,
) -> Seq<ResponseModel>
    decreases k,
{
    if k == 0 {
        Seq::empty()
    } else {
        let before = found_blocks(blocks, roots, (k - 1) as nat);
        if blocks.contains_key(roots[k - 1]) {
            before.push(ResponseModel::BlocksByRoot(blocks[roots[k - 1]]))
        } else {
            before
        }
    }
}

/// How many roots of a request are looked at.
pub open spec fn roots_served(roots: Seq<Bytes32>) -> nat {
    if roots.len() > MAX_BLOCKS_PER_ROOT_REQUEST {
        MAX_BLOCKS_PER_ROOT_REQUEST as nat
    } else {
        roots.len()
    }
}

/// The answers of a node.
pub open spec fn node_answers(s: StateModel, t: TableModel, request: RequestModel) -> Seq<
    ResponseModel,
> {
    match request {
        RequestModel::Status(_) => seq![ResponseModel::Status(status_of(s, t))],
        RequestModel::BlocksByRange(_) => Seq::empty(),
        RequestModel::BlocksByRoot(roots) => found_blocks(t.blocks, roots, roots_served(roots)),
    }
}

impl<'a> StoreReqRespHandler<'a> {
    /// The table is in order.
    #[verifier::type_invariant]
    spec fn inv(self) -> bool {
        self.store.wf()
    }

    /// The state and the table that the answers come from.
    pub closed spec fn sources(&self) -> (StateModel, TableModel) {
        (self.state@, self.store@)
    }

    /// A handler over a state and a table of blocks.
    pub fn new(state: &'a State, store: &'a BlockTable) -> (r: Self)
        requires
            store.wf(),
        ensures
            r.sources() == (state@, store@),
    {
        StoreReqRespHandler { state, store }
    }

    /// The node's status.
    pub fn build_status(&self) -> (r: Status)
        ensures
            r == status_of(self.sources().0, self.sources().1),
    {
        proof {
            use_type_invariant(self);
        }
        let own_root = Bytes32(self.state.latest_block_header.hash_tree_root());
        let own_slot = self.state.latest_block_header.slot.0;
        let (head_root, head_slot) = match self.store.head() {
            Some(root) => match self.store.get_signed_block(&root) {
                Some(b) => (root, b.message.block.slot.0),
                None => (own_root, own_slot),
            },
            None => (own_root, own_slot),
        };
        let finalized_root = match self.store.finalized() {
            Some(root) => root,
            None => self.state.latest_finalized.root,
        };
        let zero = Bytes32::zero();
        proof {
            Bytes32::lemma_ext(zero, Bytes32::zero_value());
        }
        Status {
            fork_digest: zero,
            finalized_root,
            finalized_epoch: self.state.latest_finalized.slot.0,
            head_root,
            head_slot,
        }
    }
}

/// Found blocks can be encoded where all known ones can.
proof fn lemma_found_encodable(t: TableModel, roots: Seq<Bytes32>, k: nat)
    requires
        crate::storage::all_encodable(t),
    ensures
        all_encodable(found_blocks(t.blocks, roots, k)),
    decreases k,
{
    if k > 0 {
        lemma_found_encodable(t, roots, (k - 1) as nat);
    }
}

impl<'a> ReqRespHandler for StoreReqRespHandler<'a> {
    open spec fn answers(&self, request: RequestModel) -> Seq<ResponseModel> {
        node_answers(self.sources().0, self.sources().1, request)
    }

    fn on_request(&self, request: &LeanRequestMessage) -> (r: Vec<LeanResponseMessage>) {
        proof {
            use_type_invariant(self);
        }
        let mut out: Vec<LeanResponseMessage> = Vec::new();
        assert(response_models(out@) =~= Seq::empty());
        match request {
            LeanRequestMessage::Status(_) => {
                let status = self.build_status();
                out.push(LeanResponseMessage::Status(status));
                assert(response_models(out@) =~= self.answers(request@));
            },
            LeanRequestMessage::BlocksByRange(_) => {},
            LeanRequestMessage::BlocksByRoot(req) => {
                let roots = &req.roots.data;
                assert(roots@ =~= req.roots@);
                let n: usize = if roots.len() > MAX_BLOCKS_PER_ROOT_REQUEST {
                    MAX_BLOCKS_PER_ROOT_REQUEST
                } else {
                    roots.len()
                };
                let mut i: usize = 0;
                while i < n
                    invariant
                        i <= n,
                        n <= roots@.len(),
                        self.store.wf(),
                        response_models(out@) == found_blocks(
                            self.store@.blocks,
                            roots@,
                            i as nat,
                        ),
                    decreases n - i,
                {
                    let ghost before = response_models(out@);
                    if let Some(found) = self.store.get_signed_block(&roots[i]) {
                        out.push(LeanResponseMessage::BlocksByRoot(found.duplicate()));
                        assert(response_models(out@) =~= before.push(
                            ResponseModel::BlocksByRoot(found@),
                        ));
                    }
                    i = i + 1;
                }
                proof {
                    self.store.lemma_encodable();
                    lemma_found_encodable(self.store@, roots@, n as nat);
                }
            },
        }
        out
    }
}

/// A response is the known block of one of the roots from `i` up to `k`.
pub open spec fn comes_from(
    blocks: Map<Bytes32, SignedBlockModel>,
    roots: Seq<Bytes32>,
    response: ResponseModel,
    i: int,
    k: int,
) -> bool {
    exists|j: int|
        i <= j < k && blocks.contains_key(#[trigger] roots[j]) && response
            == ResponseModel::BlocksByRoot(blocks[roots[j]])
}

/// Answers by root come in the order of the request, no more than were asked
/// for, and each is a known block whose root was asked for.
pub proof fn law_answers_follow_the_request(
    blocks: Map<Bytes32, SignedBlockModel>,
    roots: Seq<Bytes32>,
    k: nat,
)
    requires
        k <= roots.len(),
    ensures
        found_blocks(blocks, roots, k).len() <= k,
        forall|i: int|
            0 <= i < found_blocks(blocks, roots, k).len() ==> comes_from(
                blocks,
                roots,
                #[trigger] found_blocks(blocks, roots, k)[i],
                i,
                k as int,
            ),
        (forall|j: int| 0 <= j < k ==> blocks.contains_key(#[trigger] roots[j])) ==> found_blocks(
            blocks,
            roots,
            k,
        ).len() == k,
    decreases k,
{
    if k > 0 {
        law_answers_follow_the_request(blocks, roots, (k - 1) as nat);
        let before = found_blocks(blocks, roots, (k - 1) as nat);
        let now = found_blocks(blocks, roots, k);
        assert forall|i: int| 0 <= i < now.len() implies comes_from(
            blocks,
            roots,
            #[trigger] now[i],
            i,
            k as int,
        ) by {
            if i < before.len() {
                assert(before[i] == now[i]);
                assert(comes_from(blocks, roots, before[i], i, k - 1));
            } else {
                assert(blocks.contains_key(roots[k - 1]));
            }
        }
        if forall|j: int| 0 <= j < k ==> blocks.contains_key(#[trigger] roots[j]) {
            assert(blocks.contains_key(roots[k - 1]));
        }
    }
}

} // verus!
