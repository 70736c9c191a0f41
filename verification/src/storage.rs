//! The table of known blocks.

use vstd::prelude::*;

use crate::containers::block::{SignedBlockModel, SignedBlockWithAttestation};
use crate::containers::pq_verifier::PqSignatureVerifier;
use crate::containers::state;
use crate::containers::state::State;
use crate::keyed_map;
use crate::keyed_map::RootMap;
use crate::ssz;
use crate::types::bytes::Bytes32;

verus! {

/// The imported blocks by root, with the roots of the head and of the latest
/// finalized block.
pub struct BlockTable {
    blocks: RootMap<SignedBlockWithAttestation>,
    head: Option<Bytes32>,
    finalized: Option<Bytes32>,
}

/// The value of a [`BlockTable`].
#[verifier::ext_equal]
pub struct TableModel {
    pub blocks: Map<Bytes32, SignedBlockModel>,
    pub head: Option<Bytes32>,
    pub finalized: Option<Bytes32>,
}

impl View for BlockTable {
    type V = TableModel;

    closed spec fn view(&self) -> TableModel {
        TableModel {
            blocks: keyed_map::view_map(self.blocks@),
            head: self.head,
            finalized: self.finalized,
        }
    }
}

/// Every block of a table can be encoded.
pub open spec fn all_encodable(m: TableModel) -> bool {
    forall|root: Bytes32|
        m.blocks.contains_key(root) ==> (#[trigger] m.blocks[root]).encodable()
}

/// The table after the import of a block.
pub open spec fn with_import(
    m: TableModel,
    root: Bytes32,
    signed: SignedBlockModel,
    finalized: Bytes32,
) -> TableModel {
    TableModel {
        blocks: m.blocks.insert(root, signed),
        head: Some(root),
        finalized: Some(finalized),
    }
}

impl BlockTable {
    /// The index is in order and every block can be encoded.
    pub closed spec fn wf(&self) -> bool {
        self.blocks.wf() && all_encodable(self@)
    }

    /// An empty table.
    pub fn new() -> (r: Self)
        ensures
            r.wf(),
            r@ == (TableModel { blocks: Map::empty(), head: None, finalized: None }),
    {
        let r = BlockTable { blocks: RootMap::new(), head: None, finalized: None };
        assert(r@.blocks =~= Map::empty());
        r
    }

    /// Every block of the table can be encoded.
    pub proof fn lemma_encodable(&self)
        requires
            self.wf(),
        ensures
            all_encodable(self@),
    {
    }

    /// Number of blocks.
    pub fn len(&self) -> (r: usize)
        requires
            self.wf(),
        ensures
            r == self@.blocks.dom().len(),
    {
        proof {
            self.blocks.lemma_len();
            assert(self@.blocks.dom() =~= self.blocks@.dom());
        }
        self.blocks.len()
    }

    /// Root of the head, if one was set.
    pub fn head(&self) -> (r: Option<Bytes32>)
        ensures
            r == self@.head,
    {
        self.head
    }

    /// Root of the latest finalized block, if one was set.
    pub fn finalized(&self) -> (r: Option<Bytes32>)
        ensures
            r == self@.finalized,
    {
        self.finalized
    }

    /// Whether a block is in the table.
    pub fn contains(&self, root: &Bytes32) -> (r: bool)
        requires
            self.wf(),
        ensures
            r == self@.blocks.contains_key(*root),
    {
        self.blocks.contains(root)
    }

    /// The block with the given root.
    pub fn get_signed_block(&self, root: &Bytes32) -> (r: Option<&SignedBlockWithAttestation>)
        requires
            self.wf(),
        ensures
            match r {
                Some(b) => self@.blocks.contains_key(*root) && b@ == self@.blocks[*root],
                None => !self@.blocks.contains_key(*root),
            },
    {
        self.blocks.get(root)
    }

    /// Puts a block into the table.
    pub fn insert(&mut self, root: Bytes32, signed: SignedBlockWithAttestation)
        requires
            old(self).wf(),
            signed@.encodable(),
        ensures
            final(self).wf(),
            final(self)@ == (TableModel {
                blocks: old(self)@.blocks.insert(root, signed@),
                ..old(self)@
            }),
    {
        let ghost before = self@;
        self.blocks.insert(root, signed);
        assert(self@.blocks =~= before.blocks.insert(root, signed@));
    }

    /// Sets the roots of the head and of the latest finalized block.
    pub fn set_roots(&mut self, head: Option<Bytes32>, finalized: Option<Bytes32>)
        requires
            old(self).wf(),
        ensures
            final(self).wf(),
            final(self)@ == (TableModel { head, finalized, ..old(self)@ }),
    {
        self.head = head;
        self.finalized = finalized;
    }

    /// Imports a signed block into the state on the answers of the signature scheme
    /// and, where that succeeds, puts it into the table as the head. On a refusal
    /// nothing changes.
    pub fn put_signed_block(
        &mut self,
        root: Bytes32,
        signed: SignedBlockWithAttestation,
        state: &mut State,
        answers: Vec<Result<(), String>>,
    ) -> (r: Result<(), String>)
        requires
            old(self).wf(),
        ensures
            final(self).wf(),
            match state::import_verdict((PqSignatureVerifier { answers }), old(state)@, signed@) {
                Ok(next) => r is Ok && final(state)@ == next && final(self)@ == with_import(
                    old(self)@,
                    root,
                    signed@,
                    next.latest_finalized.root,
                ),
                Err(e) => ssz::plain_outcome(r) == Err::<(), Seq<char>>(e) && final(state)@
                    == old(state)@ && final(self)@ == old(self)@,
            },
    {
        match state.process_signed_block(&signed, answers) {
            Err(e) => Err(e),
            Ok(()) => {
                self.insert(root, signed);
                let finalized = state.latest_finalized.root;
                self.set_roots(Some(root), Some(finalized));
                Ok(())
            },
        }
    }
}

} // verus!
