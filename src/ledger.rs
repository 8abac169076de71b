use crate::consensus::{commitment, proposed, Consensus};
use crate::merkle::{build_merkle_tree, generate_merkle_proof, is_tree_of, proof_path, views};
use crate::types::{
    hash_block, header_digest, now, Block, MerkleNode, MerkleProof, Timestamp, Transaction,
};
use vstd::prelude::*;

verus! {

/// Why a proposal was not appended.
#[derive(Clone, Copy, PartialEq, Eq, Debug)]
pub enum SubmitError {
    QuorumNotReached,
}

/// The finalised blocks, in order of height.
#[derive(Debug)]
pub struct Ledger {
    pub blocks: Vec<Block>,
}

/// The hash that the next block must link to: empty for an empty chain.
pub open spec fn tip_hash(blocks: Seq<Block>) -> Seq<char> {
    if blocks.len() == 0 {
        Seq::empty()
    } else {
        header_digest(blocks.last().header)
    }
}

/// `b` may follow `blocks`: next height, linked to the tip, committing to
/// its own transactions.
pub open spec fn extends(blocks: Seq<Block>, b: Block) -> bool {
    &&& b.header.height == blocks.len() + 1
    &&& b.header.prev_hash@ == tip_hash(blocks)
    &&& b.header.merkle_root@ == commitment(b.txs@)
    &&& b.header.timestamp.wf()
}

/// The chain's invariants: heights count up from 1, each block links to the
/// header hash of the one before (the first to the empty string), and each
/// header commits to its block's transactions.
pub open spec fn chained(blocks: Seq<Block>) -> bool {
    &&& forall|i: int|
        0 <= i < blocks.len() ==> (#[trigger] blocks[i]).header.height == i + 1
            && blocks[i].header.merkle_root@ == commitment(blocks[i].txs@)
            && blocks[i].header.timestamp.wf()
    &&& forall|i: int|
        0 < i < blocks.len() ==> (#[trigger] blocks[i]).header.prev_hash@ == header_digest(
            blocks[i - 1].header,
        )
    &&& blocks.len() > 0 ==> blocks[0].header.prev_hash@ == Seq::<char>::empty()
}

/// Transaction `i` of block `b` of `blocks` has id `id`.
pub open spec fn tx_at(blocks: Seq<Block>, b: int, i: int, id: Seq<char>) -> bool {
    &&& 0 <= b < blocks.len()
    &&& 0 <= i < blocks[b].txs@.len()
    &&& blocks[b].txs@[i].tx_id@ == id
}

/// The first occurrence of `id`, by height and then by position, is at
/// transaction `i` of block `b`.
pub open spec fn first_tx_at(blocks: Seq<Block>, b: int, i: int, id: Seq<char>) -> bool {
    &&& tx_at(blocks, b, i, id)
    &&& forall|b2: int, i2: int|
        #![trigger tx_at(blocks, b2, i2, id)]
        (b2 < b || (b2 == b && i2 < i)) ==> !tx_at(blocks, b2, i2, id)
}

/// `hashes` is the proof path of `idx` in the tree built over `txs`.
pub open spec fn path_in_tree_of(txs: Seq<Transaction>, hashes: Seq<Seq<char>>, idx: nat) -> bool {
    exists|t: MerkleNode| is_tree_of(t, txs) && hashes == proof_path(t, idx)
}

impl Ledger {
    pub open spec fn wf(&self) -> bool {
        chained(self.blocks@)
    }

    pub fn new() -> (r: Self)
        ensures
            r.wf(),
            r.blocks@.len() == 0,
    {
        Ledger { blocks: Vec::new() }
    }

    pub fn len(&self) -> (r: usize)
        ensures
            r == self.blocks@.len(),
    {
        self.blocks.len()
    }

    /// Adds `block` as the new tail.
    pub fn append(&mut self, block: Block)
        requires
            old(self).wf(),
            extends(old(self).blocks@, block),
        ensures
            final(self).wf(),
            final(self).blocks@ == old(self).blocks@.push(block),
    {
        self.blocks.push(block);
    }

    /// The block at 1-based `height`, if there is one.
    pub fn get_by_height(&self, height: u64) -> (r: Option<&Block>)
        ensures
            1 <= height <= self.blocks@.len() ==> r == Some(&self.blocks@[height - 1]),
            !(1 <= height <= self.blocks@.len()) ==> r is None,
    {
        if height < 1 || height > self.blocks.len() as u64 {
            return None;
        }
        Some(&self.blocks[(height - 1) as usize])
    }

    /// The first block, by height, that holds a transaction with id `tx_id`,
    /// and the transaction's position in it.
    pub fn find_transaction(&self, tx_id: &String) -> (r: Option<(&Block, usize)>)
        ensures
            r is None <==> forall|b: int, i: int| !tx_at(self.blocks@, b, i, tx_id@),
            r matches Some((blk, i)) ==> exists|b: int|
                first_tx_at(self.blocks@, b, i as int, tx_id@) && blk == &self.blocks@[b],
    {
        let mut b: usize = 0;
        while b < self.blocks.len()
            invariant
                b <= self.blocks@.len(),
                forall|b2: int, i2: int| b2 < b ==> !tx_at(self.blocks@, b2, i2, tx_id@),
            decreases self.blocks@.len() - b,
        {
            let blk = &self.blocks[b];
            let mut i: usize = 0;
            while i < blk.txs.len()
                invariant
                    b < self.blocks@.len(),
                    blk == &self.blocks@[b as int],
                    i <= blk.txs@.len(),
                    forall|b2: int, i2: int| b2 < b ==> !tx_at(self.blocks@, b2, i2, tx_id@),
                    forall|i2: int| i2 < i ==> !tx_at(self.blocks@, b as int, i2, tx_id@),
                decreases blk.txs@.len() - i,
            {
                if blk.txs[i].tx_id == *tx_id {
                    assert(first_tx_at(self.blocks@, b as int, i as int, tx_id@));
                    return Some((blk, i));
                }
                i = i + 1;
            }
            b = b + 1;
        }
        None
    }

    /// The inclusion proof of the first transaction with id `tx_id`, and the
    /// Merkle root of its block.
    pub fn proof_for(&self, tx_id: &String) -> (r: Option<(MerkleProof, String)>)
        requires
            self.wf(),
        ensures
            r is None <==> forall|b: int, i: int| !tx_at(self.blocks@, b, i, tx_id@),
            r matches Some((p, root)) ==> exists|b: int|
                first_tx_at(self.blocks@, b, p.index as int, tx_id@) && root@
                    == self.blocks@[b].header.merkle_root@ && path_in_tree_of(
                    self.blocks@[b].txs@,
                    views(p.hashes@),
                    p.index as nat,
                ),
    {
        match self.find_transaction(tx_id) {
            None => None,
            Some((blk, i)) => {
                let ghost b = choose|b: int|
                    first_tx_at(self.blocks@, b, i as int, tx_id@) && blk == &self.blocks@[b];
                match build_merkle_tree(blk.txs.as_slice()) {
                    Some((root, root_hash)) => {
                        let proof = generate_merkle_proof(&root, i);
                        assert(self.blocks@[b].header.merkle_root@ == commitment(
                            self.blocks@[b].txs@,
                        ));
                        assert(is_tree_of(root, self.blocks@[b].txs@)
                            && views(proof.hashes@) == proof_path(root, proof.index as nat));
                        assert(path_in_tree_of(
                            self.blocks@[b].txs@,
                            views(proof.hashes@),
                            proof.index as nat,
                        ));
                        assert(first_tx_at(self.blocks@, b, proof.index as int, tx_id@));
                        assert(root_hash@ == self.blocks@[b].header.merkle_root@);
                        let r = Some((proof, root_hash));
                        assert(r matches Some((p, h)) && first_tx_at(
                            self.blocks@,
                            b,
                            p.index as int,
                            tx_id@,
                        ) && h@ == self.blocks@[b].header.merkle_root@ && path_in_tree_of(
                            self.blocks@[b].txs@,
                            views(p.hashes@),
                            p.index as nat,
                        ));
                        r
                    },
                    None => {
                        assert(tx_at(self.blocks@, b, i as int, tx_id@));
                        None
                    },
                }
            },
        }
    }

    /// Proposes a block of `txs` at the next height, linked to the tip and
    /// stamped with `timestamp`; has every validator sign it and appends it
    /// if the signatures reach quorum. Returns the new height.
    pub fn submit_at(
        &mut self,
        cons: &Consensus,
        txs: Vec<Transaction>,
        proposer: String,
        timestamp: Timestamp,
    ) -> (r: Result<u64, SubmitError>)
        requires
            old(self).wf(),
            old(self).blocks@.len() < u64::MAX,
            timestamp.wf(),
        ensures
            final(self).wf(),
            cons.quorum_reached(cons.validators@.len()) ==> r == Ok::<u64, SubmitError>(
                (old(self).blocks@.len() + 1) as u64,
            ) && appended(old(self).blocks@, final(self).blocks@, txs@, proposer@, timestamp),
            !cons.quorum_reached(cons.validators@.len()) ==> r == Err::<u64, SubmitError>(
                SubmitError::QuorumNotReached,
            ) && final(self).blocks@ == old(self).blocks@,
    {
        let n = self.blocks.len();
        let height = n as u64 + 1;
        let prev_hash = if n > 0 {
            hash_block(&self.blocks[n - 1])
        } else {
            String::new()
        };
        let block = cons.propose_block_at(height, prev_hash, txs, proposer, timestamp);
        let sigs = cons.sign_block(&block);
        if cons.verify_quorum(sigs.as_slice()) {
            let ghost before = self.blocks@;
            proof {
                lemma_extend_chain(self.blocks@, block);
            }
            self.blocks.push(block);
            assert(self.blocks@.drop_last() == before);
            Ok(height)
        } else {
            Err(SubmitError::QuorumNotReached)
        }
    }

    /// As `submit_at`, stamped with the current time.
    pub fn submit(&mut self, cons: &Consensus, txs: Vec<Transaction>, proposer: String) -> (r:
        Result<u64, SubmitError>)
        requires
            old(self).wf(),
            old(self).blocks@.len() < u64::MAX,
        ensures
            final(self).wf(),
            cons.quorum_reached(cons.validators@.len()) ==> r == Ok::<u64, SubmitError>(
                (old(self).blocks@.len() + 1) as u64,
            ) && appended(
                old(self).blocks@,
                final(self).blocks@,
                txs@,
                proposer@,
                final(self).blocks@.last().header.timestamp,
            ),
            !cons.quorum_reached(cons.validators@.len()) ==> r == Err::<u64, SubmitError>(
                SubmitError::QuorumNotReached,
            ) && final(self).blocks@ == old(self).blocks@,
    {
        let ts = now();
        self.submit_at(cons, txs, proposer, ts)
    }
}

/// `after` is `before` with one block appended: the block proposed from
/// `txs` and `proposer` at `ts`, at the next height and linked to the tip.
pub open spec fn appended(
    before: Seq<Block>,
    after: Seq<Block>,
    txs: Seq<Transaction>,
    proposer: Seq<char>,
    ts: Timestamp,
) -> bool {
    &&& after.len() == before.len() + 1
    &&& after.drop_last() == before
    &&& proposed(after.last(), (before.len() + 1) as u64, tip_hash(before), txs, proposer, ts)
}

/// A block that may follow a chain keeps it a chain once appended.
pub proof fn lemma_extend_chain(blocks: Seq<Block>, b: Block)
    requires
        chained(blocks),
        extends(blocks, b),
    ensures
        chained(blocks.push(b)),
{
    let nb = blocks.push(b);
    assert forall|i: int| 0 <= i < nb.len() implies (#[trigger] nb[i]).header.height == i + 1
        && nb[i].header.merkle_root@ == commitment(nb[i].txs@) && nb[i].header.timestamp.wf() by {
        if i < blocks.len() {
            assert(nb[i] == blocks[i]);
        }
    }
    assert forall|i: int| 0 < i < nb.len() implies (#[trigger] nb[i]).header.prev_hash@
        == header_digest(nb[i - 1].header) by {
        if i < blocks.len() {
            assert(nb[i] == blocks[i]);
            assert(nb[i - 1] == blocks[i - 1]);
        } else {
            assert(nb[i - 1] == blocks.last());
        }
    }
}

/// Chain linkage: in a ledger built by `new` and the submit workflow, each
/// block after the first holds the header hash of the block before it.
pub proof fn lemma_chain_linkage(l: Ledger, i: int)
    requires
        l.wf(),
        0 < i < l.blocks@.len(),
    ensures
        l.blocks@[i].header.prev_hash@ == header_digest(l.blocks@[i - 1].header),
{
}

/// Sequential height: in a ledger built by `new` and the submit workflow,
/// the block at position `i` (from 0) has height `i + 1`.
pub proof fn lemma_sequential_height(l: Ledger, i: int)
    requires
        l.wf(),
        0 <= i < l.blocks@.len(),
    ensures
        l.blocks@[i].header.height == i + 1,
{
}

} // verus!
