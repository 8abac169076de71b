use crate::merkle::{build_merkle_tree, merkle_root};
use crate::types::{
    hash_block, header_digest, now, sha256_hex, sha256_hex_of, Block, Header, Timestamp,
    Transaction,
};
use vstd::prelude::*;

verus! {

#[derive(Clone, Debug)]
pub struct Validator {
    pub id: String,
    pub pub_key: String,
}

/// A fixed validator set and the number of signatures that finalises a block.
#[derive(Clone, Debug)]
pub struct Consensus {
    pub validators: Vec<Validator>,
    pub threshold: usize,
}

/// Two thirds of `n`, rounded down.
pub open spec fn quorum_of(n: nat) -> nat {
    2 * n / 3
}

/// The Merkle root that a header commits to: empty for an empty batch.
pub open spec fn commitment(txs: Seq<Transaction>) -> Seq<char> {
    if txs.len() == 0 {
        Seq::empty()
    } else {
        merkle_root(txs)
    }
}

/// A validator's signature over a header: the hash of its id followed by
/// the header's hash.
pub open spec fn signature_of(v: Validator, h: Header) -> Seq<char> {
    sha256_hex_of(v.id@ + header_digest(h))
}

/// `b` is the block proposed with these arguments at `ts`.
pub open spec fn proposed(
    b: Block,
    height: u64,
    prev_hash: Seq<char>,
    txs: Seq<Transaction>,
    proposer: Seq<char>,
    ts: Timestamp,
) -> bool {
    &&& b.header.height == height
    &&& b.header.prev_hash@ == prev_hash
    &&& b.header.merkle_root@ == commitment(txs)
    &&& b.header.proposer@ == proposer
    &&& b.header.timestamp == ts
    &&& b.txs@ == txs
}

impl Consensus {
    /// `n` signatures finalise a block.
    pub open spec fn quorum_reached(&self, n: nat) -> bool {
        n >= self.threshold
    }

    pub open spec fn wf(&self) -> bool {
        self.threshold == quorum_of(self.validators@.len())
    }

    pub fn new(validators: Vec<Validator>) -> (r: Self)
        ensures
            r.validators@ == validators@,
            r.wf(),
    {
        let n = validators.len();
        let q = n / 3;
        let m = n % 3;
        let threshold = q * 2 + m * 2 / 3;
        assert(threshold == 2 * n / 3) by (nonlinear_arith)
            requires
                q == n / 3,
                m == n % 3,
                threshold == q * 2 + m * 2 / 3,
        {
            assert(n == 3 * q + m);
        }
        Consensus { validators, threshold }
    }

    /// One signature per validator, in the validators' order.
    pub fn sign_block(&self, block: &Block) -> (r: Vec<String>)
        requires
            block.header.timestamp.wf(),
        ensures
            r@.len() == self.validators@.len(),
            forall|i: int|
                0 <= i < r@.len() ==> (#[trigger] r@[i])@ == signature_of(
                    self.validators@[i],
                    block.header,
                ),
    {
        let digest = hash_block(block);
        let mut sigs: Vec<String> = Vec::new();
        let mut i: usize = 0;
        while i < self.validators.len()
            invariant
                i <= self.validators@.len(),
                digest@ == header_digest(block.header),
                sigs@.len() == i,
                forall|q: int|
                    0 <= q < i ==> (#[trigger] sigs@[q])@ == signature_of(
                        self.validators@[q],
                        block.header,
                    ),
            decreases self.validators@.len() - i,
        {
            let mut data = self.validators[i].id.clone();
            data.append(digest.as_str());
            sigs.push(sha256_hex(data.as_str()));
            i = i + 1;
        }
        sigs
    }

    /// Whether there are at least `threshold` signatures; who signed is not
    /// checked.
    pub fn verify_quorum(&self, signatures: &[String]) -> (r: bool)
        ensures
            r == self.quorum_reached(signatures@.len()),
    {
        signatures.len() >= self.threshold
    }

    /// The block with these fields, stamped with `timestamp`.
    pub fn propose_block_at(
        &self,
        height: u64,
        prev_hash: String,
        txs: Vec<Transaction>,
        proposer: String,
        timestamp: Timestamp,
    ) -> (r: Block)
        ensures
            proposed(r, height, prev_hash@, txs@, proposer@, timestamp),
    {
        let merkle_root = match build_merkle_tree(txs.as_slice()) {
            Some((_, root_hash)) => root_hash,
            None => String::new(),
        };
        let header = Header { height, prev_hash, merkle_root, proposer, timestamp };
        Block { header, txs }
    }

    /// The block with these fields, stamped with the current time.
    pub fn propose_block(
        &self,
        height: u64,
        prev_hash: String,
        txs: Vec<Transaction>,
        proposer: String,
    ) -> (r: Block)
        ensures
            proposed(r, height, prev_hash@, txs@, proposer@, r.header.timestamp),
            r.header.timestamp.wf(),
    {
        let ts = now();
        self.propose_block_at(height, prev_hash, txs, proposer, ts)
    }
}

/// Quorum boundary: with `n` validators the threshold is two thirds of `n`
/// rounded down; `threshold - 1` signatures do not reach quorum and
/// `threshold` signatures do.
pub proof fn lemma_quorum_boundary(c: Consensus)
    requires
        c.wf(),
    ensures
        c.threshold == 2 * c.validators@.len() / 3,
        c.threshold <= c.validators@.len(),
        c.quorum_reached(c.threshold as nat),
        c.threshold > 0 ==> !c.quorum_reached((c.threshold - 1) as nat),
{
}

} // verus!
