use crate::types::{
    hash_transaction, sha256_hex, sha256_hex_of, tx_digest, tx_preimage, MerkleNode, MerkleProof,
    Transaction,
};
use vstd::prelude::*;

verus! {

/// The hash of an internal node over the hashes of its two children.
pub open spec fn pair_hash(left: Seq<char>, right: Seq<char>) -> Seq<char> {
    sha256_hex_of(left + right)
}

/// Position of the right partner of node `2 * p` on a level of `len` nodes:
/// the last node of an odd level is paired with itself.
pub open spec fn partner(len: nat, p: nat) -> nat {
    if 2 * p + 1 < len {
        2 * p + 1
    } else {
        2 * p
    }
}

/// The level above `hs`: consecutive pairs hashed together, left to right.
pub open spec fn level_up(hs: Seq<Seq<char>>) -> Seq<Seq<char>> {
    Seq::new(
        ((hs.len() + 1) / 2) as nat,
        |p: int| pair_hash(hs[2 * p], hs[partner(hs.len(), p as nat) as int]),
    )
}

/// The `j`-th level of the tree over the leaf hashes `hs`.
pub open spec fn level(hs: Seq<Seq<char>>, j: nat) -> Seq<Seq<char>>
    decreases j,
{
    if j == 0 {
        hs
    } else {
        level_up(level(hs, (j - 1) as nat))
    }
}

/// Number of levels above the leaves in a tree over `n` leaves.
pub open spec fn depth(n: nat) -> nat
    decreases n,
{
    if n <= 1 {
        0
    } else {
        1 + depth(((n + 1) / 2) as nat)
    }
}

pub open spec fn leaf_hashes(txs: Seq<Transaction>) -> Seq<Seq<char>> {
    Seq::new(txs.len(), |i: int| tx_digest(txs[i]))
}

/// The Merkle root of a non-empty batch.
pub open spec fn merkle_root(txs: Seq<Transaction>) -> Seq<char> {
    let hs = leaf_hashes(txs);
    level(hs, depth(hs.len()))[0]
}

/// `node` is the `p`-th node of level `j` of the tree over `hs`, with the
/// whole subtree below it as the construction lays it out.
pub open spec fn canonical(node: MerkleNode, hs: Seq<Seq<char>>, j: nat, p: nat) -> bool
    decreases j,
{
    &&& p < level(hs, j).len()
    &&& node.hash@ == level(hs, j)[p as int]
    &&& if j == 0 {
        node.left is None && node.right is None
    } else {
        let below = level(hs, (j - 1) as nat);
        &&& node.left matches Some(l) && canonical(*l, hs, (j - 1) as nat, 2 * p)
        &&& node.right matches Some(r) && canonical(
            *r,
            hs,
            (j - 1) as nat,
            partner(below.len(), p),
        )
    }
}

/// The tree that `build_merkle_tree` returns for `txs`.
pub open spec fn is_tree_of(root: MerkleNode, txs: Seq<Transaction>) -> bool {
    let hs = leaf_hashes(txs);
    canonical(root, hs, depth(hs.len()), 0)
}

proof fn lemma_level_len(hs: Seq<Seq<char>>, j: nat)
    ensures
        level(hs, j + 1).len() == (level(hs, j).len() + 1) / 2,
{
}

proof fn lemma_depth_step(n: nat)
    requires
        n > 1,
    ensures
        depth(n) == 1 + depth(((n + 1) / 2) as nat),
        (n + 1) / 2 < n,
{
}

/// A copy of the subtree under `node`.
fn copy_node(node: &MerkleNode) -> (r: MerkleNode)
    ensures
        r == *node,
    decreases node,
{
    let left = match &node.left {
        Some(l) => Some(Box::new(copy_node(l))),
        None => None,
    };
    let right = match &node.right {
        Some(x) => Some(Box::new(copy_node(x))),
        None => None,
    };
    MerkleNode { hash: node.hash.clone(), left, right }
}

/// Builds the Merkle tree over `txs`: one leaf per transaction, then each
/// level pairs consecutive nodes (the last of an odd level with itself)
/// until one node is left. Returns the root and its hash, or `None` for an
/// empty batch.
pub fn build_merkle_tree(txs: &[Transaction]) -> (r: Option<(MerkleNode, String)>)
    ensures
        txs@.len() == 0 <==> r is None,
        r matches Some((root, h)) ==> is_tree_of(root, txs@) && h@ == merkle_root(txs@)
            && root.hash@ == h@,
{
    if txs.len() == 0 {
        return None;
    }
    let ghost hs = leaf_hashes(txs@);
    let mut nodes: Vec<MerkleNode> = Vec::new();
    let mut i: usize = 0;
    while i < txs.len()
        invariant
            i <= txs@.len(),
            hs == leaf_hashes(txs@),
            nodes@.len() == i,
            forall|q: int| 0 <= q < i ==> canonical(#[trigger] nodes@[q], hs, 0, q as nat),
        decreases txs@.len() - i,
    {
        let h = hash_transaction(&txs[i]);
        nodes.push(MerkleNode { hash: h, left: None, right: None });
        i = i + 1;
    }
    let ghost mut j: nat = 0;
    while nodes.len() > 1
        invariant
            hs == leaf_hashes(txs@),
            hs.len() > 0,
            nodes@.len() > 0,
            nodes@.len() == level(hs, j).len(),
            j + depth(nodes@.len() as nat) == depth(hs.len()),
            forall|q: int| 0 <= q < nodes@.len() ==> canonical(#[trigger] nodes@[q], hs, j, q as nat),
        decreases nodes@.len(),
    {
        let n = nodes.len();
        let half = n - n / 2;
        proof {
            lemma_level_len(hs, j);
            lemma_depth_step(n as nat);
        }
        let mut next: Vec<MerkleNode> = Vec::new();
        let mut p: usize = 0;
        while p < half
            invariant
                n == nodes@.len(),
                n > 1,
                half == (n + 1) / 2,
                nodes@.len() == level(hs, j).len(),
                level(hs, j + 1).len() == (n + 1) / 2,
                forall|q: int| 0 <= q < nodes@.len() ==> canonical(#[trigger] nodes@[q], hs, j, q as nat),
                p <= half,
                next@.len() == p,
                forall|q: int| 0 <= q < p ==> canonical(#[trigger] next@[q], hs, j + 1, q as nat),
            decreases half - p,
        {
            let li = 2 * p;
            let ri = if 2 * p + 1 < n { 2 * p + 1 } else { 2 * p };
            let left = &nodes[li];
            let right = &nodes[ri];
            let mut combined = left.hash.clone();
            combined.append(right.hash.as_str());
            let h = sha256_hex(combined.as_str());
            let node = MerkleNode {
                hash: h,
                left: Some(Box::new(copy_node(left))),
                right: Some(Box::new(copy_node(right))),
            };
            proof {
                assert(canonical(nodes@[li as int], hs, j, li as nat));
                assert(canonical(nodes@[ri as int], hs, j, ri as nat));
                assert(level(hs, j + 1) == level_up(level(hs, j)));
                assert(canonical(node, hs, j + 1, p as nat));
            }
            next.push(node);
            p = p + 1;
        }
        nodes = next;
        proof {
            j = j + 1;
        }
    }
    proof {
        assert(depth(1) == 0);
        assert(canonical(nodes@[0], hs, j, 0));
    }
    let root = nodes.pop().unwrap();
    let root_hash = root.hash.clone();
    Some((root, root_hash))
}

/// `x` shifted right by `t` bits.
pub open spec fn shr(x: nat, t: nat) -> nat
    decreases t,
{
    if t == 0 {
        x
    } else {
        shr(x / 2, (t - 1) as nat)
    }
}

/// Bit `t` of `x`, counted from the least significant.
pub open spec fn bit(x: nat, t: nat) -> bool {
    shr(x, t) % 2 == 1
}

/// The `d` low bits of `x` read the same in both directions.
pub open spec fn palindromic(x: nat, d: nat) -> bool {
    forall|s: nat| s < d ==> #[trigger] bit(x, s) == bit(x, (d - 1 - s) as nat)
}

pub open spec fn views(v: Seq<String>) -> Seq<Seq<char>> {
    v.map_values(|s: String| s@)
}

/// The sibling hashes that `generate_merkle_proof` collects, root first:
/// at each node, bit 0 of `idx` picks the child to descend into (0: left)
/// and the other child's hash is recorded; `idx` is then halved.
pub open spec fn proof_path(node: MerkleNode, idx: nat) -> Seq<Seq<char>>
    decreases node,
{
    if node.left is None && node.right is None {
        Seq::empty()
    } else if idx % 2 == 0 {
        let sib = match node.right {
            Some(r) => seq![r.hash@],
            None => Seq::empty(),
        };
        sib + match node.left {
            Some(l) => proof_path(*l, idx / 2),
            None => Seq::empty(),
        }
    } else {
        let sib = match node.left {
            Some(l) => seq![l.hash@],
            None => Seq::empty(),
        };
        sib + match node.right {
            Some(r) => proof_path(*r, idx / 2),
            None => Seq::empty(),
        }
    }
}

/// The hash of the leaf that the descent of `proof_path` ends at.
pub open spec fn descend(node: MerkleNode, idx: nat) -> Seq<char>
    decreases node,
{
    if idx % 2 == 0 {
        match node.left {
            Some(l) => descend(*l, idx / 2),
            None => node.hash@,
        }
    } else {
        match node.right {
            Some(r) => descend(*r, idx / 2),
            None => node.hash@,
        }
    }
}

/// The hash that `verify_proof` recomputes from a leaf hash and the sibling
/// hashes (root first), working from the last sibling up: at the level of
/// the `t`-th sibling from the end, bit `t` of `idx` says whether the current
/// node is a right child.
pub open spec fn climb(leaf: Seq<char>, sibs: Seq<Seq<char>>, idx: nat) -> Seq<char>
    decreases sibs.len(),
{
    if sibs.len() == 0 {
        leaf
    } else {
        let below = climb(leaf, sibs.subrange(1, sibs.len() as int), idx);
        if bit(idx, (sibs.len() - 1) as nat) {
            pair_hash(sibs[0], below)
        } else {
            pair_hash(below, sibs[0])
        }
    }
}

/// Whether a proof shows `tx` under `root`.
pub open spec fn proof_holds(tx: Transaction, hashes: Seq<Seq<char>>, idx: nat, root: Seq<char>) -> bool {
    climb(tx_digest(tx), hashes, idx) == root
}

proof fn lemma_shr_succ(x: nat, t: nat)
    ensures
        shr(x, t + 1) == shr(x, t) / 2,
    decreases t,
{
    assert(shr(x, t + 1) == shr(x / 2, t));
    if t > 0 {
        lemma_shr_succ(x / 2, (t - 1) as nat);
        assert(shr(x, t) == shr(x / 2, (t - 1) as nat));
    }
}

fn collect_path(node: &MerkleNode, idx: usize, out: &mut Vec<String>)
    ensures
        views(final(out)@) == views(old(out)@) + proof_path(*node, idx as nat),
    decreases node,
{
    let ghost start = views(out@);
    if node.left.is_none() && node.right.is_none() {
        assert(views(out@) == start + Seq::<Seq<char>>::empty());
        return;
    }
    if idx % 2 == 0 {
        if let Some(r) = &node.right {
            out.push(r.hash.clone());
            assert(views(out@) == start + seq![r.hash@]);
        }
        let ghost mid = views(out@);
        if let Some(l) = &node.left {
            collect_path(l, idx / 2, out);
        } else {
            assert(views(out@) == mid + Seq::<Seq<char>>::empty());
        }
    } else {
        if let Some(l) = &node.left {
            out.push(l.hash.clone());
            assert(views(out@) == start + seq![l.hash@]);
        }
        let ghost mid = views(out@);
        if let Some(r) = &node.right {
            collect_path(r, idx / 2, out);
        } else {
            assert(views(out@) == mid + Seq::<Seq<char>>::empty());
        }
    }
}

/// The inclusion proof for leaf `index` of the tree under `root`: the
/// sibling hashes met while descending from the root, root first.
pub fn generate_merkle_proof(root: &MerkleNode, index: usize) -> (r: MerkleProof)
    ensures
        views(r.hashes@) == proof_path(*root, index as nat),
        r.index == index,
{
    let mut hashes: Vec<String> = Vec::new();
    collect_path(root, index, &mut hashes);
    assert(views(Seq::<String>::empty()) + proof_path(*root, index as nat) == proof_path(
        *root,
        index as nat,
    ));
    MerkleProof { hashes, index }
}

/// Whether `proof` shows `tx` under `expected_root`: the leaf hash is
/// combined with the siblings from the last up to the first.
pub fn verify_proof(tx: &Transaction, proof: &MerkleProof, expected_root: &String) -> (r: bool)
    ensures
        r == proof_holds(*tx, views(proof.hashes@), proof.index as nat, expected_root@),
{
    let ghost sibs = views(proof.hashes@);
    let ghost leaf = tx_digest(*tx);
    let n = proof.hashes.len();
    let mut cur = hash_transaction(tx);
    let mut idx = proof.index;
    let mut i = n;
    assert(sibs.subrange(n as int, n as int).len() == 0);
    while i > 0
        invariant
            n == proof.hashes@.len(),
            sibs == views(proof.hashes@),
            i <= n,
            cur@ == climb(leaf, sibs.subrange(i as int, n as int), proof.index as nat),
            idx as nat == shr(proof.index as nat, (n - i) as nat),
        decreases i,
    {
        i = i - 1;
        let sib = &proof.hashes[i];
        let mut combined: String;
        if idx % 2 == 0 {
            combined = cur.clone();
            combined.append(sib.as_str());
        } else {
            combined = sib.clone();
            combined.append(cur.as_str());
        }
        cur = sha256_hex(combined.as_str());
        proof {
            let part = sibs.subrange(i as int, n as int);
            assert(part.subrange(1, part.len() as int) == sibs.subrange(i + 1, n as int));
            assert(part[0] == sib@);
            lemma_shr_succ(proof.index as nat, (n - i - 1) as nat);
        }
        idx = idx / 2;
    }
    assert(sibs.subrange(0, n as int) == sibs);
    cur == *expected_root
}

proof fn lemma_shr_below_level(hs: Seq<Seq<char>>, q: nat, t: nat)
    requires
        q < hs.len(),
    ensures
        shr(q, t) < level(hs, t).len(),
    decreases t,
{
    if t > 0 {
        lemma_shr_below_level(hs, q, (t - 1) as nat);
        lemma_shr_succ(q, (t - 1) as nat);
        lemma_level_len(hs, (t - 1) as nat);
    }
}

proof fn lemma_top_level_single(hs: Seq<Seq<char>>, j: nat)
    requires
        level(hs, j).len() > 0,
    ensures
        level(hs, j + depth(level(hs, j).len())).len() == 1,
    decreases level(hs, j).len(),
{
    let n = level(hs, j).len();
    lemma_level_len(hs, j);
    if n > 1 {
        lemma_depth_step(n);
        lemma_top_level_single(hs, j + 1);
        assert(j + 1 + depth(level(hs, j + 1).len()) == j + depth(n));
    }
}

/// In a canonical subtree, the sibling path of `i` recombines to the
/// subtree's hash when the bits of `k` used on the way up are those of `i`
/// used on the way down.
proof fn lemma_climb_path(node: MerkleNode, hs: Seq<Seq<char>>, j: nat, p: nat, i: nat, k: nat)
    requires
        canonical(node, hs, j, p),
        forall|s: nat| s < j ==> #[trigger] bit(i, s) == bit(k, (j - 1 - s) as nat),
    ensures
        proof_path(node, i).len() == j,
        climb(descend(node, i), proof_path(node, i), k) == node.hash@,
    decreases j,
{
    if j > 0 {
        let below = level(hs, (j - 1) as nat);
        let l = *node.left.unwrap();
        let r = *node.right.unwrap();
        let rp = partner(below.len(), p);
        assert(canonical(l, hs, (j - 1) as nat, 2 * p));
        assert(canonical(r, hs, (j - 1) as nat, rp));
        assert forall|s: nat| s < j - 1 implies #[trigger] bit(i / 2, s) == bit(
            k,
            (j - 1 - 1 - s) as nat,
        ) by {
            assert(bit(i, s + 1) == bit(k, (j - 1 - (s + 1)) as nat));
            assert(shr(i, s + 1) == shr(i / 2, s));
        }
        assert(bit(i, 0) == bit(k, (j - 1) as nat));
        assert(shr(i, 0) == i);
        assert(level(hs, j) == level_up(below));
        let path = proof_path(node, i);
        if i % 2 == 0 {
            lemma_climb_path(l, hs, (j - 1) as nat, 2 * p, i / 2, k);
            assert(path == seq![r.hash@] + proof_path(l, i / 2));
            assert(path.subrange(1, path.len() as int) == proof_path(l, i / 2));
        } else {
            lemma_climb_path(r, hs, (j - 1) as nat, rp, i / 2, k);
            assert(path == seq![l.hash@] + proof_path(r, i / 2));
            assert(path.subrange(1, path.len() as int) == proof_path(r, i / 2));
        }
    }
}

/// In a canonical subtree over `hs`, the descent by the bits of `i` ends at
/// leaf `q` when those bits, read the other way, are the low bits of `q`.
proof fn lemma_descend_leaf(node: MerkleNode, hs: Seq<Seq<char>>, j: nat, p: nat, i: nat, q: nat)
    requires
        canonical(node, hs, j, p),
        q < hs.len(),
        shr(q, j) == p,
        forall|s: nat| s < j ==> #[trigger] bit(i, s) == bit(q, (j - 1 - s) as nat),
    ensures
        descend(node, i) == hs[q as int],
    decreases j,
{
    if j > 0 {
        let below = level(hs, (j - 1) as nat);
        let l = *node.left.unwrap();
        let r = *node.right.unwrap();
        let c = shr(q, (j - 1) as nat);
        lemma_shr_succ(q, (j - 1) as nat);
        lemma_shr_below_level(hs, q, (j - 1) as nat);
        assert(bit(i, 0) == bit(q, (j - 1) as nat));
        assert(shr(i, 0) == i);
        assert forall|s: nat| s < j - 1 implies #[trigger] bit(i / 2, s) == bit(
            q,
            (j - 1 - 1 - s) as nat,
        ) by {
            assert(bit(i, s + 1) == bit(q, (j - 1 - (s + 1)) as nat));
            assert(shr(i, s + 1) == shr(i / 2, s));
        }
        assert(canonical(l, hs, (j - 1) as nat, 2 * p));
        assert(canonical(r, hs, (j - 1) as nat, partner(below.len(), p)));
        if i % 2 == 0 {
            assert(c == 2 * p);
            lemma_descend_leaf(l, hs, (j - 1) as nat, 2 * p, i / 2, q);
        } else {
            assert(c == 2 * p + 1);
            lemma_descend_leaf(r, hs, (j - 1) as nat, c, i / 2, q);
        }
    } else {
        assert(shr(q, 0) == q);
    }
}

/// Proof round trip: in the tree built over a non-empty batch, the proof
/// generated for the transaction at position `k` verifies that transaction
/// against the batch's Merkle root. The proof is collected with the low
/// bit of `k` deciding at the root, and checked with the low bit deciding at
/// the leaf, so this holds where the bits of `k` over the tree's depth read
/// the same in both directions (always for `k == 0`, and for every `k` when
/// the batch has at most two transactions).
pub proof fn lemma_proof_round_trip(txs: Seq<Transaction>, root: MerkleNode, k: nat)
    requires
        k < txs.len(),
        is_tree_of(root, txs),
        palindromic(k, depth(txs.len())),
    ensures
        proof_holds(txs[k as int], proof_path(root, k), k, merkle_root(txs)),
{
    let hs = leaf_hashes(txs);
    let d = depth(hs.len());
    assert(level(hs, 0) == hs);
    lemma_top_level_single(hs, 0);
    lemma_shr_below_level(hs, k, d);
    lemma_descend_leaf(root, hs, d, 0, k, k);
    lemma_climb_path(root, hs, d, 0, k, k);
}

/// Two transactions with the same field contents.
pub open spec fn same_tx(a: Transaction, b: Transaction) -> bool {
    &&& a.tx_id@ == b.tx_id@
    &&& a.tx_type@ == b.tx_type@
    &&& a.origin@ == b.origin@
    &&& a.payload@ == b.payload@
    &&& a.sig@ == b.sig@
}

/// Merkle determinism: two batches that hold the same transactions in the
/// same order have the same Merkle root.
pub proof fn lemma_merkle_deterministic(a: Seq<Transaction>, b: Seq<Transaction>)
    requires
        a.len() == b.len(),
        forall|i: int| 0 <= i < a.len() ==> same_tx(#[trigger] a[i], b[i]),
    ensures
        merkle_root(a) == merkle_root(b),
{
    assert(leaf_hashes(a) == leaf_hashes(b)) by {
        assert forall|i: int| 0 <= i < a.len() implies #[trigger] leaf_hashes(a)[i] == leaf_hashes(b)[i] by {
            assert(same_tx(a[i], b[i]));
            assert(tx_preimage(a[i]) == tx_preimage(b[i]));
        }
        assert(leaf_hashes(a) =~= leaf_hashes(b));
    }
}

} // verus!
