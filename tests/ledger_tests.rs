use decub_gcl::consensus::{Consensus, Validator};
use decub_gcl::ledger::{Ledger, SubmitError};
use decub_gcl::merkle::{build_merkle_tree, generate_merkle_proof, verify_proof};
use decub_gcl::types::{
    hash_block, hash_transaction, Block, Header, Timestamp, Transaction, MAX_TIMESTAMP_SECS,
};
use sha2::Digest;

fn sha(s: &str) -> String {
    let mut h = sha2::Sha256::new();
    h.update(s);
    format!("{:x}", h.finalize())
}

fn tx(id: &str) -> Transaction {
    Transaction {
        tx_id: id.to_string(),
        tx_type: "transfer".to_string(),
        origin: "user1".to_string(),
        payload: "data".to_string(),
        sig: "sig1".to_string(),
    }
}

fn validators(n: usize) -> Vec<Validator> {
    (1..=n)
        .map(|i| Validator { id: format!("val{}", i), pub_key: format!("pub{}", i) })
        .collect()
}

fn epoch() -> Timestamp {
    Timestamp { secs: 0, nanos: 0 }
}

#[test]
fn transaction_hash_is_sha256_of_fields_in_order() {
    assert_eq!(
        hash_transaction(&tx("tx1")),
        "da1054a88af7bd6b4ddcadecec48a09979492ac95b1d8507406eacbb1b6238d5"
    );
}

#[test]
fn block_hash_covers_prev_hash_root_proposer_and_time() {
    let root = hash_transaction(&tx("tx1"));
    let block = Block {
        header: Header {
            height: 1,
            prev_hash: String::new(),
            merkle_root: root.clone(),
            proposer: "val1".to_string(),
            timestamp: epoch(),
        },
        txs: vec![tx("tx1")],
    };
    assert_eq!(
        hash_block(&block),
        "0d44416e8a2eb6545576333609d8135c259de64859c3e79b1f74fcf47120b81c"
    );
    let mut other = block.clone();
    other.header.height = 7;
    assert_eq!(hash_block(&other), hash_block(&block));
}

#[test]
fn block_hash_at_the_latest_instant() {
    let block = Block {
        header: Header {
            height: 1,
            prev_hash: String::new(),
            merkle_root: String::new(),
            proposer: "p".to_string(),
            timestamp: Timestamp { secs: MAX_TIMESTAMP_SECS, nanos: 999_999_999 },
        },
        txs: vec![],
    };
    assert_eq!(
        hash_block(&block),
        sha("p+262142-12-31T23:59:59.999999999+00:00")
    );
}

#[test]
fn empty_batch_has_no_tree() {
    assert!(build_merkle_tree(&[]).is_none());
}

#[test]
fn single_leaf_root_is_the_transaction_hash() {
    let (root, h) = build_merkle_tree(&[tx("tx1")]).unwrap();
    assert_eq!(h, hash_transaction(&tx("tx1")));
    assert!(root.left.is_none() && root.right.is_none());
}

#[test]
fn odd_level_pairs_last_node_with_itself() {
    let txs = vec![tx("a"), tx("b"), tx("c")];
    let (a, b, c) = (hash_transaction(&txs[0]), hash_transaction(&txs[1]), hash_transaction(&txs[2]));
    let ab = sha(&format!("{}{}", a, b));
    let cc = sha(&format!("{}{}", c, c));
    let (_, h) = build_merkle_tree(&txs).unwrap();
    assert_eq!(h, sha(&format!("{}{}", ab, cc)));
}

#[test]
fn merkle_root_is_deterministic_and_order_sensitive() {
    let txs = vec![tx("a"), tx("b"), tx("c"), tx("d")];
    let (_, h1) = build_merkle_tree(&txs).unwrap();
    let (_, h2) = build_merkle_tree(&[tx("a"), tx("b"), tx("c"), tx("d")]).unwrap();
    assert_eq!(h1, h2);
    let (_, h3) = build_merkle_tree(&[tx("b"), tx("a"), tx("c"), tx("d")]).unwrap();
    assert_ne!(h1, h3);
}

#[test]
fn proof_round_trip_on_two_leaves() {
    let txs = vec![tx("a"), tx("b")];
    let (root, h) = build_merkle_tree(&txs).unwrap();
    for k in 0..2 {
        let p = generate_merkle_proof(&root, k);
        assert_eq!(p.index, k);
        assert_eq!(p.hashes.len(), 1);
        assert!(verify_proof(&txs[k], &p, &h));
    }
}

#[test]
fn proof_round_trip_on_palindromic_indices() {
    let txs: Vec<Transaction> = (0..5).map(|i| tx(&format!("t{}", i))).collect();
    let (root, h) = build_merkle_tree(&txs).unwrap();
    // depth 3: indices 0 (000), 2 (010) and 5 (101, out of range) read the same both ways
    for k in [0usize, 2] {
        let p = generate_merkle_proof(&root, k);
        assert_eq!(p.hashes.len(), 3);
        assert!(verify_proof(&txs[k], &p, &h));
    }
}

#[test]
fn proof_of_a_non_palindromic_index_does_not_verify() {
    let txs = vec![tx("a"), tx("b"), tx("c"), tx("d")];
    let (root, h) = build_merkle_tree(&txs).unwrap();
    let p = generate_merkle_proof(&root, 1);
    assert_eq!(p.hashes, vec![
        sha(&format!("{}{}", hash_transaction(&txs[0]), hash_transaction(&txs[1]))),
        hash_transaction(&txs[3]),
    ]);
    assert!(!verify_proof(&txs[1], &p, &h));
}

#[test]
fn tampered_transaction_changes_root_and_fails_proof() {
    let txs = vec![tx("a"), tx("b"), tx("c")];
    let (root, h) = build_merkle_tree(&txs).unwrap();
    let p = generate_merkle_proof(&root, 0);
    let mut bad = tx("a");
    bad.payload = "dbta".to_string();
    assert!(verify_proof(&txs[0], &p, &h));
    assert!(!verify_proof(&bad, &p, &h));
    let (_, h2) = build_merkle_tree(&[bad, tx("b"), tx("c")]).unwrap();
    assert_ne!(h, h2);
}

#[test]
fn threshold_is_two_thirds_rounded_down() {
    for (n, t) in [(0usize, 0usize), (1, 0), (2, 1), (3, 2), (4, 2), (5, 3), (6, 4), (100, 66)] {
        assert_eq!(Consensus::new(validators(n)).threshold, t);
    }
}

#[test]
fn quorum_boundary() {
    let cons = Consensus::new(validators(3));
    let sigs = vec!["s".to_string(); 3];
    assert!(!cons.verify_quorum(&sigs[..1]));
    assert!(cons.verify_quorum(&sigs[..2]));
    assert!(cons.verify_quorum(&sigs));
}

#[test]
fn quorum_not_reached_leaves_ledger_unchanged() {
    let cons = Consensus { validators: validators(2), threshold: 3 };
    let mut ledger = Ledger::new();
    assert_eq!(ledger.submit(&cons, vec![tx("tx1")], "val1".to_string()), Err(SubmitError::QuorumNotReached));
    assert_eq!(ledger.len(), 0);
}

#[test]
fn signatures_hash_validator_id_and_header_hash() {
    let cons = Consensus::new(validators(3));
    let block = cons.propose_block_at(1, String::new(), vec![tx("tx1")], "val1".to_string(), epoch());
    let sigs = cons.sign_block(&block);
    let hh = hash_block(&block);
    assert_eq!(sigs.len(), 3);
    for (i, s) in sigs.iter().enumerate() {
        assert_eq!(*s, sha(&format!("val{}{}", i + 1, hh)));
    }
}

#[test]
fn proposed_block_commits_to_its_transactions() {
    let cons = Consensus::new(validators(3));
    let b = cons.propose_block(4, "prev".to_string(), vec![tx("a"), tx("b")], "val2".to_string());
    assert_eq!(b.header.height, 4);
    assert_eq!(b.header.prev_hash, "prev");
    assert_eq!(b.header.proposer, "val2");
    assert_eq!(b.header.merkle_root, build_merkle_tree(&b.txs).unwrap().1);
    let e = cons.propose_block_at(1, String::new(), vec![], "val1".to_string(), epoch());
    assert_eq!(e.header.merkle_root, "");
}

#[test]
fn three_validators_single_transaction_scenario() {
    let cons = Consensus::new(validators(3));
    assert_eq!(cons.threshold, 2);
    let block = cons.propose_block(1, String::new(), vec![tx("tx1")], "val1".to_string());
    let sigs = cons.sign_block(&block);
    assert_eq!(sigs.len(), 3);
    assert!(cons.verify_quorum(&sigs));

    let mut ledger = Ledger::new();
    ledger.append(block);
    let got = ledger.get_by_height(1).unwrap();
    assert_eq!(got.header.height, 1);
    assert_eq!(got.header.prev_hash, "");
    assert_eq!(got.txs[0].tx_id, "tx1");

    let (found, i) = ledger.find_transaction(&"tx1".to_string()).unwrap();
    assert_eq!(i, 0);
    assert_eq!(found.header.merkle_root, got.header.merkle_root);

    let (root, h) = build_merkle_tree(&found.txs).unwrap();
    let p = generate_merkle_proof(&root, 0);
    assert!(p.hashes.is_empty());
    assert_eq!(hash_transaction(&tx("tx1")), h);
    assert!(verify_proof(&tx("tx1"), &p, &h));
}

#[test]
fn submitted_blocks_are_chained_with_sequential_heights() {
    let cons = Consensus::new(validators(3));
    let mut ledger = Ledger::new();
    for k in 0..4u64 {
        let r = ledger.submit(&cons, vec![tx(&format!("t{}", k))], "validator1".to_string());
        assert_eq!(r, Ok(k + 1));
    }
    assert_eq!(ledger.len(), 4);
    assert_eq!(ledger.blocks[0].header.prev_hash, "");
    for i in 0..4 {
        assert_eq!(ledger.blocks[i].header.height, i as u64 + 1);
        if i > 0 {
            assert_eq!(ledger.blocks[i].header.prev_hash, hash_block(&ledger.blocks[i - 1]));
        }
    }
}

#[test]
fn lookups_out_of_range_or_absent() {
    let cons = Consensus::new(validators(3));
    let mut ledger = Ledger::new();
    assert!(ledger.get_by_height(1).is_none());
    ledger.submit_at(&cons, vec![tx("a"), tx("b")], "v".to_string(), epoch()).unwrap();
    ledger.submit_at(&cons, vec![tx("b")], "v".to_string(), epoch()).unwrap();
    assert!(ledger.get_by_height(0).is_none());
    assert!(ledger.get_by_height(3).is_none());
    assert_eq!(ledger.get_by_height(2).unwrap().header.height, 2);
    assert!(ledger.find_transaction(&"zz".to_string()).is_none());
    assert!(ledger.proof_for(&"zz".to_string()).is_none());
    // the first occurrence wins
    let (blk, i) = ledger.find_transaction(&"b".to_string()).unwrap();
    assert_eq!((blk.header.height, i), (1, 1));
    let (p, root) = ledger.proof_for(&"b".to_string()).unwrap();
    assert_eq!(p.index, 1);
    assert_eq!(root, ledger.blocks[0].header.merkle_root);
    assert!(verify_proof(&tx("b"), &p, &root));
}
