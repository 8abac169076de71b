use vstd::prelude::*;

verus! {

/// The largest number of seconds after the Unix epoch that chrono can hold
/// (the last second of the year 262142).
pub const MAX_TIMESTAMP_SECS: i64 = 8_210_266_876_799;

/// SHA-256 of the UTF-8 bytes of a string, written as 64 lowercase hex digits.
pub uninterp spec fn sha256_hex_of(s: Seq<char>) -> Seq<char>;

/// The RFC 3339 text of the UTC instant `secs` seconds and `nanos`
/// nanoseconds after the Unix epoch.
pub uninterp spec fn rfc3339_of(secs: i64, nanos: u32) -> Seq<char>;

/// A submitted transaction; its fields are opaque to the ledger.
#[derive(Clone, Debug)]
pub struct Transaction {
    pub tx_id: String,
    pub tx_type: String,
    pub origin: String,
    pub payload: String,
    pub sig: String,
}

/// A UTC instant, as whole seconds after the Unix epoch and the nanoseconds
/// within that second.
#[derive(Clone, Copy, PartialEq, Eq, Debug)]
pub struct Timestamp {
    pub secs: i64,
    pub nanos: u32,
}

impl Timestamp {
    /// Within the range that the calendar can render.
    pub open spec fn wf(&self) -> bool {
        0 <= self.secs <= MAX_TIMESTAMP_SECS && self.nanos < 1_000_000_000
    }
}

#[derive(Clone, Debug)]
pub struct Header {
    pub height: u64,
    pub prev_hash: String,
    pub merkle_root: String,
    pub proposer: String,
    pub timestamp: Timestamp,
}

#[derive(Clone, Debug)]
pub struct Block {
    pub header: Header,
    pub txs: Vec<Transaction>,
}

/// A node of a Merkle tree; a leaf has no children.
#[derive(Debug)]
pub struct MerkleNode {
    pub hash: String,
    pub left: Option<Box<MerkleNode>>,
    pub right: Option<Box<MerkleNode>>,
}

/// The sibling hashes on the way from the root down to a leaf, and the
/// index that the proof was asked for.
#[derive(Debug)]
pub struct MerkleProof {
    pub hashes: Vec<String>,
    pub index: usize,
}

/// The text that a transaction's hash is taken over: its fields in order.
pub open spec fn tx_preimage(tx: Transaction) -> Seq<char> {
    tx.tx_id@ + tx.tx_type@ + tx.origin@ + tx.payload@ + tx.sig@
}

pub open spec fn tx_digest(tx: Transaction) -> Seq<char> {
    sha256_hex_of(tx_preimage(tx))
}

/// The text that a header's hash is taken over; the height is not part of it.
pub open spec fn header_preimage(h: Header) -> Seq<char> {
    h.prev_hash@ + h.merkle_root@ + h.proposer@ + rfc3339_of(h.timestamp.secs, h.timestamp.nanos)
}

pub open spec fn header_digest(h: Header) -> Seq<char> {
    sha256_hex_of(header_preimage(h))
}

/// Relies on sha2::Sha256 (`new`, `update`, `finalize`) and the lowercase hex
/// formatting of its output: the digest depends on the text alone.
#[verifier::external_body]
pub(crate) fn sha256_hex(data: &str) -> (r: String)
    ensures
        r@ == sha256_hex_of(data@),
{
    let mut hasher = <sha2::Sha256 as sha2::Digest>::new();
    sha2::Digest::update(&mut hasher, data);
    format!("{:x}", sha2::Digest::finalize(hasher))
}

/// Relies on chrono's `DateTime::<Utc>::from_timestamp`, which accepts every
/// instant in this range, and on `DateTime::to_rfc3339`.
#[verifier::external_body]
fn rfc3339_text(secs: i64, nanos: u32) -> (r: String)
    requires
        0 <= secs <= MAX_TIMESTAMP_SECS,
        nanos < 1_000_000_000,
    ensures
        r@ == rfc3339_of(secs, nanos),
{
    chrono::DateTime::<chrono::Utc>::from_timestamp(secs, nanos).unwrap().to_rfc3339()
}

/// Relies on chrono's `Utc::now`, which reads the system clock as a duration
/// since the epoch and builds the instant with `from_timestamp(..).unwrap()`:
/// the seconds are not negative and within chrono's range, and the
/// nanoseconds come from `Duration::subsec_nanos`.
#[verifier::external_body]
pub(crate) fn now() -> (r: Timestamp)
    ensures
        r.wf(),
{
    let t = chrono::Utc::now();
    Timestamp { secs: t.timestamp(), nanos: t.timestamp_subsec_nanos() }
}

/// The hash of a transaction: SHA-256 over its fields in order, in hex.
pub fn hash_transaction(tx: &Transaction) -> (r: String)
    ensures
        r@ == tx_digest(*tx),
{
    let mut data = tx.tx_id.clone();
    data.append(tx.tx_type.as_str());
    data.append(tx.origin.as_str());
    data.append(tx.payload.as_str());
    data.append(tx.sig.as_str());
    sha256_hex(data.as_str())
}

/// The hash of a block's header: SHA-256 over the previous hash, the Merkle
/// root, the proposer and the RFC 3339 timestamp, in hex.
pub fn hash_block(block: &Block) -> (r: String)
    requires
        block.header.timestamp.wf(),
    ensures
        r@ == header_digest(block.header),
{
    let h = &block.header;
    let mut data = h.prev_hash.clone();
    data.append(h.merkle_root.as_str());
    data.append(h.proposer.as_str());
    let ts = rfc3339_text(h.timestamp.secs, h.timestamp.nanos);
    data.append(ts.as_str());
    sha256_hex(data.as_str())
}

} // verus!
