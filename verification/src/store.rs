//! Everything we remember: storage of votes and transfers with
//! primary-keyed lookup, secondary-index scans, and a monotonic
//! last-known-block watermark.
//!
//! Layout: five keyspaces. Two primary spaces hold encoded records under
//! their signatures; two index spaces hold one entry per indexable field,
//! keyed by a tag byte, the encoded field, and the signature, with the
//! signature as the value; a meta space holds the watermark under one
//! reserved key. The keyspaces live in memory; the process around the
//! store makes them durable by persisting `export_rows` after a commit
//! and handing the rows back to `from_rows` when it opens the store
//! again — the contracts of that pair fix that nothing is lost on the
//! way.

use vstd::prelude::*;

use crate::codec::{
    has_prefix, lemma_u64_be_roundtrip, push_bytes, push_u64_be, read_u64_be, u64_be_bytes,
    u64_from_be,
};
use crate::kv::Space;
use crate::record::{
    decode_transfer, decode_vote, encode_transfer, encode_vote, lemma_transfer_roundtrip,
    lemma_vote_roundtrip, transfer_bytes, transfer_of_bytes, vote_bytes, vote_of_bytes, Record,
    RecordView, Transfer, TransferView, Vote, VoteView,
};
use crate::result::Error;

verus! {

/// Tag byte that starts every block-height index key.
pub const TAG_BLOCK: u8 = 1;

/// Tag byte that starts every receiving-address index key.
pub const TAG_TO: u8 = 2;

/// Tag byte that starts every originating-address index key.
pub const TAG_FROM: u8 = 3;

/// Tag byte that starts every amount index key.
pub const TAG_AMOUNT: u8 = 4;

/// The reserved meta key under which the watermark is stored.
pub open spec fn watermark_key() -> Seq<u8> {
    seq![0x1bu8, 0x11u8]
}

/// An index key over a numeric field: the tag, the fixed-width big-endian
/// field, then the signature, so one prefix scan finds every record with
/// that field value.
pub open spec fn tagged_num_key(tag: u8, value: u64, sig: Seq<u8>) -> Seq<u8> {
    seq![tag] + u64_be_bytes(value) + sig
}

/// An index key over an address field: the tag, the address bytes, then
/// the signature.
pub open spec fn tagged_addr_key(tag: u8, addr: Seq<u8>, sig: Seq<u8>) -> Seq<u8> {
    seq![tag] + addr + sig
}

/// What a scan for one block height looks for: every block index key of
/// that height starts with these nine bytes.
pub open spec fn block_scan_prefix(block: u64) -> Seq<u8> {
    seq![TAG_BLOCK] + u64_be_bytes(block)
}

/// The mathematical shape of the store: five maps from key bytes to value
/// bytes.
pub struct StoreModel {
    /// The reserved keys, among them the watermark.
    pub meta: Map<Seq<u8>, Seq<u8>>,
    /// Encoded votes under their signatures.
    pub votes: Map<Seq<u8>, Seq<u8>>,
    /// Index entries for votes.
    pub vote_index: Map<Seq<u8>, Seq<u8>>,
    /// Encoded transfers under their signatures.
    pub transfers: Map<Seq<u8>, Seq<u8>>,
    /// Index entries for transfers.
    pub transfer_index: Map<Seq<u8>, Seq<u8>>,
}

/// The store a fresh process starts from: nothing stored at all.
pub open spec fn spec_empty_store() -> StoreModel {
    StoreModel {
        meta: Map::empty(),
        votes: Map::empty(),
        vote_index: Map::empty(),
        transfers: Map::empty(),
        transfer_index: Map::empty(),
    }
}

/// The watermark read back from the meta space: none when the reserved key
/// is absent or holds bytes of the wrong width.
pub open spec fn spec_watermark(m: StoreModel) -> Option<u64> {
    if m.meta.contains_key(watermark_key()) {
        if m.meta[watermark_key()].len() == 8 {
            Some(u64_from_be(m.meta[watermark_key()]))
        } else {
            None
        }
    } else {
        None
    }
}

/// The watermark, read as zero when absent.
pub open spec fn watermark_or_zero(m: StoreModel) -> u64 {
    match spec_watermark(m) {
        Some(b) => b,
        None => 0,
    }
}

/// The store after the watermark was set to `block` outright.
pub open spec fn spec_set_watermark(m: StoreModel, block: u64) -> StoreModel {
    StoreModel {
        meta: m.meta.insert(watermark_key(), u64_be_bytes(block)),
        votes: m.votes,
        vote_index: m.vote_index,
        transfers: m.transfers,
        transfer_index: m.transfer_index,
    }
}

/// The store after the watermark was raised to `block`: set outright
/// when nothing was ever committed, raised when `block` is above the
/// present watermark, and left alone otherwise — so the watermark is
/// present after any first commit, height zero included, and never
/// decreases.
pub open spec fn spec_bump(m: StoreModel, block: u64) -> StoreModel {
    match spec_watermark(m) {
        None => spec_set_watermark(m, block),
        Some(w) => if block > w {
            spec_set_watermark(m, block)
        } else {
            m
        },
    }
}

/// The store after a vote was saved: the watermark possibly raised, the
/// encoded vote written under its signature, and one index entry written
/// per indexable field.
pub open spec fn spec_save_vote(m: StoreModel, v: VoteView) -> StoreModel {
    let m1 = spec_bump(m, v.block_index);
    StoreModel {
        meta: m1.meta,
        votes: m1.votes.insert(v.signature, vote_bytes(v)),
        vote_index: m1.vote_index.insert(
            tagged_num_key(TAG_BLOCK, v.block_index, v.signature),
            v.signature,
        ).insert(tagged_addr_key(TAG_TO, v.target, v.signature), v.signature).insert(
            tagged_addr_key(TAG_FROM, v.author, v.signature),
            v.signature,
        ),
        transfers: m1.transfers,
        transfer_index: m1.transfer_index,
    }
}

/// The store after a transfer was saved.
pub open spec fn spec_save_transfer(m: StoreModel, t: TransferView) -> StoreModel {
    let m1 = spec_bump(m, t.block_index);
    StoreModel {
        meta: m1.meta,
        votes: m1.votes,
        vote_index: m1.vote_index,
        transfers: m1.transfers.insert(t.signature, transfer_bytes(t)),
        transfer_index: m1.transfer_index.insert(
            tagged_num_key(TAG_BLOCK, t.block_index, t.signature),
            t.signature,
        ).insert(tagged_addr_key(TAG_TO, t.destination, t.signature), t.signature).insert(
            tagged_addr_key(TAG_FROM, t.source, t.signature),
            t.signature,
        ).insert(tagged_num_key(TAG_AMOUNT, t.lamports, t.signature), t.signature),
    }
}

/// The vote found under a signature: the decoded row, or nothing when the
/// signature holds no row or the row does not decode.
pub open spec fn spec_find_vote(m: StoreModel, sig: Seq<u8>) -> Option<VoteView> {
    if m.votes.contains_key(sig) {
        vote_of_bytes(m.votes[sig])
    } else {
        None
    }
}

/// The transfer found under a signature.
pub open spec fn spec_find_transfer(m: StoreModel, sig: Seq<u8>) -> Option<TransferView> {
    if m.transfers.contains_key(sig) {
        transfer_of_bytes(m.transfers[sig])
    } else {
        None
    }
}

/// Every vote a full scan of the primary space can decode.
pub open spec fn spec_all_votes(m: StoreModel) -> Set<VoteView> {
    Set::new(
        |v: VoteView|
            exists|k: Seq<u8>| #[trigger]
                m.votes.contains_key(k) && vote_of_bytes(m.votes[k]) == Some(v),
    )
}

/// Every transfer a full scan of the primary space can decode.
pub open spec fn spec_all_transfers(m: StoreModel) -> Set<TransferView> {
    Set::new(
        |t: TransferView|
            exists|k: Seq<u8>| #[trigger]
                m.transfers.contains_key(k) && transfer_of_bytes(m.transfers[k]) == Some(t),
    )
}

/// Every vote an indexed scan for `block` resolves: an index entry whose
/// key starts with the scan prefix, whose value leads to a stored vote.
/// Entries that resolve to nothing are dangling and skipped.
pub open spec fn spec_votes_at_block(m: StoreModel, block: u64) -> Set<VoteView> {
    Set::new(
        |v: VoteView|
            exists|k: Seq<u8>| #[trigger]
                m.vote_index.contains_key(k) && block_scan_prefix(block).is_prefix_of(k)
                && spec_find_vote(m, m.vote_index[k]) == Some(v),
    )
}

/// Every transfer an indexed scan for `block` resolves.
pub open spec fn spec_transfers_at_block(m: StoreModel, block: u64) -> Set<TransferView> {
    Set::new(
        |t: TransferView|
            exists|k: Seq<u8>| #[trigger]
                m.transfer_index.contains_key(k) && block_scan_prefix(block).is_prefix_of(k)
                && spec_find_transfer(m, m.transfer_index[k]) == Some(t),
    )
}

/// True when some element of `out` reads as the vote `w`.
pub open spec fn vote_listed(out: Seq<Vote>, w: VoteView) -> bool {
    exists|a: int| 0 <= a < out.len() && out[a]@ == w
}

/// True when some element of `out` reads as the transfer `w`.
pub open spec fn transfer_listed(out: Seq<Transfer>, w: TransferView) -> bool {
    exists|a: int| 0 <= a < out.len() && out[a]@ == w
}

/// Pushing keeps everything listed and lists the newcomer.
pub proof fn lemma_vote_listed_push(out: Seq<Vote>, v: Vote)
    ensures
        vote_listed(out.push(v), v@),
        forall|w: VoteView| vote_listed(out, w) ==> vote_listed(out.push(v), w),
{
    assert(out.push(v)[out.len() as int]@ == v@);
    assert forall|w: VoteView| vote_listed(out, w) implies vote_listed(out.push(v), w) by {
        let a = choose|a: int| 0 <= a < out.len() && out[a]@ == w;
        assert(out.push(v)[a]@ == w);
    }
}

/// Pushing keeps everything listed and lists the newcomer.
pub proof fn lemma_transfer_listed_push(out: Seq<Transfer>, t: Transfer)
    ensures
        transfer_listed(out.push(t), t@),
        forall|w: TransferView| transfer_listed(out, w) ==> transfer_listed(out.push(t), w),
{
    assert(out.push(t)[out.len() as int]@ == t@);
    assert forall|w: TransferView| transfer_listed(out, w) implies transfer_listed(
        out.push(t),
        w,
    ) by {
        let a = choose|a: int| 0 <= a < out.len() && out[a]@ == w;
        assert(out.push(t)[a]@ == w);
    }
}

/// Every stored vote row reads back under its own signature: what a store
/// holds after any run of saves from an empty start.
pub open spec fn votes_keyed_by_signature(m: StoreModel) -> bool {
    forall|k: Seq<u8>| #[trigger]
        m.votes.contains_key(k) ==> (vote_of_bytes(m.votes[k]) matches Some(v) ==> v.signature
            == k)
}

/// Every stored transfer row reads back under its own signature.
pub open spec fn transfers_keyed_by_signature(m: StoreModel) -> bool {
    forall|k: Seq<u8>| #[trigger]
        m.transfers.contains_key(k) ==> (transfer_of_bytes(m.transfers[k]) matches Some(t)
            ==> t.signature == k)
}

/// Every entry of an index keyspace holds as its value the signature its
/// key ends with, and every block-tagged key has the one width saves
/// write: what an index looks like after any run of saves from an empty
/// start.
pub open spec fn index_map_keyed(mi: Map<Seq<u8>, Seq<u8>>) -> bool {
    forall|k: Seq<u8>| #[trigger]
        mi.contains_key(k) ==> {
            &&& k.len() >= 64
            &&& mi[k] == k.subrange(k.len() - 64, k.len() as int)
            &&& (k[0] == TAG_BLOCK ==> k.len() == 73)
        }
}

/// The vote index is keyed as above.
pub open spec fn vote_index_keyed(m: StoreModel) -> bool {
    index_map_keyed(m.vote_index)
}

/// The transfer index is keyed as above.
pub open spec fn transfer_index_keyed(m: StoreModel) -> bool {
    index_map_keyed(m.transfer_index)
}

/// Writing one entry whose key ends with its 64-byte value keeps an
/// index keyed.
proof fn lemma_index_keyed_insert(mi: Map<Seq<u8>, Seq<u8>>, key: Seq<u8>, sig: Seq<u8>)
    requires
        index_map_keyed(mi),
        key.len() >= 64,
        sig == key.subrange(key.len() - 64, key.len() as int),
        key[0] == TAG_BLOCK ==> key.len() == 73,
    ensures
        index_map_keyed(mi.insert(key, sig)),
{
    assert forall|k: Seq<u8>| #[trigger] mi.insert(key, sig).contains_key(k) implies k.len() >= 64
        && mi.insert(key, sig)[k] == k.subrange(k.len() - 64, k.len() as int) && (k[0]
        == TAG_BLOCK ==> k.len() == 73) by {
        if k != key {
            assert(mi.contains_key(k) && mi.insert(key, sig)[k] == mi[k]);
        }
    }
}

/// Saving a well-formed vote keeps the store keyed by signature.
#[verifier::rlimit(100)]
#[verifier::spinoff_prover]
proof fn lemma_save_vote_preserves_keying(m: StoreModel, v: VoteView)
    requires
        v.wf(),
        votes_keyed_by_signature(m),
        vote_index_keyed(m),
    ensures
        votes_keyed_by_signature(spec_save_vote(m, v)),
        vote_index_keyed(spec_save_vote(m, v)),
{
    lemma_vote_roundtrip(v);
    let sig = v.signature;
    let k1 = tagged_num_key(TAG_BLOCK, v.block_index, sig);
    let k2 = tagged_addr_key(TAG_TO, v.target, sig);
    let k3 = tagged_addr_key(TAG_FROM, v.author, sig);
    assert(k1.len() == 73 && k1.subrange(9, 73) =~= sig && k1[0] == TAG_BLOCK);
    assert(k2.len() == 97 && k2.subrange(33, 97) =~= sig && k2[0] == TAG_TO);
    assert(k3.len() == 97 && k3.subrange(33, 97) =~= sig && k3[0] == TAG_FROM);
    let mi0 = m.vote_index;
    lemma_index_keyed_insert(mi0, k1, sig);
    lemma_index_keyed_insert(mi0.insert(k1, sig), k2, sig);
    lemma_index_keyed_insert(mi0.insert(k1, sig).insert(k2, sig), k3, sig);
    let mp = spec_save_vote(m, v).votes;
    assert forall|k: Seq<u8>| #[trigger] mp.contains_key(k) implies (vote_of_bytes(
        mp[k],
    ) matches Some(w) ==> w.signature == k) by {
        if k != v.signature {
            assert(m.votes.contains_key(k) && mp[k] == m.votes[k]);
        }
    }
}

/// Saving a well-formed transfer keeps the store keyed by signature.
#[verifier::rlimit(100)]
#[verifier::spinoff_prover]
proof fn lemma_save_transfer_preserves_keying(m: StoreModel, t: TransferView)
    requires
        t.wf(),
        transfers_keyed_by_signature(m),
        transfer_index_keyed(m),
    ensures
        transfers_keyed_by_signature(spec_save_transfer(m, t)),
        transfer_index_keyed(spec_save_transfer(m, t)),
{
    lemma_transfer_roundtrip(t);
    let sig = t.signature;
    let k1 = tagged_num_key(TAG_BLOCK, t.block_index, sig);
    let k2 = tagged_addr_key(TAG_TO, t.destination, sig);
    let k3 = tagged_addr_key(TAG_FROM, t.source, sig);
    let k4 = tagged_num_key(TAG_AMOUNT, t.lamports, sig);
    assert(k1.len() == 73 && k1.subrange(9, 73) =~= sig && k1[0] == TAG_BLOCK);
    assert(k2.len() == 97 && k2.subrange(33, 97) =~= sig && k2[0] == TAG_TO);
    assert(k3.len() == 97 && k3.subrange(33, 97) =~= sig && k3[0] == TAG_FROM);
    assert(k4.len() == 73 && k4.subrange(9, 73) =~= sig && k4[0] == TAG_AMOUNT);
    let mi0 = m.transfer_index;
    lemma_index_keyed_insert(mi0, k1, sig);
    lemma_index_keyed_insert(mi0.insert(k1, sig), k2, sig);
    lemma_index_keyed_insert(mi0.insert(k1, sig).insert(k2, sig), k3, sig);
    lemma_index_keyed_insert(mi0.insert(k1, sig).insert(k2, sig).insert(k3, sig), k4, sig);
    let mp = spec_save_transfer(m, t).transfers;
    assert forall|k: Seq<u8>| #[trigger] mp.contains_key(k) implies (transfer_of_bytes(
        mp[k],
    ) matches Some(w) ==> w.signature == k) by {
        if k != t.signature {
            assert(m.transfers.contains_key(k) && mp[k] == m.transfers[k]);
        }
    }
}

/// An empty store is keyed by signature throughout, and committing
/// well-formed records keeps it so, index entries included.
pub proof fn lemma_commit_preserves_keying(m: StoreModel, r: RecordView)
    requires
        r.wf(),
        votes_keyed_by_signature(m),
        transfers_keyed_by_signature(m),
        vote_index_keyed(m),
        transfer_index_keyed(m),
    ensures
        votes_keyed_by_signature(spec_commit(m, r)),
        transfers_keyed_by_signature(spec_commit(m, r)),
        vote_index_keyed(spec_commit(m, r)),
        transfer_index_keyed(spec_commit(m, r)),
        votes_keyed_by_signature(spec_empty_store()),
        transfers_keyed_by_signature(spec_empty_store()),
        vote_index_keyed(spec_empty_store()),
        transfer_index_keyed(spec_empty_store()),
{
    match r {
        RecordView::Vote(v) => {
            lemma_save_vote_preserves_keying(m, v);
        },
        RecordView::Transfer(t) => {
            lemma_save_transfer_preserves_keying(m, t);
        },
    }
}

/// In a keyed index, two entries under one block prefix that hold the
/// same value are one entry: the key is the prefix followed by the value.
proof fn lemma_vote_block_entry_injective(m: StoreModel, block: u64, k1: Seq<u8>, k2: Seq<u8>)
    requires
        vote_index_keyed(m),
        m.vote_index.contains_key(k1),
        m.vote_index.contains_key(k2),
        block_scan_prefix(block).is_prefix_of(k1),
        block_scan_prefix(block).is_prefix_of(k2),
        m.vote_index[k1] == m.vote_index[k2],
    ensures
        k1 == k2,
{
    assert(block_scan_prefix(block) == k1.subrange(0, 9));
    assert(k1[0] == block_scan_prefix(block)[0]);
    assert(k1[0] == TAG_BLOCK && k1.len() == 73);
    assert(block_scan_prefix(block) == k2.subrange(0, 9));
    assert(k2[0] == block_scan_prefix(block)[0]);
    assert(k2[0] == TAG_BLOCK && k2.len() == 73);
    assert(k1 =~= block_scan_prefix(block) + m.vote_index[k1]);
    assert(k2 =~= block_scan_prefix(block) + m.vote_index[k2]);
}

/// The transfer index, the same way.
proof fn lemma_transfer_block_entry_injective(m: StoreModel, block: u64, k1: Seq<u8>, k2: Seq<u8>)
    requires
        transfer_index_keyed(m),
        m.transfer_index.contains_key(k1),
        m.transfer_index.contains_key(k2),
        block_scan_prefix(block).is_prefix_of(k1),
        block_scan_prefix(block).is_prefix_of(k2),
        m.transfer_index[k1] == m.transfer_index[k2],
    ensures
        k1 == k2,
{
    assert(block_scan_prefix(block) == k1.subrange(0, 9));
    assert(k1[0] == block_scan_prefix(block)[0]);
    assert(k1[0] == TAG_BLOCK && k1.len() == 73);
    assert(block_scan_prefix(block) == k2.subrange(0, 9));
    assert(k2[0] == block_scan_prefix(block)[0]);
    assert(k2[0] == TAG_BLOCK && k2.len() == 73);
    assert(k1 =~= block_scan_prefix(block) + m.transfer_index[k1]);
    assert(k2 =~= block_scan_prefix(block) + m.transfer_index[k2]);
}

/// A database of records.
pub struct Store {
    meta: Space,
    votes: Space,
    vote_index: Space,
    transfers: Space,
    transfer_index: Space,
}

impl View for Store {
    type V = StoreModel;

    closed spec fn view(&self) -> StoreModel {
        StoreModel {
            meta: self.meta@,
            votes: self.votes@,
            vote_index: self.vote_index@,
            transfers: self.transfers@,
            transfer_index: self.transfer_index@,
        }
    }
}

/// The reserved meta key as bytes.
fn make_watermark_key() -> (r: Vec<u8>)
    ensures
        r@ == watermark_key(),
{
    let mut out: Vec<u8> = Vec::new();
    out.push(0x1b);
    out.push(0x11);
    assert(out@ =~= watermark_key());
    out
}

/// An index key over a numeric field, as bytes.
fn make_num_key(tag: u8, value: u64, sig: &Vec<u8>) -> (r: Vec<u8>)
    ensures
        r@ == tagged_num_key(tag, value, sig@),
{
    let mut out: Vec<u8> = Vec::new();
    out.push(tag);
    push_u64_be(&mut out, value);
    push_bytes(&mut out, sig);
    assert(out@ =~= tagged_num_key(tag, value, sig@));
    out
}

/// An index key over an address field, as bytes.
fn make_addr_key(tag: u8, addr: &Vec<u8>, sig: &Vec<u8>) -> (r: Vec<u8>)
    ensures
        r@ == tagged_addr_key(tag, addr@, sig@),
{
    let mut out: Vec<u8> = Vec::new();
    out.push(tag);
    push_bytes(&mut out, addr);
    push_bytes(&mut out, sig);
    assert(out@ =~= tagged_addr_key(tag, addr@, sig@));
    out
}

/// The scan prefix for one block height, as bytes.
fn make_block_prefix(block: u64) -> (r: Vec<u8>)
    ensures
        r@ == block_scan_prefix(block),
{
    let mut out: Vec<u8> = Vec::new();
    out.push(TAG_BLOCK);
    push_u64_be(&mut out, block);
    assert(out@ =~= block_scan_prefix(block));
    out
}

/// The rows of the five keyspaces, carried as plain values: what the
/// process around the store persists on a commit and hands back when it
/// opens the store again.
pub struct StoreRows {
    /// The rows of the meta space.
    pub meta: Vec<(Vec<u8>, Vec<u8>)>,
    /// The rows of the vote-primary space.
    pub votes: Vec<(Vec<u8>, Vec<u8>)>,
    /// The rows of the vote-index space.
    pub vote_index: Vec<(Vec<u8>, Vec<u8>)>,
    /// The rows of the transfer-primary space.
    pub transfers: Vec<(Vec<u8>, Vec<u8>)>,
    /// The rows of the transfer-index space.
    pub transfer_index: Vec<(Vec<u8>, Vec<u8>)>,
}

impl Store {
    /// A store holding nothing at all: what a process starts from when
    /// no prior rows exist at its path.
    pub fn new() -> (s: Store)
        ensures
            s@ == spec_empty_store(),
    {
        Store {
            meta: Space::new(),
            votes: Space::new(),
            vote_index: Space::new(),
            transfers: Space::new(),
            transfer_index: Space::new(),
        }
    }

    /// A store holding exactly the given rows, keyspace by keyspace:
    /// handing back what `export_rows` carried away reopens the store
    /// with its data intact.
    pub fn from_rows(rows: StoreRows) -> (s: Store)
        ensures
            s@.meta == crate::kv::assoc_map(rows.meta@),
            s@.votes == crate::kv::assoc_map(rows.votes@),
            s@.vote_index == crate::kv::assoc_map(rows.vote_index@),
            s@.transfers == crate::kv::assoc_map(rows.transfers@),
            s@.transfer_index == crate::kv::assoc_map(rows.transfer_index@),
    {
        Store {
            meta: Space::from_rows(rows.meta),
            votes: Space::from_rows(rows.votes),
            vote_index: Space::from_rows(rows.vote_index),
            transfers: Space::from_rows(rows.transfers),
            transfer_index: Space::from_rows(rows.transfer_index),
        }
    }

    /// Every row of every keyspace, reading back as exactly the store's
    /// present state: the persisted layout, as plain values.
    pub fn export_rows(&self) -> (r: StoreRows)
        ensures
            crate::kv::assoc_map(r.meta@) == self@.meta,
            crate::kv::assoc_map(r.votes@) == self@.votes,
            crate::kv::assoc_map(r.vote_index@) == self@.vote_index,
            crate::kv::assoc_map(r.transfers@) == self@.transfers,
            crate::kv::assoc_map(r.transfer_index@) == self@.transfer_index,
    {
        StoreRows {
            meta: self.meta.entries(),
            votes: self.votes.entries(),
            vote_index: self.vote_index.entries(),
            transfers: self.transfers.entries(),
            transfer_index: self.transfer_index.entries(),
        }
    }

    /// Maximum of all the "block index" fields across all the records
    /// ever saved, or nothing when no record was ever saved.
    pub fn last_known_block(&self) -> (r: Option<u64>)
        ensures
            r == spec_watermark(self@),
    {
        let key = make_watermark_key();
        match self.meta.get(&key) {
            None => None,
            Some(v) => {
                if v.len() == 8 {
                    let b = read_u64_be(&v, 0);
                    assert(v@.subrange(0, 8) =~= v@);
                    Some(b)
                } else {
                    None
                }
            },
        }
    }

    /// Sets the last known block to the given value outright.
    pub fn set_last_known_block(&mut self, block: u64) -> (r: Result<(), Error>)
        ensures
            r is Ok,
            final(self)@ == spec_set_watermark(old(self)@, block),
    {
        let key = make_watermark_key();
        let mut value: Vec<u8> = Vec::new();
        push_u64_be(&mut value, block);
        assert(value@ =~= u64_be_bytes(block));
        self.meta.put(&key, &value);
        Ok(())
    }

    /// Sets the last known block when none was ever set, raises it when
    /// the given height is greater, and leaves it alone otherwise.
    fn bump_last_known_block(&mut self, block: u64) -> (r: Result<(), Error>)
        ensures
            r is Ok,
            final(self)@ == spec_bump(old(self)@, block),
    {
        match self.last_known_block() {
            None => {
                self.set_last_known_block(block)?;
            },
            Some(current) => {
                if block > current {
                    self.set_last_known_block(block)?;
                }
            },
        }
        Ok(())
    }

    /// Writes down a vote, possibly overwriting the record with the same
    /// signature, and indexes it by block height and both addresses.
    pub fn save_vote(&mut self, vote: &Vote) -> (r: Result<(), Error>)
        requires
            vote@.wf(),
        ensures
            r is Ok,
            final(self)@ == spec_save_vote(old(self)@, vote@),
    {
        self.bump_last_known_block(vote.block_index)?;

        let row = encode_vote(vote);
        self.votes.put(&vote.signature, &row);

        let key = make_num_key(TAG_BLOCK, vote.block_index, &vote.signature);
        self.vote_index.put(&key, &vote.signature);
        let key = make_addr_key(TAG_TO, &vote.target, &vote.signature);
        self.vote_index.put(&key, &vote.signature);
        let key = make_addr_key(TAG_FROM, &vote.author, &vote.signature);
        self.vote_index.put(&key, &vote.signature);

        Ok(())
    }

    /// Writes down a transfer, possibly overwriting the record with the
    /// same signature, and indexes it by block height, both addresses,
    /// and the amount moved.
    pub fn save_transfer(&mut self, transfer: &Transfer) -> (r: Result<(), Error>)
        requires
            transfer@.wf(),
        ensures
            r is Ok,
            final(self)@ == spec_save_transfer(old(self)@, transfer@),
    {
        self.bump_last_known_block(transfer.block_index)?;

        let row = encode_transfer(transfer);
        self.transfers.put(&transfer.signature, &row);

        let key = make_num_key(TAG_BLOCK, transfer.block_index, &transfer.signature);
        self.transfer_index.put(&key, &transfer.signature);
        let key = make_addr_key(TAG_TO, &transfer.destination, &transfer.signature);
        self.transfer_index.put(&key, &transfer.signature);
        let key = make_addr_key(TAG_FROM, &transfer.source, &transfer.signature);
        self.transfer_index.put(&key, &transfer.signature);
        let key = make_num_key(TAG_AMOUNT, transfer.lamports, &transfer.signature);
        self.transfer_index.put(&key, &transfer.signature);

        Ok(())
    }

    /// The unique vote with the given signature, if it exists and its row
    /// decodes; corrupt rows are treated as absent.
    pub fn find_vote(&self, key: &Vec<u8>) -> (r: Option<Vote>)
        ensures
            match r {
                Some(v) => spec_find_vote(self@, key@) == Some(v@) && v@.wf(),
                None => spec_find_vote(self@, key@) is None,
            },
    {
        match self.votes.get(key) {
            None => None,
            Some(row) => decode_vote(&row),
        }
    }

    /// The unique transfer with the given signature, if it exists and its
    /// row decodes; corrupt rows are treated as absent.
    pub fn find_transfer(&self, key: &Vec<u8>) -> (r: Option<Transfer>)
        ensures
            match r {
                Some(t) => spec_find_transfer(self@, key@) == Some(t@) && t@.wf(),
                None => spec_find_transfer(self@, key@) is None,
            },
    {
        match self.transfers.get(key) {
            None => None,
            Some(row) => decode_transfer(&row),
        }
    }

    /// Every vote in the store: a full scan of the primary space, rows
    /// that do not decode skipped.
    pub fn find_all_votes(&self) -> (r: Result<Vec<Vote>, Error>)
        ensures
            r matches Ok(vs) && {
                &&& forall|a: int|
                    0 <= a < vs@.len() ==> spec_all_votes(self@).contains(#[trigger] vs@[a]@)
                &&& forall|v: VoteView| spec_all_votes(self@).contains(v) ==> vote_listed(vs@, v)
                &&& votes_keyed_by_signature(self@) ==> forall|a: int, b: int|
                    0 <= a < b < vs@.len() ==> #[trigger] vs@[a]@ != #[trigger] vs@[b]@
            },
    {
        let rows = self.votes.entries();
        let n = rows.len();
        let mut out: Vec<Vote> = Vec::new();
        let mut i: usize = 0;
        while i < n
            invariant
                0 <= i <= n,
                rows@.len() == n,
                crate::kv::distinct_keys(rows@),
                forall|j: int|
                    0 <= j < n ==> self@.votes.contains_pair(
                        #[trigger] rows@[j].0@,
                        rows@[j].1@,
                    ),
                forall|a: int|
                    0 <= a < out@.len() ==> exists|j: int|
                        0 <= j < i && vote_of_bytes(rows@[j].1@) == Some(#[trigger] out@[a]@),
                forall|j: int|
                    0 <= j < i ==> (vote_of_bytes(#[trigger] rows@[j].1@) matches Some(w)
                        ==> vote_listed(out@, w)),
                votes_keyed_by_signature(self@) ==> forall|a: int|
                    0 <= a < out@.len() ==> exists|j: int|
                        0 <= j < i && (#[trigger] out@[a]@).signature == rows@[j].0@,
                votes_keyed_by_signature(self@) ==> forall|a: int, b: int|
                    0 <= a < b < out@.len() ==> (#[trigger] out@[a]@).signature != (
                    #[trigger] out@[b]@).signature,
            decreases n - i,
        {
            let ghost out0 = out@;
            match decode_vote(&rows[i].1) {
                Some(v) => {
                    proof {
                        if votes_keyed_by_signature(self@) {
                            assert(self@.votes.contains_pair(rows@[i as int].0@, rows@[i as int].1@));
                            assert(v@.signature == rows@[i as int].0@);
                            assert forall|a: int| 0 <= a < out0.len() implies (
                            #[trigger] out0[a]@).signature != v@.signature by {
                                let j = choose|j: int|
                                    0 <= j < i && out0[a]@.signature == rows@[j].0@;
                                assert(rows@[j].0@ != rows@[i as int].0@);
                            }
                        }
                    }
                    out.push(v);
                    proof {
                        assert(out@ == out0.push(v));
                        lemma_vote_listed_push(out0, v);
                    }
                },
                None => {},
            }
            i = i + 1;
        }
        proof {
            if votes_keyed_by_signature(self@) {
                assert forall|a: int, b: int| 0 <= a < b < out@.len() implies (#[trigger] out@[a]@)
                    != (#[trigger] out@[b]@) by {
                    assert(out@[a]@.signature != out@[b]@.signature);
                }
            }
        }
        proof {
            assert forall|a: int| 0 <= a < out@.len() implies spec_all_votes(self@).contains(
                #[trigger] out@[a]@,
            ) by {
                let j = choose|j: int|
                    0 <= j < n && vote_of_bytes(rows@[j].1@) == Some(out@[a]@);
                assert(self@.votes.contains_pair(rows@[j].0@, rows@[j].1@));
                assert(self@.votes.contains_key(rows@[j].0@) && vote_of_bytes(
                    self@.votes[rows@[j].0@],
                ) == Some(out@[a]@));
            }
            assert forall|v: VoteView| spec_all_votes(self@).contains(v) implies vote_listed(
                out@,
                v,
            ) by {
                let k = choose|k: Seq<u8>|
                    #[trigger] self@.votes.contains_key(k) && vote_of_bytes(self@.votes[k])
                        == Some(v);
                let j = choose|j: int| 0 <= j < rows@.len() && rows@[j].0@ == k;
                assert(self@.votes.contains_pair(rows@[j].0@, rows@[j].1@));
                assert(rows@[j].1@ == self@.votes[k]);
                assert(vote_of_bytes(rows@[j].1@) == Some(v));
            }
        }
        Ok(out)
    }

    /// Every transfer in the store: a full scan of the primary space,
    /// rows that do not decode skipped.
    pub fn find_all_transfers(&self) -> (r: Result<Vec<Transfer>, Error>)
        ensures
            r matches Ok(ts) && {
                &&& forall|a: int|
                    0 <= a < ts@.len() ==> spec_all_transfers(self@).contains(#[trigger] ts@[a]@)
                &&& forall|t: TransferView|
                    spec_all_transfers(self@).contains(t) ==> transfer_listed(ts@, t)
                &&& transfers_keyed_by_signature(self@) ==> forall|a: int, b: int|
                    0 <= a < b < ts@.len() ==> #[trigger] ts@[a]@ != #[trigger] ts@[b]@
            },
    {
        let rows = self.transfers.entries();
        let n = rows.len();
        let mut out: Vec<Transfer> = Vec::new();
        let mut i: usize = 0;
        while i < n
            invariant
                0 <= i <= n,
                rows@.len() == n,
                crate::kv::distinct_keys(rows@),
                forall|j: int|
                    0 <= j < n ==> self@.transfers.contains_pair(
                        #[trigger] rows@[j].0@,
                        rows@[j].1@,
                    ),
                forall|a: int|
                    0 <= a < out@.len() ==> exists|j: int|
                        0 <= j < i && transfer_of_bytes(rows@[j].1@) == Some(
                            #[trigger] out@[a]@,
                        ),
                forall|j: int|
                    0 <= j < i ==> (transfer_of_bytes(#[trigger] rows@[j].1@) matches Some(w)
                        ==> transfer_listed(out@, w)),
                transfers_keyed_by_signature(self@) ==> forall|a: int|
                    0 <= a < out@.len() ==> exists|j: int|
                        0 <= j < i && (#[trigger] out@[a]@).signature == rows@[j].0@,
                transfers_keyed_by_signature(self@) ==> forall|a: int, b: int|
                    0 <= a < b < out@.len() ==> (#[trigger] out@[a]@).signature != (
                    #[trigger] out@[b]@).signature,
            decreases n - i,
        {
            let ghost out0 = out@;
            match decode_transfer(&rows[i].1) {
                Some(t) => {
                    proof {
                        if transfers_keyed_by_signature(self@) {
                            assert(self@.transfers.contains_pair(
                                rows@[i as int].0@,
                                rows@[i as int].1@,
                            ));
                            assert(t@.signature == rows@[i as int].0@);
                            assert forall|a: int| 0 <= a < out0.len() implies (
                            #[trigger] out0[a]@).signature != t@.signature by {
                                let j = choose|j: int|
                                    0 <= j < i && out0[a]@.signature == rows@[j].0@;
                                assert(rows@[j].0@ != rows@[i as int].0@);
                            }
                        }
                    }
                    out.push(t);
                    proof {
                        assert(out@ == out0.push(t));
                        lemma_transfer_listed_push(out0, t);
                    }
                },
                None => {},
            }
            i = i + 1;
        }
        proof {
            if transfers_keyed_by_signature(self@) {
                assert forall|a: int, b: int| 0 <= a < b < out@.len() implies (#[trigger] out@[a]@)
                    != (#[trigger] out@[b]@) by {
                    assert(out@[a]@.signature != out@[b]@.signature);
                }
            }
        }
        proof {
            assert forall|a: int| 0 <= a < out@.len() implies spec_all_transfers(self@).contains(
                #[trigger] out@[a]@,
            ) by {
                let j = choose|j: int|
                    0 <= j < n && transfer_of_bytes(rows@[j].1@) == Some(out@[a]@);
                assert(self@.transfers.contains_pair(rows@[j].0@, rows@[j].1@));
                assert(self@.transfers.contains_key(rows@[j].0@) && transfer_of_bytes(
                    self@.transfers[rows@[j].0@],
                ) == Some(out@[a]@));
            }
            assert forall|t: TransferView| spec_all_transfers(self@).contains(
                t,
            ) implies transfer_listed(out@, t) by {
                let k = choose|k: Seq<u8>|
                    #[trigger] self@.transfers.contains_key(k) && transfer_of_bytes(
                        self@.transfers[k],
                    ) == Some(t);
                let j = choose|j: int| 0 <= j < rows@.len() && rows@[j].0@ == k;
                assert(self@.transfers.contains_pair(rows@[j].0@, rows@[j].1@));
                assert(rows@[j].1@ == self@.transfers[k]);
                assert(transfer_of_bytes(rows@[j].1@) == Some(t));
            }
        }
        Ok(out)
    }

    /// Every vote the block index resolves for the given height: a scan
    /// over the index entries carrying the height's prefix, each resolved
    /// back to its primary row; dangling entries are skipped.
    #[verifier::rlimit(50)]
    pub fn find_votes_by_block_index(&self, block_index: u64) -> (r: Result<Vec<Vote>, Error>)
        ensures
            r matches Ok(vs) && {
                &&& forall|a: int|
                    0 <= a < vs@.len() ==> spec_votes_at_block(self@, block_index).contains(
                        #[trigger] vs@[a]@,
                    )
                &&& forall|v: VoteView|
                    spec_votes_at_block(self@, block_index).contains(v) ==> vote_listed(vs@, v)
                &&& (votes_keyed_by_signature(self@) && vote_index_keyed(self@))
                    ==> forall|a: int, b: int|
                    0 <= a < b < vs@.len() ==> #[trigger] vs@[a]@ != #[trigger] vs@[b]@
            },
    {
        let prefix = make_block_prefix(block_index);
        let rows = self.vote_index.entries();
        let n = rows.len();
        let mut out: Vec<Vote> = Vec::new();
        let mut i: usize = 0;
        while i < n
            invariant
                0 <= i <= n,
                rows@.len() == n,
                prefix@ == block_scan_prefix(block_index),
                crate::kv::distinct_keys(rows@),
                forall|j: int|
                    0 <= j < n ==> self@.vote_index.contains_pair(
                        #[trigger] rows@[j].0@,
                        rows@[j].1@,
                    ),
                forall|a: int|
                    0 <= a < out@.len() ==> spec_votes_at_block(self@, block_index).contains(
                        #[trigger] out@[a]@,
                    ),
                forall|j: int|
                    0 <= j < i ==> (spec_resolved_vote(
                        self@,
                        #[trigger] rows@[j].0@,
                        rows@[j].1@,
                        block_index,
                    ) matches Some(w) ==> vote_listed(out@, w)),
                (votes_keyed_by_signature(self@) && vote_index_keyed(self@)) ==> forall|a: int|
                    0 <= a < out@.len() ==> exists|j: int|
                        0 <= j < i && (#[trigger] out@[a]@).signature == rows@[j].1@
                            && block_scan_prefix(block_index).is_prefix_of(rows@[j].0@),
                (votes_keyed_by_signature(self@) && vote_index_keyed(self@)) ==> forall|
                    a: int,
                    b: int,
                |
                    0 <= a < b < out@.len() ==> (#[trigger] out@[a]@).signature != (
                    #[trigger] out@[b]@).signature,
            decreases n - i,
        {
            let ghost out0 = out@;
            if has_prefix(&rows[i].0, &prefix) {
                match self.find_vote(&rows[i].1) {
                    Some(v) => {
                        proof {
                            assert(self@.vote_index.contains_pair(
                                rows@[i as int].0@,
                                rows@[i as int].1@,
                            ));
                            assert(self@.vote_index[rows@[i as int].0@] == rows@[i as int].1@);
                            assert(spec_votes_at_block(self@, block_index).contains(v@));
                            if votes_keyed_by_signature(self@) && vote_index_keyed(self@) {
                                assert(v@.signature == rows@[i as int].1@);
                                assert forall|a: int| 0 <= a < out0.len() implies (
                                #[trigger] out0[a]@).signature != v@.signature by {
                                    let j = choose|j: int|
                                        0 <= j < i && out0[a]@.signature == rows@[j].1@
                                            && block_scan_prefix(block_index).is_prefix_of(
                                            rows@[j].0@,
                                        );
                                    assert(self@.vote_index.contains_pair(
                                        rows@[j].0@,
                                        rows@[j].1@,
                                    ));
                                    if rows@[j].1@ == rows@[i as int].1@ {
                                        lemma_vote_block_entry_injective(
                                            self@,
                                            block_index,
                                            rows@[j].0@,
                                            rows@[i as int].0@,
                                        );
                                    }
                                }
                            }
                        }
                        out.push(v);
                        proof {
                            assert(out@ == out0.push(v));
                            lemma_vote_listed_push(out0, v);
                        }
                    },
                    None => {},
                }
            }
            i = i + 1;
        }
        proof {
            assert forall|v: VoteView| spec_votes_at_block(self@, block_index).contains(
                v,
            ) implies vote_listed(out@, v) by {
                let k = choose|k: Seq<u8>|
                    #[trigger] self@.vote_index.contains_key(k) && block_scan_prefix(
                        block_index,
                    ).is_prefix_of(k) && spec_find_vote(self@, self@.vote_index[k]) == Some(v);
                let j = choose|j: int| 0 <= j < rows@.len() && rows@[j].0@ == k;
                assert(self@.vote_index.contains_pair(rows@[j].0@, rows@[j].1@));
                assert(rows@[j].1@ == self@.vote_index[k]);
                assert(spec_resolved_vote(self@, rows@[j].0@, rows@[j].1@, block_index) == Some(
                    v,
                ));
            }
            if votes_keyed_by_signature(self@) && vote_index_keyed(self@) {
                assert forall|a: int, b: int| 0 <= a < b < out@.len() implies (
                #[trigger] out@[a]@) != (#[trigger] out@[b]@) by {
                    assert(out@[a]@.signature != out@[b]@.signature);
                }
            }
        }
        Ok(out)
    }

    /// Every transfer the block index resolves for the given height.
    #[verifier::rlimit(50)]
    pub fn find_transfers_by_block_index(&self, block_index: u64) -> (r: Result<
        Vec<Transfer>,
        Error,
    >)
        ensures
            r matches Ok(ts) && {
                &&& forall|a: int|
                    0 <= a < ts@.len() ==> spec_transfers_at_block(self@, block_index).contains(
                        #[trigger] ts@[a]@,
                    )
                &&& forall|t: TransferView|
                    spec_transfers_at_block(self@, block_index).contains(t) ==> transfer_listed(
                        ts@,
                        t,
                    )
                &&& (transfers_keyed_by_signature(self@) && transfer_index_keyed(self@))
                    ==> forall|a: int, b: int|
                    0 <= a < b < ts@.len() ==> #[trigger] ts@[a]@ != #[trigger] ts@[b]@
            },
    {
        let prefix = make_block_prefix(block_index);
        let rows = self.transfer_index.entries();
        let n = rows.len();
        let mut out: Vec<Transfer> = Vec::new();
        let mut i: usize = 0;
        while i < n
            invariant
                0 <= i <= n,
                rows@.len() == n,
                prefix@ == block_scan_prefix(block_index),
                crate::kv::distinct_keys(rows@),
                forall|j: int|
                    0 <= j < n ==> self@.transfer_index.contains_pair(
                        #[trigger] rows@[j].0@,
                        rows@[j].1@,
                    ),
                forall|a: int|
                    0 <= a < out@.len() ==> spec_transfers_at_block(self@, block_index).contains(
                        #[trigger] out@[a]@,
                    ),
                forall|j: int|
                    0 <= j < i ==> (spec_resolved_transfer(
                        self@,
                        #[trigger] rows@[j].0@,
                        rows@[j].1@,
                        block_index,
                    ) matches Some(w) ==> transfer_listed(out@, w)),
                (transfers_keyed_by_signature(self@) && transfer_index_keyed(self@)) ==> forall|
                    a: int,
                |
                    0 <= a < out@.len() ==> exists|j: int|
                        0 <= j < i && (#[trigger] out@[a]@).signature == rows@[j].1@
                            && block_scan_prefix(block_index).is_prefix_of(rows@[j].0@),
                (transfers_keyed_by_signature(self@) && transfer_index_keyed(self@)) ==> forall|
                    a: int,
                    b: int,
                |
                    0 <= a < b < out@.len() ==> (#[trigger] out@[a]@).signature != (
                    #[trigger] out@[b]@).signature,
            decreases n - i,
        {
            let ghost out0 = out@;
            if has_prefix(&rows[i].0, &prefix) {
                match self.find_transfer(&rows[i].1) {
                    Some(t) => {
                        proof {
                            assert(self@.transfer_index.contains_pair(
                                rows@[i as int].0@,
                                rows@[i as int].1@,
                            ));
                            assert(self@.transfer_index[rows@[i as int].0@] == rows@[i as int].1@);
                            assert(spec_transfers_at_block(self@, block_index).contains(t@));
                            if transfers_keyed_by_signature(self@) && transfer_index_keyed(
                                self@,
                            ) {
                                assert(t@.signature == rows@[i as int].1@);
                                assert forall|a: int| 0 <= a < out0.len() implies (
                                #[trigger] out0[a]@).signature != t@.signature by {
                                    let j = choose|j: int|
                                        0 <= j < i && out0[a]@.signature == rows@[j].1@
                                            && block_scan_prefix(block_index).is_prefix_of(
                                            rows@[j].0@,
                                        );
                                    assert(self@.transfer_index.contains_pair(
                                        rows@[j].0@,
                                        rows@[j].1@,
                                    ));
                                    if rows@[j].1@ == rows@[i as int].1@ {
                                        lemma_transfer_block_entry_injective(
                                            self@,
                                            block_index,
                                            rows@[j].0@,
                                            rows@[i as int].0@,
                                        );
                                    }
                                }
                            }
                        }
                        out.push(t);
                        proof {
                            assert(out@ == out0.push(t));
                            lemma_transfer_listed_push(out0, t);
                        }
                    },
                    None => {},
                }
            }
            i = i + 1;
        }
        proof {
            assert forall|t: TransferView| spec_transfers_at_block(self@, block_index).contains(
                t,
            ) implies transfer_listed(out@, t) by {
                let k = choose|k: Seq<u8>|
                    #[trigger] self@.transfer_index.contains_key(k) && block_scan_prefix(
                        block_index,
                    ).is_prefix_of(k) && spec_find_transfer(self@, self@.transfer_index[k])
                        == Some(t);
                let j = choose|j: int| 0 <= j < rows@.len() && rows@[j].0@ == k;
                assert(self@.transfer_index.contains_pair(rows@[j].0@, rows@[j].1@));
                assert(rows@[j].1@ == self@.transfer_index[k]);
                assert(spec_resolved_transfer(self@, rows@[j].0@, rows@[j].1@, block_index)
                    == Some(t));
            }
            if transfers_keyed_by_signature(self@) && transfer_index_keyed(self@) {
                assert forall|a: int, b: int| 0 <= a < b < out@.len() implies (
                #[trigger] out@[a]@) != (#[trigger] out@[b]@) by {
                    assert(out@[a]@.signature != out@[b]@.signature);
                }
            }
        }
        Ok(out)
    }
}

/// What one index row contributes to a block scan: the vote it resolves,
/// when its key carries the scan prefix.
pub open spec fn spec_resolved_vote(
    m: StoreModel,
    key: Seq<u8>,
    value: Seq<u8>,
    block: u64,
) -> Option<VoteView> {
    if block_scan_prefix(block).is_prefix_of(key) {
        spec_find_vote(m, value)
    } else {
        None
    }
}

/// What one index row contributes to a block scan, for transfers.
pub open spec fn spec_resolved_transfer(
    m: StoreModel,
    key: Seq<u8>,
    value: Seq<u8>,
    block: u64,
) -> Option<TransferView> {
    if block_scan_prefix(block).is_prefix_of(key) {
        spec_find_transfer(m, value)
    } else {
        None
    }
}

/// The store after a record was committed: votes and transfers dispatch
/// to their own save, by exhaustive case analysis.
pub open spec fn spec_commit(m: StoreModel, r: RecordView) -> StoreModel {
    match r {
        RecordView::Vote(v) => spec_save_vote(m, v),
        RecordView::Transfer(t) => spec_save_transfer(m, t),
    }
}

/// Durably persists one record, dispatching by kind.
pub fn commit_record(store: &mut Store, record: &Record) -> (r: Result<(), Error>)
    requires
        record@.wf(),
    ensures
        r is Ok,
        final(store)@ == spec_commit(old(store)@, record@),
{
    match record {
        Record::Vote(vote) => store.save_vote(vote),
        Record::Transfer(transfer) => store.save_transfer(transfer),
    }
}

/// What the committing loop can observe while it waits.
pub enum CommitterEvent {
    /// The shared cancellation signal was set.
    Cancelled,
    /// The producing side of the channel ended.
    Closed,
    /// A record arrived on the channel.
    Arrived(Record),
}

/// What the committing loop does next.
#[derive(Clone, Copy, Debug, PartialEq, Eq, Structural)]
pub enum CommitterVerdict {
    /// Wait for the next event.
    Continue,
    /// Stop cleanly.
    Stop,
}

/// One turn of the committing loop. Cancellation stops the loop at once,
/// before any receive, and leaves the store untouched even if records are
/// still queued; a closed channel stops it cleanly; an arrived record is
/// committed and the loop goes on.
pub fn committer_step(store: &mut Store, event: CommitterEvent) -> (verdict: CommitterVerdict)
    requires
        event matches CommitterEvent::Arrived(r) ==> r@.wf(),
    ensures
        match event {
            CommitterEvent::Cancelled => verdict == CommitterVerdict::Stop && final(store)@
                == old(store)@,
            CommitterEvent::Closed => verdict == CommitterVerdict::Stop && final(store)@ == old(
                store,
            )@,
            CommitterEvent::Arrived(r) => verdict == CommitterVerdict::Continue && final(store)@
                == spec_commit(old(store)@, r@),
        },
{
    match event {
        CommitterEvent::Cancelled => CommitterVerdict::Stop,
        CommitterEvent::Closed => CommitterVerdict::Stop,
        CommitterEvent::Arrived(record) => {
            match commit_record(store, &record) {
                Ok(()) => CommitterVerdict::Continue,
                Err(_) => CommitterVerdict::Stop,
            }
        },
    }
}

/// Round trip: a vote saved under its signature is found again, equal.
pub proof fn lemma_save_then_find_vote(m: StoreModel, v: VoteView)
    requires
        v.wf(),
    ensures
        spec_find_vote(spec_save_vote(m, v), v.signature) == Some(v),
{
    lemma_vote_roundtrip(v);
}

/// Round trip: a transfer saved under its signature is found again, equal.
pub proof fn lemma_save_then_find_transfer(m: StoreModel, t: TransferView)
    requires
        t.wf(),
    ensures
        spec_find_transfer(spec_save_transfer(m, t), t.signature) == Some(t),
{
    lemma_transfer_roundtrip(t);
}

/// An empty store has no watermark.
pub proof fn lemma_empty_watermark()
    ensures
        spec_watermark(spec_empty_store()) is None,
{
}

/// Committing a record leaves the watermark present and equal to the
/// maximum of the old watermark, if any, and the record's block height;
/// in particular a first commit sets it, height zero included, and the
/// watermark never decreases.
pub proof fn lemma_commit_watermark(m: StoreModel, r: RecordView)
    ensures
        spec_watermark(spec_commit(m, r)) == (match spec_watermark(m) {
            None => Some(r.block_index()),
            Some(w) => if r.block_index() > w {
                Some(r.block_index())
            } else {
                Some(w)
            },
        }),
        watermark_or_zero(spec_commit(m, r)) >= watermark_or_zero(m),
{
    let b = r.block_index();
    if spec_watermark(m) is None || b > watermark_or_zero(m) {
        lemma_u64_be_roundtrip(b);
        assert(u64_be_bytes(b).len() == 8);
    }
}

/// Kind isolation: saving a vote leaves every transfer row and transfer
/// index entry as it was, so transfer queries cannot observe it.
pub proof fn lemma_save_vote_isolated(m: StoreModel, v: VoteView)
    ensures
        spec_save_vote(m, v).transfers == m.transfers,
        spec_save_vote(m, v).transfer_index == m.transfer_index,
        spec_all_transfers(spec_save_vote(m, v)) == spec_all_transfers(m),
{
    assert(spec_all_transfers(spec_save_vote(m, v)) =~= spec_all_transfers(m));
}

/// Kind isolation: saving a transfer leaves every vote row and vote index
/// entry as it was, so vote queries cannot observe it.
pub proof fn lemma_save_transfer_isolated(m: StoreModel, t: TransferView)
    ensures
        spec_save_transfer(m, t).votes == m.votes,
        spec_save_transfer(m, t).vote_index == m.vote_index,
        spec_all_votes(spec_save_transfer(m, t)) == spec_all_votes(m),
{
    assert(spec_all_votes(spec_save_transfer(m, t)) =~= spec_all_votes(m));
}

/// Kind isolation: a vote and a transfer sharing one signature populate
/// both namespaces independently, and each is found under its own kind.
pub proof fn lemma_shared_signature_isolated(m: StoreModel, v: VoteView, t: TransferView)
    requires
        v.wf(),
        t.wf(),
        v.signature == t.signature,
    ensures
        spec_find_vote(spec_save_transfer(spec_save_vote(m, v), t), v.signature) == Some(v),
        spec_find_transfer(spec_save_transfer(spec_save_vote(m, v), t), t.signature) == Some(t),
{
    lemma_save_then_find_vote(m, v);
    lemma_save_transfer_isolated(spec_save_vote(m, v), t);
    lemma_save_then_find_transfer(spec_save_vote(m, v), t);
}

/// Index completeness: a saved vote is resolved by the indexed scan for
/// its block height.
pub proof fn lemma_vote_index_complete(m: StoreModel, v: VoteView)
    requires
        v.wf(),
    ensures
        spec_votes_at_block(spec_save_vote(m, v), v.block_index).contains(v),
{
    let m1 = spec_save_vote(m, v);
    let k = tagged_num_key(TAG_BLOCK, v.block_index, v.signature);
    assert(k.len() == 73 && tagged_addr_key(TAG_TO, v.target, v.signature).len() == 97
        && tagged_addr_key(TAG_FROM, v.author, v.signature).len() == 97);
    assert(tagged_addr_key(TAG_TO, v.target, v.signature)[0] == TAG_TO
        && tagged_addr_key(TAG_FROM, v.author, v.signature)[0] == TAG_FROM);
    assert(m1.vote_index.contains_key(k) && m1.vote_index[k] == v.signature);
    assert(block_scan_prefix(v.block_index).is_prefix_of(k)) by {
        assert(k.take(9) =~= block_scan_prefix(v.block_index));
    }
    lemma_save_then_find_vote(m, v);
}

/// Index completeness: a saved transfer is resolved by the indexed scan
/// for its block height.
pub proof fn lemma_transfer_index_complete(m: StoreModel, t: TransferView)
    requires
        t.wf(),
    ensures
        spec_transfers_at_block(spec_save_transfer(m, t), t.block_index).contains(t),
{
    let m1 = spec_save_transfer(m, t);
    let k = tagged_num_key(TAG_BLOCK, t.block_index, t.signature);
    assert(k.len() == 73 && tagged_addr_key(TAG_TO, t.destination, t.signature).len() == 97
        && tagged_addr_key(TAG_FROM, t.source, t.signature).len() == 97 && tagged_num_key(
        TAG_AMOUNT,
        t.lamports,
        t.signature,
    )[0] == TAG_AMOUNT);
    assert(tagged_addr_key(TAG_TO, t.destination, t.signature)[0] == TAG_TO
        && tagged_addr_key(TAG_FROM, t.source, t.signature)[0] == TAG_FROM && tagged_num_key(
        TAG_BLOCK,
        t.block_index,
        t.signature,
    )[0] == TAG_BLOCK);
    assert(m1.transfer_index.contains_key(k) && m1.transfer_index[k] == t.signature);
    assert(block_scan_prefix(t.block_index).is_prefix_of(k)) by {
        assert(k.take(9) =~= block_scan_prefix(t.block_index));
    }
    lemma_save_then_find_transfer(m, t);
}

/// Idempotence: saving the same vote twice leaves the store exactly as
/// saving it once does, with one primary row and one set of index
/// entries.
pub proof fn lemma_save_vote_idempotent(m: StoreModel, v: VoteView)
    requires
        v.wf(),
    ensures
        spec_save_vote(spec_save_vote(m, v), v) == spec_save_vote(m, v),
{
    let m1 = spec_save_vote(m, v);
    let m2 = spec_save_vote(m1, v);
    lemma_commit_watermark(m, RecordView::Vote(v));
    assert(m2.meta =~= m1.meta);
    assert(m2.votes =~= m1.votes);
    assert(m2.vote_index =~= m1.vote_index);
    assert(m2 == m1);
}

/// Idempotence: saving the same transfer twice leaves the store exactly
/// as saving it once does.
pub proof fn lemma_save_transfer_idempotent(m: StoreModel, t: TransferView)
    requires
        t.wf(),
    ensures
        spec_save_transfer(spec_save_transfer(m, t), t) == spec_save_transfer(m, t),
{
    let m1 = spec_save_transfer(m, t);
    let m2 = spec_save_transfer(m1, t);
    lemma_commit_watermark(m, RecordView::Transfer(t));
    assert(m2.meta =~= m1.meta);
    assert(m2.transfers =~= m1.transfers);
    assert(m2.transfer_index =~= m1.transfer_index);
    assert(m2 == m1);
}

} // verus!
