//! The two record kinds the pipeline extracts and stores, and their
//! fixed-width byte encodings.

use vstd::prelude::*;

use crate::codec::{
    copy_range, push_bytes, push_u64_be, read_u64_be, u64_be_bytes, u64_from_be,
    lemma_u64_be_roundtrip, bytes_eq,
};

verus! {

/// Length in bytes of a transaction signature.
pub const SIGNATURE_LEN: usize = 64;

/// Length in bytes of an account address.
pub const ADDRESS_LEN: usize = 32;

/// A stake-vote instruction, keyed by the signature of the transaction
/// that carried it.
#[derive(Clone, Debug)]
pub struct Vote {
    /// The transaction signature: the primary key.
    pub signature: Vec<u8>,
    /// The height of the block the transaction sat in.
    pub block_index: u64,
    /// When the block was produced, in unix seconds.
    pub timestamp: u64,
    /// The vote authority that signed the vote.
    pub author: Vec<u8>,
    /// The vote account voted upon.
    pub target: Vec<u8>,
}

/// A value-transfer instruction, keyed like a vote.
#[derive(Clone, Debug)]
pub struct Transfer {
    /// The transaction signature: the primary key.
    pub signature: Vec<u8>,
    /// The height of the block the transaction sat in.
    pub block_index: u64,
    /// When the block was produced, in unix seconds.
    pub timestamp: u64,
    /// The account the value left.
    pub source: Vec<u8>,
    /// The account the value reached.
    pub destination: Vec<u8>,
    /// How much value moved, in the smallest unit.
    pub lamports: u64,
}

/// What is gotten from the network and handed to the store.
#[derive(Clone, Debug)]
pub enum Record {
    Vote(Vote),
    Transfer(Transfer),
}

/// The mathematical shape of a vote: plain sequences and integers.
pub struct VoteView {
    pub signature: Seq<u8>,
    pub block_index: u64,
    pub timestamp: u64,
    pub author: Seq<u8>,
    pub target: Seq<u8>,
}

/// The mathematical shape of a transfer.
pub struct TransferView {
    pub signature: Seq<u8>,
    pub block_index: u64,
    pub timestamp: u64,
    pub source: Seq<u8>,
    pub destination: Seq<u8>,
    pub lamports: u64,
}

/// The mathematical shape of a record.
pub enum RecordView {
    Vote(VoteView),
    Transfer(TransferView),
}

impl View for Vote {
    type V = VoteView;

    open spec fn view(&self) -> VoteView {
        VoteView {
            signature: self.signature@,
            block_index: self.block_index,
            timestamp: self.timestamp,
            author: self.author@,
            target: self.target@,
        }
    }
}

impl View for Transfer {
    type V = TransferView;

    open spec fn view(&self) -> TransferView {
        TransferView {
            signature: self.signature@,
            block_index: self.block_index,
            timestamp: self.timestamp,
            source: self.source@,
            destination: self.destination@,
            lamports: self.lamports,
        }
    }
}

impl View for Record {
    type V = RecordView;

    open spec fn view(&self) -> RecordView {
        match self {
            Record::Vote(v) => RecordView::Vote(v@),
            Record::Transfer(t) => RecordView::Transfer(t@),
        }
    }
}

impl VoteView {
    /// A vote is well-formed when its identifiers have their fixed sizes.
    pub open spec fn wf(self) -> bool {
        self.signature.len() == SIGNATURE_LEN && self.author.len() == ADDRESS_LEN
            && self.target.len() == ADDRESS_LEN
    }
}

impl TransferView {
    /// A transfer is well-formed when its identifiers have their fixed sizes.
    pub open spec fn wf(self) -> bool {
        self.signature.len() == SIGNATURE_LEN && self.source.len() == ADDRESS_LEN
            && self.destination.len() == ADDRESS_LEN
    }
}

impl RecordView {
    /// A record is well-formed when the record it carries is.
    pub open spec fn wf(self) -> bool {
        match self {
            RecordView::Vote(v) => v.wf(),
            RecordView::Transfer(t) => t.wf(),
        }
    }

    /// The signature of the record it carries.
    pub open spec fn signature(self) -> Seq<u8> {
        match self {
            RecordView::Vote(v) => v.signature,
            RecordView::Transfer(t) => t.signature,
        }
    }

    /// The block height of the record it carries.
    pub open spec fn block_index(self) -> u64 {
        match self {
            RecordView::Vote(v) => v.block_index,
            RecordView::Transfer(t) => t.block_index,
        }
    }
}

impl Vote {
    /// True when the identifiers have their fixed sizes, so that the vote
    /// can be encoded and indexed.
    pub fn is_well_formed(&self) -> (r: bool)
        ensures
            r == self@.wf(),
    {
        self.signature.len() == SIGNATURE_LEN && self.author.len() == ADDRESS_LEN
            && self.target.len() == ADDRESS_LEN
    }
}

impl Transfer {
    /// True when the identifiers have their fixed sizes, so that the
    /// transfer can be encoded and indexed.
    pub fn is_well_formed(&self) -> (r: bool)
        ensures
            r == self@.wf(),
    {
        self.signature.len() == SIGNATURE_LEN && self.source.len() == ADDRESS_LEN
            && self.destination.len() == ADDRESS_LEN
    }
}

impl Record {
    /// True when the record it carries is well-formed.
    pub fn is_well_formed(&self) -> (r: bool)
        ensures
            r == self@.wf(),
    {
        match self {
            Record::Vote(v) => v.is_well_formed(),
            Record::Transfer(t) => t.is_well_formed(),
        }
    }
}

impl Vote {
    /// A fresh vote holding the same values, for handing out of a query.
    pub fn duplicate(&self) -> (r: Vote)
        ensures
            r@ == self@,
    {
        let r = Vote {
            signature: copy_range(&self.signature, 0, self.signature.len()),
            block_index: self.block_index,
            timestamp: self.timestamp,
            author: copy_range(&self.author, 0, self.author.len()),
            target: copy_range(&self.target, 0, self.target.len()),
        };
        assert(r.signature@ =~= self.signature@);
        assert(r.author@ =~= self.author@);
        assert(r.target@ =~= self.target@);
        r
    }
}

impl Transfer {
    /// A fresh transfer holding the same values, for handing out of a
    /// query.
    pub fn duplicate(&self) -> (r: Transfer)
        ensures
            r@ == self@,
    {
        let r = Transfer {
            signature: copy_range(&self.signature, 0, self.signature.len()),
            block_index: self.block_index,
            timestamp: self.timestamp,
            source: copy_range(&self.source, 0, self.source.len()),
            destination: copy_range(&self.destination, 0, self.destination.len()),
            lamports: self.lamports,
        };
        assert(r.signature@ =~= self.signature@);
        assert(r.source@ =~= self.source@);
        assert(r.destination@ =~= self.destination@);
        r
    }
}

impl PartialEq for Vote {
    fn eq(&self, other: &Vote) -> (r: bool) {
        bytes_eq(&self.signature, &other.signature) && self.block_index == other.block_index
            && self.timestamp == other.timestamp && bytes_eq(&self.author, &other.author)
            && bytes_eq(&self.target, &other.target)
    }
}

impl vstd::std_specs::cmp::PartialEqSpecImpl for Vote {
    open spec fn obeys_eq_spec() -> bool {
        true
    }

    open spec fn eq_spec(&self, other: &Vote) -> bool {
        self@ == other@
    }
}

impl PartialEq for Transfer {
    fn eq(&self, other: &Transfer) -> (r: bool) {
        bytes_eq(&self.signature, &other.signature) && self.block_index == other.block_index
            && self.timestamp == other.timestamp && bytes_eq(&self.source, &other.source)
            && bytes_eq(&self.destination, &other.destination) && self.lamports == other.lamports
    }
}

impl vstd::std_specs::cmp::PartialEqSpecImpl for Transfer {
    open spec fn obeys_eq_spec() -> bool {
        true
    }

    open spec fn eq_spec(&self, other: &Transfer) -> bool {
        self@ == other@
    }
}

/// Byte length of an encoded vote row.
pub const VOTE_ROW_LEN: usize = 144;

/// Byte length of an encoded transfer row.
pub const TRANSFER_ROW_LEN: usize = 152;

/// The bytes a vote is stored under its signature as: each field at a
/// fixed offset, integers big-endian.
pub open spec fn vote_bytes(v: VoteView) -> Seq<u8> {
    v.signature + u64_be_bytes(v.block_index) + u64_be_bytes(v.timestamp) + v.author + v.target
}

/// The vote read back from a stored row, or nothing when the row has the
/// wrong length.
pub open spec fn vote_of_bytes(s: Seq<u8>) -> Option<VoteView> {
    if s.len() == VOTE_ROW_LEN {
        Some(
            VoteView {
                signature: s.subrange(0, 64),
                block_index: u64_from_be(s.subrange(64, 72)),
                timestamp: u64_from_be(s.subrange(72, 80)),
                author: s.subrange(80, 112),
                target: s.subrange(112, 144),
            },
        )
    } else {
        None
    }
}

/// The bytes a transfer is stored under its signature as.
pub open spec fn transfer_bytes(t: TransferView) -> Seq<u8> {
    t.signature + u64_be_bytes(t.block_index) + u64_be_bytes(t.timestamp) + t.source
        + t.destination + u64_be_bytes(t.lamports)
}

/// The transfer read back from a stored row, or nothing when the row has
/// the wrong length.
pub open spec fn transfer_of_bytes(s: Seq<u8>) -> Option<TransferView> {
    if s.len() == TRANSFER_ROW_LEN {
        Some(
            TransferView {
                signature: s.subrange(0, 64),
                block_index: u64_from_be(s.subrange(64, 72)),
                timestamp: u64_from_be(s.subrange(72, 80)),
                source: s.subrange(80, 112),
                destination: s.subrange(112, 144),
                lamports: u64_from_be(s.subrange(144, 152)),
            },
        )
    } else {
        None
    }
}

/// Encoding a well-formed vote and decoding the bytes yields the vote.
pub proof fn lemma_vote_roundtrip(v: VoteView)
    requires
        v.wf(),
    ensures
        vote_of_bytes(vote_bytes(v)) == Some(v),
{
    let s = vote_bytes(v);
    assert(s.len() == VOTE_ROW_LEN);
    assert(s.subrange(0, 64) =~= v.signature);
    assert(s.subrange(64, 72) =~= u64_be_bytes(v.block_index));
    assert(s.subrange(72, 80) =~= u64_be_bytes(v.timestamp));
    assert(s.subrange(80, 112) =~= v.author);
    assert(s.subrange(112, 144) =~= v.target);
    lemma_u64_be_roundtrip(v.block_index);
    lemma_u64_be_roundtrip(v.timestamp);
}

/// Encoding a well-formed transfer and decoding the bytes yields the
/// transfer.
pub proof fn lemma_transfer_roundtrip(t: TransferView)
    requires
        t.wf(),
    ensures
        transfer_of_bytes(transfer_bytes(t)) == Some(t),
{
    let s = transfer_bytes(t);
    assert(s.len() == TRANSFER_ROW_LEN);
    assert(s.subrange(0, 64) =~= t.signature);
    assert(s.subrange(64, 72) =~= u64_be_bytes(t.block_index));
    assert(s.subrange(72, 80) =~= u64_be_bytes(t.timestamp));
    assert(s.subrange(80, 112) =~= t.source);
    assert(s.subrange(112, 144) =~= t.destination);
    assert(s.subrange(144, 152) =~= u64_be_bytes(t.lamports));
    lemma_u64_be_roundtrip(t.block_index);
    lemma_u64_be_roundtrip(t.timestamp);
    lemma_u64_be_roundtrip(t.lamports);
}

/// Writes a vote down as its stored row.
pub fn encode_vote(v: &Vote) -> (r: Vec<u8>)
    requires
        v@.wf(),
    ensures
        r@ == vote_bytes(v@),
{
    let mut out: Vec<u8> = Vec::new();
    push_bytes(&mut out, &v.signature);
    push_u64_be(&mut out, v.block_index);
    push_u64_be(&mut out, v.timestamp);
    push_bytes(&mut out, &v.author);
    push_bytes(&mut out, &v.target);
    out
}

/// Writes a transfer down as its stored row.
pub fn encode_transfer(t: &Transfer) -> (r: Vec<u8>)
    requires
        t@.wf(),
    ensures
        r@ == transfer_bytes(t@),
{
    let mut out: Vec<u8> = Vec::new();
    push_bytes(&mut out, &t.signature);
    push_u64_be(&mut out, t.block_index);
    push_u64_be(&mut out, t.timestamp);
    push_bytes(&mut out, &t.source);
    push_bytes(&mut out, &t.destination);
    push_u64_be(&mut out, t.lamports);
    out
}

/// Reads a vote back from a stored row; corrupt bytes yield nothing.
pub fn decode_vote(bytes: &Vec<u8>) -> (r: Option<Vote>)
    ensures
        match vote_of_bytes(bytes@) {
            Some(w) => r matches Some(v) && v@ == w && v@.wf(),
            None => r is None,
        },
{
    if bytes.len() != VOTE_ROW_LEN {
        return None;
    }
    let vote = Vote {
        signature: copy_range(bytes, 0, 64),
        block_index: read_u64_be(bytes, 64),
        timestamp: read_u64_be(bytes, 72),
        author: copy_range(bytes, 80, 112),
        target: copy_range(bytes, 112, 144),
    };
    Some(vote)
}

/// Reads a transfer back from a stored row; corrupt bytes yield nothing.
pub fn decode_transfer(bytes: &Vec<u8>) -> (r: Option<Transfer>)
    ensures
        match transfer_of_bytes(bytes@) {
            Some(w) => r matches Some(t) && t@ == w && t@.wf(),
            None => r is None,
        },
{
    if bytes.len() != TRANSFER_ROW_LEN {
        return None;
    }
    let transfer = Transfer {
        signature: copy_range(bytes, 0, 64),
        block_index: read_u64_be(bytes, 64),
        timestamp: read_u64_be(bytes, 72),
        source: copy_range(bytes, 80, 112),
        destination: copy_range(bytes, 112, 144),
        lamports: read_u64_be(bytes, 144),
    };
    Some(transfer)
}

} // verus!
