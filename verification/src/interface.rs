//! What a caller of the read interface can ask, and how a query picks
//! its resolution path: a signature alone is a point lookup, a block
//! height alone an indexed lookup, and any other combination a full scan
//! with every supplied filter applied as a logical AND.

use vstd::prelude::*;

use crate::codec::bytes_eq;
use crate::extraction::{parse_pubkey, parse_signature, pubkey_of, sig_of};
use crate::finding_transfers::{
    find_transfers_with_block_index, find_transfers_with_full_scan, find_transfers_with_signature,
    spec_transfers_with_block, transfer_keep,
};
use crate::finding_votes::{
    find_votes_with_block_index, find_votes_with_full_scan, find_votes_with_signature, vote_keep,
    spec_votes_with_block,
};
use crate::record::{Transfer, TransferView, Vote, VoteView};
use crate::result::Error;
use crate::store::{
    spec_all_transfers, spec_all_votes, spec_find_transfer, spec_find_vote, transfer_listed,
    vote_listed, Store,
};

verus! {

/// What a caller can filter by using the query string.
pub struct Criteria {
    /// Keep only records of this block height.
    pub block: Option<u64>,
    /// Keep only the record with this signature.
    pub signature: Option<String>,
    /// Keep only records reaching this address.
    pub to: Option<String>,
    /// Keep only records originating from this address.
    pub from: Option<String>,
}

/// True when the address filter, if supplied, holds a parseable address.
pub open spec fn addr_filter_ok(o: Option<String>) -> bool {
    o matches Some(s) ==> pubkey_of(s@) is Some
}

/// The bytes an address filter denotes: nothing when no filter was
/// supplied.
pub open spec fn addr_filter_bytes(o: Option<String>) -> Option<Seq<u8>> {
    match o {
        None => None,
        Some(s) => pubkey_of(s@),
    }
}

/// True when the signature filter, if supplied, holds a parseable
/// signature.
pub open spec fn sig_filter_ok(o: Option<String>) -> bool {
    o matches Some(s) ==> sig_of(s@) is Some
}

/// The bytes a signature filter denotes: nothing when no filter was
/// supplied.
pub open spec fn sig_filter_bytes(o: Option<String>) -> Option<Seq<u8>> {
    match o {
        None => None,
        Some(s) => sig_of(s@),
    }
}

/// True when a vote passes every filter of the criteria at once.
pub open spec fn vote_criteria_keep(v: VoteView, c: Criteria) -> bool {
    &&& vote_keep(v, c.block, addr_filter_bytes(c.to), addr_filter_bytes(c.from))
    &&& (sig_filter_bytes(c.signature) matches Some(sb) ==> v.signature == sb)
}

/// True when a transfer passes every filter of the criteria at once.
pub open spec fn transfer_criteria_keep(t: TransferView, c: Criteria) -> bool {
    &&& transfer_keep(t, c.block, addr_filter_bytes(c.to), addr_filter_bytes(c.from))
    &&& (sig_filter_bytes(c.signature) matches Some(sb) ==> t.signature == sb)
}

/// Answers a vote query: a signature alone is a point lookup that is
/// owed an answer or not-found; a block alone goes through the index;
/// any other combination is a full scan under all supplied filters, with
/// an unparseable filter rejected as the caller's fault.
pub fn get_votes(store: &Store, filters: &Criteria) -> (r: Result<Vec<Vote>, Error>)
    ensures
        match (filters.signature, filters.block, filters.to, filters.from) {
            (Some(s), None, None, None) => match sig_of(s@) {
                None => r == Err::<Vec<Vote>, Error>(Error::SolanaBadSignature),
                Some(sb) => match spec_find_vote(store@, sb) {
                    None => r == Err::<Vec<Vote>, Error>(Error::NotFound),
                    Some(w) => r matches Ok(vs) && vs@.len() == 1 && vs@[0]@ == w,
                },
            },
            (None, Some(b), None, None) => r matches Ok(vs) && {
                &&& forall|a: int|
                    0 <= a < vs@.len() ==> spec_votes_with_block(store@, b).contains(
                        #[trigger] vs@[a]@,
                    )
                &&& forall|v: VoteView|
                    spec_votes_with_block(store@, b).contains(v) ==> vote_listed(vs@, v)
                &&& (crate::store::votes_keyed_by_signature(store@)
                    && crate::store::vote_index_keyed(store@)) ==> forall|a: int, b2: int|
                    0 <= a < b2 < vs@.len() ==> #[trigger] vs@[a]@ != #[trigger] vs@[b2]@
            },
            _ => {
                if !addr_filter_ok(filters.to) {
                    r == Err::<Vec<Vote>, Error>(Error::SolanaBadPubkey)
                } else if !addr_filter_ok(filters.from) {
                    r == Err::<Vec<Vote>, Error>(Error::SolanaBadPubkey)
                } else if !sig_filter_ok(filters.signature) {
                    r == Err::<Vec<Vote>, Error>(Error::SolanaBadSignature)
                } else {
                    r matches Ok(vs) && {
                        &&& forall|a: int|
                            0 <= a < vs@.len() ==> spec_all_votes(store@).contains(
                                #[trigger] vs@[a]@,
                            ) && vote_criteria_keep(vs@[a]@, *filters)
                        &&& forall|v: VoteView|
                            spec_all_votes(store@).contains(v) && vote_criteria_keep(v, *filters)
                                ==> vote_listed(vs@, v)
                        &&& crate::store::votes_keyed_by_signature(store@) ==> forall|
                            a: int,
                            b: int,
                        |
                            0 <= a < b < vs@.len() ==> #[trigger] vs@[a]@ != #[trigger] vs@[b]@
                    }
                }
            },
        },
{
    match (&filters.signature, &filters.block, &filters.to, &filters.from) {
        (Some(signature), None, None, None) => find_votes_with_signature(
            store,
            signature.as_str(),
        ),
        (None, Some(block), None, None) => find_votes_with_block_index(store, *block),
        _ => {
            let to = match &filters.to {
                Some(s) => match parse_pubkey(s.as_str()) {
                    Ok(b) => Some(b),
                    Err(e) => {
                        return Err(e);
                    },
                },
                None => None,
            };
            let from = match &filters.from {
                Some(s) => match parse_pubkey(s.as_str()) {
                    Ok(b) => Some(b),
                    Err(e) => {
                        return Err(e);
                    },
                },
                None => None,
            };
            let signature = match &filters.signature {
                Some(s) => match parse_signature(s.as_str()) {
                    Ok(b) => Some(b),
                    Err(e) => {
                        return Err(e);
                    },
                },
                None => None,
            };
            assert(crate::finding_votes::opt_bytes(to) == addr_filter_bytes(filters.to));
            assert(crate::finding_votes::opt_bytes(from) == addr_filter_bytes(filters.from));
            let scanned = match find_votes_with_full_scan(store, filters.block, to, from) {
                Ok(scanned) => scanned,
                Err(e) => {
                    return Err(e);
                },
            };
            match &signature {
                None => Ok(scanned),
                Some(sb) => {
                    assert(sig_filter_bytes(filters.signature) == Some(sb@));
                    let ghost keyed = crate::store::votes_keyed_by_signature(store@);
                    let n = scanned.len();
                    let mut out: Vec<Vote> = Vec::new();
                    let mut i: usize = 0;
                    while i < n
                        invariant
                            0 <= i <= n,
                            scanned@.len() == n,
                            sig_filter_bytes(filters.signature) == Some(sb@),
                            keyed == crate::store::votes_keyed_by_signature(store@),
                            forall|a: int|
                                0 <= a < n ==> spec_all_votes(store@).contains(
                                    #[trigger] scanned@[a]@,
                                ) && vote_keep(
                                    scanned@[a]@,
                                    filters.block,
                                    addr_filter_bytes(filters.to),
                                    addr_filter_bytes(filters.from),
                                ),
                            keyed ==> forall|a: int, b: int|
                                0 <= a < b < n ==> #[trigger] scanned@[a]@ != #[trigger] scanned@[b]@,
                            forall|a: int|
                                0 <= a < out@.len() ==> spec_all_votes(store@).contains(
                                    #[trigger] out@[a]@,
                                ) && vote_criteria_keep(out@[a]@, *filters),
                            forall|a: int|
                                0 <= a < i ==> (scanned@[a]@.signature == sb@ ==> vote_listed(
                                    out@,
                                    #[trigger] scanned@[a]@,
                                )),
                            keyed ==> forall|a: int|
                                0 <= a < out@.len() ==> exists|j: int|
                                    0 <= j < i && #[trigger] out@[a]@ == scanned@[j]@,
                            keyed ==> forall|a: int, b: int|
                                0 <= a < b < out@.len() ==> #[trigger] out@[a]@ != #[trigger] out@[b]@,
                        decreases n - i,
                    {
                        let ghost out0 = out@;
                        if bytes_eq(&scanned[i].signature, sb) {
                            let v = scanned[i].duplicate();
                            assert(v@ == scanned@[i as int]@);
                            proof {
                                if keyed {
                                    assert forall|a: int| 0 <= a < out0.len() implies
                                        #[trigger] out0[a]@ != v@ by {
                                        let j = choose|j: int|
                                            0 <= j < i && out0[a]@ == scanned@[j]@;
                                        assert(scanned@[j]@ != scanned@[i as int]@);
                                    }
                                }
                            }
                            out.push(v);
                            proof {
                                assert(out@ == out0.push(v));
                                crate::store::lemma_vote_listed_push(out0, v);
                            }
                        }
                        i = i + 1;
                    }
                    proof {
                        assert forall|v: VoteView|
                            spec_all_votes(store@).contains(v) && vote_criteria_keep(
                                v,
                                *filters,
                            ) implies vote_listed(out@, v) by {
                            assert(vote_listed(scanned@, v));
                            let a = choose|a: int|
                                0 <= a < scanned@.len() && scanned@[a]@ == v;
                            assert(vote_listed(out@, scanned@[a]@));
                        }
                    }
                    Ok(out)
                },
            }
        },
    }
}

/// Answers a transfer query, resolving the filters the same way a vote
/// query does.
pub fn get_transfers(store: &Store, filters: &Criteria) -> (r: Result<Vec<Transfer>, Error>)
    ensures
        match (filters.signature, filters.block, filters.to, filters.from) {
            (Some(s), None, None, None) => match sig_of(s@) {
                None => r == Err::<Vec<Transfer>, Error>(Error::SolanaBadSignature),
                Some(sb) => match spec_find_transfer(store@, sb) {
                    None => r == Err::<Vec<Transfer>, Error>(Error::NotFound),
                    Some(w) => r matches Ok(ts) && ts@.len() == 1 && ts@[0]@ == w,
                },
            },
            (None, Some(b), None, None) => r matches Ok(ts) && {
                &&& forall|a: int|
                    0 <= a < ts@.len() ==> spec_transfers_with_block(store@, b).contains(
                        #[trigger] ts@[a]@,
                    )
                &&& forall|t: TransferView|
                    spec_transfers_with_block(store@, b).contains(t) ==> transfer_listed(ts@, t)
                &&& (crate::store::transfers_keyed_by_signature(store@)
                    && crate::store::transfer_index_keyed(store@)) ==> forall|a: int, b2: int|
                    0 <= a < b2 < ts@.len() ==> #[trigger] ts@[a]@ != #[trigger] ts@[b2]@
            },
            _ => {
                if !addr_filter_ok(filters.to) {
                    r == Err::<Vec<Transfer>, Error>(Error::SolanaBadPubkey)
                } else if !addr_filter_ok(filters.from) {
                    r == Err::<Vec<Transfer>, Error>(Error::SolanaBadPubkey)
                } else if !sig_filter_ok(filters.signature) {
                    r == Err::<Vec<Transfer>, Error>(Error::SolanaBadSignature)
                } else {
                    r matches Ok(ts) && {
                        &&& forall|a: int|
                            0 <= a < ts@.len() ==> spec_all_transfers(store@).contains(
                                #[trigger] ts@[a]@,
                            ) && transfer_criteria_keep(ts@[a]@, *filters)
                        &&& forall|t: TransferView|
                            spec_all_transfers(store@).contains(t) && transfer_criteria_keep(
                                t,
                                *filters,
                            ) ==> transfer_listed(ts@, t)
                        &&& crate::store::transfers_keyed_by_signature(store@) ==> forall|
                            a: int,
                            b: int,
                        |
                            0 <= a < b < ts@.len() ==> #[trigger] ts@[a]@ != #[trigger] ts@[b]@
                    }
                }
            },
        },
{
    match (&filters.signature, &filters.block, &filters.to, &filters.from) {
        (Some(signature), None, None, None) => find_transfers_with_signature(
            store,
            signature.as_str(),
        ),
        (None, Some(block), None, None) => find_transfers_with_block_index(store, *block),
        _ => {
            let to = match &filters.to {
                Some(s) => match parse_pubkey(s.as_str()) {
                    Ok(b) => Some(b),
                    Err(e) => {
                        return Err(e);
                    },
                },
                None => None,
            };
            let from = match &filters.from {
                Some(s) => match parse_pubkey(s.as_str()) {
                    Ok(b) => Some(b),
                    Err(e) => {
                        return Err(e);
                    },
                },
                None => None,
            };
            let signature = match &filters.signature {
                Some(s) => match parse_signature(s.as_str()) {
                    Ok(b) => Some(b),
                    Err(e) => {
                        return Err(e);
                    },
                },
                None => None,
            };
            assert(crate::finding_votes::opt_bytes(to) == addr_filter_bytes(filters.to));
            assert(crate::finding_votes::opt_bytes(from) == addr_filter_bytes(filters.from));
            let scanned = match find_transfers_with_full_scan(store, filters.block, to, from) {
                Ok(scanned) => scanned,
                Err(e) => {
                    return Err(e);
                },
            };
            match &signature {
                None => Ok(scanned),
                Some(sb) => {
                    assert(sig_filter_bytes(filters.signature) == Some(sb@));
                    let ghost keyed = crate::store::transfers_keyed_by_signature(store@);
                    let n = scanned.len();
                    let mut out: Vec<Transfer> = Vec::new();
                    let mut i: usize = 0;
                    while i < n
                        invariant
                            0 <= i <= n,
                            scanned@.len() == n,
                            sig_filter_bytes(filters.signature) == Some(sb@),
                            keyed == crate::store::transfers_keyed_by_signature(store@),
                            forall|a: int|
                                0 <= a < n ==> spec_all_transfers(store@).contains(
                                    #[trigger] scanned@[a]@,
                                ) && transfer_keep(
                                    scanned@[a]@,
                                    filters.block,
                                    addr_filter_bytes(filters.to),
                                    addr_filter_bytes(filters.from),
                                ),
                            keyed ==> forall|a: int, b: int|
                                0 <= a < b < n ==> #[trigger] scanned@[a]@ != #[trigger] scanned@[b]@,
                            forall|a: int|
                                0 <= a < out@.len() ==> spec_all_transfers(store@).contains(
                                    #[trigger] out@[a]@,
                                ) && transfer_criteria_keep(out@[a]@, *filters),
                            forall|a: int|
                                0 <= a < i ==> (scanned@[a]@.signature == sb@
                                    ==> transfer_listed(out@, #[trigger] scanned@[a]@)),
                            keyed ==> forall|a: int|
                                0 <= a < out@.len() ==> exists|j: int|
                                    0 <= j < i && #[trigger] out@[a]@ == scanned@[j]@,
                            keyed ==> forall|a: int, b: int|
                                0 <= a < b < out@.len() ==> #[trigger] out@[a]@ != #[trigger] out@[b]@,
                        decreases n - i,
                    {
                        let ghost out0 = out@;
                        if bytes_eq(&scanned[i].signature, sb) {
                            let t = scanned[i].duplicate();
                            assert(t@ == scanned@[i as int]@);
                            proof {
                                if keyed {
                                    assert forall|a: int| 0 <= a < out0.len() implies
                                        #[trigger] out0[a]@ != t@ by {
                                        let j = choose|j: int|
                                            0 <= j < i && out0[a]@ == scanned@[j]@;
                                        assert(scanned@[j]@ != scanned@[i as int]@);
                                    }
                                }
                            }
                            out.push(t);
                            proof {
                                assert(out@ == out0.push(t));
                                crate::store::lemma_transfer_listed_push(out0, t);
                            }
                        }
                        i = i + 1;
                    }
                    proof {
                        assert forall|t: TransferView|
                            spec_all_transfers(store@).contains(t) && transfer_criteria_keep(
                                t,
                                *filters,
                            ) implies transfer_listed(out@, t) by {
                            assert(transfer_listed(scanned@, t));
                            let a = choose|a: int|
                                0 <= a < scanned@.len() && scanned@[a]@ == t;
                            assert(transfer_listed(out@, scanned@[a]@));
                        }
                    }
                    Ok(out)
                },
            }
        },
    }
}

} // verus!
