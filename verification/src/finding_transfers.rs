//! Bridge between the store and the read interface, for transfers: the
//! three resolution paths a transfer query can take.

use vstd::prelude::*;

use crate::codec::bytes_eq;
use crate::extraction::{parse_signature, sig_of};
use crate::record::{Transfer, TransferView};
use crate::result::Error;
use crate::store::{
    spec_all_transfers, spec_find_transfer, spec_transfers_at_block, transfer_listed, Store,
    StoreModel,
};

verus! {

/// The transfers an indexed block query answers with: whatever the index
/// resolves for the height, kept only when the record really carries it.
pub open spec fn spec_transfers_with_block(m: StoreModel, block: u64) -> Set<TransferView> {
    Set::new(
        |t: TransferView| spec_transfers_at_block(m, block).contains(t) && t.block_index == block,
    )
}

/// Answers a transfer query that filters by block height alone: the
/// indexed scan, with any record whose height differs filtered out.
pub fn find_transfers_with_block_index(store: &Store, block_index: u64) -> (r: Result<
    Vec<Transfer>,
    Error,
>)
    ensures
        r matches Ok(ts) && {
            &&& forall|a: int|
                0 <= a < ts@.len() ==> spec_transfers_with_block(store@, block_index).contains(
                    #[trigger] ts@[a]@,
                )
            &&& forall|t: TransferView|
                spec_transfers_with_block(store@, block_index).contains(t) ==> transfer_listed(
                    ts@,
                    t,
                )
            &&& (crate::store::transfers_keyed_by_signature(store@)
                && crate::store::transfer_index_keyed(store@)) ==> forall|a: int, b: int|
                0 <= a < b < ts@.len() ==> #[trigger] ts@[a]@ != #[trigger] ts@[b]@
        },
{
    let ghost keyed = crate::store::transfers_keyed_by_signature(store@)
        && crate::store::transfer_index_keyed(store@);
    let all = match store.find_transfers_by_block_index(block_index) {
        Ok(all) => all,
        Err(e) => {
            return Err(e);
        },
    };
    let n = all.len();
    let mut out: Vec<Transfer> = Vec::new();
    let mut i: usize = 0;
    while i < n
        invariant
            0 <= i <= n,
            all@.len() == n,
            keyed == (crate::store::transfers_keyed_by_signature(store@)
                && crate::store::transfer_index_keyed(store@)),
            forall|a: int|
                0 <= a < n ==> spec_transfers_at_block(store@, block_index).contains(
                    #[trigger] all@[a]@,
                ),
            keyed ==> forall|a: int, b: int|
                0 <= a < b < n ==> #[trigger] all@[a]@ != #[trigger] all@[b]@,
            forall|a: int|
                0 <= a < out@.len() ==> spec_transfers_with_block(store@, block_index).contains(
                    #[trigger] out@[a]@,
                ),
            forall|a: int|
                0 <= a < i ==> (all@[a]@.block_index == block_index ==> transfer_listed(
                    out@,
                    #[trigger] all@[a]@,
                )),
            keyed ==> forall|a: int|
                0 <= a < out@.len() ==> exists|j: int|
                    0 <= j < i && #[trigger] out@[a]@ == all@[j]@,
            keyed ==> forall|a: int, b: int|
                0 <= a < b < out@.len() ==> #[trigger] out@[a]@ != #[trigger] out@[b]@,
        decreases n - i,
    {
        let ghost out0 = out@;
        if all[i].block_index == block_index {
            let t = all[i].duplicate();
            assert(t@ == all@[i as int]@);
            proof {
                if keyed {
                    assert forall|a: int| 0 <= a < out0.len() implies #[trigger] out0[a]@
                        != t@ by {
                        let j = choose|j: int| 0 <= j < i && out0[a]@ == all@[j]@;
                        assert(all@[j]@ != all@[i as int]@);
                    }
                }
            }
            out.push(t);
            proof {
                assert(out@ == out0.push(t));
                crate::store::lemma_transfer_listed_push(out0, t);
            }
        }
        i = i + 1;
    }
    proof {
        assert forall|t: TransferView| spec_transfers_with_block(store@, block_index).contains(
            t,
        ) implies transfer_listed(out@, t) by {
            assert(spec_transfers_at_block(store@, block_index).contains(t));
            assert(transfer_listed(all@, t));
            let a = choose|a: int| 0 <= a < all@.len() && all@[a]@ == t;
            assert(all@[a]@.block_index == block_index);
            assert(transfer_listed(out@, all@[a]@));
        }
    }
    Ok(out)
}

/// Index completeness: a saved transfer is answered by the block query
/// for its own height.
pub proof fn lemma_transfers_with_block_complete(m: StoreModel, t: TransferView)
    requires
        t.wf(),
    ensures
        spec_transfers_with_block(crate::store::spec_save_transfer(m, t), t.block_index).contains(
            t,
        ),
{
    crate::store::lemma_transfer_index_complete(m, t);
}

/// Index exactness: saving a transfer adds at most that transfer to any
/// height's answer, and adds nothing at all to the answer for another
/// height.
pub proof fn lemma_transfers_with_block_no_extras(m: StoreModel, t: TransferView, block: u64)
    requires
        t.wf(),
    ensures
        spec_transfers_with_block(crate::store::spec_save_transfer(m, t), block).subset_of(
            spec_transfers_with_block(m, block).insert(t),
        ),
        t.block_index != block ==> spec_transfers_with_block(
            crate::store::spec_save_transfer(m, t),
            block,
        ).subset_of(spec_transfers_with_block(m, block)),
{
    let m1 = crate::store::spec_save_transfer(m, t);
    assert forall|w: TransferView| spec_transfers_with_block(m1, block).contains(w) implies
        spec_transfers_with_block(m, block).insert(t).contains(w) by {
        if w != t {
            let k = choose|k: Seq<u8>|
                #[trigger] m1.transfer_index.contains_key(k) && crate::store::block_scan_prefix(
                    block,
                ).is_prefix_of(k) && crate::store::spec_find_transfer(m1, m1.transfer_index[k])
                    == Some(w);
            let sigk = m1.transfer_index[k];
            assert(sigk != t.signature) by {
                crate::record::lemma_transfer_roundtrip(t);
            }
            assert(m.transfer_index.contains_key(k) && m.transfer_index[k] == sigk);
            assert(crate::store::spec_find_transfer(m, sigk) == crate::store::spec_find_transfer(
                m1,
                sigk,
            ));
            assert(spec_transfers_with_block(m, block).contains(w));
        }
    }
    if t.block_index != block {
        assert forall|w: TransferView| spec_transfers_with_block(m1, block).contains(w) implies
            spec_transfers_with_block(m, block).contains(w) by {
            assert(w.block_index == block);
            assert(w != t);
            assert(spec_transfers_with_block(m, block).insert(t).contains(w));
        }
    }
}

/// In a keyed store, saving a transfer leaves every differently-signed
/// transfer in any height's answer.
proof fn lemma_transfers_with_block_preserved(
    m: StoreModel,
    w: TransferView,
    block: u64,
    t: TransferView,
)
    requires
        w.wf(),
        crate::store::transfers_keyed_by_signature(m),
        crate::store::transfer_index_keyed(m),
        t.signature != w.signature,
        spec_transfers_with_block(m, block).contains(t),
    ensures
        spec_transfers_with_block(crate::store::spec_save_transfer(m, w), block).contains(t),
{
    let m1 = crate::store::spec_save_transfer(m, w);
    let k = choose|k: Seq<u8>|
        #[trigger] m.transfer_index.contains_key(k) && crate::store::block_scan_prefix(
            block,
        ).is_prefix_of(k) && crate::store::spec_find_transfer(m, m.transfer_index[k]) == Some(t);
    let sigt = m.transfer_index[k];
    assert(m.transfers.contains_key(sigt) && crate::record::transfer_of_bytes(m.transfers[sigt])
        == Some(t));
    assert(t.signature == sigt);
    assert(sigt == k.subrange(k.len() - 64, k.len() as int));
    let sig = w.signature;
    let k1 = crate::store::tagged_num_key(crate::store::TAG_BLOCK, w.block_index, sig);
    let k2 = crate::store::tagged_addr_key(crate::store::TAG_TO, w.destination, sig);
    let k3 = crate::store::tagged_addr_key(crate::store::TAG_FROM, w.source, sig);
    let k4 = crate::store::tagged_num_key(crate::store::TAG_AMOUNT, w.lamports, sig);
    assert(k1.subrange(9, 73) =~= sig && k2.subrange(33, 97) =~= sig && k3.subrange(33, 97)
        =~= sig && k4.subrange(9, 73) =~= sig);
    assert(k != k1 && k != k2 && k != k3 && k != k4);
    assert(m1.transfer_index.contains_key(k) && m1.transfer_index[k] == sigt);
    assert(crate::store::spec_find_transfer(m1, sigt) == Some(t));
}

/// The store after a run of transfers was saved, in order: the last
/// transfer of the run is the last one saved.
pub open spec fn spec_save_all_transfers(m: StoreModel, ts: Seq<TransferView>) -> StoreModel
    decreases ts.len(),
{
    if ts.len() == 0 {
        m
    } else {
        crate::store::spec_save_transfer(spec_save_all_transfers(m, ts.drop_last()), ts.last())
    }
}

/// The transfers of a run that carry one height.
pub open spec fn transfers_of_run_with_block(ts: Seq<TransferView>, block: u64) -> Set<
    TransferView,
> {
    Set::new(|t: TransferView| ts.contains(t) && t.block_index == block)
}

/// Index exactness over whole runs: saving any run of well-formed,
/// distinctly-signed transfers into an empty store makes the block query
/// for any height answer exactly the transfers of the run that carry it
/// — no fewer, no extras, whatever else the run holds.
pub proof fn lemma_block_query_answers_transfer_runs(ts: Seq<TransferView>, block: u64)
    requires
        forall|i: int| 0 <= i < ts.len() ==> (#[trigger] ts[i]).wf(),
        forall|i: int, j: int| 0 <= i < j < ts.len() ==> ts[i].signature != ts[j].signature,
    ensures
        spec_transfers_with_block(
            spec_save_all_transfers(crate::store::spec_empty_store(), ts),
            block,
        ) == transfers_of_run_with_block(ts, block),
{
    lemma_transfer_run_invariants(ts, ts.len() as int, block);
    assert(ts.take(ts.len() as int) =~= ts);
}

/// What holds of the store after the first `k` transfers of a run: it is
/// keyed throughout, it holds exactly those transfers' signatures, and
/// its block answer is exactly their contribution.
proof fn lemma_transfer_run_invariants(ts: Seq<TransferView>, k: int, block: u64)
    requires
        0 <= k <= ts.len(),
        forall|i: int| 0 <= i < ts.len() ==> (#[trigger] ts[i]).wf(),
        forall|i: int, j: int| 0 <= i < j < ts.len() ==> ts[i].signature != ts[j].signature,
    ensures
        ({
            let m = spec_save_all_transfers(crate::store::spec_empty_store(), ts.take(k));
            &&& crate::store::votes_keyed_by_signature(m)
            &&& crate::store::vote_index_keyed(m)
            &&& crate::store::transfers_keyed_by_signature(m)
            &&& crate::store::transfer_index_keyed(m)
            &&& forall|s: Seq<u8>|
                m.transfers.contains_key(s) <==> exists|i: int|
                    0 <= i < k && (#[trigger] ts[i]).signature == s
            &&& spec_transfers_with_block(m, block) == transfers_of_run_with_block(
                ts.take(k),
                block,
            )
        }),
    decreases k,
{
    let m0 = crate::store::spec_empty_store();
    if k == 0 {
        assert(ts.take(0) =~= Seq::<TransferView>::empty());
        assert(crate::store::votes_keyed_by_signature(m0));
        assert(crate::store::vote_index_keyed(m0));
        assert(crate::store::transfers_keyed_by_signature(m0));
        assert(crate::store::transfer_index_keyed(m0));
        assert(spec_transfers_with_block(m0, block) =~= transfers_of_run_with_block(
            ts.take(0),
            block,
        ));
    } else {
        lemma_transfer_run_invariants(ts, k - 1, block);
        let prev = spec_save_all_transfers(m0, ts.take(k - 1));
        let t = ts[k - 1];
        let next = crate::store::spec_save_transfer(prev, t);
        assert(ts.take(k).drop_last() =~= ts.take(k - 1));
        assert(ts.take(k).last() == ts[k - 1]);
        assert(spec_save_all_transfers(m0, ts.take(k)) == next);
        crate::store::lemma_commit_preserves_keying(
            prev,
            crate::record::RecordView::Transfer(t),
        );
        assert(next.transfers == prev.transfers.insert(
            t.signature,
            crate::record::transfer_bytes(t),
        ));
        assert forall|s: Seq<u8>| next.transfers.contains_key(s) implies exists|i: int|
            0 <= i < k && (#[trigger] ts[i]).signature == s by {
            if s == t.signature {
                assert(ts[k - 1].signature == s);
            } else {
                let i = choose|i: int| 0 <= i < k - 1 && (#[trigger] ts[i]).signature == s;
                assert(ts[i].signature == s);
            }
        }
        assert forall|s: Seq<u8>|
            (exists|i: int| 0 <= i < k && (#[trigger] ts[i]).signature == s) implies
            next.transfers.contains_key(s) by {
            let i = choose|i: int| 0 <= i < k && (#[trigger] ts[i]).signature == s;
            if i < k - 1 {
                assert(prev.transfers.contains_key(s));
            }
        }
        assert forall|w: TransferView| spec_transfers_with_block(next, block).contains(
            w,
        ) implies transfers_of_run_with_block(ts.take(k), block).contains(w) by {
            lemma_transfers_with_block_no_extras(prev, t, block);
            if w == t {
                assert(w.block_index == block);
                assert(ts.take(k)[k - 1] == t);
                assert(ts.take(k).contains(t));
            } else {
                assert(spec_transfers_with_block(prev, block).contains(w));
                assert(transfers_of_run_with_block(ts.take(k - 1), block).contains(w));
                let i = choose|i: int| 0 <= i < k - 1 && #[trigger] ts.take(k - 1)[i] == w;
                assert(ts.take(k)[i] == w);
                assert(ts.take(k).contains(w));
            }
        }
        assert forall|w: TransferView| transfers_of_run_with_block(ts.take(k), block).contains(
            w,
        ) implies spec_transfers_with_block(next, block).contains(w) by {
            let i = choose|i: int| 0 <= i < k && ts.take(k)[i] == w;
            if i == k - 1 {
                lemma_transfers_with_block_complete(prev, t);
            } else {
                assert(ts.take(k - 1)[i] == w);
                assert(ts.take(k - 1).contains(w));
                assert(transfers_of_run_with_block(ts.take(k - 1), block).contains(w));
                assert(spec_transfers_with_block(prev, block).contains(w));
                assert(w.signature == ts[i].signature && t.signature == ts[k - 1].signature);
                assert(w.signature != t.signature);
                lemma_transfers_with_block_preserved(prev, t, block, w);
            }
        }
        assert(spec_transfers_with_block(next, block) =~= transfers_of_run_with_block(
            ts.take(k),
            block,
        ));
    }
}

/// Answers a transfer query that names a signature alone: a point
/// lookup, with a bad signature rejected as the caller's fault and an
/// absent record reported as not found.
pub fn find_transfers_with_signature(store: &Store, signature: &str) -> (r: Result<
    Vec<Transfer>,
    Error,
>)
    ensures
        match sig_of(signature@) {
            None => r == Err::<Vec<Transfer>, Error>(Error::SolanaBadSignature),
            Some(sb) => match spec_find_transfer(store@, sb) {
                None => r == Err::<Vec<Transfer>, Error>(Error::NotFound),
                Some(w) => r matches Ok(ts) && ts@.len() == 1 && ts@[0]@ == w,
            },
        },
{
    let key = match parse_signature(signature) {
        Ok(key) => key,
        Err(e) => {
            return Err(e);
        },
    };
    match store.find_transfer(&key) {
        None => Err(Error::NotFound),
        Some(transfer) => {
            let mut out: Vec<Transfer> = Vec::new();
            out.push(transfer);
            Ok(out)
        },
    }
}

/// True when a transfer passes every filter the caller supplied: an
/// absent filter matches everything, the present ones must all hold at
/// once. `to` names the destination, `from` the source.
pub open spec fn transfer_keep(
    t: TransferView,
    block: Option<u64>,
    to: Option<Seq<u8>>,
    from: Option<Seq<u8>>,
) -> bool {
    &&& (block matches Some(b) ==> t.block_index == b)
    &&& (to matches Some(d) ==> t.destination == d)
    &&& (from matches Some(s) ==> t.source == s)
}

/// The filters are a conjunction: passing them all at once is passing
/// each alone.
pub proof fn lemma_transfer_filters_conjoin(
    t: TransferView,
    block: Option<u64>,
    to: Option<Seq<u8>>,
    from: Option<Seq<u8>>,
)
    ensures
        transfer_keep(t, block, to, from) <==> (transfer_keep(t, block, None, None)
            && transfer_keep(t, None, to, None) && transfer_keep(t, None, None, from)),
{
}

/// Answers a transfer query by a full scan, applying every supplied
/// filter as a logical AND; an absent filter matches everything.
pub fn find_transfers_with_full_scan(
    store: &Store,
    block: Option<u64>,
    to: Option<Vec<u8>>,
    from: Option<Vec<u8>>,
) -> (r: Result<Vec<Transfer>, Error>)
    ensures
        r matches Ok(ts) && {
            &&& forall|a: int|
                0 <= a < ts@.len() ==> spec_all_transfers(store@).contains(#[trigger] ts@[a]@)
                    && transfer_keep(
                    ts@[a]@,
                    block,
                    crate::finding_votes::opt_bytes(to),
                    crate::finding_votes::opt_bytes(from),
                )
            &&& forall|t: TransferView|
                spec_all_transfers(store@).contains(t) && transfer_keep(
                    t,
                    block,
                    crate::finding_votes::opt_bytes(to),
                    crate::finding_votes::opt_bytes(from),
                ) ==> transfer_listed(ts@, t)
            &&& crate::store::transfers_keyed_by_signature(store@) ==> forall|a: int, b: int|
                0 <= a < b < ts@.len() ==> #[trigger] ts@[a]@ != #[trigger] ts@[b]@
        },
{
    let ghost to_bytes = crate::finding_votes::opt_bytes(to);
    let ghost from_bytes = crate::finding_votes::opt_bytes(from);
    let ghost keyed = crate::store::transfers_keyed_by_signature(store@);
    let all = match store.find_all_transfers() {
        Ok(all) => all,
        Err(e) => {
            return Err(e);
        },
    };
    let n = all.len();
    let mut out: Vec<Transfer> = Vec::new();
    let mut i: usize = 0;
    while i < n
        invariant
            0 <= i <= n,
            all@.len() == n,
            to_bytes == crate::finding_votes::opt_bytes(to),
            from_bytes == crate::finding_votes::opt_bytes(from),
            keyed == crate::store::transfers_keyed_by_signature(store@),
            forall|a: int|
                0 <= a < n ==> spec_all_transfers(store@).contains(#[trigger] all@[a]@),
            keyed ==> forall|a: int, b: int|
                0 <= a < b < n ==> #[trigger] all@[a]@ != #[trigger] all@[b]@,
            forall|a: int|
                0 <= a < out@.len() ==> spec_all_transfers(store@).contains(#[trigger] out@[a]@)
                    && transfer_keep(out@[a]@, block, to_bytes, from_bytes),
            forall|a: int|
                0 <= a < i ==> (transfer_keep(#[trigger] all@[a]@, block, to_bytes, from_bytes)
                    ==> transfer_listed(out@, all@[a]@)),
            keyed ==> forall|a: int|
                0 <= a < out@.len() ==> exists|j: int|
                    0 <= j < i && #[trigger] out@[a]@ == all@[j]@,
            keyed ==> forall|a: int, b: int|
                0 <= a < b < out@.len() ==> #[trigger] out@[a]@ != #[trigger] out@[b]@,
        decreases n - i,
    {
        let ghost out0 = out@;
        let transfer = &all[i];
        let mut keep = true;
        match block {
            Some(b) => {
                if transfer.block_index != b {
                    keep = false;
                }
            },
            None => {},
        }
        match &to {
            Some(d) => {
                if !bytes_eq(&transfer.destination, d) {
                    keep = false;
                }
            },
            None => {},
        }
        match &from {
            Some(s) => {
                if !bytes_eq(&transfer.source, s) {
                    keep = false;
                }
            },
            None => {},
        }
        assert(keep == transfer_keep(all@[i as int]@, block, to_bytes, from_bytes));
        if keep {
            let t = all[i].duplicate();
            assert(t@ == all@[i as int]@);
            proof {
                if keyed {
                    assert forall|a: int| 0 <= a < out0.len() implies #[trigger] out0[a]@
                        != t@ by {
                        let j = choose|j: int| 0 <= j < i && out0[a]@ == all@[j]@;
                        assert(all@[j]@ != all@[i as int]@);
                    }
                }
            }
            out.push(t);
            proof {
                assert(out@ == out0.push(t));
                crate::store::lemma_transfer_listed_push(out0, t);
            }
        }
        i = i + 1;
    }
    proof {
        assert forall|t: TransferView|
            spec_all_transfers(store@).contains(t) && transfer_keep(
                t,
                block,
                to_bytes,
                from_bytes,
            ) implies transfer_listed(out@, t) by {
            assert(transfer_listed(all@, t));
            let a = choose|a: int| 0 <= a < all@.len() && all@[a]@ == t;
            assert(transfer_listed(out@, all@[a]@));
        }
    }
    Ok(out)
}

} // verus!
