//! Bridge between the store and the read interface, for votes: the three
//! resolution paths a vote query can take.

use vstd::prelude::*;

use crate::codec::bytes_eq;
use crate::extraction::{parse_signature, sig_of};
use crate::record::{Vote, VoteView};
use crate::result::Error;
use crate::store::{
    spec_all_votes, spec_find_vote, spec_votes_at_block, vote_listed, Store, StoreModel,
};

verus! {

/// The votes an indexed block query answers with: whatever the index
/// resolves for the height, kept only when the record really carries it.
pub open spec fn spec_votes_with_block(m: crate::store::StoreModel, block: u64) -> Set<VoteView> {
    Set::new(
        |v: VoteView| spec_votes_at_block(m, block).contains(v) && v.block_index == block,
    )
}

/// Answers a vote query that filters by block height alone: the indexed
/// scan, with any record whose height differs filtered out.
pub fn find_votes_with_block_index(store: &Store, block_index: u64) -> (r: Result<Vec<Vote>, Error>)
    ensures
        r matches Ok(vs) && {
            &&& forall|a: int|
                0 <= a < vs@.len() ==> spec_votes_with_block(store@, block_index).contains(
                    #[trigger] vs@[a]@,
                )
            &&& forall|v: VoteView|
                spec_votes_with_block(store@, block_index).contains(v) ==> vote_listed(vs@, v)
            &&& (crate::store::votes_keyed_by_signature(store@) && crate::store::vote_index_keyed(
                store@,
            )) ==> forall|a: int, b: int|
                0 <= a < b < vs@.len() ==> #[trigger] vs@[a]@ != #[trigger] vs@[b]@
        },
{
    let ghost keyed = crate::store::votes_keyed_by_signature(store@)
        && crate::store::vote_index_keyed(store@);
    let all = match store.find_votes_by_block_index(block_index) {
        Ok(all) => all,
        Err(e) => {
            return Err(e);
        },
    };
    let n = all.len();
    let mut out: Vec<Vote> = Vec::new();
    let mut i: usize = 0;
    while i < n
        invariant
            0 <= i <= n,
            all@.len() == n,
            keyed == (crate::store::votes_keyed_by_signature(store@)
                && crate::store::vote_index_keyed(store@)),
            forall|a: int|
                0 <= a < n ==> spec_votes_at_block(store@, block_index).contains(
                    #[trigger] all@[a]@,
                ),
            keyed ==> forall|a: int, b: int|
                0 <= a < b < n ==> #[trigger] all@[a]@ != #[trigger] all@[b]@,
            forall|a: int|
                0 <= a < out@.len() ==> spec_votes_with_block(store@, block_index).contains(
                    #[trigger] out@[a]@,
                ),
            forall|a: int|
                0 <= a < i ==> (all@[a]@.block_index == block_index ==> vote_listed(
                    out@,
                    #[trigger] all@[a]@,
                )),
            keyed ==> forall|a: int|
                0 <= a < out@.len() ==> exists|j: int|
                    0 <= j < i && #[trigger] out@[a]@ == all@[j]@,
            keyed ==> forall|a: int, b: int|
                0 <= a < b < out@.len() ==> #[trigger] out@[a]@ != #[trigger] out@[b]@,
        decreases n - i,
    {
        let ghost out0 = out@;
        if all[i].block_index == block_index {
            let v = all[i].duplicate();
            assert(v@ == all@[i as int]@);
            proof {
                if keyed {
                    assert forall|a: int| 0 <= a < out0.len() implies #[trigger] out0[a]@
                        != v@ by {
                        let j = choose|j: int| 0 <= j < i && out0[a]@ == all@[j]@;
                        assert(all@[j]@ != all@[i as int]@);
                    }
                }
            }
            out.push(v);
            proof {
                assert(out@ == out0.push(v));
                crate::store::lemma_vote_listed_push(out0, v);
            }
        }
        i = i + 1;
    }
    proof {
        assert forall|v: VoteView| spec_votes_with_block(store@, block_index).contains(
            v,
        ) implies vote_listed(out@, v) by {
            assert(spec_votes_at_block(store@, block_index).contains(v));
            assert(vote_listed(all@, v));
            let a = choose|a: int| 0 <= a < all@.len() && all@[a]@ == v;
            assert(all@[a]@.block_index == block_index);
            assert(vote_listed(out@, all@[a]@));
        }
    }
    Ok(out)
}

/// Index completeness: a saved vote is answered by the block query for
/// its own height.
pub proof fn lemma_votes_with_block_complete(m: StoreModel, v: VoteView)
    requires
        v.wf(),
    ensures
        spec_votes_with_block(crate::store::spec_save_vote(m, v), v.block_index).contains(v),
{
    crate::store::lemma_vote_index_complete(m, v);
}

/// Index exactness: saving a vote adds at most that vote to any height's
/// answer, and adds nothing at all to the answer for another height.
pub proof fn lemma_votes_with_block_no_extras(m: StoreModel, v: VoteView, block: u64)
    requires
        v.wf(),
    ensures
        spec_votes_with_block(crate::store::spec_save_vote(m, v), block).subset_of(
            spec_votes_with_block(m, block).insert(v),
        ),
        v.block_index != block ==> spec_votes_with_block(
            crate::store::spec_save_vote(m, v),
            block,
        ).subset_of(spec_votes_with_block(m, block)),
{
    let m1 = crate::store::spec_save_vote(m, v);
    assert forall|w: VoteView| spec_votes_with_block(m1, block).contains(w) implies
        spec_votes_with_block(m, block).insert(v).contains(w) by {
        if w != v {
            let k = choose|k: Seq<u8>|
                #[trigger] m1.vote_index.contains_key(k) && crate::store::block_scan_prefix(
                    block,
                ).is_prefix_of(k) && crate::store::spec_find_vote(m1, m1.vote_index[k]) == Some(w);
            let sigk = m1.vote_index[k];
            assert(sigk != v.signature) by {
                crate::record::lemma_vote_roundtrip(v);
            }
            assert(m.vote_index.contains_key(k) && m.vote_index[k] == sigk);
            assert(crate::store::spec_find_vote(m, sigk) == crate::store::spec_find_vote(
                m1,
                sigk,
            ));
            assert(spec_votes_with_block(m, block).contains(w));
        }
    }
    if v.block_index != block {
        assert forall|w: VoteView| spec_votes_with_block(m1, block).contains(w) implies
            spec_votes_with_block(m, block).contains(w) by {
            assert(w.block_index == block);
            assert(w != v);
            assert(spec_votes_with_block(m, block).insert(v).contains(w));
        }
    }
}

/// In a keyed store, saving a vote leaves every differently-signed vote
/// in any height's answer.
proof fn lemma_votes_with_block_preserved(m: StoreModel, w: VoteView, block: u64, v: VoteView)
    requires
        w.wf(),
        crate::store::votes_keyed_by_signature(m),
        crate::store::vote_index_keyed(m),
        v.signature != w.signature,
        spec_votes_with_block(m, block).contains(v),
    ensures
        spec_votes_with_block(crate::store::spec_save_vote(m, w), block).contains(v),
{
    let m1 = crate::store::spec_save_vote(m, w);
    let k = choose|k: Seq<u8>|
        #[trigger] m.vote_index.contains_key(k) && crate::store::block_scan_prefix(
            block,
        ).is_prefix_of(k) && crate::store::spec_find_vote(m, m.vote_index[k]) == Some(v);
    let sigv = m.vote_index[k];
    assert(m.votes.contains_key(sigv) && crate::record::vote_of_bytes(m.votes[sigv]) == Some(v));
    assert(v.signature == sigv);
    assert(sigv == k.subrange(k.len() - 64, k.len() as int));
    let sig = w.signature;
    let k1 = crate::store::tagged_num_key(crate::store::TAG_BLOCK, w.block_index, sig);
    let k2 = crate::store::tagged_addr_key(crate::store::TAG_TO, w.target, sig);
    let k3 = crate::store::tagged_addr_key(crate::store::TAG_FROM, w.author, sig);
    assert(k1.subrange(9, 73) =~= sig && k2.subrange(33, 97) =~= sig && k3.subrange(33, 97)
        =~= sig);
    assert(k != k1 && k != k2 && k != k3);
    assert(m1.vote_index.contains_key(k) && m1.vote_index[k] == sigv);
    assert(crate::store::spec_find_vote(m1, sigv) == Some(v));
}

/// The store after a run of votes was saved, in order: the last vote of
/// the run is the last one saved.
pub open spec fn spec_save_all_votes(m: StoreModel, vs: Seq<VoteView>) -> StoreModel
    decreases vs.len(),
{
    if vs.len() == 0 {
        m
    } else {
        crate::store::spec_save_vote(spec_save_all_votes(m, vs.drop_last()), vs.last())
    }
}

/// The votes of a run that carry one height.
pub open spec fn votes_of_run_with_block(vs: Seq<VoteView>, block: u64) -> Set<VoteView> {
    Set::new(|v: VoteView| vs.contains(v) && v.block_index == block)
}

/// Index exactness over whole runs: saving any run of well-formed,
/// distinctly-signed votes into an empty store makes the block query for
/// any height answer exactly the votes of the run that carry it — no
/// fewer, no extras, whatever else the run holds.
pub proof fn lemma_block_query_answers_runs(vs: Seq<VoteView>, block: u64)
    requires
        forall|i: int| 0 <= i < vs.len() ==> (#[trigger] vs[i]).wf(),
        forall|i: int, j: int| 0 <= i < j < vs.len() ==> vs[i].signature != vs[j].signature,
    ensures
        spec_votes_with_block(
            spec_save_all_votes(crate::store::spec_empty_store(), vs),
            block,
        ) == votes_of_run_with_block(vs, block),
{
    lemma_run_invariants(vs, vs.len() as int, block);
    assert(vs.take(vs.len() as int) =~= vs);
}

/// What holds of the store after the first `k` votes of a run: it is
/// keyed throughout, it holds exactly those votes' signatures, and its
/// block answer is exactly their contribution.
proof fn lemma_run_invariants(vs: Seq<VoteView>, k: int, block: u64)
    requires
        0 <= k <= vs.len(),
        forall|i: int| 0 <= i < vs.len() ==> (#[trigger] vs[i]).wf(),
        forall|i: int, j: int| 0 <= i < j < vs.len() ==> vs[i].signature != vs[j].signature,
    ensures
        ({
            let m = spec_save_all_votes(crate::store::spec_empty_store(), vs.take(k));
            &&& crate::store::votes_keyed_by_signature(m)
            &&& crate::store::vote_index_keyed(m)
            &&& crate::store::transfers_keyed_by_signature(m)
            &&& crate::store::transfer_index_keyed(m)
            &&& forall|s: Seq<u8>|
                m.votes.contains_key(s) <==> exists|i: int|
                    0 <= i < k && (#[trigger] vs[i]).signature == s
            &&& spec_votes_with_block(m, block) == votes_of_run_with_block(vs.take(k), block)
        }),
    decreases k,
{
    let m0 = crate::store::spec_empty_store();
    if k == 0 {
        assert(vs.take(0) =~= Seq::<VoteView>::empty());
        assert(crate::store::votes_keyed_by_signature(m0));
        assert(crate::store::vote_index_keyed(m0));
        assert(crate::store::transfers_keyed_by_signature(m0));
        assert(crate::store::transfer_index_keyed(m0));
        assert(spec_votes_with_block(m0, block) =~= votes_of_run_with_block(vs.take(0), block));
    } else {
        lemma_run_invariants(vs, k - 1, block);
        let prev = spec_save_all_votes(m0, vs.take(k - 1));
        let v = vs[k - 1];
        let next = crate::store::spec_save_vote(prev, v);
        assert(vs.take(k).drop_last() =~= vs.take(k - 1));
        assert(vs.take(k).last() == vs[k - 1]);
        assert(spec_save_all_votes(m0, vs.take(k)) == next);
        crate::store::lemma_commit_preserves_keying(prev, crate::record::RecordView::Vote(v));
        assert(next.votes == prev.votes.insert(v.signature, crate::record::vote_bytes(v)));
        assert forall|s: Seq<u8>| next.votes.contains_key(s) implies exists|i: int|
            0 <= i < k && (#[trigger] vs[i]).signature == s by {
            if s == v.signature {
                assert(vs[k - 1].signature == s);
            } else {
                let i = choose|i: int| 0 <= i < k - 1 && (#[trigger] vs[i]).signature == s;
                assert(vs[i].signature == s);
            }
        }
        assert forall|s: Seq<u8>|
            (exists|i: int| 0 <= i < k && (#[trigger] vs[i]).signature == s) implies
            next.votes.contains_key(s) by {
            let i = choose|i: int| 0 <= i < k && (#[trigger] vs[i]).signature == s;
            if i < k - 1 {
                assert(prev.votes.contains_key(s));
            }
        }
        assert forall|w: VoteView| spec_votes_with_block(next, block).contains(w) implies
            votes_of_run_with_block(vs.take(k), block).contains(w) by {
            lemma_votes_with_block_no_extras(prev, v, block);
            if w == v {
                assert(w.block_index == block);
                assert(vs.take(k)[k - 1] == v);
                assert(vs.take(k).contains(v));
            } else {
                assert(spec_votes_with_block(prev, block).contains(w));
                assert(votes_of_run_with_block(vs.take(k - 1), block).contains(w));
                let i = choose|i: int| 0 <= i < k - 1 && #[trigger] vs.take(k - 1)[i] == w;
                assert(vs.take(k)[i] == w);
                assert(vs.take(k).contains(w));
            }
        }
        assert forall|w: VoteView| votes_of_run_with_block(vs.take(k), block).contains(
            w,
        ) implies spec_votes_with_block(next, block).contains(w) by {
            let i = choose|i: int| 0 <= i < k && vs.take(k)[i] == w;
            if i == k - 1 {
                lemma_votes_with_block_complete(prev, v);
            } else {
                assert(vs.take(k - 1)[i] == w);
                assert(vs.take(k - 1).contains(w));
                assert(votes_of_run_with_block(vs.take(k - 1), block).contains(w));
                assert(spec_votes_with_block(prev, block).contains(w));
                assert(w.signature == vs[i].signature && v.signature == vs[k - 1].signature);
                assert(w.signature != v.signature);
                lemma_votes_with_block_preserved(prev, v, block, w);
            }
        }
        assert(spec_votes_with_block(next, block) =~= votes_of_run_with_block(
            vs.take(k),
            block,
        ));
    }
}

/// Answers a vote query that names a signature alone: a point lookup,
/// with a bad signature rejected as the caller's fault and an absent
/// record reported as not found.
pub fn find_votes_with_signature(store: &Store, signature: &str) -> (r: Result<Vec<Vote>, Error>)
    ensures
        match sig_of(signature@) {
            None => r == Err::<Vec<Vote>, Error>(Error::SolanaBadSignature),
            Some(sb) => match spec_find_vote(store@, sb) {
                None => r == Err::<Vec<Vote>, Error>(Error::NotFound),
                Some(w) => r matches Ok(vs) && vs@.len() == 1 && vs@[0]@ == w,
            },
        },
{
    let key = match parse_signature(signature) {
        Ok(key) => key,
        Err(e) => {
            return Err(e);
        },
    };
    match store.find_vote(&key) {
        None => Err(Error::NotFound),
        Some(vote) => {
            let mut out: Vec<Vote> = Vec::new();
            out.push(vote);
            Ok(out)
        },
    }
}

/// True when a vote passes every filter the caller supplied: an absent
/// filter matches everything, the present ones must all hold at once.
pub open spec fn vote_keep(
    v: VoteView,
    block: Option<u64>,
    to: Option<Seq<u8>>,
    from: Option<Seq<u8>>,
) -> bool {
    &&& (block matches Some(b) ==> v.block_index == b)
    &&& (to matches Some(t) ==> v.target == t)
    &&& (from matches Some(f) ==> v.author == f)
}

/// The filters are a conjunction: passing them all at once is passing
/// each alone.
pub proof fn lemma_vote_filters_conjoin(
    v: VoteView,
    block: Option<u64>,
    to: Option<Seq<u8>>,
    from: Option<Seq<u8>>,
)
    ensures
        vote_keep(v, block, to, from) <==> (vote_keep(v, block, None, None) && vote_keep(
            v,
            None,
            to,
            None,
        ) && vote_keep(v, None, None, from)),
{
}

/// The bytes a caller-supplied address filter holds, if one was supplied.
pub open spec fn opt_bytes(o: Option<Vec<u8>>) -> Option<Seq<u8>> {
    match o {
        Some(b) => Some(b@),
        None => None,
    }
}

/// Answers a vote query by a full scan, applying every supplied filter
/// as a logical AND; an absent filter matches everything.
pub fn find_votes_with_full_scan(
    store: &Store,
    block: Option<u64>,
    to: Option<Vec<u8>>,
    from: Option<Vec<u8>>,
) -> (r: Result<Vec<Vote>, Error>)
    ensures
        r matches Ok(vs) && {
            &&& forall|a: int|
                0 <= a < vs@.len() ==> spec_all_votes(store@).contains(#[trigger] vs@[a]@)
                    && vote_keep(vs@[a]@, block, opt_bytes(to), opt_bytes(from))
            &&& forall|v: VoteView|
                spec_all_votes(store@).contains(v) && vote_keep(
                    v,
                    block,
                    opt_bytes(to),
                    opt_bytes(from),
                ) ==> vote_listed(vs@, v)
            &&& crate::store::votes_keyed_by_signature(store@) ==> forall|a: int, b: int|
                0 <= a < b < vs@.len() ==> #[trigger] vs@[a]@ != #[trigger] vs@[b]@
        },
{
    let ghost keyed = crate::store::votes_keyed_by_signature(store@);
    let all = match store.find_all_votes() {
        Ok(all) => all,
        Err(e) => {
            return Err(e);
        },
    };
    let n = all.len();
    let mut out: Vec<Vote> = Vec::new();
    let mut i: usize = 0;
    while i < n
        invariant
            0 <= i <= n,
            all@.len() == n,
            keyed == crate::store::votes_keyed_by_signature(store@),
            forall|a: int|
                0 <= a < n ==> spec_all_votes(store@).contains(#[trigger] all@[a]@),
            keyed ==> forall|a: int, b: int|
                0 <= a < b < n ==> #[trigger] all@[a]@ != #[trigger] all@[b]@,
            forall|a: int|
                0 <= a < out@.len() ==> spec_all_votes(store@).contains(#[trigger] out@[a]@)
                    && vote_keep(out@[a]@, block, opt_bytes(to), opt_bytes(from)),
            forall|a: int|
                0 <= a < i ==> (vote_keep(
                    #[trigger] all@[a]@,
                    block,
                    opt_bytes(to),
                    opt_bytes(from),
                ) ==> vote_listed(out@, all@[a]@)),
            keyed ==> forall|a: int|
                0 <= a < out@.len() ==> exists|j: int|
                    0 <= j < i && #[trigger] out@[a]@ == all@[j]@,
            keyed ==> forall|a: int, b: int|
                0 <= a < b < out@.len() ==> #[trigger] out@[a]@ != #[trigger] out@[b]@,
        decreases n - i,
    {
        let ghost out0 = out@;
        let vote = &all[i];
        let mut keep = true;
        match block {
            Some(b) => {
                if vote.block_index != b {
                    keep = false;
                }
            },
            None => {},
        }
        match &to {
            Some(t) => {
                if !bytes_eq(&vote.target, t) {
                    keep = false;
                }
            },
            None => {},
        }
        match &from {
            Some(f) => {
                if !bytes_eq(&vote.author, f) {
                    keep = false;
                }
            },
            None => {},
        }
        assert(keep == vote_keep(all@[i as int]@, block, opt_bytes(to), opt_bytes(from)));
        if keep {
            let v = all[i].duplicate();
            assert(v@ == all@[i as int]@);
            proof {
                if keyed {
                    assert forall|a: int| 0 <= a < out0.len() implies #[trigger] out0[a]@
                        != v@ by {
                        let j = choose|j: int| 0 <= j < i && out0[a]@ == all@[j]@;
                        assert(all@[j]@ != all@[i as int]@);
                    }
                }
            }
            out.push(v);
            proof {
                assert(out@ == out0.push(v));
                crate::store::lemma_vote_listed_push(out0, v);
            }
        }
        i = i + 1;
    }
    proof {
        assert forall|v: VoteView|
            spec_all_votes(store@).contains(v) && vote_keep(
                v,
                block,
                opt_bytes(to),
                opt_bytes(from),
            ) implies vote_listed(out@, v) by {
            assert(vote_listed(all@, v));
            let a = choose|a: int| 0 <= a < all@.len() && all@[a]@ == v;
            assert(vote_listed(out@, all@[a]@));
        }
    }
    Ok(out)
}

} // verus!
