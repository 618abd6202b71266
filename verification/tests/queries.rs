//! The read interface: filter dispatch, conjunctive filtering, the error
//! kinds a caller can provoke, and the canonical string identifiers.

use indexer::finding_transfers::find_transfers_with_signature;
use indexer::finding_votes::{find_votes_with_full_scan, find_votes_with_signature};
use indexer::interface::{get_transfers, get_votes, Criteria};
use indexer::record::{Transfer, Vote};
use indexer::result::Error;
use indexer::store::Store;

fn sig(n: u8) -> Vec<u8> {
    vec![n; 64]
}

fn addr(n: u8) -> Vec<u8> {
    vec![n; 32]
}

fn sig_text(n: u8) -> String {
    solana_sdk::signature::Signature::from([n; 64]).to_string()
}

fn addr_text(n: u8) -> String {
    solana_sdk::pubkey::Pubkey::new_from_array([n; 32]).to_string()
}

fn store_with_votes() -> Store {
    let mut store = Store::new();
    let matching = Vote {
        signature: sig(1),
        block_index: 7,
        timestamp: 100,
        author: addr(2),
        target: addr(3),
    };
    let wrong_block = Vote {
        signature: sig(4),
        block_index: 8,
        timestamp: 101,
        author: addr(2),
        target: addr(3),
    };
    let wrong_target = Vote {
        signature: sig(5),
        block_index: 7,
        timestamp: 102,
        author: addr(2),
        target: addr(6),
    };
    store.save_vote(&matching).unwrap();
    store.save_vote(&wrong_block).unwrap();
    store.save_vote(&wrong_target).unwrap();
    store
}

#[test]
fn full_scan_applies_filters_conjunctively() {
    // With block and target filters at once, only the record matching
    // both comes back.
    let store = store_with_votes();
    let gotten = find_votes_with_full_scan(&store, Some(7), Some(addr(3)), None).unwrap();
    assert_eq!(gotten.len(), 1);
    assert_eq!(gotten[0].signature, sig(1));

    // Each filter alone matches more:
    let by_block = find_votes_with_full_scan(&store, Some(7), None, None).unwrap();
    assert_eq!(by_block.len(), 2);
    let by_target = find_votes_with_full_scan(&store, None, Some(addr(3)), None).unwrap();
    assert_eq!(by_target.len(), 2);

    // And no filter at all matches everything:
    let everything = find_votes_with_full_scan(&store, None, None, None).unwrap();
    assert_eq!(everything.len(), 3);
}

#[test]
fn signature_lookup_round_trips_through_base58() {
    // A vote saved under raw signature bytes is found again through the
    // canonical base58 rendering of those bytes.
    let mut store = Store::new();
    let vote = Vote {
        signature: vec![9u8; 64],
        block_index: 3,
        timestamp: 30,
        author: addr(1),
        target: addr(2),
    };
    store.save_vote(&vote).unwrap();

    let gotten = find_votes_with_signature(&store, sig_text(9).as_str()).unwrap();
    assert_eq!(gotten, vec![vote]);
}

#[test]
fn absent_signature_is_not_found() {
    let store = Store::new();
    let err = find_votes_with_signature(&store, sig_text(1).as_str()).unwrap_err();
    assert_eq!(err, Error::NotFound);
    let err = find_transfers_with_signature(&store, sig_text(1).as_str()).unwrap_err();
    assert_eq!(err, Error::NotFound);
}

#[test]
fn malformed_signature_is_the_callers_fault() {
    let store = Store::new();
    let err = find_votes_with_signature(&store, "no-such-signature!").unwrap_err();
    assert_eq!(err, Error::SolanaBadSignature);
    assert_eq!(err.status_code(), 400);
}

#[test]
fn malformed_address_is_the_callers_fault() {
    let store = Store::new();
    let filters = Criteria {
        block: Some(7),
        signature: None,
        to: Some("not-an-address!".to_owned()),
        from: None,
    };
    let err = get_votes(&store, &filters).unwrap_err();
    assert_eq!(err, Error::SolanaBadPubkey);
    assert_eq!(err.status_code(), 400);
}

#[test]
fn status_codes_classify_the_errors() {
    assert_eq!(Error::NotFound.status_code(), 404);
    assert_eq!(Error::SolanaBadSignature.status_code(), 400);
    assert_eq!(Error::SolanaBadPubkey.status_code(), 400);
    assert_eq!(Error::SolanaBadNumber.status_code(), 400);
    assert_eq!(Error::Database.status_code(), 500);
    assert_eq!(Error::Coding.status_code(), 500);
    assert_eq!(Error::Serialization.status_code(), 500);
    assert_eq!(Error::SolanaClient.status_code(), 500);
    assert_eq!(Error::ExpectationViolation.status_code(), 500);
}

#[test]
fn vote_query_dispatches_by_filters() {
    // A signature alone is a point lookup; a block alone an indexed
    // lookup; a combination a conjunctive full scan.
    let store = store_with_votes();

    let by_signature = Criteria {
        block: None,
        signature: Some(sig_text(1)),
        to: None,
        from: None,
    };
    let gotten = get_votes(&store, &by_signature).unwrap();
    assert_eq!(gotten.len(), 1);
    assert_eq!(gotten[0].signature, sig(1));

    let by_block = Criteria { block: Some(7), signature: None, to: None, from: None };
    let gotten = get_votes(&store, &by_block).unwrap();
    assert_eq!(gotten.len(), 2);

    let conjunction = Criteria {
        block: Some(7),
        signature: None,
        to: Some(addr_text(3)),
        from: Some(addr_text(2)),
    };
    let gotten = get_votes(&store, &conjunction).unwrap();
    assert_eq!(gotten.len(), 1);
    assert_eq!(gotten[0].signature, sig(1));
}

#[test]
fn transfer_query_dispatches_by_filters() {
    let mut store = Store::new();
    let transfer = Transfer {
        signature: sig(1),
        block_index: 5,
        timestamp: 50,
        source: addr(2),
        destination: addr(3),
        lamports: 1000,
    };
    store.save_transfer(&transfer).unwrap();

    let by_signature = Criteria {
        block: None,
        signature: Some(sig_text(1)),
        to: None,
        from: None,
    };
    assert_eq!(get_transfers(&store, &by_signature).unwrap(), vec![transfer.clone()]);

    let by_block = Criteria { block: Some(5), signature: None, to: None, from: None };
    assert_eq!(get_transfers(&store, &by_block).unwrap(), vec![transfer.clone()]);

    let mismatch = Criteria {
        block: Some(5),
        signature: None,
        to: Some(addr_text(2)),
        from: None,
    };
    assert_eq!(get_transfers(&store, &mismatch).unwrap(), Vec::<Transfer>::new());
}

#[test]
fn no_filters_match_everything() {
    let store = store_with_votes();
    let none = Criteria { block: None, signature: None, to: None, from: None };
    assert_eq!(get_votes(&store, &none).unwrap().len(), 3);
    assert_eq!(get_transfers(&store, &none).unwrap().len(), 0);
}

#[test]
fn signature_filter_joins_a_full_scan() {
    // A signature combined with another filter is resolved by a full
    // scan applying both.
    let store = store_with_votes();
    let both = Criteria {
        block: Some(7),
        signature: Some(sig_text(1)),
        to: None,
        from: None,
    };
    let gotten = get_votes(&store, &both).unwrap();
    assert_eq!(gotten.len(), 1);
    assert_eq!(gotten[0].signature, sig(1));

    let disjoint = Criteria {
        block: Some(8),
        signature: Some(sig_text(1)),
        to: None,
        from: None,
    };
    assert_eq!(get_votes(&store, &disjoint).unwrap(), Vec::<Vote>::new());
}
