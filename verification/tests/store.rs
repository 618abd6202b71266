//! The store: point lookups, full scans, indexed scans, the watermark,
//! and the isolation of the two record kinds.

use indexer::record::{Transfer, Vote};
use indexer::store::Store;

fn sig(n: u8) -> Vec<u8> {
    vec![n; 64]
}

fn addr(n: u8) -> Vec<u8> {
    vec![n; 32]
}

fn disposable() -> Store {
    Store::new()
}

#[test]
fn last_known_block_persists() {
    // Given an empty store:
    let mut store = disposable();

    // When we query the last known block from it:
    let last_known_block = store.last_known_block();

    // Then it should be unset:
    assert!(last_known_block.is_none());

    // And when we set the last known block to a certain value:
    let lucky_eight = 8888;
    store.set_last_known_block(lucky_eight).unwrap();

    // And when we query it again:
    let last_known_block = store.last_known_block();

    // Then it should be the same:
    assert_eq!(last_known_block, Some(lucky_eight));
}

#[test]
fn votes_found_by_key() {
    // Given a store with some data:
    let signature = sig(1);
    let vote = Vote {
        signature: signature.clone(),
        block_index: 777,
        timestamp: 1234567890,
        author: addr(2),
        target: addr(3),
    };
    let mut store = disposable();
    store.save_vote(&vote).unwrap();

    // When we query a datum by its primary key:
    let gotten = store.find_vote(&signature);

    // Then it should be the same:
    assert_eq!(gotten, Some(vote.clone()));

    // And when we query a datum by its secondary key:
    let gotten = store.find_all_votes().unwrap();

    // Then it should be the same:
    assert!(gotten.contains(&vote));
}

#[test]
fn votes_found_in_everything() {
    // Given a store with some data:
    let signature = sig(4);
    let vote = Vote {
        signature,
        block_index: 777,
        timestamp: 1234567890,
        author: addr(5),
        target: addr(6),
    };
    let mut store = disposable();
    store.save_vote(&vote).unwrap();

    // When we query all data:
    let gotten = store.find_all_votes().unwrap();

    // Then it should have the original datum:
    assert!(gotten.contains(&vote));
}

#[test]
fn transfers_found_by_key() {
    // Given a store with some data:
    let signature = sig(7);
    let transfer = Transfer {
        signature: signature.clone(),
        block_index: 777,
        timestamp: 1234567890,
        source: addr(8),
        destination: addr(9),
        lamports: 0,
    };
    let mut store = disposable();
    store.save_transfer(&transfer).unwrap();

    // When we query a datum by its primary key:
    let gotten = store.find_transfer(&signature);

    // Then it should be the same:
    assert_eq!(gotten, Some(transfer.clone()));
}

#[test]
fn transfers_found_in_everything() {
    // Given a store with some data:
    let signature = sig(10);
    let transfer = Transfer {
        signature,
        block_index: 777,
        timestamp: 1234567890,
        source: addr(11),
        destination: addr(12),
        lamports: 0,
    };
    let mut store = disposable();
    store.save_transfer(&transfer).unwrap();

    // When we query all data:
    let gotten = store.find_all_transfers().unwrap();

    // Then it should have the original datum:
    assert!(gotten.contains(&transfer));
}

#[test]
fn votes_and_transfers_are_isolated() {
    // Given a store with some data:
    let signature = sig(13);
    let vote = Vote {
        signature: signature.clone(),
        block_index: 777,
        timestamp: 1234567890,
        author: addr(14),
        target: addr(15),
    };
    let transfer = Transfer {
        signature,
        block_index: 777,
        timestamp: 1234567890,
        source: addr(16),
        destination: addr(17),
        lamports: 0,
    };
    let mut store = disposable();
    store.save_vote(&vote).unwrap();
    store.save_transfer(&transfer).unwrap();

    // When we query all data:
    let gotten = store.find_all_votes().unwrap();

    // Then it should have the original datum:
    assert!(gotten.contains(&vote));
    // ... and not have anything else:
    assert!(gotten.len() == 1);

    // And when we query all data:
    let gotten = store.find_all_transfers().unwrap();

    // Then it should have the original datum:
    assert!(gotten.contains(&transfer));
    // ... and not have anything else:
    assert!(gotten.len() == 1);
}

#[test]
fn votes_found_by_index() {
    // Given a store with some data having the same block index:
    let vote = Vote {
        signature: sig(18),
        block_index: 777,
        timestamp: 1234567890,
        author: addr(19),
        target: addr(20),
    };
    let vote2 = Vote {
        signature: sig(21),
        block_index: 777,
        timestamp: 1234567891,
        author: addr(22),
        target: addr(23),
    };
    let mut store = disposable();
    store.save_vote(&vote).unwrap();
    store.save_vote(&vote2).unwrap();

    // When we query by that common block index:
    let gotten = store.find_votes_by_block_index(777).unwrap();

    // Then it should be found:
    assert!(gotten.contains(&vote));
    assert!(gotten.contains(&vote2));
    assert_eq!(gotten.len(), 2);
}

#[test]
fn transfers_found_by_index() {
    // Given a store with some data having the same block index:
    let transfer = Transfer {
        signature: sig(24),
        block_index: 777,
        timestamp: 1234567890,
        source: addr(25),
        destination: addr(26),
        lamports: 0,
    };
    let transfer2 = Transfer {
        signature: sig(27),
        block_index: 777,
        timestamp: 1234567891,
        source: addr(28),
        destination: addr(29),
        lamports: 0,
    };
    let mut store = disposable();
    store.save_transfer(&transfer).unwrap();
    store.save_transfer(&transfer2).unwrap();

    // When we query by that common block index:
    let gotten = store.find_transfers_by_block_index(777).unwrap();

    // Then it should be found:
    assert!(gotten.contains(&transfer));
    assert!(gotten.contains(&transfer2));
    assert_eq!(gotten.len(), 2);
}

#[test]
fn watermark_never_decreases() {
    // An empty store has no watermark; the first commit sets it; a
    // commit below it leaves it alone.
    let mut store = disposable();
    assert_eq!(store.last_known_block(), None);

    let high = Vote {
        signature: sig(30),
        block_index: 100,
        timestamp: 1,
        author: addr(31),
        target: addr(32),
    };
    store.save_vote(&high).unwrap();
    assert_eq!(store.last_known_block(), Some(100));

    let low = Transfer {
        signature: sig(33),
        block_index: 50,
        timestamp: 2,
        source: addr(34),
        destination: addr(35),
        lamports: 9,
    };
    store.save_transfer(&low).unwrap();
    assert_eq!(store.last_known_block(), Some(100));
}

#[test]
fn saving_twice_keeps_one_row() {
    // Saving the same record twice leaves one primary row and one set of
    // index entries.
    let vote = Vote {
        signature: sig(36),
        block_index: 42,
        timestamp: 7,
        author: addr(37),
        target: addr(38),
    };
    let mut store = disposable();
    store.save_vote(&vote).unwrap();
    store.save_vote(&vote).unwrap();

    let all = store.find_all_votes().unwrap();
    assert_eq!(all.len(), 1);
    assert!(all.contains(&vote));

    let indexed = store.find_votes_by_block_index(42).unwrap();
    assert_eq!(indexed.len(), 1);
    assert!(indexed.contains(&vote));
}

#[test]
fn index_returns_exactly_the_matching_block() {
    // With two votes at one height and three at another, the indexed
    // lookup answers with exactly the two.
    let mut store = disposable();
    let mut expected = Vec::new();
    for n in 0..2u8 {
        let vote = Vote {
            signature: sig(40 + n),
            block_index: 777,
            timestamp: 1234567890 + n as u64,
            author: addr(50 + n),
            target: addr(60 + n),
        };
        store.save_vote(&vote).unwrap();
        expected.push(vote);
    }
    for n in 0..3u8 {
        let other = Vote {
            signature: sig(70 + n),
            block_index: 778,
            timestamp: 1234567890 + n as u64,
            author: addr(80 + n),
            target: addr(90 + n),
        };
        store.save_vote(&other).unwrap();
    }

    let gotten = indexer::finding_votes::find_votes_with_block_index(&store, 777).unwrap();
    assert_eq!(gotten.len(), 2);
    for vote in &expected {
        assert!(gotten.contains(vote));
    }
}

#[test]
fn overwriting_reindexes_a_record() {
    // Re-saving under the same signature with a new height moves the
    // record as seen through the index filter.
    let mut store = disposable();
    let first = Vote {
        signature: sig(95),
        block_index: 1,
        timestamp: 10,
        author: addr(96),
        target: addr(97),
    };
    store.save_vote(&first).unwrap();
    let second = Vote {
        signature: sig(95),
        block_index: 2,
        timestamp: 11,
        author: addr(96),
        target: addr(97),
    };
    store.save_vote(&second).unwrap();

    let at_one = indexer::finding_votes::find_votes_with_block_index(&store, 1).unwrap();
    assert_eq!(at_one.len(), 0);
    let at_two = indexer::finding_votes::find_votes_with_block_index(&store, 2).unwrap();
    assert_eq!(at_two, vec![second]);
}

#[test]
fn a_first_commit_sets_the_watermark_even_at_height_zero() {
    // The watermark is absent until the first record is committed, and
    // present from then on, whatever the height.
    let mut store = disposable();
    assert_eq!(store.last_known_block(), None);

    let genesis = Vote {
        signature: sig(110),
        block_index: 0,
        timestamp: 3,
        author: addr(111),
        target: addr(112),
    };
    store.save_vote(&genesis).unwrap();
    assert_eq!(store.last_known_block(), Some(0));

    let later = Vote {
        signature: sig(113),
        block_index: 5,
        timestamp: 4,
        author: addr(111),
        target: addr(112),
    };
    store.save_vote(&later).unwrap();
    assert_eq!(store.last_known_block(), Some(5));
}

#[test]
fn exported_rows_reopen_the_store_with_its_data_intact() {
    // What export_rows carries away, from_rows brings back whole: the
    // watermark, the records, and the index.
    let mut store = disposable();
    let vote = Vote {
        signature: sig(120),
        block_index: 777,
        timestamp: 1234567890,
        author: addr(121),
        target: addr(122),
    };
    let transfer = Transfer {
        signature: sig(123),
        block_index: 778,
        timestamp: 1234567891,
        source: addr(124),
        destination: addr(125),
        lamports: 6,
    };
    store.save_vote(&vote).unwrap();
    store.save_transfer(&transfer).unwrap();

    let rows = store.export_rows();
    let reopened = Store::from_rows(rows);

    assert_eq!(reopened.last_known_block(), Some(778));
    assert_eq!(reopened.find_vote(&vote.signature), Some(vote.clone()));
    assert_eq!(reopened.find_transfer(&transfer.signature), Some(transfer.clone()));
    assert_eq!(reopened.find_votes_by_block_index(777).unwrap(), vec![vote]);
    assert_eq!(reopened.find_all_transfers().unwrap(), vec![transfer]);
}
