//! The ingestion pipeline: decoding records out of parsed blocks, the
//! retry policy, the committer's turns, the channel's backpressure, and
//! the order-preserving key encoding.

use indexer::codec;
use indexer::extraction::{
    extract_transactions, extraction_step, first_slot_in_epoch, initial_block, BlockOutcome,
    EpochScheduleInfo, InstructionInfo, Json, Supervisor, TransactionInfo,
};
use indexer::record::Record;
use indexer::result::Error;
use indexer::store::{commit_record, committer_step, CommitterEvent, CommitterVerdict, Store};

const VOTE_PROGRAM: &str = "Vote111111111111111111111111111111111111111";
const SYSTEM_PROGRAM: &str = "11111111111111111111111111111111";

fn sig_text(n: u8) -> String {
    solana_sdk::signature::Signature::from([n; 64]).to_string()
}

fn addr_text(n: u8) -> String {
    solana_sdk::pubkey::Pubkey::new_from_array([n; 32]).to_string()
}

fn obj(fields: Vec<(&str, Json)>) -> Json {
    Json::Obj(fields.into_iter().map(|(k, v)| (k.to_owned(), v)).collect())
}

fn vote_payload(account: String, authority: String) -> Json {
    obj(vec![(
        "info",
        obj(vec![
            ("voteAccount", Json::Str(account)),
            ("voteAuthority", Json::Str(authority)),
        ]),
    )])
}

fn transfer_payload(source: String, destination: String, lamports: Option<u64>) -> Json {
    obj(vec![(
        "info",
        obj(vec![
            ("source", Json::Str(source)),
            ("destination", Json::Str(destination)),
            ("lamports", Json::Num(lamports)),
        ]),
    )])
}

fn tx(signature: String, instructions: Vec<InstructionInfo>) -> TransactionInfo {
    TransactionInfo {
        json_form: true,
        signatures: vec![signature],
        parsed_message: true,
        instructions,
    }
}

fn ins(program_id: &str, payload: Json) -> InstructionInfo {
    InstructionInfo { fully_parsed: true, program_id: program_id.to_owned(), payload }
}

#[test]
fn votes_and_transfers_are_extracted() {
    let transactions = vec![
        tx(
            sig_text(1),
            vec![ins(VOTE_PROGRAM, vote_payload(addr_text(2), addr_text(3)))],
        ),
        tx(
            sig_text(4),
            vec![ins(SYSTEM_PROGRAM, transfer_payload(addr_text(5), addr_text(6), Some(250)))],
        ),
    ];
    let (records, fault) = extract_transactions(70, 1234567890, &transactions);
    assert!(fault.is_none());
    assert_eq!(records.len(), 2);
    match &records[0] {
        Record::Vote(v) => {
            assert_eq!(v.signature, vec![1u8; 64]);
            assert_eq!(v.block_index, 70);
            assert_eq!(v.timestamp, 1234567890);
            assert_eq!(v.author, vec![3u8; 32]);
            assert_eq!(v.target, vec![2u8; 32]);
        },
        Record::Transfer(_) => panic!("expected a vote first"),
    }
    match &records[1] {
        Record::Transfer(t) => {
            assert_eq!(t.signature, vec![4u8; 64]);
            assert_eq!(t.source, vec![5u8; 32]);
            assert_eq!(t.destination, vec![6u8; 32]);
            assert_eq!(t.lamports, 250);
        },
        Record::Vote(_) => panic!("expected a transfer second"),
    }
}

#[test]
fn unrelated_instructions_are_skipped() {
    let transactions = vec![
        tx(
            sig_text(1),
            vec![
                ins("Stake11111111111111111111111111111111111111", Json::Null),
                InstructionInfo {
                    fully_parsed: false,
                    program_id: VOTE_PROGRAM.to_owned(),
                    payload: Json::Null,
                },
                ins(VOTE_PROGRAM, obj(vec![("info", Json::Null)])),
            ],
        ),
        TransactionInfo {
            json_form: false,
            signatures: vec![sig_text(2)],
            parsed_message: true,
            instructions: vec![ins(VOTE_PROGRAM, vote_payload(addr_text(2), addr_text(3)))],
        },
        TransactionInfo {
            json_form: true,
            signatures: vec![],
            parsed_message: true,
            instructions: vec![ins(VOTE_PROGRAM, vote_payload(addr_text(2), addr_text(3)))],
        },
        TransactionInfo {
            json_form: true,
            signatures: vec!["garbage!".to_owned()],
            parsed_message: true,
            instructions: vec![ins(VOTE_PROGRAM, vote_payload(addr_text(2), addr_text(3)))],
        },
        TransactionInfo {
            json_form: true,
            signatures: vec![sig_text(3)],
            parsed_message: false,
            instructions: vec![ins(VOTE_PROGRAM, vote_payload(addr_text(2), addr_text(3)))],
        },
    ];
    let (records, fault) = extract_transactions(70, 0, &transactions);
    assert!(fault.is_none());
    assert!(records.is_empty());
}

#[test]
fn unparseable_address_stops_the_attempt() {
    let transactions = vec![tx(
        sig_text(1),
        vec![ins(VOTE_PROGRAM, vote_payload("not-base58!".to_owned(), addr_text(3)))],
    )];
    let (records, fault) = extract_transactions(70, 0, &transactions);
    assert!(records.is_empty());
    assert_eq!(fault, Some(Error::SolanaBadPubkey));
}

#[test]
fn unrepresentable_amount_stops_the_attempt() {
    let transactions = vec![tx(
        sig_text(1),
        vec![ins(SYSTEM_PROGRAM, transfer_payload(addr_text(5), addr_text(6), None))],
    )];
    let (records, fault) = extract_transactions(70, 0, &transactions);
    assert!(records.is_empty());
    assert_eq!(fault, Some(Error::SolanaBadNumber));
}

#[test]
fn records_before_a_fault_still_stand() {
    let transactions = vec![
        tx(
            sig_text(1),
            vec![ins(VOTE_PROGRAM, vote_payload(addr_text(2), addr_text(3)))],
        ),
        tx(
            sig_text(4),
            vec![ins(VOTE_PROGRAM, vote_payload("broken!".to_owned(), addr_text(3)))],
        ),
    ];
    let (records, fault) = extract_transactions(70, 0, &transactions);
    assert_eq!(records.len(), 1);
    assert_eq!(fault, Some(Error::SolanaBadPubkey));
}

#[test]
fn extraction_step_advances_over_missing_blocks() {
    let step = extraction_step(10, &BlockOutcome::Missing);
    assert!(step.records.is_empty());
    assert!(step.abort.is_none());
    assert_eq!(step.next_block, 11);
}

#[test]
fn extraction_step_holds_the_cursor_on_a_fault() {
    let step = extraction_step(10, &BlockOutcome::Failed);
    assert!(step.records.is_empty());
    assert_eq!(step.abort, Some(Error::SolanaClient));
    assert_eq!(step.next_block, 10);
}

#[test]
fn bounded_retry_stops_after_the_third_retry() {
    // Four consecutive failures: the first three retries keep going, the
    // fourth failure gives up.
    let mut supervisor = Supervisor::new();
    assert!(!supervisor.register_failure());
    assert!(!supervisor.register_failure());
    assert!(!supervisor.register_failure());
    assert!(supervisor.register_failure());
}

#[test]
fn committer_commits_arrived_records() {
    let mut store = Store::new();
    let vote = indexer::record::Vote {
        signature: vec![1u8; 64],
        block_index: 9,
        timestamp: 90,
        author: vec![2u8; 32],
        target: vec![3u8; 32],
    };
    let verdict = committer_step(&mut store, CommitterEvent::Arrived(Record::Vote(vote.clone())));
    assert_eq!(verdict, CommitterVerdict::Continue);
    assert_eq!(store.find_vote(&vote.signature), Some(vote));
    assert_eq!(store.last_known_block(), Some(9));

    let verdict = committer_step(&mut store, CommitterEvent::Closed);
    assert_eq!(verdict, CommitterVerdict::Stop);
}

#[test]
fn cancellation_stops_the_committer_at_once() {
    // Even with work it could still do, a cancelled committer stops
    // without touching the store.
    let mut store = Store::new();
    let transfer = indexer::record::Transfer {
        signature: vec![1u8; 64],
        block_index: 9,
        timestamp: 90,
        source: vec![2u8; 32],
        destination: vec![3u8; 32],
        lamports: 4,
    };
    commit_record(&mut store, &Record::Transfer(transfer)).unwrap();
    let before = store.last_known_block();

    let verdict = committer_step(&mut store, CommitterEvent::Cancelled);
    assert_eq!(verdict, CommitterVerdict::Stop);
    assert_eq!(store.last_known_block(), before);
    assert_eq!(store.find_all_transfers().unwrap().len(), 1);
}

#[test]
fn channel_of_capacity_one_applies_backpressure() {
    // With capacity 1, a second record cannot be handed over until the
    // first is consumed.
    let (tx, mut rx) = tokio::sync::mpsc::channel::<Record>(1);
    let first = Record::Vote(indexer::record::Vote {
        signature: vec![1u8; 64],
        block_index: 1,
        timestamp: 1,
        author: vec![2u8; 32],
        target: vec![3u8; 32],
    });
    let second = Record::Vote(indexer::record::Vote {
        signature: vec![4u8; 64],
        block_index: 2,
        timestamp: 2,
        author: vec![5u8; 32],
        target: vec![6u8; 32],
    });
    assert!(tx.try_send(first).is_ok());
    match tx.try_send(second.clone()) {
        Err(tokio::sync::mpsc::error::TrySendError::Full(_)) => {},
        _ => panic!("the second record should have been held back"),
    }
    assert!(rx.try_recv().is_ok());
    assert!(tx.try_send(second).is_ok());
}

#[test]
fn big_endian_keys_preserve_numeric_order() {
    // The index keys for increasing heights compare in the same order as
    // the heights themselves, byte by byte.
    let mut low = Vec::new();
    codec::push_u64_be(&mut low, 777);
    let mut high = Vec::new();
    codec::push_u64_be(&mut high, 778);
    let mut huge = Vec::new();
    codec::push_u64_be(&mut huge, 1 << 40);
    assert_eq!(low.len(), 8);
    assert!(low < high);
    assert!(high < huge);
    assert_eq!(codec::read_u64_be(&low, 0), 777);
}

#[test]
fn corrupt_rows_read_as_absent() {
    assert!(indexer::record::decode_vote(&vec![0u8; 10]).is_none());
    assert!(indexer::record::decode_transfer(&vec![0u8; 151]).is_none());
    let vote = indexer::record::Vote {
        signature: vec![1u8; 64],
        block_index: 5,
        timestamp: 6,
        author: vec![2u8; 32],
        target: vec![3u8; 32],
    };
    let bytes = indexer::record::encode_vote(&vote);
    assert_eq!(indexer::record::decode_vote(&bytes), Some(vote));
}

#[test]
fn the_settings_have_their_documented_defaults() {
    let args = indexer::args::Args::default();
    assert_eq!(args.port, 8989);
    assert_eq!(args.host, "localhost");
    assert!(!args.dry);
    assert_eq!(args.url, "https://api.mainnet-beta.solana.com");
    assert_eq!(args.store_path, ".store");
}

#[test]
fn schedule_arithmetic_saturates_at_the_range_end() {
    let schedule = EpochScheduleInfo {
        slots_per_epoch: u64::MAX,
        first_normal_epoch: 70,
        first_normal_slot: 5,
    };
    // Warmup epochs past the doubling range pin at the end of the range:
    assert_eq!(first_slot_in_epoch(&schedule, 65), u64::MAX);
    // An overflowing uniform-epoch product pins there too:
    assert_eq!(first_slot_in_epoch(&schedule, 80), u64::MAX);
    // And so does the height after the last one:
    assert_eq!(indexer::extraction::block_after(u64::MAX), u64::MAX);
}

#[test]
fn the_cursor_starts_after_the_watermark() {
    let schedule = EpochScheduleInfo {
        slots_per_epoch: 432000,
        first_normal_epoch: 14,
        first_normal_slot: 524256,
    };
    // With a watermark, the cursor starts one past it:
    assert_eq!(initial_block(Some(41), &schedule, 20), 42);
    // Without one, it starts at the first slot of the current epoch:
    assert_eq!(initial_block(None, &schedule, 20), (20 - 14) * 432000 + 524256);
    // During the warmup period epochs double in length from 32 slots:
    assert_eq!(first_slot_in_epoch(&schedule, 3), (8 - 1) * 32);
    assert_eq!(first_slot_in_epoch(&schedule, 0), 0);
}
