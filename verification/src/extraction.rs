//! Decoding domain records out of parsed block data.
//!
//! The network hands back transactions whose instructions are parsed into
//! JSON-shaped payloads. The logic here walks that shape, dispatches on
//! the program identifier, and forms `Record`s; everything that only the
//! ledger's own crates can do (parsing the base58 identifier strings) sits
//! behind two trusted wrappers.

use vstd::prelude::*;

use crate::record::{Record, RecordView, Transfer, TransferView, Vote, VoteView};
use crate::result::Error;

verus! {

/// A JSON-shaped instruction payload, as plain values: a number carries
/// its 64-bit reading, or nothing when it has none.
pub enum Json {
    Null,
    Bool(bool),
    Num(Option<u64>),
    Str(String),
    Arr(Vec<Json>),
    Obj(Vec<(String, Json)>),
}

/// The value under the first field named `key`, if any.
pub open spec fn obj_get(fields: Seq<(String, Json)>, key: Seq<char>) -> Option<Json>
    decreases fields.len(),
{
    if fields.len() == 0 {
        None
    } else if fields[0].0@ == key {
        Some(fields[0].1)
    } else {
        obj_get(fields.skip(1), key)
    }
}

/// The first match in a field list is the one `obj_get` reads.
proof fn lemma_obj_get_found(fields: Seq<(String, Json)>, key: Seq<char>, i: int)
    requires
        0 <= i < fields.len(),
        fields[i].0@ == key,
        forall|j: int| 0 <= j < i ==> fields[j].0@ != key,
    ensures
        obj_get(fields, key) == Some(fields[i].1),
    decreases i,
{
    if i > 0 {
        assert(forall|j: int| 0 <= j < i - 1 ==> fields.skip(1)[j] == fields[j + 1]);
        lemma_obj_get_found(fields.skip(1), key, i - 1);
    }
}

/// When no field carries the key, `obj_get` reads nothing.
proof fn lemma_obj_get_missing(fields: Seq<(String, Json)>, key: Seq<char>)
    requires
        forall|j: int| 0 <= j < fields.len() ==> fields[j].0@ != key,
    ensures
        obj_get(fields, key) is None,
    decreases fields.len(),
{
    if fields.len() > 0 {
        assert(forall|j: int| 0 <= j < fields.len() - 1 ==> fields.skip(1)[j] == fields[j + 1]);
        lemma_obj_get_missing(fields.skip(1), key);
    }
}

/// Finds the first field named `key`.
fn lookup<'a>(fields: &'a Vec<(String, Json)>, key: &String) -> (r: Option<&'a Json>)
    ensures
        match r {
            Some(j) => obj_get(fields@, key@) == Some(*j),
            None => obj_get(fields@, key@) is None,
        },
{
    let n = fields.len();
    let mut i: usize = 0;
    while i < n
        invariant
            0 <= i <= n,
            fields@.len() == n,
            forall|j: int| 0 <= j < i ==> fields@[j].0@ != key@,
        decreases n - i,
    {
        if fields[i].0 == *key {
            proof {
                lemma_obj_get_found(fields@, key@, i as int);
            }
            return Some(&fields[i].1);
        }
        i = i + 1;
    }
    proof {
        lemma_obj_get_missing(fields@, key@);
    }
    None
}

/// The account address that a base58 string denotes, or nothing when the
/// string denotes none. What this reads is fixed by the ledger's own
/// parsing rules, a function of the characters alone.
pub uninterp spec fn pubkey_of(s: Seq<char>) -> Option<Seq<u8>>;

/// The transaction signature that a base58 string denotes, or nothing
/// when the string denotes none.
pub uninterp spec fn sig_of(s: Seq<char>) -> Option<Seq<u8>>;

/// Relies on `solana_sdk::pubkey::Pubkey::from_str`: parses a base58
/// account address of exactly 32 bytes, a function of the string alone;
/// its `to_bytes` hands those bytes back.
#[verifier::external_body]
pub(crate) fn parse_pubkey(s: &str) -> (r: Result<Vec<u8>, Error>)
    ensures
        match r {
            Ok(b) => pubkey_of(s@) == Some(b@) && b@.len() == 32,
            Err(e) => e == Error::SolanaBadPubkey && pubkey_of(s@) is None,
        },
{
    match <solana_sdk::pubkey::Pubkey as std::str::FromStr>::from_str(s) {
        Ok(p) => Ok(p.to_bytes().to_vec()),
        Err(_) => Err(Error::SolanaBadPubkey),
    }
}

/// Relies on `solana_sdk::signature::Signature::from_str`: parses a
/// base58 transaction signature of exactly 64 bytes, a function of the
/// string alone; `as_ref` hands those bytes back.
#[verifier::external_body]
pub(crate) fn parse_signature(s: &str) -> (r: Result<Vec<u8>, Error>)
    ensures
        match r {
            Ok(b) => sig_of(s@) == Some(b@) && b@.len() == 64,
            Err(e) => e == Error::SolanaBadSignature && sig_of(s@) is None,
        },
{
    match <solana_sdk::signature::Signature as std::str::FromStr>::from_str(s) {
        Ok(sig) => Ok(<solana_sdk::signature::Signature as AsRef<[u8]>>::as_ref(&sig).to_vec()),
        Err(_) => Err(Error::SolanaBadSignature),
    }
}

/// What decoding a vote payload yields: nothing when the payload is not
/// shaped like a vote (skipped silently), an error when an address is
/// present but unparseable, and the vote otherwise.
pub open spec fn spec_vote_from_payload(
    sig: Seq<u8>,
    block_index: u64,
    timestamp: u64,
    data: Json,
) -> Result<Option<VoteView>, Error> {
    match data {
        Json::Obj(fields) => match obj_get(fields@, "info"@) {
            Some(Json::Obj(info)) => match obj_get(info@, "voteAccount"@) {
                Some(Json::Str(account)) => match obj_get(info@, "voteAuthority"@) {
                    Some(Json::Str(authority)) => match pubkey_of(account@) {
                        Some(target) => match pubkey_of(authority@) {
                            Some(author) => Ok(
                                Some(
                                    VoteView {
                                        signature: sig,
                                        block_index: block_index,
                                        timestamp: timestamp,
                                        author: author,
                                        target: target,
                                    },
                                ),
                            ),
                            None => Err(Error::SolanaBadPubkey),
                        },
                        None => Err(Error::SolanaBadPubkey),
                    },
                    _ => Ok(None),
                },
                _ => Ok(None),
            },
            _ => Ok(None),
        },
        _ => Ok(None),
    }
}

/// What decoding a transfer payload yields: nothing when the payload is
/// not shaped like a transfer, an error when an address is unparseable or
/// the amount is present but not a 64-bit number, and the transfer
/// otherwise.
pub open spec fn spec_transfer_from_payload(
    sig: Seq<u8>,
    block_index: u64,
    timestamp: u64,
    data: Json,
) -> Result<Option<TransferView>, Error> {
    match data {
        Json::Obj(fields) => match obj_get(fields@, "info"@) {
            Some(Json::Obj(info)) => match obj_get(info@, "source"@) {
                Some(Json::Str(source)) => match obj_get(info@, "destination"@) {
                    Some(Json::Str(destination)) => match obj_get(info@, "lamports"@) {
                        Some(Json::Num(amount)) => match pubkey_of(source@) {
                            Some(source_bytes) => match pubkey_of(destination@) {
                                Some(destination_bytes) => match amount {
                                    Some(lamports) => Ok(
                                        Some(
                                            TransferView {
                                                signature: sig,
                                                block_index: block_index,
                                                timestamp: timestamp,
                                                source: source_bytes,
                                                destination: destination_bytes,
                                                lamports: lamports,
                                            },
                                        ),
                                    ),
                                    None => Err(Error::SolanaBadNumber),
                                },
                                None => Err(Error::SolanaBadPubkey),
                            },
                            None => Err(Error::SolanaBadPubkey),
                        },
                        _ => Ok(None),
                    },
                    _ => Ok(None),
                },
                _ => Ok(None),
            },
            _ => Ok(None),
        },
        _ => Ok(None),
    }
}

/// True when the executable result reads as the specified one.
pub open spec fn vote_result_matches(
    r: Result<Option<Vote>, Error>,
    s: Result<Option<VoteView>, Error>,
) -> bool {
    match (r, s) {
        (Ok(None), Ok(None)) => true,
        (Ok(Some(v)), Ok(Some(w))) => v@ == w && v@.wf(),
        (Err(e1), Err(e2)) => e1 == e2,
        _ => false,
    }
}

/// True when the executable result reads as the specified one.
pub open spec fn transfer_result_matches(
    r: Result<Option<Transfer>, Error>,
    s: Result<Option<TransferView>, Error>,
) -> bool {
    match (r, s) {
        (Ok(None), Ok(None)) => true,
        (Ok(Some(t)), Ok(Some(w))) => t@ == w && t@.wf(),
        (Err(e1), Err(e2)) => e1 == e2,
        _ => false,
    }
}

/// Digs into a vote instruction payload and forms the vote, skipping
/// silently whatever is not really a vote.
pub fn vote_from_payload(
    signature: &Vec<u8>,
    block_index: u64,
    timestamp: u64,
    data: &Json,
) -> (r: Result<Option<Vote>, Error>)
    requires
        signature@.len() == 64,
    ensures
        vote_result_matches(r, spec_vote_from_payload(signature@, block_index, timestamp, *data)),
{
    let fields = match data {
        Json::Obj(fields) => fields,
        _ => {
            return Ok(None);
        },
    };
    let info = match lookup(fields, &"info".to_owned()) {
        Some(Json::Obj(info)) => info,
        _ => {
            return Ok(None);
        },
    };
    let account = match lookup(info, &"voteAccount".to_owned()) {
        Some(Json::Str(account)) => account,
        _ => {
            return Ok(None);
        },
    };
    let authority = match lookup(info, &"voteAuthority".to_owned()) {
        Some(Json::Str(authority)) => authority,
        _ => {
            return Ok(None);
        },
    };
    let target = match parse_pubkey(account.as_str()) {
        Ok(target) => target,
        Err(e) => {
            return Err(e);
        },
    };
    let author = match parse_pubkey(authority.as_str()) {
        Ok(author) => author,
        Err(e) => {
            return Err(e);
        },
    };
    let vote = Vote {
        signature: crate::codec::copy_range(signature, 0, signature.len()),
        block_index: block_index,
        timestamp: timestamp,
        author: author,
        target: target,
    };
    assert(vote.signature@ =~= signature@);
    Ok(Some(vote))
}

/// Digs into a transfer instruction payload and forms the transfer,
/// skipping silently whatever is not really a transfer.
pub fn transfer_from_payload(
    signature: &Vec<u8>,
    block_index: u64,
    timestamp: u64,
    data: &Json,
) -> (r: Result<Option<Transfer>, Error>)
    requires
        signature@.len() == 64,
    ensures
        transfer_result_matches(
            r,
            spec_transfer_from_payload(signature@, block_index, timestamp, *data),
        ),
{
    let fields = match data {
        Json::Obj(fields) => fields,
        _ => {
            return Ok(None);
        },
    };
    let info = match lookup(fields, &"info".to_owned()) {
        Some(Json::Obj(info)) => info,
        _ => {
            return Ok(None);
        },
    };
    let source = match lookup(info, &"source".to_owned()) {
        Some(Json::Str(source)) => source,
        _ => {
            return Ok(None);
        },
    };
    let destination = match lookup(info, &"destination".to_owned()) {
        Some(Json::Str(destination)) => destination,
        _ => {
            return Ok(None);
        },
    };
    let amount = match lookup(info, &"lamports".to_owned()) {
        Some(Json::Num(amount)) => *amount,
        _ => {
            return Ok(None);
        },
    };
    let source_bytes = match parse_pubkey(source.as_str()) {
        Ok(b) => b,
        Err(e) => {
            return Err(e);
        },
    };
    let destination_bytes = match parse_pubkey(destination.as_str()) {
        Ok(b) => b,
        Err(e) => {
            return Err(e);
        },
    };
    let lamports = match amount {
        Some(lamports) => lamports,
        None => {
            return Err(Error::SolanaBadNumber);
        },
    };
    let transfer = Transfer {
        signature: crate::codec::copy_range(signature, 0, signature.len()),
        block_index: block_index,
        timestamp: timestamp,
        source: source_bytes,
        destination: destination_bytes,
        lamports: lamports,
    };
    assert(transfer.signature@ =~= signature@);
    Ok(Some(transfer))
}

/// The ledger's vote program identifier; instructions under it are vote
/// candidates.
pub open spec fn vote_program_id() -> Seq<char> {
    "Vote111111111111111111111111111111111111111"@
}

/// The ledger's native transfer (system) program identifier; instructions
/// under it are transfer candidates.
pub open spec fn system_program_id() -> Seq<char> {
    "11111111111111111111111111111111"@
}

/// One instruction of a transaction, as the network parsed it: whether it
/// was fully decoded, which program it addresses, and its payload.
pub struct InstructionInfo {
    /// False for partially-decoded instructions, which are skipped
    /// silently.
    pub fully_parsed: bool,
    /// The program identifier the dispatch goes by.
    pub program_id: String,
    /// The parsed payload.
    pub payload: Json,
}

/// One transaction of a block, as the network encoded it.
pub struct TransactionInfo {
    /// Whether the transaction came in the requested JSON encoding; any
    /// other encoding is skipped.
    pub json_form: bool,
    /// The transaction's signatures; the first uniquely identifies it.
    pub signatures: Vec<String>,
    /// Whether the message came in parsed form; any other form is
    /// skipped.
    pub parsed_message: bool,
    /// The instructions of the message.
    pub instructions: Vec<InstructionInfo>,
}

/// What one instruction contributes: nothing for partially-decoded
/// instructions and for programs other than the vote and transfer
/// programs, else whatever its payload decodes to.
pub open spec fn spec_record_of_instruction(
    sig: Seq<u8>,
    block_index: u64,
    timestamp: u64,
    ins: InstructionInfo,
) -> Result<Option<RecordView>, Error> {
    if !ins.fully_parsed {
        Ok(None)
    } else if ins.program_id@ == vote_program_id() {
        match spec_vote_from_payload(sig, block_index, timestamp, ins.payload) {
            Ok(Some(v)) => Ok(Some(RecordView::Vote(v))),
            Ok(None) => Ok(None),
            Err(e) => Err(e),
        }
    } else if ins.program_id@ == system_program_id() {
        match spec_transfer_from_payload(sig, block_index, timestamp, ins.payload) {
            Ok(Some(t)) => Ok(Some(RecordView::Transfer(t))),
            Ok(None) => Ok(None),
            Err(e) => Err(e),
        }
    } else {
        Ok(None)
    }
}

/// True when the executable result reads as the specified one.
pub open spec fn record_result_matches(
    r: Result<Option<Record>, Error>,
    s: Result<Option<RecordView>, Error>,
) -> bool {
    match (r, s) {
        (Ok(None), Ok(None)) => true,
        (Ok(Some(rec)), Ok(Some(w))) => rec@ == w && w.wf(),
        (Err(e1), Err(e2)) => e1 == e2,
        _ => false,
    }
}

/// Dispatches one instruction by its program identifier.
pub fn record_of_instruction(
    signature: &Vec<u8>,
    block_index: u64,
    timestamp: u64,
    ins: &InstructionInfo,
) -> (r: Result<Option<Record>, Error>)
    requires
        signature@.len() == 64,
    ensures
        record_result_matches(
            r,
            spec_record_of_instruction(signature@, block_index, timestamp, *ins),
        ),
{
    if !ins.fully_parsed {
        return Ok(None);
    }
    if ins.program_id == "Vote111111111111111111111111111111111111111".to_owned() {
        match vote_from_payload(signature, block_index, timestamp, &ins.payload) {
            Ok(Some(v)) => Ok(Some(Record::Vote(v))),
            Ok(None) => Ok(None),
            Err(e) => Err(e),
        }
    } else if ins.program_id == "11111111111111111111111111111111".to_owned() {
        match transfer_from_payload(signature, block_index, timestamp, &ins.payload) {
            Ok(Some(t)) => Ok(Some(Record::Transfer(t))),
            Ok(None) => Ok(None),
            Err(e) => Err(e),
        }
    } else {
        Ok(None)
    }
}

/// The records read in sequence from a run of instructions, together with
/// the error that stopped the run, if one did. Records formed before the
/// error stand: they were already handed on.
pub open spec fn spec_fold_instructions(
    sig: Seq<u8>,
    block_index: u64,
    timestamp: u64,
    inss: Seq<InstructionInfo>,
) -> (Seq<RecordView>, Option<Error>)
    decreases inss.len(),
{
    if inss.len() == 0 {
        (Seq::empty(), None)
    } else {
        match spec_record_of_instruction(sig, block_index, timestamp, inss[0]) {
            Err(e) => (Seq::empty(), Some(e)),
            Ok(None) => spec_fold_instructions(sig, block_index, timestamp, inss.skip(1)),
            Ok(Some(r)) => {
                let rest = spec_fold_instructions(sig, block_index, timestamp, inss.skip(1));
                (seq![r] + rest.0, rest.1)
            },
        }
    }
}

/// The records read from one transaction: transactions that are not in
/// the requested JSON form, carry no signature, carry an unparseable
/// signature, or whose message is not parsed, are skipped whole.
pub open spec fn spec_records_of_transaction(
    block_index: u64,
    timestamp: u64,
    tx: TransactionInfo,
) -> (Seq<RecordView>, Option<Error>) {
    if !tx.json_form {
        (Seq::empty(), None)
    } else if tx.signatures@.len() == 0 {
        (Seq::empty(), None)
    } else {
        match sig_of(tx.signatures@[0]@) {
            None => (Seq::empty(), None),
            Some(sig) => {
                if !tx.parsed_message {
                    (Seq::empty(), None)
                } else {
                    spec_fold_instructions(sig, block_index, timestamp, tx.instructions@)
                }
            },
        }
    }
}

/// The records read from a block's transactions, in order, with the error
/// that stopped the walk, if one did.
pub open spec fn spec_extract_transactions(
    block_index: u64,
    timestamp: u64,
    txs: Seq<TransactionInfo>,
) -> (Seq<RecordView>, Option<Error>)
    decreases txs.len(),
{
    if txs.len() == 0 {
        (Seq::empty(), None)
    } else {
        let head = spec_records_of_transaction(block_index, timestamp, txs[0]);
        match head.1 {
            Some(e) => (head.0, Some(e)),
            None => {
                let rest = spec_extract_transactions(block_index, timestamp, txs.skip(1));
                (head.0 + rest.0, rest.1)
            },
        }
    }
}

/// The records of a run, each read as its mathematical shape.
pub open spec fn views_of(rs: Seq<Record>) -> Seq<RecordView> {
    rs.map_values(|r: Record| r@)
}

/// Every record of a run is well-formed.
pub open spec fn all_wf(rs: Seq<Record>) -> bool {
    forall|i: int| 0 <= i < rs.len() ==> (#[trigger] rs[i]@).wf()
}

/// Reads every record out of one transaction.
pub fn records_of_transaction(
    block_index: u64,
    timestamp: u64,
    tx: &TransactionInfo,
) -> (r: (Vec<Record>, Option<Error>))
    ensures
        views_of(r.0@) == spec_records_of_transaction(block_index, timestamp, *tx).0,
        r.1 == spec_records_of_transaction(block_index, timestamp, *tx).1,
        all_wf(r.0@),
{
    let ghost full = spec_records_of_transaction(block_index, timestamp, *tx);
    if !tx.json_form {
        let out: Vec<Record> = Vec::new();
        assert(views_of(out@) =~= full.0);
        return (out, None);
    }
    if tx.signatures.len() == 0 {
        let out: Vec<Record> = Vec::new();
        assert(views_of(out@) =~= full.0);
        return (out, None);
    }
    let sig = match parse_signature(tx.signatures[0].as_str()) {
        Ok(sig) => sig,
        Err(_) => {
            let out: Vec<Record> = Vec::new();
            assert(views_of(out@) =~= full.0);
            return (out, None);
        },
    };
    if !tx.parsed_message {
        let out: Vec<Record> = Vec::new();
        assert(views_of(out@) =~= full.0);
        return (out, None);
    }
    let n = tx.instructions.len();
    let mut out: Vec<Record> = Vec::new();
    let mut i: usize = 0;
    assert(tx.instructions@.skip(0) =~= tx.instructions@);
    while i < n
        invariant
            0 <= i <= n,
            tx.instructions@.len() == n,
            sig@.len() == 64,
            all_wf(out@),
            full == spec_records_of_transaction(block_index, timestamp, *tx),
            full.0 =~= views_of(out@) + spec_fold_instructions(
                sig@,
                block_index,
                timestamp,
                tx.instructions@.skip(i as int),
            ).0,
            full.1 == spec_fold_instructions(
                sig@,
                block_index,
                timestamp,
                tx.instructions@.skip(i as int),
            ).1,
        decreases n - i,
    {
        let ghost rem = spec_fold_instructions(
            sig@,
            block_index,
            timestamp,
            tx.instructions@.skip(i as int),
        );
        proof {
            assert(tx.instructions@.skip(i as int)[0] == tx.instructions@[i as int]);
            assert(tx.instructions@.skip(i as int).skip(1) =~= tx.instructions@.skip(i + 1));
        }
        let ghost out0 = out@;
        match record_of_instruction(&sig, block_index, timestamp, &tx.instructions[i]) {
            Err(e) => {
                assert(rem.1 == Some(e));
                assert(rem.0 =~= Seq::<RecordView>::empty());
                assert(full.0 =~= views_of(out@));
                return (out, Some(e));
            },
            Ok(None) => {
            },
            Ok(Some(rec)) => {
                out.push(rec);
                proof {
                    assert(out@ == out0.push(rec));
                    assert(views_of(out@) =~= views_of(out0) + seq![rec@]);
                    assert(views_of(out0) + (seq![rec@] + spec_fold_instructions(
                        sig@,
                        block_index,
                        timestamp,
                        tx.instructions@.skip(i + 1),
                    ).0) =~= views_of(out@) + spec_fold_instructions(
                        sig@,
                        block_index,
                        timestamp,
                        tx.instructions@.skip(i + 1),
                    ).0);
                }
            },
        }
        i = i + 1;
    }
    proof {
        assert(tx.instructions@.skip(n as int) =~= Seq::<InstructionInfo>::empty());
        assert(full.0 =~= views_of(out@));
    }
    (out, None)
}

/// Records every relevant instruction contained in a run of transactions.
/// Transactions and instructions that are not in the expected shape are
/// skipped; a payload whose addresses or amounts are present but
/// unparseable stops the run with the error, after the records already
/// read.
pub fn extract_transactions(
    block_index: u64,
    block_time: u64,
    transactions: &Vec<TransactionInfo>,
) -> (r: (Vec<Record>, Option<Error>))
    ensures
        views_of(r.0@) == spec_extract_transactions(block_index, block_time, transactions@).0,
        r.1 == spec_extract_transactions(block_index, block_time, transactions@).1,
        all_wf(r.0@),
{
    let ghost full = spec_extract_transactions(block_index, block_time, transactions@);
    let n = transactions.len();
    let mut out: Vec<Record> = Vec::new();
    let mut i: usize = 0;
    assert(transactions@.skip(0) =~= transactions@);
    while i < n
        invariant
            0 <= i <= n,
            transactions@.len() == n,
            all_wf(out@),
            full == spec_extract_transactions(block_index, block_time, transactions@),
            full.0 =~= views_of(out@) + spec_extract_transactions(
                block_index,
                block_time,
                transactions@.skip(i as int),
            ).0,
            full.1 == spec_extract_transactions(
                block_index,
                block_time,
                transactions@.skip(i as int),
            ).1,
        decreases n - i,
    {
        let ghost rem = spec_extract_transactions(
            block_index,
            block_time,
            transactions@.skip(i as int),
        );
        proof {
            assert(transactions@.skip(i as int)[0] == transactions@[i as int]);
            assert(transactions@.skip(i as int).skip(1) =~= transactions@.skip(i + 1));
        }
        let ghost out0 = out@;
        let (mut records, fault) = records_of_transaction(block_index, block_time, &transactions[i]);
        let ghost head = spec_records_of_transaction(
            block_index,
            block_time,
            transactions@[i as int],
        );
        let ghost records0 = records@;
        out.append(&mut records);
        proof {
            assert(views_of(records0) =~= head.0);
            assert(views_of(out@) =~= views_of(out0) + views_of(records0));
            assert(all_wf(out@)) by {
                assert(forall|a: int|
                    0 <= a < out@.len() ==> out@[a] == (if a < out0.len() {
                        out0[a]
                    } else {
                        records0[a - out0.len()]
                    }));
            }
            assert(views_of(out@) =~= views_of(out0) + head.0);
        }
        match fault {
            Some(e) => {
                assert(rem.1 == Some(e));
                assert(rem.0 =~= head.0);
                assert(full.0 =~= views_of(out@));
                return (out, Some(e));
            },
            None => {
                proof {
                    assert(rem.0 =~= head.0 + spec_extract_transactions(
                        block_index,
                        block_time,
                        transactions@.skip(i + 1),
                    ).0);
                    assert((views_of(out0) + head.0) + spec_extract_transactions(
                        block_index,
                        block_time,
                        transactions@.skip(i + 1),
                    ).0 =~= views_of(out@) + spec_extract_transactions(
                        block_index,
                        block_time,
                        transactions@.skip(i + 1),
                    ).0);
                }
            },
        }
        i = i + 1;
    }
    proof {
        assert(transactions@.skip(n as int) =~= Seq::<TransactionInfo>::empty());
        assert(full.0 =~= views_of(out@));
    }
    (out, None)
}

/// What the extractor needs of the ledger's epoch schedule, as plain
/// values: enough to compute the first slot of an epoch.
#[derive(Clone, Copy, Debug)]
pub struct EpochScheduleInfo {
    /// The maximum number of slots in each epoch.
    pub slots_per_epoch: u64,
    /// The first epoch after the warmup period.
    pub first_normal_epoch: u64,
    /// The first slot after the warmup period.
    pub first_normal_slot: u64,
}

/// An integer clamped into the 64-bit range.
pub open spec fn sat64(x: int) -> u64 {
    if x > u64::MAX {
        u64::MAX
    } else if x < 0 {
        0
    } else {
        x as u64
    }
}

/// The first slot of an epoch: during the warmup period epochs double in
/// length starting from 32 slots, afterwards they are uniform.
pub open spec fn spec_first_slot_in_epoch(s: EpochScheduleInfo, epoch: u64) -> u64 {
    if epoch <= s.first_normal_epoch {
        sat64((vstd::arithmetic::power2::pow2(epoch as nat) - 1) * 32)
    } else {
        sat64((epoch - s.first_normal_epoch) * s.slots_per_epoch + s.first_normal_slot)
    }
}

/// Computes the first slot of an epoch, saturating at the end of the
/// 64-bit range as the ledger's own schedule arithmetic does.
pub fn first_slot_in_epoch(schedule: &EpochScheduleInfo, epoch: u64) -> (r: u64)
    ensures
        r == spec_first_slot_in_epoch(*schedule, epoch),
{
    if epoch <= schedule.first_normal_epoch {
        if epoch >= 60 {
            proof {
                vstd::arithmetic::power2::lemma2_to64();
                vstd::arithmetic::power2::lemma2_to64_rest();
                let pw = vstd::arithmetic::power2::pow2(epoch as nat);
                if epoch > 60 {
                    vstd::arithmetic::power2::lemma_pow2_strictly_increases(60, epoch as nat);
                }
                assert(pw >= 0x1000000000000000);
                assert((pw - 1) * 32 >= (0x1000000000000000 - 1) * 32) by (nonlinear_arith)
                    requires
                        pw >= 0x1000000000000000,
                ;
                assert((pw - 1) * 32 > u64::MAX);
            }
            u64::MAX
        } else {
            proof {
                vstd::arithmetic::power2::lemma2_to64();
                vstd::arithmetic::power2::lemma2_to64_rest();
                let pw = vstd::arithmetic::power2::pow2(epoch as nat);
                if epoch < 59 {
                    vstd::arithmetic::power2::lemma_pow2_strictly_increases(epoch as nat, 59);
                }
                assert(pw <= 0x0800000000000000);
                assert(1u64 * pw == pw);
                vstd::bits::lemma_u64_shl_is_mul(1u64, epoch);
            }
            let p: u64 = 1u64 << epoch;
            assert(p == vstd::arithmetic::power2::pow2(epoch as nat));
            assert(p <= 0x0800000000000000);
            (p - 1) * 32
        }
    } else {
        let d = epoch - schedule.first_normal_epoch;
        let (prod, overflowed) = match d.checked_mul(schedule.slots_per_epoch) {
            Some(p) => (p, false),
            None => (u64::MAX, true),
        };
        let r = prod.saturating_add(schedule.first_normal_slot);
        proof {
            if overflowed {
                assert(d * schedule.slots_per_epoch + schedule.first_normal_slot > u64::MAX);
            }
        }
        r
    }
}

/// The height the extractor starts from: one past the caller-supplied
/// last known block, or, when none is known, the first slot of the
/// ledger's current epoch.
pub open spec fn spec_initial_block(
    since_block: Option<u64>,
    schedule: EpochScheduleInfo,
    current_epoch: u64,
) -> u64 {
    match since_block {
        Some(b) => sat64(b + 1),
        None => spec_first_slot_in_epoch(schedule, current_epoch),
    }
}

/// Picks the height the extractor starts from.
pub fn initial_block(
    since_block: Option<u64>,
    schedule: &EpochScheduleInfo,
    current_epoch: u64,
) -> (r: u64)
    ensures
        r == spec_initial_block(since_block, *schedule, current_epoch),
{
    match since_block {
        Some(b) => b.saturating_add(1),
        None => first_slot_in_epoch(schedule, current_epoch),
    }
}

/// The height after `b`, pinned at the end of the range.
pub open spec fn next_of(b: u64) -> u64 {
    sat64(b + 1)
}

/// Computes the height after `b`.
pub fn block_after(b: u64) -> (r: u64)
    ensures
        r == next_of(b),
{
    b.saturating_add(1)
}

/// What fetching one block can come to, as the extractor sees it: the
/// benign "block not available" answer, any other network fault, or the
/// block's timestamp and transactions.
pub enum BlockOutcome {
    /// The network reported the block as not available: benign, skipped.
    Missing,
    /// Any other network fault: the attempt is torn down.
    Failed,
    /// The block arrived, with its timestamp and its transactions.
    Block(u64, Vec<TransactionInfo>),
}

/// What one turn of the extraction loop decided.
pub struct StepResult {
    /// The records read out of the block, in order, to be emitted.
    pub records: Vec<Record>,
    /// The error that tears the attempt down, if one arose.
    pub abort: Option<Error>,
    /// Where the cursor stands afterwards: advanced past a processed or
    /// missing block, held for a retry otherwise.
    pub next_block: u64,
}

/// One turn of the extraction loop, given what the fetch of
/// `next_block` came to: a missing block is skipped and the cursor
/// advances; any other fetch fault aborts the attempt with the cursor
/// held, as does a payload error, each after the records already read.
pub fn extraction_step(next_block: u64, outcome: &BlockOutcome) -> (r: StepResult)
    ensures
        match outcome {
            BlockOutcome::Missing => r.records@.len() == 0 && r.abort is None && r.next_block
                == next_of(next_block),
            BlockOutcome::Failed => r.records@.len() == 0 && r.abort == Some(Error::SolanaClient)
                && r.next_block == next_block,
            BlockOutcome::Block(block_time, txs) => {
                &&& views_of(r.records@) == spec_extract_transactions(
                    next_block,
                    *block_time,
                    txs@,
                ).0
                &&& all_wf(r.records@)
                &&& match spec_extract_transactions(next_block, *block_time, txs@).1 {
                    Some(e) => r.abort == Some(e) && r.next_block == next_block,
                    None => r.abort is None && r.next_block == next_of(next_block),
                }
            },
        },
{
    match outcome {
        BlockOutcome::Missing => StepResult {
            records: Vec::new(),
            abort: None,
            next_block: next_block.saturating_add(1),
        },
        BlockOutcome::Failed => StepResult {
            records: Vec::new(),
            abort: Some(Error::SolanaClient),
            next_block: next_block,
        },
        BlockOutcome::Block(block_time, txs) => {
            let (records, fault) = extract_transactions(next_block, *block_time, txs);
            match fault {
                Some(e) => StepResult { records: records, abort: Some(e), next_block: next_block },
                None => StepResult {
                    records: records,
                    abort: None,
                    next_block: next_block.saturating_add(1),
                },
            }
        },
    }
}

/// The retry policy wrapped around whole extraction attempts: a fixed
/// number of reconnects, then giving up for good.
pub struct Supervisor {
    /// How many retries have been spent.
    pub retries: u64,
}

impl Supervisor {
    /// A fresh policy with no retries spent.
    pub fn new() -> (s: Supervisor)
        ensures
            s.retries == 0,
    {
        Supervisor { retries: 0 }
    }

    /// Counts a failed attempt; true when the policy gives up: after the
    /// third retry, that is after four attempts in all.
    pub fn register_failure(&mut self) -> (give_up: bool)
        requires
            old(self).retries < u64::MAX,
        ensures
            final(self).retries == old(self).retries + 1,
            give_up == (old(self).retries + 1 > 3),
    {
        self.retries = self.retries + 1;
        self.retries > 3
    }
}

/// How many attempts the retry policy makes, given how each attempt in
/// turn would end (`true` for success) and how many retries are already
/// spent: an attempt is made, and only a failure with retries to spare
/// leads to another.
pub open spec fn spec_attempts(outcomes: Seq<bool>, retries: u64) -> nat
    decreases outcomes.len(),
{
    if outcomes.len() == 0 {
        0
    } else if outcomes[0] {
        1
    } else if retries >= 3 {
        1
    } else {
        1 + spec_attempts(outcomes.skip(1), (retries + 1) as u64)
    }
}

/// With `retries` already spent, at most `4 - retries` attempts follow.
proof fn lemma_attempts_from(outcomes: Seq<bool>, retries: u64)
    requires
        retries <= 3,
    ensures
        spec_attempts(outcomes, retries) <= 4 - retries,
    decreases outcomes.len(),
{
    if outcomes.len() > 0 && !outcomes[0] && retries < 3 {
        lemma_attempts_from(outcomes.skip(1), (retries + 1) as u64);
    }
}

/// Bounded retry: however the attempts turn out, the policy makes at
/// most four of them — the first, and three retries.
pub proof fn lemma_bounded_retry(outcomes: Seq<bool>)
    ensures
        spec_attempts(outcomes, 0) <= 4,
{
    lemma_attempts_from(outcomes, 0);
}

} // verus!
