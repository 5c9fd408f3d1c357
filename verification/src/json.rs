//! The JSON text in which transactions and blocks are written: a batch of
//! transactions into the data of a block, a block into the archive.

use vstd::prelude::*;

use crate::block::Block;
use crate::text::{concat2, decimal, decimal_signed, spec_decimal, spec_decimal_signed, str_eq};
use crate::transaction::{Transaction, TransactionStatus, TransactionType};

verus! {

/// The JSON string literal, quotes and escapes included, that stands for
/// `text`.
pub uninterp spec fn spec_json_string(text: Seq<char>) -> Seq<char>;

/// Calls `serde_json::to_string` on a string slice, which writes it as a
/// JSON string literal. The contract names the result.
#[verifier::external_body]
pub(crate) fn json_string(text: &str) -> (quoted: String)
    ensures
        quoted@ == spec_json_string(text@),
{
    serde_json::to_string(text).unwrap_or_default()
}

/// The name under which a transaction type is written.
pub open spec fn spec_kind_name(kind: TransactionType) -> Seq<char> {
    match kind {
        TransactionType::Send => "send"@,
        TransactionType::Receive => "receive"@,
    }
}

/// The name under which a transaction type is written.
pub fn kind_name(kind: TransactionType) -> (name: &'static str)
    ensures
        name@ == spec_kind_name(kind),
{
    match kind {
        TransactionType::Send => "send",
        TransactionType::Receive => "receive",
    }
}

/// The name under which a status is written.
pub open spec fn spec_status_name(status: TransactionStatus) -> Seq<char> {
    match status {
        TransactionStatus::Created => "created"@,
        TransactionStatus::SendPending => "send_pending"@,
        TransactionStatus::ReceivePending => "receive_pending"@,
        TransactionStatus::SendComplete => "send_complete"@,
        TransactionStatus::Complete => "complete"@,
        TransactionStatus::Shared => "shared"@,
        TransactionStatus::Rejected => "rejected"@,
        TransactionStatus::Expired => "expired"@,
    }
}

/// The name under which a status is written.
pub fn status_name(status: TransactionStatus) -> (name: &'static str)
    ensures
        name@ == spec_status_name(status),
{
    match status {
        TransactionStatus::Created => "created",
        TransactionStatus::SendPending => "send_pending",
        TransactionStatus::ReceivePending => "receive_pending",
        TransactionStatus::SendComplete => "send_complete",
        TransactionStatus::Complete => "complete",
        TransactionStatus::Shared => "shared",
        TransactionStatus::Rejected => "rejected",
        TransactionStatus::Expired => "expired",
    }
}

/// Reads the name of a transaction type; `None` for any other text.
pub fn parse_kind(name: &str) -> (kind: Option<TransactionType>)
    ensures
        match kind {
            Some(k) => name@ == spec_kind_name(k),
            None => forall|k: TransactionType| name@ != spec_kind_name(k),
        },
{
    if str_eq(name, "send") {
        Some(TransactionType::Send)
    } else if str_eq(name, "receive") {
        Some(TransactionType::Receive)
    } else {
        None
    }
}

/// Reads the name of a status; `None` for any other text.
pub fn parse_status(name: &str) -> (status: Option<TransactionStatus>)
    ensures
        match status {
            Some(s) => name@ == spec_status_name(s),
            None => forall|s: TransactionStatus| name@ != spec_status_name(s),
        },
{
    if str_eq(name, "created") {
        Some(TransactionStatus::Created)
    } else if str_eq(name, "send_pending") {
        Some(TransactionStatus::SendPending)
    } else if str_eq(name, "receive_pending") {
        Some(TransactionStatus::ReceivePending)
    } else if str_eq(name, "send_complete") {
        Some(TransactionStatus::SendComplete)
    } else if str_eq(name, "complete") {
        Some(TransactionStatus::Complete)
    } else if str_eq(name, "shared") {
        Some(TransactionStatus::Shared)
    } else if str_eq(name, "rejected") {
        Some(TransactionStatus::Rejected)
    } else if str_eq(name, "expired") {
        Some(TransactionStatus::Expired)
    } else {
        None
    }
}

/// The texts that a list of strings holds.
pub open spec fn spec_texts(parts: Seq<String>) -> Seq<Seq<char>> {
    Seq::new(parts.len(), |i: int| parts[i]@)
}

/// The texts of `parts` written one after another with `separator` between
/// them.
pub open spec fn spec_joined_by(parts: Seq<Seq<char>>, separator: Seq<char>) -> Seq<char>
    decreases parts.len(),
{
    if parts.len() == 0 {
        Seq::empty()
    } else if parts.len() == 1 {
        parts[0]
    } else {
        spec_joined_by(parts.drop_last(), separator) + separator + parts.last()
    }
}

/// One member of a JSON object: the name as it is quoted, a colon and the
/// value.
pub open spec fn spec_member(quoted_name: Seq<char>, value: Seq<char>) -> Seq<char> {
    quoted_name + ":"@ + value
}

/// The JSON object with the given members.
pub open spec fn spec_object(members: Seq<Seq<char>>) -> Seq<char> {
    "{"@ + spec_joined_by(members, ","@) + "}"@
}

/// The JSON array with the given items.
pub open spec fn spec_array(items: Seq<Seq<char>>) -> Seq<char> {
    "["@ + spec_joined_by(items, ","@) + "]"@
}

/// Writes the texts of `parts` one after another with `separator` between
/// them.
pub fn join_with(parts: &Vec<String>, separator: &str) -> (text: String)
    ensures
        text@ == spec_joined_by(spec_texts(parts@), separator@),
{
    let mut text = String::new();
    let mut i: usize = 0;
    let ghost all = spec_texts(parts@);
    assert(all.take(0) =~= Seq::<Seq<char>>::empty());
    while i < parts.len()
        invariant
            i <= parts.len(),
            all == spec_texts(parts@),
            text@ == spec_joined_by(all.take(i as int), separator@),
        decreases parts.len() - i,
    {
        if i > 0 {
            text.append(separator);
        }
        text.append(parts[i].as_str());
        proof {
            let next = all.take(i + 1);
            assert(next.drop_last() =~= all.take(i as int));
            assert(next.last() == parts@[i as int]@);
            if i == 0 {
                assert(next[0] == parts@[0]@);
                assert(text@ =~= parts@[0]@);
            }
        }
        i += 1;
    }
    assert(all.take(i as int) =~= all);
    text
}

/// Writes one member of a JSON object from its quoted name and its value.
pub fn member_of(quoted_name: &str, value: &str) -> (text: String)
    ensures
        text@ == spec_member(quoted_name@, value@),
{
    let mut text = String::from_str(quoted_name);
    text.append(":");
    text.append(value);
    text
}

/// Writes the JSON object with the given members.
pub fn object_of(members: &Vec<String>) -> (text: String)
    ensures
        text@ == spec_object(spec_texts(members@)),
{
    let mut text = String::from_str("{");
    text.append(join_with(members, ",").as_str());
    text.append("}");
    text
}

/// Writes the JSON array with the given items.
pub fn array_of(items: &Vec<String>) -> (text: String)
    ensures
        text@ == spec_array(spec_texts(items@)),
{
    let mut text = String::from_str("[");
    text.append(join_with(items, ",").as_str());
    text.append("]");
    text
}

/// A member whose value is a text: both are written as JSON strings.
pub open spec fn spec_text_member(name: Seq<char>, value: Seq<char>) -> Seq<char> {
    spec_member(spec_json_string(name), spec_json_string(value))
}

/// A member whose value is a number in decimal.
pub open spec fn spec_number_member(name: Seq<char>, digits: Seq<char>) -> Seq<char> {
    spec_member(spec_json_string(name), digits)
}

fn text_member(name: &str, value: &str) -> (text: String)
    ensures
        text@ == spec_text_member(name@, value@),
{
    let quoted_name = json_string(name);
    let quoted_value = json_string(value);
    member_of(quoted_name.as_str(), quoted_value.as_str())
}

fn number_member(name: &str, digits: &str) -> (text: String)
    ensures
        text@ == spec_number_member(name@, digits@),
{
    let quoted_name = json_string(name);
    member_of(quoted_name.as_str(), digits)
}

/// The members of the JSON object that stands for a transaction: its
/// fields in the order of their declaration, texts as strings, numbers in
/// decimal.
pub open spec fn spec_transaction_members(tx: Transaction) -> Seq<Seq<char>> {
    seq![
        spec_text_member("transaction_id"@, tx.transaction_id@),
        spec_text_member("sender"@, tx.sender@),
        spec_text_member("receiver"@, tx.receiver@),
        spec_number_member("amount"@, spec_decimal(tx.amount as nat)),
        spec_text_member("sender_municipality"@, tx.sender_municipality@),
        spec_text_member("receiver_municipality"@, tx.receiver_municipality@),
        spec_text_member("sender_continent"@, tx.sender_continent@),
        spec_text_member("receiver_continent"@, tx.receiver_continent@),
        spec_text_member("transaction_type"@, spec_kind_name(tx.transaction_type)),
        spec_text_member("status"@, spec_status_name(tx.status)),
        spec_text_member("signature"@, tx.signature@),
        spec_number_member("created_at"@, spec_decimal_signed(tx.created_at as int)),
        spec_number_member("updated_at"@, spec_decimal_signed(tx.updated_at as int)),
    ]
}

/// The JSON object that stands for a transaction.
pub open spec fn spec_transaction_json(tx: Transaction) -> Seq<char> {
    spec_object(spec_transaction_members(tx))
}

/// Writes a transaction as a JSON object.
pub fn transaction_json(tx: &Transaction) -> (text: String)
    ensures
        text@ == spec_transaction_json(*tx),
{
    let mut members: Vec<String> = Vec::new();
    members.push(text_member("transaction_id", tx.transaction_id.as_str()));
    members.push(text_member("sender", tx.sender.as_str()));
    members.push(text_member("receiver", tx.receiver.as_str()));
    members.push(number_member("amount", decimal(tx.amount).as_str()));
    members.push(text_member("sender_municipality", tx.sender_municipality.as_str()));
    members.push(text_member("receiver_municipality", tx.receiver_municipality.as_str()));
    members.push(text_member("sender_continent", tx.sender_continent.as_str()));
    members.push(text_member("receiver_continent", tx.receiver_continent.as_str()));
    members.push(text_member("transaction_type", kind_name(tx.transaction_type)));
    members.push(text_member("status", status_name(tx.status)));
    members.push(text_member("signature", tx.signature.as_str()));
    members.push(number_member("created_at", decimal_signed(tx.created_at).as_str()));
    members.push(number_member("updated_at", decimal_signed(tx.updated_at).as_str()));
    assert(spec_texts(members@) =~= spec_transaction_members(*tx));
    object_of(&members)
}

/// The JSON objects of the transactions of `batch`, in their order.
pub open spec fn spec_batch_items(batch: Seq<Transaction>) -> Seq<Seq<char>> {
    Seq::new(batch.len(), |i: int| spec_transaction_json(batch[i]))
}

/// The JSON array that holds every transaction of `batch`, in its order.
pub open spec fn spec_batch_json(batch: Seq<Transaction>) -> Seq<char> {
    spec_array(spec_batch_items(batch))
}

/// Writes a batch of transactions as a JSON array.
pub fn batch_json(batch: &Vec<Transaction>) -> (text: String)
    ensures
        text@ == spec_batch_json(batch@),
{
    let mut items: Vec<String> = Vec::new();
    let mut i: usize = 0;
    while i < batch.len()
        invariant
            i <= batch.len(),
            items@.len() == i,
            forall|j: int| 0 <= j < i ==> (#[trigger] items@[j])@ == spec_transaction_json(batch@[j]),
        decreases batch.len() - i,
    {
        items.push(transaction_json(&batch[i]));
        i += 1;
    }
    assert(spec_texts(items@) =~= spec_batch_items(batch@));
    array_of(&items)
}

/// The members of the JSON object that stands for a block: its fields in
/// the order of their declaration, texts as strings, numbers in decimal.
pub open spec fn spec_block_members(block: Block) -> Seq<Seq<char>> {
    seq![
        spec_number_member("index"@, spec_decimal(block.index as nat)),
        spec_number_member("timestamp"@, spec_decimal_signed(block.timestamp as int)),
        spec_text_member("data"@, block.data@),
        spec_text_member("prev_hash"@, block.prev_hash@),
        spec_text_member("hash"@, block.hash@),
        spec_text_member("verifiable_credential"@, block.verifiable_credential@),
        spec_text_member("signature"@, block.signature@),
    ]
}

/// The JSON object that stands for a block.
pub open spec fn spec_block_json(block: Block) -> Seq<char> {
    spec_object(spec_block_members(block))
}

/// Writes a block as a JSON object.
pub fn block_json(block: &Block) -> (text: String)
    ensures
        text@ == spec_block_json(*block),
{
    let mut members: Vec<String> = Vec::new();
    members.push(number_member("index", decimal(block.index).as_str()));
    members.push(number_member("timestamp", decimal_signed(block.timestamp).as_str()));
    members.push(text_member("data", block.data.as_str()));
    members.push(text_member("prev_hash", block.prev_hash.as_str()));
    members.push(text_member("hash", block.hash.as_str()));
    members.push(text_member("verifiable_credential", block.verifiable_credential.as_str()));
    members.push(text_member("signature", block.signature.as_str()));
    assert(spec_texts(members@) =~= spec_block_members(*block));
    object_of(&members)
}

/// The key under which the archive holds the block with the index `index`.
pub open spec fn spec_archive_key(index: u64) -> Seq<char> {
    "block_"@ + spec_decimal(index as nat)
}

/// Writes the key under which the archive holds the block with the index
/// `index`.
pub fn archive_key(index: u64) -> (key: String)
    ensures
        key@ == spec_archive_key(index),
{
    let digits = decimal(index);
    concat2("block_", digits.as_str())
}

/// What is written into the archive for `block`: its key and its JSON text.
pub fn archive_entry(block: &Block) -> (entry: (String, String))
    ensures
        entry.0@ == spec_archive_key(block.index),
        entry.1@ == spec_block_json(*block),
{
    (archive_key(block.index), block_json(block))
}

} // verus!
