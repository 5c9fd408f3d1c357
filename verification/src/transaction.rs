//! Transactions, their validation and their lifecycle.

use vstd::prelude::*;

use crate::clock::current_time;
use crate::digest::{sha256_hex, spec_sha256_hex};
use crate::error::{LedgerError, ValidationError};
use crate::text::{
    concat2, decimal_signed, find_char, lemma_find_char, lemma_find_char_is, slice_chars,
    spec_decimal_signed, spec_find_char,
};

verus! {

/// The direction of a transfer as seen by the node that takes it in.
#[derive(Clone, Copy, Debug, PartialEq, Eq, Structural)]
pub enum TransactionType {
    Send,
    Receive,
}

/// The states of a transaction's lifecycle.
#[derive(Clone, Copy, Debug, PartialEq, Eq, Structural)]
pub enum TransactionStatus {
    Created,
    SendPending,
    ReceivePending,
    SendComplete,
    Complete,
    Shared,
    Rejected,
    Expired,
}

/// The unit of value transfer.
#[derive(Debug)]
pub struct Transaction {
    pub transaction_id: String,
    pub sender: String,
    pub receiver: String,
    /// The amount in the smallest unit of the currency.
    pub amount: u64,
    pub sender_municipality: String,
    pub receiver_municipality: String,
    pub sender_continent: String,
    pub receiver_continent: String,
    pub transaction_type: TransactionType,
    pub status: TransactionStatus,
    /// The approval that a representative attached; empty until then.
    pub signature: String,
    /// Milliseconds since the Unix epoch.
    pub created_at: i64,
    /// Milliseconds since the Unix epoch.
    pub updated_at: i64,
}

impl Clone for Transaction {
    fn clone(&self) -> (copy: Self)
        ensures
            copy == *self,
    {
        Transaction {
            transaction_id: self.transaction_id.clone(),
            sender: self.sender.clone(),
            receiver: self.receiver.clone(),
            amount: self.amount,
            sender_municipality: self.sender_municipality.clone(),
            receiver_municipality: self.receiver_municipality.clone(),
            sender_continent: self.sender_continent.clone(),
            receiver_continent: self.receiver_continent.clone(),
            transaction_type: self.transaction_type,
            status: self.status,
            signature: self.signature.clone(),
            created_at: self.created_at,
            updated_at: self.updated_at,
        }
    }
}

/// Whether `name` has the form `Continent-City`: exactly one hyphen.
pub open spec fn spec_well_formed_municipality(name: Seq<char>) -> bool {
    let first = spec_find_char(name, '-', 0);
    first < name.len() && spec_find_char(name, '-', first + 1) == name.len()
}

/// The part of a well-formed municipality name before the hyphen.
pub open spec fn spec_continent_of(name: Seq<char>) -> Seq<char> {
    name.subrange(0, spec_find_char(name, '-', 0))
}

/// The part of a well-formed municipality name after the hyphen.
pub open spec fn spec_city_of(name: Seq<char>) -> Seq<char> {
    name.subrange(spec_find_char(name, '-', 0) + 1, name.len() as int)
}

/// A name is well formed if and only if it holds a hyphen at exactly one
/// place.
pub proof fn lemma_well_formed_municipality(name: Seq<char>)
    ensures
        spec_well_formed_municipality(name) <==> exists|k: int|
            0 <= k < name.len() && #[trigger] name[k] == '-' && forall|j: int|
                0 <= j < name.len() && j != k ==> name[j] != '-',
{
    if spec_well_formed_municipality(name) {
        let k = spec_find_char(name, '-', 0);
        lemma_find_char(name, '-', 0);
        lemma_find_char(name, '-', k + 1);
        assert(0 <= k < name.len() && name[k] == '-' && forall|j: int|
            0 <= j < name.len() && j != k ==> name[j] != '-');
    }
    if exists|k: int|
        0 <= k < name.len() && #[trigger] name[k] == '-' && forall|j: int|
            0 <= j < name.len() && j != k ==> name[j] != '-' {
        let k = choose|k: int|
            0 <= k < name.len() && #[trigger] name[k] == '-' && forall|j: int|
                0 <= j < name.len() && j != k ==> name[j] != '-';
        lemma_find_char_is(name, '-', 0, k);
        lemma_find_char_is(name, '-', k + 1, name.len() as int);
    }
}

/// Tells whether `name` has the form `Continent-City`.
pub fn well_formed_municipality(name: &str) -> (ok: bool)
    ensures
        ok == spec_well_formed_municipality(name@),
{
    let n = name.unicode_len();
    let first = find_char(name, '-', 0);
    if first >= n {
        return false;
    }
    find_char(name, '-', first + 1) == n
}

/// Cuts a municipality name of the form `Continent-City` at its hyphen;
/// `None` for a name of another form.
pub fn split_municipality(name: &str) -> (parts: Option<(String, String)>)
    ensures
        match parts {
            Some((continent, city)) => {
                &&& spec_well_formed_municipality(name@)
                &&& continent@ == spec_continent_of(name@)
                &&& city@ == spec_city_of(name@)
            },
            None => !spec_well_formed_municipality(name@),
        },
{
    let n = name.unicode_len();
    let first = find_char(name, '-', 0);
    if first >= n {
        return None;
    }
    if find_char(name, '-', first + 1) != n {
        return None;
    }
    Some((slice_chars(name, 0, first), slice_chars(name, first + 1, n)))
}

/// Whether `name` names a municipality: it has the form `Continent-City`
/// and neither part is empty.
pub open spec fn spec_names_municipality(name: Seq<char>) -> bool {
    spec_well_formed_municipality(name) && spec_continent_of(name).len() > 0 && spec_city_of(
        name,
    ).len() > 0
}

/// Tells whether `name` names a municipality.
pub fn names_municipality(name: &str) -> (ok: bool)
    ensures
        ok == spec_names_municipality(name@),
{
    match split_municipality(name) {
        None => false,
        Some((continent, city)) => !continent.as_str().is_empty() && !city.as_str().is_empty(),
    }
}

/// What validation says of a transaction: the first rule that it breaks, in
/// the order of `ValidationError`'s variants.
pub open spec fn spec_validate(tx: Transaction) -> Result<(), ValidationError> {
    if tx.transaction_id@.len() == 0 {
        Err(ValidationError::MissingTransactionId)
    } else if tx.sender@.len() == 0 {
        Err(ValidationError::MissingSender)
    } else if tx.receiver@.len() == 0 {
        Err(ValidationError::MissingReceiver)
    } else if tx.amount == 0 {
        Err(ValidationError::NonPositiveAmount)
    } else if !spec_names_municipality(tx.sender_municipality@) {
        Err(ValidationError::MalformedSenderMunicipality)
    } else if !spec_names_municipality(tx.receiver_municipality@) {
        Err(ValidationError::MalformedReceiverMunicipality)
    } else if tx.sender_continent@.len() == 0 {
        Err(ValidationError::MissingSenderContinent)
    } else if tx.receiver_continent@.len() == 0 {
        Err(ValidationError::MissingReceiverContinent)
    } else {
        Ok(())
    }
}

/// Checks that the required fields are present, that the amount is positive
/// and that both municipalities are named in the form `Continent-City`.
pub fn validate_transaction(tx: &Transaction) -> (checked: Result<(), ValidationError>)
    ensures
        checked == spec_validate(*tx),
{
    if tx.transaction_id.as_str().is_empty() {
        Err(ValidationError::MissingTransactionId)
    } else if tx.sender.as_str().is_empty() {
        Err(ValidationError::MissingSender)
    } else if tx.receiver.as_str().is_empty() {
        Err(ValidationError::MissingReceiver)
    } else if tx.amount == 0 {
        Err(ValidationError::NonPositiveAmount)
    } else if !names_municipality(tx.sender_municipality.as_str()) {
        Err(ValidationError::MalformedSenderMunicipality)
    } else if !names_municipality(tx.receiver_municipality.as_str()) {
        Err(ValidationError::MalformedReceiverMunicipality)
    } else if tx.sender_continent.as_str().is_empty() {
        Err(ValidationError::MissingSenderContinent)
    } else if tx.receiver_continent.as_str().is_empty() {
        Err(ValidationError::MissingReceiverContinent)
    } else {
        Ok(())
    }
}

/// The status that a transaction of the given type takes when it is accepted.
pub open spec fn spec_initial_status(kind: TransactionType) -> TransactionStatus {
    match kind {
        TransactionType::Send => TransactionStatus::SendPending,
        TransactionType::Receive => TransactionStatus::ReceivePending,
    }
}

/// The status that a transaction of the given type takes when it is accepted.
pub fn initial_status(kind: TransactionType) -> (status: TransactionStatus)
    ensures
        status == spec_initial_status(kind),
{
    match kind {
        TransactionType::Send => TransactionStatus::SendPending,
        TransactionType::Receive => TransactionStatus::ReceivePending,
    }
}

/// Whether a transaction waits to be batched.
pub open spec fn spec_is_pending(status: TransactionStatus) -> bool {
    status == TransactionStatus::SendPending || status == TransactionStatus::ReceivePending
}

/// Tells whether a transaction in `status` waits to be batched.
pub fn is_pending(status: TransactionStatus) -> (pending: bool)
    ensures
        pending == spec_is_pending(status),
{
    status == TransactionStatus::SendPending || status == TransactionStatus::ReceivePending
}

/// The steps of the lifecycle. A new transaction becomes pending; a pending
/// one completes; a completed one is shared. Before approval a transaction
/// may be rejected, and a pending one may expire.
pub open spec fn spec_transition_allowed(from: TransactionStatus, to: TransactionStatus) -> bool {
    match from {
        TransactionStatus::Created => to == TransactionStatus::SendPending || to
            == TransactionStatus::ReceivePending || to == TransactionStatus::Rejected,
        TransactionStatus::SendPending | TransactionStatus::ReceivePending => to
            == TransactionStatus::SendComplete || to == TransactionStatus::Complete || to
            == TransactionStatus::Rejected || to == TransactionStatus::Expired,
        TransactionStatus::SendComplete => to == TransactionStatus::Complete || to
            == TransactionStatus::Shared,
        TransactionStatus::Complete => to == TransactionStatus::Shared,
        TransactionStatus::Shared | TransactionStatus::Rejected | TransactionStatus::Expired => false,
    }
}

/// Tells whether the lifecycle has a step from `from` to `to`.
pub fn transition_allowed(from: TransactionStatus, to: TransactionStatus) -> (allowed: bool)
    ensures
        allowed == spec_transition_allowed(from, to),
{
    match from {
        TransactionStatus::Created => to == TransactionStatus::SendPending || to
            == TransactionStatus::ReceivePending || to == TransactionStatus::Rejected,
        TransactionStatus::SendPending | TransactionStatus::ReceivePending => to
            == TransactionStatus::SendComplete || to == TransactionStatus::Complete || to
            == TransactionStatus::Rejected || to == TransactionStatus::Expired,
        TransactionStatus::SendComplete => to == TransactionStatus::Complete || to
            == TransactionStatus::Shared,
        TransactionStatus::Complete => to == TransactionStatus::Shared,
        TransactionStatus::Shared | TransactionStatus::Rejected | TransactionStatus::Expired => false,
    }
}

/// `tx` in the status `status`, last changed at `now`.
pub open spec fn spec_with_status(tx: Transaction, status: TransactionStatus, now: i64)
    -> Transaction {
    Transaction { status, updated_at: now, ..tx }
}

/// How far a status is along the lifecycle.
pub open spec fn spec_stage(status: TransactionStatus) -> nat {
    match status {
        TransactionStatus::Created => 0,
        TransactionStatus::SendPending | TransactionStatus::ReceivePending => 1,
        TransactionStatus::SendComplete => 2,
        TransactionStatus::Complete => 3,
        TransactionStatus::Shared | TransactionStatus::Rejected | TransactionStatus::Expired => 4,
    }
}

/// Every step of the lifecycle leads onward, so no status is reached
/// twice; and no step leads out of `Shared`, `Rejected` or `Expired`.
pub proof fn lemma_lifecycle_advances(from: TransactionStatus, to: TransactionStatus)
    requires
        spec_transition_allowed(from, to),
    ensures
        spec_stage(from) < spec_stage(to),
        from != TransactionStatus::Shared,
        from != TransactionStatus::Rejected,
        from != TransactionStatus::Expired,
{
}

/// The approval that the representative `user_id` attaches to a transaction.
pub open spec fn spec_approval_signature(user_id: Seq<char>) -> Seq<char> {
    "approved_by_"@ + user_id
}

/// Writes the approval of the representative `user_id`.
pub fn approval_signature(user_id: &str) -> (signature: String)
    ensures
        signature@ == spec_approval_signature(user_id@),
{
    concat2("approved_by_", user_id)
}

/// The text that stands for a processed transaction in the proof of history:
/// its id followed by the instant of its creation in decimal.
pub open spec fn spec_history_event(tx: Transaction) -> Seq<char> {
    tx.transaction_id@ + spec_decimal_signed(tx.created_at as int)
}

/// The bytes of `text` in UTF-8.
pub open spec fn spec_utf8(text: Seq<char>) -> Seq<u8> {
    vstd::utf8::encode_utf8(text)
}

/// Calls `uuid::Uuid::new_v4` and writes the identifier in its hyphenated
/// form, which has 36 characters. The identifier is random: nothing else
/// is promised of it.
#[verifier::external_body]
pub(crate) fn fresh_transaction_id() -> (id: String)
    ensures
        id@.len() == 36,
{
    uuid::Uuid::new_v4().to_string()
}

impl Transaction {
    /// A transaction with the given id and instant of creation, not yet
    /// submitted and not yet approved.
    pub fn with_id(
        transaction_id: String,
        sender: String,
        receiver: String,
        amount: u64,
        transaction_type: TransactionType,
        sender_municipality: String,
        receiver_municipality: String,
        sender_continent: String,
        receiver_continent: String,
        created_at: i64,
    ) -> (tx: Transaction)
        ensures
            tx.transaction_id == transaction_id,
            tx.sender == sender,
            tx.receiver == receiver,
            tx.amount == amount,
            tx.transaction_type == transaction_type,
            tx.sender_municipality == sender_municipality,
            tx.receiver_municipality == receiver_municipality,
            tx.sender_continent == sender_continent,
            tx.receiver_continent == receiver_continent,
            tx.status == TransactionStatus::Created,
            tx.signature@.len() == 0,
            tx.created_at == created_at,
            tx.updated_at == created_at,
    {
        Transaction {
            transaction_id,
            sender,
            receiver,
            amount,
            sender_municipality,
            receiver_municipality,
            sender_continent,
            receiver_continent,
            transaction_type,
            status: TransactionStatus::Created,
            signature: String::new(),
            created_at,
            updated_at: created_at,
        }
    }

    /// A transaction with a fresh random id of 36 characters, created at
    /// the present instant, not yet submitted and not yet approved.
    pub fn new(
        sender: String,
        receiver: String,
        amount: u64,
        transaction_type: TransactionType,
        sender_municipality: String,
        receiver_municipality: String,
        sender_continent: String,
        receiver_continent: String,
    ) -> (tx: Transaction)
        ensures
            tx.transaction_id@.len() == 36,
            tx.sender == sender,
            tx.receiver == receiver,
            tx.amount == amount,
            tx.transaction_type == transaction_type,
            tx.sender_municipality == sender_municipality,
            tx.receiver_municipality == receiver_municipality,
            tx.sender_continent == sender_continent,
            tx.receiver_continent == receiver_continent,
            tx.status == TransactionStatus::Created,
            tx.signature@.len() == 0,
            tx.updated_at == tx.created_at,
    {
        let id = fresh_transaction_id();
        let now = current_time();
        Transaction::with_id(
            id,
            sender,
            receiver,
            amount,
            transaction_type,
            sender_municipality,
            receiver_municipality,
            sender_continent,
            receiver_continent,
            now,
        )
    }

    /// This transaction after the step to `new_status` at `now`, or
    /// `InvalidTransition` where the lifecycle has no such step.
    pub fn advance(&self, new_status: TransactionStatus, now: i64) -> (stepped: Result<
        Transaction,
        LedgerError,
    >)
        ensures
            match stepped {
                Ok(tx) => spec_transition_allowed(self.status, new_status) && tx
                    == spec_with_status(*self, new_status, now),
                Err(e) => e == LedgerError::InvalidTransition && !spec_transition_allowed(
                    self.status,
                    new_status,
                ),
            },
    {
        if !transition_allowed(self.status, new_status) {
            return Err(LedgerError::InvalidTransition);
        }
        let mut tx = self.clone();
        tx.status = new_status;
        tx.updated_at = now;
        Ok(tx)
    }

    /// The text that stands for this transaction in the proof of history.
    pub fn history_event(&self) -> (event: String)
        ensures
            event@ == spec_history_event(*self),
    {
        let stamp = decimal_signed(self.created_at);
        concat2(self.transaction_id.as_str(), stamp.as_str())
    }

    /// The entry that this transaction leaves in the proof of history: the
    /// SHA-256 digest, in hexadecimal, of its id and instant of creation.
    pub fn generate_proof_of_history(&self) -> (entry: String)
        ensures
            entry@ == spec_sha256_hex(spec_utf8(spec_history_event(*self))),
            entry@.len() == 64,
    {
        let event = self.history_event();
        sha256_hex(event.as_str().as_bytes())
    }

    /// Whether the signature is the approval of the representative `user_id`.
    pub open spec fn spec_approved_by(&self, user_id: Seq<char>) -> bool {
        self.signature@ == spec_approval_signature(user_id)
    }

    /// Checks the attached signature against the approval that the
    /// representative `user_id` would attach.
    pub fn verify_signature(&self, user_id: &str) -> (valid: bool)
        ensures
            valid == self.spec_approved_by(user_id@),
    {
        let expected = approval_signature(user_id);
        self.signature == expected
    }
}

} // verus!
