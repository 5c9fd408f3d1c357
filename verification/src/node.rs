//! One node of the network: its pending transactions, its chain, its
//! registry of representatives and its proof of history, and what it does
//! with what comes in. Every operation decides and changes the state of
//! the node; sending, storing and waiting are left to the caller, who is
//! told what to do by the value returned.

use vstd::prelude::*;

use crate::block::{
    spec_chain_valid, spec_distinct_hashes, spec_follows, spec_has_hash, spec_next_hash,
    spec_receive, spec_receive_all, spec_rejection, Block, Blockchain,
};
use crate::consensus::spec_history_entry;
use crate::dpos::{
    lemma_listed_push, listed, spec_active_of, spec_approver, spec_has_approved, spec_in_term,
    spec_listed, spec_none_in_term, spec_roster_of, spec_rosters_kept, DPoS, Representative,
    Roster,
};
use crate::error::{BlockRejection, LedgerError};
use crate::evaluation::{
    spec_after_transaction, spec_has_user, spec_items_of, spec_new_records, UserEvaluation,
};
use crate::json::spec_batch_json;
use crate::pending::{
    spec_has_id, spec_index_of_id, spec_kept, spec_merge, spec_put_back, spec_remove, spec_swept,
    spec_waiting, spec_without, PendingTransactions,
};
use crate::poh::ProofOfHistory;
use crate::routing::{
    escalation_target, resolve_target, spec_escalation_target, spec_resolve, RoutingTable, Tier,
};
use crate::text::str_eq;
use crate::transaction::{
    initial_status, is_pending, spec_approval_signature, spec_initial_status, spec_is_pending,
    spec_transition_allowed, spec_validate, spec_with_status, validate_transaction, Transaction,
    TransactionStatus, TransactionType,
};

verus! {

/// The number of pending transactions at which the production path makes a
/// block.
pub const PRODUCTION_THRESHOLD: usize = 500;

/// The number of pending transactions at which the background drain makes
/// a block.
pub const DRAIN_THRESHOLD: usize = 5;

/// The most transactions that a municipal batch takes.
pub const MUNICIPAL_BATCH_LIMIT: usize = 300;

/// What became of a submitted transaction.
#[derive(Clone, Copy, Debug, PartialEq, Eq, Structural)]
pub enum SubmitOutcome {
    /// The transaction is pending now; the caller stores it.
    Accepted,
    /// A transaction with this id is pending already; nothing changed.
    Duplicate,
}

/// What the caller does with a transaction that came in from another node.
#[derive(Debug)]
pub enum IngressAction {
    /// A transaction with this id is pending already; nothing to do.
    Duplicate,
    /// The transaction is pending and waits for a representative.
    Held(LedgerError),
    /// The transaction is approved; send it to this endpoint.
    Forward(String),
    /// The transaction is approved and this is the topmost tier.
    Settled,
}

/// What an attempt to assemble a block came to.
#[derive(Debug)]
pub enum AssemblyOutcome {
    /// Neither the threshold nor the wait was reached.
    NotDue,
    /// No pending transaction is approved.
    NothingApproved,
    /// The block was not approved; the batch stays pending.
    BlockRejected,
    /// The chain holds a block with the hash of the new block already; the
    /// batch stays pending.
    HashKnown,
    /// The block was appended and its batch left the pending set.
    Assembled(Block),
}

/// The state of one node.
pub struct AppState {
    pub tier: Tier,
    pub pending_transactions: PendingTransactions,
    /// The transactions that were shared, in the order of their archiving.
    pub analytics: Vec<Transaction>,
    pub blockchain: Blockchain,
    pub dpos: DPoS,
    /// The ids of the transactions that the registry of this node approved
    /// while they were pending here.
    pub approved: Vec<String>,
    pub poh: ProofOfHistory,
    pub routing: RoutingTable,
    /// The longest that pending transactions wait for a block, in
    /// milliseconds.
    pub max_wait_millis: u64,
}

/// Whether `stored` is `tx` as it is stored when it is submitted at `now`:
/// with its first status, both instants at `now`, and without a signature,
/// whatever text the caller put there.
pub open spec fn spec_submitted(tx: Transaction, now: i64, stored: Transaction) -> bool {
    &&& stored.signature@.len() == 0
    &&& stored == (Transaction {
        status: spec_initial_status(tx.transaction_type),
        created_at: now,
        updated_at: now,
        signature: stored.signature,
        ..tx
    })
}

/// `tx` as it is stored when it comes in from another node at `now`, but
/// for its signature.
pub open spec fn spec_received(tx: Transaction, now: i64) -> Transaction {
    Transaction { status: spec_initial_status(tx.transaction_type), updated_at: now, ..tx }
}

/// The status that a forwarded transaction takes when the forward is
/// acknowledged.
pub open spec fn spec_forwarded_status(kind: TransactionType) -> TransactionStatus {
    match kind {
        TransactionType::Send => TransactionStatus::SendComplete,
        TransactionType::Receive => TransactionStatus::Complete,
    }
}

/// Whether a transaction may go into a block: it is pending, the registry
/// of this node approved it, as `approved` records, and it carries the
/// approval of a representative of its sender's municipality.
pub open spec fn spec_ready(rosters: Seq<Roster>, approved: Seq<String>, tx: Transaction) -> bool {
    spec_is_pending(tx.status) && spec_listed(approved, tx.transaction_id@) && spec_has_approved(
        rosters,
        tx,
    )
}

/// The transactions of `pending` that may go into a block, in their order.
pub open spec fn spec_ready_batch(
    pending: Seq<Transaction>,
    rosters: Seq<Roster>,
    approved: Seq<String>,
) -> Seq<Transaction> {
    pending.filter(|tx: Transaction| spec_ready(rosters, approved, tx))
}

/// Whether `after` names the ids that `before` names but `id`.
pub open spec fn spec_unlisted(before: Seq<String>, after: Seq<String>, id: Seq<char>) -> bool {
    forall|x: Seq<char>| #[trigger] spec_listed(after, x) <==> spec_listed(before, x) && x != id
}

/// Whether `after` names the ids that `before` names but those of the
/// transactions of `gone`.
pub open spec fn spec_unlisted_all(before: Seq<String>, after: Seq<String>, gone: Seq<Transaction>)
    -> bool {
    forall|x: Seq<char>| #[trigger]
        spec_listed(after, x) <==> spec_listed(before, x) && !spec_has_id(gone, x)
}

/// Whether `after` names the ids that `before` names and `id`.
pub open spec fn spec_listed_more(before: Seq<String>, after: Seq<String>, id: Seq<char>) -> bool {
    forall|x: Seq<char>| #[trigger] spec_listed(after, x) <==> spec_listed(before, x) || x == id
}

/// Takes every entry that names `id` out of `list`.
fn unlist(list: &mut Vec<String>, id: &str)
    ensures
        spec_unlisted(old(list)@, final(list)@, id@),
{
    let mut kept: Vec<String> = Vec::new();
    let mut i: usize = 0;
    while i < list.len()
        invariant
            i <= list.len(),
            *list == *old(list),
            forall|e: int|
                0 <= e < kept@.len() ==> (#[trigger] kept@[e])@ != id@ && spec_listed(
                    list@,
                    kept@[e]@,
                ),
            forall|d: int|
                0 <= d < i && (#[trigger] list@[d])@ != id@ ==> spec_listed(kept@, list@[d]@),
        decreases list.len() - i,
    {
        if !str_eq(list[i].as_str(), id) {
            let ghost before = kept@;
            kept.push(list[i].clone());
            proof {
                assert forall|e: int| 0 <= e < kept@.len() implies (#[trigger] kept@[e])@ != id@
                    && spec_listed(list@, kept@[e]@) by {
                    if e < before.len() {
                        assert(kept@[e] == before[e]);
                    } else {
                        assert(list@[i as int]@ == kept@[e]@);
                    }
                }
                assert forall|d: int| 0 <= d < i + 1 && (#[trigger] list@[d])@ != id@ implies spec_listed(
                    kept@,
                    list@[d]@,
                ) by {
                    if d < i {
                        let w = choose|w: int|
                            0 <= w < before.len() && (#[trigger] before[w])@ == list@[d]@;
                        assert(kept@[w] == before[w]);
                    } else {
                        assert(kept@[kept@.len() - 1]@ == list@[d]@);
                    }
                }
            }
        }
        i += 1;
    }
    proof {
        assert forall|x: Seq<char>| #[trigger]
            spec_listed(kept@, x) <==> spec_listed(list@, x) && x != id@ by {
            if spec_listed(kept@, x) {
                let e = choose|e: int| 0 <= e < kept@.len() && (#[trigger] kept@[e])@ == x;
                assert(kept@[e]@ != id@ && spec_listed(list@, kept@[e]@));
            }
            if spec_listed(list@, x) && x != id@ {
                let d = choose|d: int| 0 <= d < list@.len() && (#[trigger] list@[d])@ == x;
                assert(spec_listed(kept@, list@[d]@));
            }
        }
    }
    *list = kept;
}

/// Takes the ids of the transactions of `gone` out of `list`.
fn unlist_all(list: &mut Vec<String>, gone: &Vec<Transaction>)
    ensures
        spec_unlisted_all(old(list)@, final(list)@, gone@),
{
    let mut i: usize = 0;
    assert forall|x: Seq<char>| !spec_has_id(gone@.take(0), x) by {
        assert(gone@.take(0).len() == 0);
    }
    while i < gone.len()
        invariant
            i <= gone.len(),
            spec_unlisted_all(old(list)@, list@, gone@.take(i as int)),
        decreases gone.len() - i,
    {
        let ghost before = list@;
        unlist(list, gone[i].transaction_id.as_str());
        proof {
            let id = gone@[i as int].transaction_id@;
            let seen = gone@.take(i as int);
            let more = gone@.take(i + 1);
            assert forall|x: Seq<char>| spec_has_id(more, x) <==> spec_has_id(seen, x) || x
                == id by {
                if spec_has_id(more, x) {
                    let j = choose|j: int|
                        0 <= j < more.len() && (#[trigger] more[j]).transaction_id@ == x;
                    if j < i {
                        assert(seen[j].transaction_id@ == x);
                    }
                }
                if spec_has_id(seen, x) {
                    let j = choose|j: int|
                        0 <= j < seen.len() && (#[trigger] seen[j]).transaction_id@ == x;
                    assert(more[j].transaction_id@ == x);
                }
                if x == id {
                    assert(more[i as int].transaction_id@ == x);
                }
            }
            assert forall|x: Seq<char>| #[trigger]
                spec_listed(list@, x) <==> spec_listed(old(list)@, x) && !spec_has_id(
                    more,
                    x,
                ) by {
                assert(spec_listed(list@, x) <==> spec_listed(before, x) && x != id);
                assert(spec_listed(before, x) <==> spec_listed(old(list)@, x) && !spec_has_id(
                    seen,
                    x,
                ));
            }
        }
        i += 1;
    }
    assert(gone@.take(i as int) =~= gone@);
}

/// The number of pending transactions that an assembly looks at: all of
/// them, or the first `window`.
pub open spec fn spec_window(pending: Seq<Transaction>, window: usize) -> int {
    if window <= pending.len() {
        window as int
    } else {
        pending.len() as int
    }
}

/// Whether a block is due: the transactions that wait to be batched
/// reached the threshold or waited as long as they may.
pub open spec fn spec_due(waiting: int, threshold: usize, waited: u64, max_wait: u64) -> bool {
    waiting >= threshold || waited >= max_wait
}

/// The entries that the transactions of `batch` leave in the proof of
/// history, in their order.
pub open spec fn spec_batch_entries(batch: Seq<Transaction>) -> Seq<Seq<char>>
    decreases batch.len(),
{
    if batch.len() == 0 {
        Seq::empty()
    } else {
        spec_batch_entries(batch.drop_last()).push(spec_history_entry(batch.last()))
    }
}

/// What an assembly at `now` makes of the state `before`: nothing where no
/// block is due, where nothing is approved, where nobody approves the
/// block or where the chain holds its hash already; else the next block
/// with the approved transactions among the
/// first `window` pending ones, which leave the pending set and enter the
/// proof of history.
pub open spec fn spec_assembled(
    before: AppState,
    after: AppState,
    outcome: AssemblyOutcome,
    threshold: usize,
    window: usize,
    waited: u64,
    now: i64,
) -> bool {
    let pending = before.pending_transactions@;
    let batch = spec_ready_batch(
        pending.take(spec_window(pending, window)),
        before.dpos.rosters(),
        before.approved@,
    );
    if !spec_due(spec_waiting(pending).len() as int, threshold, waited, before.max_wait_millis) {
        outcome is NotDue && spec_nothing_assembled(before, after)
    } else if batch.len() == 0 {
        outcome is NothingApproved && spec_nothing_assembled(before, after)
    } else if !(spec_approver(before.dpos.rosters(), batch[0].sender_municipality@, now as int)
        is Ok) {
        outcome is BlockRejected && spec_nothing_assembled(before, after)
    } else if spec_has_hash(before.blockchain@, spec_next_hash(before.blockchain@, now, batch)) {
        outcome is HashKnown && spec_nothing_assembled(before, after)
    } else {
        &&& outcome matches AssemblyOutcome::Assembled(block)
        &&& spec_follows(before.blockchain@, block)
        &&& block.timestamp == now
        &&& block.data@ == spec_batch_json(batch)
        &&& after.blockchain@ == before.blockchain@.push(block)
        &&& after.pending_transactions@ == spec_without(pending, batch)
        &&& spec_unlisted_all(before.approved@, after.approved@, batch)
        &&& after.poh@ == before.poh@ + spec_batch_entries(batch)
    }
}

/// Whether the pending set, the approvals, the chain and the proof of
/// history are in `after` as they are in `before`.
pub open spec fn spec_nothing_assembled(before: AppState, after: AppState) -> bool {
    &&& after.pending_transactions@ == before.pending_transactions@
    &&& after.approved == before.approved
    &&& after.blockchain@ == before.blockchain@
    &&& after.poh@ == before.poh@
}

/// Whether `after` holds the transactions of `before` at their places,
/// each with all but its signature as it was.
pub open spec fn spec_signatures_only(before: Seq<Transaction>, after: Seq<Transaction>) -> bool {
    after.len() == before.len() && forall|j: int|
        0 <= j < before.len() ==> (#[trigger] after[j]) == (Transaction {
            signature: after[j].signature,
            ..before[j]
        })
}

/// Whether `after` is `before` after elections and approvals: the rosters
/// hold the same representatives, pending transactions differ in their
/// signatures at most, every approval that was recorded still is, a new
/// one is that of a pending transaction, and all else is as it was.
pub open spec fn spec_approvals_made(before: AppState, after: AppState) -> bool {
    &&& after.tier == before.tier
    &&& after.analytics == before.analytics
    &&& after.blockchain == before.blockchain
    &&& after.poh == before.poh
    &&& after.routing == before.routing
    &&& after.max_wait_millis == before.max_wait_millis
    &&& after.dpos.user_evaluations == before.dpos.user_evaluations
    &&& spec_rosters_kept(before.dpos.rosters(), after.dpos.rosters())
    &&& spec_signatures_only(before.pending_transactions@, after.pending_transactions@)
    &&& forall|x: Seq<char>|
        spec_listed(before.approved@, x) ==> #[trigger] spec_listed(after.approved@, x)
    &&& forall|x: Seq<char>| #[trigger]
        spec_listed(after.approved@, x) ==> spec_listed(before.approved@, x) || spec_has_id(
            before.pending_transactions@,
            x,
        )
}

/// Whether `after` is what the elections and approvals for the first
/// `upto` pending transactions of `before` come to at `now`: each of them
/// whose sender's municipality has a representative within term carries
/// the approval of a representative of that municipality, which the node
/// recorded, and someone approves for the municipality; every other
/// pending transaction is as it was, and so is whether its approval is
/// recorded.
pub open spec fn spec_approved_upto(before: AppState, after: AppState, upto: int, now: i64)
    -> bool {
    let p = before.pending_transactions@;
    &&& forall|j: int|
        0 <= j < p.len() ==> if j < upto && !spec_none_in_term(
            spec_roster_of(before.dpos.rosters(), p[j].sender_municipality@),
            now as int,
        ) {
            &&& spec_has_approved(after.dpos.rosters(), #[trigger] after.pending_transactions@[j])
            &&& spec_listed(after.approved@, p[j].transaction_id@)
        } else {
            &&& after.pending_transactions@[j] == p[j]
            &&& spec_listed(after.approved@, p[j].transaction_id@) <==> spec_listed(
                before.approved@,
                p[j].transaction_id@,
            )
        }
    &&& forall|j: int|
        0 <= j < upto && j < p.len() && !spec_none_in_term(
            spec_roster_of(before.dpos.rosters(), (#[trigger] p[j]).sender_municipality@),
            now as int,
        ) ==> spec_approver(after.dpos.rosters(), p[j].sender_municipality@, now as int) is Ok
}

/// Whether `after` is what the elections and approvals of a batch over the
/// first `window` pending transactions of `before` come to at `now`.
pub open spec fn spec_window_approved(before: AppState, after: AppState, window: usize, now: i64)
    -> bool {
    spec_approved_upto(before, after, spec_window(before.pending_transactions@, window), now)
}

/// The transactions of `archive` that have another id than `id`, in their
/// order.
pub open spec fn spec_archive_without(archive: Seq<Transaction>, id: Seq<char>) -> Seq<
    Transaction,
> {
    archive.filter(|tx: Transaction| tx.transaction_id@ != id)
}

impl AppState {
    /// A node of the tier `tier` with the routing table `routing`, with
    /// nothing pending, an empty chain and no representatives.
    pub fn new(tier: Tier, routing: RoutingTable, max_wait_millis: u64) -> (state: Self)
        ensures
            state.tier == tier,
            state.routing == routing,
            state.max_wait_millis == max_wait_millis,
            state.pending_transactions@ == Seq::<Transaction>::empty(),
            state.analytics@ == Seq::<Transaction>::empty(),
            state.blockchain@ == Seq::<Block>::empty(),
            state.poh@ == Seq::<Seq<char>>::empty(),
            state.dpos.rosters().len() == 0,
            state.dpos.user_evaluations@ == Seq::<UserEvaluation>::empty(),
            state.approved@ == Seq::<String>::empty(),
    {
        AppState {
            tier,
            pending_transactions: PendingTransactions::new(),
            analytics: Vec::new(),
            blockchain: Blockchain::new(),
            dpos: DPoS::new(),
            approved: Vec::new(),
            poh: ProofOfHistory::new(),
            routing,
            max_wait_millis,
        }
    }

    /// Whether all but the pending set and the contribution records is in
    /// `other` as it is here.
    pub open spec fn spec_same_but_pending(&self, other: &AppState) -> bool {
        &&& self.tier == other.tier
        &&& self.analytics == other.analytics
        &&& self.blockchain == other.blockchain
        &&& self.dpos.municipal_representatives == other.dpos.municipal_representatives
        &&& self.poh == other.poh
        &&& self.routing == other.routing
        &&& self.max_wait_millis == other.max_wait_millis
    }

    fn take_in(&mut self, tx: Transaction) -> (outcome: Result<SubmitOutcome, LedgerError>)
        ensures
            final(self).spec_same_but_pending(old(self)),
            match spec_validate(tx) {
                Err(e) => outcome == Err::<SubmitOutcome, LedgerError>(LedgerError::Validation(e))
                    && *final(self) == *old(self),
                Ok(()) => if spec_has_id(old(self).pending_transactions@, tx.transaction_id@) {
                    outcome == Ok::<SubmitOutcome, LedgerError>(SubmitOutcome::Duplicate)
                        && *final(self) == *old(self)
                } else {
                    &&& outcome == Ok::<SubmitOutcome, LedgerError>(SubmitOutcome::Accepted)
                    &&& spec_unlisted(
                        old(self).approved@,
                        final(self).approved@,
                        tx.transaction_id@,
                    )
                    &&& final(self).pending_transactions@ == old(self).pending_transactions@.push(
                        tx,
                    )
                    &&& spec_has_id(final(self).pending_transactions@, tx.transaction_id@)
                    &&& forall|user: Seq<char>|
                        #[trigger] spec_items_of(final(self).dpos.user_evaluations@, user)
                            == spec_after_transaction(
                            spec_items_of(old(self).dpos.user_evaluations@, user),
                            user,
                            tx,
                        )
                    &&& forall|user: Seq<char>| #[trigger]
                        spec_has_user(final(self).dpos.user_evaluations@, user) <==> spec_has_user(
                            old(self).dpos.user_evaluations@,
                            user,
                        ) || user == tx.sender@ || user == tx.receiver@
                    &&& final(self).dpos.user_evaluations@.len() == old(
                        self,
                    ).dpos.user_evaluations@.len() + spec_new_records(
                        old(self).dpos.user_evaluations@,
                        tx,
                    )
                },
            },
    {
        match validate_transaction(&tx) {
            Err(e) => Err(LedgerError::Validation(e)),
            Ok(()) => {
                if self.pending_transactions.contains(tx.transaction_id.as_str()) {
                    Ok(SubmitOutcome::Duplicate)
                } else {
                    self.dpos.update_user_evaluations(&tx);
                    unlist(&mut self.approved, tx.transaction_id.as_str());
                    self.pending_transactions.insert(tx);
                    Ok(SubmitOutcome::Accepted)
                }
            },
        }
    }

    /// Takes in a new transaction at the instant `now`. A malformed one is
    /// refused and nothing changes. Otherwise it becomes pending, in the
    /// status that goes with its type, without a signature and not
    /// approved, and the contribution records of its sender and receiver
    /// grow; a transaction whose id is pending already is accepted and
    /// changes nothing.
    pub fn create_transaction(&mut self, tx: Transaction, now: i64) -> (outcome: Result<
        SubmitOutcome,
        LedgerError,
    >)
        ensures
            final(self).spec_same_but_pending(old(self)),
            match spec_validate(tx) {
                Err(e) => outcome == Err::<SubmitOutcome, LedgerError>(LedgerError::Validation(e))
                    && *final(self) == *old(self),
                Ok(()) => if spec_has_id(old(self).pending_transactions@, tx.transaction_id@) {
                    outcome == Ok::<SubmitOutcome, LedgerError>(SubmitOutcome::Duplicate)
                        && *final(self) == *old(self)
                } else {
                    &&& outcome == Ok::<SubmitOutcome, LedgerError>(SubmitOutcome::Accepted)
                    &&& spec_unlisted(
                        old(self).approved@,
                        final(self).approved@,
                        tx.transaction_id@,
                    )
                    &&& final(self).pending_transactions@ == old(self).pending_transactions@.push(
                        final(self).pending_transactions@.last(),
                    )
                    &&& spec_submitted(tx, now, final(self).pending_transactions@.last())
                    &&& spec_has_id(final(self).pending_transactions@, tx.transaction_id@)
                    &&& forall|user: Seq<char>|
                        #[trigger] spec_items_of(final(self).dpos.user_evaluations@, user)
                            == spec_after_transaction(
                            spec_items_of(old(self).dpos.user_evaluations@, user),
                            user,
                            tx,
                        )
                    &&& forall|user: Seq<char>| #[trigger]
                        spec_has_user(final(self).dpos.user_evaluations@, user) <==> spec_has_user(
                            old(self).dpos.user_evaluations@,
                            user,
                        ) || user == tx.sender@ || user == tx.receiver@
                    &&& final(self).dpos.user_evaluations@.len() == old(
                        self,
                    ).dpos.user_evaluations@.len() + spec_new_records(
                        old(self).dpos.user_evaluations@,
                        tx,
                    )
                },
            },
    {
        let mut stored = tx;
        stored.status = initial_status(stored.transaction_type);
        stored.created_at = now;
        stored.updated_at = now;
        stored.signature = String::new();
        self.take_in(stored)
    }

    /// Moves the transaction with the id `id` to `new_status` at `now`. A
    /// step that the lifecycle does not have is refused with
    /// `InvalidTransition` and an unknown id with `UnknownTransaction`;
    /// both leave everything as it is. A transaction that becomes shared
    /// moves from the pending set to the archive.
    pub fn update_status(&mut self, id: &str, new_status: TransactionStatus, now: i64) -> (updated:
        Result<Transaction, LedgerError>)
        ensures
            final(self).approved == old(self).approved,
            final(self).tier == old(self).tier,
            final(self).blockchain == old(self).blockchain,
            final(self).dpos == old(self).dpos,
            final(self).poh == old(self).poh,
            final(self).routing == old(self).routing,
            final(self).max_wait_millis == old(self).max_wait_millis,
            match updated {
                Ok(tx) => {
                    let i = spec_index_of_id(old(self).pending_transactions@, id@);
                    &&& spec_has_id(old(self).pending_transactions@, id@)
                    &&& spec_transition_allowed(
                        old(self).pending_transactions@[i].status,
                        new_status,
                    )
                    &&& tx == spec_with_status(old(self).pending_transactions@[i], new_status, now)
                    &&& if new_status == TransactionStatus::Shared {
                        &&& final(self).pending_transactions@
                            == old(self).pending_transactions@.remove(i)
                        &&& final(self).analytics@ == old(self).analytics@.push(tx)
                    } else {
                        &&& final(self).pending_transactions@
                            == old(self).pending_transactions@.update(i, tx)
                        &&& final(self).analytics@ == old(self).analytics@
                    }
                },
                Err(e) => {
                    &&& final(self).pending_transactions@ == old(self).pending_transactions@
                    &&& final(self).analytics@ == old(self).analytics@
                    &&& if spec_has_id(old(self).pending_transactions@, id@) {
                        e == LedgerError::InvalidTransition && !spec_transition_allowed(
                            old(self).pending_transactions@[spec_index_of_id(
                                old(self).pending_transactions@,
                                id@,
                            )].status,
                            new_status,
                        )
                    } else {
                        e == LedgerError::UnknownTransaction
                    }
                },
            },
    {
        match self.pending_transactions.update_status(id, new_status, now) {
            Ok(tx) => {
                if new_status == TransactionStatus::Shared {
                    self.analytics.push(tx.clone());
                }
                Ok(tx)
            },
            Err(e) => Err(e),
        }
    }

    /// Takes back a change of status that the store did not take: puts
    /// `previous` into the pending set as it was before the change, and
    /// takes every transaction with its id out of the archive. The
    /// approvals stay as they are recorded.
    pub fn restore_transaction(&mut self, previous: Transaction)
        ensures
            final(self).approved == old(self).approved,
            final(self).tier == old(self).tier,
            final(self).blockchain == old(self).blockchain,
            final(self).dpos == old(self).dpos,
            final(self).poh == old(self).poh,
            final(self).routing == old(self).routing,
            final(self).max_wait_millis == old(self).max_wait_millis,
            final(self).pending_transactions@ == spec_put_back(
                old(self).pending_transactions@,
                previous,
            ),
            final(self).analytics@ == spec_archive_without(
                old(self).analytics@,
                previous.transaction_id@,
            ),
    {
        let mut kept: Vec<Transaction> = Vec::new();
        let mut i: usize = 0;
        assert(self.analytics@.take(0) =~= Seq::<Transaction>::empty());
        proof {
            reveal(Seq::filter);
        }
        while i < self.analytics.len()
            invariant
                i <= self.analytics.len(),
                self.analytics == old(self).analytics,
                kept@ == spec_archive_without(
                    self.analytics@.take(i as int),
                    previous.transaction_id@,
                ),
            decreases self.analytics.len() - i,
        {
            proof {
                reveal(Seq::filter);
                assert(self.analytics@.take(i + 1).drop_last() =~= self.analytics@.take(i as int));
            }
            if !crate::text::str_eq(
                self.analytics[i].transaction_id.as_str(),
                previous.transaction_id.as_str(),
            ) {
                kept.push(self.analytics[i].clone());
            }
            i += 1;
        }
        assert(self.analytics@.take(i as int) =~= self.analytics@);
        self.analytics = kept;
        self.pending_transactions.put_back(previous);
    }

    /// Completes a transaction that was sent: it must be in the status
    /// `SendComplete` and its receiver's municipality must resolve to an
    /// endpoint. On success the transaction is complete and is returned
    /// with the endpoint to send it to; on failure nothing changes.
    pub fn complete_transaction(&mut self, id: &str, now: i64) -> (outcome: Result<
        (Transaction, String),
        LedgerError,
    >)
        ensures
            final(self).approved == old(self).approved,
            final(self).tier == old(self).tier,
            final(self).analytics == old(self).analytics,
            final(self).blockchain == old(self).blockchain,
            final(self).dpos == old(self).dpos,
            final(self).poh == old(self).poh,
            final(self).routing == old(self).routing,
            final(self).max_wait_millis == old(self).max_wait_millis,
            match outcome {
                Ok((tx, endpoint)) => {
                    let i = spec_index_of_id(old(self).pending_transactions@, id@);
                    let before = old(self).pending_transactions@[i];
                    &&& spec_has_id(old(self).pending_transactions@, id@)
                    &&& before.status == TransactionStatus::SendComplete
                    &&& spec_resolve(old(self).routing.continents@, before.receiver_municipality@)
                        == Some(endpoint@)
                    &&& tx == spec_with_status(before, TransactionStatus::Complete, now)
                    &&& final(self).pending_transactions@
                        == old(self).pending_transactions@.update(i, tx)
                },
                Err(e) => {
                    &&& final(self).pending_transactions@ == old(self).pending_transactions@
                    &&& if !spec_has_id(old(self).pending_transactions@, id@) {
                        e == LedgerError::UnknownTransaction
                    } else {
                        let before = old(self).pending_transactions@[spec_index_of_id(
                            old(self).pending_transactions@,
                            id@,
                        )];
                        if before.status != TransactionStatus::SendComplete {
                            e == LedgerError::InvalidTransition
                        } else {
                            e == LedgerError::UnknownDestination && spec_resolve(
                                old(self).routing.continents@,
                                before.receiver_municipality@,
                            ) is None
                        }
                    }
                },
            },
    {
        let found = self.pending_transactions.position(id);
        match found {
            None => Err(LedgerError::UnknownTransaction),
            Some(i) => {
                proof {
                    crate::pending::lemma_index_of_id(self.pending_transactions@, i as int);
                }
                let current = self.pending_transactions.get(id).unwrap();
                if current.status != TransactionStatus::SendComplete {
                    return Err(LedgerError::InvalidTransition);
                }
                match resolve_target(&self.routing, current.receiver_municipality.as_str()) {
                    Err(e) => Err(e),
                    Ok(endpoint) => match self.pending_transactions.update_status(
                        id,
                        TransactionStatus::Complete,
                        now,
                    ) {
                        Ok(tx) => Ok((tx, endpoint)),
                        Err(e) => Err(e),
                    },
                }
            },
        }
    }

    /// Answers a query for the transaction with the id `id`: takes it out
    /// of the pending set and hands it to the caller, who sends it back.
    pub fn handle_incoming_query(&mut self, id: &str) -> (found: Option<Transaction>)
        ensures
            final(self).approved == old(self).approved,
            final(self).spec_same_but_pending(old(self)),
            final(self).dpos == old(self).dpos,
            final(self).pending_transactions@ == spec_remove(old(self).pending_transactions@, id@),
            match found {
                Some(tx) => spec_has_id(old(self).pending_transactions@, id@) && tx
                    == old(self).pending_transactions@[spec_index_of_id(
                    old(self).pending_transactions@,
                    id@,
                )],
                None => !spec_has_id(old(self).pending_transactions@, id@),
            },
    {
        self.pending_transactions.remove(id)
    }

    /// Deletes the pending transactions that were created more than 180
    /// days before `now`, and returns them for the caller to delete from
    /// its store.
    pub fn clean_expired_send_pending_transactions(&mut self, now: i64) -> (swept: Vec<
        Transaction,
    >)
        ensures
            final(self).approved == old(self).approved,
            final(self).spec_same_but_pending(old(self)),
            final(self).dpos == old(self).dpos,
            final(self).pending_transactions@ == spec_kept(
                old(self).pending_transactions@,
                now as int,
            ),
            swept@ == spec_swept(old(self).pending_transactions@, now as int),
    {
        self.pending_transactions.sweep_expired(now)
    }

    /// Copies of the pending transactions: what is sent to the peers in a
    /// round of gossip.
    pub fn gossip_transactions(&self) -> (payload: Vec<Transaction>)
        ensures
            payload@ == self.pending_transactions@,
    {
        self.pending_transactions.snapshot()
    }

    /// Copies of the pending transactions, for a client that asks.
    pub fn get_pending_transactions(&self) -> (all: Vec<Transaction>)
        ensures
            all@ == self.pending_transactions@,
    {
        self.pending_transactions.snapshot()
    }

    /// Merges the pending transactions of a peer into the pending set:
    /// those whose id is not pending here are added, the others are left
    /// as they are here. What is added counts as not approved here,
    /// whatever signature it carries. Returns copies of those that were
    /// added, for the caller to store.
    pub fn gossip_transactions_handler(&mut self, incoming: &Vec<Transaction>) -> (added: Vec<
        Transaction,
    >)
        ensures
            final(self).spec_same_but_pending(old(self)),
            final(self).dpos == old(self).dpos,
            final(self).pending_transactions@ == spec_merge(
                old(self).pending_transactions@,
                incoming@,
            ),
            final(self).pending_transactions@ == old(self).pending_transactions@ + added@,
            spec_unlisted_all(old(self).approved@, final(self).approved@, added@),
    {
        let added = self.pending_transactions.merge(incoming);
        unlist_all(&mut self.approved, &added);
        added
    }

    /// The last block of the chain: what is sent to the peers in a round
    /// of gossip.
    pub fn gossip_blocks_with_chains(&self) -> (latest: Option<Block>)
        ensures
            match latest {
                Some(block) => self.blockchain@.len() > 0 && block == self.blockchain@.last(),
                None => self.blockchain@.len() == 0,
            },
    {
        self.blockchain.latest()
    }

    /// Copies of all blocks of the chain.
    pub fn get_chain(&self) -> (all: Vec<Block>)
        ensures
            all@ == self.blockchain@,
            spec_chain_valid(all@),
            spec_distinct_hashes(all@),
    {
        self.blockchain.get_chain()
    }

    /// Takes in a block that another node sends. The block is appended
    /// unless the chain holds it already, it does not name the hash of the
    /// last block, it has not the next index or it does not carry its own
    /// hash; the reason is returned for the caller to log.
    pub fn receive_block(&mut self, block: Block) -> (outcome: Result<(), BlockRejection>)
        ensures
            final(self).approved == old(self).approved,
            final(self).tier == old(self).tier,
            final(self).pending_transactions == old(self).pending_transactions,
            final(self).analytics == old(self).analytics,
            final(self).dpos == old(self).dpos,
            final(self).poh == old(self).poh,
            final(self).routing == old(self).routing,
            final(self).max_wait_millis == old(self).max_wait_millis,
            final(self).blockchain@ == spec_receive(old(self).blockchain@, block),
            match outcome {
                Ok(()) => spec_rejection(old(self).blockchain@, block) is None,
                Err(why) => spec_rejection(old(self).blockchain@, block) == Some(why),
            },
    {
        self.blockchain.receive_block(block)
    }

    /// Takes in the blocks that a peer sends in a round of gossip, each in
    /// turn, and tells for each why it was not appended, or `None` where
    /// it was.
    pub fn gossip_blocks_handler(&mut self, offered: &Vec<Block>) -> (report: Vec<
        Option<BlockRejection>,
    >)
        ensures
            final(self).approved == old(self).approved,
            final(self).tier == old(self).tier,
            final(self).pending_transactions == old(self).pending_transactions,
            final(self).analytics == old(self).analytics,
            final(self).dpos == old(self).dpos,
            final(self).poh == old(self).poh,
            final(self).routing == old(self).routing,
            final(self).max_wait_millis == old(self).max_wait_millis,
            final(self).blockchain@ == spec_receive_all(old(self).blockchain@, offered@),
            report@.len() == offered@.len(),
            forall|i: int|
                0 <= i < offered@.len() ==> #[trigger] report@[i] == spec_rejection(
                    spec_receive_all(old(self).blockchain@, offered@.take(i)),
                    offered@[i],
                ),
    {
        let mut report: Vec<Option<BlockRejection>> = Vec::new();
        let mut i: usize = 0;
        while i < offered.len()
            invariant
                i <= offered.len(),
                self.tier == old(self).tier,
                self.pending_transactions == old(self).pending_transactions,
                self.analytics == old(self).analytics,
                self.dpos == old(self).dpos,
                self.poh == old(self).poh,
                self.routing == old(self).routing,
                self.max_wait_millis == old(self).max_wait_millis,
                self.approved == old(self).approved,
                self.blockchain@ == spec_receive_all(old(self).blockchain@, offered@.take(i as int)),
                report@.len() == i,
                forall|j: int|
                    0 <= j < i ==> #[trigger] report@[j] == spec_rejection(
                        spec_receive_all(old(self).blockchain@, offered@.take(j)),
                        offered@[j],
                    ),
            decreases offered.len() - i,
        {
            assert(offered@.take(i + 1).drop_last() =~= offered@.take(i as int));
            match self.blockchain.receive_block(offered[i].clone()) {
                Ok(()) => report.push(None),
                Err(why) => report.push(Some(why)),
            }
            i += 1;
        }
        assert(offered@.take(i as int) =~= offered@);
        report
    }

    /// Elects, at `now`, a representative for the sender's municipality of
    /// the pending transaction with the id `id`, has that representative
    /// approve it and records the approval. Fails with
    /// `NoRepresentativeAvailable`,
    /// and changes nothing, if and only if the municipality has no
    /// representative within term.
    pub fn approve_pending(&mut self, id: &str, now: i64) -> (outcome: Result<
        Representative,
        LedgerError,
    >)
        ensures
            final(self).tier == old(self).tier,
            final(self).analytics == old(self).analytics,
            final(self).blockchain == old(self).blockchain,
            final(self).poh == old(self).poh,
            final(self).routing == old(self).routing,
            final(self).max_wait_millis == old(self).max_wait_millis,
            final(self).dpos.user_evaluations == old(self).dpos.user_evaluations,
            spec_rosters_kept(old(self).dpos.rosters(), final(self).dpos.rosters()),
            match outcome {
                Ok(rep) => {
                    let i = spec_index_of_id(old(self).pending_transactions@, id@);
                    let before = old(self).pending_transactions@[i];
                    let after = final(self).pending_transactions@[i];
                    &&& spec_has_id(old(self).pending_transactions@, id@)
                    &&& spec_roster_of(
                        old(self).dpos.rosters(),
                        before.sender_municipality@,
                    ).contains(rep)
                    &&& spec_in_term(rep, now as int)
                    &&& spec_approver(
                        final(self).dpos.rosters(),
                        before.sender_municipality@,
                        now as int,
                    ) == Ok::<Seq<char>, LedgerError>(rep.user_id@)
                    &&& after.signature@ == spec_approval_signature(rep.user_id@)
                    &&& after == (Transaction { signature: after.signature, ..before })
                    &&& final(self).pending_transactions@
                        == old(self).pending_transactions@.update(i, after)
                    &&& spec_has_approved(final(self).dpos.rosters(), after)
                    &&& spec_listed_more(old(self).approved@, final(self).approved@, id@)
                    &&& forall|m: Seq<char>|
                        m != before.sender_municipality@ ==> spec_active_of(
                            old(self).dpos.rosters(),
                            m,
                        ) == #[trigger] spec_active_of(final(self).dpos.rosters(), m)
                },
                Err(e) => {
                    &&& final(self).pending_transactions@ == old(self).pending_transactions@
                    &&& final(self).approved == old(self).approved
                    &&& final(self).dpos.rosters() == old(self).dpos.rosters()
                    &&& if !spec_has_id(old(self).pending_transactions@, id@) {
                        e == LedgerError::UnknownTransaction
                    } else {
                        e == LedgerError::NoRepresentativeAvailable && spec_none_in_term(
                            spec_roster_of(
                                old(self).dpos.rosters(),
                                old(self).pending_transactions@[spec_index_of_id(
                                    old(self).pending_transactions@,
                                    id@,
                                )].sender_municipality@,
                            ),
                            now as int,
                        )
                    }
                },
            },
    {
        let found = self.pending_transactions.position(id);
        match found {
            None => {
                Err(LedgerError::UnknownTransaction)
            },
            Some(i) => {
                proof {
                    crate::pending::lemma_index_of_id(self.pending_transactions@, i as int);
                }
                let current = self.pending_transactions.get(id).unwrap();
                let mut tx = current;
                let ghost before = tx;
                match self.dpos.elect_representative_at(tx.sender_municipality.as_str(), now) {
                    Err(e) => Err(e),
                    Ok(rep) => {
                        proof {
                            let reps = spec_roster_of(
                                old(self).dpos.rosters(),
                                before.sender_municipality@,
                            );
                            assert(spec_roster_of(self.dpos.rosters(), before.sender_municipality@)
                                == reps);
                            let k = choose|k: int| 0 <= k < reps.len() && reps[k] == rep;
                            assert(reps[k].user_id@ == rep.user_id@ && spec_in_term(
                                reps[k],
                                now as int,
                            ));
                        }
                        let approval = self.dpos.approve_transaction_at(&mut tx, now);
                        proof {
                            assert(tx.sender_municipality == before.sender_municipality);
                            let reps = spec_roster_of(self.dpos.rosters(), tx.sender_municipality@);
                            assert(reps == spec_roster_of(
                                old(self).dpos.rosters(),
                                before.sender_municipality@,
                            ));
                            let k = choose|k: int| 0 <= k < reps.len() && reps[k] == rep;
                            assert(0 <= k < reps.len() && reps[k] == rep);
                            assert(tx.signature@ == spec_approval_signature(reps[k].user_id@));
                            assert(spec_has_approved(self.dpos.rosters(), tx));
                        }
                        if !listed(&self.approved, id) {
                            let name = tx.transaction_id.clone();
                            self.approved.push(name);
                            proof {
                                assert forall|x: Seq<char>| #[trigger]
                                    spec_listed(self.approved@, x) <==> spec_listed(
                                        old(self).approved@,
                                        x,
                                    ) || x == id@ by {
                                    lemma_listed_push(old(self).approved@, name, x);
                                }
                            }
                        }
                        self.pending_transactions.replace(tx);
                        Ok(rep)
                    },
                }
            },
        }
    }

    /// Takes in, at `now`, a transaction that another node sends. A
    /// malformed one is refused and a known one changes nothing. Otherwise
    /// it becomes pending without the signature that it came with, a
    /// representative is elected for its sender's
    /// municipality and approves it, and the caller is told where to send
    /// it. Where the municipality has no representative within term the
    /// transaction stays pending without approval; where the next tier
    /// cannot be resolved it stays pending with it.
    pub fn receive_transaction(&mut self, tx: Transaction, now: i64) -> (outcome: Result<
        IngressAction,
        LedgerError,
    >)
        ensures
            final(self).tier == old(self).tier,
            final(self).analytics == old(self).analytics,
            final(self).blockchain == old(self).blockchain,
            final(self).poh == old(self).poh,
            final(self).routing == old(self).routing,
            final(self).max_wait_millis == old(self).max_wait_millis,
            spec_rosters_kept(old(self).dpos.rosters(), final(self).dpos.rosters()),
            match spec_validate(tx) {
                Err(e) => outcome matches Err(LedgerError::Validation(why)) && why == e
                    && *final(self) == *old(self),
                Ok(()) => if spec_has_id(old(self).pending_transactions@, tx.transaction_id@) {
                    outcome matches Ok(IngressAction::Duplicate) && *final(self) == *old(self)
                } else {
                    let stored = final(self).pending_transactions@.last();
                    let reps = spec_roster_of(old(self).dpos.rosters(), tx.sender_municipality@);
                    &&& final(self).pending_transactions@.len() == old(
                        self,
                    ).pending_transactions@.len() + 1
                    &&& final(self).pending_transactions@.drop_last() == old(
                        self,
                    ).pending_transactions@
                    &&& spec_has_id(final(self).pending_transactions@, tx.transaction_id@)
                    &&& stored == (Transaction {
                        signature: stored.signature,
                        ..spec_received(tx, now)
                    })
                    &&& forall|user: Seq<char>|
                        #[trigger] spec_items_of(final(self).dpos.user_evaluations@, user)
                            == spec_after_transaction(
                            spec_items_of(old(self).dpos.user_evaluations@, user),
                            user,
                            tx,
                        )
                    &&& forall|user: Seq<char>| #[trigger]
                        spec_has_user(final(self).dpos.user_evaluations@, user) <==> spec_has_user(
                            old(self).dpos.user_evaluations@,
                            user,
                        ) || user == tx.sender@ || user == tx.receiver@
                    &&& final(self).dpos.user_evaluations@.len() == old(
                        self,
                    ).dpos.user_evaluations@.len() + spec_new_records(
                        old(self).dpos.user_evaluations@,
                        tx,
                    )
                    &&& forall|x: Seq<char>|
                        x != tx.transaction_id@ ==> (#[trigger] spec_listed(
                            final(self).approved@,
                            x,
                        ) <==> spec_listed(old(self).approved@, x))
                    &&& spec_listed(final(self).approved@, tx.transaction_id@)
                        <==> !spec_none_in_term(reps, now as int)
                    &&& if spec_none_in_term(reps, now as int) {
                        &&& outcome matches Ok(IngressAction::Held(why))
                        &&& why == LedgerError::NoRepresentativeAvailable
                        &&& stored.signature@.len() == 0
                        &&& final(self).dpos.rosters() == old(self).dpos.rosters()
                    } else {
                        &&& spec_has_approved(final(self).dpos.rosters(), stored)
                        &&& spec_approver(
                            final(self).dpos.rosters(),
                            tx.sender_municipality@,
                            now as int,
                        ) matches Ok(user)
                        &&& stored.signature@ == spec_approval_signature(user)
                        &&& match spec_escalation_target(
                            old(self).routing,
                            old(self).tier,
                            tx.sender_municipality@,
                        ) {
                            Err(e) => outcome matches Err(why) && why == e,
                            Ok(Some(url)) => outcome matches Ok(IngressAction::Forward(endpoint))
                                && endpoint@ == url,
                            Ok(None) => outcome matches Ok(IngressAction::Settled),
                        }
                    }
                },
            },
    {
        let id = tx.transaction_id.clone();
        let municipality = tx.sender_municipality.clone();
        let mut stored = tx;
        stored.status = initial_status(stored.transaction_type);
        stored.updated_at = now;
        stored.signature = String::new();
        let ghost pending = self.pending_transactions@;
        match self.take_in(stored) {
            Err(e) => {
                Err(e)
            },
            Ok(SubmitOutcome::Duplicate) => {
                Ok(IngressAction::Duplicate)
            },
            Ok(SubmitOutcome::Accepted) => {
                let n = self.pending_transactions.len();
                proof {
                    assert(self.pending_transactions@ == pending.push(stored));
                    assert(self.pending_transactions@[n - 1] == stored);
                    crate::pending::lemma_index_of_id(self.pending_transactions@, n - 1);
                    assert(self.pending_transactions@.drop_last() =~= pending);
                }
                match self.approve_pending(id.as_str(), now) {
                    Err(e) => Ok(IngressAction::Held(e)),
                    Ok(rep) => {
                        proof {
                            let reps = spec_roster_of(
                                old(self).dpos.rosters(),
                                tx.sender_municipality@,
                            );
                            let k = choose|k: int| 0 <= k < reps.len() && reps[k] == rep;
                            assert(spec_in_term(reps[k], now as int));
                            assert(self.pending_transactions@.drop_last() =~= pending);
                        }
                        match escalation_target(&self.routing, self.tier, municipality.as_str()) {
                            Err(e) => Err(e),
                            Ok(Some(url)) => Ok(IngressAction::Forward(url)),
                            Ok(None) => Ok(IngressAction::Settled),
                        }
                    },
                }
            },
        }
    }

    /// Records what became of a forward of the transaction with the id
    /// `id`. An acknowledged transaction moves on, a sent one to
    /// `SendComplete` and a received one to `Complete`. A forward that
    /// failed is reported as `ForwardingFailure` and changes nothing: the
    /// transaction stays pending and goes out again with the next round.
    pub fn record_forward(&mut self, id: &str, acknowledged: bool, now: i64) -> (outcome: Result<
        Transaction,
        LedgerError,
    >)
        ensures
            final(self).approved == old(self).approved,
            final(self).tier == old(self).tier,
            final(self).analytics == old(self).analytics,
            final(self).blockchain == old(self).blockchain,
            final(self).dpos == old(self).dpos,
            final(self).poh == old(self).poh,
            final(self).routing == old(self).routing,
            final(self).max_wait_millis == old(self).max_wait_millis,
            match outcome {
                Ok(tx) => {
                    let i = spec_index_of_id(old(self).pending_transactions@, id@);
                    let before = old(self).pending_transactions@[i];
                    &&& acknowledged
                    &&& spec_has_id(old(self).pending_transactions@, id@)
                    &&& spec_transition_allowed(
                        before.status,
                        spec_forwarded_status(before.transaction_type),
                    )
                    &&& tx == spec_with_status(
                        before,
                        spec_forwarded_status(before.transaction_type),
                        now,
                    )
                    &&& final(self).pending_transactions@
                        == old(self).pending_transactions@.update(i, tx)
                },
                Err(e) => {
                    &&& final(self).pending_transactions@ == old(self).pending_transactions@
                    &&& if !acknowledged {
                        e == LedgerError::ForwardingFailure
                    } else if !spec_has_id(old(self).pending_transactions@, id@) {
                        e == LedgerError::UnknownTransaction
                    } else {
                        let before = old(self).pending_transactions@[spec_index_of_id(
                            old(self).pending_transactions@,
                            id@,
                        )];
                        e == LedgerError::InvalidTransition && !spec_transition_allowed(
                            before.status,
                            spec_forwarded_status(before.transaction_type),
                        )
                    }
                },
            },
    {
        if !acknowledged {
            return Err(LedgerError::ForwardingFailure);
        }
        match self.pending_transactions.get(id) {
            None => Err(LedgerError::UnknownTransaction),
            Some(current) => {
                let next = match current.transaction_type {
                    TransactionType::Send => TransactionStatus::SendComplete,
                    TransactionType::Receive => TransactionStatus::Complete,
                };
                self.pending_transactions.update_status(id, next, now)
            },
        }
    }

    /// The pending transactions among the first `window` that this node's
    /// registry approved.
    pub fn ready_batch(&self, window: usize) -> (batch: Vec<Transaction>)
        ensures
            batch@ == spec_ready_batch(
                self.pending_transactions@.take(spec_window(self.pending_transactions@, window)),
                self.dpos.rosters(),
                self.approved@,
            ),
    {
        let all = self.pending_transactions.snapshot();
        let k = if window <= all.len() {
            window
        } else {
            all.len()
        };
        let mut batch: Vec<Transaction> = Vec::new();
        let mut i: usize = 0;
        assert(all@.take(0) =~= Seq::<Transaction>::empty());
        proof {
            reveal(Seq::filter);
        }
        while i < k
            invariant
                i <= k <= all.len(),
                batch@ == spec_ready_batch(all@.take(i as int), self.dpos.rosters(), self.approved@),
            decreases k - i,
        {
            proof {
                reveal(Seq::filter);
                assert(all@.take(i + 1).drop_last() =~= all@.take(i as int));
            }
            if is_pending(all[i].status) && listed(
                &self.approved,
                all[i].transaction_id.as_str(),
            ) && self.dpos.has_approved(&all[i]) {
                batch.push(all[i].clone());
            }
            i += 1;
        }
        batch
    }

    /// Tries to assemble a block at `now`. A block is due when the
    /// transactions that wait to be batched are `threshold` or more, or
    /// have waited `waited` milliseconds where that is as long as they
    /// may. The block takes, of the first `window` pending transactions,
    /// those that the registry of this node approved, and must be approved
    /// itself, by whoever approves for the sender's municipality of its
    /// first transaction. A block that is not approved, or whose hash the
    /// chain holds already, is dropped and its batch stays pending. The
    /// batch of a block that was appended leaves the pending set, and its
    /// approvals leave the record.
    pub fn try_assemble(&mut self, threshold: usize, window: usize, waited: u64, now: i64) -> (outcome:
        AssemblyOutcome)
        ensures
            final(self).tier == old(self).tier,
            final(self).analytics == old(self).analytics,
            final(self).dpos == old(self).dpos,
            final(self).routing == old(self).routing,
            final(self).max_wait_millis == old(self).max_wait_millis,
            spec_assembled(*old(self), *final(self), outcome, threshold, window, waited, now),
    {
        let n = self.pending_transactions.count_waiting();
        if !(n >= threshold || waited >= self.max_wait_millis) {
            return AssemblyOutcome::NotDue;
        }
        let batch = self.ready_batch(window);
        if batch.len() == 0 {
            return AssemblyOutcome::NothingApproved;
        }
        let candidate = self.blockchain.next_block(now, &batch);
        if !self.dpos.approve_block(&candidate, batch[0].sender_municipality.as_str(), now) {
            return AssemblyOutcome::BlockRejected;
        }
        let block = candidate.clone();
        if !self.blockchain.push_block(candidate) {
            return AssemblyOutcome::HashKnown;
        }
        self.pending_transactions.remove_batch(&batch);
        unlist_all(&mut self.approved, &batch);
        let mut i: usize = 0;
        assert(batch@.take(0) =~= Seq::<Transaction>::empty());
        assert(self.poh@ =~= old(self).poh@ + Seq::<Seq<char>>::empty());
        while i < batch.len()
            invariant
                i <= batch.len(),
                self.tier == old(self).tier,
                self.analytics == old(self).analytics,
                self.dpos == old(self).dpos,
                self.routing == old(self).routing,
                self.max_wait_millis == old(self).max_wait_millis,
                self.blockchain@ == old(self).blockchain@.push(block),
                self.pending_transactions@ == spec_without(old(self).pending_transactions@, batch@),
                spec_unlisted_all(old(self).approved@, self.approved@, batch@),
                self.poh@ == old(self).poh@ + spec_batch_entries(batch@.take(i as int)),
            decreases batch.len() - i,
        {
            let entry = batch[i].generate_proof_of_history();
            self.poh.add_event(entry.as_str());
            proof {
                let next = batch@.take(i + 1);
                assert(next.drop_last() =~= batch@.take(i as int));
                assert(next.last() == batch@[i as int]);
                assert(self.poh@ =~= old(self).poh@ + spec_batch_entries(next));
            }
            i += 1;
        }
        assert(batch@.take(i as int) =~= batch@);
        AssemblyOutcome::Assembled(block)
    }

    /// The production path of block assembly: a block is due at
    /// `PRODUCTION_THRESHOLD` pending transactions or when they have
    /// waited as long as they may.
    pub fn generate_block(&mut self, waited: u64, now: i64) -> (outcome: AssemblyOutcome)
        ensures
            final(self).tier == old(self).tier,
            final(self).analytics == old(self).analytics,
            final(self).dpos == old(self).dpos,
            final(self).routing == old(self).routing,
            final(self).max_wait_millis == old(self).max_wait_millis,
            spec_assembled(*old(self), *final(self), outcome, 500, usize::MAX, waited, now),
    {
        self.try_assemble(PRODUCTION_THRESHOLD, usize::MAX, waited, now)
    }

    /// The background drain of block assembly: a block is due at
    /// `DRAIN_THRESHOLD` pending transactions or when they have waited as
    /// long as they may.
    pub fn process_pending_transactions(&mut self, waited: u64, now: i64) -> (outcome:
        AssemblyOutcome)
        ensures
            final(self).tier == old(self).tier,
            final(self).analytics == old(self).analytics,
            final(self).dpos == old(self).dpos,
            final(self).routing == old(self).routing,
            final(self).max_wait_millis == old(self).max_wait_millis,
            spec_assembled(*old(self), *final(self), outcome, 5, usize::MAX, waited, now),
    {
        self.try_assemble(DRAIN_THRESHOLD, usize::MAX, waited, now)
    }

    /// A round of approvals at `now`: elects a representative for the
    /// sender's municipality of each of the first `window` pending
    /// transactions, has it approved and records the approval. Each of
    /// these transactions whose municipality has a representative within
    /// term is approved, also one that found none in an earlier round; the
    /// others, and those beyond the first `window`, stay as they are.
    pub fn approve_window(&mut self, window: usize, now: i64)
        ensures
            spec_approvals_made(*old(self), *final(self)),
            spec_window_approved(*old(self), *final(self), window, now),
    {
        let all = self.pending_transactions.snapshot();
        let k = if window <= all.len() {
            window
        } else {
            all.len()
        };
        let mut i: usize = 0;
        while i < k
            invariant
                i <= k <= all.len(),
                all@ == old(self).pending_transactions@,
                spec_approvals_made(*old(self), *self),
                spec_approved_upto(*old(self), *self, i as int, now),
            decreases k - i,
        {
            let ghost start = old(self).dpos.rosters();
            let ghost before = self.pending_transactions@;
            let ghost rosters = self.dpos.rosters();
            let ghost listing = self.approved@;
            let n = self.pending_transactions.len();
            proof {
                assert(before[i as int].transaction_id@ == all@[i as int].transaction_id@);
                crate::pending::lemma_index_of_id(before, i as int);
                assert(before[i as int] == all@[i as int]);
            }
            let approval = self.approve_pending(all[i].transaction_id.as_str(), now);
            proof {
                let m = all@[i as int].sender_municipality@;
                let after = self.pending_transactions@;
                let kept = self.dpos.rosters();
                crate::dpos::lemma_rosters_kept_on(start, rosters, kept);
                assert forall|j: int| 0 <= j < all@.len() implies (#[trigger] after[j]) == (
                Transaction { signature: after[j].signature, ..all@[j] }) by {
                    assert(before[j] == (Transaction { signature: before[j].signature, ..all@[j] }));
                }
                assert(spec_roster_of(rosters, m) == spec_roster_of(start, m));
                if approval is Ok {
                    let rep = approval->Ok_0;
                    let reps = spec_roster_of(start, m);
                    let w = choose|w: int| 0 <= w < reps.len() && reps[w] == rep;
                    assert(spec_in_term(reps[w], now as int));
                    assert(!spec_none_in_term(reps, now as int));
                }
                assert forall|j: int| 0 <= j < all@.len() implies if j < i + 1
                    && !spec_none_in_term(
                    spec_roster_of(start, all@[j].sender_municipality@),
                    now as int,
                ) {
                    &&& spec_has_approved(kept, #[trigger] after[j])
                    &&& spec_listed(self.approved@, all@[j].transaction_id@)
                } else {
                    &&& after[j] == all@[j]
                    &&& spec_listed(self.approved@, all@[j].transaction_id@) <==> spec_listed(
                        old(self).approved@,
                        all@[j].transaction_id@,
                    )
                } by {
                    let mj = all@[j].sender_municipality@;
                    assert(spec_roster_of(kept, mj) == spec_roster_of(rosters, mj));
                    if j != i {
                        assert(all@[j].transaction_id@ != all@[i as int].transaction_id@);
                        assert(spec_listed(self.approved@, all@[j].transaction_id@) <==> spec_listed(
                            listing,
                            all@[j].transaction_id@,
                        ));
                        assert(after[j] == before[j]);
                        if j < i && !spec_none_in_term(spec_roster_of(start, mj), now as int) {
                            assert(spec_has_approved(rosters, before[j]));
                            assert(before[j].sender_municipality@ == mj);
                            assert(spec_has_approved(kept, after[j]));
                        }
                    }
                }
                assert forall|j: int|
                    0 <= j < i + 1 && j < all@.len() && !spec_none_in_term(
                        spec_roster_of(start, (#[trigger] all@[j]).sender_municipality@),
                        now as int,
                    ) implies spec_approver(kept, all@[j].sender_municipality@, now as int)
                    is Ok by {
                    let mj = all@[j].sender_municipality@;
                    assert(spec_roster_of(kept, mj) == spec_roster_of(rosters, mj));
                    if mj != m {
                        assert(j != i);
                        assert(spec_approver(rosters, mj, now as int) is Ok);
                        if approval is Ok {
                            assert(spec_active_of(kept, mj) == spec_active_of(rosters, mj));
                        }
                    } else if j != i {
                        assert(spec_approver(rosters, mj, now as int) is Ok);
                    }
                }
            }
            i += 1;
        }
    }

    /// The batch of a municipal node at `now`: a round of approvals for the
    /// first `MUNICIPAL_BATCH_LIMIT` pending transactions, then the
    /// assembly of a block of those that are approved. Each of these
    /// transactions whose municipality has a representative within term is
    /// approved; the others, and those beyond the first
    /// `MUNICIPAL_BATCH_LIMIT`, stay as they are. The block is then
    /// assembled from what the approvals left, as soon as anything waits.
    pub fn approve_and_send_transactions(&mut self, now: i64) -> (outcome: AssemblyOutcome)
        ensures
            final(self).tier == old(self).tier,
            final(self).analytics == old(self).analytics,
            final(self).routing == old(self).routing,
            final(self).max_wait_millis == old(self).max_wait_millis,
            final(self).dpos.user_evaluations == old(self).dpos.user_evaluations,
            spec_rosters_kept(old(self).dpos.rosters(), final(self).dpos.rosters()),
            exists|middle: AppState|
                spec_approvals_made(*old(self), middle) && spec_window_approved(
                    *old(self),
                    middle,
                    300,
                    now,
                ) && #[trigger] spec_assembled(middle, *final(self), outcome, 1, 300, 0, now),
    {
        self.approve_window(MUNICIPAL_BATCH_LIMIT, now);
        let ghost middle = *self;
        let outcome = self.try_assemble(1, MUNICIPAL_BATCH_LIMIT, 0, now);
        proof {
            assert(spec_window_approved(*old(self), middle, 300, now));
            assert(spec_assembled(middle, *self, outcome, 1, 300, 0, now));
        }
        outcome
    }
}

} // verus!
