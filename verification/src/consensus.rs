//! Consensus on a list of transactions: each one that a representative
//! approves is signed and leaves an entry in the proof of history.

use vstd::prelude::*;

use crate::digest::spec_sha256_hex;
use crate::dpos::{spec_approver, DPoS, Roster};
use crate::poh::{spec_history_hash, ProofOfHistory};
use crate::transaction::{
    spec_approval_signature, spec_history_event, spec_utf8, Transaction,
};

verus! {

/// The entry that a transaction leaves in the proof of history.
pub open spec fn spec_history_entry(tx: Transaction) -> Seq<char> {
    spec_sha256_hex(spec_utf8(spec_history_event(tx)))
}

/// Whether `after` is what processing at `now` makes of `before`: signed by
/// whoever approves for the sender's municipality, or unchanged where
/// nobody does.
pub open spec fn spec_processed(
    rosters: Seq<Roster>,
    before: Transaction,
    after: Transaction,
    now: int,
) -> bool {
    match spec_approver(rosters, before.sender_municipality@, now) {
        Ok(user) => after.signature@ == spec_approval_signature(user) && after == (Transaction {
            signature: after.signature,
            ..before
        }),
        Err(_) => after == before,
    }
}

/// The entries that the transactions of `txs` leave in the proof of
/// history when they are processed at `now`: one for each that is
/// approved, in their order.
pub open spec fn spec_entries(rosters: Seq<Roster>, txs: Seq<Transaction>, now: int) -> Seq<
    Seq<char>,
>
    decreases txs.len(),
{
    if txs.len() == 0 {
        Seq::empty()
    } else if spec_approver(rosters, txs.last().sender_municipality@, now) is Ok {
        spec_entries(rosters, txs.drop_last(), now).push(spec_history_entry(txs.last()))
    } else {
        spec_entries(rosters, txs.drop_last(), now)
    }
}

/// Whether processing at the instant `now` makes `after` of the
/// transactions `before` and `log_after` of the proof of history
/// `log_before`, with `approved` approvals: each transaction is signed by
/// whoever approves for its sender's municipality or left as it was, and
/// the approved ones leave their entries in the log, in their order.
pub open spec fn spec_processed_all(
    rosters: Seq<Roster>,
    before: Seq<Transaction>,
    after: Seq<Transaction>,
    log_before: Seq<Seq<char>>,
    log_after: Seq<Seq<char>>,
    approved: usize,
    now: int,
) -> bool {
    &&& after.len() == before.len()
    &&& forall|i: int|
        0 <= i < before.len() ==> spec_processed(rosters, before[i], #[trigger] after[i], now)
    &&& log_after == log_before + spec_entries(rosters, before, now)
    &&& approved == spec_entries(rosters, before, now).len()
}

/// The registry of representatives, the proof of history and the
/// transactions that were handed in.
pub struct Consensus {
    pub dpos: DPoS,
    pub poh: ProofOfHistory,
    pub transactions: Vec<Transaction>,
}

impl Consensus {
    /// A consensus on no transactions yet, with the registry `dpos`.
    pub fn new(dpos: DPoS) -> (consensus: Self)
        ensures
            consensus.dpos == dpos,
            consensus.poh@ == Seq::<Seq<char>>::empty(),
            consensus.transactions@ == Seq::<Transaction>::empty(),
    {
        Consensus { dpos, poh: ProofOfHistory::new(), transactions: Vec::new() }
    }

    /// Hands in a transaction.
    pub fn add_transaction(&mut self, transaction: Transaction)
        ensures
            final(self).transactions@ == old(self).transactions@.push(transaction),
            final(self).poh == old(self).poh,
            final(self).dpos == old(self).dpos,
    {
        self.transactions.push(transaction);
    }

    /// Processes every transaction at the instant `now`: each one that is
    /// approved is signed and leaves its entry in the proof of history, in
    /// the order of the transactions. Returns how many were approved.
    pub fn process_transactions_at(&mut self, now: i64) -> (approved: usize)
        ensures
            final(self).dpos == old(self).dpos,
            final(self).transactions@.len() == old(self).transactions@.len(),
            forall|i: int|
                0 <= i < old(self).transactions@.len() ==> spec_processed(
                    old(self).dpos.rosters(),
                    old(self).transactions@[i],
                    #[trigger] final(self).transactions@[i],
                    now as int,
                ),
            final(self).poh@ == old(self).poh@ + spec_entries(
                old(self).dpos.rosters(),
                old(self).transactions@,
                now as int,
            ),
            approved == spec_entries(old(self).dpos.rosters(), old(self).transactions@, now as int).len(),
    {
        let n = self.transactions.len();
        let mut approved: usize = 0;
        let mut i: usize = 0;
        let ghost rosters = self.dpos.rosters();
        assert(old(self).transactions@.take(0) =~= Seq::<Transaction>::empty());
        assert(self.poh@ =~= old(self).poh@ + Seq::<Seq<char>>::empty());
        while i < n
            invariant
                i <= n,
                approved <= i,
                n == old(self).transactions@.len(),
                self.transactions@.len() == n,
                self.dpos == old(self).dpos,
                rosters == self.dpos.rosters(),
                forall|j: int|
                    0 <= j < i ==> spec_processed(
                        rosters,
                        old(self).transactions@[j],
                        #[trigger] self.transactions@[j],
                        now as int,
                    ),
                forall|j: int|
                    i <= j < n ==> #[trigger] self.transactions@[j] == old(self).transactions@[j],
                self.poh@ == old(self).poh@ + spec_entries(
                    rosters,
                    old(self).transactions@.take(i as int),
                    now as int,
                ),
                approved == spec_entries(
                    rosters,
                    old(self).transactions@.take(i as int),
                    now as int,
                ).len(),
            decreases n - i,
        {
            let mut tx = self.transactions[i].clone();
            let ghost before = self.poh@;
            proof {
                let next = old(self).transactions@.take(i + 1);
                assert(next.drop_last() =~= old(self).transactions@.take(i as int));
                assert(next.last() == old(self).transactions@[i as int]);
            }
            if self.dpos.approve_transaction_at(&mut tx, now).is_ok() {
                let entry = tx.generate_proof_of_history();
                self.poh.add_event(entry.as_str());
                approved += 1;
                proof {
                    assert(spec_history_event(tx) == spec_history_event(
                        old(self).transactions@[i as int],
                    ));
                    assert(self.poh@ =~= old(self).poh@ + spec_entries(
                        rosters,
                        old(self).transactions@.take(i + 1),
                        now as int,
                    ));
                }
            }
            self.transactions.set(i, tx);
            i += 1;
        }
        assert(old(self).transactions@.take(n as int) =~= old(self).transactions@);
        approved
    }

    /// Processes every transaction at the present instant: what becomes of
    /// the transactions and of the proof of history, and the number
    /// returned, are those of processing at the instant that the clock
    /// reads. Whatever it reads, each transaction keeps all but its
    /// signature and the proof of history grows by one entry for each
    /// approval.
    pub fn process_transactions(&mut self) -> (approved: usize)
        ensures
            final(self).dpos == old(self).dpos,
            exists|now: i64| #[trigger]
                spec_processed_all(
                    old(self).dpos.rosters(),
                    old(self).transactions@,
                    final(self).transactions@,
                    old(self).poh@,
                    final(self).poh@,
                    approved,
                    now as int,
                ),
            final(self).transactions@.len() == old(self).transactions@.len(),
            forall|i: int|
                0 <= i < old(self).transactions@.len() ==> (
                #[trigger] final(self).transactions@[i]) == (Transaction {
                    signature: final(self).transactions@[i].signature,
                    ..old(self).transactions@[i]
                }),
            final(self).poh@.len() == old(self).poh@.len() + approved,
            final(self).poh@.subrange(0, old(self).poh@.len() as int) == old(self).poh@,
            approved <= old(self).transactions@.len(),
    {
        let now = crate::clock::current_time();
        let approved = self.process_transactions_at(now);
        proof {
            assert(spec_processed_all(
                old(self).dpos.rosters(),
                old(self).transactions@,
                self.transactions@,
                old(self).poh@,
                self.poh@,
                approved,
                now as int,
            ));
            assert forall|i: int| 0 <= i < old(self).transactions@.len() implies (
            #[trigger] self.transactions@[i]) == (Transaction {
                signature: self.transactions@[i].signature,
                ..old(self).transactions@[i]
            }) by {
                assert(spec_processed(
                    old(self).dpos.rosters(),
                    old(self).transactions@[i],
                    self.transactions@[i],
                    now as int,
                ));
            }
            assert(self.poh@.subrange(0, old(self).poh@.len() as int) =~= old(self).poh@);
            lemma_entries_len(old(self).dpos.rosters(), old(self).transactions@, now as int);
        }
        approved
    }

    /// The hash that witnesses the proof of history.
    pub fn generate_poh_hash(&self) -> (hash: String)
        ensures
            hash@ == spec_history_hash(self.poh@),
    {
        self.poh.generate_hash()
    }
}

/// No more entries are made than there are transactions.
pub proof fn lemma_entries_len(rosters: Seq<Roster>, txs: Seq<Transaction>, now: int)
    ensures
        spec_entries(rosters, txs, now).len() <= txs.len(),
    decreases txs.len(),
{
    if txs.len() > 0 {
        lemma_entries_len(rosters, txs.drop_last(), now);
    }
}

} // verus!
