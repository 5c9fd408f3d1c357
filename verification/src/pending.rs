//! The set of transactions that wait to be batched into a block, keyed by
//! transaction id and kept in the order in which they arrived.

use vstd::prelude::*;

use crate::clock::{older_than, spec_older_than};
use crate::error::LedgerError;
use crate::text::str_eq;
use crate::transaction::{
    is_pending, spec_is_pending, spec_transition_allowed, spec_with_status, Transaction,
    TransactionStatus,
};

verus! {

/// Days after which a transaction that is still pending is swept away.
pub const RETENTION_DAYS: u32 = 180;

/// Whether some transaction of `s` has the id `id`.
pub open spec fn spec_has_id(s: Seq<Transaction>, id: Seq<char>) -> bool {
    exists|i: int| 0 <= i < s.len() && (#[trigger] s[i]).transaction_id@ == id
}

/// Whether no two transactions of `s` share an id.
pub open spec fn spec_distinct_ids(s: Seq<Transaction>) -> bool {
    forall|i: int, j: int|
        0 <= i < j < s.len() ==> (#[trigger] s[i]).transaction_id@ != (
        #[trigger] s[j]).transaction_id@
}

/// `s` with `tx` added at the end, unless a transaction with the same id is
/// already there.
pub open spec fn spec_insert(s: Seq<Transaction>, tx: Transaction) -> Seq<Transaction> {
    if spec_has_id(s, tx.transaction_id@) {
        s
    } else {
        s.push(tx)
    }
}

/// `s` after each transaction of `incoming` was inserted in turn.
pub open spec fn spec_merge(s: Seq<Transaction>, incoming: Seq<Transaction>) -> Seq<Transaction>
    decreases incoming.len(),
{
    if incoming.len() == 0 {
        s
    } else {
        spec_insert(spec_merge(s, incoming.drop_last()), incoming.last())
    }
}

/// Whether a transaction is pending and was created more than
/// `RETENTION_DAYS` days before `now`.
pub open spec fn spec_expired(tx: Transaction, now: int) -> bool {
    spec_is_pending(tx.status) && spec_older_than(tx.created_at as int, 180, now)
}

/// The transactions of `s` that have not expired at `now`, in their order.
pub open spec fn spec_kept(s: Seq<Transaction>, now: int) -> Seq<Transaction> {
    s.filter(|tx: Transaction| !spec_expired(tx, now))
}

/// The transactions of `s` that have expired at `now`, in their order.
pub open spec fn spec_swept(s: Seq<Transaction>, now: int) -> Seq<Transaction> {
    s.filter(|tx: Transaction| spec_expired(tx, now))
}

/// The transactions of `s` that wait to be batched, in their order.
pub open spec fn spec_waiting(s: Seq<Transaction>) -> Seq<Transaction> {
    s.filter(|tx: Transaction| spec_is_pending(tx.status))
}

/// `s` with `tx` in the place of the transaction with its id, or at the
/// end where `s` has none with its id.
pub open spec fn spec_put_back(s: Seq<Transaction>, tx: Transaction) -> Seq<Transaction> {
    if spec_has_id(s, tx.transaction_id@) {
        s.update(spec_index_of_id(s, tx.transaction_id@), tx)
    } else {
        s.push(tx)
    }
}

/// The transactions of `s` whose id does not occur in `batch`.
pub open spec fn spec_without(s: Seq<Transaction>, batch: Seq<Transaction>) -> Seq<Transaction> {
    s.filter(|tx: Transaction| !spec_has_id(batch, tx.transaction_id@))
}

/// The place of the transaction with the id `id` in `s`, where there is one.
pub open spec fn spec_index_of_id(s: Seq<Transaction>, id: Seq<char>) -> int {
    choose|i: int| 0 <= i < s.len() && (#[trigger] s[i]).transaction_id@ == id
}

/// `s` without the transaction with the id `id`.
pub open spec fn spec_remove(s: Seq<Transaction>, id: Seq<char>) -> Seq<Transaction> {
    if spec_has_id(s, id) {
        s.remove(spec_index_of_id(s, id))
    } else {
        s
    }
}

/// Where ids are distinct, an id is found at one place only.
pub proof fn lemma_index_of_id(s: Seq<Transaction>, i: int)
    requires
        spec_distinct_ids(s),
        0 <= i < s.len(),
    ensures
        spec_has_id(s, s[i].transaction_id@),
        spec_index_of_id(s, s[i].transaction_id@) == i,
{
    let id = s[i].transaction_id@;
    assert(s[i].transaction_id@ == id);
    let k = spec_index_of_id(s, id);
    assert(0 <= k < s.len() && s[k].transaction_id@ == id);
    if k < i {
        assert(s[k].transaction_id@ != s[i].transaction_id@);
    } else if i < k {
        assert(s[i].transaction_id@ != s[k].transaction_id@);
    }
}

/// Taking one transaction out keeps ids distinct and brings no new id.
pub proof fn lemma_remove_distinct(s: Seq<Transaction>, i: int)
    requires
        spec_distinct_ids(s),
        0 <= i < s.len(),
    ensures
        spec_distinct_ids(s.remove(i)),
        !spec_has_id(s.remove(i), s[i].transaction_id@),
        forall|id: Seq<char>| spec_has_id(s.remove(i), id) ==> spec_has_id(s, id),
{
    let r = s.remove(i);
    assert forall|a: int, b: int| 0 <= a < b < r.len() implies (#[trigger] r[a]).transaction_id@
        != (#[trigger] r[b]).transaction_id@ by {
        let a0 = if a < i { a } else { a + 1 };
        let b0 = if b < i { b } else { b + 1 };
        assert(s[a0].transaction_id@ != s[b0].transaction_id@);
    }
    assert forall|id: Seq<char>| spec_has_id(r, id) implies spec_has_id(s, id) && id
        != s[i].transaction_id@ by {
        let a = choose|a: int| 0 <= a < r.len() && (#[trigger] r[a]).transaction_id@ == id;
        let a0 = if a < i { a } else { a + 1 };
        assert(s[a0].transaction_id@ == id);
        if a0 < i {
            assert(s[a0].transaction_id@ != s[i].transaction_id@);
        } else {
            assert(s[i].transaction_id@ != s[a0].transaction_id@);
        }
    }
}

/// Replacing a transaction by one with the same id keeps ids distinct.
pub proof fn lemma_update_distinct(s: Seq<Transaction>, i: int, tx: Transaction)
    requires
        spec_distinct_ids(s),
        0 <= i < s.len(),
        tx.transaction_id@ == s[i].transaction_id@,
    ensures
        spec_distinct_ids(s.update(i, tx)),
        forall|id: Seq<char>| spec_has_id(s.update(i, tx), id) <==> spec_has_id(s, id),
{
    let r = s.update(i, tx);
    assert forall|a: int, b: int| 0 <= a < b < r.len() implies (#[trigger] r[a]).transaction_id@
        != (#[trigger] r[b]).transaction_id@ by {
        assert(s[a].transaction_id@ != s[b].transaction_id@);
    }
    assert forall|id: Seq<char>| spec_has_id(r, id) <==> spec_has_id(s, id) by {
        if spec_has_id(r, id) {
            let a = choose|a: int| 0 <= a < r.len() && (#[trigger] r[a]).transaction_id@ == id;
            assert(s[a].transaction_id@ == id);
        }
        if spec_has_id(s, id) {
            let a = choose|a: int| 0 <= a < s.len() && (#[trigger] s[a]).transaction_id@ == id;
            assert(r[a].transaction_id@ == id);
        }
    }
}

/// Inserting keeps ids distinct.
pub proof fn lemma_insert_distinct(s: Seq<Transaction>, tx: Transaction)
    requires
        spec_distinct_ids(s),
    ensures
        spec_distinct_ids(spec_insert(s, tx)),
        spec_has_id(spec_insert(s, tx), tx.transaction_id@),
{
    let r = spec_insert(s, tx);
    if !spec_has_id(s, tx.transaction_id@) {
        assert(r[s.len() as int].transaction_id@ == tx.transaction_id@);
        assert forall|i: int, j: int| 0 <= i < j < r.len() implies (#[trigger] r[i]).transaction_id@
            != (#[trigger] r[j]).transaction_id@ by {
            if j == s.len() {
                assert(s[i].transaction_id@ != tx.transaction_id@);
            } else {
                assert(s[i].transaction_id@ != s[j].transaction_id@);
            }
        }
    }
}

/// Submitting a transaction a second time changes nothing: the set holds one
/// record of it, not two.
pub proof fn lemma_insert_idempotent(s: Seq<Transaction>, tx: Transaction)
    ensures
        spec_insert(spec_insert(s, tx), tx) == spec_insert(s, tx),
{
    let once = spec_insert(s, tx);
    if !spec_has_id(s, tx.transaction_id@) {
        assert(once[s.len() as int].transaction_id@ == tx.transaction_id@);
    }
}

/// A subsequence picked by a predicate keeps ids distinct, and holds only ids
/// of the sequence it was picked from.
pub proof fn lemma_filter_distinct(s: Seq<Transaction>, pred: spec_fn(Transaction) -> bool)
    requires
        spec_distinct_ids(s),
    ensures
        spec_distinct_ids(s.filter(pred)),
        forall|id: Seq<char>| spec_has_id(s.filter(pred), id) ==> spec_has_id(s, id),
    decreases s.len(),
{
    reveal(Seq::filter);
    if s.len() > 0 {
        let front = s.drop_last();
        assert forall|i: int, j: int| 0 <= i < j < front.len() implies (
        #[trigger] front[i]).transaction_id@ != (#[trigger] front[j]).transaction_id@ by {
            assert(s[i].transaction_id@ != s[j].transaction_id@);
        }
        lemma_filter_distinct(front, pred);
        let sub = front.filter(pred);
        let r = s.filter(pred);
        assert forall|id: Seq<char>| spec_has_id(r, id) implies spec_has_id(s, id) by {
            let k = choose|k: int| 0 <= k < r.len() && (#[trigger] r[k]).transaction_id@ == id;
            if k < sub.len() {
                assert(sub[k].transaction_id@ == id);
                assert(spec_has_id(sub, id));
                assert(spec_has_id(front, id));
                let m = choose|m: int|
                    0 <= m < front.len() && (#[trigger] front[m]).transaction_id@ == id;
                assert(s[m].transaction_id@ == id);
            } else {
                assert(s[s.len() - 1].transaction_id@ == id);
            }
        }
        if pred(s.last()) {
            assert forall|i: int, j: int| 0 <= i < j < r.len() implies (
            #[trigger] r[i]).transaction_id@ != (#[trigger] r[j]).transaction_id@ by {
                if j == sub.len() {
                    if r[i].transaction_id@ == s.last().transaction_id@ {
                        assert(sub[i].transaction_id@ == s.last().transaction_id@);
                        assert(spec_has_id(sub, s.last().transaction_id@));
                        assert(spec_has_id(front, s.last().transaction_id@));
                        let m = choose|m: int|
                            0 <= m < front.len() && (#[trigger] front[m]).transaction_id@
                                == s.last().transaction_id@;
                        assert(s[m].transaction_id@ != s[s.len() - 1].transaction_id@);
                    }
                } else {
                    assert(sub[i].transaction_id@ != sub[j].transaction_id@);
                }
            }
        }
    }
}

/// Whether transactions of `a` and `b` that share an id are the same
/// transaction.
pub open spec fn spec_agree(a: Seq<Transaction>, b: Seq<Transaction>) -> bool {
    forall|i: int, j: int|
        0 <= i < a.len() && 0 <= j < b.len() && (#[trigger] a[i]).transaction_id@ == (
        #[trigger] b[j]).transaction_id@ ==> a[i] == b[j]
}

/// A merge keeps ids distinct. It holds the ids of both sides and no
/// others, every transaction that was there before, and nothing that was
/// on neither side.
pub proof fn lemma_merge(s: Seq<Transaction>, incoming: Seq<Transaction>)
    requires
        spec_distinct_ids(s),
    ensures
        spec_distinct_ids(spec_merge(s, incoming)),
        forall|id: Seq<char>| #[trigger]
            spec_has_id(spec_merge(s, incoming), id) <==> spec_has_id(s, id) || spec_has_id(
                incoming,
                id,
            ),
        forall|tx: Transaction| s.contains(tx) ==> #[trigger] spec_merge(s, incoming).contains(tx),
        forall|tx: Transaction| #[trigger]
            spec_merge(s, incoming).contains(tx) ==> s.contains(tx) || incoming.contains(tx),
    decreases incoming.len(),
{
    if incoming.len() > 0 {
        let front = incoming.drop_last();
        let last = incoming.last();
        lemma_merge(s, front);
        let mid = spec_merge(s, front);
        let r = spec_insert(mid, last);
        lemma_insert_distinct(mid, last);
        assert forall|id: Seq<char>| #[trigger] spec_has_id(r, id) <==> spec_has_id(s, id)
            || spec_has_id(incoming, id) by {
            if spec_has_id(r, id) {
                let k = choose|k: int| 0 <= k < r.len() && (#[trigger] r[k]).transaction_id@ == id;
                if k < mid.len() {
                    assert(mid[k].transaction_id@ == id);
                    assert(spec_has_id(mid, id));
                    if spec_has_id(front, id) {
                        let f = choose|f: int|
                            0 <= f < front.len() && (#[trigger] front[f]).transaction_id@ == id;
                        assert(incoming[f].transaction_id@ == id);
                    }
                } else {
                    assert(incoming[incoming.len() - 1].transaction_id@ == id);
                }
            }
            if spec_has_id(s, id) {
                assert(spec_has_id(mid, id));
                let k = choose|k: int|
                    0 <= k < mid.len() && (#[trigger] mid[k]).transaction_id@ == id;
                assert(r[k].transaction_id@ == id);
            }
            if spec_has_id(incoming, id) {
                let f = choose|f: int|
                    0 <= f < incoming.len() && (#[trigger] incoming[f]).transaction_id@ == id;
                if f < front.len() {
                    assert(front[f].transaction_id@ == id);
                    assert(spec_has_id(mid, id));
                    let k = choose|k: int|
                        0 <= k < mid.len() && (#[trigger] mid[k]).transaction_id@ == id;
                    assert(r[k].transaction_id@ == id);
                } else {
                    assert(spec_has_id(r, last.transaction_id@));
                }
            }
        }
        assert forall|tx: Transaction| s.contains(tx) implies #[trigger] r.contains(tx) by {
            assert(mid.contains(tx));
            let k = choose|k: int| 0 <= k < mid.len() && mid[k] == tx;
            assert(r[k] == tx);
        }
        assert forall|tx: Transaction| #[trigger] r.contains(tx) implies s.contains(tx)
            || incoming.contains(tx) by {
            let k = choose|k: int| 0 <= k < r.len() && r[k] == tx;
            if k < mid.len() {
                assert(mid[k] == tx);
                assert(mid.contains(tx));
                if front.contains(tx) {
                    let f = choose|f: int| 0 <= f < front.len() && front[f] == tx;
                    assert(incoming[f] == tx);
                }
            } else {
                assert(incoming[incoming.len() - 1] == tx);
            }
        }
    }
}

/// Where the two sides agree on the transactions whose ids they share, a
/// merge holds every transaction that came in.
pub proof fn lemma_merge_takes_in(s: Seq<Transaction>, incoming: Seq<Transaction>)
    requires
        spec_distinct_ids(s),
        spec_distinct_ids(incoming),
        spec_agree(s, incoming),
    ensures
        forall|tx: Transaction| incoming.contains(tx) ==> #[trigger] spec_merge(
            s,
            incoming,
        ).contains(tx),
    decreases incoming.len(),
{
    if incoming.len() > 0 {
        let front = incoming.drop_last();
        let last = incoming.last();
        assert forall|i: int, j: int| 0 <= i < j < front.len() implies (
        #[trigger] front[i]).transaction_id@ != (#[trigger] front[j]).transaction_id@ by {
            assert(incoming[i].transaction_id@ != incoming[j].transaction_id@);
        }
        assert forall|i: int, j: int|
            0 <= i < s.len() && 0 <= j < front.len() && (#[trigger] s[i]).transaction_id@ == (
            #[trigger] front[j]).transaction_id@ implies s[i] == front[j] by {
            assert(front[j] == incoming[j]);
        }
        lemma_merge_takes_in(s, front);
        lemma_merge(s, front);
        let mid = spec_merge(s, front);
        let r = spec_insert(mid, last);
        assert forall|tx: Transaction| incoming.contains(tx) implies #[trigger] r.contains(tx) by {
            let f = choose|f: int| 0 <= f < incoming.len() && incoming[f] == tx;
            if f < front.len() {
                assert(front[f] == tx);
                assert(front.contains(tx));
                assert(mid.contains(tx));
                let k = choose|k: int| 0 <= k < mid.len() && mid[k] == tx;
                assert(r[k] == tx);
            } else if spec_has_id(mid, last.transaction_id@) {
                if spec_has_id(front, last.transaction_id@) {
                    let g = choose|g: int|
                        0 <= g < front.len() && (#[trigger] front[g]).transaction_id@
                            == last.transaction_id@;
                    assert(incoming[g].transaction_id@ != incoming[incoming.len()
                        - 1].transaction_id@);
                }
                assert(spec_has_id(s, last.transaction_id@));
                let i = choose|i: int|
                    0 <= i < s.len() && (#[trigger] s[i]).transaction_id@ == last.transaction_id@;
                assert(s[i] == incoming[incoming.len() - 1]);
                assert(s.contains(tx));
                assert(mid.contains(tx));
            } else {
                assert(r[mid.len() as int] == tx);
            }
        }
    }
}

/// Merging transactions whose ids are all there already changes nothing.
pub proof fn lemma_merge_known(s: Seq<Transaction>, incoming: Seq<Transaction>)
    requires
        forall|j: int|
            0 <= j < incoming.len() ==> spec_has_id(s, (#[trigger] incoming[j]).transaction_id@),
    ensures
        spec_merge(s, incoming) == s,
    decreases incoming.len(),
{
    if incoming.len() > 0 {
        let front = incoming.drop_last();
        assert forall|j: int| 0 <= j < front.len() implies spec_has_id(
            s,
            (#[trigger] front[j]).transaction_id@,
        ) by {
            assert(front[j] == incoming[j]);
        }
        lemma_merge_known(s, front);
        assert(spec_has_id(s, incoming[incoming.len() - 1].transaction_id@));
    }
}

/// A round of gossip that is repeated changes nothing the second time.
pub proof fn lemma_merge_again(s: Seq<Transaction>, incoming: Seq<Transaction>)
    requires
        spec_distinct_ids(s),
    ensures
        spec_merge(spec_merge(s, incoming), incoming) == spec_merge(s, incoming),
{
    lemma_merge(s, incoming);
    let once = spec_merge(s, incoming);
    assert forall|j: int| 0 <= j < incoming.len() implies spec_has_id(
        once,
        (#[trigger] incoming[j]).transaction_id@,
    ) by {
        assert(spec_has_id(incoming, incoming[j].transaction_id@));
    }
    lemma_merge_known(once, incoming);
}

/// Gossip converges on the ids: when two nodes send each other their
/// pending sets, first one and then the other, they hold transactions of
/// the same ids afterwards: the ids of both.
pub proof fn lemma_gossip_ids_converge(a: Seq<Transaction>, b: Seq<Transaction>)
    requires
        spec_distinct_ids(a),
        spec_distinct_ids(b),
    ensures
        forall|id: Seq<char>|
            spec_has_id(spec_merge(a, spec_merge(b, a)), id) <==> #[trigger] spec_has_id(
                spec_merge(b, a),
                id,
            ),
        forall|id: Seq<char>| #[trigger]
            spec_has_id(spec_merge(b, a), id) <==> spec_has_id(a, id) || spec_has_id(b, id),
{
    lemma_merge(b, a);
    lemma_merge(a, spec_merge(b, a));
}

/// Gossip converges on the content: when two nodes whose pending sets
/// agree on the transactions they share send each other their sets, first
/// one and then the other, they hold the same transactions afterwards.
pub proof fn lemma_gossip_converges(a: Seq<Transaction>, b: Seq<Transaction>)
    requires
        spec_distinct_ids(a),
        spec_distinct_ids(b),
        spec_agree(a, b),
    ensures
        forall|tx: Transaction|
            spec_merge(a, spec_merge(b, a)).contains(tx) <==> #[trigger] spec_merge(b, a).contains(
                tx,
            ),
        forall|tx: Transaction| #[trigger]
            spec_merge(b, a).contains(tx) <==> a.contains(tx) || b.contains(tx),
{
    let b2 = spec_merge(b, a);
    let a2 = spec_merge(a, b2);
    lemma_merge(b, a);
    lemma_merge(a, b2);
    assert forall|i: int, j: int|
        0 <= i < b.len() && 0 <= j < a.len() && (#[trigger] b[i]).transaction_id@ == (
        #[trigger] a[j]).transaction_id@ implies b[i] == a[j] by {
        assert(a[j] == b[i]);
    }
    lemma_merge_takes_in(b, a);
    assert forall|i: int, j: int|
        0 <= i < a.len() && 0 <= j < b2.len() && (#[trigger] a[i]).transaction_id@ == (
        #[trigger] b2[j]).transaction_id@ implies a[i] == b2[j] by {
        assert(b2.contains(b2[j]));
        if a.contains(b2[j]) {
            let k = choose|k: int| 0 <= k < a.len() && a[k] == b2[j];
            if k < i {
                assert(a[k].transaction_id@ != a[i].transaction_id@);
            } else if i < k {
                assert(a[i].transaction_id@ != a[k].transaction_id@);
            }
        } else {
            assert(b.contains(b2[j]));
            let k = choose|k: int| 0 <= k < b.len() && b[k] == b2[j];
            assert(a[i] == b[k]);
        }
    }
    lemma_merge_takes_in(a, b2);
    assert forall|tx: Transaction| a2.contains(tx) <==> #[trigger] b2.contains(tx) by {
        if a2.contains(tx) && !b2.contains(tx) {
            assert(a.contains(tx));
        }
    }
}

/// The pending transactions of one node. No two of them share an id.
pub struct PendingTransactions {
    entries: Vec<Transaction>,
}

impl View for PendingTransactions {
    type V = Seq<Transaction>;

    closed spec fn view(&self) -> Seq<Transaction> {
        self.entries@
    }
}

impl PendingTransactions {
    #[verifier::type_invariant]
    spec fn distinct(&self) -> bool {
        spec_distinct_ids(self.entries@)
    }

    /// The empty set.
    pub fn new() -> (set: Self)
        ensures
            set@ == Seq::<Transaction>::empty(),
    {
        PendingTransactions { entries: Vec::new() }
    }

    /// The number of pending transactions.
    pub fn len(&self) -> (n: usize)
        ensures
            n == self@.len(),
            spec_distinct_ids(self@),
    {
        proof {
            use_type_invariant(&*self);
        }
        self.entries.len()
    }

    /// Whether nothing is pending.
    pub fn is_empty(&self) -> (empty: bool)
        ensures
            empty == (self@.len() == 0),
    {
        self.entries.len() == 0
    }

    /// The place of the transaction with the id `id`.
    pub fn position(&self, id: &str) -> (found: Option<usize>)
        ensures
            spec_distinct_ids(self@),
            match found {
                Some(i) => i < self@.len() && self@[i as int].transaction_id@ == id@,
                None => !spec_has_id(self@, id@),
            },
    {
        proof {
            use_type_invariant(&*self);
        }
        let mut i: usize = 0;
        while i < self.entries.len()
            invariant
                i <= self.entries.len(),
                spec_distinct_ids(self.entries@),
                forall|j: int| 0 <= j < i ==> (#[trigger] self.entries@[j]).transaction_id@ != id@,
            decreases self.entries.len() - i,
        {
            if str_eq(self.entries[i].transaction_id.as_str(), id) {
                return Some(i);
            }
            i += 1;
        }
        None
    }

    /// Whether a transaction with the id `id` is pending.
    pub fn contains(&self, id: &str) -> (present: bool)
        ensures
            present == spec_has_id(self@, id@),
    {
        match self.position(id) {
            Some(i) => {
                assert(self@[i as int].transaction_id@ == id@);
                true
            },
            None => false,
        }
    }

    /// A copy of the pending transaction with the id `id`.
    pub fn get(&self, id: &str) -> (found: Option<Transaction>)
        ensures
            spec_distinct_ids(self@),
            match found {
                Some(tx) => spec_has_id(self@, id@) && tx.transaction_id@ == id@ && tx
                    == self@[spec_index_of_id(self@, id@)],
                None => !spec_has_id(self@, id@),
            },
    {
        match self.position(id) {
            Some(i) => {
                proof {
                    lemma_index_of_id(self@, i as int);
                }
                Some(self.entries[i].clone())
            },
            None => None,
        }
    }

    /// Adds `tx` unless a transaction with its id is already pending, and
    /// tells whether it was added. A second submission of the same id is
    /// accepted and changes nothing.
    pub fn insert(&mut self, tx: Transaction) -> (added: bool)
        ensures
            final(self)@ == spec_insert(old(self)@, tx),
            added == !spec_has_id(old(self)@, tx.transaction_id@),
            spec_has_id(final(self)@, tx.transaction_id@),
            spec_distinct_ids(final(self)@),
    {
        proof {
            use_type_invariant(&*self);
            lemma_insert_distinct(self@, tx);
        }
        match self.position(tx.transaction_id.as_str()) {
            Some(i) => {
                assert(self@[i as int].transaction_id@ == tx.transaction_id@);
                false
            },
            None => {
                let mut entries = Vec::new();
                std::mem::swap(&mut entries, &mut self.entries);
                entries.push(tx);
                self.entries = entries;
                true
            },
        }
    }

    /// The number of transactions that wait to be batched: those in the
    /// status `SendPending` or `ReceivePending`.
    pub fn count_waiting(&self) -> (n: usize)
        ensures
            n == spec_waiting(self@).len(),
    {
        let mut n: usize = 0;
        let mut i: usize = 0;
        assert(self.entries@.take(0) =~= Seq::<Transaction>::empty());
        proof {
            reveal(Seq::filter);
        }
        while i < self.entries.len()
            invariant
                i <= self.entries.len(),
                n <= i,
                n == spec_waiting(self.entries@.take(i as int)).len(),
            decreases self.entries.len() - i,
        {
            proof {
                reveal(Seq::filter);
                assert(self.entries@.take(i + 1).drop_last() =~= self.entries@.take(i as int));
            }
            if is_pending(self.entries[i].status) {
                n += 1;
            }
            i += 1;
        }
        assert(self.entries@.take(i as int) =~= self.entries@);
        n
    }

    /// Puts `tx` in the place of the pending transaction with the same id,
    /// and tells whether there was one.
    pub fn replace(&mut self, tx: Transaction) -> (replaced: bool)
        ensures
            replaced == spec_has_id(old(self)@, tx.transaction_id@),
            replaced ==> final(self)@ == old(self)@.update(
                spec_index_of_id(old(self)@, tx.transaction_id@),
                tx,
            ),
            !replaced ==> final(self)@ == old(self)@,
            final(self)@.len() == old(self)@.len(),
            spec_distinct_ids(final(self)@),
    {
        proof {
            use_type_invariant(&*self);
        }
        match self.position(tx.transaction_id.as_str()) {
            Some(i) => {
                proof {
                    lemma_index_of_id(self@, i as int);
                    lemma_update_distinct(self@, i as int, tx);
                }
                let mut entries = Vec::new();
                std::mem::swap(&mut entries, &mut self.entries);
                entries.set(i, tx);
                self.entries = entries;
                true
            },
            None => false,
        }
    }

    /// Puts `tx` into the set as it is given: in the place of the pending
    /// transaction with its id, or at the end where none has its id.
    pub fn put_back(&mut self, tx: Transaction)
        ensures
            final(self)@ == spec_put_back(old(self)@, tx),
            spec_has_id(final(self)@, tx.transaction_id@),
            spec_distinct_ids(final(self)@),
    {
        proof {
            use_type_invariant(&*self);
            lemma_insert_distinct(self@, tx);
        }
        match self.position(tx.transaction_id.as_str()) {
            Some(i) => {
                proof {
                    lemma_index_of_id(self@, i as int);
                    lemma_update_distinct(self@, i as int, tx);
                    assert(self@.update(i as int, tx)[i as int].transaction_id@
                        == tx.transaction_id@);
                }
                let mut entries = Vec::new();
                std::mem::swap(&mut entries, &mut self.entries);
                entries.set(i, tx);
                self.entries = entries;
            },
            None => {
                let mut entries = Vec::new();
                std::mem::swap(&mut entries, &mut self.entries);
                entries.push(tx);
                self.entries = entries;
            },
        }
    }

    /// Takes the pending transaction with the id `id` out of the set.
    pub fn remove(&mut self, id: &str) -> (removed: Option<Transaction>)
        ensures
            final(self)@ == spec_remove(old(self)@, id@),
            spec_distinct_ids(final(self)@),
            !spec_has_id(final(self)@, id@),
            match removed {
                Some(tx) => spec_has_id(old(self)@, id@) && tx == old(self)@[spec_index_of_id(
                    old(self)@,
                    id@,
                )],
                None => !spec_has_id(old(self)@, id@),
            },
    {
        proof {
            use_type_invariant(&*self);
        }
        match self.position(id) {
            Some(i) => {
                proof {
                    lemma_index_of_id(self@, i as int);
                    lemma_remove_distinct(self@, i as int);
                }
                let mut entries = Vec::new();
                std::mem::swap(&mut entries, &mut self.entries);
                let tx = entries.remove(i);
                self.entries = entries;
                Some(tx)
            },
            None => None,
        }
    }

    /// Copies of all pending transactions, in their order.
    pub fn snapshot(&self) -> (all: Vec<Transaction>)
        ensures
            all@ == self@,
            spec_distinct_ids(all@),
    {
        proof {
            use_type_invariant(&*self);
        }
        let mut all: Vec<Transaction> = Vec::new();
        let mut i: usize = 0;
        while i < self.entries.len()
            invariant
                i <= self.entries.len(),
                all@ == self.entries@.take(i as int),
            decreases self.entries.len() - i,
        {
            all.push(self.entries[i].clone());
            assert(self.entries@.take(i + 1) =~= self.entries@.take(i as int).push(
                self.entries@[i as int],
            ));
            i += 1;
        }
        assert(self.entries@.take(i as int) =~= self.entries@);
        all
    }

    /// Inserts each transaction of `incoming` that is not yet pending, and
    /// returns copies of those that were added, in the order in which they
    /// now stand at the end of the set. Transactions whose id is already
    /// pending are left as they are.
    pub fn merge(&mut self, incoming: &Vec<Transaction>) -> (added: Vec<Transaction>)
        ensures
            final(self)@ == spec_merge(old(self)@, incoming@),
            final(self)@ == old(self)@ + added@,
            spec_distinct_ids(final(self)@),
            added@.len() <= incoming@.len(),
    {
        proof {
            use_type_invariant(&*self);
        }
        let mut added: Vec<Transaction> = Vec::new();
        let mut i: usize = 0;
        assert(self@ =~= old(self)@ + added@);
        while i < incoming.len()
            invariant
                i <= incoming.len(),
                added@.len() <= i,
                self@ == spec_merge(old(self)@, incoming@.take(i as int)),
                self@ == old(self)@ + added@,
                spec_distinct_ids(self@),
            decreases incoming.len() - i,
        {
            assert(incoming@.take(i + 1).drop_last() =~= incoming@.take(i as int));
            if self.insert(incoming[i].clone()) {
                added.push(incoming[i].clone());
                assert(self@ =~= old(self)@ + added@);
            }
            i += 1;
        }
        assert(incoming@.take(i as int) =~= incoming@);
        added
    }

    /// Moves the transaction with the id `id` to the status `new_status`.
    /// A step that the lifecycle does not have is refused and changes
    /// nothing. A transaction that becomes shared leaves the set; the
    /// caller archives the returned record.
    pub fn update_status(&mut self, id: &str, new_status: TransactionStatus, now: i64) -> (updated:
        Result<Transaction, LedgerError>)
        ensures
            spec_distinct_ids(final(self)@),
            match updated {
                Ok(tx) => {
                    let i = spec_index_of_id(old(self)@, id@);
                    &&& spec_has_id(old(self)@, id@)
                    &&& spec_transition_allowed(old(self)@[i].status, new_status)
                    &&& tx == spec_with_status(old(self)@[i], new_status, now)
                    &&& final(self)@ == if new_status == TransactionStatus::Shared {
                        old(self)@.remove(i)
                    } else {
                        old(self)@.update(i, tx)
                    }
                },
                Err(e) => {
                    &&& final(self)@ == old(self)@
                    &&& if spec_has_id(old(self)@, id@) {
                        e == LedgerError::InvalidTransition && !spec_transition_allowed(
                            old(self)@[spec_index_of_id(old(self)@, id@)].status,
                            new_status,
                        )
                    } else {
                        e == LedgerError::UnknownTransaction
                    }
                },
            },
    {
        proof {
            use_type_invariant(&*self);
        }
        match self.position(id) {
            None => Err(LedgerError::UnknownTransaction),
            Some(i) => {
                proof {
                    lemma_index_of_id(self@, i as int);
                }
                let tx = match self.entries[i].advance(new_status, now) {
                    Ok(tx) => tx,
                    Err(e) => {
                        return Err(e);
                    },
                };
                let copy = tx.clone();
                proof {
                    lemma_update_distinct(self@, i as int, tx);
                    lemma_remove_distinct(self@, i as int);
                }
                let mut entries = Vec::new();
                std::mem::swap(&mut entries, &mut self.entries);
                if new_status == TransactionStatus::Shared {
                    entries.remove(i);
                } else {
                    entries.set(i, tx);
                }
                self.entries = entries;
                Ok(copy)
            },
        }
    }

    /// Deletes every transaction that is still pending and was created more
    /// than `RETENTION_DAYS` days before `now`, and returns what it deleted.
    pub fn sweep_expired(&mut self, now: i64) -> (swept: Vec<Transaction>)
        ensures
            final(self)@ == spec_kept(old(self)@, now as int),
            swept@ == spec_swept(old(self)@, now as int),
            spec_distinct_ids(final(self)@),
            forall|id: Seq<char>| spec_has_id(final(self)@, id) ==> spec_has_id(old(self)@, id),
    {
        proof {
            use_type_invariant(&*self);
            lemma_filter_distinct(self@, |tx: Transaction| !spec_expired(tx, now as int));
        }
        let mut kept: Vec<Transaction> = Vec::new();
        let mut swept: Vec<Transaction> = Vec::new();
        let mut i: usize = 0;
        assert(self.entries@.take(0) =~= Seq::<Transaction>::empty());
        proof {
            reveal(Seq::filter);
        }
        while i < self.entries.len()
            invariant
                i <= self.entries.len(),
                kept@ == spec_kept(self.entries@.take(i as int), now as int),
                swept@ == spec_swept(self.entries@.take(i as int), now as int),
            decreases self.entries.len() - i,
        {
            proof {
                reveal(Seq::filter);
                assert(self.entries@.take(i + 1).drop_last() =~= self.entries@.take(i as int));
            }
            let tx = self.entries[i].clone();
            if is_pending(tx.status) && older_than(tx.created_at, RETENTION_DAYS, now) {
                swept.push(tx);
            } else {
                kept.push(tx);
            }
            i += 1;
        }
        assert(self.entries@.take(i as int) =~= self.entries@);
        self.entries = kept;
        swept
    }

    /// Deletes every transaction whose id occurs in `batch`.
    pub fn remove_batch(&mut self, batch: &Vec<Transaction>)
        ensures
            final(self)@ == spec_without(old(self)@, batch@),
            spec_distinct_ids(final(self)@),
            forall|id: Seq<char>| spec_has_id(final(self)@, id) ==> spec_has_id(old(self)@, id),
    {
        proof {
            use_type_invariant(&*self);
            lemma_filter_distinct(
                self@,
                |tx: Transaction| !spec_has_id(batch@, tx.transaction_id@),
            );
        }
        let mut kept: Vec<Transaction> = Vec::new();
        let mut i: usize = 0;
        assert(self.entries@.take(0) =~= Seq::<Transaction>::empty());
        proof {
            reveal(Seq::filter);
        }
        while i < self.entries.len()
            invariant
                i <= self.entries.len(),
                kept@ == spec_without(self.entries@.take(i as int), batch@),
            decreases self.entries.len() - i,
        {
            proof {
                reveal(Seq::filter);
                assert(self.entries@.take(i + 1).drop_last() =~= self.entries@.take(i as int));
            }
            if !has_id(batch, self.entries[i].transaction_id.as_str()) {
                kept.push(self.entries[i].clone());
            }
            i += 1;
        }
        assert(self.entries@.take(i as int) =~= self.entries@);
        self.entries = kept;
    }
}

/// Tells whether some transaction of `batch` has the id `id`.
pub fn has_id(batch: &Vec<Transaction>, id: &str) -> (present: bool)
    ensures
        present == spec_has_id(batch@, id@),
{
    let mut i: usize = 0;
    while i < batch.len()
        invariant
            i <= batch.len(),
            forall|j: int| 0 <= j < i ==> (#[trigger] batch@[j]).transaction_id@ != id@,
        decreases batch.len() - i,
    {
        if str_eq(batch[i].transaction_id.as_str(), id) {
            assert(batch@[i as int].transaction_id@ == id@);
            return true;
        }
        i += 1;
    }
    false
}

} // verus!
