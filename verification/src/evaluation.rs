//! The contribution scores of the users, by which representatives are
//! ranked.

use vstd::prelude::*;

use crate::text::{find_char, slice_chars, spec_find_char, str_eq};
use crate::transaction::Transaction;

verus! {

/// The contribution signals of one user.
#[derive(Clone, Copy, Debug, PartialEq, Eq, Structural)]
pub struct EvaluationItems {
    pub total_love_token_usage: u64,
    pub value_from_tokens_received: u64,
    pub contribution_by_token_usage: u64,
}

/// The signals of one user together with the user's id.
#[derive(Debug)]
pub struct UserEvaluation {
    pub user_id: String,
    pub items: EvaluationItems,
}

impl Clone for UserEvaluation {
    fn clone(&self) -> (copy: Self)
        ensures
            copy == *self,
    {
        UserEvaluation { user_id: self.user_id.clone(), items: self.items }
    }
}

/// The signals of a user of whom nothing is recorded.
pub open spec fn spec_no_items() -> EvaluationItems {
    EvaluationItems {
        total_love_token_usage: 0,
        value_from_tokens_received: 0,
        contribution_by_token_usage: 0,
    }
}

/// The score by which users are ranked: the sum of the three signals.
pub open spec fn spec_score(items: EvaluationItems) -> int {
    items.total_love_token_usage + items.value_from_tokens_received
        + items.contribution_by_token_usage
}

/// Computes the ranking score of `items`.
pub fn score(items: &EvaluationItems) -> (total: u128)
    ensures
        total == spec_score(*items),
{
    items.total_love_token_usage as u128 + items.value_from_tokens_received as u128
        + items.contribution_by_token_usage as u128
}

/// The sum of `a` and `b`, held at the largest `u64` where it would pass it.
pub open spec fn spec_saturating_sum(a: u64, b: u64) -> u64 {
    if a + b > u64::MAX {
        u64::MAX
    } else {
        (a + b) as u64
    }
}

/// Adds `b` to `a`, saturating at `u64::MAX`.
pub fn saturating_sum(a: u64, b: u64) -> (sum: u64)
    ensures
        sum == spec_saturating_sum(a, b),
{
    if a > u64::MAX - b {
        u64::MAX
    } else {
        a + b
    }
}

/// The contribution that a transaction earns its sender: its amount.
pub open spec fn spec_contribution(tx: Transaction) -> u64 {
    tx.amount
}

/// Computes the contribution that `tx` earns its sender.
pub fn calculate_contribution(tx: &Transaction) -> (contribution: u64)
    ensures
        contribution == spec_contribution(*tx),
{
    tx.amount
}

/// `items` after `usage`, `received` and `contribution` were added to the
/// three signals, each sum saturating.
pub open spec fn spec_credited(
    items: EvaluationItems,
    usage: u64,
    received: u64,
    contribution: u64,
) -> EvaluationItems {
    EvaluationItems {
        total_love_token_usage: spec_saturating_sum(items.total_love_token_usage, usage),
        value_from_tokens_received: spec_saturating_sum(items.value_from_tokens_received, received),
        contribution_by_token_usage: spec_saturating_sum(
            items.contribution_by_token_usage,
            contribution,
        ),
    }
}

/// What a transaction does to the signals of the user `user`: the sender's
/// usage and contribution grow, and the receiver's received value.
pub open spec fn spec_after_transaction(items: EvaluationItems, user: Seq<char>, tx: Transaction)
    -> EvaluationItems {
    let as_sender = if user == tx.sender@ {
        spec_credited(items, tx.amount, 0, spec_contribution(tx))
    } else {
        items
    };
    if user == tx.receiver@ {
        spec_credited(as_sender, 0, tx.amount, 0)
    } else {
        as_sender
    }
}

/// The municipality that a user id names: the id up to its second hyphen,
/// or `Unknown-Municipality` where the id has no hyphen.
pub open spec fn spec_user_municipality(user_id: Seq<char>) -> Seq<char> {
    let first = spec_find_char(user_id, '-', 0);
    if first >= user_id.len() {
        "Unknown-Municipality"@
    } else {
        user_id.subrange(0, spec_find_char(user_id, '-', first + 1))
    }
}

/// Reads the municipality out of a user id such as `Asia-Tokyo-User1`.
pub fn get_user_municipality(user_id: &str) -> (municipality: String)
    ensures
        municipality@ == spec_user_municipality(user_id@),
{
    let n = user_id.unicode_len();
    let first = find_char(user_id, '-', 0);
    if first >= n {
        String::from_str("Unknown-Municipality")
    } else {
        let second = find_char(user_id, '-', first + 1);
        slice_chars(user_id, 0, second)
    }
}

/// Whether `s` holds a record of the user `user`.
pub open spec fn spec_has_user(s: Seq<UserEvaluation>, user: Seq<char>) -> bool {
    exists|i: int| 0 <= i < s.len() && (#[trigger] s[i]).user_id@ == user
}

/// Whether no two records of `s` are of the same user.
pub open spec fn spec_distinct_users(s: Seq<UserEvaluation>) -> bool {
    forall|i: int, j: int|
        0 <= i < j < s.len() ==> (#[trigger] s[i]).user_id@ != (#[trigger] s[j]).user_id@
}

/// The signals recorded in `s` for the user `user`; all zero where there is
/// no record.
pub open spec fn spec_items_of(s: Seq<UserEvaluation>, user: Seq<char>) -> EvaluationItems
    decreases s.len(),
{
    if s.len() == 0 {
        spec_no_items()
    } else if s.last().user_id@ == user {
        s.last().items
    } else {
        spec_items_of(s.drop_last(), user)
    }
}

/// Where users are distinct, the signals of a user are those of the one
/// record of that user.
pub proof fn lemma_items_at(s: Seq<UserEvaluation>, i: int)
    requires
        spec_distinct_users(s),
        0 <= i < s.len(),
    ensures
        spec_items_of(s, s[i].user_id@) == s[i].items,
    decreases s.len(),
{
    if i < s.len() - 1 {
        assert(s[i].user_id@ != s[s.len() - 1].user_id@);
        let front = s.drop_last();
        assert forall|a: int, b: int| 0 <= a < b < front.len() implies (
        #[trigger] front[a]).user_id@ != (#[trigger] front[b]).user_id@ by {
            assert(s[a].user_id@ != s[b].user_id@);
        }
        lemma_items_at(front, i);
    }
}

/// A user without a record has no signals.
pub proof fn lemma_items_absent(s: Seq<UserEvaluation>, user: Seq<char>)
    requires
        !spec_has_user(s, user),
    ensures
        spec_items_of(s, user) == spec_no_items(),
    decreases s.len(),
{
    if s.len() > 0 {
        assert(s[s.len() - 1].user_id@ != user);
        let front = s.drop_last();
        assert forall|a: int| 0 <= a < front.len() implies (#[trigger] front[a]).user_id@
            != user by {
            assert(s[a].user_id@ != user);
        }
        lemma_items_absent(front, user);
    }
}

/// Changing the signals of one record changes the signals of that user and
/// of no other.
pub proof fn lemma_items_update(s: Seq<UserEvaluation>, i: int, e: UserEvaluation)
    requires
        spec_distinct_users(s),
        0 <= i < s.len(),
        e.user_id@ == s[i].user_id@,
    ensures
        spec_distinct_users(s.update(i, e)),
        forall|user: Seq<char>|
            #[trigger] spec_items_of(s.update(i, e), user) == if user == e.user_id@ {
                e.items
            } else {
                spec_items_of(s, user)
            },
    decreases s.len(),
{
    let r = s.update(i, e);
    assert forall|a: int, b: int| 0 <= a < b < r.len() implies (#[trigger] r[a]).user_id@ != (
    #[trigger] r[b]).user_id@ by {
        assert(s[a].user_id@ != s[b].user_id@);
    }
    assert forall|user: Seq<char>|
        #[trigger] spec_items_of(r, user) == if user == e.user_id@ {
            e.items
        } else {
            spec_items_of(s, user)
        } by {
        if user == e.user_id@ {
            lemma_items_at(r, i);
        } else {
            lemma_items_update_other(s, i, e, user);
        }
    }
}

proof fn lemma_items_update_other(
    s: Seq<UserEvaluation>,
    i: int,
    e: UserEvaluation,
    user: Seq<char>,
)
    requires
        0 <= i < s.len(),
        e.user_id@ == s[i].user_id@,
        user != e.user_id@,
    ensures
        spec_items_of(s.update(i, e), user) == spec_items_of(s, user),
    decreases s.len(),
{
    let r = s.update(i, e);
    if i == s.len() - 1 {
        assert(r.drop_last() =~= s.drop_last());
    } else {
        assert(r.drop_last() =~= s.drop_last().update(i, e));
        assert(r.last() == s.last());
        lemma_items_update_other(s.drop_last(), i, e, user);
    }
}

/// Changing the signals of one record leaves the users with a record as
/// they are.
pub proof fn lemma_users_update(s: Seq<UserEvaluation>, i: int, e: UserEvaluation)
    requires
        0 <= i < s.len(),
        e.user_id@ == s[i].user_id@,
    ensures
        forall|user: Seq<char>| #[trigger]
            spec_has_user(s.update(i, e), user) <==> spec_has_user(s, user),
{
    let r = s.update(i, e);
    assert forall|user: Seq<char>| #[trigger] spec_has_user(r, user) <==> spec_has_user(
        s,
        user,
    ) by {
        if spec_has_user(r, user) {
            let a = choose|a: int| 0 <= a < r.len() && (#[trigger] r[a]).user_id@ == user;
            assert(s[a].user_id@ == user);
        }
        if spec_has_user(s, user) {
            let a = choose|a: int| 0 <= a < s.len() && (#[trigger] s[a]).user_id@ == user;
            assert(r[a].user_id@ == user);
        }
    }
}

/// A new record adds its user to the users with a record, and no other.
pub proof fn lemma_users_push(s: Seq<UserEvaluation>, e: UserEvaluation)
    ensures
        forall|user: Seq<char>| #[trigger]
            spec_has_user(s.push(e), user) <==> spec_has_user(s, user) || user == e.user_id@,
{
    let r = s.push(e);
    assert forall|user: Seq<char>| #[trigger] spec_has_user(r, user) <==> spec_has_user(s, user)
        || user == e.user_id@ by {
        if spec_has_user(r, user) {
            let a = choose|a: int| 0 <= a < r.len() && (#[trigger] r[a]).user_id@ == user;
            if a < s.len() {
                assert(s[a].user_id@ == user);
            }
        }
        if spec_has_user(s, user) {
            let a = choose|a: int| 0 <= a < s.len() && (#[trigger] s[a]).user_id@ == user;
            assert(r[a].user_id@ == user);
        }
        if user == e.user_id@ {
            assert(r[s.len() as int].user_id@ == user);
        }
    }
}

/// How many records a registry gains when `user` is credited: one where
/// the user has none yet.
pub open spec fn spec_new_record(s: Seq<UserEvaluation>, user: Seq<char>) -> int {
    if spec_has_user(s, user) {
        0
    } else {
        1
    }
}

/// How many records a registry gains by a transaction: one for the sender
/// and one for the receiver, as far as they have none yet and are not the
/// same user.
pub open spec fn spec_new_records(s: Seq<UserEvaluation>, tx: Transaction) -> int {
    spec_new_record(s, tx.sender@) + if tx.receiver@ == tx.sender@ {
        0
    } else {
        spec_new_record(s, tx.receiver@)
    }
}

/// Whether the user of the record `e` belongs to the municipality `m`.
pub open spec fn spec_belongs(e: UserEvaluation, m: Seq<char>) -> bool {
    spec_user_municipality(e.user_id@) == m
}

/// For each record of `s`, whether its user belongs to the municipality `m`.
pub open spec fn spec_members(s: Seq<UserEvaluation>, m: Seq<char>) -> Seq<bool> {
    Seq::new(s.len(), |i: int| spec_belongs(s[i], m))
}

/// Whether `mask` lets the record at `j` take part in a ranking.
pub open spec fn spec_eligible(mask: Seq<bool>, j: int) -> bool {
    0 <= j < mask.len() && mask[j]
}

/// Whether the record at `i` ranks before the record at `j`: by the higher
/// score, and between equal scores by the earlier place.
pub open spec fn spec_outranks(s: Seq<UserEvaluation>, i: int, j: int) -> bool {
    spec_score(s[i].items) > spec_score(s[j].items) || (spec_score(s[i].items) == spec_score(
        s[j].items,
    ) && i < j)
}

/// Whether `picked` lists, best first, the places of the `limit` best
/// ranked records among those that `mask` lets take part, or of all of
/// them where they are fewer.
pub open spec fn spec_top_of(
    s: Seq<UserEvaluation>,
    mask: Seq<bool>,
    limit: int,
    picked: Seq<usize>,
) -> bool {
    &&& picked.len() <= limit
    &&& forall|k: int|
        0 <= k < picked.len() ==> (#[trigger] picked[k]) < s.len() && spec_eligible(
            mask,
            picked[k] as int,
        )
    &&& forall|k: int, l: int|
        0 <= k < l < picked.len() ==> spec_outranks(
            s,
            (#[trigger] picked[k]) as int,
            (#[trigger] picked[l]) as int,
        )
    &&& forall|j: int|
        0 <= j < s.len() && #[trigger] spec_eligible(mask, j) && !picked.contains(j as usize)
            ==> picked.len() == limit && forall|k: int|
            0 <= k < picked.len() ==> spec_outranks(s, (#[trigger] picked[k]) as int, j)
}

/// Whether `picked` lists, best first, the places of the `limit` best
/// ranked users of the municipality `m`, or of all of them where they are
/// fewer.
pub open spec fn spec_top_ranked(
    s: Seq<UserEvaluation>,
    m: Seq<char>,
    limit: int,
    picked: Seq<usize>,
) -> bool {
    spec_top_of(s, spec_members(s, m), limit, picked)
}

proof fn lemma_top_of_agree(
    s: Seq<UserEvaluation>,
    mask: Seq<bool>,
    limit: int,
    p: Seq<usize>,
    q: Seq<usize>,
    k: int,
)
    requires
        spec_top_of(s, mask, limit, p),
        spec_top_of(s, mask, limit, q),
        0 <= k <= p.len(),
        k <= q.len(),
    ensures
        forall|i: int| 0 <= i < k ==> p[i] == q[i],
    decreases k,
{
    if k > 0 {
        lemma_top_of_agree(s, mask, limit, p, q, k - 1);
        let a = p[k - 1];
        let b = q[k - 1];
        if a != b {
            lemma_top_of_next(s, mask, limit, p, q, k - 1);
            lemma_top_of_next(s, mask, limit, q, p, k - 1);
        }
    }
}

proof fn lemma_top_of_next(
    s: Seq<UserEvaluation>,
    mask: Seq<bool>,
    limit: int,
    p: Seq<usize>,
    q: Seq<usize>,
    k: int,
)
    requires
        spec_top_of(s, mask, limit, p),
        spec_top_of(s, mask, limit, q),
        0 <= k < p.len(),
        k < q.len(),
        forall|i: int| 0 <= i < k ==> p[i] == q[i],
        p[k] != q[k],
    ensures
        spec_outranks(s, q[k] as int, p[k] as int),
{
    let a = p[k];
    assert(p[k] < s.len() && spec_eligible(mask, p[k] as int));
    if q.contains(a) {
        let l = choose|l: int| 0 <= l < q.len() && q[l] == a;
        if l < k {
            assert(p[l] == q[l]);
            assert(spec_outranks(s, p[l] as int, p[k] as int));
        } else {
            assert(spec_outranks(s, q[k] as int, q[l] as int));
        }
    } else {
        assert(spec_eligible(mask, a as int));
        assert(forall|kk: int|
            0 <= kk < q.len() ==> spec_outranks(s, (#[trigger] q[kk]) as int, a as int));
        assert(spec_outranks(s, q[k] as int, a as int));
    }
}

proof fn lemma_top_of_same_len(
    s: Seq<UserEvaluation>,
    mask: Seq<bool>,
    limit: int,
    p: Seq<usize>,
    q: Seq<usize>,
)
    requires
        spec_top_of(s, mask, limit, p),
        spec_top_of(s, mask, limit, q),
        p.len() <= q.len(),
        forall|i: int| 0 <= i < p.len() ==> p[i] == q[i],
    ensures
        p.len() == q.len(),
{
    if p.len() < q.len() {
        let j = q[p.len() as int];
        assert(q[p.len() as int] < s.len() && spec_eligible(mask, q[p.len() as int] as int));
        if p.contains(j) {
            let l = choose|l: int| 0 <= l < p.len() && p[l] == j;
            assert(q[l] == p[l]);
            assert(spec_outranks(s, q[l] as int, q[p.len() as int] as int));
        } else {
            assert(spec_eligible(mask, j as int));
            assert(p.len() == limit);
        }
    }
}

/// A ranking has one outcome: two lists that both hold the best ranked
/// records, best first, are the same list.
pub proof fn lemma_top_of_unique(
    s: Seq<UserEvaluation>,
    mask: Seq<bool>,
    limit: int,
    p: Seq<usize>,
    q: Seq<usize>,
)
    requires
        spec_top_of(s, mask, limit, p),
        spec_top_of(s, mask, limit, q),
    ensures
        p == q,
{
    if p.len() <= q.len() {
        lemma_top_of_agree(s, mask, limit, p, q, p.len() as int);
        lemma_top_of_same_len(s, mask, limit, p, q);
    } else {
        lemma_top_of_agree(s, mask, limit, p, q, q.len() as int);
        lemma_top_of_same_len(s, mask, limit, q, p);
    }
    assert(p =~= q);
}

/// The ranking of a municipality has one outcome.
pub proof fn lemma_top_ranked_unique(
    s: Seq<UserEvaluation>,
    m: Seq<char>,
    limit: int,
    p: Seq<usize>,
    q: Seq<usize>,
)
    requires
        spec_top_ranked(s, m, limit, p),
        spec_top_ranked(s, m, limit, q),
    ensures
        p == q,
{
    lemma_top_of_unique(s, spec_members(s, m), limit, p, q);
}

fn holds(picked: &Vec<usize>, j: usize) -> (present: bool)
    ensures
        present == picked@.contains(j),
{
    let mut k: usize = 0;
    while k < picked.len()
        invariant
            k <= picked.len(),
            forall|l: int| 0 <= l < k ==> picked@[l] != j,
        decreases picked.len() - k,
    {
        if picked[k] == j {
            assert(picked@[k as int] == j);
            return true;
        }
        k += 1;
    }
    false
}

/// The contribution records of all users. No user has two records.
pub struct EvaluationRegistry {
    entries: Vec<UserEvaluation>,
}

impl View for EvaluationRegistry {
    type V = Seq<UserEvaluation>;

    closed spec fn view(&self) -> Seq<UserEvaluation> {
        self.entries@
    }
}

impl EvaluationRegistry {
    #[verifier::type_invariant]
    spec fn distinct(&self) -> bool {
        spec_distinct_users(self.entries@)
    }

    /// The registry without records.
    pub fn new() -> (registry: Self)
        ensures
            registry@ == Seq::<UserEvaluation>::empty(),
    {
        EvaluationRegistry { entries: Vec::new() }
    }

    /// The number of users with a record.
    pub fn len(&self) -> (n: usize)
        ensures
            n == self@.len(),
            spec_distinct_users(self@),
    {
        proof {
            use_type_invariant(&*self);
        }
        self.entries.len()
    }

    /// A copy of the record at place `i`, where there is one.
    pub fn entry(&self, i: usize) -> (record: Option<UserEvaluation>)
        ensures
            match record {
                Some(e) => i < self@.len() && e == self@[i as int],
                None => i >= self@.len(),
            },
    {
        if i < self.entries.len() {
            Some(self.entries[i].clone())
        } else {
            None
        }
    }

    fn position(&self, user: &str) -> (found: Option<usize>)
        ensures
            spec_distinct_users(self@),
            match found {
                Some(i) => i < self@.len() && self@[i as int].user_id@ == user@,
                None => !spec_has_user(self@, user@),
            },
    {
        proof {
            use_type_invariant(&*self);
        }
        let mut i: usize = 0;
        while i < self.entries.len()
            invariant
                i <= self.entries.len(),
                spec_distinct_users(self.entries@),
                forall|j: int| 0 <= j < i ==> (#[trigger] self.entries@[j]).user_id@ != user@,
            decreases self.entries.len() - i,
        {
            if str_eq(self.entries[i].user_id.as_str(), user) {
                return Some(i);
            }
            i += 1;
        }
        None
    }

    /// The signals recorded for `user`; all zero where there is no record.
    pub fn items_of(&self, user: &str) -> (items: EvaluationItems)
        ensures
            items == spec_items_of(self@, user@),
    {
        match self.position(user) {
            Some(i) => {
                proof {
                    lemma_items_at(self@, i as int);
                }
                self.entries[i].items
            },
            None => {
                proof {
                    lemma_items_absent(self@, user@);
                }
                EvaluationItems {
                    total_love_token_usage: 0,
                    value_from_tokens_received: 0,
                    contribution_by_token_usage: 0,
                }
            },
        }
    }

    /// Adds to the three signals of `user`, making a record where there is
    /// none. The records of other users, and the places of all records, stay,
    /// and no other record is made.
    pub fn credit(&mut self, user: &str, usage: u64, received: u64, contribution: u64)
        ensures
            spec_distinct_users(final(self)@),
            forall|other: Seq<char>| #[trigger]
                spec_has_user(final(self)@, other) <==> spec_has_user(old(self)@, other) || other
                    == user@,
            final(self)@.len() == old(self)@.len() + spec_new_record(old(self)@, user@),
            forall|other: Seq<char>|
                #[trigger] spec_items_of(final(self)@, other) == if other == user@ {
                    spec_credited(spec_items_of(old(self)@, other), usage, received, contribution)
                } else {
                    spec_items_of(old(self)@, other)
                },
            old(self)@.len() <= final(self)@.len(),
            forall|i: int|
                0 <= i < old(self)@.len() ==> (#[trigger] final(self)@[i]).user_id@ == old(
                    self,
                )@[i].user_id@,
    {
        proof {
            use_type_invariant(&*self);
        }
        let before = self.items_of(user);
        let after = EvaluationItems {
            total_love_token_usage: saturating_sum(before.total_love_token_usage, usage),
            value_from_tokens_received: saturating_sum(before.value_from_tokens_received, received),
            contribution_by_token_usage: saturating_sum(
                before.contribution_by_token_usage,
                contribution,
            ),
        };
        let record = UserEvaluation { user_id: String::from_str(user), items: after };
        match self.position(user) {
            Some(i) => {
                proof {
                    lemma_items_update(self@, i as int, record);
                    lemma_users_update(self@, i as int, record);
                    assert(spec_has_user(self@, self@[i as int].user_id@));
                }
                let mut entries = Vec::new();
                std::mem::swap(&mut entries, &mut self.entries);
                entries.set(i, record);
                self.entries = entries;
            },
            None => {
                proof {
                    let s = self@;
                    let r = s.push(record);
                    lemma_users_push(s, record);
                    assert(r.drop_last() =~= s);
                    assert forall|a: int, b: int| 0 <= a < b < r.len() implies (
                    #[trigger] r[a]).user_id@ != (#[trigger] r[b]).user_id@ by {
                        if b == s.len() {
                            assert(s[a].user_id@ != user@);
                        } else {
                            assert(s[a].user_id@ != s[b].user_id@);
                        }
                    }
                }
                let mut entries = Vec::new();
                std::mem::swap(&mut entries, &mut self.entries);
                entries.push(record);
                self.entries = entries;
            },
        }
    }

    /// Records what a transaction contributes: the sender's usage and
    /// contribution grow by its amount, and the receiver's received value.
    /// Sender and receiver have a record afterwards, and no user has one
    /// who had none before.
    pub fn update_user_evaluations(&mut self, tx: &Transaction)
        ensures
            spec_distinct_users(final(self)@),
            forall|user: Seq<char>| #[trigger]
                spec_has_user(final(self)@, user) <==> spec_has_user(old(self)@, user) || user
                    == tx.sender@ || user == tx.receiver@,
            final(self)@.len() == old(self)@.len() + spec_new_records(old(self)@, *tx),
            forall|user: Seq<char>|
                #[trigger] spec_items_of(final(self)@, user) == spec_after_transaction(
                    spec_items_of(old(self)@, user),
                    user,
                    *tx,
                ),
    {
        let contribution = calculate_contribution(tx);
        self.credit(tx.sender.as_str(), tx.amount, 0, contribution);
        self.credit(tx.receiver.as_str(), 0, tx.amount, 0);
    }

    /// Tells whether there is a record at `i` whose user belongs to
    /// `municipality`.
    pub fn belongs(&self, i: usize, municipality: &str) -> (member: bool)
        ensures
            member == (i < self@.len() && spec_belongs(self@[i as int], municipality@)),
    {
        if i >= self.entries.len() {
            return false;
        }
        let own = get_user_municipality(self.entries[i].user_id.as_str());
        str_eq(own.as_str(), municipality)
    }

    /// Ranks the records that `mask` lets take part by score, the higher
    /// first and between equal scores the earlier record first, and lists
    /// the places of the `limit` best. A record for which `mask` has no
    /// entry takes no part.
    pub fn top_of(&self, mask: &Vec<bool>, limit: usize) -> (picked: Vec<usize>)
        ensures
            spec_top_of(self@, mask@, limit as int, picked@),
    {
        let n = self.entries.len();
        let mut picked: Vec<usize> = Vec::new();
        let mut exhausted = false;
        while picked.len() < limit && !exhausted
            invariant
                n == self.entries@.len(),
                picked@.len() <= limit,
                forall|k: int|
                    0 <= k < picked@.len() ==> (#[trigger] picked@[k]) < n && spec_eligible(
                        mask@,
                        picked@[k] as int,
                    ),
                forall|k: int, l: int|
                    0 <= k < l < picked@.len() ==> spec_outranks(
                        self.entries@,
                        (#[trigger] picked@[k]) as int,
                        (#[trigger] picked@[l]) as int,
                    ),
                forall|j: int, k: int|
                    0 <= j < n && #[trigger] spec_eligible(mask@, j) && !picked@.contains(
                        j as usize,
                    ) && 0 <= k < picked@.len() ==> spec_outranks(
                        self.entries@,
                        (#[trigger] picked@[k]) as int,
                        j,
                    ),
                exhausted ==> forall|j: int|
                    0 <= j < n && #[trigger] spec_eligible(mask@, j) ==> picked@.contains(
                        j as usize,
                    ),
            decreases limit - picked.len() + (if exhausted { 0int } else { 1int }),
        {
            let mut best: Option<usize> = None;
            let mut j: usize = 0;
            while j < n
                invariant
                    j <= n,
                    n == self.entries@.len(),
                    match best {
                        None => forall|c: int|
                            0 <= c < j && #[trigger] spec_eligible(mask@, c) ==> picked@.contains(
                                c as usize,
                            ),
                        Some(b) => {
                            &&& b < j
                            &&& spec_eligible(mask@, b as int)
                            &&& !picked@.contains(b)
                            &&& forall|c: int|
                                0 <= c < j && c != b && #[trigger] spec_eligible(mask@, c)
                                    && !picked@.contains(c as usize) ==> spec_outranks(
                                    self.entries@,
                                    b as int,
                                    c,
                                )
                        },
                    },
                decreases n - j,
            {
                if j < mask.len() && mask[j] && !holds(&picked, j) {
                    match best {
                        None => {
                            best = Some(j);
                        },
                        Some(b) => {
                            if score(&self.entries[j].items) > score(&self.entries[b].items) {
                                best = Some(j);
                            }
                        },
                    }
                }
                j += 1;
            }
            match best {
                None => {
                    exhausted = true;
                },
                Some(b) => {
                    let ghost before = picked@;
                    picked.push(b);
                    proof {
                        assert forall|j: int, k: int|
                            0 <= j < n && #[trigger] spec_eligible(mask@, j) && !picked@.contains(
                                j as usize,
                            ) && 0 <= k < picked@.len() implies spec_outranks(
                            self.entries@,
                            (#[trigger] picked@[k]) as int,
                            j,
                        ) by {
                            assert(j != b) by {
                                if j == b {
                                    assert(picked@[before.len() as int] == b);
                                }
                            }
                            assert(!before.contains(j as usize)) by {
                                if before.contains(j as usize) {
                                    let w = choose|w: int|
                                        0 <= w < before.len() && before[w] == j as usize;
                                    assert(picked@[w] == j as usize);
                                }
                            }
                            if k < before.len() {
                                assert(picked@[k] == before[k]);
                            }
                        }
                        assert forall|k: int, l: int|
                            0 <= k < l < picked@.len() implies spec_outranks(
                            self.entries@,
                            (#[trigger] picked@[k]) as int,
                            (#[trigger] picked@[l]) as int,
                        ) by {
                            if l == before.len() {
                                assert(picked@[k] == before[k]);
                            } else {
                                assert(picked@[k] == before[k] && picked@[l] == before[l]);
                            }
                        }
                    }
                },
            }
        }
        picked
    }

    /// Tells for each record whether its user belongs to `municipality`.
    pub fn members(&self, municipality: &str) -> (mask: Vec<bool>)
        ensures
            mask@ == spec_members(self@, municipality@),
    {
        let mut mask: Vec<bool> = Vec::new();
        let mut i: usize = 0;
        while i < self.entries.len()
            invariant
                i <= self.entries.len(),
                mask@.len() == i,
                forall|j: int|
                    0 <= j < i ==> #[trigger] mask@[j] == spec_belongs(
                        self.entries@[j],
                        municipality@,
                    ),
            decreases self.entries.len() - i,
        {
            mask.push(self.belongs(i, municipality));
            i += 1;
        }
        assert(mask@ =~= spec_members(self@, municipality@));
        mask
    }

    /// Ranks the users of `municipality` by score, the higher first and
    /// between equal scores the earlier record first, and lists the places
    /// of the `limit` best.
    pub fn top_ranked(&self, municipality: &str, limit: usize) -> (picked: Vec<usize>)
        ensures
            spec_top_ranked(self@, municipality@, limit as int, picked@),
    {
        let mask = self.members(municipality);
        self.top_of(&mask, limit)
    }
}

} // verus!
