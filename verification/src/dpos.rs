//! Delegated proof of stake: the rosters of term-bound representatives of
//! the municipalities, the election of the active representative and the
//! approval of transactions and blocks.

use rand::seq::SliceRandom;
use vstd::prelude::*;

use crate::block::Block;
use crate::clock::{
    current_time, is_selection_day, minus_days, plus_days, spec_is_selection_day, spec_minus_days,
    spec_plus_days,
};
use crate::error::LedgerError;
use crate::evaluation::{
    get_user_municipality, lemma_top_ranked_unique, score, spec_after_transaction, spec_belongs,
    spec_has_user, spec_items_of, spec_new_records, spec_score, spec_top_of, spec_top_ranked,
    spec_user_municipality, EvaluationRegistry, UserEvaluation,
};
use crate::text::str_eq;
use crate::transaction::{approval_signature, spec_approval_signature, Transaction};

verus! {

/// How many representatives a municipality has.
pub const ROSTER_SIZE: usize = 5;

/// Days between the close of an evaluation window and the start of the term
/// of those selected, and the length of that term.
pub const TERM_DAYS: u32 = 90;

/// A user empowered to approve for a municipality during a term.
#[derive(Debug)]
pub struct Representative {
    pub user_id: String,
    pub municipality: String,
    /// First instant of the term, in milliseconds since the Unix epoch.
    pub start_date: i64,
    /// Last instant of the term, in milliseconds since the Unix epoch.
    pub end_date: i64,
    /// The ranking score at the time of selection.
    pub score: u128,
}

impl Clone for Representative {
    fn clone(&self) -> (copy: Self)
        ensures
            copy == *self,
    {
        Representative {
            user_id: self.user_id.clone(),
            municipality: self.municipality.clone(),
            start_date: self.start_date,
            end_date: self.end_date,
            score: self.score,
        }
    }
}

/// The representatives of one municipality and the one among them who was
/// elected to approve.
#[derive(Debug)]
pub struct Roster {
    pub municipality: String,
    pub representatives: Vec<Representative>,
    /// The user id of the active representative.
    pub active: Option<String>,
}

/// Whether the term of `rep` covers the instant `now`.
pub open spec fn spec_in_term(rep: Representative, now: int) -> bool {
    rep.start_date <= now <= rep.end_date
}

/// Tells whether the term of `rep` covers the instant `now`.
pub fn in_term(rep: &Representative, now: i64) -> (covered: bool)
    ensures
        covered == spec_in_term(*rep, now as int),
{
    rep.start_date <= now && now <= rep.end_date
}

/// The place of the first roster of the municipality `m` at or after
/// `from`, or the number of rosters where there is none.
pub open spec fn spec_roster_index(rosters: Seq<Roster>, m: Seq<char>, from: int) -> int
    decreases rosters.len() - from,
{
    if from < 0 || from >= rosters.len() {
        rosters.len() as int
    } else if rosters[from].municipality@ == m {
        from
    } else {
        spec_roster_index(rosters, m, from + 1)
    }
}

/// Whether the municipality `m` has a roster.
pub open spec fn spec_has_roster(rosters: Seq<Roster>, m: Seq<char>) -> bool {
    spec_roster_index(rosters, m, 0) < rosters.len()
}

/// The representatives of the municipality `m`; none where it has no roster.
pub open spec fn spec_roster_of(rosters: Seq<Roster>, m: Seq<char>) -> Seq<Representative> {
    if spec_has_roster(rosters, m) {
        rosters[spec_roster_index(rosters, m, 0)].representatives@
    } else {
        Seq::empty()
    }
}

/// The user id of the active representative of the municipality `m`.
pub open spec fn spec_active_of(rosters: Seq<Roster>, m: Seq<char>) -> Option<Seq<char>> {
    if spec_has_roster(rosters, m) {
        match rosters[spec_roster_index(rosters, m, 0)].active {
            Some(user) => Some(user@),
            None => None,
        }
    } else {
        None
    }
}

/// Whether `reps` holds a representative with the id `user` whose term
/// covers `now`.
pub open spec fn spec_serving(reps: Seq<Representative>, user: Seq<char>, now: int) -> bool {
    exists|k: int|
        0 <= k < reps.len() && (#[trigger] reps[k]).user_id@ == user && spec_in_term(reps[k], now)
}

/// Who approves for the municipality `m` at `now`: the active
/// representative, if the term of that representative covers `now`.
pub open spec fn spec_approver(rosters: Seq<Roster>, m: Seq<char>, now: int) -> Result<
    Seq<char>,
    LedgerError,
> {
    match spec_active_of(rosters, m) {
        None => Err(LedgerError::NoRepresentativeAvailable),
        Some(user) => if spec_serving(spec_roster_of(rosters, m), user, now) {
            Ok(user)
        } else {
            Err(LedgerError::RepresentativeTermExpired)
        },
    }
}

/// Whether no representative of `reps` is within term at `now`.
pub open spec fn spec_none_in_term(reps: Seq<Representative>, now: int) -> bool {
    forall|k: int| 0 <= k < reps.len() ==> !spec_in_term(#[trigger] reps[k], now)
}

/// Whether `outcome` and the rosters `after` are what an election for the
/// municipality `m` at the instant `now` comes to: a representative of the
/// municipality whose term covers `now`, who is its active one afterwards;
/// or, where no representative of the municipality is within term at
/// `now`, `NoRepresentativeAvailable` and the rosters as they were.
pub open spec fn spec_election_at(
    before: Seq<Roster>,
    after: Seq<Roster>,
    m: Seq<char>,
    outcome: Result<Representative, LedgerError>,
    now: int,
) -> bool {
    match outcome {
        Ok(rep) => {
            &&& spec_roster_of(before, m).contains(rep)
            &&& spec_in_term(rep, now)
            &&& spec_active_of(after, m) == Some(rep.user_id@)
        },
        Err(e) => {
            &&& e == LedgerError::NoRepresentativeAvailable
            &&& after == before
            &&& spec_none_in_term(spec_roster_of(before, m), now)
        },
    }
}

/// Whether `outcome` and `after` are what an approval of `before` at the
/// instant `now` comes to: where someone approves for the sender's
/// municipality, success and that representative's approval as the
/// signature of `after`; where nobody does, the reason and `after` as
/// `before` was.
pub open spec fn spec_approval_at(
    rosters: Seq<Roster>,
    before: Transaction,
    after: Transaction,
    outcome: Result<(), LedgerError>,
    now: int,
) -> bool {
    match spec_approver(rosters, before.sender_municipality@, now) {
        Ok(user) => {
            &&& outcome is Ok
            &&& after.signature@ == spec_approval_signature(user)
            &&& after == (Transaction { signature: after.signature, ..before })
        },
        Err(e) => outcome == Err::<(), LedgerError>(e) && after == before,
    }
}

/// Whether the signature on `tx` is the approval of a representative on the
/// roster of the sender's municipality.
pub open spec fn spec_has_approved(rosters: Seq<Roster>, tx: Transaction) -> bool {
    let reps = spec_roster_of(rosters, tx.sender_municipality@);
    exists|k: int|
        0 <= k < reps.len() && tx.signature@ == spec_approval_signature(
            (#[trigger] reps[k]).user_id@,
        )
}

/// `spec_roster_index` finds the first roster of the municipality.
pub proof fn lemma_roster_index(rosters: Seq<Roster>, m: Seq<char>, from: int)
    requires
        0 <= from,
    ensures
        spec_roster_index(rosters, m, from) <= rosters.len(),
        from <= spec_roster_index(rosters, m, from) || spec_roster_index(rosters, m, from)
            == rosters.len(),
        spec_roster_index(rosters, m, from) < rosters.len() ==> rosters[spec_roster_index(
            rosters,
            m,
            from,
        )].municipality@ == m,
        forall|j: int|
            from <= j < spec_roster_index(rosters, m, from) ==> (#[trigger] rosters[j]).municipality@
                != m,
    decreases rosters.len() - from,
{
    if from < rosters.len() && rosters[from].municipality@ != m {
        lemma_roster_index(rosters, m, from + 1);
    }
}

/// The first roster of a municipality is where a roster of it stands with
/// none of it before.
pub proof fn lemma_roster_index_is(rosters: Seq<Roster>, m: Seq<char>, at: int)
    requires
        0 <= at <= rosters.len(),
        at < rosters.len() ==> rosters[at].municipality@ == m,
        forall|j: int| 0 <= j < at ==> (#[trigger] rosters[j]).municipality@ != m,
    ensures
        spec_roster_index(rosters, m, 0) == at,
{
    lemma_roster_index(rosters, m, 0);
    let found = spec_roster_index(rosters, m, 0);
    if found < at {
        assert(rosters[found].municipality@ != m);
    } else if at < found {
        assert(rosters[at].municipality@ != m);
    }
}

/// Rosters that stand for the same municipalities at the same places are
/// found at the same places.
pub proof fn lemma_roster_index_same_keys(a: Seq<Roster>, b: Seq<Roster>, m: Seq<char>)
    requires
        a.len() == b.len(),
        forall|j: int| 0 <= j < a.len() ==> (#[trigger] a[j]).municipality@ == b[j].municipality@,
    ensures
        spec_roster_index(a, m, 0) == spec_roster_index(b, m, 0),
{
    lemma_roster_index(a, m, 0);
    let at = spec_roster_index(a, m, 0);
    assert forall|j: int| 0 <= j < at implies (#[trigger] b[j]).municipality@ != m by {
        assert(a[j].municipality@ != m);
    }
    if at < a.len() {
        assert(a[at].municipality@ == b[at].municipality@);
    }
    lemma_roster_index_is(b, m, at);
}

/// Whether the municipality `m` has in `b` the roster that it has in `a`.
pub open spec fn spec_same_roster(a: Seq<Roster>, b: Seq<Roster>, m: Seq<char>) -> bool {
    spec_has_roster(a, m) == spec_has_roster(b, m) && spec_roster_of(a, m) == spec_roster_of(b, m)
}

/// Whether the municipality `m` has in `b` the roster and the active
/// representative that it has in `a`.
pub open spec fn spec_untouched(a: Seq<Roster>, b: Seq<Roster>, m: Seq<char>) -> bool {
    spec_same_roster(a, b, m) && spec_active_of(a, m) == spec_active_of(b, m)
}

/// Whether every municipality has in `b` the roster that it has in `a`.
pub open spec fn spec_rosters_kept(a: Seq<Roster>, b: Seq<Roster>) -> bool {
    &&& forall|m: Seq<char>| #[trigger] spec_same_roster(a, b, m)
    &&& forall|m: Seq<char>| #[trigger] spec_has_roster(b, m) == spec_has_roster(a, m)
    &&& forall|m: Seq<char>| #[trigger] spec_roster_of(b, m) == spec_roster_of(a, m)
}

/// Whether every municipality but `m0` has in `b` the roster and the active
/// representative that it has in `a`.
pub open spec fn spec_others_untouched(a: Seq<Roster>, b: Seq<Roster>, m0: Seq<char>) -> bool {
    &&& forall|m: Seq<char>| m != m0 ==> #[trigger] spec_untouched(a, b, m)
    &&& forall|m: Seq<char>| m != m0 ==> #[trigger] spec_has_roster(b, m) == spec_has_roster(a, m)
    &&& forall|m: Seq<char>| m != m0 ==> #[trigger] spec_roster_of(b, m) == spec_roster_of(a, m)
    &&& forall|m: Seq<char>| m != m0 ==> #[trigger] spec_active_of(b, m) == spec_active_of(a, m)
}

proof fn lemma_rosters_kept(a: Seq<Roster>, b: Seq<Roster>)
    requires
        forall|m: Seq<char>| #[trigger] spec_same_roster(a, b, m),
    ensures
        spec_rosters_kept(a, b),
{
    assert forall|m: Seq<char>| #[trigger] spec_has_roster(b, m) == spec_has_roster(a, m) by {
        assert(spec_same_roster(a, b, m));
    }
    assert forall|m: Seq<char>| #[trigger] spec_roster_of(b, m) == spec_roster_of(a, m) by {
        assert(spec_same_roster(a, b, m));
    }
}

/// What is kept from `a` to `b` and from `b` to `c` is kept from `a` to `c`.
pub proof fn lemma_rosters_kept_on(a: Seq<Roster>, b: Seq<Roster>, c: Seq<Roster>)
    requires
        spec_rosters_kept(a, b),
        spec_rosters_kept(b, c),
    ensures
        spec_rosters_kept(a, c),
{
    assert forall|m: Seq<char>| #[trigger] spec_same_roster(a, c, m) by {
        assert(spec_same_roster(a, b, m));
        assert(spec_same_roster(b, c, m));
    }
    lemma_rosters_kept(a, c);
}

proof fn lemma_others_untouched(a: Seq<Roster>, b: Seq<Roster>, m0: Seq<char>)
    requires
        forall|m: Seq<char>| m != m0 ==> #[trigger] spec_untouched(a, b, m),
    ensures
        spec_others_untouched(a, b, m0),
{
    assert forall|m: Seq<char>| m != m0 implies #[trigger] spec_has_roster(b, m)
        == spec_has_roster(a, m) by {
        assert(spec_untouched(a, b, m));
    }
    assert forall|m: Seq<char>| m != m0 implies #[trigger] spec_roster_of(b, m) == spec_roster_of(
        a,
        m,
    ) by {
        assert(spec_untouched(a, b, m));
    }
    assert forall|m: Seq<char>| m != m0 implies #[trigger] spec_active_of(b, m) == spec_active_of(
        a,
        m,
    ) by {
        assert(spec_untouched(a, b, m));
    }
}

/// Replacing the roster at `at` by one of the same municipality changes
/// nothing for the other municipalities.
pub proof fn lemma_roster_replaced(a: Seq<Roster>, at: int, roster: Roster, m: Seq<char>)
    requires
        0 <= at < a.len(),
        a[at].municipality@ == roster.municipality@,
        at == spec_roster_index(a, roster.municipality@, 0),
    ensures
        spec_roster_index(a.update(at, roster), m, 0) == spec_roster_index(a, m, 0),
        m != roster.municipality@ ==> spec_untouched(a, a.update(at, roster), m),
        spec_has_roster(a.update(at, roster), roster.municipality@),
        spec_roster_of(a.update(at, roster), roster.municipality@) == roster.representatives@,
        spec_roster_index(a.update(at, roster), roster.municipality@, 0) == at,
{
    let b = a.update(at, roster);
    lemma_roster_index_same_keys(a, b, m);
    lemma_roster_index_same_keys(a, b, roster.municipality@);
    lemma_roster_index(a, m, 0);
}

/// Adding a roster of a municipality that has none changes nothing for the
/// other municipalities.
pub proof fn lemma_roster_added(a: Seq<Roster>, roster: Roster, m: Seq<char>)
    requires
        !spec_has_roster(a, roster.municipality@),
    ensures
        m != roster.municipality@ ==> spec_untouched(a, a.push(roster), m),
        spec_has_roster(a.push(roster), roster.municipality@),
        spec_roster_index(a.push(roster), roster.municipality@, 0) == a.len(),
        spec_roster_of(a.push(roster), roster.municipality@) == roster.representatives@,
{
    let b = a.push(roster);
    lemma_roster_index(a, roster.municipality@, 0);
    assert forall|j: int| 0 <= j < a.len() implies (#[trigger] b[j]).municipality@
        != roster.municipality@ by {
        assert(a[j].municipality@ != roster.municipality@);
    }
    lemma_roster_index_is(b, roster.municipality@, a.len() as int);
    if m != roster.municipality@ {
        lemma_roster_index(a, m, 0);
        let at = spec_roster_index(a, m, 0);
        assert forall|j: int| 0 <= j < at implies (#[trigger] b[j]).municipality@ != m by {
            assert(a[j].municipality@ != m);
        }
        if at < a.len() {
            assert(b[at] == a[at]);
            lemma_roster_index_is(b, m, at);
        } else {
            assert forall|j: int| 0 <= j < b.len() implies (#[trigger] b[j]).municipality@
                != m by {
                if j < a.len() {
                    assert(a[j].municipality@ != m);
                }
            }
            lemma_roster_index_is(b, m, b.len() as int);
        }
    }
}

/// Whether `list` names the municipality `m`.
pub open spec fn spec_listed(list: Seq<String>, m: Seq<char>) -> bool {
    exists|d: int| 0 <= d < list.len() && (#[trigger] list[d])@ == m
}

/// Whether some user with a contribution record belongs to `m`.
pub open spec fn spec_has_users(evals: Seq<UserEvaluation>, m: Seq<char>) -> bool {
    exists|i: int| 0 <= i < evals.len() && spec_belongs(#[trigger] evals[i], m)
}

/// The first instant of the term of those selected on the records up to
/// `close`.
pub open spec fn spec_term_start(close: i64) -> int {
    spec_plus_days(close as int, 90)
}

/// The last instant of the term of those selected on the records up to
/// `close`.
pub open spec fn spec_term_end(close: i64) -> int {
    spec_plus_days(close as int, 180)
}

/// Whether `reps` are the users at the places `picked`, in that order, each
/// with the score of the record and the term that follows `close`.
pub open spec fn spec_selected(
    reps: Seq<Representative>,
    evals: Seq<UserEvaluation>,
    m: Seq<char>,
    picked: Seq<usize>,
    close: i64,
) -> bool {
    &&& reps.len() == picked.len()
    &&& forall|k: int|
        0 <= k < reps.len() ==> {
            &&& (#[trigger] reps[k]).user_id@ == evals[picked[k] as int].user_id@
            &&& reps[k].municipality@ == m
            &&& reps[k].score == spec_score(evals[picked[k] as int].items)
            &&& reps[k].start_date == spec_term_start(close)
            &&& reps[k].end_date == spec_term_end(close)
        }
}

/// Whether `reps` are the best ranked users of `m`, at most `ROSTER_SIZE` of
/// them and the best first, with the term that follows `close`.
pub open spec fn spec_best_of(
    reps: Seq<Representative>,
    evals: Seq<UserEvaluation>,
    m: Seq<char>,
    close: i64,
) -> bool {
    exists|picked: Seq<usize>| #[trigger]
        spec_top_ranked(evals, m, 5, picked) && spec_selected(reps, evals, m, picked, close)
}

/// The selection has one outcome: two rosters that both hold the best
/// ranked users of a municipality name the same users in the same order,
/// with the same scores and terms.
pub proof fn lemma_best_of_unique(
    first: Seq<Representative>,
    second: Seq<Representative>,
    evals: Seq<UserEvaluation>,
    m: Seq<char>,
    close: i64,
)
    requires
        spec_best_of(first, evals, m, close),
        spec_best_of(second, evals, m, close),
    ensures
        first.len() == second.len(),
        forall|k: int|
            0 <= k < first.len() ==> {
                &&& (#[trigger] first[k]).user_id@ == second[k].user_id@
                &&& first[k].municipality@ == second[k].municipality@
                &&& first[k].score == second[k].score
                &&& first[k].start_date == second[k].start_date
                &&& first[k].end_date == second[k].end_date
            },
{
    let p = choose|p: Seq<usize>| #[trigger]
        spec_top_ranked(evals, m, 5, p) && spec_selected(first, evals, m, p, close);
    let q = choose|q: Seq<usize>| #[trigger]
        spec_top_ranked(evals, m, 5, q) && spec_selected(second, evals, m, q, close);
    lemma_top_ranked_unique(evals, m, 5, p, q);
    assert forall|k: int| 0 <= k < first.len() implies {
        &&& (#[trigger] first[k]).user_id@ == second[k].user_id@
        &&& first[k].municipality@ == second[k].municipality@
        &&& first[k].score == second[k].score
        &&& first[k].start_date == second[k].start_date
        &&& first[k].end_date == second[k].end_date
    } by {
        assert(second[k].user_id@ == evals[q[k] as int].user_id@);
    }
}

/// Whether the municipality `m` has a newly selected roster: its best
/// ranked users, and no active representative yet.
pub open spec fn spec_roster_selected(
    rosters: Seq<Roster>,
    evals: Seq<UserEvaluation>,
    m: Seq<char>,
    close: i64,
) -> bool {
    &&& spec_has_roster(rosters, m)
    &&& spec_active_of(rosters, m) is None
    &&& spec_best_of(spec_roster_of(rosters, m), evals, m, close)
}

/// What a selection on the records `evals` up to `close` leaves: every
/// municipality that has users with a record has a newly selected roster,
/// every other municipality is untouched, and `renewed` names the
/// municipalities with a new roster.
pub open spec fn spec_selection_done(
    before: Seq<Roster>,
    after: Seq<Roster>,
    evals: Seq<UserEvaluation>,
    close: i64,
    renewed: Seq<String>,
) -> bool {
    &&& forall|m: Seq<char>| #[trigger]
        spec_has_users(evals, m) ==> spec_roster_selected(after, evals, m, close)
    &&& forall|m: Seq<char>|
        !(#[trigger] spec_has_users(evals, m)) ==> spec_untouched(before, after, m)
    &&& forall|m: Seq<char>| #[trigger] spec_listed(renewed, m) <==> spec_has_users(evals, m)
}

/// A list with one more name names what it named before and the new name.
pub proof fn lemma_listed_push(list: Seq<String>, name: String, m: Seq<char>)
    ensures
        spec_listed(list.push(name), m) <==> spec_listed(list, m) || name@ == m,
{
    let more = list.push(name);
    if spec_listed(more, m) {
        let d = choose|d: int| 0 <= d < more.len() && (#[trigger] more[d])@ == m;
        if d < list.len() {
            assert(list[d]@ == m);
        }
    }
    if spec_listed(list, m) {
        let d = choose|d: int| 0 <= d < list.len() && (#[trigger] list[d])@ == m;
        assert(more[d]@ == m);
    }
    if name@ == m {
        assert(more[list.len() as int]@ == m);
    }
}

/// Tells whether `list` names `m`.
pub fn listed(list: &Vec<String>, m: &str) -> (named: bool)
    ensures
        named == spec_listed(list@, m@),
{
    let mut d: usize = 0;
    while d < list.len()
        invariant
            d <= list.len(),
            forall|e: int| 0 <= e < d ==> (#[trigger] list@[e])@ != m@,
        decreases list.len() - d,
    {
        if str_eq(list[d].as_str(), m) {
            assert(list@[d as int]@ == m@);
            return true;
        }
        d += 1;
    }
    false
}

/// Whether the user `user` is, at `now`, a representative within term of
/// some municipality.
pub open spec fn spec_serving_somewhere(rosters: Seq<Roster>, user: Seq<char>, now: int) -> bool {
    exists|r: int|
        0 <= r < rosters.len() && spec_serving(
            (#[trigger] rosters[r]).representatives@,
            user,
            now,
        )
}

/// For each contribution record, whether its user is a representative
/// within term at `now`.
pub open spec fn spec_serving_mask(evals: Seq<UserEvaluation>, rosters: Seq<Roster>, now: int)
    -> Seq<bool> {
    Seq::new(evals.len(), |i: int| spec_serving_somewhere(rosters, evals[i].user_id@, now))
}

/// Whether `chosen` are the records of the best ranked users among those
/// who are representatives within term at `now`, at most `ROSTER_SIZE` of
/// them and the best first.
pub open spec fn spec_continental(
    evals: Seq<UserEvaluation>,
    rosters: Seq<Roster>,
    now: int,
    chosen: Seq<UserEvaluation>,
) -> bool {
    exists|picked: Seq<usize>| #[trigger]
        spec_top_of(evals, spec_serving_mask(evals, rosters, now), 5, picked) && chosen.len()
            == picked.len() && forall|k: int|
            0 <= k < chosen.len() ==> #[trigger] chosen[k] == evals[picked[k] as int]
}

/// Calls `rand::seq::SliceRandom::choose` with `rand::thread_rng`: one of
/// the elements, picked at random, or `None` for an empty list.
#[verifier::external_body]
pub(crate) fn choose_one(candidates: &Vec<usize>) -> (picked: Option<usize>)
    ensures
        candidates@.len() == 0 ==> picked is None,
        candidates@.len() > 0 ==> picked is Some && candidates@.contains(picked->0),
{
    candidates.choose(&mut rand::thread_rng()).copied()
}

/// The registry of representatives together with the contribution records
/// that their ranking rests on.
pub struct DPoS {
    pub user_evaluations: EvaluationRegistry,
    /// The rosters by municipality. Where a municipality occurs twice, its
    /// first roster is the one that counts; `install_roster` replaces that
    /// one and never adds a second.
    pub municipal_representatives: Vec<Roster>,
}

impl DPoS {
    /// A registry without records and without rosters.
    pub fn new() -> (dpos: Self)
        ensures
            dpos.user_evaluations@ == Seq::<UserEvaluation>::empty(),
            dpos.municipal_representatives@ == Seq::<Roster>::empty(),
    {
        DPoS { user_evaluations: EvaluationRegistry::new(), municipal_representatives: Vec::new() }
    }

    /// The rosters as a sequence.
    pub open spec fn rosters(&self) -> Seq<Roster> {
        self.municipal_representatives@
    }

    /// The place of the roster of `municipality`.
    pub fn roster_position(&self, municipality: &str) -> (found: Option<usize>)
        ensures
            match found {
                Some(i) => i == spec_roster_index(self.rosters(), municipality@, 0) && i
                    < self.rosters().len(),
                None => !spec_has_roster(self.rosters(), municipality@),
            },
    {
        let mut i: usize = 0;
        while i < self.municipal_representatives.len()
            invariant
                i <= self.municipal_representatives.len(),
                forall|j: int|
                    0 <= j < i ==> (#[trigger] self.municipal_representatives@[j]).municipality@
                        != municipality@,
            decreases self.municipal_representatives.len() - i,
        {
            if str_eq(self.municipal_representatives[i].municipality.as_str(), municipality) {
                proof {
                    lemma_roster_index_is(self.rosters(), municipality@, i as int);
                }
                return Some(i);
            }
            i += 1;
        }
        proof {
            lemma_roster_index_is(self.rosters(), municipality@, i as int);
        }
        None
    }

    /// Copies of the representatives of `municipality`.
    pub fn representatives_of(&self, municipality: &str) -> (reps: Vec<Representative>)
        ensures
            reps@ == spec_roster_of(self.rosters(), municipality@),
    {
        let mut reps: Vec<Representative> = Vec::new();
        match self.roster_position(municipality) {
            None => {},
            Some(i) => {
                let roster = &self.municipal_representatives[i];
                let mut k: usize = 0;
                while k < roster.representatives.len()
                    invariant
                        k <= roster.representatives.len(),
                        reps@ == roster.representatives@.take(k as int),
                    decreases roster.representatives.len() - k,
                {
                    reps.push(roster.representatives[k].clone());
                    assert(roster.representatives@.take(k + 1) =~= roster.representatives@.take(
                        k as int,
                    ).push(roster.representatives@[k as int]));
                    k += 1;
                }
                assert(roster.representatives@.take(k as int) =~= roster.representatives@);
            },
        }
        reps
    }

    /// The user id of the active representative of `municipality`.
    pub fn active_representative(&self, municipality: &str) -> (active: Option<String>)
        ensures
            match active {
                Some(user) => spec_active_of(self.rosters(), municipality@) == Some(user@),
                None => spec_active_of(self.rosters(), municipality@) is None,
            },
    {
        match self.roster_position(municipality) {
            None => None,
            Some(i) => match &self.municipal_representatives[i].active {
                Some(user) => Some(user.clone()),
                None => None,
            },
        }
    }

    /// Tells who approves for `municipality` at the instant `now`, or why
    /// nobody does: no representative is active, or the term of the active
    /// one does not cover `now`.
    #[verifier::loop_isolation(false)]
    pub fn approver(&self, municipality: &str, now: i64) -> (who: Result<String, LedgerError>)
        ensures
            match who {
                Ok(user) => spec_approver(self.rosters(), municipality@, now as int) == Ok::<
                    Seq<char>,
                    LedgerError,
                >(user@),
                Err(e) => spec_approver(self.rosters(), municipality@, now as int) == Err::<
                    Seq<char>,
                    LedgerError,
                >(e),
            },
    {
        match self.roster_position(municipality) {
            None => Err(LedgerError::NoRepresentativeAvailable),
            Some(i) => {
                let roster = &self.municipal_representatives[i];
                match &roster.active {
                    None => Err(LedgerError::NoRepresentativeAvailable),
                    Some(user) => {
                        let mut k: usize = 0;
                        while k < roster.representatives.len()
                            invariant
                                k <= roster.representatives.len(),
                                forall|l: int|
                                    0 <= l < k ==> !((#[trigger] roster.representatives@[l]).user_id@
                                        == user@ && spec_in_term(
                                        roster.representatives@[l],
                                        now as int,
                                    )),
                            decreases roster.representatives.len() - k,
                        {
                            let rep = &roster.representatives[k];
                            if str_eq(rep.user_id.as_str(), user.as_str()) && in_term(rep, now) {
                                assert(roster.representatives@[k as int].user_id@ == user@);
                                return Ok(user.clone());
                            }
                            k += 1;
                        }
                        Err(LedgerError::RepresentativeTermExpired)
                    },
                }
            },
        }
    }

    /// Approves `tx` at the instant `now`. Approval succeeds if and only if
    /// the active representative of the sender's municipality is within
    /// term at `now`; it then attaches that representative's approval to
    /// `tx`. Otherwise `tx` stays as it is.
    pub fn approve_transaction_at(&self, tx: &mut Transaction, now: i64) -> (outcome: Result<
        (),
        LedgerError,
    >)
        ensures
            match spec_approver(self.rosters(), old(tx).sender_municipality@, now as int) {
                Ok(user) => {
                    &&& outcome is Ok
                    &&& final(tx).signature@ == spec_approval_signature(user)
                    &&& *final(tx) == (Transaction { signature: final(tx).signature, ..*old(tx) })
                },
                Err(e) => outcome == Err::<(), LedgerError>(e) && *final(tx) == *old(tx),
            },
    {
        match self.approver(tx.sender_municipality.as_str(), now) {
            Ok(user) => {
                tx.signature = approval_signature(user.as_str());
                Ok(())
            },
            Err(e) => Err(e),
        }
    }

    /// Approves `tx` at the present instant: the outcome, and what becomes
    /// of `tx`, are those of an approval at the instant that the clock
    /// reads. Whatever it reads, a municipality without an active
    /// representative is refused with `NoRepresentativeAvailable`, a
    /// refusal leaves `tx` as it is and an approval changes its signature
    /// only.
    pub fn approve_transaction(&self, tx: &mut Transaction) -> (outcome: Result<(), LedgerError>)
        ensures
            exists|now: i64| #[trigger]
                spec_approval_at(self.rosters(), *old(tx), *final(tx), outcome, now as int),
            spec_active_of(self.rosters(), old(tx).sender_municipality@) is None ==> outcome
                == Err::<(), LedgerError>(LedgerError::NoRepresentativeAvailable),
            outcome is Err ==> *final(tx) == *old(tx),
            outcome is Ok ==> exists|now: int|
                (#[trigger] spec_approver(self.rosters(), old(tx).sender_municipality@, now))
                    is Ok && final(tx).signature@ == spec_approval_signature(
                    spec_approver(self.rosters(), old(tx).sender_municipality@, now)->Ok_0,
                ),
            *final(tx) == (Transaction { signature: final(tx).signature, ..*old(tx) }),
    {
        let now = current_time();
        let outcome = self.approve_transaction_at(tx, now);
        proof {
            assert(spec_approval_at(self.rosters(), *old(tx), *tx, outcome, now as int));
            if outcome is Ok {
                assert(spec_approver(self.rosters(), old(tx).sender_municipality@, now as int)
                    is Ok);
            }
        }
        outcome
    }

    /// Tells whether the signature on `tx` is the approval of a
    /// representative on the roster of the sender's municipality.
    #[verifier::loop_isolation(false)]
    pub fn has_approved(&self, tx: &Transaction) -> (approved: bool)
        ensures
            approved == spec_has_approved(self.rosters(), *tx),
    {
        match self.roster_position(tx.sender_municipality.as_str()) {
            None => false,
            Some(i) => {
                let roster = &self.municipal_representatives[i];
                let mut k: usize = 0;
                while k < roster.representatives.len()
                    invariant
                        k <= roster.representatives.len(),
                        forall|l: int|
                            0 <= l < k ==> tx.signature@ != spec_approval_signature(
                                (#[trigger] roster.representatives@[l]).user_id@,
                            ),
                    decreases roster.representatives.len() - k,
                {
                    if tx.verify_signature(roster.representatives[k].user_id.as_str()) {
                        proof {
                            let reps = spec_roster_of(self.rosters(), tx.sender_municipality@);
                            assert(reps == roster.representatives@);
                            assert(tx.signature@ == spec_approval_signature(
                                reps[k as int].user_id@,
                            ));
                        }
                        return true;
                    }
                    k += 1;
                }
                false
            },
        }
    }

    /// Decides on a block whose batch comes from `municipality`: the block
    /// is approved if it carries its own hash and someone approves for the
    /// municipality at `now`.
    pub fn approve_block(&self, block: &Block, municipality: &str, now: i64) -> (approved: bool)
        ensures
            approved == (block.spec_sealed() && spec_approver(
                self.rosters(),
                municipality@,
                now as int,
            ) is Ok),
    {
        if !block.verify_hash() {
            return false;
        }
        self.approver(municipality, now).is_ok()
    }

    /// The places, in the roster of `municipality`, of the representatives
    /// whose term covers `now`.
    pub fn in_term_places(&self, municipality: &str, now: i64) -> (places: Vec<usize>)
        ensures
            forall|p: usize| #[trigger]
                places@.contains(p) <==> p < spec_roster_of(self.rosters(), municipality@).len()
                    && spec_in_term(
                    spec_roster_of(self.rosters(), municipality@)[p as int],
                    now as int,
                ),
    {
        let mut places: Vec<usize> = Vec::new();
        match self.roster_position(municipality) {
            None => {},
            Some(i) => {
                let roster = &self.municipal_representatives[i];
                let mut k: usize = 0;
                while k < roster.representatives.len()
                    invariant
                        k <= roster.representatives.len(),
                        forall|p: usize| #[trigger]
                            places@.contains(p) <==> p < k && spec_in_term(
                                roster.representatives@[p as int],
                                now as int,
                            ),
                    decreases roster.representatives.len() - k,
                {
                    let ghost before = places@;
                    if in_term(&roster.representatives[k], now) {
                        places.push(k);
                        proof {
                            assert(places@[before.len() as int] == k);
                            assert forall|p: usize| #[trigger]
                                places@.contains(p) <==> p < k + 1 && spec_in_term(
                                    roster.representatives@[p as int],
                                    now as int,
                                ) by {
                                if places@.contains(p) {
                                    let w = choose|w: int|
                                        0 <= w < places@.len() && places@[w] == p;
                                    if w < before.len() {
                                        assert(before[w] == p);
                                        assert(before.contains(p));
                                    }
                                }
                                if p < k && spec_in_term(
                                    roster.representatives@[p as int],
                                    now as int,
                                ) {
                                    assert(before.contains(p));
                                    let w = choose|w: int|
                                        0 <= w < before.len() && before[w] == p;
                                    assert(places@[w] == p);
                                }
                            }
                        }
                    }
                    k += 1;
                }
            },
        }
        places
    }

    /// Makes the representative `user_id` of `municipality` the active one,
    /// if the term of that representative covers `now`. Nothing else
    /// changes; on failure nothing changes at all.
    pub fn appoint(&mut self, municipality: &str, user_id: &str, now: i64) -> (outcome: Result<
        Representative,
        LedgerError,
    >)
        ensures
            final(self).user_evaluations == old(self).user_evaluations,
            spec_rosters_kept(old(self).rosters(), final(self).rosters()),
            forall|m: Seq<char>|
                m != municipality@ ==> spec_active_of(old(self).rosters(), m) == #[trigger]
                spec_active_of(final(self).rosters(), m),
            match outcome {
                Ok(rep) => {
                    &&& spec_roster_of(old(self).rosters(), municipality@).contains(rep)
                    &&& rep.user_id@ == user_id@
                    &&& spec_in_term(rep, now as int)
                    &&& spec_active_of(final(self).rosters(), municipality@) == Some(user_id@)
                },
                Err(e) => {
                    &&& e == LedgerError::NoRepresentativeAvailable
                    &&& !spec_serving(
                        spec_roster_of(old(self).rosters(), municipality@),
                        user_id@,
                        now as int,
                    )
                    &&& final(self).rosters() == old(self).rosters()
                },
            },
    {
        let found = self.roster_position(municipality);
        let outcome = match found {
            None => Err(LedgerError::NoRepresentativeAvailable),
            Some(i) => {
                let mut serving: Option<Representative> = None;
                let mut k: usize = 0;
                while k < self.municipal_representatives[i].representatives.len()
                    && serving.is_none()
                    invariant
                        i < self.municipal_representatives@.len(),
                        k <= self.municipal_representatives@[i as int].representatives@.len(),
                        *self == *old(self),
                        match serving {
                            None => forall|l: int|
                                0 <= l < k ==> !((
                                #[trigger] self.municipal_representatives@[i as int].representatives@[l]).user_id@
                                    == user_id@ && spec_in_term(
                                    self.municipal_representatives@[i as int].representatives@[l],
                                    now as int,
                                )),
                            Some(rep) => {
                                &&& self.municipal_representatives@[i as int].representatives@.contains(
                                    rep,
                                )
                                &&& rep.user_id@ == user_id@
                                &&& spec_in_term(rep, now as int)
                            },
                        },
                    decreases
                            self.municipal_representatives@[i as int].representatives@.len() - k + (
                            if serving is None {
                                1int
                            } else {
                                0int
                            }),
                {
                    let rep = &self.municipal_representatives[i].representatives[k];
                    if str_eq(rep.user_id.as_str(), user_id) && in_term(rep, now) {
                        serving = Some(rep.clone());
                        assert(self.municipal_representatives@[i as int].representatives@[k as int]
                            == *rep);
                    } else {
                        k += 1;
                    }
                }
                match serving {
                    None => Err(LedgerError::NoRepresentativeAvailable),
                    Some(rep) => {
                        let mut roster = self.municipal_representatives.remove(i);
                        roster.active = Some(String::from_str(user_id));
                        proof {
                            let a = old(self).rosters();
                            lemma_roster_index(a, municipality@, 0);
                            assert(a.remove(i as int).insert(i as int, roster) =~= a.update(
                                i as int,
                                roster,
                            ));
                            assert forall|m: Seq<char>| #[trigger]
                                spec_same_roster(a, a.update(i as int, roster), m) by {
                                lemma_roster_replaced(a, i as int, roster, m);
                            }
                            assert forall|m: Seq<char>| m != municipality@ implies spec_active_of(
                                a,
                                m,
                            ) == #[trigger] spec_active_of(a.update(i as int, roster), m) by {
                                lemma_roster_replaced(a, i as int, roster, m);
                            }
                            lemma_roster_replaced(a, i as int, roster, municipality@);
                        }
                        self.municipal_representatives.insert(i, roster);
                        Ok(rep)
                    },
                }
            },
        };
        proof {
            lemma_rosters_kept(old(self).rosters(), self.rosters());
        }
        outcome
    }

    /// Elects the active representative of `municipality` at the instant
    /// `now`: one of those whose term covers `now`, picked at random. Fails,
    /// and changes nothing, if and only if there is none.
    pub fn elect_representative_at(&mut self, municipality: &str, now: i64) -> (outcome: Result<
        Representative,
        LedgerError,
    >)
        ensures
            final(self).user_evaluations == old(self).user_evaluations,
            spec_rosters_kept(old(self).rosters(), final(self).rosters()),
            forall|m: Seq<char>|
                m != municipality@ ==> spec_active_of(old(self).rosters(), m) == #[trigger]
                spec_active_of(final(self).rosters(), m),
            outcome is Err <==> forall|k: int|
                0 <= k < spec_roster_of(old(self).rosters(), municipality@).len() ==> !spec_in_term(
                    #[trigger] spec_roster_of(old(self).rosters(), municipality@)[k],
                    now as int,
                ),
            match outcome {
                Ok(rep) => {
                    &&& spec_roster_of(old(self).rosters(), municipality@).contains(rep)
                    &&& spec_in_term(rep, now as int)
                    &&& spec_active_of(final(self).rosters(), municipality@) == Some(rep.user_id@)
                },
                Err(e) => {
                    &&& e == LedgerError::NoRepresentativeAvailable
                    &&& final(self).rosters() == old(self).rosters()
                },
            },
    {
        let places = self.in_term_places(municipality, now);
        let ghost reps = spec_roster_of(self.rosters(), municipality@);
        let outcome = match choose_one(&places) {
            None => {
                proof {
                    assert forall|k: int| 0 <= k < reps.len() implies !spec_in_term(
                        #[trigger] reps[k],
                        now as int,
                    ) by {
                        if spec_in_term(reps[k], now as int) {
                            let at = spec_roster_index(self.rosters(), municipality@, 0);
                            let members = self.municipal_representatives@[at].representatives;
                            assert(reps.len() == members.len());
                            assert(places@.contains(k as usize));
                        }
                    }
                }
                Err(LedgerError::NoRepresentativeAvailable)
            },
            Some(k) => {
                assert(places@.contains(k));
                assert(k < reps.len() && spec_in_term(reps[k as int], now as int));
                let i = self.roster_position(municipality).unwrap();
                let user = self.municipal_representatives[i].representatives[k].user_id.clone();
                assert(reps[k as int].user_id@ == user@);
                self.appoint(municipality, user.as_str(), now)
            },
        };
        proof {
            lemma_rosters_kept(old(self).rosters(), self.rosters());
        }
        outcome
    }

    /// Elects the active representative of `municipality` at the present
    /// instant: the outcome, and what becomes of the rosters, are those of
    /// an election at the instant that the clock reads. Whatever it reads,
    /// a municipality without representatives gets
    /// `NoRepresentativeAvailable`, a failure changes nothing, and on
    /// success the elected one is a representative of the municipality and
    /// is now its active one.
    pub fn elect_representative(&mut self, municipality: &str) -> (outcome: Result<
        Representative,
        LedgerError,
    >)
        ensures
            final(self).user_evaluations == old(self).user_evaluations,
            spec_rosters_kept(old(self).rosters(), final(self).rosters()),
            forall|m: Seq<char>|
                m != municipality@ ==> spec_active_of(old(self).rosters(), m) == #[trigger]
                spec_active_of(final(self).rosters(), m),
            exists|now: i64| #[trigger]
                spec_election_at(
                    old(self).rosters(),
                    final(self).rosters(),
                    municipality@,
                    outcome,
                    now as int,
                ),
            spec_roster_of(old(self).rosters(), municipality@).len() == 0 ==> outcome is Err,
            match outcome {
                Ok(rep) => {
                    &&& spec_roster_of(old(self).rosters(), municipality@).contains(rep)
                    &&& spec_active_of(final(self).rosters(), municipality@) == Some(rep.user_id@)
                },
                Err(e) => {
                    &&& e == LedgerError::NoRepresentativeAvailable
                    &&& final(self).rosters() == old(self).rosters()
                },
            },
    {
        let now = current_time();
        let outcome = self.elect_representative_at(municipality, now);
        proof {
            assert(spec_election_at(
                old(self).rosters(),
                self.rosters(),
                municipality@,
                outcome,
                now as int,
            ));
        }
        outcome
    }

    /// Records what a transaction contributes to the scores of its sender
    /// and its receiver, who have a record afterwards; no user has one who
    /// had none before. The rosters stay as they are.
    pub fn update_user_evaluations(&mut self, tx: &Transaction)
        ensures
            final(self).municipal_representatives == old(self).municipal_representatives,
            forall|user: Seq<char>| #[trigger]
                spec_has_user(final(self).user_evaluations@, user) <==> spec_has_user(
                    old(self).user_evaluations@,
                    user,
                ) || user == tx.sender@ || user == tx.receiver@,
            final(self).user_evaluations@.len() == old(self).user_evaluations@.len()
                + spec_new_records(old(self).user_evaluations@, *tx),
            forall|user: Seq<char>|
                #[trigger] spec_items_of(final(self).user_evaluations@, user)
                    == spec_after_transaction(
                    spec_items_of(old(self).user_evaluations@, user),
                    user,
                    *tx,
                ),
    {
        self.user_evaluations.update_user_evaluations(tx);
    }

    /// Ranks the users of `municipality` and makes a roster of the best of
    /// them, with the term that follows `close` and nobody active.
    pub fn build_roster(&self, municipality: &str, close: i64) -> (roster: Roster)
        ensures
            roster.municipality@ == municipality@,
            roster.active is None,
            spec_best_of(roster.representatives@, self.user_evaluations@, municipality@, close),
    {
        let picked = self.user_evaluations.top_ranked(municipality, ROSTER_SIZE);
        let start = plus_days(close, TERM_DAYS);
        let end = plus_days(close, 2 * TERM_DAYS);
        let mut reps: Vec<Representative> = Vec::new();
        let mut k: usize = 0;
        while k < picked.len()
            invariant
                k <= picked.len(),
                spec_top_ranked(self.user_evaluations@, municipality@, 5, picked@),
                start == spec_term_start(close),
                end == spec_term_end(close),
                spec_selected(
                    reps@,
                    self.user_evaluations@,
                    municipality@,
                    picked@.take(k as int),
                    close,
                ),
            decreases picked.len() - k,
        {
            let record = self.user_evaluations.entry(picked[k]).unwrap();
            let total = score(&record.items);
            reps.push(
                Representative {
                    user_id: record.user_id,
                    municipality: String::from_str(municipality),
                    start_date: start,
                    end_date: end,
                    score: total,
                },
            );
            k += 1;
        }
        assert(picked@.take(k as int) =~= picked@);
        Roster { municipality: String::from_str(municipality), representatives: reps, active: None }
    }

    /// Gives the municipality of `roster` that roster, in the place of the
    /// one it had if it had one. The other municipalities are untouched.
    pub fn install_roster(&mut self, roster: Roster)
        ensures
            final(self).user_evaluations == old(self).user_evaluations,
            spec_has_roster(final(self).rosters(), roster.municipality@),
            spec_roster_of(final(self).rosters(), roster.municipality@) == roster.representatives@,
            spec_active_of(final(self).rosters(), roster.municipality@) == match roster.active {
                Some(user) => Some(user@),
                None => None,
            },
            spec_others_untouched(old(self).rosters(), final(self).rosters(), roster.municipality@),
    {
        let found = self.roster_position(roster.municipality.as_str());
        let ghost name = roster.municipality@;
        proof {
            let a = self.rosters();
            lemma_roster_index(a, roster.municipality@, 0);
            match found {
                Some(i) => {
                    lemma_roster_replaced(a, i as int, roster, roster.municipality@);
                    assert forall|m: Seq<char>| m != roster.municipality@ implies #[trigger]
                        spec_untouched(a, a.update(i as int, roster), m) by {
                        lemma_roster_replaced(a, i as int, roster, m);
                    }
                },
                None => {
                    lemma_roster_added(a, roster, roster.municipality@);
                    assert forall|m: Seq<char>| m != roster.municipality@ implies #[trigger]
                        spec_untouched(a, a.push(roster), m) by {
                        lemma_roster_added(a, roster, m);
                    }
                },
            }
        }
        match found {
            Some(i) => {
                self.municipal_representatives.set(i, roster);
            },
            None => {
                self.municipal_representatives.push(roster);
            },
        }
        proof {
            lemma_others_untouched(old(self).rosters(), self.rosters(), name);
        }
    }

    /// Selects the representatives on the records up to the instant
    /// `close`: in every municipality that has users with a record, the
    /// five best ranked become the roster, with a term that starts
    /// `TERM_DAYS` days after `close` and lasts `TERM_DAYS` days more.
    /// Returns the municipalities that got a new roster.
    pub fn perform_selection(&mut self, close: i64) -> (renewed: Vec<String>)
        ensures
            final(self).user_evaluations == old(self).user_evaluations,
            spec_selection_done(
                old(self).rosters(),
                final(self).rosters(),
                old(self).user_evaluations@,
                close,
                renewed@,
            ),
    {
        let ghost evals = self.user_evaluations@;
        let ghost start = self.rosters();
        let n = self.user_evaluations.len();
        let mut done: Vec<String> = Vec::new();
        let mut i: usize = 0;
        while i < n
            invariant
                i <= n,
                n == evals.len(),
                self.user_evaluations == old(self).user_evaluations,
                evals == self.user_evaluations@,
                start == old(self).rosters(),
                forall|m: Seq<char>| #[trigger]
                    spec_listed(done@, m) ==> spec_roster_selected(self.rosters(), evals, m, close),
                forall|m: Seq<char>|
                    !spec_listed(done@, m) ==> #[trigger] spec_untouched(start, self.rosters(), m),
                forall|j: int|
                    0 <= j < i ==> spec_listed(
                        done@,
                        spec_user_municipality((#[trigger] evals[j]).user_id@),
                    ),
                forall|d: int| 0 <= d < done@.len() ==> spec_has_users(evals, (#[trigger] done@[d])@),
            decreases n - i,
        {
            let record = self.user_evaluations.entry(i).unwrap();
            let m = get_user_municipality(record.user_id.as_str());
            assert(spec_belongs(evals[i as int], m@));
            if !listed(&done, m.as_str()) {
                let roster = self.build_roster(m.as_str(), close);
                let ghost before = self.rosters();
                let ghost names = done@;
                self.install_roster(roster);
                let ghost after = self.rosters();
                done.push(m);
                proof {
                    assert forall|x: Seq<char>| #[trigger]
                        spec_listed(done@, x) implies spec_roster_selected(
                        after,
                        evals,
                        x,
                        close,
                    ) by {
                        lemma_listed_push(names, m, x);
                        if x != m@ {
                            assert(spec_listed(names, x));
                            assert(spec_roster_selected(before, evals, x, close));
                            assert(spec_untouched(before, after, x));
                        }
                    }
                    assert forall|x: Seq<char>| !spec_listed(done@, x) implies #[trigger]
                        spec_untouched(start, after, x) by {
                        lemma_listed_push(names, m, x);
                        assert(spec_untouched(start, before, x));
                        assert(spec_untouched(before, after, x));
                    }
                    assert forall|j: int| 0 <= j < i + 1 implies spec_listed(
                        done@,
                        spec_user_municipality((#[trigger] evals[j]).user_id@),
                    ) by {
                        lemma_listed_push(
                            names,
                            m,
                            spec_user_municipality(evals[j].user_id@),
                        );
                    }
                    assert forall|d: int| 0 <= d < done@.len() implies spec_has_users(
                        evals,
                        (#[trigger] done@[d])@,
                    ) by {
                        if d < names.len() {
                            assert(done@[d] == names[d]);
                        }
                    }
                }
            }
            i += 1;
        }
        proof {
            assert forall|m: Seq<char>| #[trigger] spec_has_users(evals, m) implies spec_listed(
                done@,
                m,
            ) by {
                let j = choose|j: int| 0 <= j < evals.len() && spec_belongs(#[trigger] evals[j], m);
                assert(spec_listed(done@, spec_user_municipality(evals[j].user_id@)));
            }
            assert forall|m: Seq<char>| #[trigger] spec_listed(done@, m) implies spec_has_users(
                evals,
                m,
            ) by {
                let d = choose|d: int| 0 <= d < done@.len() && (#[trigger] done@[d])@ == m;
                assert(spec_has_users(evals, done@[d]@));
            }
        }
        done
    }

    /// On the first day of a quarter, selects the representatives on the
    /// records up to the day before `now`; on any other day does nothing.
    pub fn select_representatives(&mut self, now: i64) -> (renewed: Vec<String>)
        ensures
            final(self).user_evaluations == old(self).user_evaluations,
            spec_is_selection_day(now as int) ==> spec_selection_done(
                old(self).rosters(),
                final(self).rosters(),
                old(self).user_evaluations@,
                spec_minus_days(now as int, 1) as i64,
                renewed@,
            ),
            !spec_is_selection_day(now as int) ==> final(self).rosters() == old(self).rosters()
                && renewed@.len() == 0,
    {
        if is_selection_day(now) {
            let close = minus_days(now, 1);
            self.perform_selection(close)
        } else {
            Vec::new()
        }
    }

    /// Tells whether `user_id` is, at `now`, a representative within term
    /// of some municipality.
    #[verifier::loop_isolation(false)]
    pub fn serving_somewhere(&self, user_id: &str, now: i64) -> (serving: bool)
        ensures
            serving == spec_serving_somewhere(self.rosters(), user_id@, now as int),
    {
        let mut r: usize = 0;
        while r < self.municipal_representatives.len()
            invariant
                r <= self.municipal_representatives.len(),
                forall|q: int|
                    0 <= q < r ==> !spec_serving(
                        (#[trigger] self.municipal_representatives@[q]).representatives@,
                        user_id@,
                        now as int,
                    ),
            decreases self.municipal_representatives.len() - r,
        {
            let roster = &self.municipal_representatives[r];
            let mut k: usize = 0;
            while k < roster.representatives.len()
                invariant
                    k <= roster.representatives.len(),
                    forall|l: int|
                        0 <= l < k ==> !((#[trigger] roster.representatives@[l]).user_id@
                            == user_id@ && spec_in_term(roster.representatives@[l], now as int)),
                decreases roster.representatives.len() - k,
            {
                let rep = &roster.representatives[k];
                if str_eq(rep.user_id.as_str(), user_id) && in_term(rep, now) {
                    proof {
                        assert(roster.representatives@[k as int].user_id@ == user_id@);
                        assert(spec_serving(
                            self.municipal_representatives@[r as int].representatives@,
                            user_id@,
                            now as int,
                        ));
                    }
                    return true;
                }
                k += 1;
            }
            r += 1;
        }
        false
    }

    /// Selects the continental representatives at `now`: of the users who
    /// are representatives within term of a municipality and have a
    /// contribution record, the `ROSTER_SIZE` best ranked, the best first.
    /// Returns their records for the caller to notify them.
    pub fn select_continental_representatives(&self, now: i64) -> (chosen: Vec<UserEvaluation>)
        ensures
            spec_continental(self.user_evaluations@, self.rosters(), now as int, chosen@),
    {
        let n = self.user_evaluations.len();
        let mut mask: Vec<bool> = Vec::new();
        let mut i: usize = 0;
        while i < n
            invariant
                i <= n,
                n == self.user_evaluations@.len(),
                mask@.len() == i,
                forall|j: int|
                    0 <= j < i ==> #[trigger] mask@[j] == spec_serving_somewhere(
                        self.rosters(),
                        self.user_evaluations@[j].user_id@,
                        now as int,
                    ),
            decreases n - i,
        {
            let record = self.user_evaluations.entry(i).unwrap();
            mask.push(self.serving_somewhere(record.user_id.as_str(), now));
            i += 1;
        }
        assert(mask@ =~= spec_serving_mask(self.user_evaluations@, self.rosters(), now as int));
        let picked = self.user_evaluations.top_of(&mask, ROSTER_SIZE);
        let mut chosen: Vec<UserEvaluation> = Vec::new();
        let mut k: usize = 0;
        while k < picked.len()
            invariant
                k <= picked.len(),
                spec_top_of(self.user_evaluations@, mask@, 5, picked@),
                chosen@.len() == k,
                forall|l: int|
                    0 <= l < k ==> #[trigger] chosen@[l] == self.user_evaluations@[picked@[l] as int],
            decreases picked.len() - k,
        {
            chosen.push(self.user_evaluations.entry(picked[k]).unwrap());
            k += 1;
        }
        chosen
    }
}

/// Approval succeeds if and only if a representative of the municipality is
/// the active one and is within term at `now`.
pub proof fn lemma_approval(rosters: Seq<Roster>, m: Seq<char>, now: int)
    ensures
        spec_approver(rosters, m, now) is Ok <==> exists|k: int|
            0 <= k < spec_roster_of(rosters, m).len() && spec_active_of(rosters, m) == Some(
                (#[trigger] spec_roster_of(rosters, m)[k]).user_id@,
            ) && spec_in_term(spec_roster_of(rosters, m)[k], now),
{
    let reps = spec_roster_of(rosters, m);
    if spec_approver(rosters, m, now) is Ok {
        let user = spec_active_of(rosters, m)->0;
        let k = choose|k: int|
            0 <= k < reps.len() && (#[trigger] reps[k]).user_id@ == user && spec_in_term(
                reps[k],
                now,
            );
        assert(spec_active_of(rosters, m) == Some(reps[k].user_id@));
    }
    if exists|k: int|
        0 <= k < reps.len() && spec_active_of(rosters, m) == Some((#[trigger] reps[k]).user_id@)
            && spec_in_term(reps[k], now) {
        let k = choose|k: int|
            0 <= k < reps.len() && spec_active_of(rosters, m) == Some(
                (#[trigger] reps[k]).user_id@,
            ) && spec_in_term(reps[k], now);
        assert(reps[k].user_id@ == spec_active_of(rosters, m)->0);
    }
}

} // verus!
