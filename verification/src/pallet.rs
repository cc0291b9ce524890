//! The task registry engine.
//!
//! A [`Pallet`] value owns the task records, the verification rounds with
//! their votes, and the escrow ledger, together with the deployment
//! configuration, the externally supplied current time, and the monotonic
//! next-id counter.  Every inbound operation validates before it mutates, so
//! a failing call leaves the engine exactly as it was.

use vstd::prelude::*;
use crate::errors::Error;
use crate::ledger::{
    bal_of, released_amount, reserve_effect, settle_effect, unreserve_effect, Bal, Ledger,
};
use crate::lifecycle::{is_terminal, transition_allowed, TaskStatus};
use crate::table::{
    lemma_seq_sum_elem_bound, lemma_seq_sum_nonneg, lemma_seq_sum_push, lemma_seq_sum_update,
    seq_sum, Table,
};
use crate::search::{
    in_order, keyword_pred, matches_query, page_of, query_pred, sorted_by, views_of,
};
use crate::task::{expired_at, Task, TaskSearchParams, TaskStatistics, TaskView};

verus! {

/// Upper bound on the voters of one verification round.
pub const MAX_VERIFICATION_VOTERS: u32 = 1000;

/// Deployment constants; fixed when an engine is created.
#[derive(Clone, Copy, PartialEq, Eq, Debug, Structural)]
pub struct Config {
    /// Longest accepted title, in bytes.
    pub max_title_length: usize,
    /// Longest accepted description, in bytes.
    pub max_description_length: usize,
    /// Most tasks one account may have created, and most tasks one account
    /// may be assigned.
    pub max_tasks_per_user: usize,
    /// Most tasks that may share a status at once.
    pub max_tasks_per_status: usize,
    /// Most tasks that may share a priority at once.
    pub max_tasks_per_priority: usize,
    /// Most tasks that may share a deadline at once.
    pub max_tasks_per_deadline: usize,
    /// Minimum number of votes before a verification round can finalize.
    pub min_verification_votes: u32,
    /// Minimum approval percentage for a round to come out approved.
    pub min_approval_percentage: u32,
    /// Length of the verification vote window, in time units.
    pub verification_period: u64,
}

impl Config {
    /// A round must need at least one vote, so an approval percentage is
    /// always well defined.
    pub open spec fn wf(self) -> bool {
        self.min_verification_votes >= 1
    }
}

/// A running community-verification round; exists exactly while its task is
/// `PendingVerification`.
#[derive(Clone, Copy, PartialEq, Eq, Debug, Structural)]
pub struct VerificationRound {
    /// Last moment at which votes are still accepted.
    pub end_time: u64,
    pub approve_votes: u32,
    pub reject_votes: u32,
}

/// One recorded vote of a round.
#[derive(Clone, Copy, PartialEq, Eq, Debug, Structural)]
pub struct VoteRecord {
    pub voter: u64,
    /// `true` approves the completion, `false` rejects it.
    pub approve: bool,
}

/// How much of `a`'s reserved balance the task `t` accounts for: its reward
/// while the task is alive, nothing once it is settled or cancelled.
pub open spec fn locked_contrib(t: TaskView, a: u64) -> int {
    if t.creator == a && !is_terminal(t.status) {
        t.reward as int
    } else {
        0
    }
}

/// The locked contribution of a task, as a summable weight.
pub open spec fn locked_weight(a: u64) -> spec_fn(TaskView) -> int {
    |t: TaskView| locked_contrib(t, a)
}

/// Sum of the rewards of the non-terminal tasks `a` created.
pub open spec fn locked_sum(s: Seq<TaskView>, a: u64) -> int {
    seq_sum(s, locked_weight(a))
}

/// Counts as weights, for the capacity bounds of the bounded indices.
pub open spec fn creator_weight(a: u64) -> spec_fn(TaskView) -> int {
    |t: TaskView| if t.creator == a {
        1int
    } else {
        0int
    }
}

pub open spec fn assignee_weight(a: u64) -> spec_fn(TaskView) -> int {
    |t: TaskView| if t.assignee == Some(a) {
        1int
    } else {
        0int
    }
}

pub open spec fn status_weight(st: TaskStatus) -> spec_fn(TaskView) -> int {
    |t: TaskView| if t.status == st {
        1int
    } else {
        0int
    }
}

pub open spec fn priority_weight(p: u8) -> spec_fn(TaskView) -> int {
    |t: TaskView| if t.priority == p {
        1int
    } else {
        0int
    }
}

pub open spec fn deadline_weight(d: u64) -> spec_fn(TaskView) -> int {
    |t: TaskView| if t.deadline == Some(d) {
        1int
    } else {
        0int
    }
}

/// How many tasks of `s` were created by `a`.
pub open spec fn count_created(s: Seq<TaskView>, a: u64) -> int {
    seq_sum(s, creator_weight(a))
}

/// How many tasks of `s` are assigned to `a`.
pub open spec fn count_assigned(s: Seq<TaskView>, a: u64) -> int {
    seq_sum(s, assignee_weight(a))
}

/// How many tasks of `s` hold status `st`.
pub open spec fn count_status(s: Seq<TaskView>, st: TaskStatus) -> int {
    seq_sum(s, status_weight(st))
}

/// How many tasks of `s` hold priority `p`.
pub open spec fn count_priority(s: Seq<TaskView>, p: u8) -> int {
    seq_sum(s, priority_weight(p))
}

/// How many tasks of `s` fall due at `d`.
pub open spec fn count_deadline(s: Seq<TaskView>, d: u64) -> int {
    seq_sum(s, deadline_weight(d))
}

/// A task record as the registry accepts it.
pub open spec fn task_valid(t: TaskView, c: Config) -> bool {
    &&& t.reward > 0
    &&& 1 <= t.priority <= 4
    &&& 1 <= t.difficulty <= 10
    &&& t.title.len() <= c.max_title_length
    &&& t.description.len() <= c.max_description_length
    &&& t.assignee != Some(t.creator)
}

/// Voters of a round are pairwise distinct.
pub open spec fn voters_unique(s: Seq<VoteRecord>) -> bool {
    forall|i: int, j: int|
        0 <= i < j < s.len() ==> (#[trigger] s[i]).voter != (#[trigger] s[j]).voter
}

/// `voter` already cast a vote in `s`.
pub open spec fn has_vote(s: Seq<VoteRecord>, voter: u64) -> bool {
    exists|i: int| 0 <= i < s.len() && (#[trigger] s[i]).voter == voter
}

/// Approval votes as a summable weight.
pub open spec fn approve_weight() -> spec_fn(VoteRecord) -> int {
    |v: VoteRecord| if v.approve {
        1int
    } else {
        0int
    }
}

/// Rejection votes as a summable weight.
pub open spec fn reject_weight() -> spec_fn(VoteRecord) -> int {
    |v: VoteRecord| if v.approve {
        0int
    } else {
        1int
    }
}

/// The vote records of a round agree with its tallies and with the rules on
/// who may vote.
pub open spec fn votes_valid(vs: Seq<VoteRecord>, r: VerificationRound, t: TaskView) -> bool {
    &&& voters_unique(vs)
    &&& seq_sum(vs, approve_weight()) == r.approve_votes as int
    &&& seq_sum(vs, reject_weight()) == r.reject_votes as int
    &&& vs.len() == r.approve_votes + r.reject_votes
    &&& vs.len() <= MAX_VERIFICATION_VOTERS
    &&& forall|i: int|
        0 <= i < vs.len() ==> (#[trigger] vs[i]).voter != t.creator && t.assignee != Some(
            vs[i].voter,
        )
}

/// The storage-ordered task records after one task's record was replaced in
/// place: some position held the old record and now holds the new one, every
/// other position is untouched, and every weight sum moves by the difference
/// of the two records' contributions.
pub open spec fn task_record_replaced(
    pre: Seq<TaskView>,
    post: Seq<TaskView>,
    old_rec: TaskView,
    new_rec: TaskView,
) -> bool {
    &&& post.len() == pre.len()
    &&& exists|i: int|
        0 <= i < pre.len() && pre[i] == old_rec && post == #[trigger] pre.update(i, new_rec)
    &&& forall|f: spec_fn(TaskView) -> int| #[trigger]
        seq_sum(post, f) == seq_sum(pre, f) - f(old_rec) + f(new_rec)
}

/// The storage-ordered task records after one task's record was removed: the
/// last record moves into the removed one's position, and every weight sum
/// drops by the removed record's contribution.
pub open spec fn task_record_removed(
    pre: Seq<TaskView>,
    post: Seq<TaskView>,
    old_rec: TaskView,
) -> bool {
    &&& post.len() == pre.len() - 1
    &&& exists|i: int|
        0 <= i < pre.len() && pre[i] == old_rec && post == #[trigger] pre.update(
            i,
            pre.last(),
        ).drop_last()
    &&& forall|f: spec_fn(TaskView) -> int| #[trigger]
        seq_sum(post, f) == seq_sum(pre, f) - f(old_rec)
}

/// The task records of a table, keyed by id.
spec fn task_map_of(t: Table<Task>) -> Map<u64, TaskView> {
    t@.map_values(|x: Task| x@)
}

/// The task records of a table, in storage order.
spec fn task_views_of(t: Table<Task>) -> Seq<TaskView> {
    t.rows().map_values(|p: (u64, Task)| p.1@)
}

/// The recorded votes of a table, by task id.
spec fn vote_map_of(t: Table<Vec<VoteRecord>>) -> Map<u64, Seq<VoteRecord>> {
    t@.map_values(|v: Vec<VoteRecord>| v@)
}

/// Every stored row carries its task's id as key, a record the configuration
/// accepts, and an id below the next to be assigned; ids are never reused, so
/// there are at most `next` records.
spec fn tasks_ok_at(rows: Seq<(u64, Task)>, config: Config, next: u32) -> bool {
    &&& forall|i: int|
        0 <= i < rows.len() ==> {
            let (k, t) = #[trigger] rows[i];
            &&& k == t.id as u64
            &&& task_valid(t@, config)
            &&& t.id < next
        }
    &&& rows.len() <= next as int
}

/// A verification round exists exactly for the tasks awaiting verification.
spec fn rounds_ok_at(tm: Map<u64, TaskView>, rm: Map<u64, VerificationRound>) -> bool {
    &&& forall|id: u64| #[trigger]
        rm.contains_key(id) ==> tm.contains_key(id) && tm[id].status
            == TaskStatus::PendingVerification
    &&& forall|id: u64| #[trigger]
        tm.contains_key(id) && tm[id].status == TaskStatus::PendingVerification
            ==> rm.contains_key(id)
}

/// Vote records exist exactly for the live rounds and agree with their
/// round's tallies and task.
spec fn votes_ok_at(
    vm: Map<u64, Seq<VoteRecord>>,
    rm: Map<u64, VerificationRound>,
    tm: Map<u64, TaskView>,
) -> bool {
    &&& forall|id: u64| #[trigger] vm.contains_key(id) ==> rm.contains_key(id)
    &&& forall|id: u64| #[trigger]
        rm.contains_key(id) ==> vm.contains_key(id) && tm.contains_key(id) && votes_valid(
            vm[id],
            rm[id],
            tm[id],
        )
}

/// Escrow conservation: every account's locked rewards are covered by its
/// reserved balance.
spec fn escrow_ok_at(views: Seq<TaskView>, balances: Map<u64, Bal>) -> bool {
    forall|a: u64| #[trigger] locked_sum(views, a) <= bal_of(balances, a).reserved as int
}

/// The task registry engine.
pub struct Pallet {
    config: Config,
    now: u64,
    next_task_id: u32,
    tasks: Table<Task>,
    rounds: Table<VerificationRound>,
    votes: Table<Vec<VoteRecord>>,
    ledger: Ledger,
}

impl Pallet {
    /// The deployment configuration.
    pub closed spec fn spec_config(self) -> Config {
        self.config
    }

    /// The externally supplied current time.
    pub closed spec fn spec_now(self) -> u64 {
        self.now
    }

    /// The id the next created task will get.
    pub closed spec fn spec_next_task_id(self) -> u32 {
        self.next_task_id
    }

    /// The task records by id.
    pub closed spec fn task_map(self) -> Map<u64, TaskView> {
        task_map_of(self.tasks)
    }

    /// The task records in storage order.
    pub closed spec fn task_views(self) -> Seq<TaskView> {
        task_views_of(self.tasks)
    }

    /// The live verification rounds by task id.
    pub closed spec fn round_map(self) -> Map<u64, VerificationRound> {
        self.rounds@
    }

    /// The recorded votes of each live round, by task id.
    pub closed spec fn vote_map(self) -> Map<u64, Seq<VoteRecord>> {
        vote_map_of(self.votes)
    }

    /// The escrow ledger's balances.
    pub closed spec fn balances(self) -> Map<u64, Bal> {
        self.ledger@
    }

    pub open spec fn free_of(self, a: u64) -> u128 {
        bal_of(self.balances(), a).free
    }

    pub open spec fn reserved_of(self, a: u64) -> u128 {
        bal_of(self.balances(), a).reserved
    }

    /// Rewards currently locked for the non-terminal tasks `a` created.
    pub open spec fn locked_of(self, a: u64) -> int {
        locked_sum(self.task_views(), a)
    }

    /// The engine's invariant: constructors establish it and every operation
    /// preserves it.  It ties the bounded, duplicate-free records to their
    /// configuration, makes a verification round exist exactly while its task
    /// is `PendingVerification` with tallies that match the recorded votes,
    /// and keeps every account's locked rewards covered by its reservations.
    pub closed spec fn wf(self) -> bool {
        &&& self.config.wf()
        &&& self.tasks.wf()
        &&& self.rounds.wf()
        &&& self.votes.wf()
        &&& self.ledger.wf()
        &&& tasks_ok_at(self.tasks.rows(), self.config, self.next_task_id)
        &&& rounds_ok_at(task_map_of(self.tasks), self.rounds@)
        &&& votes_ok_at(vote_map_of(self.votes), self.rounds@, task_map_of(self.tasks))
        &&& escrow_ok_at(task_views_of(self.tasks), self.ledger@)
    }

    /// A fresh engine at time zero with no tasks, ids starting at zero, and
    /// the given ledger of initial balances.
    pub fn new(config: Config, ledger: Ledger) -> (r: Self)
        requires
            config.wf(),
            ledger.wf(),
        ensures
            r.wf(),
            r.spec_config() == config,
            r.spec_now() == 0,
            r.spec_next_task_id() == 0,
            r.task_map() == Map::<u64, TaskView>::empty(),
            r.task_views() == Seq::<TaskView>::empty(),
            r.round_map() == Map::<u64, VerificationRound>::empty(),
            r.vote_map() == Map::<u64, Seq<VoteRecord>>::empty(),
            r.balances() == ledger@,
    {
        let r = Pallet {
            config,
            now: 0,
            next_task_id: 0,
            tasks: Table::new(),
            rounds: Table::new(),
            votes: Table::new(),
            ledger,
        };
        proof {
            assert(r.task_map() =~= Map::<u64, TaskView>::empty());
            assert(r.task_views() =~= Seq::<TaskView>::empty());
            assert(r.vote_map() =~= Map::<u64, Seq<VoteRecord>>::empty());
            assert forall|a: u64| #[trigger] locked_sum(task_views_of(r.tasks), a) <= bal_of(
                r.ledger@,
                a,
            ).reserved as int by {
                lemma_seq_sum_nonneg(task_views_of(r.tasks), locked_weight(a));
            }
        }
        r
    }

    /// Moves the engine's clock forward to `now`; time units are monotonic.
    pub fn advance_time(&mut self, now: u64)
        requires
            old(self).wf(),
            old(self).spec_now() <= now,
        ensures
            final(self).wf(),
            final(self).spec_now() == now,
            final(self).spec_config() == old(self).spec_config(),
            final(self).spec_next_task_id() == old(self).spec_next_task_id(),
            final(self).task_map() == old(self).task_map(),
            final(self).task_views() == old(self).task_views(),
            final(self).round_map() == old(self).round_map(),
            final(self).vote_map() == old(self).vote_map(),
            final(self).balances() == old(self).balances(),
    {
        self.now = now;
    }

    /// The current time, as last supplied from outside.
    pub fn current_timestamp(&self) -> (r: u64)
        ensures
            r == self.spec_now(),
    {
        self.now
    }

    /// The id the next created task will receive.
    pub fn next_task_id(&self) -> (r: u32)
        ensures
            r == self.spec_next_task_id(),
    {
        self.next_task_id
    }

    /// The account's spendable balance in the escrow ledger.
    pub fn free_balance(&self, account: u64) -> (r: u128)
        requires
            self.wf(),
        ensures
            r == self.free_of(account),
    {
        self.ledger.free_balance(account)
    }

    /// The account's reserved balance in the escrow ledger.
    pub fn reserved_balance(&self, account: u64) -> (r: u128)
        requires
            self.wf(),
        ensures
            r == self.reserved_of(account),
    {
        self.ledger.reserved_balance(account)
    }

    /// The task with the given id, if it exists.
    pub fn get_task(&self, task_id: u32) -> (r: Option<Task>)
        requires
            self.wf(),
        ensures
            match r {
                Some(t) => self.task_map().contains_key(task_id as u64) && t@
                    == self.task_map()[task_id as u64],
                None => !self.task_map().contains_key(task_id as u64),
            },
    {
        match self.tasks.get(task_id as u64) {
            Some(t) => Some(t.clone()),
            None => None,
        }
    }

    /// Looks a task up while proving what the lookup means for the views.
    fn read_task(&self, id: u64) -> (r: Option<&Task>)
        requires
            self.tasks.wf(),
            tasks_ok_at(self.tasks.rows(), self.spec_config(), self.spec_next_task_id()),
        ensures
            match r {
                Some(t) => self.task_map().contains_key(id) && t@ == self.task_map()[id]
                    && self.tasks@.contains_key(id) && *t == self.tasks@[id] && t.id as u64 == id
                    && task_valid(t@, self.spec_config()) && t.id
                    < self.spec_next_task_id(),
                None => !self.task_map().contains_key(id),
            },
    {
        let r = self.tasks.get(id);
        proof {
            if r is Some {
                crate::table::lemma_map_of_domain(self.tasks.rows());
                let i = choose|i: int|
                    0 <= i < self.tasks.rows().len() && (#[trigger] self.tasks.rows()[i]).0 == id;
                crate::table::lemma_map_of_index(self.tasks.rows(), i);
            }
        }
        r
    }

    /// Replaces the record of an existing task in place.
    ///
    /// Only the task table and no other field changes; the ensures spell out
    /// how the id-keyed view, the storage-ordered views and every weight sum
    /// move.
    fn put_task(&mut self, id: u64, task: Task)
        requires
            old(self).tasks.wf(),
            tasks_ok_at(old(self).tasks.rows(), old(self).spec_config(), old(self).spec_next_task_id()),
            old(self).task_map().contains_key(id),
            task.id as u64 == id,
            task_valid(task@, old(self).spec_config()),
        ensures
            final(self).tasks.wf(),
            final(self).task_map() == old(self).task_map().insert(id, task@),
            task_record_replaced(
                old(self).task_views(),
                final(self).task_views(),
                old(self).task_map()[id],
                task@,
            ),
            final(self).task_views().len() == old(self).task_views().len(),
            forall|f: spec_fn(TaskView) -> int| #[trigger]
                seq_sum(final(self).task_views(), f) == seq_sum(old(self).task_views(), f) - f(
                    old(self).task_map()[id],
                ) + f(task@),
            final(self).config == old(self).config,
            final(self).now == old(self).now,
            final(self).next_task_id == old(self).next_task_id,
            final(self).rounds == old(self).rounds,
            final(self).votes == old(self).votes,
            final(self).ledger == old(self).ledger,
            tasks_ok_at(final(self).tasks.rows(), final(self).spec_config(), final(self).spec_next_task_id()),
    {
        proof {
            crate::table::lemma_map_of_domain(self.tasks.rows());
        }
        let ghost rows0 = self.tasks.rows();
        let ghost views0 = self.task_views();
        self.tasks.insert(id, task);
        proof {
            let i = choose|i: int|
                0 <= i < rows0.len() && (#[trigger] rows0[i]).0 == id && self.tasks.rows()
                    == rows0.update(i, (id, task));
            crate::table::lemma_map_of_index(rows0, i);
            assert(old(self).task_map()[id] == rows0[i].1@);
            assert(self.task_views() =~= views0.update(i, task@));
            assert(views0[i] == rows0[i].1@);
            assert forall|f: spec_fn(TaskView) -> int| #[trigger]
                seq_sum(self.task_views(), f) == seq_sum(views0, f) - f(
                    old(self).task_map()[id],
                ) + f(task@) by {
                lemma_seq_sum_update(views0, i, task@, f);
                assert(views0[i] == rows0[i].1@);
            }
            assert(task_record_replaced(
                views0,
                self.task_views(),
                old(self).task_map()[id],
                task@,
            ));
            assert(self.task_map() =~= old(self).task_map().insert(id, task@));
            assert forall|j: int| 0 <= j < self.tasks.rows().len() implies {
                let (k, t) = #[trigger] self.tasks.rows()[j];
                &&& k == t.id as u64
                &&& task_valid(t@, self.config)
                &&& t.id < self.next_task_id
            } by {
                if j != i {
                    assert(self.tasks.rows()[j] == rows0[j]);
                } else {
                    assert(rows0[i].1.id as u64 == id);
                }
            }
        }
    }

    /// Appends a record for a task id the registry has never held.
    fn push_task(&mut self, task: Task)
        requires
            old(self).tasks.wf(),
            tasks_ok_at(old(self).tasks.rows(), old(self).spec_config(), old(self).spec_next_task_id()),
            !old(self).task_map().contains_key(task.id as u64),
            task_valid(task@, old(self).spec_config()),
            task.id < u32::MAX,
            task.id == old(self).spec_next_task_id(),
        ensures
            final(self).tasks.wf(),
            final(self).task_map() == old(self).task_map().insert(task.id as u64, task@),
            final(self).task_views() == old(self).task_views().push(task@),
            forall|f: spec_fn(TaskView) -> int| #[trigger]
                seq_sum(final(self).task_views(), f) == seq_sum(old(self).task_views(), f) + f(
                    task@,
                ),
            final(self).config == old(self).config,
            final(self).now == old(self).now,
            final(self).next_task_id == old(self).next_task_id + 1,
            final(self).rounds == old(self).rounds,
            final(self).votes == old(self).votes,
            final(self).ledger == old(self).ledger,
            tasks_ok_at(final(self).tasks.rows(), final(self).spec_config(), final(self).spec_next_task_id()),
    {
        let ghost rows0 = self.tasks.rows();
        let ghost views0 = self.task_views();
        let id = task.id;
        let ghost tv = task@;
        self.tasks.insert(id as u64, task);
        self.next_task_id = id + 1;
        proof {
            assert(self.tasks.rows() == rows0.push((id as u64, task)));
            assert(self.task_views() =~= views0.push(tv));
            assert forall|f: spec_fn(TaskView) -> int| #[trigger]
                seq_sum(self.task_views(), f) == seq_sum(views0, f) + f(tv) by {
                lemma_seq_sum_push(views0, tv, f);
            }
            assert(self.task_map() =~= old(self).task_map().insert(id as u64, tv));
            assert forall|j: int| 0 <= j < self.tasks.rows().len() implies {
                let (k, t) = #[trigger] self.tasks.rows()[j];
                &&& k == t.id as u64
                &&& task_valid(t@, self.config)
                &&& t.id < self.next_task_id
            } by {
                if j < rows0.len() {
                    assert(self.tasks.rows()[j] == rows0[j]);
                }
            }
        }
    }

    /// Removes a task's record.
    fn drop_task(&mut self, id: u64)
        requires
            old(self).tasks.wf(),
            tasks_ok_at(old(self).tasks.rows(), old(self).spec_config(), old(self).spec_next_task_id()),
            old(self).task_map().contains_key(id),
        ensures
            final(self).tasks.wf(),
            final(self).task_map() == old(self).task_map().remove(id),
            task_record_removed(
                old(self).task_views(),
                final(self).task_views(),
                old(self).task_map()[id],
            ),
            final(self).task_views().len() == old(self).task_views().len() - 1,
            forall|f: spec_fn(TaskView) -> int| #[trigger]
                seq_sum(final(self).task_views(), f) == seq_sum(old(self).task_views(), f) - f(
                    old(self).task_map()[id],
                ),
            final(self).config == old(self).config,
            final(self).now == old(self).now,
            final(self).next_task_id == old(self).next_task_id,
            final(self).rounds == old(self).rounds,
            final(self).votes == old(self).votes,
            final(self).ledger == old(self).ledger,
            tasks_ok_at(final(self).tasks.rows(), final(self).spec_config(), final(self).spec_next_task_id()),
    {
        proof {
            crate::table::lemma_map_of_domain(self.tasks.rows());
        }
        let ghost rows0 = self.tasks.rows();
        let ghost views0 = self.task_views();
        let _ = self.tasks.remove(id);
        proof {
            let i = choose|i: int|
                0 <= i < rows0.len() && (#[trigger] rows0[i]).0 == id && self.tasks.rows()
                    == rows0.update(i, rows0.last()).drop_last();
            crate::table::lemma_map_of_index(rows0, i);
            assert(old(self).task_map()[id] == rows0[i].1@);
            let n = rows0.len() - 1;
            assert(self.task_views() =~= views0.update(i, views0[n]).drop_last());
            assert forall|f: spec_fn(TaskView) -> int| #[trigger]
                seq_sum(self.task_views(), f) == seq_sum(views0, f) - f(
                    old(self).task_map()[id],
                ) by {
                lemma_seq_sum_update(views0, i, views0[n], f);
                assert(views0.update(i, views0[n]).drop_last() =~= self.task_views());
                assert(views0.update(i, views0[n]).last() == views0[n]);
                assert(seq_sum(views0.update(i, views0[n]), f) == seq_sum(
                    views0.update(i, views0[n]).drop_last(),
                    f,
                ) + f(views0[n]));
                assert(views0[i] == rows0[i].1@);
            }
            assert(self.task_map() =~= old(self).task_map().remove(id));
            assert(views0[i] == rows0[i].1@);
            assert(views0.last() == views0[n]);
            assert(task_record_removed(views0, self.task_views(), old(self).task_map()[id])) by {
                assert(self.task_views() == views0.update(i, views0.last()).drop_last());
            }
            assert forall|j: int| 0 <= j < self.tasks.rows().len() implies {
                let (k, t) = #[trigger] self.tasks.rows()[j];
                &&& k == t.id as u64
                &&& task_valid(t@, self.config)
                &&& t.id < self.next_task_id
            } by {
                let fr = self.tasks.rows();
                if j == i {
                    assert(fr[j] == rows0[n]);
                } else {
                    assert(fr[j] == rows0[j]);
                }
            }
        }
    }
}


/// The record a successful `create_task` stores.
pub open spec fn new_task_view(
    id: u32,
    creator: u64,
    title: Seq<u8>,
    description: Seq<u8>,
    priority: u8,
    difficulty: u8,
    reward: u128,
    now: u64,
    deadline: Option<u64>,
) -> TaskView {
    TaskView {
        id,
        creator,
        assignee: None,
        title,
        description,
        status: TaskStatus::Pending,
        priority,
        difficulty,
        reward,
        created_at: now,
        updated_at: now,
        deadline,
    }
}

/// Validation of `create_task`, in the order the checks are applied: the
/// first failing check names the error, and the call succeeds exactly when
/// none fails.
pub open spec fn create_check(
    s: Pallet,
    creator: u64,
    title: Seq<u8>,
    description: Seq<u8>,
    priority: u8,
    difficulty: u8,
    reward: u128,
    deadline: Option<u64>,
) -> Option<Error> {
    if reward == 0 {
        Some(Error::InvalidReward)
    } else if s.free_of(creator) < reward {
        Some(Error::InsufficientBalance)
    } else if priority < 1 || priority > 4 {
        Some(Error::InvalidPriority)
    } else if difficulty < 1 || difficulty > 10 {
        Some(Error::InvalidDifficulty)
    } else if deadline matches Some(d) && d <= s.spec_now() {
        Some(Error::TaskExpired)
    } else if title.len() > s.spec_config().max_title_length {
        Some(Error::TitleTooLong)
    } else if description.len() > s.spec_config().max_description_length {
        Some(Error::DescriptionTooLong)
    } else if s.spec_next_task_id() == u32::MAX || count_created(s.task_views(), creator)
        >= s.spec_config().max_tasks_per_user as int || count_status(
        s.task_views(),
        TaskStatus::Pending,
    ) >= s.spec_config().max_tasks_per_status as int || count_priority(s.task_views(), priority)
        >= s.spec_config().max_tasks_per_priority as int || (deadline matches Some(d)
        && count_deadline(s.task_views(), d) >= s.spec_config().max_tasks_per_deadline as int) {
        Some(Error::TooManyTasks)
    } else {
        None
    }
}

impl Pallet {
    /// How many stored tasks `a` created.
    fn count_created_by(&self, a: u64) -> (r: usize)
        requires
            self.tasks.wf(),
        ensures
            r as int == count_created(self.task_views(), a),
    {
        let ghost vs = self.task_views();
        let n = self.tasks.len();
        let mut cnt: usize = 0;
        let mut i: usize = 0;
        while i < n
            invariant
                n == self.tasks.rows().len(),
                vs == self.task_views(),
                i <= n,
                cnt <= i,
                cnt as int == count_created(vs.subrange(0, i as int), a),
            decreases n - i,
        {
            if self.tasks.row(i).1.creator == a {
                cnt = cnt + 1;
            }
            proof {
                let s2 = vs.subrange(0, i + 1 as int);
                assert(s2.drop_last() =~= vs.subrange(0, i as int));
                assert(s2.last() == vs[i as int]);
                assert(vs[i as int] == self.tasks.rows()[i as int].1@);
            }
            i = i + 1;
        }
        proof {
            assert(vs.subrange(0, n as int) =~= vs);
        }
        cnt
    }

    /// How many stored tasks are assigned to `a`.
    fn count_assigned_to(&self, a: u64) -> (r: usize)
        requires
            self.tasks.wf(),
        ensures
            r as int == count_assigned(self.task_views(), a),
    {
        let ghost vs = self.task_views();
        let n = self.tasks.len();
        let mut cnt: usize = 0;
        let mut i: usize = 0;
        while i < n
            invariant
                n == self.tasks.rows().len(),
                vs == self.task_views(),
                i <= n,
                cnt <= i,
                cnt as int == count_assigned(vs.subrange(0, i as int), a),
            decreases n - i,
        {
            if self.tasks.row(i).1.assignee == Some(a) {
                cnt = cnt + 1;
            }
            proof {
                let s2 = vs.subrange(0, i + 1 as int);
                assert(s2.drop_last() =~= vs.subrange(0, i as int));
                assert(s2.last() == vs[i as int]);
                assert(vs[i as int] == self.tasks.rows()[i as int].1@);
            }
            i = i + 1;
        }
        proof {
            assert(vs.subrange(0, n as int) =~= vs);
        }
        cnt
    }

    /// How many stored tasks hold status `st`.
    fn count_with_status(&self, st: TaskStatus) -> (r: usize)
        requires
            self.tasks.wf(),
        ensures
            r as int == count_status(self.task_views(), st),
    {
        let ghost vs = self.task_views();
        let n = self.tasks.len();
        let mut cnt: usize = 0;
        let mut i: usize = 0;
        while i < n
            invariant
                n == self.tasks.rows().len(),
                vs == self.task_views(),
                i <= n,
                cnt <= i,
                cnt as int == count_status(vs.subrange(0, i as int), st),
            decreases n - i,
        {
            if self.tasks.row(i).1.status == st {
                cnt = cnt + 1;
            }
            proof {
                let s2 = vs.subrange(0, i + 1 as int);
                assert(s2.drop_last() =~= vs.subrange(0, i as int));
                assert(s2.last() == vs[i as int]);
                assert(vs[i as int] == self.tasks.rows()[i as int].1@);
            }
            i = i + 1;
        }
        proof {
            assert(vs.subrange(0, n as int) =~= vs);
        }
        cnt
    }

    /// How many stored tasks hold priority `p`.
    fn count_with_priority(&self, p: u8) -> (r: usize)
        requires
            self.tasks.wf(),
        ensures
            r as int == count_priority(self.task_views(), p),
    {
        let ghost vs = self.task_views();
        let n = self.tasks.len();
        let mut cnt: usize = 0;
        let mut i: usize = 0;
        while i < n
            invariant
                n == self.tasks.rows().len(),
                vs == self.task_views(),
                i <= n,
                cnt <= i,
                cnt as int == count_priority(vs.subrange(0, i as int), p),
            decreases n - i,
        {
            if self.tasks.row(i).1.priority == p {
                cnt = cnt + 1;
            }
            proof {
                let s2 = vs.subrange(0, i + 1 as int);
                assert(s2.drop_last() =~= vs.subrange(0, i as int));
                assert(s2.last() == vs[i as int]);
                assert(vs[i as int] == self.tasks.rows()[i as int].1@);
            }
            i = i + 1;
        }
        proof {
            assert(vs.subrange(0, n as int) =~= vs);
        }
        cnt
    }

    /// How many stored tasks fall due exactly at `d`.
    fn count_with_deadline(&self, d: u64) -> (r: usize)
        requires
            self.tasks.wf(),
        ensures
            r as int == count_deadline(self.task_views(), d),
    {
        let ghost vs = self.task_views();
        let n = self.tasks.len();
        let mut cnt: usize = 0;
        let mut i: usize = 0;
        while i < n
            invariant
                n == self.tasks.rows().len(),
                vs == self.task_views(),
                i <= n,
                cnt <= i,
                cnt as int == count_deadline(vs.subrange(0, i as int), d),
            decreases n - i,
        {
            if self.tasks.row(i).1.deadline == Some(d) {
                cnt = cnt + 1;
            }
            proof {
                let s2 = vs.subrange(0, i + 1 as int);
                assert(s2.drop_last() =~= vs.subrange(0, i as int));
                assert(s2.last() == vs[i as int]);
                assert(vs[i as int] == self.tasks.rows()[i as int].1@);
            }
            i = i + 1;
        }
        proof {
            assert(vs.subrange(0, n as int) =~= vs);
        }
        cnt
    }

    /// Creates a task: validates every bound, reserves the reward from the
    /// creator's spendable balance, and stores the record under the next id
    /// with status `Pending`, no assignee, and equal creation and update
    /// moments.
    pub fn create_task(
        &mut self,
        creator: u64,
        title: Vec<u8>,
        description: Vec<u8>,
        priority: u8,
        difficulty: u8,
        reward: u128,
        deadline: Option<u64>,
    ) -> (r: Result<u32, Error>)
        requires
            old(self).wf(),
        ensures
            final(self).wf(),
            final(self).spec_config() == old(self).spec_config(),
            final(self).spec_now() == old(self).spec_now(),
            match r {
                Ok(id) => {
                    &&& create_check(
                        *old(self),
                        creator,
                        title@,
                        description@,
                        priority,
                        difficulty,
                        reward,
                        deadline,
                    ) is None
                    &&& id == old(self).spec_next_task_id()
                    &&& !old(self).task_map().contains_key(id as u64)
                    &&& final(self).spec_next_task_id() == id + 1
                    &&& final(self).task_map() == old(self).task_map().insert(
                        id as u64,
                        new_task_view(
                            id,
                            creator,
                            title@,
                            description@,
                            priority,
                            difficulty,
                            reward,
                            old(self).spec_now(),
                            deadline,
                        ),
                    )
                    &&& final(self).task_views() == old(self).task_views().push(
                        new_task_view(
                            id,
                            creator,
                            title@,
                            description@,
                            priority,
                            difficulty,
                            reward,
                            old(self).spec_now(),
                            deadline,
                        ),
                    )
                    &&& final(self).balances() == reserve_effect(
                        old(self).balances(),
                        creator,
                        reward,
                    )
                    &&& final(self).round_map() == old(self).round_map()
                    &&& final(self).vote_map() == old(self).vote_map()
                },
                Err(e) => {
                    &&& create_check(
                        *old(self),
                        creator,
                        title@,
                        description@,
                        priority,
                        difficulty,
                        reward,
                        deadline,
                    ) == Some(e)
                    &&& *final(self) == *old(self)
                },
            },
    {
        if reward == 0 {
            return Err(Error::InvalidReward);
        }
        if !self.ledger.can_reserve(creator, reward) {
            return Err(Error::InsufficientBalance);
        }
        if priority < 1 || priority > 4 {
            return Err(Error::InvalidPriority);
        }
        if difficulty < 1 || difficulty > 10 {
            return Err(Error::InvalidDifficulty);
        }
        if let Some(d) = deadline {
            if d <= self.now {
                return Err(Error::TaskExpired);
            }
        }
        if title.len() > self.config.max_title_length {
            return Err(Error::TitleTooLong);
        }
        if description.len() > self.config.max_description_length {
            return Err(Error::DescriptionTooLong);
        }
        if self.next_task_id == u32::MAX {
            return Err(Error::TooManyTasks);
        }
        if self.count_created_by(creator) >= self.config.max_tasks_per_user {
            return Err(Error::TooManyTasks);
        }
        if self.count_with_status(TaskStatus::Pending) >= self.config.max_tasks_per_status {
            return Err(Error::TooManyTasks);
        }
        if self.count_with_priority(priority) >= self.config.max_tasks_per_priority {
            return Err(Error::TooManyTasks);
        }
        if let Some(d) = deadline {
            if self.count_with_deadline(d) >= self.config.max_tasks_per_deadline {
                return Err(Error::TooManyTasks);
            }
        }
        let id = self.next_task_id;
        match self.ledger.reserve(creator, reward) {
            Ok(()) => {},
            Err(_) => {
                return unreached();
            },
        }
        let ghost mid = *self;
        let task = Task::new(
            id,
            creator,
            title,
            description,
            priority,
            difficulty,
            reward,
            self.now,
            deadline,
        );
        proof {
            if mid.task_map().contains_key(id as u64) {
                crate::table::lemma_map_of_domain(mid.tasks.rows());
                let i = choose|i: int|
                    0 <= i < mid.tasks.rows().len() && (#[trigger] mid.tasks.rows()[i]).0
                        == id as u64;
                assert(mid.tasks.rows()[i].1.id < mid.next_task_id);
                assert(false);
            }
        }
        let ghost tv = task@;
        self.push_task(task);
        proof {
            let pre = *old(self);
            let post = *self;
            assert(post.task_map() =~= pre.task_map().insert(id as u64, tv));
            assert(post.task_views() =~= pre.task_views().push(tv));
            assert forall|id2: u64| #[trigger]
                post.rounds@.contains_key(id2) implies task_map_of(post.tasks).contains_key(id2)
                && task_map_of(post.tasks)[id2].status == TaskStatus::PendingVerification by {
                assert(pre.rounds@.contains_key(id2));
                assert(task_map_of(pre.tasks).contains_key(id2));
            }
            assert forall|id2: u64| #[trigger]
                task_map_of(post.tasks).contains_key(id2) && task_map_of(post.tasks)[id2].status
                == TaskStatus::PendingVerification implies post.rounds@.contains_key(id2) by {
                if id2 != id as u64 {
                    assert(task_map_of(pre.tasks).contains_key(id2));
                }
            }
            assert forall|id2: u64| #[trigger]
                post.rounds@.contains_key(id2) implies vote_map_of(post.votes).contains_key(id2)
                && task_map_of(post.tasks).contains_key(id2) && votes_valid(
                vote_map_of(post.votes)[id2],
                post.rounds@[id2],
                task_map_of(post.tasks)[id2],
            ) by {
                assert(pre.rounds@.contains_key(id2));
                assert(task_map_of(pre.tasks).contains_key(id2));
                assert(task_map_of(post.tasks)[id2] == task_map_of(pre.tasks)[id2]);
            }
            assert forall|a: u64| #[trigger] locked_sum(task_views_of(post.tasks), a) <= bal_of(
                post.ledger@,
                a,
            ).reserved as int by {
                assert(mid.tasks == pre.tasks);
                assert(seq_sum(post.task_views(), locked_weight(a)) == seq_sum(
                    mid.task_views(),
                    locked_weight(a),
                ) + locked_weight(a)(tv));
                assert(mid.task_views() == pre.task_views());
                assert(locked_sum(pre.task_views(), a) <= bal_of(pre.ledger@, a).reserved as int);
                pre.ledger.lemma_wf_bound(creator);
                assert(post.ledger@ == reserve_effect(pre.ledger@, creator, reward));
                assert(bal_of(post.ledger@, creator).reserved == bal_of(
                    pre.ledger@,
                    creator,
                ).reserved + reward);
                if a != creator {
                    assert(bal_of(post.ledger@, a) == bal_of(pre.ledger@, a));
                    assert(locked_weight(a)(tv) == 0);
                }
            }
            assert(post.wf());
        }
        Ok(id)
    }
}


/// The moment a verification window closes when it opens at `now`: one
/// period later, saturating at the largest moment.
pub open spec fn end_time_of(now: u64, period: u64) -> u64 {
    if now + period > u64::MAX {
        u64::MAX
    } else {
        (now + period) as u64
    }
}

impl Pallet {
    /// A live task's reward is covered by its creator's reserved balance:
    /// the single contribution is below the locked sum, which escrow
    /// conservation bounds by the reservation.
    pub proof fn lemma_task_reward_covered(self, id: u64)
        requires
            self.wf(),
            self.task_map().contains_key(id),
            !is_terminal(self.task_map()[id].status),
        ensures
            self.task_map()[id].reward <= self.reserved_of(self.task_map()[id].creator),
    {
        let tv = self.task_map()[id];
        let creator = tv.creator;
        let rows = self.tasks.rows();
        let views = task_views_of(self.tasks);
        crate::table::lemma_map_of_domain(rows);
        let i = choose|i: int| 0 <= i < rows.len() && (#[trigger] rows[i]).0 == id;
        crate::table::lemma_map_of_index(rows, i);
        assert(views[i] == tv);
        assert forall|t: TaskView| #[trigger] locked_weight(creator)(t) >= 0 by {
            assert(locked_weight(creator)(t) == locked_contrib(t, creator));
        }
        lemma_seq_sum_elem_bound(views, i, locked_weight(creator));
        assert(locked_weight(creator)(views[i]) == tv.reward as int);
        assert(locked_sum(views, creator) <= bal_of(self.ledger@, creator).reserved as int);
    }

    /// Replacing one task's record in place keeps the engine well formed,
    /// provided nothing else changed, the new record stays valid, it is
    /// awaiting verification exactly when the old one was (with the same
    /// creator and assignee in that case), and no account's locked
    /// contribution grows.
    proof fn lemma_wf_after_put(pre: Pallet, post: Pallet, id: u64, tv_new: TaskView)
        requires
            pre.wf(),
            pre.task_map().contains_key(id),
            post.config == pre.config,
            post.next_task_id == pre.next_task_id,
            post.rounds == pre.rounds,
            post.votes == pre.votes,
            post.ledger == pre.ledger,
            post.tasks.wf(),
            tasks_ok_at(post.tasks.rows(), post.config, post.next_task_id),
            post.task_map() == pre.task_map().insert(id, tv_new),
            forall|f: spec_fn(TaskView) -> int| #[trigger]
                seq_sum(post.task_views(), f) == seq_sum(pre.task_views(), f) - f(
                    pre.task_map()[id],
                ) + f(tv_new),
            (tv_new.status == TaskStatus::PendingVerification) == (pre.task_map()[id].status
                == TaskStatus::PendingVerification),
            pre.task_map()[id].status == TaskStatus::PendingVerification ==> tv_new.creator
                == pre.task_map()[id].creator && tv_new.assignee == pre.task_map()[id].assignee,
            forall|a: u64| #[trigger] locked_contrib(tv_new, a) <= locked_contrib(
                pre.task_map()[id],
                a,
            ),
        ensures
            post.wf(),
    {
        let tv_old = pre.task_map()[id];
        let tm0 = task_map_of(pre.tasks);
        let tm1 = task_map_of(post.tasks);
        let rm = post.rounds@;
        let vm = vote_map_of(post.votes);
        assert forall|id2: u64| #[trigger] rm.contains_key(id2) implies tm1.contains_key(id2)
            && tm1[id2].status == TaskStatus::PendingVerification by {
            assert(pre.rounds@.contains_key(id2));
            if id2 == id {
                assert(tm0[id].status == TaskStatus::PendingVerification);
            }
        }
        assert forall|id2: u64| #[trigger]
            tm1.contains_key(id2) && tm1[id2].status
            == TaskStatus::PendingVerification implies rm.contains_key(id2) by {
            if id2 == id {
                assert(tm0.contains_key(id) && tm0[id].status
                    == TaskStatus::PendingVerification);
            } else {
                assert(tm0.contains_key(id2));
            }
        }
        assert forall|id2: u64| #[trigger] rm.contains_key(id2) implies vm.contains_key(id2)
            && tm1.contains_key(id2) && votes_valid(vm[id2], rm[id2], tm1[id2]) by {
            assert(pre.rounds@.contains_key(id2));
            assert(votes_valid(vm[id2], rm[id2], tm0[id2]));
            if id2 == id {
                let vs = vm[id];
                assert forall|i: int| 0 <= i < vs.len() implies (#[trigger] vs[i]).voter
                    != tv_new.creator && tv_new.assignee != Some(vs[i].voter) by {
                    assert(vs[i].voter != tm0[id].creator && tm0[id].assignee != Some(
                        vs[i].voter,
                    ));
                }
            }
        }
        assert forall|a: u64| #[trigger] locked_sum(task_views_of(post.tasks), a) <= bal_of(
            post.ledger@,
            a,
        ).reserved as int by {
            assert(seq_sum(post.task_views(), locked_weight(a)) == seq_sum(
                pre.task_views(),
                locked_weight(a),
            ) - locked_weight(a)(tv_old) + locked_weight(a)(tv_new));
            assert(locked_weight(a)(tv_old) == locked_contrib(tv_old, a));
            assert(locked_weight(a)(tv_new) == locked_contrib(tv_new, a));
            assert(locked_contrib(tv_new, a) <= locked_contrib(tv_old, a));
            assert(locked_sum(pre.task_views(), a) <= bal_of(pre.ledger@, a).reserved as int);
        }
    }
}

/// Validation of `assign_task`, in the order the checks are applied.
pub open spec fn assign_check(s: Pallet, caller: u64, task_id: u32, assignee: u64) -> Option<
    Error,
> {
    let id = task_id as u64;
    if !s.task_map().contains_key(id) {
        Some(Error::TaskNotFound)
    } else if s.task_map()[id].creator != caller {
        Some(Error::NotAuthorized)
    } else if expired_at(s.task_map()[id], s.spec_now()) {
        Some(Error::TaskExpired)
    } else if s.task_map()[id].status != TaskStatus::Pending {
        Some(Error::InvalidStatusTransition)
    } else if s.task_map()[id].assignee is Some {
        Some(Error::TaskAlreadyAssigned)
    } else if s.task_map()[id].creator == assignee {
        Some(Error::CannotAssignToSelf)
    } else if count_assigned(s.task_views(), assignee) >= s.spec_config().max_tasks_per_user
        as int {
        Some(Error::TooManyTasks)
    } else {
        None
    }
}

/// Validation of `unassign_task`, in the order the checks are applied.  A
/// task under adjudication or in a terminal state cannot fall back to
/// `Pending`, so unassigning it is an illegal transition.
pub open spec fn unassign_check(s: Pallet, caller: u64, task_id: u32) -> Option<Error> {
    let id = task_id as u64;
    if !s.task_map().contains_key(id) {
        Some(Error::TaskNotFound)
    } else if s.task_map()[id].creator != caller {
        Some(Error::NotAuthorized)
    } else if s.task_map()[id].assignee is None {
        Some(Error::TaskNotAssigned)
    } else if s.task_map()[id].status != TaskStatus::Pending && s.task_map()[id].status
        != TaskStatus::InProgress {
        Some(Error::InvalidStatusTransition)
    } else {
        None
    }
}

impl Pallet {
    /// Assigns a pending, unexpired, unassigned task to `assignee`; only the
    /// creator may assign, and never to themselves.
    pub fn assign_task(&mut self, caller: u64, task_id: u32, assignee: u64) -> (r: Result<
        (),
        Error,
    >)
        requires
            old(self).wf(),
        ensures
            final(self).wf(),
            final(self).spec_config() == old(self).spec_config(),
            final(self).spec_now() == old(self).spec_now(),
            final(self).spec_next_task_id() == old(self).spec_next_task_id(),
            final(self).round_map() == old(self).round_map(),
            final(self).vote_map() == old(self).vote_map(),
            final(self).balances() == old(self).balances(),
            match r {
                Ok(()) => {
                    &&& assign_check(*old(self), caller, task_id, assignee) is None
                    &&& final(self).task_map() == old(self).task_map().insert(
                        task_id as u64,
                        TaskView {
                            assignee: Some(assignee),
                            updated_at: old(self).spec_now(),
                            ..old(self).task_map()[task_id as u64]
                        },
                    )
                    &&& task_record_replaced(
                        old(self).task_views(),
                        final(self).task_views(),
                        old(self).task_map()[task_id as u64],
                        final(self).task_map()[task_id as u64],
                    )
                },
                Err(e) => {
                    &&& assign_check(*old(self), caller, task_id, assignee) == Some(e)
                    &&& *final(self) == *old(self)
                },
            },
    {
        let id = task_id as u64;
        let nt = match self.read_task(id) {
            None => {
                return Err(Error::TaskNotFound);
            },
            Some(t) => {
                if t.creator != caller {
                    return Err(Error::NotAuthorized);
                }
                if t.is_expired(self.now) {
                    return Err(Error::TaskExpired);
                }
                if t.status != TaskStatus::Pending {
                    return Err(Error::InvalidStatusTransition);
                }
                if t.assignee.is_some() {
                    return Err(Error::TaskAlreadyAssigned);
                }
                if t.creator == assignee {
                    return Err(Error::CannotAssignToSelf);
                }
                let mut nt = t.clone();
                nt.assignee = Some(assignee);
                nt.updated_at = self.now;
                nt
            },
        };
        if self.count_assigned_to(assignee) >= self.config.max_tasks_per_user {
            return Err(Error::TooManyTasks);
        }
        let ghost tv_new = nt@;
        self.put_task(id, nt);
        proof {
            Self::lemma_wf_after_put(*old(self), *self, id, tv_new);
        }
        Ok(())
    }

    /// Clears the assignee of a task that is not terminal and not under
    /// adjudication, resetting its status to `Pending`; only the creator may
    /// unassign.
    pub fn unassign_task(&mut self, caller: u64, task_id: u32) -> (r: Result<(), Error>)
        requires
            old(self).wf(),
        ensures
            final(self).wf(),
            final(self).spec_config() == old(self).spec_config(),
            final(self).spec_now() == old(self).spec_now(),
            final(self).spec_next_task_id() == old(self).spec_next_task_id(),
            final(self).round_map() == old(self).round_map(),
            final(self).vote_map() == old(self).vote_map(),
            final(self).balances() == old(self).balances(),
            match r {
                Ok(()) => {
                    &&& unassign_check(*old(self), caller, task_id) is None
                    &&& final(self).task_map() == old(self).task_map().insert(
                        task_id as u64,
                        TaskView {
                            assignee: None,
                            status: TaskStatus::Pending,
                            updated_at: old(self).spec_now(),
                            ..old(self).task_map()[task_id as u64]
                        },
                    )
                    &&& task_record_replaced(
                        old(self).task_views(),
                        final(self).task_views(),
                        old(self).task_map()[task_id as u64],
                        final(self).task_map()[task_id as u64],
                    )
                },
                Err(e) => {
                    &&& unassign_check(*old(self), caller, task_id) == Some(e)
                    &&& *final(self) == *old(self)
                },
            },
    {
        let id = task_id as u64;
        let nt = match self.read_task(id) {
            None => {
                return Err(Error::TaskNotFound);
            },
            Some(t) => {
                if t.creator != caller {
                    return Err(Error::NotAuthorized);
                }
                if t.assignee.is_none() {
                    return Err(Error::TaskNotAssigned);
                }
                if t.status != TaskStatus::Pending && t.status != TaskStatus::InProgress {
                    return Err(Error::InvalidStatusTransition);
                }
                let mut nt = t.clone();
                nt.assignee = None;
                nt.status = TaskStatus::Pending;
                nt.updated_at = self.now;
                nt
            },
        };
        let ghost tv_new = nt@;
        self.put_task(id, nt);
        proof {
            Self::lemma_wf_after_put(*old(self), *self, id, tv_new);
        }
        Ok(())
    }
}


/// Validation of `change_task_status`, in the order the checks are applied.
/// The transition table decides legality; a same-state change is a no-op.
/// Moving into a status whose bucket is full is refused, and completing a
/// task whose settlement cannot credit the assignee fails without effect.
pub open spec fn change_status_check(
    s: Pallet,
    caller: u64,
    task_id: u32,
    new_status: TaskStatus,
) -> Option<Error> {
    let id = task_id as u64;
    if !s.task_map().contains_key(id) {
        Some(Error::TaskNotFound)
    } else {
        let t = s.task_map()[id];
        if t.creator != caller && t.assignee != Some(caller) {
            Some(Error::NotAuthorized)
        } else if !transition_allowed(t.status, new_status) {
            Some(Error::InvalidStatusTransition)
        } else if new_status != t.status && count_status(s.task_views(), new_status)
            >= s.spec_config().max_tasks_per_status as int {
            Some(Error::TooManyTasks)
        } else if new_status == TaskStatus::Completed && t.status != TaskStatus::Completed && (
        t.assignee matches Some(b) && s.free_of(b) + s.reserved_of(b) + t.reward > u128::MAX) {
            Some(Error::RewardTransferFailed)
        } else {
            None
        }
    }
}

impl Pallet {
    /// Entering `PendingVerification` opens a fresh round for the task and
    /// keeps the records coherent.
    proof fn lemma_coherence_enter_pv(
        pre: Pallet,
        post: Pallet,
        id: u64,
        tv_new: TaskView,
        round: VerificationRound,
    )
        requires
            pre.wf(),
            pre.task_map().contains_key(id),
            pre.task_map()[id].status != TaskStatus::PendingVerification,
            tv_new.status == TaskStatus::PendingVerification,
            round.approve_votes == 0,
            round.reject_votes == 0,
            task_map_of(post.tasks) == task_map_of(pre.tasks).insert(id, tv_new),
            post.rounds@ == pre.rounds@.insert(id, round),
            vote_map_of(post.votes) == vote_map_of(pre.votes).insert(id, Seq::<VoteRecord>::empty()),
        ensures
            rounds_ok_at(task_map_of(post.tasks), post.rounds@),
            votes_ok_at(vote_map_of(post.votes), post.rounds@, task_map_of(post.tasks)),
    {
        let tm0 = task_map_of(pre.tasks);
        let tm1 = task_map_of(post.tasks);
        let rm0 = pre.rounds@;
        let rm1 = post.rounds@;
        let vm0 = vote_map_of(pre.votes);
        let vm1 = vote_map_of(post.votes);
        assert forall|id2: u64| #[trigger] rm1.contains_key(id2) implies tm1.contains_key(id2)
            && tm1[id2].status == TaskStatus::PendingVerification by {
            if id2 != id {
                assert(rm0.contains_key(id2));
            }
        }
        assert forall|id2: u64| #[trigger]
            tm1.contains_key(id2) && tm1[id2].status
            == TaskStatus::PendingVerification implies rm1.contains_key(id2) by {
            if id2 != id {
                assert(tm0.contains_key(id2));
            }
        }
        assert forall|id2: u64| #[trigger] vm1.contains_key(id2) implies rm1.contains_key(
            id2,
        ) by {
            if id2 != id {
                assert(vm0.contains_key(id2));
            }
        }
        assert forall|id2: u64| #[trigger] rm1.contains_key(id2) implies vm1.contains_key(id2)
            && tm1.contains_key(id2) && votes_valid(vm1[id2], rm1[id2], tm1[id2]) by {
            if id2 == id {
                let vs = Seq::<VoteRecord>::empty();
                assert(seq_sum(vs, approve_weight()) == 0);
                assert(seq_sum(vs, reject_weight()) == 0);
                assert(votes_valid(vs, round, tv_new));
            } else {
                assert(rm0.contains_key(id2));
                assert(votes_valid(vm0[id2], rm0[id2], tm0[id2]));
            }
        }
    }

    /// Leaving `PendingVerification` clears the task's round and votes and
    /// keeps the records coherent.
    proof fn lemma_coherence_exit_pv(pre: Pallet, post: Pallet, id: u64, tv_new: TaskView)
        requires
            pre.wf(),
            pre.task_map().contains_key(id),
            tv_new.status != TaskStatus::PendingVerification,
            task_map_of(post.tasks) == task_map_of(pre.tasks).insert(id, tv_new),
            post.rounds@ == pre.rounds@.remove(id),
            vote_map_of(post.votes) == vote_map_of(pre.votes).remove(id),
        ensures
            rounds_ok_at(task_map_of(post.tasks), post.rounds@),
            votes_ok_at(vote_map_of(post.votes), post.rounds@, task_map_of(post.tasks)),
    {
        let tm0 = task_map_of(pre.tasks);
        let tm1 = task_map_of(post.tasks);
        let rm0 = pre.rounds@;
        let rm1 = post.rounds@;
        let vm0 = vote_map_of(pre.votes);
        let vm1 = vote_map_of(post.votes);
        assert forall|id2: u64| #[trigger] rm1.contains_key(id2) implies tm1.contains_key(id2)
            && tm1[id2].status == TaskStatus::PendingVerification by {
            assert(rm0.contains_key(id2));
        }
        assert forall|id2: u64| #[trigger]
            tm1.contains_key(id2) && tm1[id2].status
            == TaskStatus::PendingVerification implies rm1.contains_key(id2) by {
            assert(id2 != id);
            assert(tm0.contains_key(id2));
        }
        assert forall|id2: u64| #[trigger] vm1.contains_key(id2) implies rm1.contains_key(
            id2,
        ) by {
            assert(vm0.contains_key(id2));
        }
        assert forall|id2: u64| #[trigger] rm1.contains_key(id2) implies vm1.contains_key(id2)
            && tm1.contains_key(id2) && votes_valid(vm1[id2], rm1[id2], tm1[id2]) by {
            assert(rm0.contains_key(id2));
            assert(votes_valid(vm0[id2], rm0[id2], tm0[id2]));
            assert(id2 != id);
        }
    }

    /// Applies a legal status change: a same-state change only refreshes the
    /// update moment; entering `PendingVerification` opens a verification
    /// round over the configured period; entering `Completed` settles the
    /// reward to the assignee when there is one; entering `Cancelled`
    /// releases the reservation to the creator; and leaving
    /// `PendingVerification` clears the round and its votes.
    pub fn change_task_status(&mut self, caller: u64, task_id: u32, new_status: TaskStatus) -> (r:
        Result<(), Error>)
        requires
            old(self).wf(),
        ensures
            final(self).wf(),
            final(self).spec_config() == old(self).spec_config(),
            final(self).spec_now() == old(self).spec_now(),
            final(self).spec_next_task_id() == old(self).spec_next_task_id(),
            match r {
                Ok(()) => {
                    let id = task_id as u64;
                    let tv_old = old(self).task_map()[id];
                    let tv_new = TaskView {
                        status: new_status,
                        updated_at: old(self).spec_now(),
                        ..tv_old
                    };
                    &&& change_status_check(*old(self), caller, task_id, new_status) is None
                    &&& final(self).task_map() == old(self).task_map().insert(id, tv_new)
                    &&& task_record_replaced(
                        old(self).task_views(),
                        final(self).task_views(),
                        tv_old,
                        tv_new,
                    )
                    &&& final(self).round_map() == if new_status != tv_old.status && new_status
                        == TaskStatus::PendingVerification {
                        old(self).round_map().insert(
                            id,
                            VerificationRound {
                                end_time: end_time_of(
                                    old(self).spec_now(),
                                    old(self).spec_config().verification_period,
                                ),
                                approve_votes: 0,
                                reject_votes: 0,
                            },
                        )
                    } else if new_status != tv_old.status && tv_old.status
                        == TaskStatus::PendingVerification {
                        old(self).round_map().remove(id)
                    } else {
                        old(self).round_map()
                    }
                    &&& final(self).vote_map() == if new_status != tv_old.status && new_status
                        == TaskStatus::PendingVerification {
                        old(self).vote_map().insert(id, Seq::<VoteRecord>::empty())
                    } else if new_status != tv_old.status && tv_old.status
                        == TaskStatus::PendingVerification {
                        old(self).vote_map().remove(id)
                    } else {
                        old(self).vote_map()
                    }
                    &&& final(self).balances() == if new_status != tv_old.status && new_status
                        == TaskStatus::Completed {
                        match tv_old.assignee {
                            Some(b) => settle_effect(
                                old(self).balances(),
                                tv_old.creator,
                                b,
                                tv_old.reward,
                            ),
                            None => old(self).balances(),
                        }
                    } else if new_status != tv_old.status && new_status == TaskStatus::Cancelled {
                        unreserve_effect(old(self).balances(), tv_old.creator, tv_old.reward)
                    } else {
                        old(self).balances()
                    }
                    &&& (new_status != tv_old.status && new_status == TaskStatus::Cancelled
                        ==> released_amount(old(self).balances(), tv_old.creator, tv_old.reward)
                        == tv_old.reward)
                },
                Err(e) => {
                    &&& change_status_check(*old(self), caller, task_id, new_status) == Some(e)
                    &&& *final(self) == *old(self)
                },
            },
    {
        let id = task_id as u64;
        let nt = match self.read_task(id) {
            None => {
                return Err(Error::TaskNotFound);
            },
            Some(t) => {
                if t.creator != caller && t.assignee != Some(caller) {
                    return Err(Error::NotAuthorized);
                }
                if crate::lifecycle::validate_status_transition(t.status, new_status).is_err() {
                    return Err(Error::InvalidStatusTransition);
                }
                let mut nt = t.clone();
                nt.status = new_status;
                nt.updated_at = self.now;
                nt
            },
        };
        let ghost tv_old = old(self).task_map()[id];
        let ghost tv_new = nt@;
        let old_status = match self.read_task(id) {
            Some(t) => t.status,
            None => {
                return unreached();
            },
        };
        if new_status == old_status {
            self.put_task(id, nt);
            proof {
                Self::lemma_wf_after_put(*old(self), *self, id, tv_new);
            }
            return Ok(());
        }
        if self.count_with_status(new_status) >= self.config.max_tasks_per_status {
            return Err(Error::TooManyTasks);
        }
        let creator = nt.creator;
        let reward = nt.reward;
        // Settlement or release comes first: it is the only fallible effect,
        // and a failing operation must leave no trace.
        if new_status == TaskStatus::Completed {
            if let Some(b) = nt.assignee {
                proof {
                    self.lemma_task_reward_covered(id);
                }
                match self.ledger.settle(creator, b, reward) {
                    Ok(()) => {},
                    Err(e) => {
                        return Err(e);
                    },
                }
            }
        } else if new_status == TaskStatus::Cancelled {
            proof {
                self.lemma_task_reward_covered(id);
            }
            let released = self.ledger.unreserve(creator, reward);
            proof {
                assert(released == reward);
            }
        }
        let ghost mid1 = *self;
        // Round bookkeeping: a round exists exactly while the task awaits
        // verification.
        if new_status == TaskStatus::PendingVerification {
            let end_time = if self.config.verification_period > u64::MAX - self.now {
                u64::MAX
            } else {
                self.now + self.config.verification_period
            };
            self.rounds.insert(
                id,
                VerificationRound { end_time, approve_votes: 0, reject_votes: 0 },
            );
            self.votes.insert(id, Vec::new());
            proof {
                assert(vote_map_of(self.votes) =~= vote_map_of(mid1.votes).insert(
                    id,
                    Seq::<VoteRecord>::empty(),
                ));
            }
        } else if old_status == TaskStatus::PendingVerification {
            let _ = self.rounds.remove(id);
            let _ = self.votes.remove(id);
            proof {
                assert(vote_map_of(self.votes) =~= vote_map_of(mid1.votes).remove(id));
            }
        }
        let ghost mid2 = *self;
        self.put_task(id, nt);
        proof {
            let pre = *old(self);
            let post = *self;
            assert(task_map_of(post.tasks) == task_map_of(pre.tasks).insert(id, tv_new));
            if new_status == TaskStatus::PendingVerification {
                let round = VerificationRound {
                    end_time: end_time_of(pre.spec_now(), pre.spec_config().verification_period),
                    approve_votes: 0,
                    reject_votes: 0,
                };
                assert(post.rounds@ == pre.rounds@.insert(id, round));
                Self::lemma_coherence_enter_pv(pre, post, id, tv_new, round);
            } else if old_status == TaskStatus::PendingVerification {
                Self::lemma_coherence_exit_pv(pre, post, id, tv_new);
            } else {
                assert(post.rounds@ == pre.rounds@);
                assert(vote_map_of(post.votes) == vote_map_of(pre.votes));
                let tm0 = task_map_of(pre.tasks);
                let tm1 = task_map_of(post.tasks);
                let rm = post.rounds@;
                let vm = vote_map_of(post.votes);
                assert forall|id2: u64| #[trigger] rm.contains_key(id2) implies tm1.contains_key(
                    id2,
                ) && tm1[id2].status == TaskStatus::PendingVerification by {
                    assert(pre.rounds@.contains_key(id2));
                    assert(id2 != id);
                }
                assert forall|id2: u64| #[trigger]
                    tm1.contains_key(id2) && tm1[id2].status
                    == TaskStatus::PendingVerification implies rm.contains_key(id2) by {
                    assert(id2 != id);
                    assert(tm0.contains_key(id2));
                }
                assert forall|id2: u64| #[trigger] rm.contains_key(id2) implies vm.contains_key(
                    id2,
                ) && tm1.contains_key(id2) && votes_valid(vm[id2], rm[id2], tm1[id2]) by {
                    assert(pre.rounds@.contains_key(id2));
                    assert(votes_valid(vm[id2], rm[id2], tm0[id2]));
                    assert(id2 != id);
                }
            }
            // Escrow conservation across the possible ledger effects.
            assert forall|a: u64| #[trigger] locked_sum(task_views_of(post.tasks), a) <= bal_of(
                post.ledger@,
                a,
            ).reserved as int by {
                assert(seq_sum(post.task_views(), locked_weight(a)) == seq_sum(
                    mid2.task_views(),
                    locked_weight(a),
                ) - locked_weight(a)(tv_old) + locked_weight(a)(tv_new));
                assert(mid2.task_views() == pre.task_views());
                assert(locked_weight(a)(tv_old) == locked_contrib(tv_old, a));
                assert(locked_weight(a)(tv_new) == locked_contrib(tv_new, a));
                assert(locked_sum(pre.task_views(), a) <= bal_of(pre.ledger@, a).reserved as int);
                pre.ledger.lemma_wf_bound(a);
                if new_status == TaskStatus::Completed && tv_old.assignee is Some {
                    let b = tv_old.assignee->0;
                    assert(post.ledger@ == settle_effect(pre.ledger@, creator, b, reward));
                    assert(b != creator);
                } else if new_status == TaskStatus::Cancelled {
                    assert(post.ledger@ == unreserve_effect(pre.ledger@, creator, reward));
                } else {
                    assert(post.ledger@ == pre.ledger@);
                }
            }
            assert(post.wf());
        }
        Ok(())
    }
}


/// Validation of `delete_task`: only the creator may delete, and only an
/// existing task.
pub open spec fn delete_check(s: Pallet, caller: u64, task_id: u32) -> Option<Error> {
    let id = task_id as u64;
    if !s.task_map().contains_key(id) {
        Some(Error::TaskNotFound)
    } else if s.task_map()[id].creator != caller {
        Some(Error::NotAuthorized)
    } else {
        None
    }
}

/// The view of an optional byte string.
pub open spec fn opt_bytes_view(o: Option<Vec<u8>>) -> Option<Seq<u8>> {
    match o {
        Some(v) => Some(v@),
        None => None,
    }
}

/// Validation of `update_task`, in the order the checks are applied.  Every
/// field present is validated before anything changes; the reward can no
/// longer change once the task is terminal, and raising it needs spendable
/// balance to cover the difference.
pub open spec fn update_check(
    s: Pallet,
    caller: u64,
    task_id: u32,
    title: Option<Seq<u8>>,
    description: Option<Seq<u8>>,
    priority: Option<u8>,
    difficulty: Option<u8>,
    reward: Option<u128>,
    deadline: Option<Option<u64>>,
) -> Option<Error> {
    let id = task_id as u64;
    if !s.task_map().contains_key(id) {
        Some(Error::TaskNotFound)
    } else {
        let t = s.task_map()[id];
        if t.creator != caller {
            Some(Error::NotAuthorized)
        } else if title matches Some(x) && x.len() > s.spec_config().max_title_length {
            Some(Error::TitleTooLong)
        } else if description matches Some(x) && x.len()
            > s.spec_config().max_description_length {
            Some(Error::DescriptionTooLong)
        } else if priority matches Some(p) && (p < 1 || p > 4) {
            Some(Error::InvalidPriority)
        } else if difficulty matches Some(d) && (d < 1 || d > 10) {
            Some(Error::InvalidDifficulty)
        } else if reward == Some(0u128) {
            Some(Error::InvalidReward)
        } else if reward is Some && is_terminal(t.status) {
            Some(Error::InvalidStatusTransition)
        } else if reward matches Some(nr) && nr > t.reward && s.free_of(t.creator) < nr - t.reward {
            Some(Error::InsufficientBalance)
        } else if deadline matches Some(dd) && (dd matches Some(d) && d <= s.spec_now()) {
            Some(Error::TaskExpired)
        } else if priority matches Some(p) && p != t.priority && count_priority(
            s.task_views(),
            p,
        ) >= s.spec_config().max_tasks_per_priority as int {
            Some(Error::TooManyTasks)
        } else if deadline matches Some(dd) && (dd matches Some(d) && t.deadline != Some(d)
            && count_deadline(s.task_views(), d) >= s.spec_config().max_tasks_per_deadline
            as int) {
            Some(Error::TooManyTasks)
        } else {
            None
        }
    }
}

/// The record `update_task` stores: each field present in the request
/// replaces the stored one, and the update moment is refreshed.
pub open spec fn updated_task_view(
    t: TaskView,
    title: Option<Seq<u8>>,
    description: Option<Seq<u8>>,
    priority: Option<u8>,
    difficulty: Option<u8>,
    reward: Option<u128>,
    deadline: Option<Option<u64>>,
    now: u64,
) -> TaskView {
    TaskView {
        title: match title {
            Some(x) => x,
            None => t.title,
        },
        description: match description {
            Some(x) => x,
            None => t.description,
        },
        priority: match priority {
            Some(p) => p,
            None => t.priority,
        },
        difficulty: match difficulty {
            Some(d) => d,
            None => t.difficulty,
        },
        reward: match reward {
            Some(r) => r,
            None => t.reward,
        },
        deadline: match deadline {
            Some(d) => d,
            None => t.deadline,
        },
        updated_at: now,
        ..t
    }
}

impl Pallet {
    /// Replacing one task's record without touching the rounds keeps them
    /// coherent, provided the record awaits verification exactly as before,
    /// with the same creator and assignee in that case.
    proof fn lemma_coherence_same_round(pre: Pallet, post: Pallet, id: u64, tv_new: TaskView)
        requires
            pre.wf(),
            pre.task_map().contains_key(id),
            task_map_of(post.tasks) == task_map_of(pre.tasks).insert(id, tv_new),
            post.rounds@ == pre.rounds@,
            vote_map_of(post.votes) == vote_map_of(pre.votes),
            (tv_new.status == TaskStatus::PendingVerification) == (pre.task_map()[id].status
                == TaskStatus::PendingVerification),
            pre.task_map()[id].status == TaskStatus::PendingVerification ==> tv_new.creator
                == pre.task_map()[id].creator && tv_new.assignee == pre.task_map()[id].assignee,
        ensures
            rounds_ok_at(task_map_of(post.tasks), post.rounds@),
            votes_ok_at(vote_map_of(post.votes), post.rounds@, task_map_of(post.tasks)),
    {
        let tv_old = pre.task_map()[id];
        let tm0 = task_map_of(pre.tasks);
        let tm1 = task_map_of(post.tasks);
        let rm = post.rounds@;
        let vm = vote_map_of(post.votes);
        assert forall|id2: u64| #[trigger] rm.contains_key(id2) implies tm1.contains_key(id2)
            && tm1[id2].status == TaskStatus::PendingVerification by {
            assert(pre.rounds@.contains_key(id2));
            if id2 == id {
                assert(tm0[id].status == TaskStatus::PendingVerification);
            }
        }
        assert forall|id2: u64| #[trigger]
            tm1.contains_key(id2) && tm1[id2].status
            == TaskStatus::PendingVerification implies rm.contains_key(id2) by {
            if id2 == id {
                assert(tm0.contains_key(id) && tm0[id].status
                    == TaskStatus::PendingVerification);
            } else {
                assert(tm0.contains_key(id2));
            }
        }
        assert forall|id2: u64| #[trigger] rm.contains_key(id2) implies vm.contains_key(id2)
            && tm1.contains_key(id2) && votes_valid(vm[id2], rm[id2], tm1[id2]) by {
            assert(pre.rounds@.contains_key(id2));
            assert(votes_valid(vm[id2], rm[id2], tm0[id2]));
            if id2 == id {
                let vs = vm[id];
                assert forall|i: int| 0 <= i < vs.len() implies (#[trigger] vs[i]).voter
                    != tv_new.creator && tv_new.assignee != Some(vs[i].voter) by {
                    assert(vs[i].voter != tm0[id].creator && tm0[id].assignee != Some(
                        vs[i].voter,
                    ));
                }
            }
        }
    }

    /// Deletes a task: a task that is not yet settled or cancelled first has
    /// its escrowed reward released back to the creator, and a task under
    /// verification has its round and votes cleared; only the creator may
    /// delete.
    pub fn delete_task(&mut self, caller: u64, task_id: u32) -> (r: Result<(), Error>)
        requires
            old(self).wf(),
        ensures
            final(self).wf(),
            final(self).spec_config() == old(self).spec_config(),
            final(self).spec_now() == old(self).spec_now(),
            final(self).spec_next_task_id() == old(self).spec_next_task_id(),
            match r {
                Ok(()) => {
                    let id = task_id as u64;
                    let tv = old(self).task_map()[id];
                    &&& delete_check(*old(self), caller, task_id) is None
                    &&& final(self).task_map() == old(self).task_map().remove(id)
                    &&& task_record_removed(
                        old(self).task_views(),
                        final(self).task_views(),
                        tv,
                    )
                    &&& final(self).round_map() == if tv.status
                        == TaskStatus::PendingVerification {
                        old(self).round_map().remove(id)
                    } else {
                        old(self).round_map()
                    }
                    &&& final(self).vote_map() == if tv.status == TaskStatus::PendingVerification {
                        old(self).vote_map().remove(id)
                    } else {
                        old(self).vote_map()
                    }
                    &&& final(self).balances() == if !is_terminal(tv.status) {
                        unreserve_effect(old(self).balances(), tv.creator, tv.reward)
                    } else {
                        old(self).balances()
                    }
                    &&& (!is_terminal(tv.status) ==> released_amount(
                        old(self).balances(),
                        tv.creator,
                        tv.reward,
                    ) == tv.reward)
                },
                Err(e) => {
                    &&& delete_check(*old(self), caller, task_id) == Some(e)
                    &&& *final(self) == *old(self)
                },
            },
    {
        let id = task_id as u64;
        let (status, creator, reward) = match self.read_task(id) {
            None => {
                return Err(Error::TaskNotFound);
            },
            Some(t) => {
                if t.creator != caller {
                    return Err(Error::NotAuthorized);
                }
                (t.status, t.creator, t.reward)
            },
        };
        let ghost tv = old(self).task_map()[id];
        if status != TaskStatus::Completed && status != TaskStatus::Cancelled {
            proof {
                self.lemma_task_reward_covered(id);
            }
            let released = self.ledger.unreserve(creator, reward);
            proof {
                assert(released == reward);
            }
        }
        let ghost mid1 = *self;
        if status == TaskStatus::PendingVerification {
            let _ = self.rounds.remove(id);
            let _ = self.votes.remove(id);
            proof {
                assert(vote_map_of(self.votes) =~= vote_map_of(mid1.votes).remove(id));
            }
        }
        let ghost mid2 = *self;
        self.drop_task(id);
        proof {
            let pre = *old(self);
            let post = *self;
            let tm0 = task_map_of(pre.tasks);
            let tm1 = task_map_of(post.tasks);
            let rm = post.rounds@;
            let vm = vote_map_of(post.votes);
            assert(tm1 == tm0.remove(id));
            assert forall|id2: u64| #[trigger] rm.contains_key(id2) implies tm1.contains_key(id2)
                && tm1[id2].status == TaskStatus::PendingVerification by {
                assert(pre.rounds@.contains_key(id2));
                assert(id2 != id);
            }
            assert forall|id2: u64| #[trigger]
                tm1.contains_key(id2) && tm1[id2].status
                == TaskStatus::PendingVerification implies rm.contains_key(id2) by {
                assert(id2 != id);
                assert(tm0.contains_key(id2));
                if tv.status == TaskStatus::PendingVerification {
                    assert(pre.rounds@.contains_key(id2));
                }
            }
            assert forall|id2: u64| #[trigger] vm.contains_key(id2) implies rm.contains_key(
                id2,
            ) by {
                assert(vote_map_of(pre.votes).contains_key(id2));
                if tv.status == TaskStatus::PendingVerification {
                    assert(id2 != id);
                } else {
                    assert(!pre.rounds@.contains_key(id) || id2 != id);
                }
            }
            assert forall|id2: u64| #[trigger] rm.contains_key(id2) implies vm.contains_key(id2)
                && tm1.contains_key(id2) && votes_valid(vm[id2], rm[id2], tm1[id2]) by {
                assert(pre.rounds@.contains_key(id2));
                assert(votes_valid(vm[id2], rm[id2], tm0[id2]));
                assert(id2 != id);
            }
            assert forall|a: u64| #[trigger] locked_sum(task_views_of(post.tasks), a) <= bal_of(
                post.ledger@,
                a,
            ).reserved as int by {
                assert(seq_sum(post.task_views(), locked_weight(a)) == seq_sum(
                    mid2.task_views(),
                    locked_weight(a),
                ) - locked_weight(a)(tv));
                assert(mid2.task_views() == pre.task_views());
                assert(locked_weight(a)(tv) == locked_contrib(tv, a));
                assert(locked_sum(pre.task_views(), a) <= bal_of(pre.ledger@, a).reserved as int);
                if !is_terminal(tv.status) {
                    assert(post.ledger@ == unreserve_effect(pre.ledger@, tv.creator, tv.reward));
                } else {
                    assert(post.ledger@ == pre.ledger@);
                }
            }
            assert(post.wf());
        }
        Ok(())
    }

    /// Updates the fields present in the request; only the creator may
    /// update.  Raising the reward reserves the difference from the creator,
    /// lowering it releases the difference, and neither is possible once the
    /// task is terminal.
    #[verifier::rlimit(50)]
    pub fn update_task(
        &mut self,
        caller: u64,
        task_id: u32,
        title: Option<Vec<u8>>,
        description: Option<Vec<u8>>,
        priority: Option<u8>,
        difficulty: Option<u8>,
        reward: Option<u128>,
        deadline: Option<Option<u64>>,
    ) -> (r: Result<(), Error>)
        requires
            old(self).wf(),
        ensures
            final(self).wf(),
            final(self).spec_config() == old(self).spec_config(),
            final(self).spec_now() == old(self).spec_now(),
            final(self).spec_next_task_id() == old(self).spec_next_task_id(),
            final(self).round_map() == old(self).round_map(),
            final(self).vote_map() == old(self).vote_map(),
            match r {
                Ok(()) => {
                    let id = task_id as u64;
                    let tv = old(self).task_map()[id];
                    &&& update_check(
                        *old(self),
                        caller,
                        task_id,
                        opt_bytes_view(title),
                        opt_bytes_view(description),
                        priority,
                        difficulty,
                        reward,
                        deadline,
                    ) is None
                    &&& final(self).task_map() == old(self).task_map().insert(
                        id,
                        updated_task_view(
                            tv,
                            opt_bytes_view(title),
                            opt_bytes_view(description),
                            priority,
                            difficulty,
                            reward,
                            deadline,
                            old(self).spec_now(),
                        ),
                    )
                    &&& task_record_replaced(
                        old(self).task_views(),
                        final(self).task_views(),
                        tv,
                        final(self).task_map()[id],
                    )
                    &&& final(self).balances() == (match reward {
                        Some(nr) => if nr > tv.reward {
                            reserve_effect(
                                old(self).balances(),
                                tv.creator,
                                (nr - tv.reward) as u128,
                            )
                        } else if nr < tv.reward {
                            unreserve_effect(
                                old(self).balances(),
                                tv.creator,
                                (tv.reward - nr) as u128,
                            )
                        } else {
                            old(self).balances()
                        },
                        None => old(self).balances(),
                    })
                    &&& (match reward {
                        Some(nr) => nr < tv.reward ==> released_amount(
                            old(self).balances(),
                            tv.creator,
                            (tv.reward - nr) as u128,
                        ) == tv.reward - nr,
                        None => true,
                    })
                },
                Err(e) => {
                    &&& update_check(
                        *old(self),
                        caller,
                        task_id,
                        opt_bytes_view(title),
                        opt_bytes_view(description),
                        priority,
                        difficulty,
                        reward,
                        deadline,
                    ) == Some(e)
                    &&& *final(self) == *old(self)
                },
            },
    {
        let id = task_id as u64;
        let (nt, old_reward, creator) = match self.read_task(id) {
            None => {
                return Err(Error::TaskNotFound);
            },
            Some(t) => {
                if t.creator != caller {
                    return Err(Error::NotAuthorized);
                }
                if let Some(x) = &title {
                    if x.len() > self.config.max_title_length {
                        return Err(Error::TitleTooLong);
                    }
                }
                if let Some(x) = &description {
                    if x.len() > self.config.max_description_length {
                        return Err(Error::DescriptionTooLong);
                    }
                }
                if let Some(p) = priority {
                    if p < 1 || p > 4 {
                        return Err(Error::InvalidPriority);
                    }
                }
                if let Some(d) = difficulty {
                    if d < 1 || d > 10 {
                        return Err(Error::InvalidDifficulty);
                    }
                }
                if let Some(nr) = reward {
                    if nr == 0 {
                        return Err(Error::InvalidReward);
                    }
                    if t.is_final_state() {
                        return Err(Error::InvalidStatusTransition);
                    }
                    if nr > t.reward && !self.ledger.can_reserve(t.creator, nr - t.reward) {
                        return Err(Error::InsufficientBalance);
                    }
                }
                if let Some(dd) = deadline {
                    if let Some(d) = dd {
                        if d <= self.now {
                            return Err(Error::TaskExpired);
                        }
                    }
                }
                if let Some(p) = priority {
                    if p != t.priority && self.count_with_priority(p)
                        >= self.config.max_tasks_per_priority {
                        return Err(Error::TooManyTasks);
                    }
                }
                if let Some(dd) = deadline {
                    if let Some(d) = dd {
                        if t.deadline != Some(d) && self.count_with_deadline(d)
                            >= self.config.max_tasks_per_deadline {
                            return Err(Error::TooManyTasks);
                        }
                    }
                }
                let old_reward = t.reward;
                let creator = t.creator;
                let mut nt = t.clone();
                if let Some(x) = title {
                    nt.title = x;
                }
                if let Some(x) = description {
                    nt.description = x;
                }
                if let Some(p) = priority {
                    nt.priority = p;
                }
                if let Some(d) = difficulty {
                    nt.difficulty = d;
                }
                if let Some(nr) = reward {
                    nt.reward = nr;
                }
                if let Some(dd) = deadline {
                    nt.deadline = dd;
                }
                nt.updated_at = self.now;
                (nt, old_reward, creator)
            },
        };
        let ghost tv_old = old(self).task_map()[id];
        let ghost tv_new = nt@;
        if let Some(nr) = reward {
            if nr > old_reward {
                match self.ledger.reserve(creator, nr - old_reward) {
                    Ok(()) => {},
                    Err(_) => {
                        return unreached();
                    },
                }
            } else if nr < old_reward {
                proof {
                    self.lemma_task_reward_covered(id);
                }
                let released = self.ledger.unreserve(creator, old_reward - nr);
                proof {
                    assert(released == old_reward - nr);
                }
            }
        }
        let ghost mid = *self;
        self.put_task(id, nt);
        proof {
            let pre = *old(self);
            let post = *self;
            assert(mid.task_views() == pre.task_views());
            assert(mid.task_map() == pre.task_map());
            assert(post.task_map()[id] == tv_new);
            assert(task_record_replaced(
                pre.task_views(),
                post.task_views(),
                pre.task_map()[id],
                post.task_map()[id],
            ));
            Self::lemma_coherence_same_round(pre, post, id, tv_new);
            assert forall|a: u64| #[trigger] locked_sum(task_views_of(post.tasks), a) <= bal_of(
                post.ledger@,
                a,
            ).reserved as int by {
                assert(seq_sum(post.task_views(), locked_weight(a)) == seq_sum(
                    mid.task_views(),
                    locked_weight(a),
                ) - locked_weight(a)(tv_old) + locked_weight(a)(tv_new));
                assert(mid.task_views() == pre.task_views());
                assert(locked_weight(a)(tv_old) == locked_contrib(tv_old, a));
                assert(locked_weight(a)(tv_new) == locked_contrib(tv_new, a));
                assert(locked_sum(pre.task_views(), a) <= bal_of(pre.ledger@, a).reserved as int);
                pre.ledger.lemma_wf_bound(a);
                if reward is Some && !is_terminal(tv_old.status) {
                    let nr = reward->0;
                    if nr > old_reward {
                        assert(post.ledger@ == reserve_effect(
                            pre.ledger@,
                            creator,
                            (nr - old_reward) as u128,
                        ));
                        pre.ledger.lemma_wf_bound(creator);
                    } else if nr < old_reward {
                        assert(post.ledger@ == unreserve_effect(
                            pre.ledger@,
                            creator,
                            (old_reward - nr) as u128,
                        ));
                    } else {
                        assert(post.ledger@ == pre.ledger@);
                    }
                } else {
                    assert(post.ledger@ == pre.ledger@);
                }
            }
            assert(post.wf());
        }
        Ok(())
    }
}


/// A finalized round comes out approved when its approval percentage — whole
/// percent, rounded down — reaches the configured minimum; a percentage
/// exactly equal to the minimum counts as approved.
pub open spec fn round_approved(approve: int, reject: int, c: Config) -> bool
    recommends
        approve + reject > 0,
{
    (approve * 100) / (approve + reject) >= c.min_approval_percentage as int
}

/// Validation of `submit_verification_vote`, in the order the checks are
/// applied.  A vote that reaches the quorum finalizes the round at once, so
/// a settlement that cannot complete fails the whole vote without effect.
pub open spec fn vote_check(s: Pallet, voter: u64, task_id: u32, approve: bool) -> Option<
    Error,
> {
    let id = task_id as u64;
    if !s.task_map().contains_key(id) {
        Some(Error::TaskNotFound)
    } else if s.task_map()[id].status != TaskStatus::PendingVerification {
        Some(Error::TaskNotPendingVerification)
    } else if s.spec_now() > s.round_map()[id].end_time {
        Some(Error::VerificationPeriodEnded)
    } else if has_vote(s.vote_map()[id], voter) {
        Some(Error::AlreadyVoted)
    } else if s.task_map()[id].creator == voter || s.task_map()[id].assignee == Some(voter) {
        Some(Error::CannotVoteOwnTask)
    } else if s.vote_map()[id].len() >= MAX_VERIFICATION_VOTERS as int {
        Some(Error::TooManyTasks)
    } else {
        let a2 = s.round_map()[id].approve_votes + if approve {
            1int
        } else {
            0int
        };
        let r2 = s.round_map()[id].reject_votes + if approve {
            0int
        } else {
            1int
        };
        if a2 + r2 >= s.spec_config().min_verification_votes as int && round_approved(
            a2,
            r2,
            s.spec_config(),
        ) && (s.task_map()[id].assignee matches Some(b) && s.free_of(b) + s.reserved_of(b)
            + s.task_map()[id].reward > u128::MAX) {
            Some(Error::RewardTransferFailed)
        } else {
            None
        }
    }
}

/// Validation of `complete_verification`: the round must exist, have reached
/// the quorum, and be able to settle if it comes out approved.
pub open spec fn complete_check(s: Pallet, task_id: u32) -> Option<Error> {
    let id = task_id as u64;
    if !s.round_map().contains_key(id) {
        Some(Error::TaskNotPendingVerification)
    } else {
        let round = s.round_map()[id];
        let total = round.approve_votes as int + round.reject_votes as int;
        if total < s.spec_config().min_verification_votes as int {
            Some(Error::InsufficientVerificationVotes)
        } else if round_approved(
            round.approve_votes as int,
            round.reject_votes as int,
            s.spec_config(),
        ) && (s.task_map()[id].assignee matches Some(b) && s.free_of(b) + s.reserved_of(b)
            + s.task_map()[id].reward > u128::MAX) {
            Some(Error::RewardTransferFailed)
        } else {
            None
        }
    }
}

/// Validation of `handle_verification_expired`: the round must exist and its
/// vote window must have closed.
pub open spec fn expiry_check(s: Pallet, task_id: u32) -> Option<Error> {
    let id = task_id as u64;
    if !s.round_map().contains_key(id) {
        Some(Error::TaskNotPendingVerification)
    } else if s.spec_now() <= s.round_map()[id].end_time {
        Some(Error::VerificationPeriodNotEnded)
    } else {
        None
    }
}

/// What resolving the round of task `id` with outcome `approved` leaves
/// behind: the task completed (settling to the assignee, if any) or back in
/// progress, the round and its votes gone, everything else untouched.
pub open spec fn resolution_holds(pre: Pallet, post: Pallet, id: u64, approved: bool) -> bool {
    let tv = pre.task_map()[id];
    let new_status = if approved {
        TaskStatus::Completed
    } else {
        TaskStatus::InProgress
    };
    &&& post.task_map() == pre.task_map().insert(
        id,
        TaskView { status: new_status, updated_at: pre.spec_now(), ..tv },
    )
    &&& task_record_replaced(
        pre.task_views(),
        post.task_views(),
        tv,
        TaskView { status: new_status, updated_at: pre.spec_now(), ..tv },
    )
    &&& post.round_map() == pre.round_map().remove(id)
    &&& post.vote_map() == pre.vote_map().remove(id)
    &&& post.balances() == (match tv.assignee {
        Some(b) => if approved {
            settle_effect(pre.balances(), tv.creator, b, tv.reward)
        } else {
            pre.balances()
        },
        None => pre.balances(),
    })
}

impl Pallet {
    /// Closes the round of task `id` with the given outcome: approved rounds
    /// complete the task and settle the reward to the assignee when there is
    /// one; rejected or expired rounds put the task back in progress with no
    /// settlement.  Either the whole resolution happens or nothing does.
    fn resolve_round(&mut self, id: u64, approved: bool) -> (r: Result<(), Error>)
        requires
            old(self).wf(),
            old(self).round_map().contains_key(id),
        ensures
            final(self).wf(),
            final(self).spec_config() == old(self).spec_config(),
            final(self).spec_now() == old(self).spec_now(),
            final(self).spec_next_task_id() == old(self).spec_next_task_id(),
            r is Ok <==> !(approved && (old(self).task_map()[id].assignee matches Some(b) && old(
                self,
            ).free_of(b) + old(self).reserved_of(b) + old(self).task_map()[id].reward
                > u128::MAX)),
            r is Ok ==> resolution_holds(*old(self), *final(self), id, approved),
            r is Err ==> r == Err::<(), Error>(Error::RewardTransferFailed) && *final(self)
                == *old(self),
    {
        let nt = match self.read_task(id) {
            None => {
                return unreached();
            },
            Some(t) => {
                let mut nt = t.clone();
                nt.status = if approved {
                    TaskStatus::Completed
                } else {
                    TaskStatus::InProgress
                };
                nt.updated_at = self.now;
                nt
            },
        };
        let ghost tv_old = old(self).task_map()[id];
        let ghost tv_new = nt@;
        let creator = nt.creator;
        let reward = nt.reward;
        if approved {
            if let Some(b) = nt.assignee {
                proof {
                    self.lemma_task_reward_covered(id);
                }
                match self.ledger.settle(creator, b, reward) {
                    Ok(()) => {},
                    Err(e) => {
                        return Err(e);
                    },
                }
            }
        }
        let ghost mid1 = *self;
        let _ = self.rounds.remove(id);
        let _ = self.votes.remove(id);
        proof {
            assert(vote_map_of(self.votes) =~= vote_map_of(mid1.votes).remove(id));
        }
        let ghost mid2 = *self;
        self.put_task(id, nt);
        proof {
            let pre = *old(self);
            let post = *self;
            assert(task_map_of(post.tasks) == task_map_of(pre.tasks).insert(id, tv_new));
            Self::lemma_coherence_exit_pv(pre, post, id, tv_new);
            assert forall|a: u64| #[trigger] locked_sum(task_views_of(post.tasks), a) <= bal_of(
                post.ledger@,
                a,
            ).reserved as int by {
                assert(seq_sum(post.task_views(), locked_weight(a)) == seq_sum(
                    mid2.task_views(),
                    locked_weight(a),
                ) - locked_weight(a)(tv_old) + locked_weight(a)(tv_new));
                assert(mid2.task_views() == pre.task_views());
                assert(locked_weight(a)(tv_old) == locked_contrib(tv_old, a));
                assert(locked_weight(a)(tv_new) == locked_contrib(tv_new, a));
                assert(locked_sum(pre.task_views(), a) <= bal_of(pre.ledger@, a).reserved as int);
                pre.ledger.lemma_wf_bound(a);
                if approved && tv_old.assignee is Some {
                    let b = tv_old.assignee->0;
                    assert(post.ledger@ == settle_effect(pre.ledger@, creator, b, reward));
                    assert(b != creator);
                } else {
                    assert(post.ledger@ == pre.ledger@);
                }
            }
            assert(post.wf());
        }
        Ok(())
    }

    /// Whether `voter` already has a vote in `votes`.
    fn contains_voter(votes: &Vec<VoteRecord>, voter: u64) -> (r: bool)
        ensures
            r == has_vote(votes@, voter),
    {
        let n = votes.len();
        let mut i: usize = 0;
        while i < n
            invariant
                n == votes@.len(),
                i <= n,
                forall|j: int| 0 <= j < i ==> (#[trigger] votes@[j]).voter != voter,
            decreases n - i,
        {
            if votes[i].voter == voter {
                return true;
            }
            i = i + 1;
        }
        false
    }

    /// Records a community-verification vote on a task awaiting verification.
    /// Each account other than the task's creator and assignee votes at most
    /// once, only while the window is open; the vote that reaches the quorum
    /// finalizes the round immediately.
    pub fn submit_verification_vote(&mut self, voter: u64, task_id: u32, approve: bool) -> (r:
        Result<(), Error>)
        requires
            old(self).wf(),
        ensures
            final(self).wf(),
            final(self).spec_config() == old(self).spec_config(),
            final(self).spec_now() == old(self).spec_now(),
            final(self).spec_next_task_id() == old(self).spec_next_task_id(),
            match r {
                Ok(()) => {
                    let id = task_id as u64;
                    let round = old(self).round_map()[id];
                    let a2 = round.approve_votes + if approve {
                        1int
                    } else {
                        0int
                    };
                    let r2 = round.reject_votes + if approve {
                        0int
                    } else {
                        1int
                    };
                    &&& vote_check(*old(self), voter, task_id, approve) is None
                    &&& if a2 + r2 >= old(self).spec_config().min_verification_votes as int {
                        resolution_holds(
                            *old(self),
                            *final(self),
                            id,
                            round_approved(a2, r2, old(self).spec_config()),
                        )
                    } else {
                        &&& final(self).task_map() == old(self).task_map()
                        &&& final(self).task_views() == old(self).task_views()
                        &&& final(self).round_map() == old(self).round_map().insert(
                            id,
                            VerificationRound {
                                end_time: round.end_time,
                                approve_votes: a2 as u32,
                                reject_votes: r2 as u32,
                            },
                        )
                        &&& final(self).vote_map() == old(self).vote_map().insert(
                            id,
                            old(self).vote_map()[id].push(VoteRecord { voter, approve }),
                        )
                        &&& final(self).balances() == old(self).balances()
                    }
                },
                Err(e) => {
                    &&& vote_check(*old(self), voter, task_id, approve) == Some(e)
                    &&& *final(self) == *old(self)
                },
            },
    {
        let id = task_id as u64;
        let (creator, assignee) = match self.read_task(id) {
            None => {
                return Err(Error::TaskNotFound);
            },
            Some(t) => {
                if t.status != TaskStatus::PendingVerification {
                    return Err(Error::TaskNotPendingVerification);
                }
                (t.creator, t.assignee)
            },
        };
        let round = match self.rounds.get(id) {
            Some(r) => *r,
            None => {
                return unreached();
            },
        };
        if self.now > round.end_time {
            return Err(Error::VerificationPeriodEnded);
        }
        let already = match self.votes.get(id) {
            Some(v) => Self::contains_voter(v, voter),
            None => {
                return unreached();
            },
        };
        if already {
            return Err(Error::AlreadyVoted);
        }
        if creator == voter || assignee == Some(voter) {
            return Err(Error::CannotVoteOwnTask);
        }
        let n_votes = match self.votes.get(id) {
            Some(v) => v.len(),
            None => {
                return unreached();
            },
        };
        if n_votes >= MAX_VERIFICATION_VOTERS as usize {
            return Err(Error::TooManyTasks);
        }
        let a2 = if approve {
            round.approve_votes + 1
        } else {
            round.approve_votes
        };
        let r2 = if approve {
            round.reject_votes
        } else {
            round.reject_votes + 1
        };
        let total = a2 + r2;
        if total >= self.config.min_verification_votes {
            let approved = (a2 * 100) / total >= self.config.min_approval_percentage;
            match self.resolve_round(id, approved) {
                Ok(()) => Ok(()),
                Err(e) => Err(e),
            }
        } else {
            let mut vlist = match self.votes.remove(id) {
                Some(v) => v,
                None => {
                    return unreached();
                },
            };
            let ghost vs0 = vlist@;
            vlist.push(VoteRecord { voter, approve });
            let ghost mid1 = *self;
            self.votes.insert(id, vlist);
            self.rounds.insert(
                id,
                VerificationRound { end_time: round.end_time, approve_votes: a2, reject_votes: r2 },
            );
            proof {
                let pre = *old(self);
                let post = *self;
                let vote = VoteRecord { voter, approve };
                assert(vote_map_of(post.votes) =~= vote_map_of(pre.votes).insert(
                    id,
                    vs0.push(vote),
                ));
                assert(post.rounds@ == pre.rounds@.insert(
                    id,
                    VerificationRound {
                        end_time: round.end_time,
                        approve_votes: a2,
                        reject_votes: r2,
                    },
                ));
                let tm = task_map_of(post.tasks);
                let rm = post.rounds@;
                let vm = vote_map_of(post.votes);
                assert(tm == task_map_of(pre.tasks));
                assert forall|id2: u64| #[trigger] rm.contains_key(id2) implies tm.contains_key(
                    id2,
                ) && tm[id2].status == TaskStatus::PendingVerification by {
                    if id2 != id {
                        assert(pre.rounds@.contains_key(id2));
                    }
                }
                assert forall|id2: u64| #[trigger]
                    tm.contains_key(id2) && tm[id2].status
                    == TaskStatus::PendingVerification implies rm.contains_key(id2) by {
                    assert(pre.rounds@.contains_key(id2));
                }
                assert forall|id2: u64| #[trigger] vm.contains_key(id2) implies rm.contains_key(
                    id2,
                ) by {
                    if id2 != id {
                        assert(vote_map_of(pre.votes).contains_key(id2));
                    }
                }
                assert forall|id2: u64| #[trigger] rm.contains_key(id2) implies vm.contains_key(
                    id2,
                ) && tm.contains_key(id2) && votes_valid(vm[id2], rm[id2], tm[id2]) by {
                    if id2 == id {
                        let vs1 = vs0.push(vote);
                        assert(votes_valid(vs0, round, tm[id]));
                        assert forall|i: int, j: int|
                            0 <= i < j < vs1.len() implies (#[trigger] vs1[i]).voter != (
                        #[trigger] vs1[j]).voter by {
                            if j < vs1.len() - 1 {
                                assert(vs1[i] == vs0[i] && vs1[j] == vs0[j]);
                            } else {
                                assert(vs1[i] == vs0[i] && vs1[j] == vote);
                                assert(!has_vote(vs0, voter));
                                assert(vs0[i].voter != voter);
                            }
                        }
                        lemma_seq_sum_push(vs0, vote, approve_weight());
                        lemma_seq_sum_push(vs0, vote, reject_weight());
                        assert(approve_weight()(vote) == if approve {
                            1int
                        } else {
                            0int
                        });
                        assert(reject_weight()(vote) == if approve {
                            0int
                        } else {
                            1int
                        });
                        assert forall|i: int| 0 <= i < vs1.len() implies (
                        #[trigger] vs1[i]).voter != tm[id].creator && tm[id].assignee != Some(
                            vs1[i].voter,
                        ) by {
                            if i < vs1.len() - 1 {
                                assert(vs1[i] == vs0[i]);
                            } else {
                                assert(vs1[i] == vote);
                            }
                        }
                        assert(votes_valid(
                            vs1,
                            VerificationRound {
                                end_time: round.end_time,
                                approve_votes: a2,
                                reject_votes: r2,
                            },
                            tm[id],
                        ));
                    } else {
                        assert(pre.rounds@.contains_key(id2));
                        assert(votes_valid(
                            vote_map_of(pre.votes)[id2],
                            pre.rounds@[id2],
                            task_map_of(pre.tasks)[id2],
                        ));
                    }
                }
                assert forall|a: u64| #[trigger] locked_sum(task_views_of(post.tasks), a)
                    <= bal_of(post.ledger@, a).reserved as int by {
                    assert(locked_sum(task_views_of(pre.tasks), a) <= bal_of(
                        pre.ledger@,
                        a,
                    ).reserved as int);
                }
                assert(post.wf());
            }
            Ok(())
        }
    }

    /// Finalizes the verification round of a task once the quorum is
    /// reached: the outcome follows the approval percentage, the round and
    /// its votes are cleared, and an approved outcome settles the reward.
    /// Any account may call this; the caller's identity plays no part.
    pub fn complete_verification(&mut self, _caller: u64, task_id: u32) -> (r: Result<(), Error>)
        requires
            old(self).wf(),
        ensures
            final(self).wf(),
            final(self).spec_config() == old(self).spec_config(),
            final(self).spec_now() == old(self).spec_now(),
            final(self).spec_next_task_id() == old(self).spec_next_task_id(),
            match r {
                Ok(()) => {
                    let id = task_id as u64;
                    let round = old(self).round_map()[id];
                    &&& complete_check(*old(self), task_id) is None
                    &&& resolution_holds(
                        *old(self),
                        *final(self),
                        id,
                        round_approved(
                            round.approve_votes as int,
                            round.reject_votes as int,
                            old(self).spec_config(),
                        ),
                    )
                },
                Err(e) => {
                    &&& complete_check(*old(self), task_id) == Some(e)
                    &&& *final(self) == *old(self)
                },
            },
    {
        let id = task_id as u64;
        let round = match self.rounds.get(id) {
            Some(r) => *r,
            None => {
                return Err(Error::TaskNotPendingVerification);
            },
        };
        let total = round.approve_votes + round.reject_votes;
        if total < self.config.min_verification_votes {
            return Err(Error::InsufficientVerificationVotes);
        }
        let approved = (round.approve_votes * 100) / total >= self.config.min_approval_percentage;
        self.resolve_round(id, approved)
    }

    /// Handles an expired verification window: once `now` has passed the
    /// round's end, the task reverts to `InProgress` and the round and its
    /// votes are cleared with no settlement.  This is a defined outcome, not
    /// an error; the external time-keeper invokes it.
    pub fn handle_verification_expired(&mut self, task_id: u32) -> (r: Result<(), Error>)
        requires
            old(self).wf(),
        ensures
            final(self).wf(),
            final(self).spec_config() == old(self).spec_config(),
            final(self).spec_now() == old(self).spec_now(),
            final(self).spec_next_task_id() == old(self).spec_next_task_id(),
            match r {
                Ok(()) => {
                    &&& expiry_check(*old(self), task_id) is None
                    &&& resolution_holds(*old(self), *final(self), task_id as u64, false)
                },
                Err(e) => {
                    &&& expiry_check(*old(self), task_id) == Some(e)
                    &&& *final(self) == *old(self)
                },
            },
    {
        let id = task_id as u64;
        let round = match self.rounds.get(id) {
            Some(r) => *r,
            None => {
                return Err(Error::TaskNotPendingVerification);
            },
        };
        if self.now <= round.end_time {
            return Err(Error::VerificationPeriodNotEnded);
        }
        match self.resolve_round(id, false) {
            Ok(()) => Ok(()),
            Err(_) => unreached(),
        }
    }

    /// The verification state of a task: window end, approvals, rejections.
    pub fn get_verification_status(&self, task_id: u32) -> (r: Option<(u64, u32, u32)>)
        requires
            self.wf(),
        ensures
            match r {
                Some(st) => self.round_map().contains_key(task_id as u64) && st == (
                    self.round_map()[task_id as u64].end_time,
                    self.round_map()[task_id as u64].approve_votes,
                    self.round_map()[task_id as u64].reject_votes,
                ),
                None => !self.round_map().contains_key(task_id as u64),
            },
    {
        match self.rounds.get(task_id as u64) {
            Some(r) => Some((r.end_time, r.approve_votes, r.reject_votes)),
            None => None,
        }
    }

    /// The accounts that have voted in a task's live round, in voting order;
    /// empty when there is no round.
    pub fn get_verification_voters(&self, task_id: u32) -> (r: Vec<u64>)
        requires
            self.wf(),
        ensures
            self.vote_map().contains_key(task_id as u64) ==> r@ == self.vote_map()[
                task_id as u64
            ].map_values(|v: VoteRecord| v.voter),
            !self.vote_map().contains_key(task_id as u64) ==> r@ == Seq::<u64>::empty(),
    {
        let mut out: Vec<u64> = Vec::new();
        match self.votes.get(task_id as u64) {
            None => out,
            Some(votes) => {
                let n = votes.len();
                let mut i: usize = 0;
                while i < n
                    invariant
                        n == votes@.len(),
                        i <= n,
                        out@ == votes@.subrange(0, i as int).map_values(|v: VoteRecord| v.voter),
                    decreases n - i,
                {
                    out.push(votes[i].voter);
                    proof {
                        assert(out@ =~= votes@.subrange(0, i + 1 as int).map_values(
                            |v: VoteRecord| v.voter,
                        ));
                    }
                    i = i + 1;
                }
                proof {
                    assert(votes@.subrange(0, n as int) =~= votes@);
                }
                out
            },
        }
    }

    /// Whether `voter` has voted in the task's live round.
    pub fn has_voted(&self, task_id: u32, voter: u64) -> (r: bool)
        requires
            self.wf(),
        ensures
            r == (self.vote_map().contains_key(task_id as u64) && has_vote(
                self.vote_map()[task_id as u64],
                voter,
            )),
    {
        match self.votes.get(task_id as u64) {
            Some(votes) => Self::contains_voter(votes, voter),
            None => false,
        }
    }

    /// The vote `voter` cast in the task's live round, if any.
    pub fn get_vote(&self, task_id: u32, voter: u64) -> (r: Option<bool>)
        requires
            self.wf(),
        ensures
            match r {
                Some(b) => self.vote_map().contains_key(task_id as u64) && exists|i: int|
                    0 <= i < self.vote_map()[task_id as u64].len()
                        && #[trigger] self.vote_map()[task_id as u64][i] == (VoteRecord {
                        voter,
                        approve: b,
                    }),
                None => !(self.vote_map().contains_key(task_id as u64) && has_vote(
                    self.vote_map()[task_id as u64],
                    voter,
                )),
            },
    {
        match self.votes.get(task_id as u64) {
            None => None,
            Some(votes) => {
                let ghost vs = votes@;
                let n = votes.len();
                let mut i: usize = 0;
                while i < n
                    invariant
                        n == vs.len(),
                        vs == votes@,
                        self.votes@.contains_key(task_id as u64),
                        votes@ == self.votes@[task_id as u64]@,
                        i <= n,
                        forall|j: int| 0 <= j < i ==> (#[trigger] vs[j]).voter != voter,
                    decreases n - i,
                {
                    if votes[i].voter == voter {
                        proof {
                            assert(self.vote_map().contains_key(task_id as u64));
                            assert(self.vote_map()[task_id as u64] == vs);
                            assert(vs[i as int] == (VoteRecord {
                                voter,
                                approve: vs[i as int].approve,
                            }));
                        }
                        return Some(votes[i].approve);
                    }
                    i = i + 1;
                }
                None
            },
        }
    }
}


/// The tasks whose status carries the given code.
pub open spec fn status_code_pred(status: u8) -> spec_fn(TaskView) -> bool {
    |t: TaskView| crate::lifecycle::status_code(t.status) == status
}

/// The tasks with the given priority.
pub open spec fn priority_eq_pred(priority: u8) -> spec_fn(TaskView) -> bool {
    |t: TaskView| t.priority == priority
}

/// The tasks due exactly at `deadline`.
pub open spec fn deadline_eq_pred(deadline: u64) -> spec_fn(TaskView) -> bool {
    |t: TaskView| t.deadline == Some(deadline)
}

/// The tasks `user` created.
pub open spec fn created_by_pred(user: u64) -> spec_fn(TaskView) -> bool {
    |t: TaskView| t.creator == user
}

/// The tasks assigned to `user`.
pub open spec fn assigned_to_pred(user: u64) -> spec_fn(TaskView) -> bool {
    |t: TaskView| t.assignee == Some(user)
}

/// The tasks whose deadline is strictly future at `now` but no further than
/// `within_time` units away.
pub open spec fn expiring_pred(now: u64, within_time: u64) -> spec_fn(TaskView) -> bool {
    |t: TaskView|
        match t.deadline {
            Some(d) => d > now && d <= now + within_time,
            None => false,
        }
}

/// Rewards as a summable weight.
pub open spec fn reward_weight() -> spec_fn(TaskView) -> int {
    |t: TaskView| t.reward as int
}

/// Difficulty grades as a summable weight.
pub open spec fn difficulty_weight() -> spec_fn(TaskView) -> int {
    |t: TaskView| t.difficulty as int
}

/// Overdue tasks — past their deadline but not settled or cancelled — as a
/// summable weight.
pub open spec fn overdue_weight(now: u64) -> spec_fn(TaskView) -> int {
    |t: TaskView| if expired_at(t, now) && !is_terminal(t.status) {
        1int
    } else {
        0int
    }
}

impl Pallet {
    /// Escrow conservation: the rewards locked for the non-terminal tasks an
    /// account created never exceed that account's total reservations, and
    /// the locked amount is never negative.
    pub proof fn lemma_escrow_conservation(self, account: u64)
        requires
            self.wf(),
        ensures
            0 <= self.locked_of(account) <= self.reserved_of(account) as int,
    {
        assert forall|t: TaskView| #[trigger] locked_weight(account)(t) >= 0 by {
            assert(locked_weight(account)(t) == locked_contrib(t, account));
        }
        lemma_seq_sum_nonneg(self.task_views(), locked_weight(account));
        assert(locked_sum(task_views_of(self.tasks), account) <= bal_of(
            self.ledger@,
            account,
        ).reserved as int);
    }

    /// A verification round exists exactly while its task awaits
    /// verification.
    pub proof fn lemma_round_exists_iff_pending(self, id: u64)
        requires
            self.wf(),
        ensures
            self.round_map().contains_key(id) <==> (self.task_map().contains_key(id)
                && self.task_map()[id].status == TaskStatus::PendingVerification),
    {
    }

    /// A live round's tallies are exactly the counts of its recorded votes:
    /// distinct voters, none of them the task's creator or assignee, one
    /// record per vote cast.
    pub proof fn lemma_round_tallies_match_votes(self, id: u64)
        requires
            self.wf(),
            self.round_map().contains_key(id),
        ensures
            self.vote_map().contains_key(id),
            voters_unique(self.vote_map()[id]),
            seq_sum(self.vote_map()[id], approve_weight()) == self.round_map()[id].approve_votes
                as int,
            seq_sum(self.vote_map()[id], reject_weight()) == self.round_map()[id].reject_votes
                as int,
            self.vote_map()[id].len() == self.round_map()[id].approve_votes as int
                + self.round_map()[id].reject_votes as int,
    {
    }

    /// Each account's spendable and reserved balances always fit the balance
    /// type together, so a reservation the spendable balance covers can never
    /// overflow the reserved balance.
    pub proof fn lemma_balance_bound(self, account: u64)
        requires
            self.wf(),
        ensures
            self.free_of(account) + self.reserved_of(account) <= u128::MAX,
    {
        self.ledger.lemma_wf_bound(account);
    }

    /// Ids are assigned monotonically and never reused, so the registry can
    /// never hold more records than ids were handed out.
    pub proof fn lemma_task_count_bounded(self)
        requires
            self.wf(),
        ensures
            self.task_views().len() <= self.spec_next_task_id() as int <= u32::MAX as int,
    {
    }

    /// The tasks whose status carries the given code, in storage order.
    pub fn get_tasks_by_status(&self, status: u8) -> (r: Vec<Task>)
        requires
            self.wf(),
        ensures
            views_of(r@) == self.task_views().filter(status_code_pred(status)),
    {
        let ghost vs = self.task_views();
        let ghost p = status_code_pred(status);
        let n = self.tasks.len();
        let mut out: Vec<Task> = Vec::new();
        proof {
            reveal(Seq::filter);
            assert(views_of(out@) =~= vs.subrange(0, 0).filter(p));
        }
        let mut i: usize = 0;
        while i < n
            invariant
                self.wf(),
                n == self.tasks.rows().len(),
                vs == self.task_views(),
                p == status_code_pred(status),
                i <= n,
                views_of(out@) == vs.subrange(0, i as int).filter(p),
            decreases n - i,
        {
            let ghost out0 = out@;
            let t = &self.tasks.row(i).1;
            proof {
                assert(vs[i as int] == self.tasks.rows()[i as int].1@);
                crate::search::lemma_filter_step(vs, p, i as int);
            }
            if u8::from(t.status) == status {
                out.push(t.clone());
                proof {
                    assert(views_of(out@) =~= views_of(out0).push(vs[i as int]));
                    assert(p(vs[i as int]));
                }
            }
            i = i + 1;
        }
        proof {
            assert(vs.subrange(0, n as int) =~= vs);
        }
        out
    }

    /// The tasks with the given priority, in storage order.
    pub fn get_tasks_by_priority(&self, priority: u8) -> (r: Vec<Task>)
        requires
            self.wf(),
        ensures
            views_of(r@) == self.task_views().filter(priority_eq_pred(priority)),
    {
        let ghost vs = self.task_views();
        let ghost p = priority_eq_pred(priority);
        let n = self.tasks.len();
        let mut out: Vec<Task> = Vec::new();
        proof {
            reveal(Seq::filter);
            assert(views_of(out@) =~= vs.subrange(0, 0).filter(p));
        }
        let mut i: usize = 0;
        while i < n
            invariant
                self.wf(),
                n == self.tasks.rows().len(),
                vs == self.task_views(),
                p == priority_eq_pred(priority),
                i <= n,
                views_of(out@) == vs.subrange(0, i as int).filter(p),
            decreases n - i,
        {
            let ghost out0 = out@;
            let t = &self.tasks.row(i).1;
            proof {
                assert(vs[i as int] == self.tasks.rows()[i as int].1@);
                crate::search::lemma_filter_step(vs, p, i as int);
            }
            if t.priority == priority {
                out.push(t.clone());
                proof {
                    assert(views_of(out@) =~= views_of(out0).push(vs[i as int]));
                    assert(p(vs[i as int]));
                }
            }
            i = i + 1;
        }
        proof {
            assert(vs.subrange(0, n as int) =~= vs);
        }
        out
    }

    /// The tasks that fall due exactly at `deadline`, in storage order.
    pub fn get_tasks_by_deadline(&self, deadline: u64) -> (r: Vec<Task>)
        requires
            self.wf(),
        ensures
            views_of(r@) == self.task_views().filter(deadline_eq_pred(deadline)),
    {
        let ghost vs = self.task_views();
        let ghost p = deadline_eq_pred(deadline);
        let n = self.tasks.len();
        let mut out: Vec<Task> = Vec::new();
        proof {
            reveal(Seq::filter);
            assert(views_of(out@) =~= vs.subrange(0, 0).filter(p));
        }
        let mut i: usize = 0;
        while i < n
            invariant
                self.wf(),
                n == self.tasks.rows().len(),
                vs == self.task_views(),
                p == deadline_eq_pred(deadline),
                i <= n,
                views_of(out@) == vs.subrange(0, i as int).filter(p),
            decreases n - i,
        {
            let ghost out0 = out@;
            let t = &self.tasks.row(i).1;
            proof {
                assert(vs[i as int] == self.tasks.rows()[i as int].1@);
                crate::search::lemma_filter_step(vs, p, i as int);
            }
            if t.deadline == Some(deadline) {
                out.push(t.clone());
                proof {
                    assert(views_of(out@) =~= views_of(out0).push(vs[i as int]));
                    assert(p(vs[i as int]));
                }
            }
            i = i + 1;
        }
        proof {
            assert(vs.subrange(0, n as int) =~= vs);
        }
        out
    }

    /// The tasks `user` created, in storage order.
    pub fn get_user_created_tasks(&self, user: u64) -> (r: Vec<Task>)
        requires
            self.wf(),
        ensures
            views_of(r@) == self.task_views().filter(created_by_pred(user)),
    {
        let ghost vs = self.task_views();
        let ghost p = created_by_pred(user);
        let n = self.tasks.len();
        let mut out: Vec<Task> = Vec::new();
        proof {
            reveal(Seq::filter);
            assert(views_of(out@) =~= vs.subrange(0, 0).filter(p));
        }
        let mut i: usize = 0;
        while i < n
            invariant
                self.wf(),
                n == self.tasks.rows().len(),
                vs == self.task_views(),
                p == created_by_pred(user),
                i <= n,
                views_of(out@) == vs.subrange(0, i as int).filter(p),
            decreases n - i,
        {
            let ghost out0 = out@;
            let t = &self.tasks.row(i).1;
            proof {
                assert(vs[i as int] == self.tasks.rows()[i as int].1@);
                crate::search::lemma_filter_step(vs, p, i as int);
            }
            if t.creator == user {
                out.push(t.clone());
                proof {
                    assert(views_of(out@) =~= views_of(out0).push(vs[i as int]));
                    assert(p(vs[i as int]));
                }
            }
            i = i + 1;
        }
        proof {
            assert(vs.subrange(0, n as int) =~= vs);
        }
        out
    }

    /// The tasks assigned to `user`, in storage order.
    pub fn get_user_assigned_tasks(&self, user: u64) -> (r: Vec<Task>)
        requires
            self.wf(),
        ensures
            views_of(r@) == self.task_views().filter(assigned_to_pred(user)),
    {
        let ghost vs = self.task_views();
        let ghost p = assigned_to_pred(user);
        let n = self.tasks.len();
        let mut out: Vec<Task> = Vec::new();
        proof {
            reveal(Seq::filter);
            assert(views_of(out@) =~= vs.subrange(0, 0).filter(p));
        }
        let mut i: usize = 0;
        while i < n
            invariant
                self.wf(),
                n == self.tasks.rows().len(),
                vs == self.task_views(),
                p == assigned_to_pred(user),
                i <= n,
                views_of(out@) == vs.subrange(0, i as int).filter(p),
            decreases n - i,
        {
            let ghost out0 = out@;
            let t = &self.tasks.row(i).1;
            proof {
                assert(vs[i as int] == self.tasks.rows()[i as int].1@);
                crate::search::lemma_filter_step(vs, p, i as int);
            }
            if t.assignee == Some(user) {
                out.push(t.clone());
                proof {
                    assert(views_of(out@) =~= views_of(out0).push(vs[i as int]));
                    assert(p(vs[i as int]));
                }
            }
            i = i + 1;
        }
        proof {
            assert(vs.subrange(0, n as int) =~= vs);
        }
        out
    }

    /// The tasks whose deadline falls within the next `within_time`\n    /// time units: strictly future, but not beyond `now + within_time`.
    pub fn get_expiring_tasks(&self, within_time: u64) -> (r: Vec<Task>)
        requires
            self.wf(),
            self.spec_now() + within_time <= u64::MAX,
        ensures
            views_of(r@) == self.task_views().filter(expiring_pred(self.spec_now(), within_time)),
    {
        let ghost vs = self.task_views();
        let ghost p = expiring_pred(self.spec_now(), within_time);
        let n = self.tasks.len();
        let mut out: Vec<Task> = Vec::new();
        proof {
            reveal(Seq::filter);
            assert(views_of(out@) =~= vs.subrange(0, 0).filter(p));
        }
        let mut i: usize = 0;
        while i < n
            invariant
                self.wf(),
                n == self.tasks.rows().len(),
                vs == self.task_views(),
                p == expiring_pred(self.spec_now(), within_time),
                i <= n,
                views_of(out@) == vs.subrange(0, i as int).filter(p),
                self.spec_now() + within_time <= u64::MAX,
            decreases n - i,
        {
            let ghost out0 = out@;
            let t = &self.tasks.row(i).1;
            proof {
                assert(vs[i as int] == self.tasks.rows()[i as int].1@);
                crate::search::lemma_filter_step(vs, p, i as int);
            }
            if (match t.deadline { Some(d) => d > self.now && d <= self.now + within_time, None => false }) {
                out.push(t.clone());
                proof {
                    assert(views_of(out@) =~= views_of(out0).push(vs[i as int]));
                    assert(p(vs[i as int]));
                }
            }
            i = i + 1;
        }
        proof {
            assert(vs.subrange(0, n as int) =~= vs);
        }
        out
    }

    /// Every task whose status is `Pending`.
    pub fn get_pending_tasks(&self) -> (r: Vec<Task>)
        requires
            self.wf(),
        ensures
            views_of(r@) == self.task_views().filter(status_code_pred(0)),
    {
        self.get_tasks_by_status(0)
    }

    /// Every task whose status is `InProgress`.
    pub fn get_in_progress_tasks(&self) -> (r: Vec<Task>)
        requires
            self.wf(),
        ensures
            views_of(r@) == self.task_views().filter(status_code_pred(1)),
    {
        self.get_tasks_by_status(1)
    }

    /// Every task whose status is `Completed`.
    pub fn get_completed_tasks(&self) -> (r: Vec<Task>)
        requires
            self.wf(),
        ensures
            views_of(r@) == self.task_views().filter(status_code_pred(2)),
    {
        self.get_tasks_by_status(2)
    }

    /// The tasks that pass every filter of the search, in storage order.
    fn filter_query(&self, q: &TaskSearchParams) -> (r: Vec<Task>)
        requires
            self.wf(),
        ensures
            views_of(r@) == self.task_views().filter(query_pred(q@)),
    {
        let ghost vs = self.task_views();
        let ghost p = query_pred(q@);
        let n = self.tasks.len();
        let mut out: Vec<Task> = Vec::new();
        proof {
            reveal(Seq::filter);
            assert(views_of(out@) =~= vs.subrange(0, 0).filter(p));
        }
        let mut i: usize = 0;
        while i < n
            invariant
                self.wf(),
                n == self.tasks.rows().len(),
                vs == self.task_views(),
                p == query_pred(q@),
                i <= n,
                views_of(out@) == vs.subrange(0, i as int).filter(p),
            decreases n - i,
        {
            let ghost out0 = out@;
            let t = &self.tasks.row(i).1;
            proof {
                assert(vs[i as int] == self.tasks.rows()[i as int].1@);
                crate::search::lemma_filter_step(vs, p, i as int);
            }
            if crate::search::task_matches_query(t, q) {
                out.push(t.clone());
                proof {
                    assert(views_of(out@) =~= views_of(out0).push(vs[i as int]));
                    assert(p(vs[i as int]));
                }
            }
            i = i + 1;
        }
        proof {
            assert(vs.subrange(0, n as int) =~= vs);
        }
        out
    }

    /// Searches the registry: applies every filter of the request, orders
    /// the matches under the requested sort key, and returns the requested
    /// page.  Tasks with equal keys may come in any order.
    pub fn search_tasks(&self, search_params: TaskSearchParams) -> (r: Vec<Task>)
        requires
            self.wf(),
        ensures
            exists|sorted: Seq<TaskView>|
                {
                    &&& #[trigger] sorted.to_multiset() == self.task_views().filter(
                        query_pred(search_params@),
                    ).to_multiset()
                    &&& sorted_by(sorted, search_params@.sort_by, search_params@.sort_desc)
                    &&& views_of(r@) == page_of(
                        sorted,
                        search_params@.page,
                        search_params@.page_size,
                    )
                },
            sorted_by(views_of(r@), search_params@.sort_by, search_params@.sort_desc),
            forall|i: int|
                0 <= i < r@.len() ==> matches_query(#[trigger] views_of(r@)[i], search_params@),
    {
        broadcast use vstd::seq_lib::group_filter_ensures;

        let filtered = self.filter_query(&search_params);
        let sorted = crate::search::sort_tasks(
            filtered,
            search_params.sort_by,
            search_params.sort_desc,
        );
        let ghost w = views_of(sorted@);
        let out = crate::search::paginate(sorted, search_params.page, search_params.page_size);
        proof {
            broadcast use vstd::seq_lib::group_to_multiset_ensures;

            assert(w.to_multiset() == self.task_views().filter(
                query_pred(search_params@),
            ).to_multiset());
            assert(views_of(out@) == page_of(w, search_params@.page, search_params@.page_size));
            assert forall|i: int|
                0 <= i < out@.len() implies matches_query(
                #[trigger] views_of(out@)[i],
                search_params@,
            ) by {
                let pg = page_of(w, search_params@.page, search_params@.page_size);
                let start = search_params@.page as int * search_params@.page_size as int;
                assert(views_of(out@)[i] == pg[i]);
                assert(pg[i] == w[start + i]);
                assert(w.to_multiset().contains(w[start + i]));
                let f = self.task_views().filter(query_pred(search_params@));
                assert(f.to_multiset().contains(w[start + i]));
                assert(f.contains(w[start + i]));
                let k = choose|k: int| 0 <= k < f.len() && f[k] == w[start + i];
                assert(query_pred(search_params@)(f[k]));
            }
            assert forall|i: int, j: int|
                0 <= i < j < views_of(out@).len() implies in_order(
                #[trigger] views_of(out@)[i],
                #[trigger] views_of(out@)[j],
                search_params@.sort_by,
                search_params@.sort_desc,
            ) by {
                let pg = page_of(w, search_params@.page, search_params@.page_size);
                let start = search_params@.page as int * search_params@.page_size as int;
                assert(views_of(out@)[i] == w[start + i]);
                assert(views_of(out@)[j] == w[start + j]);
                assert(in_order(
                    w[start + i],
                    w[start + j],
                    search_params@.sort_by,
                    search_params@.sort_desc,
                ));
            }
        }
        out
    }

    /// How many tasks the search's filters keep, ignoring sorting and
    /// pagination, for total-count reporting.
    pub fn count_search_results(&self, search_params: TaskSearchParams) -> (r: u32)
        requires
            self.wf(),
        ensures
            r as int == self.task_views().filter(query_pred(search_params@)).len(),
    {
        broadcast use vstd::seq_lib::group_filter_ensures;

        let filtered = self.filter_query(&search_params);
        proof {
            self.lemma_task_count_bounded();
            self.task_views().lemma_filter_len(query_pred(search_params@));
        }
        filtered.len() as u32
    }

    /// Keyword-only search over title and description; an empty keyword
    /// returns nothing at all.
    pub fn quick_search(&self, keyword: Vec<u8>) -> (r: Vec<Task>)
        requires
            self.wf(),
        ensures
            keyword@.len() == 0 ==> r@ == Seq::<Task>::empty(),
            keyword@.len() > 0 ==> views_of(r@) == self.task_views().filter(
                keyword_pred(keyword@),
            ),
    {
        if keyword.len() == 0 {
            return Vec::new();
        }
        let ghost vs = self.task_views();
        let ghost p = keyword_pred(keyword@);
        let n = self.tasks.len();
        let mut out: Vec<Task> = Vec::new();
        proof {
            reveal(Seq::filter);
            assert(views_of(out@) =~= vs.subrange(0, 0).filter(p));
        }
        let mut i: usize = 0;
        while i < n
            invariant
                self.wf(),
                n == self.tasks.rows().len(),
                vs == self.task_views(),
                p == keyword_pred(keyword@),
                keyword@.len() > 0,
                i <= n,
                views_of(out@) == vs.subrange(0, i as int).filter(p),
            decreases n - i,
        {
            let ghost out0 = out@;
            let t = &self.tasks.row(i).1;
            proof {
                assert(vs[i as int] == self.tasks.rows()[i as int].1@);
                crate::search::lemma_filter_step(vs, p, i as int);
            }
            if crate::search::find_ci(&t.title, &keyword) || crate::search::find_ci(
                &t.description,
                &keyword,
            ) {
                out.push(t.clone());
                proof {
                    assert(views_of(out@) =~= views_of(out0).push(vs[i as int]));
                    assert(p(vs[i as int]));
                }
            }
            i = i + 1;
        }
        proof {
            assert(vs.subrange(0, n as int) =~= vs);
        }
        out
    }

    /// A snapshot of counts and aggregates over the whole registry: totals
    /// by status, the sum of all rewards (saturating at the largest
    /// balance), the mean difficulty rounded down, and how many unsettled
    /// tasks are past their deadline.
    pub fn get_task_statistics(&self) -> (stats: TaskStatistics)
        requires
            self.wf(),
        ensures
            stats.total_tasks as int == self.task_views().len(),
            stats.pending_count as int == count_status(self.task_views(), TaskStatus::Pending),
            stats.in_progress_count as int == count_status(
                self.task_views(),
                TaskStatus::InProgress,
            ),
            stats.completed_count as int == count_status(self.task_views(), TaskStatus::Completed),
            stats.cancelled_count as int == count_status(self.task_views(), TaskStatus::Cancelled),
            stats.pending_verification_count as int == count_status(
                self.task_views(),
                TaskStatus::PendingVerification,
            ),
            stats.total_reward as int == if seq_sum(self.task_views(), reward_weight())
                <= u128::MAX as int {
                seq_sum(self.task_views(), reward_weight())
            } else {
                u128::MAX as int
            },
            stats.avg_difficulty as int == if self.task_views().len() > 0 {
                seq_sum(self.task_views(), difficulty_weight()) / self.task_views().len() as int
            } else {
                0
            },
            stats.overdue_count as int == seq_sum(
                self.task_views(),
                overdue_weight(self.spec_now()),
            ),
    {
        proof {
            self.lemma_task_count_bounded();
        }
        let ghost vs = self.task_views();
        let n = self.tasks.len();
        let mut pending: u32 = 0;
        let mut in_progress: u32 = 0;
        let mut completed: u32 = 0;
        let mut cancelled: u32 = 0;
        let mut pending_verification: u32 = 0;
        let mut total_reward: u128 = 0;
        let mut difficulty_sum: u64 = 0;
        let mut overdue: u32 = 0;
        let mut i: usize = 0;
        while i < n
            invariant
                self.wf(),
                n == self.tasks.rows().len(),
                vs == self.task_views(),
                n <= u32::MAX,
                i <= n,
                pending as int == count_status(vs.subrange(0, i as int), TaskStatus::Pending),
                in_progress as int == count_status(
                    vs.subrange(0, i as int),
                    TaskStatus::InProgress,
                ),
                completed as int == count_status(vs.subrange(0, i as int), TaskStatus::Completed),
                cancelled as int == count_status(vs.subrange(0, i as int), TaskStatus::Cancelled),
                pending_verification as int == count_status(
                    vs.subrange(0, i as int),
                    TaskStatus::PendingVerification,
                ),
                pending as int <= i && in_progress as int <= i && completed as int <= i
                    && cancelled as int <= i && pending_verification as int <= i && overdue as int
                    <= i,
                total_reward as int == if seq_sum(vs.subrange(0, i as int), reward_weight())
                    <= u128::MAX as int {
                    seq_sum(vs.subrange(0, i as int), reward_weight())
                } else {
                    u128::MAX as int
                },
                difficulty_sum as int == seq_sum(vs.subrange(0, i as int), difficulty_weight()),
                difficulty_sum as int <= 10 * i as int,
                overdue as int == seq_sum(vs.subrange(0, i as int), overdue_weight(self.spec_now())),
            decreases n - i,
        {
            let t = &self.tasks.row(i).1;
            proof {
                assert(vs[i as int] == self.tasks.rows()[i as int].1@);
                assert(vs.subrange(0, i + 1 as int).drop_last() =~= vs.subrange(0, i as int));
                assert(vs.subrange(0, i + 1 as int).last() == vs[i as int]);
                assert(task_valid(vs[i as int], self.spec_config()));
                assert forall|w: spec_fn(TaskView) -> int| true implies #[trigger] seq_sum(
                    vs.subrange(0, i + 1 as int),
                    w,
                ) == seq_sum(vs.subrange(0, i as int), w) + w(vs[i as int]) by {
                    assert(seq_sum(vs.subrange(0, i + 1 as int), w) == seq_sum(
                        vs.subrange(0, i + 1 as int).drop_last(),
                        w,
                    ) + w(vs.subrange(0, i + 1 as int).last()));
                }
                assert(seq_sum(vs.subrange(0, i as int), reward_weight()) >= 0) by {
                    assert forall|t2: TaskView| #[trigger] reward_weight()(t2) >= 0 by {}
                    lemma_seq_sum_nonneg(vs.subrange(0, i as int), reward_weight());
                }
            }
            match t.status {
                TaskStatus::Pending => {
                    pending = pending + 1;
                },
                TaskStatus::InProgress => {
                    in_progress = in_progress + 1;
                },
                TaskStatus::Completed => {
                    completed = completed + 1;
                },
                TaskStatus::Cancelled => {
                    cancelled = cancelled + 1;
                },
                TaskStatus::PendingVerification => {
                    pending_verification = pending_verification + 1;
                },
            }
            if t.reward > u128::MAX - total_reward {
                total_reward = u128::MAX;
            } else {
                total_reward = total_reward + t.reward;
            }
            difficulty_sum = difficulty_sum + (t.difficulty as u64);
            let is_overdue = match t.deadline {
                Some(d) => d <= self.now && t.status != TaskStatus::Completed && t.status
                    != TaskStatus::Cancelled,
                None => false,
            };
            if is_overdue {
                overdue = overdue + 1;
            }
            i = i + 1;
        }
        proof {
            assert(vs.subrange(0, n as int) =~= vs);
        }
        let total_tasks = n as u32;
        let avg_difficulty: u32 = if n > 0 {
            proof {
                assert(difficulty_sum as int / n as int <= 10) by (nonlinear_arith)
                    requires
                        difficulty_sum as int <= 10 * n as int,
                        n as int > 0,
                ;
            }
            (difficulty_sum / (n as u64)) as u32
        } else {
            0
        };
        TaskStatistics {
            total_tasks,
            pending_count: pending,
            in_progress_count: in_progress,
            completed_count: completed,
            cancelled_count: cancelled,
            pending_verification_count: pending_verification,
            total_reward,
            avg_difficulty,
            overdue_count: overdue,
        }
    }
}

} // verus!
