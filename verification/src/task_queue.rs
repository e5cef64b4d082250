//! Queued background tasks: the task records, the errors and outcomes of their
//! execution, and the in-memory queue that hands them out to workers.
use vstd::prelude::*;
use vstd::string::StrSliceExecFns;
use vstd::string::StringExecFns;

use crate::text::{
    clone_opt_string, first_index_of, lemma_text_less_irreflexive, lemma_text_less_total,
    lemma_text_less_transitive, spec_first_index_of, text_eq, text_less, text_lt,
};

verus! {

/// A task waiting in (or claimed from) the queue.
#[derive(Debug, PartialEq, Eq)]
pub struct TaskQueueRecord {
    pub id: String,
    pub simple_type: String,
    pub priority: i32,
    pub group: Option<String>,
    pub payload: Option<String>,
    pub owner: Option<String>,
    pub order: usize,
}

/// The mathematical content of a [`TaskQueueRecord`].
pub struct TaskView {
    pub id: Seq<char>,
    pub simple_type: Seq<char>,
    pub priority: i32,
    pub group: Option<Seq<char>>,
    pub payload: Option<Seq<char>>,
    pub owner: Option<Seq<char>>,
    pub order: usize,
}

pub open spec fn opt_text_view(o: Option<String>) -> Option<Seq<char>> {
    match o {
        Some(s) => Some(s@),
        None => None,
    }
}

impl View for TaskQueueRecord {
    type V = TaskView;

    open spec fn view(&self) -> TaskView {
        TaskView {
            id: self.id@,
            simple_type: self.simple_type@,
            priority: self.priority,
            group: opt_text_view(self.group),
            payload: opt_text_view(self.payload),
            owner: opt_text_view(self.owner),
            order: self.order,
        }
    }
}

impl Clone for TaskQueueRecord {
    fn clone(&self) -> (r: Self)
        ensures
            r == *self,
    {
        TaskQueueRecord {
            id: self.id.clone(),
            simple_type: self.simple_type.clone(),
            priority: self.priority,
            group: clone_opt_string(&self.group),
            payload: clone_opt_string(&self.payload),
            owner: clone_opt_string(&self.owner),
            order: self.order,
        }
    }
}

/// The type part of a task id: everything before the first `':'`, or the whole id.
pub open spec fn spec_task_type(id: Seq<char>) -> Seq<char> {
    match spec_first_index_of(id, ':') {
        Some(k) => id.take(k),
        None => id,
    }
}

/// The target that a task id names after its type and a `':'` or `'_'` separator.
pub open spec fn spec_task_target(id: Seq<char>, simple_type: Seq<char>) -> Option<Seq<char>> {
    let n = simple_type.len() as int;
    if simple_type.is_prefix_of(id) && n < id.len() && (id[n] == ':' || id[n] == '_') {
        Some(id.skip(n + 1int))
    } else {
        None
    }
}

impl TaskQueueRecord {
    /// A fresh unowned task; its type is the id up to the first `':'`.
    pub fn new(id: &str, priority: i32, group: Option<String>) -> (r: Self)
        ensures
            r@.id == id@,
            r@.simple_type == spec_task_type(id@),
            r.priority == priority,
            r.group == group,
            r.payload is None,
            r.owner is None,
            r.order == 0,
    {
        let simple_type = match first_index_of(id, ':') {
            Some(k) => String::from_str(id.substring_char(0, k)),
            None => String::from_str(id),
        };
        proof {
            assert(id@.subrange(0, 0) =~= id@.take(0));
        }
        TaskQueueRecord {
            id: String::from_str(id),
            simple_type,
            priority,
            group,
            payload: None,
            owner: None,
            order: 0,
        }
    }

    /// The same task carrying `payload`.
    pub fn with_payload(self, payload: &str) -> (r: Self)
        ensures
            r@ == (TaskView { payload: Some(payload@), ..self@ }),
    {
        let mut task = self;
        task.payload = Some(String::from_str(payload));
        task
    }

    /// The same task with its type set explicitly.
    pub fn with_simple_type(self, simple_type: &str) -> (r: Self)
        ensures
            r@ == (TaskView { simple_type: simple_type@, ..self@ }),
    {
        let mut task = self;
        task.simple_type = String::from_str(simple_type);
        task
    }

    /// The part of the id after the task type and one `':'` or `'_'`.
    pub fn target(&self) -> (r: Option<&str>)
        ensures
            match r {
                Some(t) => spec_task_target(self@.id, self@.simple_type) == Some(t@),
                None => spec_task_target(self@.id, self@.simple_type) is None,
            },
    {
        let id = self.id.as_str();
        let prefix = self.simple_type.as_str();
        let n = id.unicode_len();
        let m = prefix.unicode_len();
        if m >= n {
            return None;
        }
        let mut i: usize = 0;
        while i < m
            invariant
                id@ == self@.id,
                prefix@ == self@.simple_type,
                n == id@.len(),
                m == prefix@.len(),
                m < n,
                i <= m,
                forall|j: int| 0 <= j < i ==> id@[j] == prefix@[j],
            decreases m - i,
        {
            if id.get_char(i) != prefix.get_char(i) {
                assert(!prefix@.is_prefix_of(id@)) by {
                    if prefix@.is_prefix_of(id@) {
                        assert(prefix@[i as int] == id@.subrange(0, m as int)[i as int]);
                    }
                }
                return None;
            }
            i = i + 1;
        }
        assert(prefix@.is_prefix_of(id@)) by {
            assert(prefix@ =~= id@.subrange(0, m as int));
        }
        let sep = id.get_char(m);
        if sep == ':' || sep == '_' {
            Some(id.substring_char(m + 1, n))
        } else {
            None
        }
    }
}


/// Why a task could not be processed.
#[derive(Debug, PartialEq, Eq)]
pub struct TaskProcessingError {
    pub message: String,
}

impl Clone for TaskProcessingError {
    fn clone(&self) -> (r: Self)
        ensures
            r == *self,
    {
        TaskProcessingError { message: self.message.clone() }
    }
}

impl TaskProcessingError {
    /// A task whose content is not valid; the message is kept as it is.
    pub fn invalid_task(message: &str) -> (r: Self)
        ensures
            r.message@ == message@,
    {
        TaskProcessingError { message: String::from_str(message) }
    }

    /// A task of a type that no runtime handler knows.
    pub fn unsupported_task(task_type: &str) -> (r: Self)
        ensures
            r.message@ == "unsupported runtime task type: "@ + task_type@,
    {
        let message = String::from_str("unsupported runtime task type: ");
        TaskProcessingError { message: message.concat(task_type) }
    }

    /// A failure while running a task, carrying its full rendered message.
    pub fn runtime(message: &str) -> (r: Self)
        ensures
            r.message@ == message@,
    {
        TaskProcessingError { message: String::from_str(message) }
    }
}

/// What a successful task asks for next.
#[derive(Debug, PartialEq, Eq)]
pub struct TaskExecutionOutcome {
    follow_up_tasks: Vec<TaskQueueRecord>,
}

impl View for TaskExecutionOutcome {
    type V = Seq<TaskView>;

    closed spec fn view(&self) -> Seq<TaskView> {
        tasks_view(self.follow_up_tasks@)
    }
}

impl Clone for TaskExecutionOutcome {
    fn clone(&self) -> (r: Self)
        ensures
            r@ == self@,
    {
        let mut tasks: Vec<TaskQueueRecord> = Vec::new();
        let mut i: usize = 0;
        while i < self.follow_up_tasks.len()
            invariant
                i <= self.follow_up_tasks.len(),
                tasks_view(tasks@) == tasks_view(self.follow_up_tasks@).take(i as int),
            decreases self.follow_up_tasks.len() - i,
        {
            let ghost before = tasks_view(tasks@);
            assert(tasks_view(self.follow_up_tasks@)[i as int] == self.follow_up_tasks@[i as int]@);
            tasks.push(self.follow_up_tasks[i].clone());
            assert(tasks_view(tasks@) =~= before.push(self.follow_up_tasks@[i as int]@));
            assert(tasks_view(self.follow_up_tasks@).take(i + 1) =~= tasks_view(
                self.follow_up_tasks@,
            ).take(i as int).push(self.follow_up_tasks@[i as int]@));
            i = i + 1;
        }
        assert(tasks_view(self.follow_up_tasks@).take(i as int) =~= tasks_view(self.follow_up_tasks@));
        TaskExecutionOutcome { follow_up_tasks: tasks }
    }
}

impl TaskExecutionOutcome {
    /// A completed task with no follow-up.
    pub fn completed() -> (r: Self)
        ensures
            r@ == Seq::<TaskView>::empty(),
    {
        let r = TaskExecutionOutcome { follow_up_tasks: Vec::new() };
        assert(r@ =~= Seq::<TaskView>::empty());
        r
    }

    /// A completed task that asks for `follow_up_tasks`, in this order.
    pub fn with_follow_up_tasks(follow_up_tasks: Vec<TaskQueueRecord>) -> (r: Self)
        ensures
            r@ == tasks_view(follow_up_tasks@),
    {
        TaskExecutionOutcome { follow_up_tasks }
    }

    /// The follow-up tasks, in the order they were given.
    pub fn follow_up_tasks(self) -> (r: Vec<TaskQueueRecord>)
        ensures
            tasks_view(r@) == self@,
    {
        self.follow_up_tasks
    }
}

/// A claimed task and how its execution ended.
#[derive(Debug)]
pub struct TaskExecutionResult {
    pub task: TaskQueueRecord,
    pub outcome: Result<TaskExecutionOutcome, TaskProcessingError>,
}

/// A call that finishing a task's execution makes, in turn.
pub enum FinalizationAction {
    /// Enqueue a task that the execution asked for.
    EnqueueFollowUp(TaskQueueRecord),
    /// Mark the task with this id completed.
    Complete(String),
    /// Record that the task failed with the error.
    Fail(TaskQueueRecord, TaskProcessingError),
}

/// How a task's execution is finished: the calls to make in order, stopping at the
/// first that fails, and the error to answer with once they all succeed.
pub struct FinalizationPlan {
    pub actions: Vec<FinalizationAction>,
    pub failure: Option<TaskProcessingError>,
}

/// What finishing a task's execution does next.
pub enum FinalizationStep {
    /// Make this call, then step again with what came of it.
    Perform(FinalizationAction),
    /// The finalization is over, answered with this.
    Finished(Result<(), TaskProcessingError>),
}

impl FinalizationPlan {
    /// Given what came of the last call made (`Ok(())` before the first), the next call
    /// of the plan to make, or the answer: a call that failed ends the finalization with
    /// its error and drops the calls left; once every call succeeded, the answer is the
    /// plan's failure, where it has one.
    pub fn next_step(&mut self, last: Result<(), TaskProcessingError>) -> (r: FinalizationStep)
        ensures
            final(self).failure == old(self).failure,
            last is Err ==> r == FinalizationStep::Finished(last) && final(self).actions@.len() == 0,
            last is Ok && old(self).actions.len() > 0 ==> r == FinalizationStep::Perform(
                old(self).actions@[0],
            ) && final(self).actions@ == old(self).actions@.drop_first(),
            last is Ok && old(self).actions.len() == 0 ==> r == FinalizationStep::Finished(
                match old(self).failure {
                    Some(e) => Err(e),
                    None => Ok(()),
                },
            ) && final(self).actions@.len() == 0,
    {
        match last {
            Err(error) => {
                self.actions.clear();
                FinalizationStep::Finished(Err(error))
            },
            Ok(()) => {
                if self.actions.len() > 0 {
                    let action = self.actions.remove(0);
                    assert(old(self).actions@.remove(0) =~= old(self).actions@.drop_first());
                    FinalizationStep::Perform(action)
                } else {
                    match &self.failure {
                        Some(e) => FinalizationStep::Finished(Err(e.clone())),
                        None => FinalizationStep::Finished(Ok(())),
                    }
                }
            },
        }
    }
}

/// The plan that finishes an execution: a success enqueues its follow-up tasks in
/// order, then completes the task; a failure records it and is answered with its
/// error.
pub fn plan_task_finalization(task_result: TaskExecutionResult) -> (r: FinalizationPlan)
    ensures
        match task_result.outcome {
            Ok(outcome) => {
                &&& r.failure is None
                &&& r.actions.len() == outcome@.len() + 1
                &&& forall|i: int|
                    0 <= i < outcome@.len() ==> (#[trigger] r.actions@[i] matches FinalizationAction::EnqueueFollowUp(t) && t@ == outcome@[i])
                &&& r.actions@[outcome@.len() as int] matches FinalizationAction::Complete(id) && id@
                    == task_result.task.id@
            },
            Err(error) => {
                &&& r.failure == Some(error)
                &&& r.actions.len() == 1
                &&& r.actions@[0] matches FinalizationAction::Fail(t, e) && t == task_result.task && e
                    == error
            },
        },
{
    let TaskExecutionResult { task, outcome } = task_result;
    match outcome {
        Ok(outcome) => {
            let follow_ups = outcome.follow_up_tasks();
            let mut actions: Vec<FinalizationAction> = Vec::new();
            let mut i: usize = 0;
            while i < follow_ups.len()
                invariant
                    i <= follow_ups.len(),
                    actions.len() == i,
                    forall|k: int|
                        0 <= k < i ==> (#[trigger] actions@[k] matches FinalizationAction::EnqueueFollowUp(t) && t
                            == follow_ups@[k]),
                decreases follow_ups.len() - i,
            {
                actions.push(FinalizationAction::EnqueueFollowUp(follow_ups[i].clone()));
                i = i + 1;
            }
            actions.push(FinalizationAction::Complete(task.id));
            FinalizationPlan { actions, failure: None }
        },
        Err(error) => {
            let mut actions: Vec<FinalizationAction> = Vec::new();
            actions.push(FinalizationAction::Fail(task, error.clone()));
            FinalizationPlan { actions, failure: Some(error) }
        },
    }
}

/// Runs a task that the queue handed out.
pub trait TaskQueueExecutionPort {
    fn execute_claimed_task(&mut self, task: &TaskQueueRecord) -> Result<(), TaskProcessingError>;
}

/// The views of a sequence of task records.
pub open spec fn tasks_view(v: Seq<TaskQueueRecord>) -> Seq<TaskView> {
    v.map_values(|t: TaskQueueRecord| t@)
}

/// The index of the first task whose id is `id`.
pub open spec fn spec_first_with_id(s: Seq<TaskView>, id: Seq<char>) -> Option<int> {
    if exists|i: int| 0 <= i < s.len() && s[i].id == id {
        Some(
            choose|i: int|
                0 <= i < s.len() && s[i].id == id && forall|j: int| 0 <= j < i ==> s[j].id != id,
        )
    } else {
        None
    }
}

/// `t` with its owner replaced.
pub open spec fn with_owner(t: TaskView, owner: Option<Seq<char>>) -> TaskView {
    TaskView { owner, ..t }
}

/// No two tasks share an id.
pub open spec fn unique_ids(s: Seq<TaskView>) -> bool {
    forall|i: int, j: int| 0 <= i < s.len() && 0 <= j < s.len() && i != j ==> s[i].id != s[j].id
}

/// Finds the first task with the given id.
fn find_task(tasks: &Vec<TaskQueueRecord>, id: &str) -> (r: Option<usize>)
    ensures
        match r {
            Some(i) => {
                &&& i < tasks.len()
                &&& spec_first_with_id(tasks_view(tasks@), id@) == Some(i as int)
            },
            None => spec_first_with_id(tasks_view(tasks@), id@) is None,
        },
{
    let ghost s = tasks_view(tasks@);
    let mut i: usize = 0;
    while i < tasks.len()
        invariant
            s == tasks_view(tasks@),
            i <= tasks.len(),
            forall|j: int| 0 <= j < i ==> s[j].id != id@,
        decreases tasks.len() - i,
    {
        if text_eq(tasks[i].id.as_str(), id) {
            let ghost k = choose|k: int|
                0 <= k < s.len() && s[k].id == id@ && forall|j: int| 0 <= j < k ==> s[j].id != id@;
            assert(0 <= i < s.len() && s[i as int].id == id@ && forall|j: int|
                0 <= j < i ==> s[j].id != id@);
            assert(k == i) by {
                if k < i {
                    assert(s[k].id != id@);
                }
                if k > i {
                    assert(s[i as int].id != id@);
                }
            }
            return Some(i);
        }
        i = i + 1;
    }
    None
}

/// Replaces the owner of the task at `i`.
fn set_owner(tasks: &mut Vec<TaskQueueRecord>, i: usize, owner: Option<String>)
    requires
        i < old(tasks).len(),
    ensures
        final(tasks).len() == old(tasks).len(),
        tasks_view(final(tasks)@) == tasks_view(old(tasks)@).update(
            i as int,
            with_owner(tasks_view(old(tasks)@)[i as int], opt_text_view(owner)),
        ),
{
    let mut task = tasks[i].clone();
    task.owner = owner;
    tasks.set(i, task);
    assert(tasks_view(tasks@) =~= tasks_view(old(tasks)@).update(
        i as int,
        with_owner(tasks_view(old(tasks)@)[i as int], opt_text_view(owner)),
    ));
}

pub proof fn lemma_filter_take_step<A>(s: Seq<A>, p: spec_fn(A) -> bool, i: int)
    requires
        0 <= i < s.len(),
    ensures
        s.take(i + 1).filter(p) == (if p(s[i]) {
            s.take(i).filter(p).push(s[i])
        } else {
            s.take(i).filter(p)
        }),
{
    reveal(Seq::filter);
    assert(s.take(i + 1).drop_last() =~= s.take(i));
}

/// `s` keeping only the tasks whose id is not `id`.
pub open spec fn without_id(s: Seq<TaskView>, id: Seq<char>) -> Seq<TaskView> {
    s.filter(|t: TaskView| t.id != id)
}

/// The tasks of `s` that have an owner.
pub open spec fn owned_tasks(s: Seq<TaskView>) -> Seq<TaskView> {
    s.filter(|t: TaskView| t.owner is Some)
}

/// `s` with every owner cleared.
pub open spec fn all_disowned(s: Seq<TaskView>) -> Seq<TaskView> {
    s.map_values(|t: TaskView| with_owner(t, None))
}

/// The queue after `t` is enqueued: stamped with the next order, it replaces an
/// unowned task with the same id, leaves an owned one alone, or goes at the end.
pub open spec fn spec_enqueue(q: TaskQueueView, t: TaskView) -> TaskQueueView {
    let stamped = TaskView { order: q.next_order, ..t };
    TaskQueueView {
        tasks: match spec_first_with_id(q.tasks, t.id) {
            Some(i) => if q.tasks[i].owner is None {
                q.tasks.update(i, stamped)
            } else {
                q.tasks
            },
            None => q.tasks.push(stamped),
        },
        next_order: (q.next_order + 1) as usize,
        ..q
    }
}

/// Some owned task belongs to group `g`.
pub open spec fn group_locked(s: Seq<TaskView>, g: Seq<char>) -> bool {
    exists|k: int| 0 <= k < s.len() && s[k].owner is Some && s[k].group == Some(g)
}

/// The task at `i` is free to be taken: nobody owns it and its group, if any, is not locked.
pub open spec fn available(s: Seq<TaskView>, i: int) -> bool {
    &&& s[i].owner is None
    &&& match s[i].group {
        Some(g) => !group_locked(s, g),
        None => true,
    }
}

/// `a` ranks strictly below `b`: a lower priority, or the same priority and enqueued later.
pub open spec fn ranks_below(a: TaskView, b: TaskView) -> bool {
    a.priority < b.priority || (a.priority == b.priority && a.order > b.order)
}

/// The task at `i` is the one to take next: available, and the last of the highest-ranked
/// available tasks.
pub open spec fn is_next_task(s: Seq<TaskView>, i: int) -> bool {
    &&& 0 <= i < s.len()
    &&& available(s, i)
    &&& forall|j: int|
        0 <= j < s.len() && available(s, j) ==> (j < i ==> !ranks_below(s[i], s[j])) && (i < j
            ==> ranks_below(s[j], s[i]))
}

/// The index of the task to take next, if any.
pub open spec fn spec_next_task(s: Seq<TaskView>) -> Option<int> {
    if exists|i: int| is_next_task(s, i) {
        Some(choose|i: int| is_next_task(s, i))
    } else {
        None
    }
}

/// At most one task is the next one.
pub proof fn lemma_next_task_unique(s: Seq<TaskView>, i: int, j: int)
    requires
        is_next_task(s, i),
        is_next_task(s, j),
    ensures
        i == j,
{
    if i < j {
        assert(ranks_below(s[j], s[i]));
        assert(!ranks_below(s[j], s[i]));
    } else if j < i {
        assert(ranks_below(s[i], s[j]));
        assert(!ranks_below(s[i], s[j]));
    }
}

/// The queue after `owner` takes the next task, and the task it took.
pub open spec fn spec_take_available(q: TaskQueueView, owner: Seq<char>) -> (TaskQueueView, Option<TaskView>) {
    match spec_next_task(q.tasks) {
        Some(i) => {
            let t = with_owner(q.tasks[i], Some(owner));
            (TaskQueueView { tasks: q.tasks.update(i, t), ..q }, Some(t))
        },
        None => (q, None),
    }
}

pub open spec fn opt_task_view(o: Option<TaskQueueRecord>) -> Option<TaskView> {
    match o {
        Some(t) => Some(t@),
        None => None,
    }
}

/// Whether an owned task holds `group`.
fn group_is_locked(tasks: &Vec<TaskQueueRecord>, group: &String) -> (r: bool)
    ensures
        r == group_locked(tasks_view(tasks@), group@),
{
    let ghost s = tasks_view(tasks@);
    let mut k: usize = 0;
    while k < tasks.len()
        invariant
            s == tasks_view(tasks@),
            k <= tasks.len(),
            forall|j: int| 0 <= j < k ==> !(s[j].owner is Some && s[j].group == Some(group@)),
        decreases tasks.len() - k,
    {
        assert(s[k as int] == tasks@[k as int]@);
        if tasks[k].owner.is_some() {
            match &tasks[k].group {
                Some(g) => {
                    if *g == *group {
                        return true;
                    }
                },
                None => {},
            }
        }
        k = k + 1;
    }
    false
}

/// Whether the task at `i` can be taken.
fn is_available(tasks: &Vec<TaskQueueRecord>, i: usize) -> (r: bool)
    requires
        i < tasks.len(),
    ensures
        r == available(tasks_view(tasks@), i as int),
{
    assert(tasks_view(tasks@)[i as int] == tasks@[i as int]@);
    if tasks[i].owner.is_some() {
        return false;
    }
    match &tasks[i].group {
        Some(g) => !group_is_locked(tasks, g),
        None => true,
    }
}

/// The best available task among the first `k`, scanning as `take_available` does.
spec fn best_in_prefix(s: Seq<TaskView>, k: int) -> Option<int>
    decreases k,
{
    if k <= 0 {
        None
    } else {
        let prev = best_in_prefix(s, k - 1);
        if available(s, k - 1) {
            match prev {
                None => Some(k - 1),
                Some(b) => if ranks_below(s[k - 1], s[b]) {
                    Some(b)
                } else {
                    Some(k - 1)
                },
            }
        } else {
            prev
        }
    }
}

proof fn lemma_best_in_prefix(s: Seq<TaskView>, k: int)
    requires
        0 <= k <= s.len(),
    ensures
        match best_in_prefix(s, k) {
            None => forall|j: int| 0 <= j < k ==> !available(s, j),
            Some(b) => {
                &&& 0 <= b < k
                &&& available(s, b)
                &&& forall|j: int|
                    0 <= j < k && available(s, j) ==> (j < b ==> !ranks_below(s[b], s[j])) && (b
                        < j ==> ranks_below(s[j], s[b]))
            },
        },
    decreases k,
{
    if k > 0 {
        lemma_best_in_prefix(s, k - 1);
    }
}

/// A task is handed out exactly when one is available.
pub proof fn lemma_next_task_exists(s: Seq<TaskView>)
    ensures
        (spec_next_task(s) is Some) == (exists|i: int| 0 <= i < s.len() && available(s, i)),
        match spec_next_task(s) {
            Some(i) => is_next_task(s, i),
            None => true,
        },
{
    lemma_best_in_prefix(s, s.len() as int);
    match best_in_prefix(s, s.len() as int) {
        Some(b) => {
            assert(is_next_task(s, b));
        },
        None => {
            if exists|i: int| is_next_task(s, i) {
                let i = choose|i: int| is_next_task(s, i);
                assert(available(s, i));
            }
        },
    }
}

/// The ids of the tasks, in order.
pub open spec fn task_ids(s: Seq<TaskView>) -> Seq<Seq<char>> {
    s.map_values(|t: TaskView| t.id)
}

/// Taking a task changes no id and keeps the taken task in the queue.
pub proof fn lemma_take_available_keeps_ids(q: TaskQueueView, owner: Seq<char>)
    ensures
        task_ids(spec_take_available(q, owner).0.tasks) == task_ids(q.tasks),
        spec_take_available(q, owner).0.consumer_owner == q.consumer_owner,
        match spec_take_available(q, owner).1 {
            Some(t) => exists|i: int|
                0 <= i < q.tasks.len() && spec_take_available(q, owner).0.tasks[i] == t
                    && t.id == q.tasks[i].id,
            None => spec_take_available(q, owner).0 == q,
        },
{
    lemma_next_task_exists(q.tasks);
    match spec_next_task(q.tasks) {
        Some(i) => {
            let t = with_owner(q.tasks[i], Some(owner));
            assert(task_ids(q.tasks.update(i, t)) =~= task_ids(q.tasks));
            assert(q.tasks.update(i, t)[i] == t);
            assert(spec_take_available(q, owner).0.tasks[i] == t && t.id == q.tasks[i].id);
        },
        None => {},
    }
}

/// The queue after up to `n` takes by the consumer, and the tasks taken, in order.
pub open spec fn spec_take_batch(q: TaskQueueView, n: nat) -> (TaskQueueView, Seq<TaskView>)
    decreases n,
{
    if n == 0 {
        (q, Seq::empty())
    } else {
        let (q1, taken) = spec_take_available(q, q.consumer_owner);
        match taken {
            None => (q, Seq::empty()),
            Some(t) => {
                let (q2, rest) = spec_take_batch(q1, (n - 1) as nat);
                (q2, seq![t] + rest)
            },
        }
    }
}

/// What `take_available_batch` does to the queue and returns.
pub open spec fn spec_take_available_batch(q: TaskQueueView) -> (TaskQueueView, Seq<TaskView>) {
    if !q.consumes_queue {
        (q, Seq::empty())
    } else if q.task_pool_size <= 1 {
        spec_take_batch(q, 1)
    } else {
        spec_take_batch(q, q.task_pool_size as nat)
    }
}

/// With a pool of one task, which is the pool that a new queue has, a batch is the one
/// task that `take_available` picks for the consumer on the queue as it stands, or none:
/// each task that processing hands to the executor is that pick.
pub proof fn lemma_single_task_batches(q: TaskQueueView)
    requires
        q.consumes_queue,
        q.task_pool_size <= 1,
    ensures
        spec_take_available_batch(q) == match spec_take_available(q, q.consumer_owner) {
            (q1, Some(t)) => (q1, seq![t]),
            (_, None) => (q, Seq::<TaskView>::empty()),
        },
{
    let (q1, taken) = spec_take_available(q, q.consumer_owner);
    assert(spec_take_batch(q1, 0) == (q1, Seq::<TaskView>::empty()));
    match taken {
        Some(t) => {
            assert(seq![t] + Seq::<TaskView>::empty() =~= seq![t]);
        },
        None => {},
    }
}

/// `pos` places each task of `taken` at a distinct, unowned position of `q` with the same id.
pub open spec fn batch_positions(q: TaskQueueView, taken: Seq<TaskView>, pos: Seq<int>) -> bool {
    &&& pos.len() == taken.len()
    &&& forall|k: int|
        0 <= k < pos.len() ==> 0 <= #[trigger] pos[k] < q.tasks.len() && q.tasks[pos[k]].id
            == taken[k].id && q.tasks[pos[k]].owner is None
    &&& forall|k: int, m: int| 0 <= k < m < pos.len() ==> #[trigger] pos[k] != #[trigger] pos[m]
}

/// A batch changes no id and leaves the rest of the queue's state unchanged; its tasks
/// were unowned and sit at distinct places, and an empty batch means nothing was available.
pub proof fn lemma_take_batch_facts(q: TaskQueueView, n: nat)
    ensures
        task_ids(spec_take_batch(q, n).0.tasks) == task_ids(q.tasks),
        spec_take_batch(q, n).0.consumer_owner == q.consumer_owner,
        spec_take_batch(q, n).0.consumes_queue == q.consumes_queue,
        spec_take_batch(q, n).0.task_pool_size == q.task_pool_size,
        spec_take_batch(q, n).0.next_order == q.next_order,
        spec_take_batch(q, n).1.len() <= n,
        exists|pos: Seq<int>| batch_positions(q, spec_take_batch(q, n).1, pos),
        (n > 0 && spec_take_batch(q, n).1.len() == 0) ==> spec_take_batch(q, n).0 == q && forall|
            i: int,
        | 0 <= i < q.tasks.len() ==> !available(q.tasks, i),
    decreases n,
{
    if n == 0 {
        assert(batch_positions(q, spec_take_batch(q, n).1, Seq::empty()));
    } else {
        lemma_take_available_keeps_ids(q, q.consumer_owner);
        lemma_next_task_exists(q.tasks);
        let (q1, taken) = spec_take_available(q, q.consumer_owner);
        match taken {
            None => {
                assert(batch_positions(q, spec_take_batch(q, n).1, Seq::empty()));
            },
            Some(t) => {
                lemma_take_batch_facts(q1, (n - 1) as nat);
                let (q2, rest) = spec_take_batch(q1, (n - 1) as nat);
                let i = spec_next_task(q.tasks)->0;
                let pos1 = choose|pos: Seq<int>| batch_positions(q1, rest, pos);
                let pos = seq![i] + pos1;
                assert(q1.tasks[i].owner is Some);
                assert forall|k: int| 0 <= k < pos.len() implies 0 <= #[trigger] pos[k] < q.tasks.len()
                    && q.tasks[pos[k]].id == (seq![t] + rest)[k].id && q.tasks[pos[k]].owner is None by {
                    if k > 0 {
                        assert(pos[k] == pos1[k - 1]);
                        assert(pos1[k - 1] != i);
                        assert(q1.tasks[pos1[k - 1]] == q.tasks[pos1[k - 1]]);
                    }
                }
                assert forall|k: int, m: int| 0 <= k < m < pos.len() implies #[trigger] pos[k]
                    != #[trigger] pos[m] by {
                    if k > 0 {
                        assert(pos[k] == pos1[k - 1] && pos[m] == pos1[m - 1]);
                    } else {
                        assert(pos[m] == pos1[m - 1]);
                    }
                }
                assert(spec_take_batch(q, n).1 == seq![t] + rest);
                assert(batch_positions(q, spec_take_batch(q, n).1, pos));
            },
        }
    }
}

/// Taking a batch claims unowned tasks for the consumer and changes nothing else; each
/// task it changed is one it handed out.
pub proof fn lemma_take_batch_changes(q: TaskQueueView, n: nat)
    ensures
        spec_take_batch(q, n).0.tasks.len() == q.tasks.len(),
        forall|i: int|
            0 <= i < q.tasks.len() ==> {
                let t = #[trigger] spec_take_batch(q, n).0.tasks[i];
                t == q.tasks[i] || (q.tasks[i].owner is None && t == with_owner(
                    q.tasks[i],
                    Some(q.consumer_owner),
                ))
            },
        forall|i: int|
            0 <= i < q.tasks.len() && #[trigger] spec_take_batch(q, n).0.tasks[i] != q.tasks[i]
                ==> has_id(spec_take_batch(q, n).1, q.tasks[i].id),
        forall|k: int|
            0 <= k < spec_take_batch(q, n).1.len() ==> (#[trigger] spec_take_batch(q, n).1[k]).owner
                == Some(q.consumer_owner),
        (forall|i: int| 0 <= i < q.tasks.len() ==> !available(q.tasks, i)) ==> spec_take_batch(
            q,
            n,
        ).1.len() == 0,
        forall|k: int|
            0 <= k < spec_take_batch(q, n).1.len() ==> spec_take_batch(q, n).0.tasks.contains(
                #[trigger] spec_take_batch(q, n).1[k],
            ),
    decreases n,
{
    if n > 0 {
        lemma_next_task_exists(q.tasks);
        let (q1, taken) = spec_take_available(q, q.consumer_owner);
        match taken {
            None => {},
            Some(t) => {
                lemma_take_batch_changes(q1, (n - 1) as nat);
                let (q2, rest) = spec_take_batch(q1, (n - 1) as nat);
                let i0 = spec_next_task(q.tasks)->0;
                assert(q2 == spec_take_batch(q, n).0);
                assert(spec_take_batch(q, n).1 == seq![t] + rest);
                assert forall|i: int| 0 <= i < q.tasks.len() implies {
                    let t2 = #[trigger] spec_take_batch(q, n).0.tasks[i];
                    t2 == q.tasks[i] || (q.tasks[i].owner is None && t2 == with_owner(
                        q.tasks[i],
                        Some(q.consumer_owner),
                    ))
                } by {
                    if i == i0 {
                        assert(q1.tasks[i] == with_owner(q.tasks[i], Some(q.consumer_owner)));
                        assert(q1.tasks[i].owner is Some);
                        assert(q2.tasks[i] == q1.tasks[i]);
                    } else {
                        assert(q1.tasks[i] == q.tasks[i]);
                    }
                }
                assert(q2.tasks[i0] == q1.tasks[i0]) by {
                    assert(q1.tasks[i0].owner is Some);
                }
                assert forall|k: int| 0 <= k < spec_take_batch(q, n).1.len() implies spec_take_batch(
                    q,
                    n,
                ).0.tasks.contains(#[trigger] spec_take_batch(q, n).1[k]) by {
                    let all = seq![t] + rest;
                    if k > 0 {
                        assert(all[k] == rest[k - 1]);
                    } else {
                        assert(q2.tasks[i0] == t);
                    }
                }
                assert forall|k: int| 0 <= k < spec_take_batch(q, n).1.len() implies (
                #[trigger] spec_take_batch(q, n).1[k]).owner == Some(q.consumer_owner) by {
                    let all = seq![t] + rest;
                    if k > 0 {
                        assert(all[k] == rest[k - 1]);
                    }
                }
                assert forall|i: int|
                    0 <= i < q.tasks.len() && #[trigger] spec_take_batch(q, n).0.tasks[i]
                        != q.tasks[i] implies has_id(spec_take_batch(q, n).1, q.tasks[i].id) by {
                    let all = seq![t] + rest;
                    if i == i0 {
                        assert(all[0].id == q.tasks[i].id);
                    } else {
                        assert(q1.tasks[i] == q.tasks[i]);
                        let m = choose|m: int| 0 <= m < rest.len() && rest[m].id == q1.tasks[i].id;
                        assert(all[m + 1] == rest[m]);
                    }
                }
            },
        }
    }
}

proof fn lemma_min_witness(s: Seq<TaskView>, id: Seq<char>, k: int)
    requires
        0 <= k < s.len(),
        s[k].id == id,
    ensures
        exists|i: int|
            0 <= i < s.len() && s[i].id == id && forall|j: int| 0 <= j < i ==> s[j].id != id,
    decreases k,
{
    if exists|j: int| 0 <= j < k && s[j].id == id {
        let j = choose|j: int| 0 <= j < k && s[j].id == id;
        lemma_min_witness(s, id, j);
    } else {
        assert(0 <= k < s.len() && s[k].id == id && forall|j: int| 0 <= j < k ==> s[j].id != id);
    }
}

/// The first task with an id, when there is one, is a task with that id.
proof fn lemma_first_with_id(s: Seq<TaskView>, id: Seq<char>)
    ensures
        match spec_first_with_id(s, id) {
            Some(i) => 0 <= i < s.len() && s[i].id == id,
            None => !has_id(s, id),
        },
{
    if exists|i: int| 0 <= i < s.len() && s[i].id == id {
        let k = choose|i: int| 0 <= i < s.len() && s[i].id == id;
        lemma_min_witness(s, id, k);
    }
}

/// Every task of `b` is, unchanged, a task of `a`.
pub open spec fn tasks_kept_from(a: Seq<TaskView>, b: Seq<TaskView>) -> bool {
    forall|i: int| 0 <= i < b.len() ==> a.contains(#[trigger] b[i])
}

/// Every task of `s` whose id is among `pending` becomes, once released, a task of `a`;
/// every other task of `s` already is one.
pub open spec fn claims_released_into(a: Seq<TaskView>, s: Seq<TaskView>, pending: Seq<TaskView>) -> bool {
    forall|i: int|
        0 <= i < s.len() ==> if has_id(pending, #[trigger] s[i].id) {
            a.contains(with_owner(s[i], None))
        } else {
            a.contains(s[i])
        }
}

/// The tasks after the first task with `id` is released.
pub open spec fn spec_disowned(s: Seq<TaskView>, id: Seq<char>) -> Seq<TaskView> {
    match spec_first_with_id(s, id) {
        Some(i) => s.update(i, with_owner(s[i], None)),
        None => s,
    }
}

proof fn lemma_claims_after_take(a: Seq<TaskView>, before: TaskQueueView, n: nat)
    requires
        tasks_kept_from(a, before.tasks),
        unique_ids(before.tasks),
    ensures
        claims_released_into(a, spec_take_batch(before, n).0.tasks, spec_take_batch(before, n).1),
{
    lemma_take_batch_facts(before, n);
    lemma_take_batch_changes(before, n);
    let (mid, taken) = spec_take_batch(before, n);
    let pos = choose|pos: Seq<int>| batch_positions(before, taken, pos);
    assert forall|i: int| 0 <= i < mid.tasks.len() implies if has_id(taken, #[trigger] mid.tasks[i].id) {
        a.contains(with_owner(mid.tasks[i], None))
    } else {
        a.contains(mid.tasks[i])
    } by {
        let b = before.tasks[i];
        assert(a.contains(b));
        assert(mid.tasks[i].id == b.id);
        if has_id(taken, mid.tasks[i].id) {
            let m = choose|m: int| 0 <= m < taken.len() && taken[m].id == mid.tasks[i].id;
            let j = pos[m];
            assert(before.tasks[j].id == b.id && before.tasks[j].owner is None);
            if j != i {
                assert(before.tasks[j].id != before.tasks[i].id);
            }
            assert(with_owner(mid.tasks[i], None) == b);
        } else {
            if mid.tasks[i] != b {
                assert(has_id(taken, b.id));
            }
        }
    }
}

proof fn lemma_claims_after_complete(a: Seq<TaskView>, cur: Seq<TaskView>, tv: Seq<TaskView>, k: int)
    requires
        0 <= k < tv.len(),
        claims_released_into(a, cur, tv.subrange(k, tv.len() as int)),
    ensures
        claims_released_into(a, without_id(cur, tv[k].id), tv.subrange(k + 1, tv.len() as int)),
{
    let id = tv[k].id;
    let p = |t: TaskView| t.id != id;
    let f = cur.filter(p);
    let rest = tv.subrange(k, tv.len() as int);
    let rest1 = tv.subrange(k + 1, tv.len() as int);
    assert forall|i: int| 0 <= i < f.len() implies if has_id(rest1, #[trigger] f[i].id) {
        a.contains(with_owner(f[i], None))
    } else {
        a.contains(f[i])
    } by {
        let e = f[i];
        cur.lemma_filter_pred(p, i);
        assert(f.contains(e));
        cur.lemma_filter_contains_rev(p, e);
        let j = choose|j: int| 0 <= j < cur.len() && cur[j] == e;
        assert(cur[j] == e);
        if has_id(rest1, e.id) {
            let m = choose|m: int| 0 <= m < rest1.len() && rest1[m].id == e.id;
            assert(rest[m + 1] == rest1[m]);
            assert(has_id(rest, e.id));
        } else {
            if has_id(rest, e.id) {
                let m = choose|m: int| 0 <= m < rest.len() && rest[m].id == e.id;
                if m == 0 {
                    assert(rest[0].id == id);
                } else {
                    assert(rest1[m - 1] == rest[m]);
                }
            }
        }
    }
}

proof fn lemma_claims_after_release(a: Seq<TaskView>, cur: Seq<TaskView>, tv: Seq<TaskView>, k: int)
    requires
        0 <= k < tv.len(),
        claims_released_into(a, cur, tv.subrange(k, tv.len() as int)),
        has_id(cur, tv[k].id),
        unique_ids(cur),
        forall|x: int, y: int| 0 <= x < y < tv.len() ==> #[trigger] tv[x].id != #[trigger] tv[y].id,
    ensures
        claims_released_into(a, spec_disowned(cur, tv[k].id), tv.subrange(k + 1, tv.len() as int)),
        spec_disowned(cur, tv[k].id).len() == cur.len(),
        forall|i: int| 0 <= i < cur.len() ==> #[trigger] spec_disowned(cur, tv[k].id)[i].id == cur[i].id,
{
    let id = tv[k].id;
    lemma_first_with_id(cur, id);
    let j = spec_first_with_id(cur, id)->0;
    let d = spec_disowned(cur, id);
    let rest = tv.subrange(k, tv.len() as int);
    let rest1 = tv.subrange(k + 1, tv.len() as int);
    assert(!has_id(rest1, id)) by {
        if has_id(rest1, id) {
            let m = choose|m: int| 0 <= m < rest1.len() && rest1[m].id == id;
            assert(tv[k + 1 + m].id == tv[k].id);
        }
    }
    assert(has_id(rest, id)) by {
        assert(rest[0].id == id);
    }
    assert forall|i: int| 0 <= i < d.len() implies if has_id(rest1, #[trigger] d[i].id) {
        a.contains(with_owner(d[i], None))
    } else {
        a.contains(d[i])
    } by {
        if i == j {
            assert(d[i] == with_owner(cur[j], None));
            assert(has_id(rest, cur[j].id));
            assert(with_owner(d[i], None) == d[i]);
        } else {
            assert(d[i] == cur[i]);
            assert(cur[i].id != id) by {
                if i < j {
                    assert(cur[i].id != cur[j].id);
                } else {
                    assert(cur[j].id != cur[i].id);
                }
            }
            if has_id(rest, cur[i].id) {
                let m = choose|m: int| 0 <= m < rest.len() && rest[m].id == cur[i].id;
                assert(m != 0);
                assert(rest1[m - 1] == rest[m]);
            }
            if has_id(rest1, cur[i].id) {
                let m = choose|m: int| 0 <= m < rest1.len() && rest1[m].id == cur[i].id;
                assert(rest[m + 1] == rest1[m]);
            }
        }
    }
}

/// Whether the executor answered success when asked to run `task`, claimed for `owner`.
pub open spec fn executor_ran_ok<E: TaskQueueExecutionPort>(task: TaskView, owner: Seq<char>) -> bool {
    exists|ex: &mut E, t: &TaskQueueRecord|
        #![trigger call_ensures(E::execute_claimed_task, (ex, t), Ok::<(), TaskProcessingError>(()))]
        call_ensures(E::execute_claimed_task, (ex, t), Ok::<(), TaskProcessingError>(())) && t@
            == with_owner(task, Some(owner))
}

/// Every task of `before` that is gone from `after` was run, claimed for `owner`, with
/// success.
pub open spec fn removed_only_after_success<E: TaskQueueExecutionPort>(
    owner: Seq<char>,
    before: Seq<TaskView>,
    after: Seq<TaskView>,
) -> bool {
    forall|i: int|
        0 <= i < before.len() && !has_id(after, #[trigger] before[i].id)
            ==> executor_ran_ok::<E>(before[i], owner)
}

/// What a run of processing comes to: the queue it leaves, the failure it stops at, if
/// any, how many tasks it completed, and the tasks it handed to the executor, in order.
pub type ProcessingOutcome = (TaskQueueView, Option<TaskProcessingError>, nat, Seq<TaskView>);

/// Processing `q`, with the tasks `pending` of the current batch still to run, when the
/// executor gives `answers` in turn: each task is handed over in its batch's order; a
/// success completes it, and a failure releases it and the rest of its batch and ends
/// the run; once a batch is run, the next is taken as `take_available_batch` takes it,
/// and the run ends at the first empty one. `None` where the answers are not exactly
/// those that the run asks for.
pub open spec fn spec_process(
    q: TaskQueueView,
    pending: Seq<TaskView>,
    answers: Seq<Result<(), TaskProcessingError>>,
) -> Option<ProcessingOutcome>
    decreases answers.len(), (if pending.len() == 0 { 1int } else { 0int }),
{
    if pending.len() == 0 {
        let (mid, batch) = spec_take_available_batch(q);
        if batch.len() == 0 {
            if answers.len() == 0 {
                Some((q, None, 0, Seq::empty()))
            } else {
                None
            }
        } else {
            spec_process(mid, batch, answers)
        }
    } else if answers.len() == 0 {
        None
    } else {
        let t = pending[0];
        match answers[0] {
            Ok(_) => match spec_process(
                TaskQueueView { tasks: without_id(q.tasks, t.id), ..q },
                pending.drop_first(),
                answers.drop_first(),
            ) {
                Some((q2, failure, done, handed)) => Some((q2, failure, done + 1, seq![t] + handed)),
                None => None,
            },
            Err(e) => if answers.len() == 1 {
                Some((
                    TaskQueueView { tasks: spec_release_all(q.tasks, pending), ..q },
                    Some(e),
                    0,
                    seq![t],
                ))
            } else {
                None
            },
        }
    }
}

/// A run's outcome after `done` completions and the handing over of `handed` before it.
pub open spec fn after_prefix(done: nat, handed: Seq<TaskView>, o: Option<ProcessingOutcome>) -> Option<
    ProcessingOutcome,
> {
    match o {
        Some((q, failure, d, h)) => Some((q, failure, done + d, handed + h)),
        None => None,
    }
}

/// Whether processing `before`, with the executor giving `answers` in turn, leaves the
/// queue `after`, stops at `failure`, if any, completes `done` tasks, and hands the
/// executor the tasks `handed`.
pub open spec fn run_is(
    before: TaskQueueView,
    answers: Seq<Result<(), TaskProcessingError>>,
    after: TaskQueueView,
    failure: Option<TaskProcessingError>,
    done: nat,
    handed: Seq<TaskView>,
) -> bool {
    spec_process(before, Seq::empty(), answers) == Some((after, failure, done, handed))
}

/// Processing from `q0`, with the answers `answers` given so far, has completed `done`
/// tasks, handed over `handed`, and stands at the queue `cur` with `pending` left of the
/// current batch: whatever the answers to come, the run goes on from there.
pub open spec fn run_continues(
    q0: TaskQueueView,
    answers: Seq<Result<(), TaskProcessingError>>,
    done: nat,
    handed: Seq<TaskView>,
    cur: TaskQueueView,
    pending: Seq<TaskView>,
) -> bool {
    forall|b: Seq<Result<(), TaskProcessingError>>|
        #![trigger spec_process(cur, pending, b)]
        spec_process(q0, Seq::empty(), answers + b) == after_prefix(done, handed, spec_process(cur, pending, b))
}

proof fn lemma_run_start(q0: TaskQueueView)
    ensures
        run_continues(q0, Seq::empty(), 0, Seq::empty(), q0, Seq::empty()),
{
    assert forall|b: Seq<Result<(), TaskProcessingError>>|
        #![trigger spec_process(q0, Seq::<TaskView>::empty(), b)]
        spec_process(q0, Seq::empty(), Seq::<Result<(), TaskProcessingError>>::empty() + b)
            == after_prefix(0, Seq::empty(), spec_process(q0, Seq::empty(), b)) by {
        assert(Seq::<Result<(), TaskProcessingError>>::empty() + b =~= b);
        match spec_process(q0, Seq::empty(), b) {
            Some((q, f, d, h)) => {
                assert(Seq::<TaskView>::empty() + h =~= h);
            },
            None => {},
        }
    }
}

proof fn lemma_run_batch(
    q0: TaskQueueView,
    answers: Seq<Result<(), TaskProcessingError>>,
    done: nat,
    handed: Seq<TaskView>,
    before: TaskQueueView,
)
    requires
        run_continues(q0, answers, done, handed, before, Seq::empty()),
        spec_take_available_batch(before).1.len() > 0,
    ensures
        run_continues(
            q0,
            answers,
            done,
            handed,
            spec_take_available_batch(before).0,
            spec_take_available_batch(before).1,
        ),
{
    let (mid, batch) = spec_take_available_batch(before);
    assert forall|b: Seq<Result<(), TaskProcessingError>>|
        #![trigger spec_process(mid, batch, b)]
        spec_process(q0, Seq::empty(), answers + b) == after_prefix(done, handed, spec_process(mid, batch, b)) by {
        assert(spec_process(before, Seq::empty(), b) == spec_process(mid, batch, b));
    }
}

proof fn lemma_run_ok(
    q0: TaskQueueView,
    answers: Seq<Result<(), TaskProcessingError>>,
    done: nat,
    handed: Seq<TaskView>,
    cur: TaskQueueView,
    pending: Seq<TaskView>,
    a: Result<(), TaskProcessingError>,
)
    requires
        run_continues(q0, answers, done, handed, cur, pending),
        pending.len() > 0,
        a is Ok,
    ensures
        run_continues(
            q0,
            answers.push(a),
            done + 1,
            handed.push(pending[0]),
            TaskQueueView { tasks: without_id(cur.tasks, pending[0].id), ..cur },
            pending.drop_first(),
        ),
{
    let t = pending[0];
    let next = TaskQueueView { tasks: without_id(cur.tasks, t.id), ..cur };
    let rest = pending.drop_first();
    assert forall|b: Seq<Result<(), TaskProcessingError>>|
        #![trigger spec_process(next, rest, b)]
        spec_process(q0, Seq::empty(), answers.push(a) + b) == after_prefix(
            done + 1,
            handed.push(t),
            spec_process(next, rest, b),
        ) by {
        let ab = seq![a] + b;
        assert(answers.push(a) + b =~= answers + ab);
        assert(ab[0] == a);
        assert(ab.drop_first() =~= b);
        assert(spec_process(q0, Seq::empty(), answers + ab) == after_prefix(done, handed, spec_process(cur, pending, ab)));
        match spec_process(next, rest, b) {
            Some((q2, f, d, h)) => {
                assert(handed + (seq![t] + h) =~= handed.push(t) + h);
            },
            None => {},
        }
    }
}

proof fn lemma_run_err(
    q0: TaskQueueView,
    answers: Seq<Result<(), TaskProcessingError>>,
    done: nat,
    handed: Seq<TaskView>,
    cur: TaskQueueView,
    pending: Seq<TaskView>,
    e: TaskProcessingError,
)
    requires
        run_continues(q0, answers, done, handed, cur, pending),
        pending.len() > 0,
    ensures
        run_is(
            q0,
            answers.push(Err(e)),
            TaskQueueView { tasks: spec_release_all(cur.tasks, pending), ..cur },
            Some(e),
            done,
            handed.push(pending[0]),
        ),
{
    let b = seq![Err::<(), TaskProcessingError>(e)];
    assert(answers.push(Err(e)) =~= answers + b);
    assert(spec_process(q0, Seq::empty(), answers + b) == after_prefix(done, handed, spec_process(cur, pending, b)));
    assert(handed + seq![pending[0]] =~= handed.push(pending[0]));
}

proof fn lemma_run_end(
    q0: TaskQueueView,
    answers: Seq<Result<(), TaskProcessingError>>,
    done: nat,
    handed: Seq<TaskView>,
    cur: TaskQueueView,
)
    requires
        run_continues(q0, answers, done, handed, cur, Seq::empty()),
        spec_take_available_batch(cur).1.len() == 0,
    ensures
        run_is(q0, answers, cur, None, done, handed),
{
    let b = Seq::<Result<(), TaskProcessingError>>::empty();
    assert(answers + b =~= answers);
    assert(spec_process(q0, Seq::empty(), answers + b) == after_prefix(done, handed, spec_process(cur, Seq::empty(), b)));
    assert(handed + Seq::<TaskView>::empty() =~= handed);
}

/// Whether the executor answered `error` when asked to run a task claimed for `owner`.
pub open spec fn executor_failed_on_claimed<E: TaskQueueExecutionPort>(
    owner: Seq<char>,
    error: TaskProcessingError,
    tasks: Seq<TaskView>,
) -> bool {
    exists|ex: &mut E, t: &TaskQueueRecord|
        #![trigger call_ensures(E::execute_claimed_task, (ex, t), Err::<(), TaskProcessingError>(error))]
        call_ensures(E::execute_claimed_task, (ex, t), Err::<(), TaskProcessingError>(error))
            && t@.owner == Some(owner) && tasks.contains(with_owner(t@, None))
}

/// Releasing the first task with an id leaves a task with another id as it is.
proof fn lemma_disowned_keeps_other(s: Seq<TaskView>, id: Seq<char>, x: TaskView)
    requires
        s.contains(x),
        x.id != id,
    ensures
        spec_disowned(s, id).contains(x),
{
    lemma_first_with_id(s, id);
    let w = choose|w: int| 0 <= w < s.len() && s[w] == x;
    assert(spec_disowned(s, id)[w] == x);
}

/// In a queue with unique ids, releasing the id of a task puts that task back unowned.
proof fn lemma_disowned_releases(s: Seq<TaskView>, x: TaskView)
    requires
        s.contains(x),
        unique_ids(s),
    ensures
        spec_disowned(s, x.id).contains(with_owner(x, None)),
{
    lemma_first_with_id(s, x.id);
    let w = choose|w: int| 0 <= w < s.len() && s[w] == x;
    let j = spec_first_with_id(s, x.id)->0;
    assert(j == w);
    assert(spec_disowned(s, x.id)[w] == with_owner(x, None));
}

/// The tasks after each task of `pending` is released, in turn.
pub open spec fn spec_release_all(s: Seq<TaskView>, pending: Seq<TaskView>) -> Seq<TaskView>
    decreases pending.len(),
{
    if pending.len() == 0 {
        s
    } else {
        spec_disowned(spec_release_all(s, pending.drop_last()), pending.last().id)
    }
}

/// Releasing the rest of a batch, once task `k` of it was released, keeps what the
/// processing loop relies on, up to the end of the batch.
proof fn lemma_release_rest<E: TaskQueueExecutionPort>(
    owner: Seq<char>,
    a: Seq<TaskView>,
    cur: Seq<TaskView>,
    tv: Seq<TaskView>,
    k: int,
    m: int,
)
    requires
        0 <= k < m <= tv.len(),
        forall|x: int, y: int| 0 <= x < y < tv.len() ==> #[trigger] tv[x].id != #[trigger] tv[y].id,
        unique_ids(spec_release_all(cur, tv.subrange(k, m))),
        spec_release_all(cur, tv.subrange(k, m)).len() <= a.len(),
        forall|x: int|
            m <= x < tv.len() ==> has_id(spec_release_all(cur, tv.subrange(k, m)), #[trigger] tv[x].id),
        claims_released_into(a, spec_release_all(cur, tv.subrange(k, m)), tv.subrange(m, tv.len() as int)),
        spec_release_all(cur, tv.subrange(k, m)).contains(with_owner(tv[k], None)),
        removed_only_after_success::<E>(owner, a, spec_release_all(cur, tv.subrange(k, m))),
    ensures
        unique_ids(spec_release_all(cur, tv.subrange(k, tv.len() as int))),
        spec_release_all(cur, tv.subrange(k, tv.len() as int)).len() <= a.len(),
        tasks_kept_from(a, spec_release_all(cur, tv.subrange(k, tv.len() as int))),
        spec_release_all(cur, tv.subrange(k, tv.len() as int)).contains(with_owner(tv[k], None)),
        removed_only_after_success::<E>(owner, a, spec_release_all(cur, tv.subrange(k, tv.len() as int))),
    decreases tv.len() - m,
{
    let s = spec_release_all(cur, tv.subrange(k, m));
    if m == tv.len() {
        assert forall|i: int| 0 <= i < s.len() implies a.contains(#[trigger] s[i]) by {
            assert(!has_id(tv.subrange(m, tv.len() as int), s[i].id));
        }
    } else {
        let s2 = spec_disowned(s, tv[m].id);
        assert(tv.subrange(k, m + 1).drop_last() =~= tv.subrange(k, m));
        assert(tv.subrange(k, m + 1).last() == tv[m]);
        assert(spec_release_all(cur, tv.subrange(k, m + 1)) == s2);
        lemma_claims_after_release(a, s, tv, m);
        assert(tv[k].id != tv[m].id);
        lemma_disowned_keeps_other(s, tv[m].id, with_owner(tv[k], None));
        lemma_same_ids_after_owner_change(s, s2);
        assert forall|i: int|
            0 <= i < a.len() && !has_id(s2, #[trigger] a[i].id) implies executor_ran_ok::<E>(a[i], owner) by {
            if has_id(s, a[i].id) {
                let w = choose|w: int| 0 <= w < s.len() && s[w].id == a[i].id;
                assert(s2[w].id == s[w].id);
            }
        }
        assert forall|x: int| m + 1 <= x < tv.len() implies has_id(s2, #[trigger] tv[x].id) by {
            let w = choose|w: int| 0 <= w < s.len() && s[w].id == tv[x].id;
            assert(s2[w].id == s[w].id);
        }
        lemma_release_rest::<E>(owner, a, cur, tv, k, m + 1);
    }
}

/// No task of `s` can be taken.
pub open spec fn nothing_available(s: Seq<TaskView>) -> bool {
    forall|i: int| 0 <= i < s.len() ==> !available(s, i)
}

/// Some task of `s` has id `id`.
pub open spec fn has_id(s: Seq<TaskView>, id: Seq<char>) -> bool {
    exists|i: int| 0 <= i < s.len() && s[i].id == id
}

/// Two task sequences with the same ids agree on uniqueness and on which ids they hold.
pub proof fn lemma_same_ids(s: Seq<TaskView>, t: Seq<TaskView>)
    requires
        task_ids(s) == task_ids(t),
    ensures
        s.len() == t.len(),
        forall|i: int| 0 <= i < s.len() ==> #[trigger] s[i].id == t[i].id,
        unique_ids(s) ==> unique_ids(t),
        forall|x: Seq<char>| has_id(s, x) ==> #[trigger] has_id(t, x),
{
    assert(s.len() == task_ids(s).len() && t.len() == task_ids(t).len());
    assert forall|i: int| 0 <= i < s.len() implies #[trigger] s[i].id == t[i].id by {
        assert(task_ids(s)[i] == task_ids(t)[i]);
    }
    assert forall|x: Seq<char>| has_id(s, x) implies #[trigger] has_id(t, x) by {
        let i = choose|i: int| 0 <= i < s.len() && s[i].id == x;
        assert(t[i].id == x);
    }
    if unique_ids(s) {
        assert forall|i: int, j: int|
            0 <= i < t.len() && 0 <= j < t.len() && i != j implies t[i].id != t[j].id by {
            assert(s[i].id == t[i].id && s[j].id == t[j].id);
        }
    }
}

/// Removing the tasks with one id from a queue with unique ids removes at most one task,
/// keeps the ids unique and keeps every other id.
pub proof fn lemma_without_id(s: Seq<TaskView>, id: Seq<char>)
    requires
        unique_ids(s),
    ensures
        unique_ids(without_id(s, id)),
        forall|x: Seq<char>| #[trigger] has_id(without_id(s, id), x) <==> (has_id(s, x) && x != id),
        without_id(s, id).len() == (if has_id(s, id) {
            s.len() - 1
        } else {
            s.len() as int
        }),
    decreases s.len(),
{
    reveal(Seq::filter);
    let w = without_id(s, id);
    if s.len() == 0 {
        assert forall|x: Seq<char>| #[trigger] has_id(w, x) <==> (has_id(s, x) && x != id) by {}
    } else {
        let s0 = s.drop_last();
        let last = s.last();
        assert(unique_ids(s0)) by {
            assert forall|i: int, j: int|
                0 <= i < s0.len() && 0 <= j < s0.len() && i != j implies s0[i].id != s0[j].id by {
                assert(s0[i] == s[i] && s0[j] == s[j]);
            }
        }
        lemma_without_id(s0, id);
        let w0 = without_id(s0, id);
        assert(s0.filter(|t: TaskView| t.id != id) == w0);
        assert(forall|i: int| 0 <= i < s0.len() ==> s0[i].id != last.id) by {
            assert forall|i: int| 0 <= i < s0.len() implies s0[i].id != last.id by {
                assert(s[i] == s0[i] && s[s.len() - 1] == last);
            }
        }
        assert forall|x: Seq<char>| has_id(s, x) <==> (has_id(s0, x) || x == last.id) by {
            if has_id(s, x) {
                let i = choose|i: int| 0 <= i < s.len() && s[i].id == x;
                if i < s.len() - 1 {
                    assert(s0[i].id == x);
                }
            }
            if has_id(s0, x) {
                let i = choose|i: int| 0 <= i < s0.len() && s0[i].id == x;
                assert(s[i].id == x);
            }
            if x == last.id {
                assert(s[s.len() - 1].id == x);
            }
        }
        if last.id != id {
            assert(w == w0.push(last));
            assert(!has_id(w0, last.id));
            assert forall|i: int, j: int|
                0 <= i < w.len() && 0 <= j < w.len() && i != j implies w[i].id != w[j].id by {
                if i < w0.len() && j < w0.len() {
                    assert(w[i] == w0[i] && w[j] == w0[j]);
                } else if i < w0.len() {
                    assert(w[i] == w0[i]);
                } else if j < w0.len() {
                    assert(w[j] == w0[j]);
                }
            }
            assert forall|x: Seq<char>| #[trigger] has_id(w, x) <==> (has_id(s, x) && x != id) by {
                if has_id(w, x) {
                    let i = choose|i: int| 0 <= i < w.len() && w[i].id == x;
                    if i < w0.len() {
                        assert(w0[i].id == x);
                    }
                }
                if has_id(w0, x) {
                    let i = choose|i: int| 0 <= i < w0.len() && w0[i].id == x;
                    assert(w[i].id == x);
                }
                if x == last.id {
                    assert(w[w.len() - 1].id == x);
                }
            }
        } else {
            assert(w == w0);
            assert(!has_id(s0, id));
        }
    }
}

/// Changing owners keeps every id: uniqueness and length carry over.
proof fn lemma_same_ids_after_owner_change(s: Seq<TaskView>, t: Seq<TaskView>)
    requires
        s.len() == t.len(),
        forall|i: int| 0 <= i < s.len() ==> #[trigger] t[i].id == s[i].id,
    ensures
        unique_ids(s) ==> unique_ids(t),
{
    if unique_ids(s) {
        assert forall|i: int, j: int|
            0 <= i < t.len() && 0 <= j < t.len() && i != j implies t[i].id != t[j].id by {
            assert(s[i].id != s[j].id);
        }
    }
}

/// How many tasks of `s` have type `k`.
pub open spec fn type_count(s: Seq<TaskView>, k: Seq<char>) -> nat {
    s.filter(|t: TaskView| t.simple_type == k).len()
}

/// The texts and counts of a list of `(text, count)` pairs.
pub open spec fn counts_view(v: Seq<(String, usize)>) -> Seq<(Seq<char>, usize)> {
    v.map_values(|p: (String, usize)| (p.0@, p.1))
}

/// `counts` lists every task type of `s` once, in sorting order, each with the number of
/// tasks of that type.
pub open spec fn is_type_census(s: Seq<TaskView>, counts: Seq<(Seq<char>, usize)>) -> bool {
    &&& forall|a: int, b: int| 0 <= a < b < counts.len() ==> text_less(counts[a].0, counts[b].0)
    &&& forall|j: int|
        0 <= j < counts.len() ==> counts[j].1 == type_count(s, counts[j].0) && counts[j].1 > 0
    &&& forall|i: int|
        0 <= i < s.len() ==> lists_text(counts, #[trigger] s[i].simple_type)
}

/// Some pair of `counts` has text `k`.
pub open spec fn lists_text(counts: Seq<(Seq<char>, usize)>, k: Seq<char>) -> bool {
    exists|j: int| 0 <= j < counts.len() && counts[j].0 == k
}

proof fn lemma_type_count_step(s: Seq<TaskView>, k: Seq<char>, i: int)
    requires
        0 <= i < s.len(),
    ensures
        type_count(s.take(i + 1), k) == type_count(s.take(i), k) + (if s[i].simple_type == k {
            1int
        } else {
            0int
        }),
{
    lemma_filter_take_step(s, |t: TaskView| t.simple_type == k, i);
}

pub proof fn lemma_filter_none<A>(s: Seq<A>, p: spec_fn(A) -> bool)
    requires
        forall|i: int| 0 <= i < s.len() ==> !p(s[i]),
    ensures
        s.filter(p).len() == 0,
    decreases s.len(),
{
    reveal(Seq::filter);
    if s.len() > 0 {
        lemma_filter_none(s.drop_last(), p);
    }
}

/// Keeping a subsequence of a queue with unique ids keeps them unique.
pub proof fn lemma_filter_keeps_ids_unique(s: Seq<TaskView>, p: spec_fn(TaskView) -> bool)
    requires
        unique_ids(s),
    ensures
        unique_ids(s.filter(p)),
        forall|x: Seq<char>| #[trigger] has_id(s.filter(p), x) ==> has_id(s, x),
    decreases s.len(),
{
    reveal(Seq::filter);
    let f = s.filter(p);
    if s.len() > 0 {
        let s0 = s.drop_last();
        let last = s.last();
        assert(unique_ids(s0)) by {
            assert forall|i: int, j: int|
                0 <= i < s0.len() && 0 <= j < s0.len() && i != j implies s0[i].id != s0[j].id by {
                assert(s0[i] == s[i] && s0[j] == s[j]);
            }
        }
        lemma_filter_keeps_ids_unique(s0, p);
        let f0 = s0.filter(p);
        assert(!has_id(s0, last.id)) by {
            if has_id(s0, last.id) {
                let i = choose|i: int| 0 <= i < s0.len() && s0[i].id == last.id;
                assert(s[i] == s0[i] && s[s.len() - 1] == last);
            }
        }
        assert forall|x: Seq<char>| #[trigger] has_id(f, x) implies has_id(s, x) by {
            let i = choose|i: int| 0 <= i < f.len() && f[i].id == x;
            if i < f0.len() {
                assert(f[i] == f0[i]);
                assert(has_id(f0, x));
                let k = choose|k: int| 0 <= k < s0.len() && s0[k].id == x;
                assert(s[k] == s0[k]);
            } else {
                assert(s[s.len() - 1].id == x);
            }
        }
        if p(last) {
            assert(f == f0.push(last));
            assert forall|i: int, j: int|
                0 <= i < f.len() && 0 <= j < f.len() && i != j implies f[i].id != f[j].id by {
                if i < f0.len() && j < f0.len() {
                    assert(f[i] == f0[i] && f[j] == f0[j]);
                } else if i < f0.len() {
                    assert(f[i] == f0[i]);
                    assert(has_id(f0, f[i].id));
                } else if j < f0.len() {
                    assert(f[j] == f0[j]);
                    assert(has_id(f0, f[j].id));
                }
            }
        }
    }
}

/// Changing owners keeps ids unique.
pub proof fn lemma_owner_update_keeps_ids_unique(s: Seq<TaskView>, i: int, owner: Option<Seq<char>>)
    requires
        unique_ids(s),
        0 <= i < s.len(),
    ensures
        unique_ids(s.update(i, with_owner(s[i], owner))),
{
    let t = s.update(i, with_owner(s[i], owner));
    assert forall|a: int, b: int|
        0 <= a < t.len() && 0 <= b < t.len() && a != b implies t[a].id != t[b].id by {
        assert(t[a].id == s[a].id && t[b].id == s[b].id);
    }
}

/// Enqueueing keeps the ids of a queue unique.
pub proof fn lemma_enqueue_keeps_ids_unique(q: TaskQueueView, t: TaskView)
    requires
        unique_ids(q.tasks),
    ensures
        unique_ids(spec_enqueue(q, t).tasks),
{
    let stamped = TaskView { order: q.next_order, ..t };
    let r = spec_enqueue(q, t).tasks;
    match spec_first_with_id(q.tasks, t.id) {
        Some(i) => {
            let w = choose|i: int|
                0 <= i < q.tasks.len() && q.tasks[i].id == t.id && forall|j: int|
                    0 <= j < i ==> q.tasks[j].id != t.id;
            assert(0 <= w < q.tasks.len() && q.tasks[w].id == t.id);
            assert forall|a: int, b: int|
                0 <= a < r.len() && 0 <= b < r.len() && a != b implies r[a].id != r[b].id by {
                assert(r[a].id == q.tasks[a].id && r[b].id == q.tasks[b].id);
            }
        },
        None => {
            assert forall|a: int, b: int|
                0 <= a < r.len() && 0 <= b < r.len() && a != b implies r[a].id != r[b].id by {
                if a < q.tasks.len() && b < q.tasks.len() {
                    assert(r[a] == q.tasks[a] && r[b] == q.tasks[b]);
                } else if a < q.tasks.len() {
                    assert(r[a] == q.tasks[a]);
                    assert(q.tasks[a].id != t.id);
                } else if b < q.tasks.len() {
                    assert(r[b] == q.tasks[b]);
                    assert(q.tasks[b].id != t.id);
                }
            }
        },
    }
}

/// Enqueueing a task whose id an owned task already has changes no task.
pub proof fn lemma_enqueue_keeps_owned_task(q: TaskQueueView, t: TaskView, i: int)
    requires
        q.next_order < usize::MAX,
        spec_first_with_id(q.tasks, t.id) == Some(i),
        q.tasks[i].owner is Some,
    ensures
        spec_enqueue(q, t).tasks == q.tasks,
        spec_enqueue(q, t).next_order == q.next_order + 1,
{
}

/// The queue's orders are fresh: every task's order is below the next one to hand out,
/// and no two tasks share one.
pub open spec fn orders_fresh(q: TaskQueueView) -> bool {
    &&& forall|i: int| 0 <= i < q.tasks.len() ==> #[trigger] q.tasks[i].order < q.next_order
    &&& forall|i: int, j: int|
        0 <= i < j < q.tasks.len() ==> #[trigger] q.tasks[i].order != #[trigger] q.tasks[j].order
}

/// Enqueueing keeps the orders fresh, and a task that it puts in the queue carries the
/// largest order there.
pub proof fn lemma_enqueue_orders(q: TaskQueueView, t: TaskView)
    requires
        orders_fresh(q),
        q.next_order < usize::MAX,
    ensures
        orders_fresh(spec_enqueue(q, t)),
        forall|i: int, j: int|
            0 <= i < spec_enqueue(q, t).tasks.len() && 0 <= j < spec_enqueue(q, t).tasks.len() && i
                != j && #[trigger] spec_enqueue(q, t).tasks[i].order == q.next_order
                ==> #[trigger] spec_enqueue(q, t).tasks[j].order < q.next_order,
{
    lemma_first_with_id(q.tasks, t.id);
    let q2 = spec_enqueue(q, t);
    assert forall|i: int| 0 <= i < q2.tasks.len() implies #[trigger] q2.tasks[i].order < q2.next_order
        && (q2.tasks[i].order == q.next_order || q2.tasks[i] == q.tasks[i]) by {}
    assert forall|i: int, j: int| 0 <= i < j < q2.tasks.len() implies #[trigger] q2.tasks[i].order
        != #[trigger] q2.tasks[j].order by {
        if q2.tasks[i].order == q.next_order {
            assert(q2.tasks[j] == q.tasks[j] || q2.tasks[j].order == q.next_order);
        }
    }
}

/// Claiming the first task with an id, which nobody owns, and then disowning that id
/// gives back the queue it was claimed from.
pub proof fn lemma_claim_then_disown(tasks: Seq<TaskView>, id: Seq<char>, owner: Seq<char>, i: int)
    requires
        0 <= i < tasks.len(),
        tasks[i].id == id,
        forall|j: int| 0 <= j < i ==> tasks[j].id != id,
        tasks[i].owner is None,
    ensures
        ({
            let claimed = tasks.update(i, with_owner(tasks[i], Some(owner)));
            &&& spec_first_with_id(tasks, id) == Some(i)
            &&& spec_first_with_id(claimed, id) == Some(i)
            &&& claimed.update(i, with_owner(claimed[i], None)) == tasks
        }),
{
    let claimed = tasks.update(i, with_owner(tasks[i], Some(owner)));
    assert forall|j: int| 0 <= j < claimed.len() implies #[trigger] claimed[j].id == tasks[j].id by {
    }
    let k = choose|k: int|
        0 <= k < tasks.len() && tasks[k].id == id && forall|j: int| 0 <= j < k ==> tasks[j].id != id;
    assert(k == i) by {
        if k < i {
            assert(tasks[k].id != id);
        } else if k > i {
            assert(tasks[i].id == id);
        }
    }
    assert(forall|j: int| 0 <= j < i ==> claimed[j].id != id);
    assert(0 <= i < claimed.len() && claimed[i].id == id);
    let k2 = choose|k: int|
        0 <= k < claimed.len() && claimed[k].id == id && forall|j: int| 0 <= j < k ==> claimed[j].id != id;
    assert(k2 == i) by {
        if k2 < i {
            assert(tasks[k2].id == id);
        } else if k2 > i {
            assert(claimed[i].id == id);
        }
    }
    assert(claimed.update(i, with_owner(claimed[i], None)) =~= tasks);
}

/// Taking a task and then completing it removes exactly that task from a queue with
/// unique ids.
pub proof fn lemma_take_then_complete(q: TaskQueueView, owner: Seq<char>)
    requires
        unique_ids(q.tasks),
        spec_take_available(q, owner).1 is Some,
    ensures
        ({
            let (q1, taken) = spec_take_available(q, owner);
            let after = without_id(q1.tasks, taken->0.id);
            &&& after.len() == q.tasks.len() - 1
            &&& !has_id(after, taken->0.id)
            &&& forall|x: Seq<char>| x != taken->0.id ==> (#[trigger] has_id(after, x) <==> has_id(q.tasks, x))
        }),
{
    lemma_take_available_keeps_ids(q, owner);
    let (q1, taken) = spec_take_available(q, owner);
    lemma_same_ids(q.tasks, q1.tasks);
    lemma_same_ids(q1.tasks, q.tasks);
    let i = choose|i: int|
        0 <= i < q.tasks.len() && q1.tasks[i] == taken->0 && taken->0.id == q.tasks[i].id;
    assert(has_id(q1.tasks, taken->0.id));
    lemma_without_id(q1.tasks, taken->0.id);
}

/// The mathematical state of a [`TaskQueueOrchestrator`].
pub struct TaskQueueView {
    pub consumer_owner: Seq<char>,
    pub consumes_queue: bool,
    pub task_pool_size: usize,
    pub tasks: Seq<TaskView>,
    pub next_order: usize,
}

/// The in-memory task queue of one consumer.
#[derive(Debug)]
pub struct TaskQueueOrchestrator {
    consumer_owner: String,
    consumes_queue: bool,
    task_pool_size: usize,
    tasks: Vec<TaskQueueRecord>,
    next_order: usize,
}

impl View for TaskQueueOrchestrator {
    type V = TaskQueueView;

    closed spec fn view(&self) -> TaskQueueView {
        TaskQueueView {
            consumer_owner: self.consumer_owner@,
            consumes_queue: self.consumes_queue,
            task_pool_size: self.task_pool_size,
            tasks: tasks_view(self.tasks@),
            next_order: self.next_order,
        }
    }
}

impl TaskQueueOrchestrator {
    /// No two queued tasks share an id.
    #[verifier::type_invariant]
    spec fn ids_unique(&self) -> bool {
        unique_ids(self@.tasks)
    }

    /// Sets the owner of the task at `i`.
    fn set_task_owner(&mut self, i: usize, owner: Option<String>)
        requires
            i < old(self)@.tasks.len(),
        ensures
            final(self)@ == (TaskQueueView {
                tasks: old(self)@.tasks.update(
                    i as int,
                    with_owner(old(self)@.tasks[i as int], opt_text_view(owner)),
                ),
                ..old(self)@
            }),
    {
        proof {
            use_type_invariant(&*self);
            lemma_owner_update_keeps_ids_unique(self@.tasks, i as int, opt_text_view(owner));
        }
        let mut tasks: Vec<TaskQueueRecord> = Vec::new();
        std::mem::swap(&mut tasks, &mut self.tasks);
        set_owner(&mut tasks, i, owner);
        self.tasks = tasks;
    }

    /// An empty queue for `consumer_owner`, which takes tasks only when `consumes_queue`.
    pub fn new(consumer_owner: &str, consumes_queue: bool) -> (r: Self)
        ensures
            r@ == (TaskQueueView {
                consumer_owner: consumer_owner@,
                consumes_queue,
                task_pool_size: 1,
                tasks: Seq::empty(),
                next_order: 0,
            }),
    {
        let r = TaskQueueOrchestrator {
            consumer_owner: String::from_str(consumer_owner),
            consumes_queue,
            task_pool_size: 1,
            tasks: Vec::new(),
            next_order: 0,
        };
        assert(tasks_view(r.tasks@) =~= Seq::empty());
        r
    }

    /// The queued tasks, in queue order.
    pub fn tasks(&self) -> (r: &[TaskQueueRecord])
        ensures
            tasks_view(r@) == self@.tasks,
    {
        self.tasks.as_slice()
    }

    /// Gives the first task with id `task_id` to `owner`; false when there is none.
    pub fn claim(&mut self, task_id: &str, owner: &str) -> (r: bool)
        ensures
            match spec_first_with_id(old(self)@.tasks, task_id@) {
                Some(i) => r && final(self)@ == (TaskQueueView {
                    tasks: old(self)@.tasks.update(i, with_owner(old(self)@.tasks[i], Some(owner@))),
                    ..old(self)@
                }),
                None => !r && final(self)@ == old(self)@,
            },
            unique_ids(old(self)@.tasks) ==> unique_ids(final(self)@.tasks),
    {
        proof {
            use_type_invariant(&*self);
        }
        match find_task(&self.tasks, task_id) {
            Some(i) => {
                let ghost s = self@.tasks;
                self.set_task_owner(i, Some(String::from_str(owner)));
                proof {
                    if unique_ids(s) {
                        lemma_owner_update_keeps_ids_unique(s, i as int, Some(owner@));
                    }
                }
                true
            },
            None => false,
        }
    }

    /// Adds `task` to the queue, stamped with the next order. A task with the same
    /// id that nobody owns is replaced; one that is owned is kept as it is.
    pub fn enqueue(&mut self, task: TaskQueueRecord)
        requires
            old(self)@.next_order < usize::MAX,
        ensures
            final(self)@ == spec_enqueue(old(self)@, task@),
            unique_ids(old(self)@.tasks) ==> unique_ids(final(self)@.tasks),
    {
        proof {
            use_type_invariant(&*self);
        }
        proof {
            if unique_ids(old(self)@.tasks) {
                lemma_enqueue_keeps_ids_unique(old(self)@, task@);
            }
        }
        let mut task = task;
        task.order = self.next_order;
        self.next_order = self.next_order + 1;
        let mut tasks: Vec<TaskQueueRecord> = Vec::new();
        std::mem::swap(&mut tasks, &mut self.tasks);
        match find_task(&tasks, task.id.as_str()) {
            Some(i) => {
                if tasks[i].owner.is_none() {
                    tasks.set(i, task);
                    assert(tasks_view(tasks@) =~= tasks_view(old(self).tasks@).update(i as int, task@));
                }
            },
            None => {
                tasks.push(task);
                assert(tasks_view(tasks@) =~= tasks_view(old(self).tasks@).push(task@));
            },
        }
        self.tasks = tasks;
    }

    /// Removes every task with id `task_id`; true when one was removed.
    pub fn complete(&mut self, task_id: &str) -> (r: bool)
        ensures
            final(self)@ == (TaskQueueView {
                tasks: without_id(old(self)@.tasks, task_id@),
                ..old(self)@
            }),
            r == (spec_first_with_id(old(self)@.tasks, task_id@) is Some),
            unique_ids(old(self)@.tasks) ==> unique_ids(final(self)@.tasks),
    {
        proof {
            use_type_invariant(&*self);
        }
        proof {
            if unique_ids(old(self)@.tasks) {
                lemma_without_id(old(self)@.tasks, task_id@);
            }
        }
        let ghost s = tasks_view(self.tasks@);
        let ghost p = |t: TaskView| t.id != task_id@;
        let mut kept: Vec<TaskQueueRecord> = Vec::new();
        let mut removed = false;
        let mut i: usize = 0;
        while i < self.tasks.len()
            invariant
                p == (|t: TaskView| t.id != task_id@),
                s == tasks_view(self.tasks@),
                i <= self.tasks.len(),
                tasks_view(kept@) == s.take(i as int).filter(p),
                removed == exists|j: int| 0 <= j < i && s[j].id == task_id@,
            decreases self.tasks.len() - i,
        {
            proof {
                lemma_filter_take_step(s, p, i as int);
                assert(s[i as int] == self.tasks@[i as int]@);
            }
            if text_eq(self.tasks[i].id.as_str(), task_id) {
                assert(!p(s[i as int]));
                assert(s.take(i + 1).filter(p) == s.take(i as int).filter(p));
                removed = true;
            } else {
                let ghost before = tasks_view(kept@);
                kept.push(self.tasks[i].clone());
                assert(tasks_view(kept@) =~= before.push(s[i as int]));
            }
            i = i + 1;
        }
        assert(s.take(s.len() as int) =~= s);
        self.tasks = kept;
        proof {
            if removed {
                let j = choose|j: int| 0 <= j < s.len() && s[j].id == task_id@;
                assert(0 <= j < s.len() && s[j].id == task_id@);
            }
        }
        removed
    }

    /// Removes the tasks that nobody owns; returns how many were removed.
    pub fn clear_unowned(&mut self) -> (r: usize)
        ensures
            final(self)@ == (TaskQueueView { tasks: owned_tasks(old(self)@.tasks), ..old(self)@ }),
            r == old(self)@.tasks.len() - final(self)@.tasks.len(),
            unique_ids(old(self)@.tasks) ==> unique_ids(final(self)@.tasks),
    {
        proof {
            use_type_invariant(&*self);
        }
        proof {
            if unique_ids(old(self)@.tasks) {
                lemma_filter_keeps_ids_unique(old(self)@.tasks, |t: TaskView| t.owner is Some);
            }
        }
        let ghost s = tasks_view(self.tasks@);
        let ghost p = |t: TaskView| t.owner is Some;
        let original = self.tasks.len();
        let mut kept: Vec<TaskQueueRecord> = Vec::new();
        let mut i: usize = 0;
        while i < self.tasks.len()
            invariant
                p == (|t: TaskView| t.owner is Some),
                s == tasks_view(self.tasks@),
                original == self.tasks.len(),
                i <= self.tasks.len(),
                tasks_view(kept@) == s.take(i as int).filter(p),
                kept.len() <= i,
            decreases self.tasks.len() - i,
        {
            proof {
                lemma_filter_take_step(s, p, i as int);
                assert(s[i as int] == self.tasks@[i as int]@);
            }
            if self.tasks[i].owner.is_some() {
                let ghost before = tasks_view(kept@);
                kept.push(self.tasks[i].clone());
                assert(tasks_view(kept@) =~= before.push(s[i as int]));
            }
            i = i + 1;
        }
        assert(s.take(s.len() as int) =~= s);
        self.tasks = kept;
        original - self.tasks.len()
    }

    /// Clears the owner of every task; returns how many tasks had one.
    pub fn disown_all(&mut self) -> (r: usize)
        ensures
            final(self)@ == (TaskQueueView { tasks: all_disowned(old(self)@.tasks), ..old(self)@ }),
            r == owned_tasks(old(self)@.tasks).len(),
            unique_ids(old(self)@.tasks) ==> unique_ids(final(self)@.tasks),
    {
        proof {
            use_type_invariant(&*self);
        }
        let ghost s = tasks_view(self.tasks@);
        let ghost p = |t: TaskView| t.owner is Some;
        let mut disowned: usize = 0;
        let mut i: usize = 0;
        while i < self.tasks.len()
            invariant
                self@.consumer_owner == old(self)@.consumer_owner,
                self@.consumes_queue == old(self)@.consumes_queue,
                self@.task_pool_size == old(self)@.task_pool_size,
                self@.next_order == old(self)@.next_order,
                p == (|t: TaskView| t.owner is Some),
                s.len() == self.tasks.len(),
                i <= self.tasks.len(),
                forall|j: int| 0 <= j < i ==> tasks_view(self.tasks@)[j] == with_owner(s[j], None),
                forall|j: int| i <= j < s.len() ==> tasks_view(self.tasks@)[j] == s[j],
                disowned == s.take(i as int).filter(p).len(),
                disowned <= i,
            decreases self.tasks.len() - i,
        {
            proof {
                lemma_filter_take_step(s, p, i as int);
                assert(tasks_view(self.tasks@)[i as int] == self.tasks@[i as int]@);
            }
            if self.tasks[i].owner.is_some() {
                disowned = disowned + 1;
                self.set_task_owner(i, None);
                assert(tasks_view(self.tasks@).len() == self.tasks@.len());
            } else {
                assert(with_owner(s[i as int], None) == s[i as int]);
            }
            i = i + 1;
        }
        assert(s.take(s.len() as int) =~= s);
        assert(tasks_view(self.tasks@) =~= all_disowned(s));
        proof {
            lemma_same_ids_after_owner_change(s, tasks_view(self.tasks@));
        }
        disowned
    }

    /// Gives the next available task to `owner` and returns a copy of it: among the
    /// unowned tasks whose group no owned task holds, the highest priority, and among
    /// equal priorities the one enqueued first. `None` when no task is available.
    pub fn take_available(&mut self, owner: &str) -> (r: Option<TaskQueueRecord>)
        ensures
            (final(self)@, opt_task_view(r)) == spec_take_available(old(self)@, owner@),
            r is None <==> forall|i: int| 0 <= i < old(self)@.tasks.len() ==> !available(old(self)@.tasks, i),
            unique_ids(old(self)@.tasks) ==> unique_ids(final(self)@.tasks),
    {
        proof {
            use_type_invariant(&*self);
        }
        proof {
            lemma_take_available_keeps_ids(old(self)@, owner@);
            lemma_same_ids(old(self)@.tasks, spec_take_available(old(self)@, owner@).0.tasks);
        }
        let ghost s = tasks_view(self.tasks@);
        let mut best: Option<usize> = None;
        let mut i: usize = 0;
        while i < self.tasks.len()
            invariant
                s == tasks_view(self.tasks@),
                i <= self.tasks.len(),
                match best {
                    None => forall|j: int| 0 <= j < i ==> !available(s, j),
                    Some(b) => {
                        &&& b < i
                        &&& available(s, b as int)
                        &&& forall|j: int|
                            0 <= j < i && available(s, j) ==> (j < b ==> !ranks_below(s[b as int], s[j]))
                                && (b < j ==> ranks_below(s[j], s[b as int]))
                    },
                },
            decreases self.tasks.len() - i,
        {
            if is_available(&self.tasks, i) {
                assert(s[i as int] == self.tasks@[i as int]@);
                match best {
                    None => {
                        best = Some(i);
                    },
                    Some(b) => {
                        assert(s[b as int] == self.tasks@[b as int]@);
                        let below = self.tasks[i].priority < self.tasks[b].priority || (
                        self.tasks[i].priority == self.tasks[b].priority && self.tasks[i].order
                            > self.tasks[b].order);
                        if !below {
                            best = Some(i);
                        }
                    },
                }
            }
            i = i + 1;
        }
        match best {
            None => {
                proof {
                    if exists|k: int| is_next_task(s, k) {
                        let k = choose|k: int| is_next_task(s, k);
                        assert(available(s, k));
                    }
                }
                None
            },
            Some(b) => {
                proof {
                    assert(is_next_task(s, b as int));
                    let k = choose|k: int| is_next_task(s, k);
                    lemma_next_task_unique(s, k, b as int);
                }
                self.set_task_owner(b, Some(String::from_str(owner)));
                assert(tasks_view(self.tasks@)[b as int] == self.tasks@[b as int]@);
                Some(self.tasks[b].clone())
            },
        }
    }

    /// Takes the next task for this queue's own consumer.
    fn take_next(&mut self) -> (r: Option<TaskQueueRecord>)
        ensures
            (final(self)@, opt_task_view(r)) == spec_take_available(old(self)@, old(self)@.consumer_owner),
    {
        proof {
            use_type_invariant(&*self);
        }
        let owner = self.consumer_owner.clone();
        self.take_available(owner.as_str())
    }

    /// Takes up to the task pool size of tasks for this queue's consumer, in the order
    /// `take_available` hands them out; nothing when the queue is not consumed here.
    pub fn take_available_batch(&mut self) -> (r: Vec<TaskQueueRecord>)
        ensures
            (final(self)@, tasks_view(r@)) == spec_take_available_batch(old(self)@),
            unique_ids(old(self)@.tasks) ==> unique_ids(final(self)@.tasks),
    {
        proof {
            use_type_invariant(&*self);
        }
        proof {
            lemma_take_batch_facts(old(self)@, 1);
            lemma_same_ids(old(self)@.tasks, spec_take_batch(old(self)@, 1).0.tasks);
            lemma_take_batch_facts(old(self)@, old(self)@.task_pool_size as nat);
            lemma_same_ids(
                old(self)@.tasks,
                spec_take_batch(old(self)@, old(self)@.task_pool_size as nat).0.tasks,
            );
        }
        let mut selected: Vec<TaskQueueRecord> = Vec::new();
        if !self.consumes_queue {
            assert(tasks_view(selected@) =~= Seq::<TaskView>::empty());
            return selected;
        }
        if self.task_pool_size <= 1 {
            let ghost q0 = self@;
            match self.take_next() {
                Some(task) => {
                    selected.push(task);
                    let ghost q1 = self@;
                    assert(spec_take_batch(q1, 0) == (q1, Seq::<TaskView>::empty()));
                    assert(tasks_view(selected@) =~= seq![task@] + Seq::<TaskView>::empty());
                },
                None => {
                    assert(tasks_view(selected@) =~= Seq::<TaskView>::empty());
                },
            }
            return selected;
        }
        let ghost q0 = self@;
        let pool = self.task_pool_size;
        let mut more = true;
        assert(tasks_view(selected@) + spec_take_batch(self@, pool as nat).1 =~= spec_take_batch(
            self@,
            pool as nat,
        ).1);
        while more && selected.len() < pool
            invariant
                pool == q0.task_pool_size,
                selected.len() <= pool,
                self@.consumer_owner == q0.consumer_owner,
                spec_take_batch(q0, pool as nat) == (spec_take_batch(
                    self@,
                    (pool - selected.len()) as nat,
                ).0, tasks_view(selected@) + spec_take_batch(
                    self@,
                    (pool - selected.len()) as nat,
                ).1),
                !more ==> spec_take_batch(self@, (pool - selected.len()) as nat) == (
                    self@,
                    Seq::<TaskView>::empty(),
                ),
            decreases (pool - selected.len()) * 2 + (if more { 1int } else { 0int }),
        {
            let ghost cur = self@;
            let ghost m = (pool - selected.len()) as nat;
            let ghost before = tasks_view(selected@);
            proof {
                lemma_take_available_keeps_ids(cur, cur.consumer_owner);
            }
            match self.take_next() {
                Some(task) => {
                    selected.push(task);
                    assert(tasks_view(selected@) =~= before.push(task@));
                    let ghost rest = spec_take_batch(self@, (m - 1) as nat).1;
                    assert(before + (seq![task@] + rest) =~= tasks_view(selected@) + rest);
                },
                None => {
                    more = false;
                },
            }
        }
        proof {
            let m = (pool - selected.len()) as nat;
            if more {
                assert(m == 0);
            }
            assert(tasks_view(selected@) + Seq::<TaskView>::empty() =~= tasks_view(selected@));
        }
        selected
    }

    /// Settles task `k` of `batch` with what the executor answered for it: a success
    /// completes the task; a failure releases it and every later task of the batch, in
    /// turn, and is handed back.
    pub fn settle_batch_task(
        &mut self,
        batch: &Vec<TaskQueueRecord>,
        k: usize,
        outcome: Result<(), TaskProcessingError>,
    ) -> (r: Result<(), TaskProcessingError>)
        requires
            k < batch.len(),
        ensures
            r == outcome,
            outcome is Ok ==> final(self)@ == (TaskQueueView {
                tasks: without_id(old(self)@.tasks, batch@[k as int]@.id),
                ..old(self)@
            }),
            outcome is Err ==> final(self)@ == (TaskQueueView {
                tasks: spec_release_all(
                    old(self)@.tasks,
                    tasks_view(batch@).subrange(k as int, batch.len() as int),
                ),
                ..old(self)@
            }),
            unique_ids(old(self)@.tasks) ==> unique_ids(final(self)@.tasks),
    {
        proof {
            use_type_invariant(&*self);
        }
        match outcome {
            Ok(u) => {
                let _ = self.complete(batch[k].id.as_str());
                Ok(u)
            },
            Err(error) => {
                let ghost s0 = self@;
                let ghost tv = tasks_view(batch@);
                let mut m = k;
                assert(tv.subrange(k as int, k as int) =~= Seq::<TaskView>::empty());
                while m < batch.len()
                    invariant
                        k <= m <= batch.len(),
                        tv == tasks_view(batch@),
                        self@ == (TaskQueueView {
                            tasks: spec_release_all(s0.tasks, tv.subrange(k as int, m as int)),
                            ..s0
                        }),
                        unique_ids(s0.tasks) ==> unique_ids(self@.tasks),
                    decreases batch.len() - m,
                {
                    let _ = self.disown(batch[m].id.as_str());
                    proof {
                        let p = tv.subrange(k as int, m + 1);
                        assert(p.drop_last() =~= tv.subrange(k as int, m as int));
                        assert(p.last() == tv[m as int]);
                        assert(tv[m as int] == batch@[m as int]@);
                    }
                    m = m + 1;
                }
                Err(error)
            },
        }
    }

    /// Runs every available task with `executor`, batch after batch, completing each task
    /// that succeeds. On the first failure, the failed task and the rest of its batch are
    /// released, the error is returned, and the executor is asked nothing more: every task
    /// left in the queue is, unchanged, one it held before. Returns how many tasks were
    /// completed; when the queue is not consumed here, nothing happens, the executor is not
    /// asked, and the count is 0.
    ///
    /// The executor goes, one call after the other, through exactly the calls of the run
    /// that `spec_process` describes for its answers: each call is handed the next task of
    /// the batch that `take_available_batch` took, and the queue and the result are that
    /// run's.
    #[verifier::rlimit(100)]
    pub fn process_available<E: TaskQueueExecutionPort>(&mut self, executor: &mut E) -> (r: Result<
        usize,
        TaskProcessingError,
    >)
        ensures
            final(self)@ == (TaskQueueView { tasks: final(self)@.tasks, ..old(self)@ }),
            unique_ids(final(self)@.tasks),
            !old(self)@.consumes_queue ==> r == Ok::<usize, TaskProcessingError>(0) && final(self)@
                == old(self)@,
            tasks_kept_from(old(self)@.tasks, final(self)@.tasks),
            old(self)@.consumes_queue && nothing_available(old(self)@.tasks) ==> r == Ok::<
                usize,
                TaskProcessingError,
            >(0) && final(self)@ == old(self)@,
            removed_only_after_success::<E>(old(self)@.consumer_owner, old(self)@.tasks, final(self)@.tasks),
            r is Err ==> executor_failed_on_claimed::<E>(
                old(self)@.consumer_owner,
                r->Err_0,
                final(self)@.tasks,
            ),
            match r {
                Ok(n) => old(self)@.consumes_queue ==> {
                    &&& n + final(self)@.tasks.len() == old(self)@.tasks.len()
                    &&& forall|i: int|
                        0 <= i < final(self)@.tasks.len() ==> !available(final(self)@.tasks, i)
                },
                Err(_) => final(self)@.tasks.len() <= old(self)@.tasks.len(),
            },
            !old(self)@.consumes_queue ==> *final(executor) == *old(executor),
            old(self)@.consumes_queue ==> exists|
                answers: Seq<Result<(), TaskProcessingError>>,
                exs: Seq<E>,
                handed: Seq<TaskQueueRecord>,
                failure: Option<TaskProcessingError>,
                done: nat,
            |
                #![trigger run_is(old(self)@, answers, final(self)@, failure, done, tasks_view(handed)), exs.last()]
                {
                    &&& run_is(old(self)@, answers, final(self)@, failure, done, tasks_view(handed))
                    &&& r == match failure {
                        None => Ok::<usize, TaskProcessingError>(done as usize),
                        Some(e) => Err(e),
                    }
                    &&& exs.len() == answers.len() + 1
                    &&& handed.len() == answers.len()
                    &&& exs[0] == *old(executor)
                    &&& exs.last() == *final(executor)
                    &&& forall|i: int|
                        #![trigger answers[i]]
                        0 <= i < answers.len() ==> exists|ex: &mut E|
                            {
                                &&& call_ensures(E::execute_claimed_task, (ex, &handed[i]), answers[i])
                                &&& *ex == exs[i]
                                &&& *final(ex) == exs[i + 1]
                            }
                },
    {
        proof {
            use_type_invariant(&*self);
        }
        if !self.consumes_queue {
            assert(tasks_kept_from(self@.tasks, self@.tasks)) by {
                assert forall|i: int| 0 <= i < self@.tasks.len() implies self@.tasks.contains(
                    #[trigger] self@.tasks[i],
                ) by {}
            }
            return Ok(0);
        }
        let ghost q0 = self@;
        assert(q0 == old(self)@);
        let count = self.tasks.len();
        assert(q0.tasks.len() == count);
        let mut processed: usize = 0;
        let ghost e0 = *executor;
        let ghost mut exs: Seq<E> = seq![e0];
        let ghost mut answers: Seq<Result<(), TaskProcessingError>> = Seq::empty();
        let ghost mut handed: Seq<TaskQueueRecord> = Seq::empty();
        proof {
            lemma_run_start(q0);
            assert(tasks_view(handed) =~= Seq::<TaskView>::empty());
        }
        assert(tasks_kept_from(q0.tasks, self@.tasks)) by {
            assert forall|i: int| 0 <= i < self@.tasks.len() implies q0.tasks.contains(
                #[trigger] self@.tasks[i],
            ) by {}
        }
        loop
            invariant
                q0 == old(self)@,
                e0 == *old(executor),
                unique_ids(q0.tasks),
                q0.tasks.len() <= usize::MAX,
                self@ == (TaskQueueView { tasks: self@.tasks, ..q0 }),
                q0.consumes_queue,
                unique_ids(self@.tasks),
                processed + self@.tasks.len() == q0.tasks.len(),
                tasks_kept_from(q0.tasks, self@.tasks),
                nothing_available(q0.tasks) ==> processed == 0 && self@ == q0,
                removed_only_after_success::<E>(q0.consumer_owner, q0.tasks, self@.tasks),
                exs.len() == answers.len() + 1,
                exs[0] == e0,
                exs.last() == *executor,
                handed.len() == answers.len(),
                forall|i: int|
                    #![trigger answers[i]]
                    0 <= i < answers.len() ==> exists|ex: &mut E|
                        {
                            &&& call_ensures(E::execute_claimed_task, (ex, &handed[i]), answers[i])
                            &&& *ex == exs[i]
                            &&& *final(ex) == exs[i + 1]
                        },
                run_continues(q0, answers, processed as nat, tasks_view(handed), self@, Seq::empty()),
            decreases self@.tasks.len(),
        {
            let ghost before = self@;
            let ghost n: nat = if before.task_pool_size <= 1 {
                1
            } else {
                before.task_pool_size as nat
            };
            let batch = self.take_available_batch();
            let ghost mid = self@;
            let ghost tv = tasks_view(batch@);
            proof {
                lemma_take_batch_facts(before, n);
                lemma_same_ids(before.tasks, mid.tasks);
                assert(mid == (TaskQueueView { tasks: mid.tasks, ..q0 }));
                assert((mid, tv) == spec_take_batch(before, n));
                lemma_claims_after_take(q0.tasks, before, n);
                assert forall|x: Seq<char>| has_id(before.tasks, x) implies has_id(mid.tasks, x) by {
                    {
                        let w = choose|w: int| 0 <= w < before.tasks.len() && before.tasks[w].id == x;
                        assert(mid.tasks[w].id == before.tasks[w].id);
                    }
                }
                assert(tv.subrange(0, tv.len() as int) =~= tv);
            }
            if batch.len() == 0 {
                assert(mid == before);
                proof {
                    lemma_run_end(q0, answers, processed as nat, tasks_view(handed), before);
                    assert(run_is(old(self)@, answers, self@, None, processed as nat, tasks_view(handed)));
                }
                return Ok(processed);
            }
            proof {
                lemma_run_batch(q0, answers, processed as nat, tasks_view(handed), before);
            }
            proof {
                let pos = choose|pos: Seq<int>| batch_positions(before, tasks_view(batch@), pos);
                assert forall|k: int| 0 <= k < batch.len() implies has_id(
                    mid.tasks,
                    #[trigger] tasks_view(batch@)[k].id,
                ) by {
                    assert(mid.tasks[pos[k]].id == before.tasks[pos[k]].id);
                }
                assert forall|k: int, m: int| 0 <= k < m < batch.len() implies #[trigger] tasks_view(
                    batch@,
                )[k].id != #[trigger] tasks_view(batch@)[m].id by {
                    assert(pos[k] != pos[m]);
                }
            }
            proof {
                lemma_take_batch_changes(before, n);
                assert forall|m: int| 0 <= m < batch.len() implies (#[trigger] batch@[m])@.owner
                    == Some(q0.consumer_owner) by {
                    assert(tv[m] == batch@[m]@);
                }
            }
            let ghost start = processed;
            let mut k: usize = 0;
            while k < batch.len()
                invariant
                    !nothing_available(q0.tasks),
                    processed == start + k,
                    forall|m: int| 0 <= m < batch.len() ==> (#[trigger] batch@[m])@.owner == Some(q0.consumer_owner),
                    q0 == old(self)@,
                    e0 == *old(executor),
                    unique_ids(q0.tasks),
                    q0.consumes_queue,
                    q0.tasks.len() <= usize::MAX,
                    self@ == (TaskQueueView { tasks: self@.tasks, ..q0 }),
                    unique_ids(self@.tasks),
                    processed + self@.tasks.len() == q0.tasks.len(),
                    k <= batch.len(),
                    self@.tasks.len() + k == mid.tasks.len(),
                    mid.tasks.len() == before.tasks.len(),
                    forall|m: int|
                        k <= m < batch.len() ==> has_id(self@.tasks, #[trigger] tasks_view(batch@)[m].id),
                    forall|a: int, b: int|
                        0 <= a < b < batch.len() ==> #[trigger] tasks_view(batch@)[a].id
                            != #[trigger] tasks_view(batch@)[b].id,
                    tv == tasks_view(batch@),
                    claims_released_into(q0.tasks, self@.tasks, tv.subrange(k as int, tv.len() as int)),
                    forall|m: int| k <= m < batch.len() ==> self@.tasks.contains(#[trigger] tv[m]),
                    removed_only_after_success::<E>(q0.consumer_owner, q0.tasks, self@.tasks),
                    exs.len() == answers.len() + 1,
                    exs[0] == e0,
                    exs.last() == *executor,
                    handed.len() == answers.len(),
                    forall|i: int|
                        #![trigger answers[i]]
                        0 <= i < answers.len() ==> exists|ex: &mut E|
                            {
                                &&& call_ensures(E::execute_claimed_task, (ex, &handed[i]), answers[i])
                                &&& *ex == exs[i]
                                &&& *final(ex) == exs[i + 1]
                            },
                    run_continues(
                        q0,
                        answers,
                        processed as nat,
                        tasks_view(handed),
                        self@,
                        tv.subrange(k as int, tv.len() as int),
                    ),
                decreases batch.len() - k,
            {
                assert(tasks_view(batch@)[k as int] == batch@[k as int]@);
                let task = &batch[k];
                let run = E::execute_claimed_task;
                let ghost prev = *executor;
                let outcome = run(executor, task);
                let ghost answered = outcome;
                let ghost a0 = answers;
                let ghost h0 = tasks_view(handed);
                let ghost done0 = processed as nat;
                let ghost curq = self@;
                let ghost pending = tv.subrange(k as int, tv.len() as int);
                proof {
                    assert(exists|ex: &mut E| call_ensures(E::execute_claimed_task, (ex, task), outcome) && *ex == prev && *final(ex) == *executor);
                    let exs2 = exs.push(*executor);
                    let answers2 = answers.push(outcome);
                    let handed2 = handed.push(*task);
                    let j = answers.len() as int;
                    assert(exs2[j] == prev && exs2[j + 1] == *executor && answers2[j] == outcome && handed2[j] == *task);
                    assert(forall|i: int| 0 <= i < j ==> answers2[i] == answers[i] && exs2[i] == exs[i] && exs2[i + 1] == exs[i + 1] && handed2[i] == handed[i]);
                    assert(forall|i: int|
                        #![trigger answers2[i]]
                        0 <= i < answers2.len() ==> exists|ex: &mut E|
                            {
                                &&& call_ensures(E::execute_claimed_task, (ex, &handed2[i]), answers2[i])
                                &&& *ex == exs2[i]
                                &&& *final(ex) == exs2[i + 1]
                            });
                    assert(tasks_view(handed2) =~= tasks_view(handed).push(tv[k as int]));
                    exs = exs2;
                    answers = answers2;
                    handed = handed2;
                    assert(pending[0] == tv[k as int]);
                    assert(pending.drop_first() =~= tv.subrange(k + 1, tv.len() as int));
                }
                proof {
                    assert(exists|ex: &mut E| call_ensures(E::execute_claimed_task, (ex, task), answered));
                }
                let ghost cur = self@.tasks;
                proof {
                    lemma_without_id(cur, batch@[k as int]@.id);
                    lemma_claims_after_release(q0.tasks, cur, tv, k as int);
                }
                let settled = self.settle_batch_task(&batch, k, outcome);
                match settled {
                    Ok(u) => {
                        proof {
                            assert(answered == Ok::<(), TaskProcessingError>(u));
                            assert(u == ());
                            let ex = choose|ex: &mut E| call_ensures(E::execute_claimed_task, (ex, task), answered);
                            assert(call_ensures(E::execute_claimed_task, (ex, task), Ok::<(), TaskProcessingError>(())));
                            let w = choose|w: int| 0 <= w < cur.len() && cur[w] == tv[k as int];
                            assert(has_id(tv.subrange(k as int, tv.len() as int), cur[w].id)) by {
                                assert(tv.subrange(k as int, tv.len() as int)[0] == tv[k as int]);
                            }
                            assert(q0.tasks.contains(with_owner(tv[k as int], None)));
                            assert(tv[k as int] == batch@[k as int]@);
                            assert(with_owner(with_owner(tv[k as int], None), Some(q0.consumer_owner)) == tv[k as int]);
                            assert forall|j: int| 0 <= j < q0.tasks.len() && q0.tasks[j].id == tv[k as int].id
                                implies #[trigger] executor_ran_ok::<E>(q0.tasks[j], q0.consumer_owner) by {
                                let h = choose|h: int| 0 <= h < q0.tasks.len() && q0.tasks[h] == with_owner(tv[k as int], None);
                                assert(h == j);
                                assert(task@ == with_owner(q0.tasks[j], Some(q0.consumer_owner)));
                            }
                        }
                        processed = processed + 1;
                        proof {
                            lemma_run_ok(q0, a0, done0, h0, curq, pending, answered);
                            assert(self@ == (TaskQueueView {
                                tasks: without_id(curq.tasks, pending[0].id),
                                ..curq
                            }));
                            lemma_claims_after_complete(q0.tasks, cur, tv, k as int);
                            assert forall|i: int|
                                0 <= i < q0.tasks.len() && !has_id(self@.tasks, #[trigger] q0.tasks[i].id)
                                    implies executor_ran_ok::<E>(q0.tasks[i], q0.consumer_owner) by {
                                if q0.tasks[i].id != tv[k as int].id {
                                    assert(!has_id(cur, q0.tasks[i].id));
                                }
                            }
                            assert forall|m: int| k + 1 <= m < batch.len() implies self@.tasks.contains(
                                #[trigger] tv[m],
                            ) by {
                                let w = choose|w: int| 0 <= w < cur.len() && cur[w] == tv[m];
                                assert(tv[k as int].id != tv[m].id);
                                cur.lemma_filter_contains(|t: TaskView| t.id != tv[k as int].id, w);
                            }
                            assert forall|m: int| k + 1 <= m < batch.len() implies has_id(
                                self@.tasks,
                                #[trigger] tasks_view(batch@)[m].id,
                            ) by {
                                assert(has_id(cur, tasks_view(batch@)[m].id));
                                assert(tasks_view(batch@)[k as int].id != tasks_view(batch@)[m].id);
                            }
                        }
                    },
                    Err(error) => {
                        proof {
                            assert(answered == Err::<(), TaskProcessingError>(error));
                            assert(task@.owner == Some(q0.consumer_owner));
                            let ex0 = choose|ex: &mut E| call_ensures(E::execute_claimed_task, (ex, task), answered);
                            let s1 = spec_disowned(cur, tv[k as int].id);
                            assert(tv.subrange(k as int, k + 1).drop_last() =~= tv.subrange(k as int, k as int));
                            assert(tv.subrange(k as int, k as int) =~= Seq::<TaskView>::empty());
                            assert(tv.subrange(k as int, k + 1).last() == tv[k as int]);
                            assert(spec_release_all(cur, Seq::<TaskView>::empty()) == cur);
                            assert(spec_release_all(cur, tv.subrange(k as int, k + 1)) == s1);
                            lemma_disowned_releases(cur, tv[k as int]);
                            lemma_same_ids_after_owner_change(cur, s1);
                            assert forall|i: int|
                                0 <= i < q0.tasks.len() && !has_id(s1, #[trigger] q0.tasks[i].id)
                                    implies executor_ran_ok::<E>(q0.tasks[i], q0.consumer_owner) by {
                                if has_id(cur, q0.tasks[i].id) {
                                    let w = choose|w: int| 0 <= w < cur.len() && cur[w].id == q0.tasks[i].id;
                                    assert(s1[w].id == cur[w].id);
                                }
                            }
                            assert forall|x: int| k + 1 <= x < batch.len() implies has_id(
                                s1,
                                #[trigger] tasks_view(batch@)[x].id,
                            ) by {
                                let w = choose|w: int| 0 <= w < cur.len() && cur[w].id == tasks_view(batch@)[x].id;
                                assert(s1[w].id == cur[w].id);
                            }
                            lemma_release_rest::<E>(q0.consumer_owner, q0.tasks, cur, tv, k as int, k + 1);
                            assert(tv.subrange(k as int, tv.len() as int) =~= tasks_view(batch@).subrange(k as int, batch.len() as int));
                            assert(executor_failed_on_claimed::<E>(
                                old(self)@.consumer_owner,
                                error,
                                self@.tasks,
                            )) by {
                                assert(call_ensures(E::execute_claimed_task, (ex0, task), Err::<(), TaskProcessingError>(error)));
                            }
                            lemma_run_err(q0, a0, done0, h0, curq, pending, error);
                            assert(answers == a0.push(Err(error)));
                            assert(run_is(old(self)@, answers, self@, Some(error), processed as nat, tasks_view(handed)));
                            assert(exs.len() == answers.len() + 1 && handed.len() == answers.len() && exs[0] == e0 && exs.last() == *executor);
                            assert(forall|i: int|
                                #![trigger answers[i]]
                                0 <= i < answers.len() ==> exists|ex: &mut E|
                                    {
                                        &&& call_ensures(E::execute_claimed_task, (ex, &handed[i]), answers[i])
                                        &&& *ex == exs[i]
                                        &&& *final(ex) == exs[i + 1]
                                    });
                        }
                        return Err(error);
                    },
                }
                k = k + 1;
            }
            proof {
                assert(tv.subrange(k as int, tv.len() as int) =~= Seq::<TaskView>::empty());
                assert forall|i: int| 0 <= i < self@.tasks.len() implies q0.tasks.contains(
                    #[trigger] self@.tasks[i],
                ) by {
                    assert(!has_id(tv.subrange(k as int, tv.len() as int), self@.tasks[i].id));
                }
            }
        }
    }

    /// How many queued tasks there are of each type, by type in sorting order.
    pub fn count_by_simple_type(&self) -> (r: Vec<(String, usize)>)
        ensures
            is_type_census(self@.tasks, counts_view(r@)),
    {
        let ghost s = tasks_view(self.tasks@);
        let mut counts: Vec<(String, usize)> = Vec::new();
        let mut i: usize = 0;
        while i < self.tasks.len()
            invariant
                s == tasks_view(self.tasks@),
                i <= self.tasks.len(),
                forall|a: int, b: int|
                    0 <= a < b < counts.len() ==> text_less(
                        #[trigger] counts_view(counts@)[a].0,
                        #[trigger] counts_view(counts@)[b].0,
                    ),
                forall|j: int|
                    0 <= j < counts.len() ==> #[trigger] counts_view(counts@)[j].1 == type_count(
                        s.take(i as int),
                        counts_view(counts@)[j].0,
                    ) && counts_view(counts@)[j].1 > 0 && counts_view(counts@)[j].1 <= i,
                forall|m: int|
                    0 <= m < i ==> lists_text(counts_view(counts@), #[trigger] s[m].simple_type),
            decreases self.tasks.len() - i,
        {
            let ghost cv = counts_view(counts@);
            let key = self.tasks[i].simple_type.as_str();
            assert(key@ == s[i as int].simple_type);
            let mut p: usize = 0;
            while p < counts.len() && text_lt(counts[p].0.as_str(), key)
                invariant
                    cv == counts_view(counts@),
                    p <= counts.len(),
                    forall|q: int| 0 <= q < p ==> text_less(#[trigger] cv[q].0, key@),
                decreases counts.len() - p,
            {
                assert(cv[p as int].0 == counts@[p as int].0@);
                p = p + 1;
            }
            let ghost k = key@;
            let ghost st = s.take(i as int);
            let ghost st1 = s.take(i + 1);
            if p < counts.len() && text_eq(counts[p].0.as_str(), key) {
                let c = counts[p].1;
                let name = counts[p].0.clone();
                assert(cv[p as int] == (counts@[p as int].0@, counts@[p as int].1));
                assert(counts_view(counts@)[p as int].1 <= i);
                assert(c <= i);
                counts.set(p, (name, c + 1));
                proof {
                    let cv2 = counts_view(counts@);
                    assert(cv2 =~= cv.update(p as int, (k, (c + 1) as usize)));
                    assert forall|j: int| 0 <= j < counts.len() implies #[trigger] cv2[j].1
                        == type_count(st1, cv2[j].0) && cv2[j].1 > 0 && cv2[j].1 <= i + 1 by {
                        lemma_type_count_step(s, cv2[j].0, i as int);
                        if j != p {
                            assert(cv2[j].0 != k) by {
                                lemma_text_less_irreflexive(k);
                                if j < p {
                                    assert(text_less(cv[p as int].0, cv[j].0) || text_less(cv[j].0, cv[p as int].0));
                                } else {
                                    assert(text_less(cv[p as int].0, cv[j].0));
                                }
                            }
                        }
                    }
                    assert forall|m: int| 0 <= m < i + 1 implies lists_text(
                        cv2,
                        #[trigger] s[m].simple_type,
                    ) by {
                        if m == i {
                            assert(cv2[p as int].0 == s[m].simple_type);
                        } else {
                            let j = choose|j: int| 0 <= j < cv.len() && cv[j].0 == s[m].simple_type;
                            assert(cv2[j].0 == s[m].simple_type);
                        }
                    }
                }
            } else {
                proof {
                    if p < cv.len() {
                        assert(cv[p as int].0 == counts@[p as int].0@);
                        assert(!text_less(cv[p as int].0, k));
                        assert(cv[p as int].0 != k);
                    }
                }
                counts.insert(p, (String::from_str(key), 1));
                proof {
                    let cv2 = counts_view(counts@);
                    assert(cv2 =~= cv.insert(p as int, (k, 1usize)));
                    // the new type sorts after everything before `p` and before everything after it
                    assert forall|q: int| p <= q < cv.len() implies text_less(k, #[trigger] cv[q].0) by {
                        lemma_text_less_total(k, cv[p as int].0);
                        if q > p {
                            lemma_text_less_transitive(k, cv[p as int].0, cv[q].0);
                        }
                    }
                    assert forall|q: int| 0 <= q < cv.len() implies #[trigger] cv[q].0 != k by {
                        lemma_text_less_irreflexive(k);
                        if q >= p {
                            assert(text_less(k, cv[q].0));
                        } else {
                            assert(text_less(cv[q].0, k));
                        }
                    }
                    assert(type_count(st, k) == 0) by {
                        assert forall|m: int| 0 <= m < st.len() implies !((|t: TaskView| t.simple_type == k)(
                            st[m],
                        )) by {
                            let j = choose|j: int| 0 <= j < cv.len() && cv[j].0 == s[m].simple_type;
                            assert(cv[j].0 != k);
                        }
                        lemma_filter_none(st, |t: TaskView| t.simple_type == k);
                    }
                    assert forall|a: int, b: int| 0 <= a < b < cv2.len() implies text_less(
                        #[trigger] cv2[a].0,
                        #[trigger] cv2[b].0,
                    ) by {
                        if b < p {
                        } else if b == p {
                        } else if a < p {
                            if a < p && b - 1 >= p {
                                assert(text_less(k, cv[b - 1].0));
                                assert(text_less(cv[a].0, k));
                                lemma_text_less_transitive(cv[a].0, k, cv[b - 1].0);
                            }
                        } else if a == p {
                        } else {
                        }
                    }
                    assert forall|j: int| 0 <= j < counts.len() implies #[trigger] cv2[j].1
                        == type_count(st1, cv2[j].0) && cv2[j].1 > 0 && cv2[j].1 <= i + 1 by {
                        lemma_type_count_step(s, cv2[j].0, i as int);
                        if j < p {
                            assert(cv2[j] == cv[j]);
                        } else if j > p {
                            assert(cv2[j] == cv[j - 1]);
                        }
                    }
                    assert forall|m: int| 0 <= m < i + 1 implies lists_text(
                        cv2,
                        #[trigger] s[m].simple_type,
                    ) by {
                        if m == i {
                            assert(cv2[p as int].0 == s[m].simple_type);
                        } else {
                            let j = choose|j: int| 0 <= j < cv.len() && cv[j].0 == s[m].simple_type;
                            if j < p {
                                assert(cv2[j].0 == s[m].simple_type);
                            } else {
                                assert(cv2[j + 1].0 == s[m].simple_type);
                            }
                        }
                    }
                }
            }
            i = i + 1;
        }
        assert(s.take(s.len() as int) =~= s);
        counts
    }

    /// Releases the first task with id `task_id`; false when there is none.
    pub fn disown(&mut self, task_id: &str) -> (r: bool)
        ensures
            match spec_first_with_id(old(self)@.tasks, task_id@) {
                Some(i) => r && final(self)@ == (TaskQueueView {
                    tasks: old(self)@.tasks.update(i, with_owner(old(self)@.tasks[i], None)),
                    ..old(self)@
                }),
                None => !r && final(self)@ == old(self)@,
            },
            unique_ids(old(self)@.tasks) ==> unique_ids(final(self)@.tasks),
    {
        proof {
            use_type_invariant(&*self);
        }
        match find_task(&self.tasks, task_id) {
            Some(i) => {
                let ghost s = self@.tasks;
                self.set_task_owner(i, None);
                proof {
                    if unique_ids(s) {
                        lemma_owner_update_keeps_ids_unique(s, i as int, None);
                    }
                }
                true
            },
            None => false,
        }
    }
}

} // verus!

