//! Gathering the outcomes of the tasks of one request: they arrive in the
//! order in which the tasks finish and are reported in the order of the
//! tasks' indices.

use vstd::prelude::*;
use vstd::string::*;
use vstd::seq_lib::{to_multiset_build, to_multiset_contains, to_multiset_insert};
use crate::text::text_of;
use crate::task::{
    OutcomeModel, ResultModel, StateModel, Task, TaskInput, TaskModel, TaskOutcome, TaskResult,
};

verus! {

/// How many generation attempts one request fans out to.
pub const FAN_OUT: usize = 4;

/// The media type of every variant.
pub const RESULT_MIME_TYPE: &'static str = "image/png";

/// What is surfaced when a request failed without a single recorded error.
pub const UNKNOWN_ERROR: &'static str = "Unknown error";

/// What introduces the surfaced error in the message for the user.
pub const FAILURE_OPENING: &'static str = "Failed to generate images: ";

/// The models of a sequence of outcomes.
pub open spec fn models(outcomes: Seq<TaskOutcome>) -> Seq<OutcomeModel> {
    outcomes.map_values(|o: TaskOutcome| o@)
}

/// The indices never decrease along the sequence.
pub open spec fn is_ordered(s: Seq<OutcomeModel>) -> bool {
    forall|i: int, j: int| 0 <= i < j < s.len() ==> s[i].index <= s[j].index
}

/// `x` put into `s` behind every outcome whose index is not greater.
pub open spec fn placed(s: Seq<OutcomeModel>, x: OutcomeModel) -> Seq<OutcomeModel>
    decreases s.len(),
{
    if s.len() > 0 && s.last().index > x.index {
        placed(s.drop_last(), x).push(s.last())
    } else {
        s.push(x)
    }
}

/// The arrivals in the order of their indices; arrivals with the same index
/// keep the order in which they came.
pub open spec fn ordered(arrivals: Seq<OutcomeModel>) -> Seq<OutcomeModel>
    decreases arrivals.len(),
{
    if arrivals.len() == 0 {
        Seq::empty()
    } else {
        placed(ordered(arrivals.drop_last()), arrivals.last())
    }
}

/// Every index below the number of outcomes occurs, and none twice.
pub open spec fn one_per_slot(s: Seq<OutcomeModel>) -> bool {
    &&& forall|i: int| 0 <= i < s.len() ==> (#[trigger] s[i]).index < s.len()
    &&& forall|i: int, j: int|
        0 <= i < j < s.len() ==> (#[trigger] s[i]).index != (#[trigger] s[j]).index
}

/// Where `placed` puts `x`: behind the last outcome whose index is not
/// greater.
pub proof fn lemma_placed_position(s: Seq<OutcomeModel>, x: OutcomeModel) -> (p: int)
    ensures
        0 <= p <= s.len(),
        placed(s, x) == s.insert(p, x),
        forall|k: int| p <= k < s.len() ==> (#[trigger] s[k]).index > x.index,
        p == 0 || s[p - 1].index <= x.index,
    decreases s.len(),
{
    if s.len() > 0 && s.last().index > x.index {
        let p: int = lemma_placed_position(s.drop_last(), x);
        assert(s.drop_last().insert(p, x).push(s.last()) =~= s.insert(p, x));
        assert forall|k: int| p <= k < s.len() implies (#[trigger] s[k]).index > x.index by {
            if k < s.len() - 1 {
                assert(s.drop_last()[k] == s[k]);
            }
        }
        if p > 0 {
            assert(s.drop_last()[p - 1] == s[p - 1]);
        }
        p
    } else {
        assert(s.push(x) =~= s.insert(s.len() as int, x));
        s.len() as int
    }
}

/// Placing an outcome keeps an ordered sequence ordered.
pub proof fn lemma_placed_ordered(s: Seq<OutcomeModel>, x: OutcomeModel)
    requires
        is_ordered(s),
    ensures
        is_ordered(placed(s, x)),
        placed(s, x).len() == s.len() + 1,
        placed(s, x).to_multiset() == s.to_multiset().insert(x),
{
    let p: int = lemma_placed_position(s, x);
    let t: Seq<OutcomeModel> = s.insert(p, x);
    to_multiset_insert(s, p, x);
    assert forall|i: int, j: int| 0 <= i < j < t.len() implies t[i].index <= t[j].index by {
        if j < p {
            assert(t[i] == s[i] && t[j] == s[j]);
        } else if j == p {
            assert(t[i] == s[i]);
            if i < p - 1 {
                assert(s[i].index <= s[p - 1].index);
            }
        } else if i < p {
            assert(t[i] == s[i] && t[j] == s[j - 1]);
        } else if i == p {
            assert(t[j] == s[j - 1]);
        } else {
            assert(t[i] == s[i - 1] && t[j] == s[j - 1]);
        }
    }
}

/// The reported sequence is ordered by index and holds exactly what
/// arrived.
pub proof fn lemma_ordered(arrivals: Seq<OutcomeModel>)
    ensures
        is_ordered(ordered(arrivals)),
        ordered(arrivals).len() == arrivals.len(),
        ordered(arrivals).to_multiset() == arrivals.to_multiset(),
    decreases arrivals.len(),
{
    if arrivals.len() == 0 {
        assert(arrivals =~= Seq::<OutcomeModel>::empty());
    } else {
        lemma_ordered(arrivals.drop_last());
        lemma_placed_ordered(ordered(arrivals.drop_last()), arrivals.last());
        to_multiset_build(arrivals.drop_last(), arrivals.last());
        assert(arrivals.drop_last().push(arrivals.last()) =~= arrivals);
    }
}

/// Two sequences with the same outcomes hold each other's outcomes.
proof fn lemma_shared_outcomes(a: Seq<OutcomeModel>, b: Seq<OutcomeModel>, i: int) -> (k: int)
    requires
        a.to_multiset() == b.to_multiset(),
        0 <= i < a.len(),
    ensures
        0 <= k < b.len(),
        b[k] == a[i],
{
    assert(a.contains(a[i]));
    to_multiset_contains(a, a[i]);
    to_multiset_contains(b, a[i]);
    choose|k: int| 0 <= k < b.len() && b[k] == a[i]
}

/// An ordered sequence with one outcome per slot has outcome `i` in slot
/// `i`.
proof fn lemma_slots_in_place(t: Seq<OutcomeModel>, i: int)
    requires
        is_ordered(t),
        one_per_slot(t),
        0 <= i < t.len(),
    ensures
        t[i].index == i,
{
    lemma_slot_at_least(t, i);
    lemma_slot_at_most(t, i);
}

proof fn lemma_slot_at_least(t: Seq<OutcomeModel>, i: int)
    requires
        is_ordered(t),
        one_per_slot(t),
        0 <= i < t.len(),
    ensures
        t[i].index >= i,
    decreases i,
{
    if i > 0 {
        lemma_slot_at_least(t, i - 1);
        assert(t[i - 1].index <= t[i].index);
        assert(t[i - 1].index != t[i].index);
    }
}

proof fn lemma_slot_at_most(t: Seq<OutcomeModel>, i: int)
    requires
        is_ordered(t),
        one_per_slot(t),
        0 <= i < t.len(),
    ensures
        t[i].index <= i,
    decreases t.len() - i,
{
    if i < t.len() - 1 {
        lemma_slot_at_most(t, i + 1);
        assert(t[i].index <= t[i + 1].index);
        assert(t[i].index != t[i + 1].index);
    }
}

/// With one arrival per task, the report has the outcome of task `i` in
/// place `i`, whatever the order of arrival.
pub proof fn lemma_ordered_by_task(arrivals: Seq<OutcomeModel>)
    requires
        one_per_slot(arrivals),
    ensures
        ordered(arrivals).len() == arrivals.len(),
        one_per_slot(ordered(arrivals)),
        forall|i: int| 0 <= i < arrivals.len() ==> (#[trigger] ordered(arrivals)[i]).index == i,
        forall|k: int|
            0 <= k < arrivals.len() ==> ordered(arrivals)[(#[trigger] arrivals[k]).index as int]
                == arrivals[k],
{
    let t: Seq<OutcomeModel> = ordered(arrivals);
    lemma_ordered(arrivals);
    assert forall|i: int| 0 <= i < t.len() implies (#[trigger] t[i]).index < t.len() by {
        let k: int = lemma_shared_outcomes(t, arrivals, i);
    }
    assert(arrivals.no_duplicates());
    arrivals.lemma_multiset_has_no_duplicates();
    t.lemma_multiset_has_no_duplicates_conv();
    assert forall|i: int, j: int| 0 <= i < j < t.len() implies (#[trigger] t[i]).index != (
    #[trigger] t[j]).index by {
        let a: int = lemma_shared_outcomes(t, arrivals, i);
        let b: int = lemma_shared_outcomes(t, arrivals, j);
        assert(t[i] != t[j]);
    }
    assert forall|i: int| 0 <= i < arrivals.len() implies (#[trigger] t[i]).index == i by {
        lemma_slots_in_place(t, i);
    }
    assert forall|k: int| 0 <= k < arrivals.len() implies t[(#[trigger] arrivals[k]).index as int]
        == arrivals[k] by {
        let p: int = lemma_shared_outcomes(arrivals, t, k);
        lemma_slots_in_place(t, p);
    }
}

/// The order in which the tasks finish does not show in the report: two
/// arrival orders of the same outcomes, one per task, are reported alike.
pub proof fn lemma_arrival_order_is_irrelevant(a: Seq<OutcomeModel>, b: Seq<OutcomeModel>)
    requires
        one_per_slot(a),
        a.to_multiset() == b.to_multiset(),
    ensures
        ordered(a) == ordered(b),
{
    vstd::seq_lib::to_multiset_len(a);
    vstd::seq_lib::to_multiset_len(b);
    assert(one_per_slot(b)) by {
        assert forall|i: int| 0 <= i < b.len() implies (#[trigger] b[i]).index < b.len() by {
            let k: int = lemma_shared_outcomes(b, a, i);
        }
        assert(a.no_duplicates());
        a.lemma_multiset_has_no_duplicates();
        b.lemma_multiset_has_no_duplicates_conv();
        assert forall|i: int, j: int| 0 <= i < j < b.len() implies (#[trigger] b[i]).index != (
        #[trigger] b[j]).index by {
            let x: int = lemma_shared_outcomes(b, a, i);
            let y: int = lemma_shared_outcomes(b, a, j);
            assert(b[i] != b[j]);
        }
    }
    lemma_ordered_by_task(a);
    lemma_ordered_by_task(b);
    assert forall|i: int| 0 <= i < ordered(a).len() implies ordered(a)[i] == ordered(b)[i] by {
        lemma_ordered(a);
        let k: int = lemma_shared_outcomes(ordered(a), a, i);
        let m: int = lemma_shared_outcomes(a, b, k);
        assert(ordered(b)[b[m].index as int] == b[m]);
    }
    assert(ordered(a) =~= ordered(b));
}

/// Some outcome is a success.
pub open spec fn any_succeeded(s: Seq<OutcomeModel>) -> bool {
    exists|i: int| 0 <= i < s.len() && (#[trigger] s[i]).result is Variants
}

/// The reason of the first failure in the sequence.
pub open spec fn first_error(s: Seq<OutcomeModel>) -> Option<Seq<char>>
    decreases s.len(),
{
    if s.len() == 0 {
        None
    } else {
        match s.first().result {
            ResultModel::Failure(reason) => Some(reason),
            ResultModel::Variants(_, _) => first_error(s.drop_first()),
        }
    }
}

/// What a request that has no success fails with: the first recorded error
/// in the order of the report.
pub open spec fn surfaced_error(s: Seq<OutcomeModel>) -> Option<Seq<char>> {
    if any_succeeded(s) {
        None
    } else {
        match first_error(s) {
            Some(reason) => Some(reason),
            None => Some(UNKNOWN_ERROR@),
        }
    }
}

/// The outcomes of one request in the order of the tasks' indices, and
/// whether the request succeeded.
#[derive(Clone, Debug)]
pub struct AggregateResult {
    outcomes: Vec<TaskOutcome>,
    success: bool,
}

/// The model of a report: the outcomes in the order of the report, and the
/// success flag.
pub struct ReportModel {
    pub outcomes: Seq<OutcomeModel>,
    pub success: bool,
}

impl View for AggregateResult {
    type V = ReportModel;

    closed spec fn view(&self) -> ReportModel {
        ReportModel { outcomes: models(self.outcomes@), success: self.success }
    }
}

/// Puts an outcome into an ordered report, behind every outcome whose index
/// is not greater.
fn place(report: &mut Vec<TaskOutcome>, outcome: TaskOutcome)
    ensures
        models(final(report)@) == placed(models(old(report)@), outcome@),
{
    let mut p: usize = report.len();
    while p > 0 && report[p - 1].index > outcome.index
        invariant
            p <= report.len(),
            forall|k: int|
                p <= k < report.len() ==> (#[trigger] models(report@)[k]).index > outcome@.index,
        decreases p,
    {
        p -= 1;
    }
    proof {
        let s: Seq<OutcomeModel> = models(report@);
        let q: int = lemma_placed_position(s, outcome@);
        if q < p {
            assert(s[p - 1].index <= outcome@.index);
            assert(s[p - 1].index > outcome@.index);
        } else if q > p {
            assert(s[q - 1].index > outcome@.index);
        }
        assert(models(report@.insert(p as int, outcome)) =~= s.insert(p as int, outcome@));
    }
    report.insert(p, outcome);
}

/// Gathers the outcomes of one request. They come in the order in which the
/// tasks finished and are reported in the order of the tasks' indices; the
/// request succeeded if any task did.
pub fn aggregate(arrivals: Vec<TaskOutcome>) -> (r: AggregateResult)
    ensures
        r@.outcomes == ordered(models(arrivals@)),
        r@.success == any_succeeded(models(arrivals@)),
        r.wf(),
        is_ordered(r@.outcomes),
        r@.outcomes.len() == arrivals@.len(),
        r@.outcomes.to_multiset() == models(arrivals@).to_multiset(),
{
    let ghost all: Seq<TaskOutcome> = arrivals@;
    let mut rest: Vec<TaskOutcome> = arrivals;
    let mut outcomes: Vec<TaskOutcome> = Vec::new();
    let mut success: bool = false;
    let ghost mut done: int = 0;
    while rest.len() > 0
        invariant
            0 <= done <= all.len(),
            rest@ == all.skip(done),
            models(outcomes@) == ordered(models(all.take(done))),
            success == any_succeeded(models(all.take(done))),
        decreases rest.len(),
    {
        let outcome: TaskOutcome = rest.remove(0);
        proof {
            let before: Seq<OutcomeModel> = models(all.take(done));
            let after: Seq<OutcomeModel> = models(all.take(done + 1));
            assert(outcome == all[done]);
            assert(after.drop_last() =~= before);
            assert(after.last() == outcome@);
            assert(all.skip(done).remove(0) =~= all.skip(done + 1));
            if any_succeeded(before) {
                let i: int = choose|i: int|
                    0 <= i < before.len() && (#[trigger] before[i]).result is Variants;
                assert(after[i] == before[i]);
            }
            if any_succeeded(after) && !(outcome@.result is Variants) {
                let i: int = choose|i: int|
                    0 <= i < after.len() && (#[trigger] after[i]).result is Variants;
                assert(before[i] == after[i]);
            }
        }
        match &outcome.result {
            TaskResult::Succeeded(_) => {
                success = true;
            },
            TaskResult::Failed(_) => {},
        }
        place(&mut outcomes, outcome);
        proof {
            done = done + 1;
        }
    }
    proof {
        assert(all.take(done) =~= all);
        lemma_ordered(models(all));
        lemma_success_survives_ordering(models(all));
    }
    AggregateResult { outcomes, success }
}

/// Creates the tasks of one request, numbered from 0, and marks each as
/// fetching: the caller issues one fetch for each.
pub fn fan_out(count: usize) -> (tasks: Vec<Task>)
    ensures
        tasks@.len() == count,
        forall|i: int|
            0 <= i < count ==> (#[trigger] tasks@[i])@ == (TaskModel {
                index: i as nat,
                state: StateModel::Fetching,
            }),
{
    let mut tasks: Vec<Task> = Vec::new();
    let mut index: usize = 0;
    while index < count
        invariant
            index <= count,
            tasks@.len() == index,
            forall|i: int|
                0 <= i < index ==> (#[trigger] tasks@[i])@ == (TaskModel {
                    index: i as nat,
                    state: StateModel::Fetching,
                }),
        decreases count - index,
    {
        let mut task: Task = Task::new(index);
        task.step(TaskInput::Start);
        tasks.push(task);
        index += 1;
    }
    tasks
}

/// The outcome that a terminal task has.
pub open spec fn outcome_of(task: Task) -> OutcomeModel {
    OutcomeModel { index: task@.index, result: task@.state->Done_0 }
}

/// Gathers the outcomes of the tasks of one request once every task is
/// terminal; while some task is not, there is nothing to report.
pub fn gather(tasks: &Vec<Task>) -> (r: Option<AggregateResult>)
    ensures
        r is Some <==> forall|i: int| 0 <= i < tasks@.len() ==> (#[trigger] tasks@[i])@.state.is_terminal(),
        r matches Some(report) ==> report.wf() && report@.outcomes == ordered(
            tasks@.map_values(|t: Task| outcome_of(t)),
        ),
{
    let mut arrivals: Vec<TaskOutcome> = Vec::new();
    let mut i: usize = 0;
    while i < tasks.len()
        invariant
            i <= tasks.len(),
            forall|k: int| 0 <= k < i ==> (#[trigger] tasks@[k])@.state.is_terminal(),
            arrivals@.len() == i,
            models(arrivals@) == tasks@.take(i as int).map_values(|t: Task| outcome_of(t)),
        decreases tasks.len() - i,
    {
        match tasks[i].outcome() {
            Some(outcome) => {
                proof {
                    let before: Seq<OutcomeModel> = tasks@.take(i as int).map_values(
                        |t: Task| outcome_of(t),
                    );
                    let after: Seq<OutcomeModel> = tasks@.take(i + 1).map_values(
                        |t: Task| outcome_of(t),
                    );
                    let grown: Seq<OutcomeModel> = models(arrivals@.push(outcome));
                    assert(outcome@ == outcome_of(tasks@[i as int]));
                    assert forall|k: int| 0 <= k < grown.len() implies grown[k] == after[k] by {
                        if k < i {
                            assert(grown[k] == models(arrivals@)[k]);
                            assert(before[k] == outcome_of(tasks@[k]));
                        }
                    }
                    assert(grown =~= after);
                }
                arrivals.push(outcome);
            },
            None => {
                return None;
            },
        }
        i += 1;
    }
    proof {
        assert(tasks@.take(tasks@.len() as int) =~= tasks@);
    }
    Some(aggregate(arrivals))
}

/// When the tasks stand in the order of their indices, as `fan_out` makes
/// them, the report lists their outcomes in that same order, whichever task
/// finished first.
pub proof fn lemma_report_follows_tasks(tasks: Seq<Task>)
    requires
        forall|i: int| 0 <= i < tasks.len() ==> (#[trigger] tasks[i])@.index == i,
    ensures
        ordered(tasks.map_values(|t: Task| outcome_of(t))) == tasks.map_values(
            |t: Task| outcome_of(t),
        ),
{
    let arrivals: Seq<OutcomeModel> = tasks.map_values(|t: Task| outcome_of(t));
    assert(one_per_slot(arrivals));
    lemma_ordered_by_task(arrivals);
    assert forall|k: int| 0 <= k < arrivals.len() implies ordered(arrivals)[k] == arrivals[k] by {
        assert(arrivals[k].index == k);
    }
    assert(ordered(arrivals) =~= arrivals);
}

/// Ordering neither adds nor loses a success.
pub proof fn lemma_success_survives_ordering(arrivals: Seq<OutcomeModel>)
    ensures
        any_succeeded(ordered(arrivals)) == any_succeeded(arrivals),
{
    lemma_ordered(arrivals);
    let t: Seq<OutcomeModel> = ordered(arrivals);
    if any_succeeded(arrivals) {
        let i: int = choose|i: int|
            0 <= i < arrivals.len() && (#[trigger] arrivals[i]).result is Variants;
        let k: int = lemma_shared_outcomes(arrivals, t, i);
        assert(t[k].result is Variants);
    }
    if any_succeeded(t) {
        let i: int = choose|i: int| 0 <= i < t.len() && (#[trigger] t[i]).result is Variants;
        let k: int = lemma_shared_outcomes(t, arrivals, i);
        assert(arrivals[k].result is Variants);
    }
}

impl AggregateResult {
    /// The success flag says whether any outcome is a success.
    pub open spec fn wf(&self) -> bool {
        self@.success == any_succeeded(self@.outcomes)
    }

    /// Whether at least one task succeeded.
    pub fn success(&self) -> (b: bool)
        requires
            self.wf(),
        ensures
            b == self@.success,
            b == any_succeeded(self@.outcomes),
    {
        self.success
    }

    /// The outcomes in the order of the tasks' indices.
    pub fn outcomes(&self) -> (outcomes: &Vec<TaskOutcome>)
        ensures
            models(outcomes@) == self@.outcomes,
    {
        &self.outcomes
    }

    /// The error that a failed request is reported with: the first error in
    /// the order of the report. A request with a success has none.
    pub fn surfaced_error(&self) -> (r: Option<String>)
        requires
            self.wf(),
        ensures
            text_of(r) == surfaced_error(self@.outcomes),
    {
        if self.success {
            return None;
        }
        let mut i: usize = 0;
        while i < self.outcomes.len()
            invariant
                i <= self.outcomes.len(),
                !any_succeeded(self@.outcomes),
                first_error(models(self.outcomes@)) == first_error(models(self.outcomes@).skip(i as int)),
            decreases self.outcomes.len() - i,
        {
            let ghost tail: Seq<OutcomeModel> = models(self.outcomes@).skip(i as int);
            proof {
                assert(tail.first() == self.outcomes@[i as int]@);
                assert(tail.drop_first() =~= models(self.outcomes@).skip(i + 1));
            }
            match &self.outcomes[i].result {
                TaskResult::Failed(reason) => {
                    return Some(reason.clone());
                },
                TaskResult::Succeeded(_) => {},
            }
            i += 1;
        }
        proof {
            assert(models(self.outcomes@).skip(i as int) =~= Seq::<OutcomeModel>::empty());
        }
        Some(String::from_str(UNKNOWN_ERROR))
    }

    /// The sentence that a failed request is reported with to the user.
    pub fn failure_message(&self) -> (r: Option<String>)
        requires
            self.wf(),
        ensures
            text_of(r) == match surfaced_error(self@.outcomes) {
                Some(reason) => Some(FAILURE_OPENING@ + reason),
                None => None,
            },
    {
        match self.surfaced_error() {
            Some(reason) => {
                let mut message: String = String::from_str(FAILURE_OPENING);
                message.append(reason.as_str());
                Some(message)
            },
            None => None,
        }
    }
}

/// When every task failed, the request fails with the error of task 0,
/// whatever the order in which the tasks finished.
pub proof fn lemma_all_failed_surfaces_first_task(arrivals: Seq<OutcomeModel>, k: int)
    requires
        one_per_slot(arrivals),
        forall|i: int| 0 <= i < arrivals.len() ==> (#[trigger] arrivals[i]).result is Failure,
        0 <= k < arrivals.len(),
        arrivals[k].index == 0,
    ensures
        !any_succeeded(ordered(arrivals)),
        surfaced_error(ordered(arrivals)) == Some(arrivals[k].result->Failure_0),
{
    lemma_ordered_by_task(arrivals);
    lemma_success_survives_ordering(arrivals);
    assert(ordered(arrivals)[arrivals[k].index as int] == arrivals[k]);
    assert(ordered(arrivals).first() == arrivals[k]);
}

/// A request with a success surfaces no error, and a request without one
/// always surfaces one.
pub proof fn lemma_surfaced_iff_failed(s: Seq<OutcomeModel>)
    ensures
        surfaced_error(s) is None <==> any_succeeded(s),
{
}

} // verus!
