//! One generation attempt as a state machine: pending, fetching,
//! post-processing, and then succeeded or failed for good. The step that
//! makes a task terminal hands out its one progress event.

use vstd::prelude::*;
use vstd::string::*;
use crate::pipeline::{is_emoji_outcome, resize_to_emoji, PipelineError, VariantPair};
use crate::text::text_of;
use crate::transport::{base64_text, encodable, encode_payload};

verus! {

/// The two variants of one image as payloads for the wire.
#[derive(Clone, Debug)]
pub struct EncodedVariants {
    pub flood_fill: String,
    pub color_key: String,
}

/// What a task ended with, as plain values.
pub enum ResultModel {
    /// Both payloads: the flood-fill variant, then the colour-key variant.
    Variants(Seq<char>, Seq<char>),
    /// The reason for the failure.
    Failure(Seq<char>),
}

/// The model of a task's state.
pub enum StateModel {
    Pending,
    Fetching,
    PostProcessing(Seq<u8>),
    Done(ResultModel),
}

/// The model of what moves a task on.
pub enum StepModel {
    /// The fetch is issued.
    Start,
    /// The fetch came back with the image's bytes.
    Fetched(Seq<u8>),
    /// The fetch came back with an error.
    FetchFailed(Seq<char>),
    /// Post-processing came back.
    Processed(ResultModel),
}

/// The model of a progress event.
pub struct EventModel {
    pub index: nat,
    pub flood_fill: Option<Seq<char>>,
    pub color_key: Option<Seq<char>>,
    pub error: Option<Seq<char>>,
}

/// The model of a task: its index and its state.
pub struct TaskModel {
    pub index: nat,
    pub state: StateModel,
}

impl StateModel {
    /// The task has succeeded or failed.
    pub open spec fn is_terminal(self) -> bool {
        self is Done
    }
}

/// The state after a step. A step that does not fit the state changes
/// nothing; in particular nothing leads out of a terminal state.
pub open spec fn advance(state: StateModel, step: StepModel) -> StateModel {
    match (state, step) {
        (StateModel::Pending, StepModel::Start) => StateModel::Fetching,
        (StateModel::Fetching, StepModel::Fetched(bytes)) => StateModel::PostProcessing(bytes),
        (StateModel::Fetching, StepModel::FetchFailed(reason)) => StateModel::Done(
            ResultModel::Failure(reason),
        ),
        (StateModel::PostProcessing(_), StepModel::Processed(result)) => StateModel::Done(result),
        _ => state,
    }
}

/// The event that tells of a result.
pub open spec fn event_of(index: nat, result: ResultModel) -> EventModel {
    match result {
        ResultModel::Variants(flood_fill, color_key) => EventModel {
            index,
            flood_fill: Some(flood_fill),
            color_key: Some(color_key),
            error: None,
        },
        ResultModel::Failure(reason) => EventModel {
            index,
            flood_fill: None,
            color_key: None,
            error: Some(reason),
        },
    }
}

/// The event that a step emits: the task's result, when the step is the one
/// that makes the task terminal.
pub open spec fn emitted(task: TaskModel, step: StepModel) -> Option<EventModel> {
    match (task.state, advance(task.state, step)) {
        (StateModel::Done(_), _) => None,
        (_, StateModel::Done(result)) => Some(event_of(task.index, result)),
        _ => None,
    }
}

/// The state that a sequence of steps leads to from `Pending`.
pub open spec fn state_after(steps: Seq<StepModel>) -> StateModel
    decreases steps.len(),
{
    if steps.len() == 0 {
        StateModel::Pending
    } else {
        advance(state_after(steps.drop_last()), steps.last())
    }
}

/// The events that a task emits along a sequence of steps from `Pending`.
pub open spec fn events_along(index: nat, steps: Seq<StepModel>) -> Seq<EventModel>
    decreases steps.len(),
{
    if steps.len() == 0 {
        Seq::empty()
    } else {
        let before: Seq<EventModel> = events_along(index, steps.drop_last());
        let task = TaskModel { index, state: state_after(steps.drop_last()) };
        match emitted(task, steps.last()) {
            Some(event) => before.push(event),
            None => before,
        }
    }
}

/// A terminal state is final: no step changes it and none emits from it.
pub proof fn lemma_terminal_is_final(task: TaskModel, step: StepModel)
    requires
        task.state.is_terminal(),
    ensures
        advance(task.state, step) == task.state,
        emitted(task, step) is None,
{
}

/// Whatever happens to a task, in whatever order: it has emitted exactly one
/// event if it is terminal, the event of its result, and none if it is not.
pub proof fn lemma_one_event_per_task(index: nat, steps: Seq<StepModel>)
    ensures
        match state_after(steps) {
            StateModel::Done(result) => events_along(index, steps) == seq![event_of(index, result)],
            _ => events_along(index, steps).len() == 0,
        },
    decreases steps.len(),
{
    if steps.len() > 0 {
        lemma_one_event_per_task(index, steps.drop_last());
        let before: Seq<EventModel> = events_along(index, steps.drop_last());
        match state_after(steps) {
            StateModel::Done(result) => {
                if !(state_after(steps.drop_last()) is Done) {
                    assert(before.push(event_of(index, result)) =~= seq![event_of(index, result)]);
                }
            },
            _ => {},
        }
    }
}

/// How a task ended: with both payloads, or with the reason for its failure.
#[derive(Clone, Debug)]
pub enum TaskResult {
    Succeeded(EncodedVariants),
    Failed(String),
}

impl View for TaskResult {
    type V = ResultModel;

    open spec fn view(&self) -> ResultModel {
        match self {
            TaskResult::Succeeded(v) => ResultModel::Variants(v.flood_fill@, v.color_key@),
            TaskResult::Failed(reason) => ResultModel::Failure(reason@),
        }
    }
}

/// Where a task stands.
#[derive(Clone, Debug)]
pub enum TaskState {
    /// Created; the fetch has not been issued.
    Pending,
    /// Waiting for the image.
    Fetching,
    /// The image's bytes are here and wait to be worked on.
    PostProcessing(Vec<u8>),
    /// Terminal: the task has its result.
    Done(TaskResult),
}

impl View for TaskState {
    type V = StateModel;

    open spec fn view(&self) -> StateModel {
        match self {
            TaskState::Pending => StateModel::Pending,
            TaskState::Fetching => StateModel::Fetching,
            TaskState::PostProcessing(bytes) => StateModel::PostProcessing(bytes@),
            TaskState::Done(result) => StateModel::Done(result@),
        }
    }
}

/// What moves a task on.
#[derive(Clone, Debug)]
pub enum TaskInput {
    /// The fetch is issued.
    Start,
    /// The fetch came back with the image's bytes.
    Fetched(Vec<u8>),
    /// The fetch came back with the collaborator's error.
    FetchFailed(String),
    /// Post-processing came back.
    Processed(TaskResult),
}

impl View for TaskInput {
    type V = StepModel;

    open spec fn view(&self) -> StepModel {
        match self {
            TaskInput::Start => StepModel::Start,
            TaskInput::Fetched(bytes) => StepModel::Fetched(bytes@),
            TaskInput::FetchFailed(reason) => StepModel::FetchFailed(reason@),
            TaskInput::Processed(result) => StepModel::Processed(result@),
        }
    }
}

/// What the caller is told when a task has its result: the task's index and
/// either both payloads or the error.
#[derive(Clone, Debug)]
pub struct ProgressEvent {
    pub index: usize,
    pub flood_fill: Option<String>,
    pub color_key: Option<String>,
    pub error: Option<String>,
}

impl View for ProgressEvent {
    type V = EventModel;

    open spec fn view(&self) -> EventModel {
        EventModel {
            index: self.index as nat,
            flood_fill: text_of(self.flood_fill),
            color_key: text_of(self.color_key),
            error: text_of(self.error),
        }
    }
}

/// The result of a task, tagged with the task's index.
#[derive(Clone, Debug)]
pub struct TaskOutcome {
    pub index: usize,
    pub result: TaskResult,
}

/// The model of an outcome.
pub struct OutcomeModel {
    pub index: nat,
    pub result: ResultModel,
}

impl View for TaskOutcome {
    type V = OutcomeModel;

    open spec fn view(&self) -> OutcomeModel {
        OutcomeModel { index: self.index as nat, result: self.result@ }
    }
}

impl TaskInput {
    /// The input that a finished fetch amounts to.
    pub fn from_fetch(fetched: Result<Vec<u8>, String>) -> (input: TaskInput)
        ensures
            input@ == match fetched {
                Ok(bytes) => StepModel::Fetched(bytes@),
                Err(reason) => StepModel::FetchFailed(reason@),
            },
    {
        match fetched {
            Ok(bytes) => TaskInput::Fetched(bytes),
            Err(reason) => TaskInput::FetchFailed(reason),
        }
    }
}

impl TaskResult {
    /// An independent copy.
    pub fn duplicate(&self) -> (copy: TaskResult)
        ensures
            copy@ == self@,
    {
        match self {
            TaskResult::Succeeded(v) => TaskResult::Succeeded(
                EncodedVariants {
                    flood_fill: v.flood_fill.clone(),
                    color_key: v.color_key.clone(),
                },
            ),
            TaskResult::Failed(reason) => TaskResult::Failed(reason.clone()),
        }
    }

    /// The progress event that tells of this result.
    pub fn to_event(&self, index: usize) -> (event: ProgressEvent)
        ensures
            event@ == event_of(index as nat, self@),
    {
        match self {
            TaskResult::Succeeded(v) => ProgressEvent {
                index,
                flood_fill: Some(v.flood_fill.clone()),
                color_key: Some(v.color_key.clone()),
                error: None,
            },
            TaskResult::Failed(reason) => ProgressEvent {
                index,
                flood_fill: None,
                color_key: None,
                error: Some(reason.clone()),
            },
        }
    }
}

/// One generation attempt.
#[derive(Clone, Debug)]
pub struct Task {
    index: usize,
    state: TaskState,
}

impl View for Task {
    type V = TaskModel;

    closed spec fn view(&self) -> TaskModel {
        TaskModel { index: self.index as nat, state: self.state@ }
    }
}

impl Task {
    /// A pending task.
    pub fn new(index: usize) -> (task: Task)
        ensures
            task@ == (TaskModel { index: index as nat, state: StateModel::Pending }),
    {
        Task { index, state: TaskState::Pending }
    }

    /// The task's index.
    pub fn index(&self) -> (index: usize)
        ensures
            index == self@.index,
    {
        self.index
    }

    /// Whether the task has succeeded or failed.
    pub fn is_terminal(&self) -> (b: bool)
        ensures
            b == self@.state.is_terminal(),
    {
        match &self.state {
            TaskState::Done(_) => true,
            _ => false,
        }
    }

    /// Moves the task on by one step and hands out the progress event if the
    /// step made the task terminal.
    pub fn step(&mut self, input: TaskInput) -> (event: Option<ProgressEvent>)
        ensures
            final(self)@.index == old(self)@.index,
            final(self)@.state == advance(old(self)@.state, input@),
            match emitted(old(self)@, input@) {
                Some(e) => event matches Some(got) && got@ == e,
                None => event is None,
            },
    {
        let next: Option<TaskState> = match (&self.state, input) {
            (TaskState::Pending, TaskInput::Start) => Some(TaskState::Fetching),
            (TaskState::Fetching, TaskInput::Fetched(bytes)) => Some(
                TaskState::PostProcessing(bytes),
            ),
            (TaskState::Fetching, TaskInput::FetchFailed(reason)) => Some(
                TaskState::Done(TaskResult::Failed(reason)),
            ),
            (TaskState::PostProcessing(_), TaskInput::Processed(result)) => Some(
                TaskState::Done(result),
            ),
            _ => None,
        };
        match next {
            Some(state) => {
                let event: Option<ProgressEvent> = match &state {
                    TaskState::Done(result) => Some(result.to_event(self.index)),
                    _ => None,
                };
                self.state = state;
                event
            },
            None => None,
        }
    }

    /// The task's outcome, once it has one.
    pub fn outcome(&self) -> (r: Option<TaskOutcome>)
        ensures
            match self@.state {
                StateModel::Done(result) => r matches Some(o) && o@ == (OutcomeModel {
                    index: self@.index,
                    result,
                }),
                _ => r is None,
            },
    {
        match &self.state {
            TaskState::Done(result) => Some(
                TaskOutcome { index: self.index, result: result.duplicate() },
            ),
            _ => None,
        }
    }
}

/// What was written when a variant is too large to go over the wire.
pub const PAYLOAD_TOO_LARGE: &'static str = "the image is too large to encode for transport";

/// What a result of the image pipeline becomes as the result of a task:
/// both files as wire payloads, or the pipeline's message. A file too large
/// to encode fails the task as an encoding failure does.
pub open spec fn task_result_of(processed: Result<VariantPair, PipelineError>) -> ResultModel {
    match processed {
        Ok(pair) => if encodable(pair.flood_fill@.len() as int) && encodable(
            pair.color_key@.len() as int,
        ) {
            ResultModel::Variants(base64_text(pair.flood_fill@), base64_text(pair.color_key@))
        } else {
            ResultModel::Failure("Failed to encode PNG: "@ + PAYLOAD_TOO_LARGE@)
        },
        Err(e) => ResultModel::Failure(e.message_text()),
    }
}

/// Turns what the image pipeline returned into the result of a task.
pub fn conclude(processed: Result<VariantPair, PipelineError>) -> (result: TaskResult)
    ensures
        result@ == task_result_of(processed),
{
    match processed {
        Ok(pair) => {
            let flood_fill: Option<String> = encode_payload(pair.flood_fill.as_slice());
            let color_key: Option<String> = encode_payload(pair.color_key.as_slice());
            match (flood_fill, color_key) {
                (Some(flood_fill), Some(color_key)) => TaskResult::Succeeded(
                    EncodedVariants { flood_fill, color_key },
                ),
                _ => TaskResult::Failed(
                    PipelineError::EncodeFailure(String::from_str(PAYLOAD_TOO_LARGE)).message(),
                ),
            }
        },
        Err(e) => TaskResult::Failed(e.message()),
    }
}

/// The task is terminal with what working on the bytes of an image can come
/// to.
pub open spec fn worked_on(state: StateModel) -> bool {
    exists|processed: Result<VariantPair, PipelineError>| #[trigger]
        is_emoji_outcome(processed) && state == StateModel::Done(task_result_of(processed))
}

/// `event` is the one event that tells of the result in `state`.
pub open spec fn told(event: Option<ProgressEvent>, index: nat, state: StateModel) -> bool {
    match (event, state) {
        (Some(got), StateModel::Done(result)) => got@ == event_of(index, result),
        _ => false,
    }
}

impl Task {
    /// Works on the bytes that a task in `PostProcessing` holds and makes
    /// the task terminal with what came of them. What comes of them is up to
    /// the decoder, the resampler and the encoder; whatever it is, the task
    /// has its result and the event tells of that result. A task in another
    /// state is left alone.
    pub fn post_process(&mut self) -> (event: Option<ProgressEvent>)
        ensures
            final(self)@.index == old(self)@.index,
            old(self)@.state is PostProcessing ==> worked_on(final(self)@.state) && told(
                event,
                old(self)@.index,
                final(self)@.state,
            ),
            !(old(self)@.state is PostProcessing) ==> final(self)@ == old(self)@ && event is None,
    {
        let result: Option<TaskResult> = match &self.state {
            TaskState::PostProcessing(bytes) => {
                let processed: Result<VariantPair, PipelineError> = resize_to_emoji(
                    bytes.as_slice(),
                );
                assert(is_emoji_outcome(processed));
                Some(conclude(processed))
            },
            _ => None,
        };
        match result {
            Some(result) => self.step(TaskInput::Processed(result)),
            None => None,
        }
    }

    /// Takes a task that is fetching from the end of its fetch to its
    /// result: a failed fetch fails the task, a fetched image is worked on.
    /// The task ends terminal and the event tells of its result.
    pub fn complete(&mut self, fetched: Result<Vec<u8>, String>) -> (event: Option<ProgressEvent>)
        ensures
            final(self)@.index == old(self)@.index,
            old(self)@.state is Fetching ==> final(self)@.state is Done && told(
                event,
                old(self)@.index,
                final(self)@.state,
            ),
            old(self)@.state is Fetching ==> match fetched {
                Ok(_) => worked_on(final(self)@.state),
                Err(reason) => final(self)@.state == StateModel::Done(
                    ResultModel::Failure(reason@),
                ),
            },
            !(old(self)@.state is Fetching) ==> final(self)@ == old(self)@ && event is None,
    {
        match &self.state {
            TaskState::Fetching => {},
            _ => {
                return None;
            },
        }
        match self.step(TaskInput::from_fetch(fetched)) {
            Some(event) => Some(event),
            None => self.post_process(),
        }
    }
}

} // verus!
