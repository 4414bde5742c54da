use base64::Engine;
use mojimix::orchestrator::{aggregate, fan_out, gather, FAN_OUT, RESULT_MIME_TYPE};
use mojimix::pipeline::{PipelineError, VariantPair};
use mojimix::task::{
    conclude, EncodedVariants, ProgressEvent, Task, TaskInput, TaskOutcome, TaskResult, TaskState,
};

fn good_image() -> Vec<u8> {
    let mut img = image::RgbaImage::new(24, 24);
    for (x, y, p) in img.enumerate_pixels_mut() {
        let content = (8..16).contains(&x) && (8..16).contains(&y);
        *p = image::Rgba(if content { [250, 200, 0, 255] } else { [0, 255, 0, 255] });
    }
    let mut out = std::io::Cursor::new(Vec::new());
    img.write_to(&mut out, image::ImageFormat::Png).unwrap();
    out.into_inner()
}

fn pngs_of(event: &ProgressEvent) -> (Vec<u8>, Vec<u8>) {
    let engine = base64::engine::general_purpose::STANDARD;
    (
        engine.decode(event.flood_fill.as_ref().unwrap()).unwrap(),
        engine.decode(event.color_key.as_ref().unwrap()).unwrap(),
    )
}

fn failed(index: usize, reason: &str) -> TaskOutcome {
    TaskOutcome { index, result: TaskResult::Failed(reason.to_string()) }
}

fn succeeded(index: usize, tag: &str) -> TaskOutcome {
    let variants = EncodedVariants { flood_fill: format!("ff-{tag}"), color_key: format!("ck-{tag}") };
    TaskOutcome { index, result: TaskResult::Succeeded(variants) }
}

fn indices(outcomes: &[TaskOutcome]) -> Vec<usize> {
    outcomes.iter().map(|o| o.index).collect()
}

fn reason(outcome: &TaskOutcome) -> Option<&str> {
    match &outcome.result {
        TaskResult::Failed(reason) => Some(reason.as_str()),
        TaskResult::Succeeded(_) => None,
    }
}

#[test]
fn a_task_walks_through_its_states() {
    let mut task = Task::new(2);
    assert_eq!(task.index(), 2);
    assert!(!task.is_terminal());
    assert!(task.outcome().is_none());
    assert!(task.step(TaskInput::Start).is_none());
    assert!(task.step(TaskInput::Fetched(good_image())).is_none());
    assert!(!task.is_terminal());
    let event = task.post_process().unwrap();
    assert!(task.is_terminal());
    assert_eq!(event.index, 2);
    assert!(event.error.is_none());
    let (flood, keyed) = pngs_of(&event);
    assert_eq!(image::load_from_memory(&flood).unwrap().to_rgba8().dimensions(), (128, 128));
    assert_eq!(image::load_from_memory(&keyed).unwrap().to_rgba8().dimensions(), (128, 128));
    let outcome = task.outcome().unwrap();
    assert_eq!(outcome.index, 2);
    match outcome.result {
        TaskResult::Succeeded(v) => {
            assert_eq!(Some(v.flood_fill), event.flood_fill);
            assert_eq!(Some(v.color_key), event.color_key);
        },
        TaskResult::Failed(reason) => panic!("failed: {reason}"),
    }
}

#[test]
fn steps_that_do_not_fit_change_nothing() {
    let mut task = Task::new(0);
    assert!(task.step(TaskInput::Fetched(vec![1])).is_none());
    assert!(task.step(TaskInput::FetchFailed("x".into())).is_none());
    assert!(task.step(TaskInput::Processed(TaskResult::Failed("y".into()))).is_none());
    assert!(task.post_process().is_none());
    assert!(task.complete(Ok(good_image())).is_none());
    assert!(!task.is_terminal());
    assert!(task.step(TaskInput::Start).is_none());
    assert!(task.step(TaskInput::Start).is_none());
    assert!(task.step(TaskInput::Processed(TaskResult::Failed("y".into()))).is_none());
    assert!(!task.is_terminal());
}

#[test]
fn a_failed_fetch_fails_the_task_at_once() {
    let mut task = Task::new(1);
    task.step(TaskInput::Start);
    let event = task.step(TaskInput::from_fetch(Err("Failed to send request: timeout".into()))).unwrap();
    assert_eq!(event.index, 1);
    assert_eq!(event.error.as_deref(), Some("Failed to send request: timeout"));
    assert!(event.flood_fill.is_none() && event.color_key.is_none());
    assert!(task.is_terminal());
    assert_eq!(reason(&task.outcome().unwrap()), Some("Failed to send request: timeout"));
}

#[test]
fn a_terminal_task_emits_nothing_more() {
    let mut task = Task::new(3);
    task.step(TaskInput::Start);
    assert!(task.complete(Err("first".into())).is_some());
    assert!(task.step(TaskInput::Start).is_none());
    assert!(task.step(TaskInput::FetchFailed("second".into())).is_none());
    assert!(task.step(TaskInput::Fetched(good_image())).is_none());
    assert!(task.step(TaskInput::Processed(TaskResult::Failed("third".into()))).is_none());
    assert!(task.post_process().is_none());
    assert!(task.complete(Ok(good_image())).is_none());
    assert_eq!(reason(&task.outcome().unwrap()), Some("first"));
}

#[test]
fn post_processing_failures_fail_the_task_with_their_message() {
    let mut undecodable = Task::new(0);
    undecodable.step(TaskInput::Start);
    let event = undecodable.complete(Ok(b"junk".to_vec())).unwrap();
    assert!(event.error.unwrap().starts_with("Failed to load image: "));

    let mut img = image::RgbaImage::new(4, 4);
    for p in img.pixels_mut() {
        *p = image::Rgba([255, 0, 0, 255]);
    }
    let mut bytes = std::io::Cursor::new(Vec::new());
    img.write_to(&mut bytes, image::ImageFormat::Png).unwrap();
    let mut not_green = Task::new(1);
    not_green.step(TaskInput::Start);
    let event = not_green.complete(Ok(bytes.into_inner())).unwrap();
    assert_eq!(event.error.as_deref(), Some("Background not green-dominant: (255,0,0)"));
    assert!(event.flood_fill.is_none());
    assert!(matches!(not_green.outcome().unwrap().result, TaskResult::Failed(_)));
}

#[test]
fn conclude_encodes_both_files_for_the_wire() {
    let pair = VariantPair { flood_fill: b"Man".to_vec(), color_key: b"light w".to_vec() };
    match conclude(Ok(pair)) {
        TaskResult::Succeeded(v) => {
            assert_eq!(v.flood_fill, "TWFu");
            assert_eq!(v.color_key, "bGlnaHQgdw==");
        },
        TaskResult::Failed(reason) => panic!("failed: {reason}"),
    }
    match conclude(Err(PipelineError::EncodeFailure("no room".into()))) {
        TaskResult::Failed(reason) => assert_eq!(reason, "Failed to encode PNG: no room"),
        TaskResult::Succeeded(_) => panic!("succeeded"),
    }
}

#[test]
fn results_turn_into_events() {
    let event = TaskResult::Failed("why".into()).to_event(7);
    assert_eq!((event.index, event.error.as_deref()), (7, Some("why")));
    let variants = EncodedVariants { flood_fill: "a".into(), color_key: "b".into() };
    let result = TaskResult::Succeeded(variants);
    let event = result.to_event(0);
    assert_eq!((event.flood_fill.as_deref(), event.color_key.as_deref()), (Some("a"), Some("b")));
    assert!(event.error.is_none());
    assert!(matches!(result.duplicate(), TaskResult::Succeeded(v) if v.flood_fill == "a" && v.color_key == "b"));
    assert!(matches!(TaskState::Pending, TaskState::Pending));
}

/// Four tasks, of which 0 and 2 succeed and 1 and 3 fail, finishing in the
/// given order.
fn run_four(order: [usize; 4]) -> (Vec<ProgressEvent>, Vec<TaskOutcome>) {
    let mut tasks: Vec<Task> = fan_out(FAN_OUT);
    assert_eq!(tasks.iter().map(|t| t.index()).collect::<Vec<_>>(), vec![0, 1, 2, 3]);
    let mut events = Vec::new();
    let mut arrivals = Vec::new();
    for index in order {
        let fetched = if index % 2 == 0 { Ok(good_image()) } else { Err(format!("task {index} failed")) };
        events.push(tasks[index].complete(fetched).unwrap());
        assert!(tasks[index].complete(Ok(good_image())).is_none());
        arrivals.push(tasks[index].outcome().unwrap());
    }
    let gathered = gather(&tasks).unwrap();
    assert_eq!(indices(gathered.outcomes()), vec![0, 1, 2, 3]);
    (events, arrivals)
}

#[test]
fn partial_failure_is_a_success_in_index_order() {
    for order in [[0, 1, 2, 3], [3, 2, 1, 0], [2, 0, 3, 1], [1, 3, 0, 2]] {
        let (events, arrivals) = run_four(order);
        assert_eq!(events.iter().map(|e| e.index).collect::<Vec<_>>(), order.to_vec());
        for index in 0..4 {
            assert_eq!(events.iter().filter(|e| e.index == index).count(), 1);
        }
        for event in &events {
            assert_eq!(event.error.is_some(), event.index % 2 == 1);
            assert_eq!(event.flood_fill.is_some(), event.index % 2 == 0);
            assert_eq!(event.color_key.is_some(), event.index % 2 == 0);
        }
        let report = aggregate(arrivals);
        assert!(report.success());
        assert_eq!(indices(report.outcomes()), vec![0, 1, 2, 3]);
        assert_eq!(reason(&report.outcomes()[1]), Some("task 1 failed"));
        assert_eq!(reason(&report.outcomes()[3]), Some("task 3 failed"));
        assert!(reason(&report.outcomes()[0]).is_none() && reason(&report.outcomes()[2]).is_none());
        assert_eq!(report.surfaced_error(), None);
        assert_eq!(report.failure_message(), None);
    }
}

#[test]
fn total_failure_surfaces_the_error_of_task_zero() {
    for order in [[0, 1, 2, 3], [3, 2, 1, 0], [2, 0, 3, 1]] {
        let arrivals = order.iter().map(|i| failed(*i, &format!("error {i}"))).collect();
        let report = aggregate(arrivals);
        assert!(!report.success());
        assert_eq!(indices(report.outcomes()), vec![0, 1, 2, 3]);
        assert_eq!(report.surfaced_error().as_deref(), Some("error 0"));
        assert_eq!(report.failure_message().as_deref(), Some("Failed to generate images: error 0"));
    }
}

#[test]
fn a_request_without_tasks_fails_with_an_unknown_error() {
    let report = aggregate(Vec::new());
    assert!(!report.success());
    assert!(report.outcomes().is_empty());
    assert_eq!(report.surfaced_error().as_deref(), Some("Unknown error"));
    assert_eq!(report.failure_message().as_deref(), Some("Failed to generate images: Unknown error"));
    assert_eq!(RESULT_MIME_TYPE, "image/png");
    assert_eq!(FAN_OUT, 4);
}

#[test]
fn one_success_is_enough() {
    let report = aggregate(vec![failed(2, "c"), succeeded(1, "b"), failed(0, "a")]);
    assert!(report.success());
    assert_eq!(indices(report.outcomes()), vec![0, 1, 2]);
    assert_eq!(report.surfaced_error(), None);
}

#[test]
fn arrivals_with_equal_indices_keep_their_order() {
    let report = aggregate(vec![failed(1, "first"), failed(0, "zero"), failed(1, "second"), failed(5, "five")]);
    let got: Vec<_> = report.outcomes().iter().map(|o| (o.index, reason(o).unwrap())).collect();
    assert_eq!(got, vec![(0, "zero"), (1, "first"), (1, "second"), (5, "five")]);
}

#[test]
fn nothing_is_gathered_before_every_task_is_terminal() {
    let mut tasks = vec![Task::new(0), Task::new(1)];
    tasks[0].step(TaskInput::Start);
    tasks[0].complete(Err("down".into()));
    assert!(gather(&tasks).is_none());
    tasks[1].step(TaskInput::Start);
    assert!(gather(&tasks).is_none());
    tasks[1].step(TaskInput::Fetched(vec![0]));
    assert!(gather(&tasks).is_none());
    tasks[1].post_process();
    let report = gather(&tasks).unwrap();
    assert!(!report.success());
    assert_eq!(report.surfaced_error().as_deref(), Some("down"));
    assert!(gather(&Vec::new()).is_some());
    assert!(fan_out(0).is_empty());
}
