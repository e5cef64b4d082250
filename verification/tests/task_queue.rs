use komga_core::task_queue::{
    FinalizationAction, FinalizationStep, TaskExecutionOutcome, TaskExecutionResult, TaskProcessingError,
    TaskQueueExecutionPort, TaskQueueOrchestrator, TaskQueueRecord, plan_task_finalization,
};

#[test]
fn task_queue_record_target_reads_kotlin_and_runtime_id_shapes() {
    let kotlin_task =
        TaskQueueRecord::new("AnalyzeBook_book-1", 6, None).with_simple_type("AnalyzeBook");
    let runtime_task =
        TaskQueueRecord::new("RuntimeTask:book-2", 6, None).with_simple_type("RuntimeTask");
    let targetless_task = TaskQueueRecord::new("UpgradeIndex", 2, None);

    assert_eq!(kotlin_task.target(), Some("book-1"));
    assert_eq!(runtime_task.target(), Some("book-2"));
    assert_eq!(targetless_task.target(), None);
}

#[test]
fn enqueue_owned_duplicate_keeps_original_task_payload() {
    let mut queue = TaskQueueOrchestrator::new("worker", true);
    queue.enqueue(TaskQueueRecord::new("Task_task-1", 1, None).with_payload("original"));
    assert!(queue.claim("Task_task-1", "worker"));

    queue.enqueue(TaskQueueRecord::new("Task_task-1", 9, None).with_payload("duplicate"));

    assert_eq!(queue.tasks().len(), 1);
    assert_eq!(queue.tasks()[0].payload.as_deref(), Some("original"));
    assert_eq!(queue.tasks()[0].priority, 1);
    assert_eq!(queue.tasks()[0].owner.as_deref(), Some("worker"));
}

#[test]
fn new_record_reads_simple_type_from_the_id() {
    let task = TaskQueueRecord::new("AnalyzeBook:book-1", 6, Some("group".to_string()));
    assert_eq!(task.id, "AnalyzeBook:book-1");
    assert_eq!(task.simple_type, "AnalyzeBook");
    assert_eq!(task.priority, 6);
    assert_eq!(task.group.as_deref(), Some("group"));
    assert_eq!(task.owner, None);
    assert_eq!(task.target(), Some("book-1"));
    let plain = TaskQueueRecord::new("AnalyzeBook_book-1", 6, None);
    assert_eq!(plain.simple_type, "AnalyzeBook_book-1");
    assert_eq!(plain.target(), None);
}

#[test]
fn enqueue_unowned_duplicate_replaces_the_task() {
    let mut queue = TaskQueueOrchestrator::new("worker", true);
    queue.enqueue(TaskQueueRecord::new("Task_task-1", 1, None).with_payload("original"));
    queue.enqueue(TaskQueueRecord::new("Task_task-1", 9, None).with_payload("replacement"));
    assert_eq!(queue.tasks().len(), 1);
    assert_eq!(queue.tasks()[0].payload.as_deref(), Some("replacement"));
    assert_eq!(queue.tasks()[0].priority, 9);
}

#[test]
fn take_available_prefers_the_highest_priority() {
    let mut queue = TaskQueueOrchestrator::new("worker", true);
    queue.enqueue(TaskQueueRecord::new("Low_a", 1, None));
    queue.enqueue(TaskQueueRecord::new("High_b", 9, None));
    queue.enqueue(TaskQueueRecord::new("Mid_c", 5, None));
    let taken = queue.take_available("worker").expect("a task is available");
    assert_eq!(taken.id, "High_b");
    assert_eq!(taken.owner.as_deref(), Some("worker"));
    let next = queue.take_available("worker").expect("a task is available");
    assert_eq!(next.id, "Mid_c");
}

#[test]
fn take_available_skips_locked_groups() {
    let mut queue = TaskQueueOrchestrator::new("worker", true);
    queue.enqueue(TaskQueueRecord::new("A_1", 5, Some("g".to_string())));
    queue.enqueue(TaskQueueRecord::new("B_2", 4, Some("g".to_string())));
    queue.enqueue(TaskQueueRecord::new("C_3", 1, None));
    assert_eq!(queue.take_available("w1").map(|t| t.id), Some("A_1".to_string()));
    assert_eq!(queue.take_available("w2").map(|t| t.id), Some("C_3".to_string()));
    assert!(queue.take_available("w3").is_none());
}

#[test]
fn complete_removes_the_task() {
    let mut queue = TaskQueueOrchestrator::new("worker", true);
    queue.enqueue(TaskQueueRecord::new("A_1", 5, None));
    queue.enqueue(TaskQueueRecord::new("B_2", 4, None));
    queue.complete("A_1");
    assert_eq!(queue.tasks().len(), 1);
    assert_eq!(queue.tasks()[0].id, "B_2");
}

#[test]
fn clear_unowned_keeps_claimed_tasks() {
    let mut queue = TaskQueueOrchestrator::new("worker", true);
    queue.enqueue(TaskQueueRecord::new("A_1", 5, None));
    queue.enqueue(TaskQueueRecord::new("B_2", 4, None));
    assert!(queue.claim("B_2", "worker"));
    queue.clear_unowned();
    assert_eq!(queue.tasks().len(), 1);
    assert_eq!(queue.tasks()[0].id, "B_2");
}

#[test]
fn disown_and_disown_all_release_claims() {
    let mut queue = TaskQueueOrchestrator::new("worker", true);
    queue.enqueue(TaskQueueRecord::new("A_1", 5, None));
    queue.enqueue(TaskQueueRecord::new("B_2", 4, None));
    assert!(queue.claim("A_1", "w"));
    assert!(queue.claim("B_2", "w"));
    assert!(queue.claim("B_2", "other"));
    assert!(!queue.claim("missing", "other"));
    queue.disown("A_1");
    assert_eq!(queue.tasks()[0].owner, None);
    assert_eq!(queue.tasks()[1].owner.as_deref(), Some("other"));
    queue.disown_all();
    assert!(queue.tasks().iter().all(|t| t.owner.is_none()));
}

#[test]
fn count_by_simple_type_counts_each_type_once() {
    let mut queue = TaskQueueOrchestrator::new("worker", true);
    queue.enqueue(TaskQueueRecord::new("ScanLibrary:1", 5, None));
    queue.enqueue(TaskQueueRecord::new("AnalyzeBook:a", 4, None));
    queue.enqueue(TaskQueueRecord::new("AnalyzeBook:b", 4, None));
    let counts = queue.count_by_simple_type();
    assert_eq!(
        counts,
        vec![("AnalyzeBook".to_string(), 2), ("ScanLibrary".to_string(), 1)]
    );
}

struct FailingSecond {
    seen: Vec<String>,
}

impl TaskQueueExecutionPort for FailingSecond {
    fn execute_claimed_task(&mut self, task: &TaskQueueRecord) -> Result<(), TaskProcessingError> {
        self.seen.push(task.id.clone());
        if self.seen.len() == 2 {
            Err(TaskProcessingError::runtime("boom"))
        } else {
            Ok(())
        }
    }
}

#[test]
fn process_available_runs_tasks_in_priority_order() {
    let mut queue = TaskQueueOrchestrator::new("worker", true);
    queue.enqueue(TaskQueueRecord::new("A_1", 1, None));
    queue.enqueue(TaskQueueRecord::new("B_2", 9, None));
    queue.enqueue(TaskQueueRecord::new("C_3", 5, None));
    let mut port = FailingSecond { seen: Vec::new() };
    let result = queue.process_available(&mut port);
    assert_eq!(port.seen, vec!["B_2".to_string(), "C_3".to_string()]);
    assert!(result.is_err());
}

#[test]
fn processing_errors_carry_their_messages() {
    assert_eq!(TaskProcessingError::invalid_task("bad").message, "bad");
    assert_eq!(
        TaskProcessingError::unsupported_task("Foo").message,
        "unsupported runtime task type: Foo"
    );
    assert_eq!(TaskProcessingError::runtime("io").message, "io");
}

/// Finishes an execution as the task store would, each call recorded and answered as
/// `answer` says.
fn finalize_recorded(
    events: &mut Vec<String>,
    task_result: TaskExecutionResult,
    answer: impl Fn(&str) -> Result<(), TaskProcessingError>,
) -> Result<(), TaskProcessingError> {
    let mut plan = plan_task_finalization(task_result);
    let mut last = Ok(());
    loop {
        match plan.next_step(last) {
            FinalizationStep::Finished(result) => return result,
            FinalizationStep::Perform(action) => {
                let event = match action {
                    FinalizationAction::EnqueueFollowUp(t) => format!("enqueue:{}", t.id),
                    FinalizationAction::Complete(id) => format!("complete:{id}"),
                    FinalizationAction::Fail(t, e) => format!("fail:{}:{}", t.id, e.message),
                };
                last = answer(&event);
                events.push(event);
            }
        }
    }
}

#[test]
fn finalize_task_execution_enqueues_follow_ups_before_completing_claimed_task() {
    let mut events = Vec::new();
    let task = TaskQueueRecord::new("ImportBook_book-1", 100, None);
    let first_follow_up = TaskQueueRecord::new("AnalyzeBook_book-1", 101, None);
    let second_follow_up = TaskQueueRecord::new("RefreshBookMetadata_book-1", 4, None);
    finalize_recorded(
        &mut events,
        TaskExecutionResult {
            task,
            outcome: Ok(TaskExecutionOutcome::with_follow_up_tasks(vec![first_follow_up, second_follow_up])),
        },
        |_| Ok(()),
    )
    .expect("successful task finalization should complete");
    assert_eq!(
        events.as_slice(),
        ["enqueue:AnalyzeBook_book-1", "enqueue:RefreshBookMetadata_book-1", "complete:ImportBook_book-1",]
    );
}

#[test]
fn finalize_task_execution_marks_failed_task_without_enqueuing_follow_ups() {
    let mut events = Vec::new();
    let task = TaskQueueRecord::new("ImportBook_book-1", 100, None);
    let error = TaskProcessingError::runtime("import failed");
    let result = finalize_recorded(&mut events, TaskExecutionResult { task, outcome: Err(error.clone()) }, |_| Ok(()));
    assert_eq!(result, Err(error));
    assert_eq!(events.as_slice(), ["fail:ImportBook_book-1:import failed"]);
}

#[test]
fn finalization_stops_at_the_first_failed_call() {
    let mut events = Vec::new();
    let task = TaskQueueRecord::new("ImportBook_book-1", 100, None);
    let result = finalize_recorded(
        &mut events,
        TaskExecutionResult {
            task,
            outcome: Ok(TaskExecutionOutcome::with_follow_up_tasks(vec![
                TaskQueueRecord::new("AnalyzeBook_book-1", 101, None),
                TaskQueueRecord::new("RefreshBookMetadata_book-1", 4, None),
            ])),
        },
        |event| {
            if event == "enqueue:AnalyzeBook_book-1" {
                Err(TaskProcessingError::runtime("store down"))
            } else {
                Ok(())
            }
        },
    );
    assert_eq!(result, Err(TaskProcessingError::runtime("store down")));
    assert_eq!(events.as_slice(), ["enqueue:AnalyzeBook_book-1"]);
}

#[test]
fn completed_outcome_has_no_follow_ups() {
    assert!(TaskExecutionOutcome::completed().follow_up_tasks().is_empty());
}

#[test]
fn process_available_stops_at_a_failure_and_releases_the_task() {
    let mut queue = TaskQueueOrchestrator::new("worker", true);
    queue.enqueue(TaskQueueRecord::new("A_1", 1, None));
    queue.enqueue(TaskQueueRecord::new("B_2", 9, None));
    queue.enqueue(TaskQueueRecord::new("C_3", 5, None));
    let mut port = FailingSecond { seen: Vec::new() };
    let result = queue.process_available(&mut port);
    assert_eq!(result, Err(TaskProcessingError::runtime("boom")));
    let left: Vec<(String, Option<String>)> =
        queue.tasks().iter().map(|t| (t.id.clone(), t.owner.clone())).collect();
    assert_eq!(left, vec![("A_1".to_string(), None), ("C_3".to_string(), None)]);
}

#[test]
fn process_available_without_available_tasks_does_nothing() {
    let mut queue = TaskQueueOrchestrator::new("worker", true);
    queue.enqueue(TaskQueueRecord::new("A_1", 1, None));
    assert!(queue.claim("A_1", "other"));
    let mut port = FailingSecond { seen: Vec::new() };
    assert_eq!(queue.process_available(&mut port), Ok(0));
    assert!(port.seen.is_empty());
    assert_eq!(queue.tasks().len(), 1);
    assert_eq!(queue.tasks()[0].owner.as_deref(), Some("other"));
}

#[test]
fn settling_a_batch_task_completes_or_releases() {
    let mut queue = TaskQueueOrchestrator::new("worker", true);
    queue.enqueue(TaskQueueRecord::new("A_1", 1, None));
    queue.enqueue(TaskQueueRecord::new("B_2", 9, None));
    let batch = queue.take_available_batch();
    assert_eq!(batch.len(), 1);
    assert_eq!(queue.settle_batch_task(&batch, 0, Ok(())), Ok(()));
    assert_eq!(queue.tasks().len(), 1);
    assert_eq!(queue.tasks()[0].id, "A_1");

    let batch = queue.take_available_batch();
    assert_eq!(queue.tasks()[0].owner.as_deref(), Some("worker"));
    let failure = TaskProcessingError::runtime("boom");
    assert_eq!(queue.settle_batch_task(&batch, 0, Err(failure.clone())), Err(failure));
    assert_eq!(queue.tasks().len(), 1);
    assert_eq!(queue.tasks()[0].owner, None);
}

#[test]
fn process_available_on_an_unconsumed_queue_asks_the_executor_nothing() {
    let mut queue = TaskQueueOrchestrator::new("worker", false);
    queue.enqueue(TaskQueueRecord::new("A_1", 1, None));
    let mut port = FailingSecond { seen: Vec::new() };
    assert_eq!(queue.process_available(&mut port), Ok(0));
    assert!(port.seen.is_empty());
    assert_eq!(queue.tasks().len(), 1);
    assert_eq!(queue.tasks()[0].owner, None);
}

#[test]
fn process_available_skips_locked_groups_and_stops_after_a_failure() {
    let mut queue = TaskQueueOrchestrator::new("worker", true);
    queue.enqueue(TaskQueueRecord::new("A_1", 9, Some("g".to_string())));
    queue.enqueue(TaskQueueRecord::new("B_2", 5, Some("g".to_string())));
    queue.enqueue(TaskQueueRecord::new("C_3", 1, None));
    queue.enqueue(TaskQueueRecord::new("D_4", 0, None));
    assert!(queue.claim("A_1", "other"));
    let mut port = FailingSecond { seen: Vec::new() };
    let result = queue.process_available(&mut port);
    assert_eq!(port.seen, vec!["C_3".to_string(), "D_4".to_string()]);
    assert_eq!(result, Err(TaskProcessingError::runtime("boom")));
    let left: Vec<(String, Option<String>)> =
        queue.tasks().iter().map(|t| (t.id.clone(), t.owner.clone())).collect();
    assert_eq!(
        left,
        vec![
            ("A_1".to_string(), Some("other".to_string())),
            ("B_2".to_string(), None),
            ("D_4".to_string(), None),
        ]
    );
}
