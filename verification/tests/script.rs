use conmon_log::error::{IoKind, LogError};
use conmon_log::script::{outcome, FileState, Progress, Script, Step};

fn state(open: bool, limit: Option<usize>, written: usize) -> FileState {
    FileState { open, limit, written }
}

#[test]
fn new_state_holds_no_file() {
    assert_eq!(FileState::new(None), state(false, None, 0));
    assert_eq!(FileState::new(Some(9)), state(false, Some(9), 0));
}

#[test]
fn apply_takes_one_step() {
    let mut now = state(false, Some(100), 7);
    now.apply(&Step::Account(5));
    assert_eq!(now, state(false, Some(100), 12));
    now.apply(&Step::Sync);
    assert_eq!(now, state(false, Some(100), 12));
    now.apply(&Step::Open);
    assert_eq!(now, state(true, Some(100), 12));
    now.apply(&Step::Append(vec![1, 2, 3]));
    assert_eq!(now, state(true, Some(100), 12));
    now.apply(&Step::Flush);
    assert_eq!(now, state(true, Some(100), 12));
    now.apply(&Step::Reset);
    assert_eq!(now, state(true, Some(100), 0));
}

#[test]
fn the_count_stops_at_the_largest_number() {
    let mut now = state(true, None, usize::MAX - 2);
    now.apply(&Step::Account(2));
    assert_eq!(now.written, usize::MAX);
    now.apply(&Step::Account(1));
    assert_eq!(now.written, usize::MAX);
    now.apply(&Step::Account(usize::MAX));
    assert_eq!(now.written, usize::MAX);
}

#[test]
fn advance_takes_the_first_steps_only() {
    let steps = vec![Step::Account(3), Step::Open, Step::Reset, Step::Account(4)];
    let mut now = state(false, None, 1);
    now.advance(&steps, 0);
    assert_eq!(now, state(false, None, 1));
    now.advance(&steps, 1);
    assert_eq!(now, state(false, None, 4));
    let mut now = state(false, None, 1);
    now.advance(&steps, 2);
    assert_eq!(now, state(true, None, 4));
    let mut now = state(false, None, 1);
    now.advance(&steps, 4);
    assert_eq!(now, state(true, None, 4));
    let mut now = state(false, None, 1);
    now.advance(&steps, 400);
    assert_eq!(now, state(true, None, 4));
}

#[test]
fn settle_goes_as_far_as_the_caller_came() {
    let script = Script {
        path: "p".to_string(),
        steps: vec![Step::Account(10), Step::Sync, Step::Open, Step::Reset, Step::Append(vec![])],
        uninitialized: false,
    };
    let mut now = state(true, Some(5), 2);
    now.settle(&script, &Progress::Completed);
    assert_eq!(now, state(true, Some(5), 0));

    let mut now = state(true, Some(5), 2);
    let failed = Progress::Failed { done: 1, kind: IoKind::Sync, cause: "c".to_string() };
    now.settle(&script, &failed);
    assert_eq!(now, state(true, Some(5), 12));

    let mut now = state(true, Some(5), 2);
    let failed = Progress::Failed { done: 4, kind: IoKind::Write, cause: "c".to_string() };
    now.settle(&script, &failed);
    assert_eq!(now, state(true, Some(5), 0));
}

#[test]
fn plan_record_within_the_limit() {
    let mut now = state(true, Some(10), 4);
    let mut steps = vec![Step::Flush];
    now.plan_record(vec![b'a', b'b', b'c'], &mut steps);
    assert_eq!(steps, vec![Step::Flush, Step::Account(3), Step::Append(b"abc\n".to_vec())]);
    assert_eq!(now, state(true, Some(10), 7));

    // Reaching the limit is not exceeding it.
    now.plan_record(vec![b'd', b'e', b'f'], &mut steps);
    assert_eq!(steps.len(), 5);
    assert_eq!(now, state(true, Some(10), 10));
}

#[test]
fn plan_record_over_the_limit() {
    let mut now = state(true, Some(10), 8);
    let mut steps = Vec::new();
    now.plan_record(vec![b'a', b'b', b'c'], &mut steps);
    assert_eq!(
        steps,
        vec![
            Step::Account(3),
            Step::Sync,
            Step::Open,
            Step::Reset,
            Step::Append(b"abc\n".to_vec())
        ]
    );
    assert_eq!(now, state(true, Some(10), 0));
}

#[test]
fn plan_record_without_a_limit() {
    let mut now = state(true, None, usize::MAX - 1);
    let mut steps = Vec::new();
    now.plan_record(vec![1, 2, 3], &mut steps);
    assert_eq!(steps, vec![Step::Account(3), Step::Append(vec![1, 2, 3, b'\n'])]);
    assert_eq!(now.written, usize::MAX);
}

#[test]
fn plan_record_with_more_bytes_than_the_machine_counts() {
    let mut now = state(true, Some(usize::MAX), usize::MAX - 1);
    let mut steps = Vec::new();
    now.plan_record(vec![1, 2, 3], &mut steps);
    assert_eq!(steps.len(), 5);
    assert_eq!(now.written, 0);
}

#[test]
fn scripts_for_the_plain_requests() {
    let path = "x.log".to_string();
    let script = Script::init(&path);
    assert_eq!(
        script,
        Script { path: path.clone(), steps: vec![Step::Open], uninitialized: false }
    );
    let script = Script::reopen(&path, &state(true, None, 3));
    assert_eq!(
        script,
        Script {
            path: path.clone(),
            steps: vec![Step::Sync, Step::Open, Step::Reset],
            uninitialized: false
        }
    );
    let script = Script::reopen(&path, &state(false, None, 3));
    assert_eq!(script, Script { path: path.clone(), steps: vec![], uninitialized: true });
    let script = Script::flush(&path, &state(true, None, 3));
    assert_eq!(
        script,
        Script { path: path.clone(), steps: vec![Step::Flush], uninitialized: false }
    );
    let script = Script::flush(&path, &state(false, None, 3));
    assert_eq!(script, Script { path: path.clone(), steps: vec![], uninitialized: true });
}

#[test]
fn outcome_puts_the_failed_operation_first() {
    let path = "x.log".to_string();
    assert_eq!(outcome(&path, false, &Progress::Completed), Ok(()));
    assert_eq!(outcome(&path, true, &Progress::Completed), Err(LogError::Uninitialized));
    let failed = Progress::Failed { done: 0, kind: IoKind::Flush, cause: "why".to_string() };
    let error =
        LogError::Io { path: path.clone(), kind: IoKind::Flush, cause: "why".to_string() };
    assert_eq!(outcome(&path, false, &failed), Err(error.clone()));
    assert_eq!(outcome(&path, true, &failed), Err(error));
}
