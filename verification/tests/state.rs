use queue_focus::change::Change;
use queue_focus::change::Effect;
use queue_focus::load;
use queue_focus::save;
use queue_focus::state::State;
use queue_focus::state::UpdateOutcome;
use queue_focus::store::Failure;
use queue_focus::store::FailureKind;
use queue_focus::Bucket;
use queue_focus::SaveError;
use queue_focus::Store;
use std::cell::Cell;
use std::cell::RefCell;

/// A file in memory.
struct File {
    contents: RefCell<Option<Vec<u8>>>,
    writes: Cell<u32>,
}

impl File {
    fn new() -> File {
        File {
            contents: RefCell::new(None),
            writes: Cell::new(0),
        }
    }

    fn save(&self, _path: &str, store: &Store) -> Result<(), SaveError> {
        self.writes.set(self.writes.get() + 1);
        *self.contents.borrow_mut() = Some(save(store));
        Ok(())
    }

    fn load(&self) -> Store {
        load("tasks.json", self.contents.borrow().as_deref()).unwrap()
    }
}

fn failure(message: &str) -> Failure {
    Failure {
        kind: FailureKind::Other(std::io::ErrorKind::Other),
        message: message.to_string(),
    }
}

fn writable_state() -> (File, State) {
    (
        File::new(),
        State::with_store(Store::new(), "tasks.json".to_string()),
    )
}

fn add(state: &mut State, file: &File, title: &str, bucket: Bucket) -> u64 {
    state
        .update(|s| s.add(title, bucket, None, false), |p, s| file.save(p, s))
        .unwrap()
        .into_value()
}

fn ids(state: &State, bucket: Bucket) -> Vec<u64> {
    state.store().in_bucket(bucket).iter().map(|t| t.id).collect()
}

#[test]
fn malformed_file_is_not_replaced_with_an_empty_store() {
    let contents = b"{ definitely not valid json".to_vec();
    let error = State::load("d/tasks.json", Ok(Some(contents))).err().unwrap();
    assert_eq!(error.kind, FailureKind::InvalidData);
    assert_eq!(
        error.message,
        "could not read d/tasks.json: key must be a string at line 1 column 3"
    );
    let error = State::load("d/tasks.json", Err(failure("broken"))).err().unwrap();
    assert_eq!(error.message, "could not read d/tasks.json: broken");
    assert_eq!(error.kind, failure("").kind);
    assert!(State::load("d/tasks.json", Ok(None)).unwrap().store().is_empty());
}

#[test]
fn failed_save_rolls_back_and_does_not_notify() {
    let mut state = State::with_store(Store::new(), "d/tasks.json".to_string());

    let result = state.update(
        |store| store.add("lost", Bucket::Next, None, false),
        |_, _| Err(SaveError::BeforeCommit(failure("in the way"))),
    );

    let error = result.unwrap_err();
    assert_eq!(error.message, "could not save d/tasks.json: in the way");
    assert_eq!(error.kind, failure("").kind);
    assert!(state.store().is_empty());
    assert_eq!(state.store().next_id, 1);
    assert_eq!(state.revision(), 0);
}

#[test]
fn post_commit_failure_returns_a_warning_without_rollback() {
    let file = File::new();
    let mut state = State::with_store(Store::new(), "d/tasks.json".to_string());

    let result = state.update(
        |store| store.add("committed", Bucket::Next, None, false),
        |path, store| {
            file.save(path, store)?;
            Err(SaveError::AfterCommit(failure(
                "injected directory sync failure",
            )))
        },
    );

    let outcome = result.unwrap();
    assert!(matches!(
        &outcome,
        UpdateOutcome::CommittedWithWarning { value: 1, .. }
    ));
    assert!(outcome
        .warning()
        .unwrap()
        .to_string()
        .contains("injected directory sync failure"));
    assert_eq!(
        outcome.warning().unwrap().to_string(),
        "saved d/tasks.json but could not make the change crash-safe: \
         injected directory sync failure"
    );
    assert_eq!(state.store().tasks[0].title, "committed");
    assert_eq!(file.load().tasks[0].title, "committed");
    assert_eq!(state.revision(), 1);
    let (value, warning) = outcome.into_parts();
    assert_eq!(value, 1);
    assert!(warning.is_some());
}

#[test]
fn completing_the_current_task_pulls_next_and_deleting_others_does_not() {
    let (file, mut state) = writable_state();
    let now = add(&mut state, &file, "now", Bucket::Now);
    let next = add(&mut state, &file, "next", Bucket::Next);
    let later = add(&mut state, &file, "later", Bucket::Later);

    assert!(state
        .complete(later, |p, s| file.save(p, s))
        .unwrap()
        .into_value());
    assert_eq!(state.store().current().map(|t| t.id), Some(now));
    assert!(state
        .complete(now, |p, s| file.save(p, s))
        .unwrap()
        .into_value());
    assert_eq!(state.store().current().map(|t| t.id), Some(next));
    assert!(!state
        .complete(now, |p, s| file.save(p, s))
        .unwrap()
        .into_value());
}

#[test]
fn undo_reverses_the_last_completion_once() {
    let (file, mut state) = writable_state();
    let a = add(&mut state, &file, "a", Bucket::Now);
    let b = add(&mut state, &file, "b", Bucket::Next);

    let done = state
        .complete_current(|p, s| file.save(p, s))
        .unwrap()
        .into_value()
        .unwrap();
    assert_eq!(done.id, a);
    assert_eq!(ids(&state, Bucket::Now), vec![b]);

    assert!(state
        .undo_complete(a, |p, s| file.save(p, s))
        .unwrap()
        .into_value());
    assert_eq!(ids(&state, Bucket::Now), vec![a]);
    assert_eq!(ids(&state, Bucket::Next), vec![b]);
    assert_eq!(
        file.load().current().map(|t| t.id),
        Some(a),
        "undo is persisted like any other change"
    );
    assert!(!state
        .undo_complete(a, |p, s| file.save(p, s))
        .unwrap()
        .into_value());
}

#[test]
fn undo_is_refused_after_any_other_change() {
    let (file, mut state) = writable_state();
    let a = add(&mut state, &file, "a", Bucket::Now);
    state.complete_current(|p, s| file.save(p, s)).unwrap();
    add(&mut state, &file, "meanwhile", Bucket::Later);

    assert!(!state
        .undo_complete(a, |p, s| file.save(p, s))
        .unwrap()
        .into_value());
    assert!(state.store().current().is_none());
}

#[test]
fn an_ended_offer_stays_ended_over_any_number_of_changes() {
    let (file, mut state) = writable_state();
    let a = add(&mut state, &file, "a", Bucket::Now);
    let b = add(&mut state, &file, "b", Bucket::Next);
    state.complete_current(|p, s| file.save(p, s)).unwrap();
    for round in 0..20 {
        add(&mut state, &file, "meanwhile", Bucket::Later);
        let undone = state.undo_complete(a, |p, s| file.save(p, s)).unwrap();
        assert!(!undone.into_value(), "round {round}");
    }
    // Completing another task and undoing that does not bring it back either.
    state.complete(b, |p, s| file.save(p, s)).unwrap();
    assert!(!state.undo_complete(a, |p, s| file.save(p, s)).unwrap().into_value());
    assert!(state.undo_complete(b, |p, s| file.save(p, s)).unwrap().into_value());
    assert!(!state.undo_complete(a, |p, s| file.save(p, s)).unwrap().into_value());
    assert!(state.store().get(a).is_none());
    assert_eq!(state.store().current().map(|t| t.id), Some(b));
}

#[test]
fn an_offer_outlives_what_comes_to_nothing() {
    let (file, mut state) = writable_state();
    let a = add(&mut state, &file, "a", Bucket::Now);
    let b = add(&mut state, &file, "b", Bucket::Next);
    state.complete_current(|p, s| file.save(p, s)).unwrap();
    let lost = |_: &str, _: &Store| Err(SaveError::BeforeCommit(failure("disk full")));
    assert!(state.change(&Change::Remove(b), lost).is_err());
    assert!(state.complete_current(lost).is_err());
    assert!(state.undo_complete(a, lost).is_err());
    assert!(!state.complete(99, |p, s| file.save(p, s)).unwrap().into_value());
    assert!(state.undo_complete(a, |p, s| file.save(p, s)).unwrap().into_value());
    assert_eq!(ids(&state, Bucket::Now), vec![a]);
    assert_eq!(ids(&state, Bucket::Next), vec![b]);
}

#[test]
fn undo_is_bound_to_the_task_that_was_completed_last() {
    let (file, mut state) = writable_state();
    let a = add(&mut state, &file, "a", Bucket::Now);
    let b = add(&mut state, &file, "b", Bucket::Next);
    state.complete_current(|p, s| file.save(p, s)).unwrap();
    state.complete_current(|p, s| file.save(p, s)).unwrap();

    assert!(
        !state
            .undo_complete(a, |p, s| file.save(p, s))
            .unwrap()
            .into_value(),
        "a's offer is stale"
    );
    assert!(state
        .undo_complete(b, |p, s| file.save(p, s))
        .unwrap()
        .into_value());
    assert_eq!(ids(&state, Bucket::Now), vec![b]);
    assert!(state.store().get(a).is_none());
}

#[test]
fn requests_that_change_nothing_neither_save_nor_invalidate_undo() {
    let (file, mut state) = writable_state();
    let a = add(&mut state, &file, "a", Bucket::Now);
    state.complete_current(|p, s| file.save(p, s)).unwrap();
    let writes = file.writes.get();
    let revision = state.revision();

    assert!(!state
        .update(|s| s.remove(999), |p, s| file.save(p, s))
        .unwrap()
        .into_value());
    assert!(!state
        .update(|s| s.shift(a, -1), |p, s| file.save(p, s))
        .unwrap()
        .into_value());
    assert!(state
        .complete_current(|p, s| file.save(p, s))
        .unwrap()
        .into_value()
        .is_none());
    assert_eq!(state.revision(), revision, "no-ops are not broadcast");
    assert_eq!(file.writes.get(), writes, "nor saved");

    assert!(state
        .undo_complete(a, |p, s| file.save(p, s))
        .unwrap()
        .into_value());
    assert_eq!(ids(&state, Bucket::Now), vec![a]);
}

#[test]
fn a_failed_undo_save_keeps_the_record_for_another_try() {
    let (file, mut state) = writable_state();
    let a = add(&mut state, &file, "a", Bucket::Now);
    state.complete_current(|p, s| file.save(p, s)).unwrap();

    let failed = state.undo_complete(a, |_, _| {
        Err(SaveError::BeforeCommit(failure("injected write failure")))
    });
    assert!(failed.is_err());
    assert!(state.store().is_empty(), "rolled back");

    assert!(state
        .undo_complete(a, |p, s| file.save(p, s))
        .unwrap()
        .into_value());
    assert_eq!(ids(&state, Bucket::Now), vec![a]);
}

#[test]
fn nothing_to_complete_leaves_nothing_to_undo() {
    let (file, mut state) = writable_state();
    assert!(state
        .complete_current(|p, s| file.save(p, s))
        .unwrap()
        .into_value()
        .is_none());
    assert!(!state
        .undo_complete(1, |p, s| file.save(p, s))
        .unwrap()
        .into_value());
}

#[test]
fn a_completion_that_was_not_saved_is_not_offered_for_undo() {
    let (file, mut state) = writable_state();
    let a = add(&mut state, &file, "a", Bucket::Now);
    assert!(state
        .complete_current(|_, _| Err(SaveError::BeforeCommit(failure("no"))))
        .is_err());
    assert_eq!(ids(&state, Bucket::Now), vec![a]);
    assert!(!state
        .undo_complete(a, |p, s| file.save(p, s))
        .unwrap()
        .into_value());
}

#[test]
fn an_outcome_maps_its_value_and_keeps_its_warning() {
    let (_, mut state) = writable_state();
    let outcome = state
        .settle(
            Store::new(),
            7u64,
            Err(SaveError::AfterCommit(failure("late"))),
        )
        .unwrap();
    let mapped = outcome.map(|n: u64| n + 1);
    assert!(mapped.warning().is_some());
    assert_eq!(mapped.into_value(), 8);
    let outcome = state.settle(Store::new(), 1u64, Ok(())).unwrap();
    assert!(outcome.warning().is_none());
    assert_eq!(outcome.map(|n: u64| n * 2).into_parts(), (2, None));
    assert_eq!(state.revision(), 2);
}

#[test]
fn every_kind_of_change_reports_its_effect() {
    let (file, mut state) = writable_state();
    let mut change = |c: Change| {
        state
            .change(&c, |p, s| file.save(p, s))
            .unwrap()
            .into_value()
    };
    assert_eq!(
        change(Change::QuickAdd("a #w".to_string(), Bucket::Next)),
        Effect::Added(1)
    );
    assert_eq!(
        change(Change::QuickAdd("#w".to_string(), Bucket::Next)),
        Effect::Refused
    );
    assert_eq!(
        change(Change::QuickAdd("b".to_string(), Bucket::Next)),
        Effect::Added(2)
    );
    assert_eq!(change(Change::Promote(2)), Effect::Changed);
    assert_eq!(change(Change::Promote(9)), Effect::Refused);
    assert_eq!(change(Change::TogglePause), Effect::Changed);
    assert_eq!(change(Change::CycleTag(1)), Effect::Changed);
    assert_eq!(change(Change::SetTag(9, None)), Effect::Refused);
    assert_eq!(
        change(Change::Rename(1, "c".to_string())),
        Effect::Changed
    );
    assert_eq!(
        change(Change::Rename(1, " ".to_string())),
        Effect::Refused
    );
    assert_eq!(change(Change::Shift(1, 1)), Effect::Refused);
    assert_eq!(
        change(Change::Move(1, Bucket::Later, None)),
        Effect::Changed
    );
    assert_eq!(
        change(Change::Drop(1, Bucket::Now, Some(1))),
        Effect::Changed
    );
    assert_eq!(change(Change::Done(2)), Effect::Changed);
    assert_eq!(change(Change::Remove(1)), Effect::Changed);
    assert_eq!(change(Change::Done(1)), Effect::Refused);
    assert!(file.load().is_empty());
}

/// Ids are unique and below the next one, and exactly the current task has a timer.
fn assert_valid(store: &Store) {
    for (i, task) in store.tasks.iter().enumerate() {
        assert!(task.id < store.next_id);
        assert!(store.tasks[..i].iter().all(|other| other.id != task.id));
        let current = store.current().map(|t| t.id) == Some(task.id);
        assert_eq!(task.started_at.is_some(), current);
        assert!(task.started_at.is_some() || task.paused_at.is_none());
    }
}

#[test]
fn every_kind_of_change_leaves_a_valid_store() {
    let mut state = State::with_store(Store::new(), "tasks.json".to_string());
    let text = |s: &str| s.to_string();
    let changes = vec![
        Change::QuickAdd(text("!a"), Bucket::Next),
        Change::QuickAdd(text("b"), Bucket::Next),
        Change::QuickAdd(text("c @side"), Bucket::Next),
        Change::QuickAdd(text("!d"), Bucket::Next),
        Change::TogglePause,
        Change::Promote(2),
        Change::Shift(2, 1),
        Change::TogglePause,
        Change::TogglePause,
        Change::Drop(3, Bucket::Now, Some(1)),
        Change::Move(4, Bucket::Later, None),
        Change::CycleTag(3),
        Change::Rename(3, text("e")),
        Change::Done(1),
        Change::Remove(3),
        Change::Done(2),
    ];
    let file = File::new();
    for change in changes {
        state.change(&change, |p, s| file.save(p, s)).unwrap();
        assert_valid(state.store());
        assert_eq!(&file.load(), state.store(), "what was saved loads as it was");
    }
    assert_eq!(state.store().len(), 1);
}
