//! The task store of a running service: every change is saved, or undone where it
//! could not be.

use crate::clock::unix_now;
use crate::model::Completed;
use crate::model::CompletedView;
use crate::model::Task;
use crate::order;
use crate::queue;
use crate::queue::Store;
use crate::queue::StoreView;
use crate::store;
use crate::store::Failure;
use crate::store::FailureView;
use crate::store::SaveError;
use crate::text;
use vstd::prelude::*;

verus! {

// ---- outcomes ------------------------------------------------------------------------

/// A change reached the task file, but syncing its containing directory failed,
/// so the change may not survive a crash immediately afterwards.
#[derive(Debug, PartialEq, Eq)]
pub struct DurabilityWarning {
    path: String,
    error: String,
}

impl Clone for DurabilityWarning {
    fn clone(&self) -> (w: Self)
        ensures
            w == *self,
    {
        DurabilityWarning { path: self.path.clone(), error: self.error.clone() }
    }
}

impl DurabilityWarning {
    pub closed spec fn about(self) -> Seq<char> {
        self.path@
    }

    pub closed spec fn cause(self) -> Seq<char> {
        self.error@
    }

    /// The words of the warning.
    pub open spec fn words(self) -> Seq<char> {
        "saved "@ + self.about() + " but could not make the change crash-safe: "@ + self.cause()
    }

    fn new(path: String, error: String) -> (w: DurabilityWarning)
        ensures
            w.about() == path@,
            w.cause() == error@,
    {
        DurabilityWarning { path, error }
    }

    pub fn to_string(&self) -> (s: String)
        ensures
            s@ == self.words(),
    {
        let mut out: Vec<char> = text::chars_of("saved ");
        text::push_text(&mut out, self.path.as_str());
        text::push_text(&mut out, " but could not make the change crash-safe: ");
        text::push_text(&mut out, self.error.as_str());
        text::text_of(&out)
    }
}

/// The successful outcome of a saved change. Whoever asked for the change reports
/// the warning through its own channel, so the user hears about it exactly once.
#[derive(Debug, PartialEq, Eq)]
pub enum UpdateOutcome<R> {
    Saved(R),
    CommittedWithWarning { value: R, warning: DurabilityWarning },
}

impl<R> UpdateOutcome<R> {
    /// What the change returned.
    pub open spec fn result(self) -> R {
        match self {
            UpdateOutcome::Saved(value) => value,
            UpdateOutcome::CommittedWithWarning { value, .. } => value,
        }
    }

    /// The warning, if there is one.
    pub open spec fn caution(self) -> Option<DurabilityWarning> {
        match self {
            UpdateOutcome::Saved(_) => None,
            UpdateOutcome::CommittedWithWarning { warning, .. } => Some(warning),
        }
    }

    pub fn warning(&self) -> (w: Option<&DurabilityWarning>)
        ensures
            match w {
                Some(w) => self.caution() == Some(*w),
                None => self.caution() is None,
            },
    {
        match self {
            UpdateOutcome::Saved(_) => None,
            UpdateOutcome::CommittedWithWarning { warning, .. } => Some(warning),
        }
    }

    pub fn into_value(self) -> (value: R)
        ensures
            value == self.result(),
    {
        match self {
            UpdateOutcome::Saved(value) => value,
            UpdateOutcome::CommittedWithWarning { value, .. } => value,
        }
    }

    pub fn into_parts(self) -> (parts: (R, Option<DurabilityWarning>))
        ensures
            parts.0 == self.result(),
            parts.1 == self.caution(),
    {
        match self {
            UpdateOutcome::Saved(value) => (value, None),
            UpdateOutcome::CommittedWithWarning { value, warning } => (value, Some(warning)),
        }
    }

    pub fn map<T>(self, f: impl FnOnce(R) -> T) -> (mapped: UpdateOutcome<T>)
        requires
            call_requires(f, (self.result(),)),
        ensures
            call_ensures(f, (self.result(),), mapped.result()),
            mapped.caution() == self.caution(),
    {
        match self {
            UpdateOutcome::Saved(value) => UpdateOutcome::Saved(f(value)),
            UpdateOutcome::CommittedWithWarning { value, warning } => {
                UpdateOutcome::CommittedWithWarning { value: f(value), warning }
            },
        }
    }
}

// ---- the state -----------------------------------------------------------------------

/// The most recent completion, reversible only while nothing else has changed.
struct LastCompletion {
    completed: Completed,
    revision: u64,
}

/// The store, the file it is saved to, and what can be undone.
pub struct State {
    store: Store,
    path: String,
    /// Counts committed changes; lets the undo entry tell whether it is stale.
    revision: u64,
    undo: Option<LastCompletion>,
}

/// The last completion, and the revision that it made.
#[verifier::ext_equal]
pub struct LastView {
    pub completed: CompletedView,
    pub revision: u64,
}

/// What a `State` holds.
#[verifier::ext_equal]
pub struct StateView {
    pub store: StoreView,
    pub path: Seq<char>,
    pub revision: u64,
    pub undo: Option<LastView>,
}

impl View for State {
    type V = StateView;

    closed spec fn view(&self) -> StateView {
        StateView {
            store: self.store@,
            path: self.path@,
            revision: self.revision,
            undo: match self.undo {
                Some(last) => Some(
                    LastView { completed: last.completed@, revision: last.revision },
                ),
                None => None,
            },
        }
    }
}

/// The failure of a change that could not be saved.
pub open spec fn unsaved(path: Seq<char>, f: FailureView) -> FailureView {
    FailureView { kind: f.kind, message: "could not save "@ + path + ": "@ + f.message }
}

/// The failure of a file that could not be read.
pub open spec fn unread(path: Seq<char>, f: FailureView) -> FailureView {
    FailureView { kind: f.kind, message: "could not read "@ + path + ": "@ + f.message }
}

/// Whether the new contents stand in the file.
pub open spec fn committed(saved: Result<(), SaveError>) -> bool {
    !(saved matches Err(SaveError::BeforeCommit(_)))
}

impl StoreView {
    /// The store after marking a task done: the current one is completed, any other
    /// one removed.
    pub open spec fn done(self, id: u64, now: u64) -> StoreView {
        if self.current_id() == Some(id) {
            self.completed(now)
        } else {
            self.removed(id, now)
        }
    }
}

impl StateView {
    /// The state once it is known how the saving of a changed store went: the
    /// change stands where it reached the file, and is undone where it did not.
    pub open spec fn settled(self, next: StoreView, saved: Result<(), SaveError>) -> StateView {
        if committed(saved) {
            StateView { store: next, revision: self.revision.wrapping_add(1), ..self }
        } else {
            self
        }
    }

    /// The same for a store that may not have changed at all, in which case there
    /// is nothing to save.
    pub open spec fn changed(self, next: StoreView, saved: Result<(), SaveError>) -> StateView {
        if next == self.store {
            self
        } else {
            self.settled(next, saved)
        }
    }

    /// The store that is saved for one that may have changed: none where it is the
    /// same.
    pub open spec fn to_save(self, next: StoreView) -> Option<StoreView> {
        if next == self.store {
            None
        } else {
            Some(next)
        }
    }

    /// The store that is saved for completing the current task: none where Now is
    /// empty.
    pub open spec fn to_save_completing(self, now: u64) -> Option<StoreView> {
        if self.store.current() is None {
            None
        } else {
            Some(self.store.completed(now))
        }
    }

    /// The store that is saved for marking a task done: none where there is no such
    /// task.
    pub open spec fn to_save_done(self, id: u64, now: u64) -> Option<StoreView> {
        if self.store.has(id) {
            Some(self.store.done(id, now))
        } else {
            None
        }
    }

    /// The store that is saved for undoing the completion of a task: none where that
    /// brings nothing back.
    pub open spec fn to_save_undoing(self, id: u64, now: u64) -> Option<StoreView> {
        if self.restores(id) {
            Some(self.store.restored((self.undo->0).completed, now))
        } else {
            None
        }
    }

    /// The state after completing the current task, remembered for undoing.
    pub open spec fn completed(self, now: u64, saved: Result<(), SaveError>) -> StateView {
        let after = self.changed(self.store.completed(now), saved);
        if self.store.completion() is Some && committed(saved) {
            StateView {
                undo: Some(
                    LastView { completed: self.store.completion()->0, revision: after.revision },
                ),
                ..after
            }
        } else {
            after
        }
    }

    /// The state after marking a task done.
    pub open spec fn done(self, id: u64, now: u64, saved: Result<(), SaveError>) -> StateView {
        if self.store.current_id() == Some(id) {
            self.completed(now, saved)
        } else {
            self.changed(self.store.removed(id, now), saved)
        }
    }

    /// Whether undoing the completion of a task would bring it back.
    pub open spec fn restores(self, id: u64) -> bool {
        self.offers_undo(id) && !self.store.has(id)
    }

    /// Whether undoing the completion of a task is still on offer.
    pub open spec fn offers_undo(self, id: u64) -> bool {
        self.undo matches Some(last) && last.revision == self.revision && last.completed.task.id == id
    }

    /// The state after undoing the completion of a task.
    pub open spec fn undone(self, id: u64, now: u64, saved: Result<(), SaveError>) -> StateView {
        if self.offers_undo(id) {
            let next = self.store.restored((self.undo->0).completed, now);
            let after = self.changed(next, saved);
            if next == self.store || committed(saved) {
                StateView { undo: None, ..after }
            } else {
                after
            }
        } else {
            self
        }
    }
}

/// Whether an outcome is that of a changed store whose saving went so.
pub open spec fn is_settled<R>(
    r: Result<UpdateOutcome<R>, Failure>,
    value: R,
    path: Seq<char>,
    saved: Result<(), SaveError>,
) -> bool {
    match saved {
        Ok(_) => r == Ok::<UpdateOutcome<R>, Failure>(UpdateOutcome::Saved(value)),
        Err(SaveError::AfterCommit(f)) => {
            &&& r matches Ok(UpdateOutcome::CommittedWithWarning { value: v, warning })
            &&& v == value
            &&& warning.about() == path
            &&& warning.cause() == f@.message
        },
        Err(SaveError::BeforeCommit(f)) => r matches Err(g) && g@ == unsaved(path, f@),
    }
}

/// Whether a change to this store with this value came out so: nothing is saved
/// where the store is the same, and otherwise the outcome is that of the saving.
pub open spec fn commits<R, F: FnOnce(&str, &Store) -> Result<(), SaveError>>(
    before: StateView,
    next: StoreView,
    value: R,
    save: F,
    after: StateView,
    r: Result<UpdateOutcome<R>, Failure>,
) -> bool {
    if next == before.store {
        after == before && r == Ok::<UpdateOutcome<R>, Failure>(UpdateOutcome::Saved(value))
    } else {
        exists|p: &str, s: &Store, saved: Result<(), SaveError>|
            {
                &&& p@ == before.path
                &&& s@ == next
                &&& #[trigger] call_ensures(save, (p, s), saved)
                &&& after == before.settled(next, saved)
                &&& is_settled(r, value, before.path, saved)
            }
    }
}

/// Whether the saving can be called for the store that is to be saved, if there is
/// one. Where there is none nothing is asked of the saving, since it is not called.
pub open spec fn can_save<F: FnOnce(&str, &Store) -> Result<(), SaveError>>(
    state: StateView,
    wanted: Option<StoreView>,
    save: F,
) -> bool {
    wanted is Some ==> forall|p: &str, s: &Store|
        p@ == state.path && s@ == wanted->0 ==> #[trigger] call_requires(save, (p, s))
}

/// Whether completing the current task at a time came out so.
pub open spec fn completes<F: FnOnce(&str, &Store) -> Result<(), SaveError>>(
    before: StateView,
    now: u64,
    save: F,
    after: StateView,
    r: Result<UpdateOutcome<Option<Task>>, Failure>,
) -> bool {
    if before.store.current() is None {
        after == before && r == Ok::<UpdateOutcome<Option<Task>>, Failure>(
            UpdateOutcome::Saved(None),
        )
    } else {
        exists|p: &str, s: &Store, saved: Result<(), SaveError>|
            {
                &&& p@ == before.path
                &&& s@ == before.store.completed(now)
                &&& #[trigger] call_ensures(save, (p, s), saved)
                &&& after == before.completed(now, saved)
                &&& is_completed(r, before, saved)
            }
    }
}

/// Whether marking a task done at a time came out so.
pub open spec fn finishes<F: FnOnce(&str, &Store) -> Result<(), SaveError>>(
    before: StateView,
    id: u64,
    now: u64,
    save: F,
    after: StateView,
    r: Result<UpdateOutcome<bool>, Failure>,
) -> bool {
    if !before.store.has(id) {
        after == before && r == Ok::<UpdateOutcome<bool>, Failure>(UpdateOutcome::Saved(false))
    } else {
        exists|p: &str, s: &Store, saved: Result<(), SaveError>|
            {
                &&& p@ == before.path
                &&& s@ == before.store.done(id, now)
                &&& #[trigger] call_ensures(save, (p, s), saved)
                &&& after == before.done(id, now, saved)
                &&& is_settled(r, true, before.path, saved)
            }
    }
}

/// Whether undoing the completion of a task at a time came out so.
pub open spec fn undoes<F: FnOnce(&str, &Store) -> Result<(), SaveError>>(
    before: StateView,
    id: u64,
    now: u64,
    save: F,
    after: StateView,
    r: Result<UpdateOutcome<bool>, Failure>,
) -> bool {
    if !before.restores(id) {
        after == before.undone(id, now, Ok(())) && r == Ok::<UpdateOutcome<bool>, Failure>(
            UpdateOutcome::Saved(false),
        )
    } else {
        exists|p: &str, s: &Store, saved: Result<(), SaveError>|
            {
                &&& p@ == before.path
                &&& s@ == before.store.restored((before.undo->0).completed, now)
                &&& #[trigger] call_ensures(save, (p, s), saved)
                &&& after == before.undone(id, now, saved)
                &&& is_settled(r, true, before.path, saved)
            }
    }
}

fn explain(what: &str, path: &str, f: &Failure) -> (g: Failure)
    ensures
        g@ == (FailureView { kind: f@.kind, message: what@ + path@ + ": "@ + f@.message }),
{
    let mut out: Vec<char> = text::chars_of(what);
    text::push_text(&mut out, path);
    text::push_text(&mut out, ": ");
    text::push_text(&mut out, f.message.as_str());
    Failure { kind: f.kind, message: text::text_of(&out) }
}

impl State {
    /// The state of a service that has just started, with what reading its file
    /// gave. A file that cannot be read keeps the service from starting.
    pub fn load(path: &str, contents: Result<Option<Vec<u8>>, Failure>) -> (r: Result<
        State,
        Failure,
    >)
        ensures
            ({
                let fresh = |s: StoreView|
                    StateView { store: s, path: path@, revision: 0, undo: None };
                match contents {
                    Err(f) => r matches Err(g) && g@ == unread(path@, f@),
                    Ok(bytes) => match store::loaded(
                        path@,
                        match bytes {
                            Some(b) => Some(crate::json::parsed_bytes(b@)),
                            None => None,
                        },
                    ) {
                        Ok(s) => r matches Ok(state) && state@ == fresh(s),
                        Err(e) => r matches Err(g) && g@ == unread(
                            path@,
                            FailureView::bad_data(e),
                        ),
                    },
                }
            }),
    {
        let loaded = match &contents {
            Err(f) => return Err(explain("could not read ", path, f)),
            Ok(Some(bytes)) => store::load(path, Some(bytes.as_slice())),
            Ok(None) => store::load(path, None),
        };
        match loaded {
            Ok(store) => Ok(State::with_store(store, path.to_string())),
            Err(f) => Err(explain("could not read ", path, &f)),
        }
    }

    pub fn with_store(store: Store, path: String) -> (state: State)
        ensures
            state@ == (StateView { store: store@, path: path@, revision: 0, undo: None }),
    {
        State { store, path, revision: 0, undo: None }
    }

    pub fn store(&self) -> (store: &Store)
        ensures
            store@ == self@.store,
    {
        &self.store
    }

    /// How many changes were committed. Listeners are told of a change when this
    /// number has moved.
    pub fn revision(&self) -> (n: u64)
        ensures
            n == self@.revision,
    {
        self.revision
    }

    /// Take in a changed store, given how its saving went. A failure before the
    /// commit leaves the old store; one behind it is a warning, but the change
    /// stands, so callers do not repeat it.
    pub fn settle<R>(&mut self, next: Store, value: R, saved: Result<(), SaveError>) -> (r: Result<
        UpdateOutcome<R>,
        Failure,
    >)
        ensures
            final(self)@ == old(self)@.settled(next@, saved),
            is_settled(r, value, old(self)@.path, saved),
    {
        match saved {
            Err(SaveError::BeforeCommit(f)) => Err(
                explain("could not save ", self.path.as_str(), &f),
            ),
            Err(SaveError::AfterCommit(f)) => {
                self.store = next;
                self.revision = self.revision.wrapping_add(1);
                let warning = DurabilityWarning::new(self.path.clone(), f.message);
                Ok(UpdateOutcome::CommittedWithWarning { value, warning })
            },
            Ok(_) => {
                self.store = next;
                self.revision = self.revision.wrapping_add(1);
                Ok(UpdateOutcome::Saved(value))
            },
        }
    }

    /// Save a store that may have changed, and take it in.
    pub(crate) fn commit<R>(
        &mut self,
        next: Store,
        value: R,
        save: impl FnOnce(&str, &Store) -> Result<(), SaveError>,
    ) -> (r: Result<UpdateOutcome<R>, Failure>)
        requires
            can_save(old(self)@, old(self)@.to_save(next@), save),
        ensures
            commits(old(self)@, next@, value, save, final(self)@, r),
    {
        if next.same(&self.store) {
            // Nothing to save and nothing to tell anyone; in particular a rejected
            // or no-op request does not invalidate undo.
            return Ok(UpdateOutcome::Saved(value));
        }
        let saved = save(self.path.as_str(), &next);
        self.settle(next, value, saved)
    }

    /// Apply a change and save it. A failure before the commit is rolled back. A
    /// failure behind it is handed back as a warning, but the change stands, so
    /// callers do not repeat it.
    pub fn update<R>(
        &mut self,
        f: impl FnOnce(&mut Store) -> R,
        save: impl FnOnce(&str, &Store) -> Result<(), SaveError>,
    ) -> (r: Result<UpdateOutcome<R>, Failure>)
        requires
            forall|m: &mut Store|
                (*m)@ == old(self)@.store ==> #[trigger] call_requires(f, (m,)),
            forall|m: &mut Store, value: R|
                (*m)@ == old(self)@.store && #[trigger] call_ensures(f, (m,), value) ==> can_save(
                    old(self)@,
                    old(self)@.to_save((*final(m))@),
                    save,
                ),
        ensures
            exists|m: &mut Store, value: R|
                {
                    &&& (*m)@ == old(self)@.store
                    &&& #[trigger] call_ensures(f, (m,), value)
                    &&& commits(old(self)@, (*final(m))@, value, save, final(self)@, r)
                },
    {
        let mut next = self.store.clone();
        let value = f(&mut next);
        let ghost after = next;
        assert(exists|m: &mut Store|
            (*m)@ == old(self)@.store && *final(m) == after && #[trigger] call_ensures(
                f,
                (m,),
                value,
            ));
        self.commit(next, value, save)
    }

    /// Complete the current task at a time and remember it for `undo_complete`.
    pub fn complete_current_at(
        &mut self,
        now: u64,
        save: impl FnOnce(&str, &Store) -> Result<(), SaveError>,
    ) -> (r: Result<UpdateOutcome<Option<Task>>, Failure>)
        requires
            can_save(old(self)@, old(self)@.to_save_completing(now), save),
        ensures
            completes(old(self)@, now, save, final(self)@, r),
    {
        let mut next = self.store.clone();
        let done = next.complete_current_at(now);
        proof {
            lemma_completing_changes(self@.store, now);
        }
        let ghost before = self@;
        match self.commit(next, done, save) {
            Err(f) => Err(f),
            Ok(outcome) => {
                let (done, warning) = outcome.into_parts();
                let task = match done {
                    None => None,
                    Some(completed) => {
                        let task = completed.task.clone();
                        self.undo = Some(LastCompletion { completed, revision: self.revision });
                        Some(task)
                    },
                };
                match warning {
                    None => Ok(UpdateOutcome::Saved(task)),
                    Some(warning) => Ok(
                        UpdateOutcome::CommittedWithWarning { value: task, warning },
                    ),
                }
            },
        }
    }

    /// Complete the current task and remember it for `undo_complete`.
    pub fn complete_current(
        &mut self,
        save: impl FnOnce(&str, &Store) -> Result<(), SaveError>,
    ) -> (r: Result<UpdateOutcome<Option<Task>>, Failure>)
        requires
            forall|now: u64|
                can_save(old(self)@, #[trigger] old(self)@.to_save_completing(now), save),
        ensures
            exists|now: u64| #[trigger] completes(old(self)@, now, save, final(self)@, r),
    {
        let now: u64 = unix_now();
        self.complete_current_at(now, save)
    }

    /// Mark a task done at a time: the current task is completed (pulling from
    /// Next, reversible), any other task is simply deleted.
    pub fn complete_at(
        &mut self,
        id: u64,
        now: u64,
        save: impl FnOnce(&str, &Store) -> Result<(), SaveError>,
    ) -> (r: Result<UpdateOutcome<bool>, Failure>)
        requires
            can_save(old(self)@, old(self)@.to_save_done(id, now), save),
        ensures
            finishes(old(self)@, id, now, save, final(self)@, r),
    {
        let is_current: bool = match self.store.current() {
            Some(t) => t.id == id,
            None => false,
        };
        proof {
            if self@.store.current() is Some {
                queue::lemma_current_is_found(self@.store);
            }
            lemma_removing_changes(self@.store, id, now);
        }
        if is_current {
            match self.complete_current_at(now, save) {
                Err(f) => Err(f),
                Ok(outcome) => {
                    let (task, warning) = outcome.into_parts();
                    let value: bool = task.is_some();
                    match warning {
                        None => Ok(UpdateOutcome::Saved(value)),
                        Some(warning) => Ok(UpdateOutcome::CommittedWithWarning { value, warning }),
                    }
                },
            }
        } else {
            let mut next = self.store.clone();
            let removed: bool = next.remove_at(id, now);
            self.commit(next, removed, save)
        }
    }

    /// Mark a task done: the current task is completed, any other task is simply
    /// deleted.
    pub fn complete(
        &mut self,
        id: u64,
        save: impl FnOnce(&str, &Store) -> Result<(), SaveError>,
    ) -> (r: Result<UpdateOutcome<bool>, Failure>)
        requires
            forall|now: u64|
                can_save(old(self)@, #[trigger] old(self)@.to_save_done(id, now), save),
        ensures
            exists|now: u64| #[trigger] finishes(old(self)@, id, now, save, final(self)@, r),
    {
        let now: u64 = unix_now();
        self.complete_at(id, now, save)
    }

    /// Reverse the completion of task `id` at a time. `false` when that is not the
    /// last completion, it was already undone, or anything else changed since;
    /// nothing is written in that case.
    pub fn undo_complete_at(
        &mut self,
        id: u64,
        now: u64,
        save: impl FnOnce(&str, &Store) -> Result<(), SaveError>,
    ) -> (r: Result<UpdateOutcome<bool>, Failure>)
        requires
            can_save(old(self)@, old(self)@.to_save_undoing(id, now), save),
        ensures
            undoes(old(self)@, id, now, save, final(self)@, r),
    {
        let completed = match &self.undo {
            Some(last) => if last.revision == self.revision && last.completed.task.id == id {
                last.completed.clone()
            } else {
                return Ok(UpdateOutcome::Saved(false));
            },
            None => return Ok(UpdateOutcome::Saved(false)),
        };
        let mut next = self.store.clone();
        let ghost done = completed@;
        let undone: bool = next.undo_complete_at(completed, now);
        proof {
            lemma_restoring_changes(self@.store, done, now);
        }
        match self.commit(next, undone, save) {
            Err(f) => Err(f),
            Ok(outcome) => {
                // Restored, so the record has served its purpose. A save that
                // failed rolled the store back and left the record for another try.
                self.undo = None;
                Ok(outcome)
            },
        }
    }

    /// Reverse the completion of task `id`.
    pub fn undo_complete(
        &mut self,
        id: u64,
        save: impl FnOnce(&str, &Store) -> Result<(), SaveError>,
    ) -> (r: Result<UpdateOutcome<bool>, Failure>)
        requires
            forall|now: u64|
                can_save(old(self)@, #[trigger] old(self)@.to_save_undoing(id, now), save),
        ensures
            exists|now: u64| #[trigger] undoes(old(self)@, id, now, save, final(self)@, r),
    {
        let now: u64 = unix_now();
        self.undo_complete_at(id, now, save)
    }
}

/// Whether an outcome is that of completing the current task.
pub open spec fn is_completed(
    r: Result<UpdateOutcome<Option<Task>>, Failure>,
    before: StateView,
    saved: Result<(), SaveError>,
) -> bool {
    match r {
        Err(_) => is_settled(r, None, before.path, saved),
        Ok(outcome) => {
            &&& is_settled(r, outcome.result(), before.path, saved)
            &&& outcome.result() matches Some(task)
            &&& task@ == before.store.completion()->0.task
        },
    }
}

/// Completing a task takes it away, so the store is another.
proof fn lemma_completing_changes(s: StoreView, now: u64)
    ensures
        s.current() is Some ==> s.completed(now) != s,
{
    if s.current() is Some {
        queue::lemma_current_is_found(s);
        order::lemma_first_where(s.tasks, order::has_id(s.current_id()->0));
        let rest = s.without_current();
        assert(rest.tasks.len() == s.tasks.len() - 1);
        match s.completion()->0.pulled {
            Some(next) => {
                lemma_move_keeps_the_number(rest, next, now);
            },
            None => {},
        }
        assert(s.completed(now).tasks.len() == s.tasks.len() - 1);
    }
}

proof fn lemma_move_keeps_the_number(s: StoreView, id: u64, now: u64)
    ensures
        s.promoted(id, now).tasks.len() == s.tasks.len(),
{
    if s.has(id) {
        order::lemma_first_where(s.tasks, order::has_id(id));
        let rest = s.tasks.remove(s.position(id));
        crate::laws::lemma_place_bounds(rest, crate::model::Bucket::Now, Some(0));
    }
}

/// Removing a task that is there leaves another store.
proof fn lemma_removing_changes(s: StoreView, id: u64, now: u64)
    ensures
        s.has(id) ==> s.removed(id, now) != s,
        !s.has(id) ==> s.removed(id, now) == s,
{
    if s.has(id) {
        crate::laws::law_removing_leaves_the_others(s, id, now, crate::model::Bucket::Now);
    }
}

/// Bringing a task back leaves another store.
pub(crate) proof fn lemma_restoring_changes(s: StoreView, done: CompletedView, now: u64)
    ensures
        !s.has(done.task.id) ==> s.restored(done, now) != s,
        s.has(done.task.id) ==> s.restored(done, now) == s,
{
    if !s.has(done.task.id) {
        let base = crate::laws::restore_base(s, done, now);
        if done.pulled is Some {
            lemma_moving_keeps_the_number(s, done.pulled->0, now);
        }
        order::lemma_first_where(base.tasks, order::is_in(crate::model::Bucket::Now));
        assert(s.restored(done, now).tasks.len() == s.tasks.len() + 1);
    }
}

proof fn lemma_moving_keeps_the_number(s: StoreView, id: u64, now: u64)
    ensures
        s.moved(id, crate::model::Bucket::Next, Some(0), now).tasks.len() == s.tasks.len(),
{
    if s.has(id) {
        order::lemma_first_where(s.tasks, order::has_id(id));
        let rest = s.tasks.remove(s.position(id));
        crate::laws::lemma_place_bounds(rest, crate::model::Bucket::Next, Some(0));
    }
}

// ---- laws ----------------------------------------------------------------------------

/// A change that did not reach the file leaves no trace in memory, and neither does
/// a request that changes nothing; every other change stands and moves the revision.
pub proof fn law_a_change_stands_or_leaves_no_trace(
    s: StateView,
    next: StoreView,
    saved: Result<(), SaveError>,
)
    ensures
        next == s.store ==> s.changed(next, saved) == s,
        !committed(saved) ==> s.changed(next, saved) == s,
        next != s.store && committed(saved) ==> s.changed(next, saved).store == next && s.changed(
            next,
            saved,
        ).revision != s.revision,
        s.changed(next, saved).undo == s.undo,
        s.changed(next, saved).path == s.path,
{
}

/// The last completion can be undone, and only once. The undoing gives every
/// bucket back as it was.
pub proof fn law_the_last_completion_is_undone_once(
    s: StateView,
    done_at: u64,
    undone_at: u64,
    first: Result<(), SaveError>,
    second: Result<(), SaveError>,
    bucket: crate::model::Bucket,
    id: u64,
)
    requires
        crate::laws::valid(s.store),
        s.store.current() is Some,
        committed(first),
        committed(second),
    ensures
        ({
            let task = s.store.current()->0.id;
            let done = s.completed(done_at, first);
            let back = done.undone(task, undone_at, second);
            &&& done.restores(task)
            &&& back.store.in_bucket(bucket) == s.store.in_bucket(bucket)
            &&& back.store.current() == s.store.current()
            &&& !back.offers_undo(id)
            &&& id != task ==> !done.offers_undo(id)
        }),
{
    crate::laws::law_undo_reverses_a_completion(s.store, done_at, undone_at, bucket);
    lemma_completing_changes(s.store, done_at);
    queue::lemma_current_is_found(s.store);
    order::lemma_first_where(s.store.tasks, order::has_id(s.store.current_id()->0));
    let done = s.completed(done_at, first);
    lemma_restoring_changes(done.store, s.store.completion()->0, undone_at);
}

/// A completion can no longer be undone once anything else has changed, and can as
/// long as nothing has.
pub proof fn law_any_other_change_ends_the_offer(
    s: StateView,
    next: StoreView,
    saved: Result<(), SaveError>,
    id: u64,
)
    requires
        s.offers_undo(id),
    ensures
        next != s.store && committed(saved) ==> !s.changed(next, saved).offers_undo(id),
        next == s.store || !committed(saved) ==> s.changed(next, saved).offers_undo(id),
{
}

/// An undo that could not be saved can be tried again.
pub proof fn law_a_failed_undo_can_be_tried_again(
    s: StateView,
    id: u64,
    now: u64,
    saved: Result<(), SaveError>,
)
    requires
        s.restores(id),
        !committed(saved),
    ensures
        s.undone(id, now, saved) == s,
{
    lemma_restoring_changes(s.store, (s.undo->0).completed, now);
}

// ---- histories -----------------------------------------------------------------------

/// One thing that is done to a state, with how the saving goes where there is
/// something to save.
pub enum Step {
    /// Whatever else leaves this store.
    Change(StoreView, Result<(), SaveError>),
    /// Complete the current task at a time.
    Complete(u64, Result<(), SaveError>),
    /// Mark a task done at a time.
    Done(u64, u64, Result<(), SaveError>),
    /// Undo the completion of a task at a time.
    Undo(u64, u64, Result<(), SaveError>),
}

impl Step {
    /// Whether a change leaves a valid store.
    pub open spec fn is_valid(self) -> bool {
        self matches Step::Change(next, _) ==> crate::laws::valid(next)
    }
}

impl StateView {
    pub open spec fn after(self, step: Step) -> StateView {
        match step {
            Step::Change(next, saved) => self.changed(next, saved),
            Step::Complete(now, saved) => self.completed(now, saved),
            Step::Done(id, now, saved) => self.done(id, now, saved),
            Step::Undo(id, now, saved) => self.undone(id, now, saved),
        }
    }

    /// The current task that a step completes, where that reaches the file.
    pub open spec fn completes(self, step: Step) -> Option<u64> {
        match step {
            Step::Complete(_, saved) => if committed(saved) {
                self.store.current_id()
            } else {
                None
            },
            Step::Done(id, _, saved) => if committed(saved) && self.store.current_id() == Some(id) {
                Some(id)
            } else {
                None
            },
            _ => None,
        }
    }

    /// The state after some steps.
    pub open spec fn ran(self, steps: Seq<Step>) -> StateView
        decreases steps.len(),
    {
        if steps.len() == 0 {
            self
        } else {
            self.ran(steps.drop_last()).after(steps.last())
        }
    }

    /// Whether the last change that some steps made was the step at a place, and
    /// it completed the task `id`: the store is as that step left it ever since.
    pub open spec fn last_completed(self, steps: Seq<Step>, i: int, id: u64) -> bool {
        &&& 0 <= i < steps.len()
        &&& self.ran(steps.take(i)).completes(steps[i]) == Some(id)
        &&& forall|k: int|
            i < k <= steps.len() ==> (#[trigger] self.ran(steps.take(k))).store == self.ran(
                steps.take(i + 1),
            ).store
    }

    /// Whether the completion on record was not made at a revision still to come.
    pub open spec fn offer_in_order(self) -> bool {
        self.undo matches Some(last) ==> last.revision <= self.revision
    }

    /// Whether, besides, a task that can be brought back is gone, and its id was
    /// given out.
    pub open spec fn offer_is_good(self) -> bool {
        &&& self.offer_in_order()
        &&& self.undo matches Some(last) ==> last.revision == self.revision ==> {
            &&& !self.store.has(last.completed.task.id)
            &&& last.completed.task.id < self.store.next_id
        }
    }
}

/// A completed task is the current one, and is gone behind its completion.
pub(crate) proof fn lemma_completed_is_gone(s: StoreView, now: u64)
    requires
        s.current() is Some,
    ensures
        s.completion() is Some,
        s.completion()->0.task.id == s.current_id()->0,
        s.completed(now) != s,
        s.completed(now).next_id == s.next_id,
        crate::laws::valid(s) ==> !s.completed(now).has(s.current_id()->0)
            && s.current_id()->0 < s.next_id,
{
    queue::lemma_current_is_found(s);
    order::lemma_first_where(s.tasks, order::has_id(s.current_id()->0));
    order::lemma_first_where(s.tasks, order::is_in(crate::model::Bucket::Now));
    lemma_completing_changes(s, now);
    if crate::laws::valid(s) {
        crate::laws::law_undo_reverses_a_completion(s, now, now, crate::model::Bucket::Now);
        assert(s.tasks[s.head(crate::model::Bucket::Now)].id < s.next_id);
    }
}

/// What one step leaves of the offer to undo.
proof fn lemma_step_offers(s: StateView, step: Step)
    requires
        s.offer_in_order(),
        s.revision < u64::MAX,
    ensures
        s.after(step).offer_in_order(),
        s.revision <= s.after(step).revision <= s.revision + 1,
        forall|id: u64|
            #![trigger s.after(step).offers_undo(id)]
            !s.offers_undo(id) && s.completes(step) != Some(id) ==> !s.after(step).offers_undo(id),
{
    match step {
        Step::Complete(now, _) | Step::Done(_, now, _) => {
            if s.store.current() is Some {
                lemma_completed_is_gone(s.store, now);
            }
        },
        _ => {},
    }
}

/// A step keeps a store valid and an offer good, and where it changes the store it
/// leaves an offer for the task that it completes and for no other.
proof fn lemma_step(s: StateView, step: Step)
    requires
        crate::laws::valid(s.store),
        s.offer_is_good(),
        step.is_valid(),
        s.revision < u64::MAX,
    ensures
        crate::laws::valid(s.after(step).store),
        s.after(step).offer_is_good(),
        s.after(step).store == s.store ==> s.after(step) == s && s.completes(step) is None,
        s.after(step).store != s.store ==> forall|id: u64| #[trigger]
            s.after(step).offers_undo(id) <==> s.completes(step) == Some(id),
{
    lemma_step_offers(s, step);
    match step {
        Step::Change(_, _) => {},
        Step::Complete(now, _) => {
            lemma_store_stays_valid(s.store, 0, now);
            if s.store.current() is Some {
                lemma_completed_is_gone(s.store, now);
            }
        },
        Step::Done(id, now, _) => {
            lemma_store_stays_valid(s.store, id, now);
            lemma_removing_changes(s.store, id, now);
            if s.store.current() is Some {
                lemma_completed_is_gone(s.store, now);
            }
        },
        Step::Undo(id, now, _) => {
            if s.offers_undo(id) {
                let done = (s.undo->0).completed;
                crate::laws::law_undo_keeps_a_store_valid(s.store, done, now);
                lemma_restoring_changes(s.store, done, now);
            }
        },
    }
}

proof fn lemma_store_stays_valid(s: StoreView, id: u64, now: u64)
    requires
        crate::laws::valid(s),
    ensures
        crate::laws::valid(s.completed(now)),
        crate::laws::valid(s.removed(id, now)),
{
    crate::laws::law_changes_keep_a_store_valid(
        s,
        id,
        Seq::empty(),
        crate::model::Bucket::Now,
        None,
        false,
        None,
        0,
        0,
        now,
    );
}

/// The last of some steps comes behind the others.
proof fn lemma_ran_front(s: StateView, steps: Seq<Step>)
    requires
        steps.len() > 0,
    ensures
        steps.take(steps.len() as int) == steps,
        steps.take(steps.len() - 1) == steps.drop_last(),
        s.ran(steps) == s.ran(steps.drop_last()).after(steps.last()),
{
    assert(steps.take(steps.len() as int) =~= steps);
    assert(steps.take(steps.len() - 1) =~= steps.drop_last());
}

/// The steps before the last one are taken alike.
proof fn lemma_take_alike(steps: Seq<Step>, k: int)
    requires
        0 <= k < steps.len(),
    ensures
        steps.take(k) == steps.drop_last().take(k),
{
    assert(steps.take(k) =~= steps.drop_last().take(k));
}

/// Every step keeps a completion on record from being ahead of the state, and the
/// revision never goes back, as long as it does not start again from zero.
pub proof fn law_an_offer_is_never_ahead(s: StateView, steps: Seq<Step>)
    requires
        s.offer_in_order(),
        s.revision + steps.len() <= u64::MAX,
    ensures
        s.ran(steps).offer_in_order(),
        s.revision <= s.ran(steps).revision <= s.revision + steps.len(),
    decreases steps.len(),
{
    if steps.len() > 0 {
        law_an_offer_is_never_ahead(s, steps.drop_last());
        lemma_step_offers(s.ran(steps.drop_last()), steps.last());
    }
}

/// An offer to undo that has ended stays so: where the completion of a task cannot
/// be undone, nothing that is done makes it so again but completing that task.
pub proof fn law_an_ended_offer_stays_ended(s: StateView, steps: Seq<Step>, id: u64)
    requires
        s.offer_in_order(),
        s.revision + steps.len() <= u64::MAX,
        !s.offers_undo(id),
        forall|k: int|
            0 <= k < steps.len() ==> s.ran(#[trigger] steps.take(k)).completes(steps[k]) != Some(
                id,
            ),
    ensures
        !s.ran(steps).offers_undo(id),
    decreases steps.len(),
{
    if steps.len() > 0 {
        let front = steps.drop_last();
        lemma_ran_front(s, steps);
        assert forall|k: int| 0 <= k < front.len() implies s.ran(
            #[trigger] front.take(k),
        ).completes(front[k]) != Some(id) by {
            lemma_take_alike(steps, k);
            assert(front[k] == steps[k]);
        }
        law_an_ended_offer_stays_ended(s, front, id);
        law_an_offer_is_never_ahead(s, front);
        assert(s.ran(steps.take(steps.len() - 1)).completes(steps[steps.len() - 1]) != Some(id));
        lemma_step_offers(s.ran(front), steps.last());
    }
}

/// Steps keep a store valid and an offer good.
proof fn lemma_ran_good(s: StateView, steps: Seq<Step>)
    requires
        crate::laws::valid(s.store),
        s.offer_is_good(),
        s.revision + steps.len() <= u64::MAX,
        forall|k: int| 0 <= k < steps.len() ==> (#[trigger] steps[k]).is_valid(),
    ensures
        crate::laws::valid(s.ran(steps).store),
        s.ran(steps).offer_is_good(),
    decreases steps.len(),
{
    if steps.len() > 0 {
        let front = steps.drop_last();
        assert forall|k: int| 0 <= k < front.len() implies (#[trigger] front[k]).is_valid() by {
            assert(front[k] == steps[k]);
        }
        lemma_ran_good(s, front);
        law_an_offer_is_never_ahead(s, front);
        assert(steps[steps.len() - 1].is_valid());
        lemma_step(s.ran(front), steps.last());
    }
}

/// The state at the end of some steps offers exactly the completion that was their
/// last change.
proof fn lemma_ran_offers(s: StateView, steps: Seq<Step>, id: u64)
    requires
        crate::laws::valid(s.store),
        s.undo is None,
        s.revision + steps.len() <= u64::MAX,
        forall|k: int| 0 <= k < steps.len() ==> (#[trigger] steps[k]).is_valid(),
    ensures
        s.ran(steps).offers_undo(id) <==> exists|i: int| #[trigger] s.last_completed(steps, i, id),
    decreases steps.len(),
{
    if steps.len() > 0 {
        let front = steps.drop_last();
        let n = front.len() as int;
        let before = s.ran(front);
        let after = s.ran(steps);
        assert forall|k: int| 0 <= k < front.len() implies (#[trigger] front[k]).is_valid() by {
            assert(front[k] == steps[k]);
        }
        lemma_ran_offers(s, front, id);
        lemma_ran_good(s, front);
        law_an_offer_is_never_ahead(s, front);
        lemma_ran_front(s, steps);
        assert(steps[n].is_valid());
        lemma_step(before, steps.last());
        assert(s.ran(steps.take(n)) == before);
        assert(s.ran(steps.take(n + 1)) == after);
        if after.store == before.store {
            assert forall|i: int| s.last_completed(front, i, id) implies #[trigger]
                s.last_completed(steps, i, id) by {
                assert(front[i] == steps[i]);
                lemma_take_alike(steps, i);
                assert(front.take(n) =~= front);
                assert(s.ran(front.take(n)).store == s.ran(front.take(i + 1)).store);
                lemma_take_alike(steps, i + 1);
                assert forall|k: int| i < k <= steps.len() implies (#[trigger] s.ran(
                    steps.take(k),
                )).store == s.ran(steps.take(i + 1)).store by {
                    if k < steps.len() {
                        lemma_take_alike(steps, k);
                        assert(s.ran(front.take(k)).store == s.ran(front.take(i + 1)).store);
                    }
                }
            }
            assert forall|i: int| s.last_completed(steps, i, id) implies #[trigger]
                s.last_completed(front, i, id) by {
                assert(i != n);
                assert(front[i] == steps[i]);
                lemma_take_alike(steps, i);
                lemma_take_alike(steps, i + 1);
                assert forall|k: int| i < k <= front.len() implies (#[trigger] s.ran(
                    front.take(k),
                )).store == s.ran(front.take(i + 1)).store by {
                    lemma_take_alike(steps, k);
                    assert(s.ran(steps.take(k)).store == s.ran(steps.take(i + 1)).store);
                }
            }
            if after.offers_undo(id) {
                let i = choose|i: int| #[trigger] s.last_completed(front, i, id);
                assert(s.last_completed(steps, i, id));
            }
            if exists|i: int| #[trigger] s.last_completed(steps, i, id) {
                let i = choose|i: int| #[trigger] s.last_completed(steps, i, id);
                assert(s.last_completed(front, i, id));
            }
        } else {
            if after.offers_undo(id) {
                assert(s.last_completed(steps, n, id));
            }
            assert forall|i: int| #[trigger] s.last_completed(steps, i, id) implies i == n by {
                if i < n {
                    assert(s.ran(steps.take(n)).store == s.ran(steps.take(i + 1)).store);
                    assert(s.ran(steps.take(n + 1)).store == s.ran(steps.take(i + 1)).store);
                }
            }
        }
    }
}

/// Undoing the completion of a task brings it back exactly where completing it, as
/// the current task, was the last change that was made: it was not undone yet, and
/// nothing else has changed since. Where it brings nothing back it leaves the state
/// as it is.
pub proof fn law_undo_is_for_the_last_change(
    s: StateView,
    steps: Seq<Step>,
    id: u64,
    now: u64,
    saved: Result<(), SaveError>,
)
    requires
        crate::laws::valid(s.store),
        s.undo is None,
        s.revision + steps.len() <= u64::MAX,
        forall|k: int| 0 <= k < steps.len() ==> (#[trigger] steps[k]).is_valid(),
    ensures
        s.ran(steps).restores(id) <==> exists|i: int| #[trigger] s.last_completed(steps, i, id),
        !s.ran(steps).restores(id) ==> s.ran(steps).undone(id, now, saved) == s.ran(steps),
{
    lemma_ran_offers(s, steps, id);
    lemma_ran_good(s, steps);
}

/// What undoing brings back is what was there before the completion, whatever was
/// tried in between and came to nothing: every bucket as it was, a pulled task at
/// the head of Next again, and the completed task current with its clock.
pub proof fn law_undo_gives_back_what_was_there(
    s: StateView,
    steps: Seq<Step>,
    i: int,
    id: u64,
    now: u64,
    saved: Result<(), SaveError>,
    bucket: crate::model::Bucket,
)
    requires
        crate::laws::valid(s.store),
        s.undo is None,
        s.revision + steps.len() <= u64::MAX,
        forall|k: int| 0 <= k < steps.len() ==> (#[trigger] steps[k]).is_valid(),
        s.last_completed(steps, i, id),
        committed(saved),
    ensures
        ({
            let before = s.ran(steps.take(i)).store;
            let back = s.ran(steps).undone(id, now, saved);
            &&& back.store.in_bucket(bucket) == before.in_bucket(bucket)
            &&& back.store.current() == before.current()
            &&& back.store.current_id() == Some(id)
            &&& !back.offers_undo(id)
        }),
{
    let before = s.ran(steps.take(i));
    let at = match steps[i] {
        Step::Complete(at, _) => at,
        Step::Done(_, at, _) => at,
        _ => 0,
    };
    lemma_ran_kept(s, steps, i, id);
    lemma_taken_valid(steps, i);
    lemma_ran_good(s, steps.take(i));
    lemma_completed_is_gone(before.store, at);
    crate::laws::law_undo_reverses_a_completion(before.store, at, now, bucket);
    lemma_restoring_changes(s.ran(steps).store, before.store.completion()->0, now);
}

/// The steps up to one of them are valid as all of them are.
proof fn lemma_taken_valid(steps: Seq<Step>, i: int)
    requires
        0 <= i <= steps.len(),
        forall|k: int| 0 <= k < steps.len() ==> (#[trigger] steps[k]).is_valid(),
    ensures
        forall|k: int| 0 <= k < i ==> (#[trigger] steps.take(i)[k]).is_valid(),
{
    assert forall|k: int| 0 <= k < i implies (#[trigger] steps.take(i)[k]).is_valid() by {
        assert(steps.take(i)[k] == steps[k]);
    }
}

/// Behind the completion that was the last change the state stays as it left it.
proof fn lemma_ran_kept(s: StateView, steps: Seq<Step>, i: int, id: u64)
    requires
        crate::laws::valid(s.store),
        s.undo is None,
        s.revision + steps.len() <= u64::MAX,
        forall|k: int| 0 <= k < steps.len() ==> (#[trigger] steps[k]).is_valid(),
        s.last_completed(steps, i, id),
    ensures
        s.ran(steps) == s.ran(steps.take(i)).after(steps[i]),
    decreases steps.len(),
{
    let front = steps.drop_last();
    let n = front.len() as int;
    lemma_ran_front(s, steps);
    if i < n {
        assert forall|k: int| 0 <= k < front.len() implies (#[trigger] front[k]).is_valid() by {
            assert(front[k] == steps[k]);
        }
        assert(front[i] == steps[i]);
        lemma_take_alike(steps, i);
        lemma_take_alike(steps, i + 1);
        assert forall|k: int| i < k <= front.len() implies (#[trigger] s.ran(
            front.take(k),
        )).store == s.ran(front.take(i + 1)).store by {
            lemma_take_alike(steps, k);
            assert(s.ran(steps.take(k)).store == s.ran(steps.take(i + 1)).store);
        }
        lemma_ran_kept(s, front, i, id);
        lemma_ran_good(s, front);
        law_an_offer_is_never_ahead(s, front);
        assert(steps[n].is_valid());
        lemma_step(s.ran(front), steps.last());
        assert(s.ran(steps.take(n)).store == s.ran(steps.take(i + 1)).store);
        assert(s.ran(steps.take(n + 1)).store == s.ran(steps.take(i + 1)).store);
    }
}

// ---- what comes of a change ----------------------------------------------------------

/// Whether a warning tells of a file and of why its directory could not be synced.
pub open spec fn is_warned(w: DurabilityWarning, path: Seq<char>, cause: Seq<char>) -> bool {
    forall|s: String| #[trigger]
        call_ensures(DurabilityWarning::to_string, (&w,), s) ==> s@ == "saved "@ + path
            + " but could not make the change crash-safe: "@ + cause
}

/// Whether a change came out as its saving did: it stands, counted, where it reached the
/// file, with a warning where it may not last; and nothing changed where it did not.
pub open spec fn is_taken<R>(
    before: StateView,
    next: StoreView,
    value: R,
    saved: Result<(), SaveError>,
    after: StateView,
    r: Result<UpdateOutcome<R>, Failure>,
) -> bool {
    let stands = after.store == next && after.path == before.path && after.revision == (
    if before.revision == u64::MAX {
        0
    } else {
        before.revision + 1
    });
    match saved {
        Ok(_) => stands && r == Ok::<UpdateOutcome<R>, Failure>(UpdateOutcome::Saved(value)),
        Err(SaveError::AfterCommit(f)) => {
            &&& stands
            &&& r matches Ok(UpdateOutcome::CommittedWithWarning { value: v, warning })
            &&& v == value
            &&& is_warned(warning, before.path, f.message@)
        },
        Err(SaveError::BeforeCommit(f)) => {
            &&& after == before
            &&& r matches Err(g)
            &&& g.kind == f.kind
            &&& g.message@ == "could not save "@ + before.path + ": "@ + f.message@
        },
    }
}

/// Whether a saving put the new contents into the file.
pub open spec fn reached(saved: Result<(), SaveError>) -> bool {
    saved is Ok || saved->Err_0 is AfterCommit
}

proof fn lemma_is_taken<R>(
    before: StateView,
    next: StoreView,
    value: R,
    saved: Result<(), SaveError>,
    after: StateView,
    r: Result<UpdateOutcome<R>, Failure>,
)
    requires
        committed(saved) ==> after.store == next && after.path == before.path && after.revision
            == before.revision.wrapping_add(1),
        !committed(saved) ==> after == before,
        is_settled(r, value, before.path, saved),
    ensures
        is_taken(before, next, value, saved, after, r),
        committed(saved) == reached(saved),
{
}

/// A changed store stands where it was saved and is dropped where it was not, and what
/// came of it is told so.
pub proof fn law_the_saving_decides<R>(
    before: StateView,
    next: Store,
    value: R,
    saved: Result<(), SaveError>,
)
    ensures
        forall|m: &mut State, r: Result<UpdateOutcome<R>, Failure>|
            (*m)@ == before && #[trigger] call_ensures(State::settle, (m, next, value, saved), r)
                ==> is_taken(before, next@, value, saved, (*final(m))@, r) && (*final(m))@.undo
                == before.undo,
{
    assert forall|m: &mut State, r: Result<UpdateOutcome<R>, Failure>|
        (*m)@ == before && #[trigger] call_ensures(
            State::settle,
            (m, next, value, saved),
            r,
        ) implies is_taken(before, next@, value, saved, (*final(m))@, r) && (*final(m))@.undo
        == before.undo by {
        lemma_is_taken(before, next@, value, saved, (*final(m))@, r);
    }
}

/// Whether a changed store was saved and came out as its saving did, or was the same and
/// left everything as it was.
pub open spec fn is_saved<R, F: FnOnce(&str, &Store) -> Result<(), SaveError>>(
    before: StateView,
    next: StoreView,
    value: R,
    save: F,
    after: StateView,
    r: Result<UpdateOutcome<R>, Failure>,
) -> bool {
    if next == before.store {
        after == before && r == Ok::<UpdateOutcome<R>, Failure>(UpdateOutcome::Saved(value))
    } else {
        exists|p: &str, s: &Store, saved: Result<(), SaveError>|
            {
                &&& #[trigger] call_ensures(save, (p, s), saved)
                &&& p@ == before.path
                &&& s@ == next
                &&& is_taken(before, next, value, saved, after, r)
            }
    }
}

pub(crate) proof fn lemma_is_saved<R, F: FnOnce(&str, &Store) -> Result<(), SaveError>>(
    before: StateView,
    next: StoreView,
    value: R,
    save: F,
    after: StateView,
    r: Result<UpdateOutcome<R>, Failure>,
)
    requires
        commits(before, next, value, save, after, r),
    ensures
        is_saved(before, next, value, save, after, r),
        after.undo == before.undo,
{
    if next != before.store {
        let (p, s, saved) = choose|p: &str, s: &Store, saved: Result<(), SaveError>|
            {
                &&& p@ == before.path
                &&& s@ == next
                &&& #[trigger] call_ensures(save, (p, s), saved)
                &&& after == before.settled(next, saved)
                &&& is_settled(r, value, before.path, saved)
            };
        lemma_is_taken(before, next, value, saved, after, r);
    }
}

/// An update makes its change on the store that there is, saves what came of it to the
/// file of the state, and hands the outcome of the change on. The offer to undo a
/// completion is left as it is.
pub proof fn law_an_update_is_saved_or_undone<
    R,
    G: FnOnce(&mut Store) -> R,
    F: FnOnce(&str, &Store) -> Result<(), SaveError>,
>(before: StateView, f: G, save: F)
    ensures
        forall|m: &mut State, r: Result<UpdateOutcome<R>, Failure>|
            (*m)@ == before && #[trigger] call_ensures(State::update, (m, f, save), r)
                ==> exists|n: &mut Store, value: R|
                {
                    &&& #[trigger] call_ensures(f, (n,), value)
                    &&& (*n)@ == before.store
                    &&& is_saved(before, (*final(n))@, value, save, (*final(m))@, r)
                    &&& (*final(m))@.undo == before.undo
                },
{
    assert forall|m: &mut State, r: Result<UpdateOutcome<R>, Failure>|
        (*m)@ == before && #[trigger] call_ensures(State::update, (m, f, save), r) implies exists|
        n: &mut Store,
        value: R,
    |
        {
            &&& #[trigger] call_ensures(f, (n,), value)
            &&& (*n)@ == before.store
            &&& is_saved(before, (*final(n))@, value, save, (*final(m))@, r)
            &&& (*final(m))@.undo == before.undo
        } by {
        let after = (*final(m))@;
        let (n, value) = choose|n: &mut Store, value: R|
            {
                &&& (*n)@ == before.store
                &&& #[trigger] call_ensures(f, (n,), value)
                &&& commits(before, (*final(n))@, value, save, after, r)
            };
        lemma_is_saved(before, (*final(n))@, value, save, after, r);
    }
}

/// Whether completing the current task came out so: nothing changed where there is none;
/// else the store without it was saved, and where it reached the file it stands, and the
/// completion is the one that can be undone.
pub open spec fn has_finished<F: FnOnce(&str, &Store) -> Result<(), SaveError>>(
    before: StateView,
    now: u64,
    save: F,
    after: StateView,
    task: Option<Task>,
    r: Result<UpdateOutcome<Option<Task>>, Failure>,
) -> bool {
    let working = crate::promises::members(before.store, crate::model::Bucket::Now);
    if working.len() == 0 {
        after == before && r == Ok::<UpdateOutcome<Option<Task>>, Failure>(
            UpdateOutcome::Saved(None),
        )
    } else {
        exists|p: &str, s: &Store, saved: Result<(), SaveError>, d: CompletedView|
            {
                &&& #[trigger] call_ensures(save, (p, s), saved)
                &&& #[trigger] crate::promises::has_completed(before.store, s@, Some(d))
                &&& crate::promises::timer_runs(before.store, s@, now)
                &&& p@ == before.path
                &&& is_taken(before, s@, task, saved, after, r)
                &&& reached(saved) ==> {
                    &&& task is Some && (task->0)@ == working[0]
                    &&& after.undo is Some
                    &&& (after.undo->0).completed == d
                    &&& (after.undo->0).revision == after.revision
                }
            }
    }
}

pub(crate) proof fn lemma_has_finished<F: FnOnce(&str, &Store) -> Result<(), SaveError>>(
    before: StateView,
    now: u64,
    save: F,
    after: StateView,
    r: Result<UpdateOutcome<Option<Task>>, Failure>,
)
    requires
        crate::promises::sound(before.store),
        completes(before, now, save, after, r),
    ensures
        exists|task: Option<Task>| #[trigger]
            has_finished(before, now, save, after, task, r),
{
    let b = before.store;
    crate::promises::lemma_members(b, crate::model::Bucket::Now);
    crate::laws::law_current_is_the_head_of_now(b);
    crate::promises::lemma_has_completed(b, now);
    if b.current() is None {
        assert(has_finished(before, now, save, after, None, r));
    } else {
        lemma_completing_changes(b, now);
        let (p, s, saved) = choose|p: &str, s: &Store, saved: Result<(), SaveError>|
            {
                &&& p@ == before.path
                &&& s@ == b.completed(now)
                &&& #[trigger] call_ensures(save, (p, s), saved)
                &&& after == before.completed(now, saved)
                &&& is_completed(r, before, saved)
            };
        let d = b.completion()->0;
        let task: Option<Task> = match r {
            Ok(outcome) => outcome.result(),
            Err(_) => None,
        };
        lemma_is_taken(before, s@, task, saved, after, r);
        assert(crate::promises::has_completed(b, s@, Some(d)));
        assert(has_finished(before, now, save, after, task, r));
    }
}

/// Completing the current task saves the store without it, hands the task out, and leaves
/// the completion as the one that can be undone.
pub proof fn law_completing_is_saved_and_can_be_undone<
    F: FnOnce(&str, &Store) -> Result<(), SaveError>,
>(before: StateView, now: u64, save: F)
    requires
        crate::promises::sound(before.store),
    ensures
        forall|m: &mut State, r: Result<UpdateOutcome<Option<Task>>, Failure>|
            (*m)@ == before && #[trigger] call_ensures(
                State::complete_current_at,
                (m, now, save),
                r,
            ) ==> exists|task: Option<Task>| #[trigger]
                has_finished(before, now, save, (*final(m))@, task, r),
{
    assert forall|after: StateView, r: Result<UpdateOutcome<Option<Task>>, Failure>| #[trigger]
        completes(before, now, save, after, r) implies exists|task: Option<Task>| #[trigger]
        has_finished(before, now, save, after, task, r) by {
        lemma_has_finished(before, now, save, after, r);
    }
}

/// Whether marking a task done came out so: refused where there is no such task; completed,
/// as the one that can be undone, where it is the one being worked on; and else deleted,
/// which cannot be undone.
pub open spec fn has_marked<F: FnOnce(&str, &Store) -> Result<(), SaveError>>(
    before: StateView,
    id: u64,
    now: u64,
    save: F,
    after: StateView,
    r: Result<UpdateOutcome<bool>, Failure>,
) -> bool {
    if !crate::promises::holds(before.store, id) {
        after == before && r == Ok::<UpdateOutcome<bool>, Failure>(UpdateOutcome::Saved(false))
    } else {
        exists|p: &str, s: &Store, saved: Result<(), SaveError>|
            {
                &&& #[trigger] call_ensures(save, (p, s), saved)
                &&& p@ == before.path
                &&& is_taken(before, s@, true, saved, after, r)
                &&& crate::promises::timer_runs(before.store, s@, now)
                &&& if crate::promises::works_on(before.store, id) {
                    exists|d: CompletedView|
                        {
                            &&& #[trigger] crate::promises::has_completed(
                                before.store,
                                s@,
                                Some(d),
                            )
                            &&& reached(saved) ==> after.undo == Some(
                                LastView { completed: d, revision: after.revision },
                            )
                        }
                } else {
                    crate::promises::has_gone(before.store, s@, id, true) && after.undo
                        == before.undo
                }
            }
    }
}

proof fn lemma_has_marked<F: FnOnce(&str, &Store) -> Result<(), SaveError>>(
    before: StateView,
    id: u64,
    now: u64,
    save: F,
    after: StateView,
    r: Result<UpdateOutcome<bool>, Failure>,
)
    requires
        crate::promises::sound(before.store),
        finishes(before, id, now, save, after, r),
    ensures
        has_marked(before, id, now, save, after, r),
{
    let b = before.store;
    crate::promises::lemma_holds(b, id);
    crate::promises::lemma_works_on(b);
    crate::promises::lemma_timers(
        b,
        id,
        seq![],
        crate::model::Bucket::Now,
        None,
        false,
        None,
        0,
        now,
        now,
    );
    assert(crate::promises::works_on(b, id) == (b.current_id() == Some(id)));
    if b.has(id) {
        let (p, s, saved) = choose|p: &str, s: &Store, saved: Result<(), SaveError>|
            {
                &&& p@ == before.path
                &&& s@ == b.done(id, now)
                &&& #[trigger] call_ensures(save, (p, s), saved)
                &&& after == before.done(id, now, saved)
                &&& is_settled(r, true, before.path, saved)
            };
        if b.current_id() == Some(id) {
            crate::promises::lemma_has_completed(b, now);
            lemma_completed_is_gone(b, now);
            lemma_completing_changes(b, now);
            assert(crate::promises::has_completed(b, s@, Some(b.completion()->0)));
        } else {
            crate::promises::lemma_has_gone(b, id, now);
            lemma_removing_changes(b, id, now);
        }
        lemma_is_taken(before, s@, true, saved, after, r);
    }
}

/// Marking a task done saves the store without it, and can be undone where it was the one
/// being worked on.
pub proof fn law_marking_done_is_saved<F: FnOnce(&str, &Store) -> Result<(), SaveError>>(
    before: StateView,
    id: u64,
    now: u64,
    save: F,
)
    requires
        crate::promises::sound(before.store),
    ensures
        forall|m: &mut State, r: Result<UpdateOutcome<bool>, Failure>|
            (*m)@ == before && #[trigger] call_ensures(State::complete_at, (m, id, now, save), r)
                ==> has_marked(before, id, now, save, (*final(m))@, r),
{
    assert forall|after: StateView, r: Result<UpdateOutcome<bool>, Failure>| #[trigger]
        finishes(before, id, now, save, after, r) implies has_marked(
        before,
        id,
        now,
        save,
        after,
        r,
    ) by {
        lemma_has_marked(before, id, now, save, after, r);
    }
}

/// Whether undoing the completion of a task came out so: refused unless it is the last
/// completion, nothing changed since and no task has its id; else the store with it put
/// back was saved, and where that reached the file the offer is used up.
pub open spec fn has_undone<F: FnOnce(&str, &Store) -> Result<(), SaveError>>(
    before: StateView,
    id: u64,
    save: F,
    after: StateView,
    r: Result<UpdateOutcome<bool>, Failure>,
) -> bool {
    let on_offer = before.undo is Some && (before.undo->0).revision == before.revision && (
    before.undo->0).completed.task.id == id;
    if !on_offer {
        after == before && r == Ok::<UpdateOutcome<bool>, Failure>(UpdateOutcome::Saved(false))
    } else if crate::promises::holds(before.store, id) {
        after == (StateView { undo: None, ..before }) && r == Ok::<UpdateOutcome<bool>, Failure>(
            UpdateOutcome::Saved(false),
        )
    } else {
        exists|p: &str, s: &Store, saved: Result<(), SaveError>|
            {
                &&& #[trigger] call_ensures(save, (p, s), saved)
                &&& p@ == before.path
                &&& is_taken(before, s@, true, saved, after, r)
                &&& crate::promises::has_returned(
                    before.store,
                    s@,
                    (before.undo->0).completed,
                    true,
                )
                &&& reached(saved) ==> after.undo is None
            }
    }
}

pub(crate) proof fn lemma_has_undone<F: FnOnce(&str, &Store) -> Result<(), SaveError>>(
    before: StateView,
    id: u64,
    now: u64,
    save: F,
    after: StateView,
    r: Result<UpdateOutcome<bool>, Failure>,
)
    requires
        crate::promises::sound(before.store),
        id < before.store.next_id,
        undoes(before, id, now, save, after, r),
    ensures
        has_undone(before, id, save, after, r),
{
    let b = before.store;
    crate::promises::lemma_holds(b, id);
    if before.offers_undo(id) {
        let d = (before.undo->0).completed;
        lemma_restoring_changes(b, d, now);
        if !b.has(id) {
            let (p, s, saved) = choose|p: &str, s: &Store, saved: Result<(), SaveError>|
                {
                    &&& p@ == before.path
                    &&& s@ == b.restored(d, now)
                    &&& #[trigger] call_ensures(save, (p, s), saved)
                    &&& after == before.undone(id, now, saved)
                    &&& is_settled(r, true, before.path, saved)
                };
            crate::promises::lemma_has_returned(b, d, now);
            lemma_is_taken(before, s@, true, saved, after, r);
        }
    }
}

/// Undoing a completion saves the store with the task put back, once, and only while
/// nothing else changed.
pub proof fn law_undoing_is_saved<F: FnOnce(&str, &Store) -> Result<(), SaveError>>(
    before: StateView,
    id: u64,
    now: u64,
    save: F,
)
    requires
        crate::promises::sound(before.store),
        id < before.store.next_id,
    ensures
        forall|m: &mut State, r: Result<UpdateOutcome<bool>, Failure>|
            (*m)@ == before && #[trigger] call_ensures(
                State::undo_complete_at,
                (m, id, now, save),
                r,
            ) ==> has_undone(before, id, save, (*final(m))@, r),
{
    assert forall|after: StateView, r: Result<UpdateOutcome<bool>, Failure>| #[trigger]
        undoes(before, id, now, save, after, r) implies has_undone(before, id, save, after, r) by {
        lemma_has_undone(before, id, now, save, after, r);
    }
}

/// Whether a service came up as the reading of its file did: with the store that the file
/// says, nothing counted and nothing to undo; or not at all, told why.
pub open spec fn has_started(
    path: Seq<char>,
    contents: Result<Option<Vec<u8>>, Failure>,
    r: Result<State, Failure>,
) -> bool {
    let head = "could not read "@ + path + ": "@;
    &&& r matches Ok(state) ==> state@.path == path && state@.revision == 0 && state@.undo is None
    &&& match contents {
        Err(f) => r matches Err(g) && g.kind == f.kind && g.message@ == head + f.message@,
        Ok(None) => r matches Ok(state) && state@.store.tasks.len() == 0 && state@.store.next_id
            == 1,
        Ok(Some(bytes)) => match crate::json::parsed_bytes(bytes@) {
            Err(e) => r matches Err(g) && g.kind == store::FailureKind::InvalidData && g.message@
                == head + e,
            Ok(crate::json::JsonTree::Object(f)) => match r {
                Ok(state) => store::store_says(f, state@.store),
                Err(g) => store::says_no_store(f) && g.kind == store::FailureKind::InvalidData
                    && head.is_prefix_of(g.message@),
            },
            Ok(_) => r matches Err(g) && g.kind == store::FailureKind::InvalidData && g.message@
                == head + path + " does not hold a JSON object"@,
        },
    }
}

/// A service starts with what its file says, or not at all.
pub proof fn law_a_service_starts_with_what_its_file_says(
    path: &str,
    contents: Result<Option<Vec<u8>>, Failure>,
)
    ensures
        forall|r: Result<State, Failure>| #[trigger]
            call_ensures(State::load, (path, contents), r) ==> has_started(path@, contents, r),
{
    let head = "could not read "@ + path@ + ": "@;
    match contents {
        Ok(Some(bytes)) => match crate::json::parsed_bytes(bytes@) {
            Ok(crate::json::JsonTree::Object(f)) => {
                store::lemma_store_says(f);
                assert forall|e: Seq<char>| head.is_prefix_of(#[trigger] (head + e)) by {
                    assert((head + e).subrange(0, head.len() as int) =~= head);
                }
            },
            Ok(_) => {
                let e = path@ + " does not hold a JSON object"@;
                assert(head + e =~= head + path@ + " does not hold a JSON object"@);
            },
            _ => {},
        },
        _ => {},
    }
}

/// A new state holds the store and the file that it was given, with nothing counted and
/// nothing to undo, and shows them.
pub proof fn law_a_state_shows_what_it_holds(s: Store, path: String, state: State)
    ensures
        forall|new: State| #[trigger]
            call_ensures(State::with_store, (s, path), new) ==> new@.store == s@ && new@.path
                == path@ && new@.revision == 0 && new@.undo is None,
        forall|shown: &Store| #[trigger]
            call_ensures(State::store, (&state,), shown) ==> shown@ == state@.store,
        forall|n: u64| #[trigger]
            call_ensures(State::revision, (&state,), n) ==> n == state@.revision,
{
}

/// An outcome hands out the value of its change, and the warning where there is one.
pub proof fn law_an_outcome_hands_out_its_parts<R>(value: R, warning: DurabilityWarning)
    ensures
        forall|w: Option<&DurabilityWarning>| #[trigger]
            call_ensures(UpdateOutcome::<R>::warning, (&UpdateOutcome::Saved(value),), w)
                ==> w is None,
        forall|w: Option<&DurabilityWarning>| #[trigger]
            call_ensures(
                UpdateOutcome::<R>::warning,
                (&UpdateOutcome::CommittedWithWarning { value, warning },),
                w,
            ) ==> w is Some && *(w->0) == warning,
        forall|v: R| #[trigger]
            call_ensures(UpdateOutcome::<R>::into_value, (UpdateOutcome::Saved(value),), v) ==> v
                == value,
        forall|v: R| #[trigger]
            call_ensures(
                UpdateOutcome::<R>::into_value,
                (UpdateOutcome::CommittedWithWarning { value, warning },),
                v,
            ) ==> v == value,
        forall|parts: (R, Option<DurabilityWarning>)| #[trigger]
            call_ensures(UpdateOutcome::<R>::into_parts, (UpdateOutcome::Saved(value),), parts)
                ==> parts == (value, None::<DurabilityWarning>),
        forall|parts: (R, Option<DurabilityWarning>)| #[trigger]
            call_ensures(
                UpdateOutcome::<R>::into_parts,
                (UpdateOutcome::CommittedWithWarning { value, warning },),
                parts,
            ) ==> parts == (value, Some(warning)),
{
}

/// What a state does now, it does at some time.
pub proof fn law_a_state_goes_by_some_time<F: FnOnce(&str, &Store) -> Result<(), SaveError>>(
    before: StateView,
    id: u64,
    save: F,
)
    requires
        crate::promises::sound(before.store),
        id < before.store.next_id,
    ensures
        forall|m: &mut State, r: Result<UpdateOutcome<Option<Task>>, Failure>|
            (*m)@ == before && #[trigger] call_ensures(State::complete_current, (m, save), r)
                ==> exists|now: u64, task: Option<Task>| #[trigger]
                has_finished(before, now, save, (*final(m))@, task, r),
        forall|m: &mut State, r: Result<UpdateOutcome<bool>, Failure>|
            (*m)@ == before && #[trigger] call_ensures(State::complete, (m, id, save), r)
                ==> exists|now: u64| #[trigger]
                has_marked(before, id, now, save, (*final(m))@, r),
        forall|m: &mut State, r: Result<UpdateOutcome<bool>, Failure>|
            (*m)@ == before && #[trigger] call_ensures(State::undo_complete, (m, id, save), r)
                ==> has_undone(before, id, save, (*final(m))@, r),
{
    assert forall|now: u64, after: StateView, r: Result<UpdateOutcome<Option<Task>>, Failure>|
        #[trigger] completes(before, now, save, after, r) implies exists|
        at: u64,
        task: Option<Task>,
    | #[trigger] has_finished(before, at, save, after, task, r) by {
        lemma_has_finished(before, now, save, after, r);
        let task = choose|task: Option<Task>| #[trigger]
            has_finished(before, now, save, after, task, r);
        assert(has_finished(before, now, save, after, task, r));
    }
    assert forall|now: u64, after: StateView, r: Result<UpdateOutcome<bool>, Failure>| #[trigger]
        finishes(before, id, now, save, after, r) implies has_marked(
        before,
        id,
        now,
        save,
        after,
        r,
    ) by {
        lemma_has_marked(before, id, now, save, after, r);
    }
    assert forall|now: u64, after: StateView, r: Result<UpdateOutcome<bool>, Failure>| #[trigger]
        undoes(before, id, now, save, after, r) implies has_undone(before, id, save, after, r) by {
        lemma_has_undone(before, id, now, save, after, r);
    }
}

/// An outcome with another value keeps its warning.
pub proof fn law_another_value_keeps_the_warning<R, T, F: FnOnce(R) -> T>(
    value: R,
    warning: DurabilityWarning,
    f: F,
)
    ensures
        forall|mapped: UpdateOutcome<T>| #[trigger]
            call_ensures(UpdateOutcome::<R>::map, (UpdateOutcome::Saved(value), f), mapped)
                ==> mapped is Saved && call_ensures(f, (value,), mapped->Saved_0),
        forall|mapped: UpdateOutcome<T>| #[trigger]
            call_ensures(
                UpdateOutcome::<R>::map,
                (UpdateOutcome::CommittedWithWarning { value, warning }, f),
                mapped,
            ) ==> mapped is CommittedWithWarning && mapped->warning == warning && call_ensures(
                f,
                (value,),
                mapped->CommittedWithWarning_value,
            ),
{
}

} // verus!
