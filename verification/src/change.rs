//! The changes that the window, the bus and the command line ask for.

use crate::clock::unix_now;
use crate::model::Bucket;
use crate::model::Tag;
use crate::model::TaskView;
use crate::order;
use crate::queue;
use crate::queue::Store;
use crate::queue::StoreView;
use crate::quick;
use crate::state;
use crate::state::State;
use crate::state::StateView;
use crate::state::UpdateOutcome;
use crate::store::Failure;
use crate::store::SaveError;
use vstd::prelude::*;

verus! {

/// A change to the store.
#[derive(Debug, PartialEq, Eq)]
pub enum Change {
    /// Add the task that a text asks for, to this bucket where it names none.
    QuickAdd(String, Bucket),
    Promote(u64),
    Remove(u64),
    /// Complete the current task, delete any other.
    Done(u64),
    Move(u64, Bucket, Option<usize>),
    /// Move to before the row that a list shows at this index.
    Drop(u64, Bucket, Option<usize>),
    Shift(u64, i32),
    SetTag(u64, Option<Tag>),
    CycleTag(u64),
    Rename(u64, String),
    TogglePause,
}

/// What came of a change.
#[derive(Debug, Clone, Copy, PartialEq, Eq, Structural)]
pub enum Effect {
    /// There was nothing that the change could act on.
    Refused,
    Changed,
    /// A task was added, with this id.
    Added(u64),
}

/// The place of a task among those of its bucket, if it is there.
pub open spec fn source_index(s: StoreView, id: u64, bucket: Bucket) -> Option<int> {
    if s.has(id) && s.get(id)->0.bucket == bucket {
        Some(s.rank(id))
    } else {
        None
    }
}

/// The index to move a task to that was dropped before the row at an index: one
/// less where the task itself stands in front of it, since it leaves its place.
pub open spec fn drop_index(
    s: StoreView,
    id: u64,
    bucket: Bucket,
    index: Option<usize>,
) -> Option<usize> {
    match (index, source_index(s, id, bucket)) {
        (Some(i), Some(source)) => if source < i {
            Some((i - 1) as usize)
        } else {
            Some(i)
        },
        _ => index,
    }
}

/// A list reports where a row was dropped before the dragged row has left its
/// place. Account for that row when moving downward within the same bucket.
pub fn adjusted_drop_index(
    store: &Store,
    id: u64,
    bucket: Bucket,
    index: Option<usize>,
) -> (at: Option<usize>)
    ensures
        at == drop_index(store@, id, bucket, index),
{
    let i: usize = match index {
        None => return None,
        Some(i) => i,
    };
    let here: bool = match store.get(id) {
        Some(task) => task.bucket == bucket,
        None => false,
    };
    if !here {
        return Some(i);
    }
    let members = store.in_bucket(bucket);
    let ghost all = store@.in_bucket(bucket);
    proof {
        queue::lemma_member_of_bucket(store@, id);
        order::lemma_first_where(all, order::has_id(id));
    }
    let mut k: usize = 0;
    while k < members.len() && members[k].id != id
        invariant
            k <= members@.len(),
            order::ref_views(members@) == all,
            forall|j: int| 0 <= j < k ==> (#[trigger] all[j]).id != id,
        decreases members@.len() - k,
    {
        assert(all[k as int].id != id);
        k = k + 1;
    }
    proof {
        if k < members@.len() {
            assert(all[k as int].id == id);
        }
        order::lemma_first_where_is(all, order::has_id(id), k as int);
    }
    if k < i {
        Some(i - 1)
    } else {
        Some(i)
    }
}

/// "Done" completes the current task, and deletes any other. Only completing the
/// current task pulls the head of Next into an otherwise-empty Now bucket.
pub fn complete_task_at(store: &mut Store, id: u64, now: u64) -> (done: bool)
    ensures
        done == old(store)@.has(id),
        final(store)@ == old(store)@.done(id, now),
{
    let is_current: bool = match store.current() {
        Some(task) => task.id == id,
        None => false,
    };
    if is_current {
        proof {
            queue::lemma_current_is_found(store@);
        }
        store.complete_current_at(now).is_some()
    } else {
        store.remove_at(id, now)
    }
}

pub fn complete_task(store: &mut Store, id: u64) -> (done: bool)
    ensures
        done == old(store)@.has(id),
        exists|now: u64| final(store)@ == #[trigger] old(store)@.done(id, now),
{
    let now: u64 = unix_now();
    complete_task_at(store, id, now)
}

impl Change {
    /// The store after the change.
    pub open spec fn applied(self, s: StoreView, created_at: u64, now: u64) -> StoreView {
        match self {
            Change::QuickAdd(text, bucket) => s.quick_added(text@, bucket, created_at, now),
            Change::Promote(id) => s.promoted(id, now),
            Change::Remove(id) => s.removed(id, now),
            Change::Done(id) => s.done(id, now),
            Change::Move(id, bucket, index) => s.moved(id, bucket, index, now),
            Change::Drop(id, bucket, index) => s.moved(
                id,
                bucket,
                drop_index(s, id, bucket, index),
                now,
            ),
            Change::Shift(id, delta) => s.shifted(id, delta, now),
            Change::SetTag(id, tag) => s.tagged(id, tag),
            Change::CycleTag(id) => s.tag_cycled(id),
            Change::Rename(id, title) => s.renamed(id, title@),
            Change::TogglePause => s.pause_toggled(now),
        }
    }

    /// What comes of the change.
    pub open spec fn effect(self, s: StoreView) -> Effect {
        let done = match self {
            Change::QuickAdd(text, _) => quick::asked(text@) is Some,
            Change::Promote(id) => s.has(id),
            Change::Remove(id) => s.has(id),
            Change::Done(id) => s.has(id),
            Change::Move(id, _, _) => s.has(id),
            Change::Drop(id, _, _) => s.has(id),
            Change::Shift(id, delta) => s.shifts(id, delta),
            Change::SetTag(id, _) => s.has(id),
            Change::CycleTag(id) => s.has(id),
            Change::Rename(id, title) => s.renames(id, title@),
            Change::TogglePause => s.can_pause(),
        };
        if !done {
            Effect::Refused
        } else if self is QuickAdd {
            Effect::Added(s.next_id)
        } else {
            Effect::Changed
        }
    }

    /// Whether there is an id left to give where the change adds a task.
    pub open spec fn has_an_id(self, s: StoreView) -> bool {
        self matches Change::QuickAdd(text, _) ==> quick::asked(text@) is Some ==> s.next_id
            < u64::MAX
    }

    /// Make the change, at the given times.
    pub fn apply_at(&self, store: &mut Store, created_at: u64, now: u64) -> (e: Effect)
        requires
            self.has_an_id(old(store)@),
        ensures
            e == self.effect(old(store)@),
            final(store)@ == self.applied(old(store)@, created_at, now),
    {
        let done: bool = match self {
            Change::QuickAdd(text, bucket) => {
                return match store.quick_add_at(text.as_str(), *bucket, created_at, now) {
                    Some(id) => Effect::Added(id),
                    None => Effect::Refused,
                };
            },
            Change::Promote(id) => store.promote_at(*id, now),
            Change::Remove(id) => store.remove_at(*id, now),
            Change::Done(id) => complete_task_at(store, *id, now),
            Change::Move(id, bucket, index) => store.move_to_at(*id, *bucket, *index, now),
            Change::Drop(id, bucket, index) => {
                let index: Option<usize> = adjusted_drop_index(store, *id, *bucket, *index);
                store.move_to_at(*id, *bucket, index, now)
            },
            Change::Shift(id, delta) => store.shift_at(*id, *delta, now),
            Change::SetTag(id, tag) => store.set_tag(*id, *tag),
            Change::CycleTag(id) => store.cycle_tag(*id),
            Change::Rename(id, title) => store.rename(*id, title.as_str()),
            Change::TogglePause => store.toggle_pause_at(now),
        };
        if done {
            Effect::Changed
        } else {
            Effect::Refused
        }
    }
}

impl State {
    /// Make a change at the given times and save it.
    pub fn change_at(
        &mut self,
        change: &Change,
        created_at: u64,
        now: u64,
        save: impl FnOnce(&str, &Store) -> Result<(), SaveError>,
    ) -> (r: Result<UpdateOutcome<Effect>, Failure>)
        requires
            change.has_an_id(old(self)@.store),
            state::can_save(
                old(self)@,
                old(self)@.to_save(change.applied(old(self)@.store, created_at, now)),
                save,
            ),
        ensures
            state::commits(
                old(self)@,
                change.applied(old(self)@.store, created_at, now),
                change.effect(old(self)@.store),
                save,
                final(self)@,
                r,
            ),
    {
        let mut next = self.store().clone();
        let value: Effect = change.apply_at(&mut next, created_at, now);
        self.commit(next, value, save)
    }

    /// Make a change and save it.
    pub fn change(
        &mut self,
        change: &Change,
        save: impl FnOnce(&str, &Store) -> Result<(), SaveError>,
    ) -> (r: Result<UpdateOutcome<Effect>, Failure>)
        requires
            change.has_an_id(old(self)@.store),
            forall|created_at: u64, now: u64|
                state::can_save(
                    old(self)@,
                    old(self)@.to_save(
                        #[trigger] change.applied(old(self)@.store, created_at, now),
                    ),
                    save,
                ),
        ensures
            exists|created_at: u64, now: u64|
                state::commits(
                    old(self)@,
                    #[trigger] change.applied(old(self)@.store, created_at, now),
                    change.effect(old(self)@.store),
                    save,
                    final(self)@,
                    r,
                ),
    {
        let created_at: u64 = unix_now();
        let now: u64 = unix_now();
        self.change_at(change, created_at, now, save)
    }
}

// ---- laws ----------------------------------------------------------------------------

/// A drop behind the first row of Now never displaces the current task, unless it
/// is the current task that was dropped.
pub proof fn law_a_drop_behind_the_current_task_leaves_it(
    s: StoreView,
    id: u64,
    index: usize,
    now: u64,
)
    requires
        crate::laws::valid(s),
        s.current() is Some,
        s.current_id() != Some(id),
        index >= 1,
        s.has(id),
    ensures
        s.moved(id, Bucket::Now, drop_index(s, id, Bucket::Now, Some(index)), now).current_id()
            == s.current_id(),
{
    let members = s.in_bucket(Bucket::Now);
    let rest = crate::laws::bucket_without(s, Bucket::Now, id);
    let at = drop_index(s, id, Bucket::Now, Some(index));
    let after = s.moved(id, Bucket::Now, at, now);
    crate::laws::law_current_is_the_head_of_now(s);
    crate::laws::law_current_is_the_head_of_now(after);
    crate::laws::law_move_keeps_the_order(s, id, Bucket::Now, at, now, Bucket::Now);
    // The current task stays first among the others.
    let p = order::other_id(id);
    assert(members =~= seq![members[0]] + members.skip(1));
    order::lemma_filter_add(seq![members[0]], members.skip(1), p);
    order::lemma_filter_push(Seq::empty(), members[0], p);
    order::lemma_filter_none(Seq::empty(), p);
    assert(Seq::empty().push(members[0]) =~= seq![members[0]]);
    assert(rest[0] == members[0]);
    // The dropped one goes behind it.
    if source_index(s, id, Bucket::Now) is Some {
        queue::lemma_member_of_bucket(s, id);
        order::lemma_first_where(members, order::has_id(id));
        assert(s.rank(id) >= 1);
    }
    let place = crate::laws::place_within(at, rest.len());
    assert(place >= 1);
    let task = TaskView { bucket: Bucket::Now, ..s.get(id)->0 };
    let wanted = rest.insert(place, task);
    assert(wanted[0] == rest[0]);
    let shown = after.in_bucket(Bucket::Now);
    assert(crate::laws::plain(shown).len() == crate::laws::plain(wanted).len());
    assert(crate::laws::plain(shown)[0] == crate::laws::plain(wanted)[0]);
    assert(shown[0].untimed().id == wanted[0].untimed().id);
}

/// Every change that is asked for leaves a valid store valid: ids stay unique and
/// below the next one, and only the current task has a timer.
pub proof fn law_every_change_keeps_a_store_valid(
    change: Change,
    s: StoreView,
    created_at: u64,
    now: u64,
)
    requires
        crate::laws::valid(s),
        change.has_an_id(s),
    ensures
        crate::laws::valid(change.applied(s, created_at, now)),
{
    if !(change is QuickAdd && change.effect(s) is Refused) {
        let (id, words, bucket, tag, index, delta) = match change {
            Change::QuickAdd(text, b) => (0u64, text@, b, None, None, 0i32),
            Change::Promote(id) => (id, seq![], Bucket::Now, None, None, 0i32),
            Change::Remove(id) => (id, seq![], Bucket::Now, None, None, 0i32),
            Change::Done(id) => (id, seq![], Bucket::Now, None, None, 0i32),
            Change::Move(id, b, i) => (id, seq![], b, None, i, 0i32),
            Change::Drop(id, b, i) => (id, seq![], b, None, drop_index(s, id, b, i), 0i32),
            Change::Shift(id, d) => (id, seq![], Bucket::Now, None, None, d),
            Change::SetTag(id, t) => (id, seq![], Bucket::Now, t, None, 0i32),
            Change::CycleTag(id) => (id, seq![], Bucket::Now, None, None, 0i32),
            Change::Rename(id, title) => (id, title@, Bucket::Now, None, None, 0i32),
            Change::TogglePause => (0u64, seq![], Bucket::Now, None, None, 0i32),
        };
        crate::laws::law_changes_keep_a_store_valid(
            s,
            id,
            words,
            bucket,
            tag,
            false,
            index,
            delta,
            created_at,
            now,
        );
    }
}

// ---- what a change does to a state ---------------------------------------------------

/// Whether a change of a state came out so: what the change says was made of the store, and
/// that was saved where it is another.
pub open spec fn has_changed<F: FnOnce(&str, &Store) -> Result<(), SaveError>>(
    before: StateView,
    change: Change,
    created_at: u64,
    now: u64,
    save: F,
    after: StateView,
    r: Result<UpdateOutcome<Effect>, Failure>,
) -> bool {
    exists|next: StoreView, e: Effect|
        {
            &&& #[trigger] crate::promises::is_changed(
                change,
                before.store,
                next,
                created_at,
                now,
                e,
            )
            &&& state::is_saved(before, next, e, save, after, r)
            &&& after.undo == before.undo
        }
}

/// A change does what it says to the store of a state, and is saved or undone.
pub proof fn law_a_change_is_saved_or_undone<F: FnOnce(&str, &Store) -> Result<(), SaveError>>(
    before: StateView,
    change: Change,
    at: u64,
    now: u64,
    save: F,
)
    requires
        crate::promises::sound(before.store),
        before.store.tasks.len() <= usize::MAX,
        change.has_an_id(before.store),
    ensures
        forall|m: &mut State, r: Result<UpdateOutcome<Effect>, Failure>|
            (*m)@ == before && #[trigger] call_ensures(
                State::change_at,
                (m, &change, at, now, save),
                r,
            ) ==> has_changed(before, change, at, now, save, (*final(m))@, r),
        forall|m: &mut State, r: Result<UpdateOutcome<Effect>, Failure>|
            (*m)@ == before && #[trigger] call_ensures(State::change, (m, &change, save), r)
                ==> exists|a: u64, n: u64| #[trigger]
                has_changed(before, change, a, n, save, (*final(m))@, r),
{
    let e = change.effect(before.store);
    assert forall|a: u64, n: u64, after: StateView, r: Result<UpdateOutcome<Effect>, Failure>|
        #[trigger] state::commits(
            before,
            change.applied(before.store, a, n),
            e,
            save,
            after,
            r,
        ) implies has_changed(before, change, a, n, save, after, r) by {
        lemma_has_changed(before, change, a, n, save, after, r);
    }
}

pub(crate) proof fn lemma_has_changed<F: FnOnce(&str, &Store) -> Result<(), SaveError>>(
    before: StateView,
    change: Change,
    created_at: u64,
    now: u64,
    save: F,
    after: StateView,
    r: Result<UpdateOutcome<Effect>, Failure>,
)
    requires
        crate::promises::sound(before.store),
        before.store.tasks.len() <= usize::MAX,
        change.has_an_id(before.store),
        state::commits(
            before,
            change.applied(before.store, created_at, now),
            change.effect(before.store),
            save,
            after,
            r,
        ),
    ensures
        has_changed(before, change, created_at, now, save, after, r),
{
    let next = change.applied(before.store, created_at, now);
    let e = change.effect(before.store);
    crate::promises::lemma_is_changed(change, before.store, created_at, now);
    assert(crate::promises::is_changed(change, before.store, next, created_at, now, e));
    state::lemma_is_saved(before, next, e, save, after, r);
}

/// A task that is marked done now is completed where it is the one being worked on, and
/// deleted where it is not.
pub proof fn law_a_task_is_done_at_some_time(s: StoreView, id: u64)
    requires
        crate::promises::sound(s),
    ensures
        forall|m: &mut Store, done: bool|
            (*m)@ == s && #[trigger] call_ensures(complete_task, (m, id), done) ==> done
                == crate::promises::holds(s, id) && if crate::promises::works_on(s, id) {
                exists|d: crate::model::CompletedView| #[trigger]
                    crate::promises::has_completed(s, (*final(m))@, Some(d))
            } else {
                crate::promises::has_gone(s, (*final(m))@, id, done)
            },
{
    crate::promises::lemma_holds(s, id);
    crate::promises::lemma_works_on(s);
    crate::promises::lemma_members(s, Bucket::Now);
    crate::laws::law_current_is_the_head_of_now(s);
    assert(crate::promises::works_on(s, id) == (s.current_id() == Some(id)));
    assert forall|now: u64|
        #![trigger s.done(id, now)]
        if crate::promises::works_on(s, id) {
            exists|d: crate::model::CompletedView| #[trigger]
                crate::promises::has_completed(s, s.done(id, now), Some(d))
        } else {
            crate::promises::has_gone(s, s.done(id, now), id, s.has(id))
        } by {
        if crate::promises::works_on(s, id) {
            crate::promises::lemma_has_completed(s, now);
            assert(s.done(id, now) == s.completed(now));
            assert(crate::promises::has_completed(s, s.done(id, now), Some(s.completion()->0)));
        } else {
            crate::promises::lemma_has_gone(s, id, now);
            assert(s.done(id, now) == s.removed(id, now));
        }
    }
}

} // verus!
