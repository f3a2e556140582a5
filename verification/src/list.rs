//! How the one list that holds the tasks of every bucket is changed, whatever it holds:
//! also one that was written by hand, with ids that come twice or timers where none belong.

use crate::model::Bucket;
use crate::model::Completed;
use crate::model::CompletedView;
use crate::model::Tag;
use crate::model::Task;
use crate::model::TaskView;
use crate::order;
use crate::promises::is_kept;
use crate::queue;
use crate::queue::Store;
use crate::queue::StoreView;
use vstd::prelude::*;

verus! {

// ---- places --------------------------------------------------------------------------

/// Whether a place is that of the first task with an id, or behind every task where none
/// has it.
pub open spec fn first_with(tasks: Seq<TaskView>, id: u64, k: int) -> bool {
    &&& 0 <= k <= tasks.len()
    &&& forall|j: int| 0 <= j < k ==> (#[trigger] tasks[j]).id != id
    &&& k < tasks.len() ==> tasks[k].id == id
}

/// Whether a place is that of the first task of a bucket, or behind every task where the
/// bucket is empty.
pub open spec fn first_of(tasks: Seq<TaskView>, b: Bucket, k: int) -> bool {
    &&& 0 <= k <= tasks.len()
    &&& forall|j: int| 0 <= j < k ==> (#[trigger] tasks[j]).bucket != b
    &&& k < tasks.len() ==> tasks[k].bucket == b
}

/// Whether a place is right behind the last task of a bucket, or behind every task where
/// the bucket is empty.
pub open spec fn end_of(tasks: Seq<TaskView>, b: Bucket, n: int) -> bool {
    if first_of(tasks, b, tasks.len() as int) {
        n == tasks.len()
    } else {
        &&& 0 < n <= tasks.len()
        &&& tasks[n - 1].bucket == b
        &&& forall|j: int| n <= j < tasks.len() ==> (#[trigger] tasks[j]).bucket != b
    }
}

/// Whether a task that joins a bucket at an index goes to a place: that of the task that
/// has the index in the bucket, or the end of the bucket where there is none.
pub open spec fn goes_to(tasks: Seq<TaskView>, b: Bucket, index: Option<usize>, at: int) -> bool {
    let there = tasks.filter(|t: TaskView| t.bucket == b);
    if index is Some && index->0 < there.len() {
        first_with(tasks, there[index->0 as int].id, at)
    } else {
        end_of(tasks, b, at)
    }
}

/// Whether the first task of Now has an id.
pub open spec fn is_current(tasks: Seq<TaskView>, id: u64) -> bool {
    exists|c: int| #[trigger] first_of(tasks, Bucket::Now, c) && c < tasks.len() && tasks[c].id
        == id
}

/// Whether a list is another one with the timers put right: a task with the id of the
/// current one keeps its timer, or starts it where it has none, and no other has one.
pub open spec fn is_timed(tasks: Seq<TaskView>, after: Seq<TaskView>, now: u64) -> bool {
    &&& after.len() == tasks.len()
    &&& forall|i: int|
        0 <= i < tasks.len() ==> #[trigger] after[i] == (if !is_current(tasks, tasks[i].id) {
            TaskView { started_at: None, paused_at: None, ..tasks[i] }
        } else if tasks[i].started_at is None {
            TaskView { started_at: Some(now), paused_at: None, ..tasks[i] }
        } else {
            tasks[i]
        })
}

proof fn lemma_first_with(tasks: Seq<TaskView>, id: u64)
    ensures
        first_with(tasks, id, order::first_where(tasks, order::has_id(id))),
        forall|k: int| #[trigger]
            first_with(tasks, id, k) ==> k == order::first_where(tasks, order::has_id(id)),
{
    order::lemma_first_where(tasks, order::has_id(id));
    assert forall|k: int| #[trigger] first_with(tasks, id, k) implies k == order::first_where(
        tasks,
        order::has_id(id),
    ) by {
        order::lemma_first_where_is(tasks, order::has_id(id), k);
    }
}

proof fn lemma_first_of(tasks: Seq<TaskView>, b: Bucket)
    ensures
        first_of(tasks, b, order::first_where(tasks, order::is_in(b))),
        forall|k: int| #[trigger]
            first_of(tasks, b, k) ==> k == order::first_where(tasks, order::is_in(b)),
{
    order::lemma_first_where(tasks, order::is_in(b));
    assert forall|k: int| #[trigger] first_of(tasks, b, k) implies k == order::first_where(
        tasks,
        order::is_in(b),
    ) by {
        order::lemma_first_where_is(tasks, order::is_in(b), k);
    }
}

proof fn lemma_goes_to(tasks: Seq<TaskView>, b: Bucket, index: Option<usize>)
    ensures
        goes_to(tasks, b, index, queue::place(tasks, b, index)),
        0 <= queue::place(tasks, b, index) <= tasks.len(),
{
    let p = |t: TaskView| t.bucket == b;
    assert(p =~= order::is_in(b));
    let there = tasks.filter(p);
    order::lemma_behind_last(tasks, order::is_in(b));
    lemma_first_of(tasks, b);
    if index is Some && index->0 < there.len() {
        lemma_first_with(tasks, there[index->0 as int].id);
    } else {
        let n = order::behind_last(tasks, order::is_in(b));
        if n > 0 {
            assert(tasks[n - 1].bucket == b);
            assert(!first_of(tasks, b, tasks.len() as int));
        } else {
            assert forall|j: int| 0 <= j < tasks.len() implies (#[trigger] tasks[j]).bucket
                != b by {
                assert(!order::is_in(b)(tasks[j]));
            }
            assert(first_of(tasks, b, tasks.len() as int));
        }
    }
}

proof fn lemma_is_timed(s: StoreView, now: u64)
    ensures
        is_timed(s.tasks, s.normalized(now).tasks, now),
        s.normalized(now).next_id == s.next_id,
{
    lemma_first_of(s.tasks, Bucket::Now);
    let after = s.normalized(now).tasks;
    let c = s.head(Bucket::Now);
    assert(first_of(s.tasks, Bucket::Now, c));
    assert forall|i: int| 0 <= i < s.tasks.len() implies #[trigger] after[i] == (if !is_current(
        s.tasks,
        s.tasks[i].id,
    ) {
        TaskView { started_at: None, paused_at: None, ..s.tasks[i] }
    } else if s.tasks[i].started_at is None {
        TaskView { started_at: Some(now), paused_at: None, ..s.tasks[i] }
    } else {
        s.tasks[i]
    }) by {
        assert(is_current(s.tasks, s.tasks[i].id) == (s.current_id() == Some(s.tasks[i].id)));
        assert(after[i] == queue::timed(s.tasks[i], s.current_id(), now));
    }
}

// ---- adding and removing -------------------------------------------------------------

/// Whether a task was added to a list: in front of the first of its bucket, or behind
/// every task.
pub open spec fn list_added(
    before: StoreView,
    after: StoreView,
    title: Seq<char>,
    b: Bucket,
    tag: Option<Tag>,
    front: bool,
    created_at: u64,
    now: u64,
) -> bool {
    &&& after.next_id == before.next_id + 1
    &&& exists|h: int, kept: Seq<char>|
        {
            let task = TaskView {
                id: before.next_id,
                title: kept,
                bucket: b,
                tag,
                created_at,
                started_at: None,
                paused_at: None,
            };
            &&& #[trigger] first_of(before.tasks, b, h)
            &&& #[trigger] is_kept(title, kept)
            &&& is_timed(
                if front {
                    before.tasks.insert(h, task)
                } else {
                    before.tasks.push(task)
                },
                after.tasks,
                now,
            )
        }
}

/// Adding changes the list so, whatever it holds.
pub proof fn law_a_task_is_added_to_the_list(
    s: StoreView,
    title: &str,
    b: Bucket,
    tag: Option<Tag>,
    front: bool,
    created_at: u64,
    now: u64,
)
    requires
        s.next_id < u64::MAX,
    ensures
        forall|m: &mut Store, id: u64|
            (*m)@ == s && #[trigger] call_ensures(
                Store::add_at,
                (m, title, b, tag, front, created_at, now),
                id,
            ) ==> id == s.next_id && list_added(
                s,
                (*final(m))@,
                title@,
                b,
                tag,
                front,
                created_at,
                now,
            ),
{
    lemma_list_added(s, title@, b, tag, front, created_at, now);
}

proof fn lemma_list_added(
    s: StoreView,
    title: Seq<char>,
    b: Bucket,
    tag: Option<Tag>,
    front: bool,
    created_at: u64,
    now: u64,
)
    requires
        s.next_id < u64::MAX,
    ensures
        list_added(
            s,
            s.added(title, b, tag, front, created_at, now),
            title,
            b,
            tag,
            front,
            created_at,
            now,
        ),
{
    crate::promises::law_a_title_is_trimmed_and_cut(title);
    lemma_first_of(s.tasks, b);
    let h = s.head(b);
    let kept = queue::bounded(title);
    let task = TaskView {
        id: s.next_id,
        title: kept,
        bucket: b,
        tag,
        created_at,
        started_at: None,
        paused_at: None,
    };
    let placed = StoreView {
        next_id: (s.next_id + 1) as u64,
        tasks: if front {
            s.tasks.insert(h, task)
        } else {
            s.tasks.push(task)
        },
    };
    lemma_is_timed(placed, now);
    assert(first_of(s.tasks, b, h) && is_kept(title, kept));
    assert(list_added(
        s,
        s.added(title, b, tag, front, created_at, now),
        title,
        b,
        tag,
        front,
        created_at,
        now,
    ));
}

/// Removing takes every task with the id out of the list, whatever it holds.
pub proof fn law_every_task_with_the_id_is_removed(s: StoreView, id: u64, now: u64)
    ensures
        forall|m: &mut Store, found: bool|
            (*m)@ == s && #[trigger] call_ensures(Store::remove_at, (m, id, now), found) ==> {
                &&& found == crate::promises::holds(s, id)
                &&& (*final(m))@.next_id == s.next_id
                &&& if found {
                    is_timed(
                        s.tasks.filter(|t: TaskView| t.id != id),
                        (*final(m))@.tasks,
                        now,
                    )
                } else {
                    (*final(m))@ == s
                }
            },
{
    crate::promises::lemma_holds(s, id);
    let p = |t: TaskView| t.id != id;
    assert(p =~= order::other_id(id));
    lemma_is_timed(StoreView { tasks: s.tasks.filter(p), ..s }, now);
}

// ---- moving --------------------------------------------------------------------------

/// Whether the first task with an id was moved in a list to an index of a bucket.
pub open spec fn list_moved(
    before: StoreView,
    after: StoreView,
    id: u64,
    b: Bucket,
    index: Option<usize>,
    now: u64,
) -> bool {
    &&& after.next_id == before.next_id
    &&& exists|k: int, at: int|
        {
            let rest = before.tasks.remove(k);
            &&& #[trigger] first_with(before.tasks, id, k)
            &&& k < before.tasks.len()
            &&& #[trigger] goes_to(before.tasks.remove(k), b, index, at)
            &&& is_timed(
                rest.insert(at, TaskView { bucket: b, ..before.tasks[k] }),
                after.tasks,
                now,
            )
        }
}

proof fn lemma_list_moved(s: StoreView, id: u64, b: Bucket, index: Option<usize>, now: u64)
    ensures
        s.has(id) ==> list_moved(s, s.moved(id, b, index, now), id, b, index, now),
        !s.has(id) ==> s.moved(id, b, index, now) == s,
        s.has(id) == crate::promises::holds(s, id),
{
    crate::promises::lemma_holds(s, id);
    if s.has(id) {
        lemma_first_with(s.tasks, id);
        let k = s.position(id);
        let rest = s.tasks.remove(k);
        lemma_goes_to(rest, b, index);
        let at = queue::place(rest, b, index);
        let task = TaskView { bucket: b, ..s.tasks[k] };
        lemma_is_timed(StoreView { tasks: rest.insert(at, task), ..s }, now);
        assert(first_with(s.tasks, id, k) && goes_to(s.tasks.remove(k), b, index, at));
    }
}

/// Moving takes the first task with the id out of the list and puts it where it was sent,
/// whatever the list holds; making a task current sends it to the front of Now.
pub proof fn law_the_first_task_with_the_id_is_moved(
    s: StoreView,
    id: u64,
    b: Bucket,
    index: Option<usize>,
    now: u64,
)
    ensures
        forall|m: &mut Store, found: bool|
            (*m)@ == s && #[trigger] call_ensures(Store::move_to_at, (m, id, b, index, now), found)
                ==> found == crate::promises::holds(s, id) && (if found {
                list_moved(s, (*final(m))@, id, b, index, now)
            } else {
                (*final(m))@ == s
            }),
        forall|m: &mut Store, found: bool|
            (*m)@ == s && #[trigger] call_ensures(Store::promote_at, (m, id, now), found)
                ==> found == crate::promises::holds(s, id) && (if found {
                list_moved(s, (*final(m))@, id, Bucket::Now, Some(0), now)
            } else {
                (*final(m))@ == s
            }),
{
    lemma_list_moved(s, id, b, index, now);
    lemma_list_moved(s, id, Bucket::Now, Some(0), now);
}

/// Shifting moves the first task with the id within its bucket, by as many places as asked
/// for but no further than the bucket goes, whatever the list holds. Here `k` is its place
/// in the list, and `from` that in the bucket.
pub proof fn law_the_first_task_with_the_id_is_shifted(
    s: StoreView,
    id: u64,
    delta: i32,
    now: u64,
    k: int,
    from: int,
)
    requires
        s.tasks.len() <= usize::MAX,
        first_with(s.tasks, id, k),
        k < s.tasks.len() ==> first_with(
            s.tasks.filter(|t: TaskView| t.bucket == s.tasks[k].bucket),
            id,
            from,
        ),
    ensures
        forall|m: &mut Store, shifted: bool|
            (*m)@ == s && #[trigger] call_ensures(Store::shift_at, (m, id, delta, now), shifted)
                ==> {
                let there = s.tasks.filter(|t: TaskView| t.bucket == s.tasks[k].bucket);
                let to = if from + delta < 0 {
                    0
                } else if from + delta >= there.len() {
                    there.len() - 1
                } else {
                    from + delta
                };
                &&& shifted == (k < s.tasks.len() && from != to)
                &&& shifted ==> list_moved(
                    s,
                    (*final(m))@,
                    id,
                    s.tasks[k].bucket,
                    Some(to as usize),
                    now,
                )
                &&& !shifted ==> (*final(m))@ == s
            },
{
    lemma_first_with(s.tasks, id);
    if k < s.tasks.len() {
        let b = s.tasks[k].bucket;
        let p = |t: TaskView| t.bucket == s.tasks[k].bucket;
        assert(p =~= order::is_in(b));
        queue::lemma_member_of_bucket(s, id);
        lemma_first_with(s.tasks.filter(p), id);
        lemma_list_moved(s, id, b, Some(s.shift_target(id, delta) as usize), now);
    }
}

// ---- changing a task in place --------------------------------------------------------

/// A tag and a title are given to the first task with the id, in its place, and to nothing
/// else, whatever the list holds.
pub proof fn law_the_first_task_with_the_id_is_changed(
    s: StoreView,
    id: u64,
    tag: Option<Tag>,
    title: &str,
    k: int,
)
    requires
        first_with(s.tasks, id, k),
    ensures
        forall|m: &mut Store, found: bool|
            (*m)@ == s && #[trigger] call_ensures(Store::set_tag, (m, id, tag), found) ==> {
                &&& found == (k < s.tasks.len())
                &&& (*final(m))@.next_id == s.next_id
                &&& (*final(m))@.tasks == (if found {
                    s.tasks.update(k, TaskView { tag, ..s.tasks[k] })
                } else {
                    s.tasks
                })
            },
        forall|m: &mut Store, found: bool|
            (*m)@ == s && #[trigger] call_ensures(Store::cycle_tag, (m, id), found) ==> {
                &&& found == (k < s.tasks.len())
                &&& (*final(m))@.next_id == s.next_id
                &&& (*final(m))@.tasks == (if found {
                    s.tasks.update(
                        k,
                        TaskView {
                            tag: match s.tasks[k].tag {
                                None => Some(Tag::Work),
                                Some(Tag::Work) => Some(Tag::Personal),
                                Some(Tag::Personal) => None,
                            },
                            ..s.tasks[k]
                        },
                    )
                } else {
                    s.tasks
                })
            },
        forall|m: &mut Store, renamed: bool|
            (*m)@ == s && #[trigger] call_ensures(Store::rename, (m, id, title), renamed) ==> {
                &&& (*final(m))@.next_id == s.next_id
                &&& exists|kept: Seq<char>|
                    {
                        &&& #[trigger] is_kept(title@, kept)
                        &&& renamed == (k < s.tasks.len() && kept.len() > 0)
                        &&& (*final(m))@.tasks == (if renamed {
                            s.tasks.update(k, TaskView { title: kept, ..s.tasks[k] })
                        } else {
                            s.tasks
                        })
                    }
            },
{
    lemma_first_with(s.tasks, id);
    crate::promises::law_a_title_is_trimmed_and_cut(title@);
    let kept = queue::bounded(title@);
    assert(is_kept(title@, kept));
    assert forall|m: &mut Store, renamed: bool|
        (*m)@ == s && #[trigger] call_ensures(Store::rename, (m, id, title), renamed) implies (
    *final(m))@.tasks == (if renamed {
        s.tasks.update(k, TaskView { title: kept, ..s.tasks[k] })
    } else {
        s.tasks
    }) && renamed == (k < s.tasks.len() && kept.len() > 0) by {}
}

/// A pause is of the first task with the id of the current one, where that one has a timer,
/// and of nothing else, whatever the list holds.
pub proof fn law_the_timer_with_the_current_id_is_paused(
    s: StoreView,
    now: u64,
    c: int,
    k: int,
)
    requires
        first_of(s.tasks, Bucket::Now, c),
        c < s.tasks.len() ==> first_with(s.tasks, s.tasks[c].id, k),
    ensures
        forall|m: &mut Store, did: bool|
            (*m)@ == s && #[trigger] call_ensures(Store::toggle_pause_at, (m, now), did) ==> {
                &&& did == (c < s.tasks.len() && s.tasks[k].started_at is Some)
                &&& (*final(m))@.next_id == s.next_id
                &&& !did ==> (*final(m))@.tasks == s.tasks
                &&& did && s.tasks[k].paused_at is None ==> (*final(m))@.tasks == s.tasks.update(
                    k,
                    TaskView {
                        paused_at: Some(
                            if now >= s.tasks[k].started_at->0 {
                                now
                            } else {
                                s.tasks[k].started_at->0
                            },
                        ),
                        ..s.tasks[k]
                    },
                )
                &&& did && s.tasks[k].paused_at is Some ==> {
                    let t = s.tasks[k];
                    let gap: int = if now >= t.paused_at->0 {
                        now - t.paused_at->0
                    } else {
                        0
                    };
                    &&& (*final(m))@.tasks == s.tasks.update(
                        k,
                        TaskView {
                            started_at: (*final(m))@.tasks[k].started_at,
                            paused_at: None,
                            ..t
                        },
                    )
                    &&& t.started_at->0 + gap <= u64::MAX ==> (*final(m))@.tasks[k].started_at
                        == Some((t.started_at->0 + gap) as u64)
                }
            },
{
    lemma_first_of(s.tasks, Bucket::Now);
    if c < s.tasks.len() {
        lemma_first_with(s.tasks, s.tasks[c].id);
        queue::lemma_current_is_found(s);
    }
}

// ---- completing and undoing ----------------------------------------------------------

/// Whether completing changed a list so: the first task with the id of the current one is
/// out of it, and where that leaves Now empty, the first of Next is moved to its front.
pub open spec fn list_completed(
    before: StoreView,
    after: StoreView,
    done: CompletedView,
    c: int,
    k: int,
    now: u64,
) -> bool {
    let rest = StoreView { tasks: before.tasks.remove(k), ..before };
    let empty = first_of(rest.tasks, Bucket::Now, rest.tasks.len() as int);
    let none_next = first_of(rest.tasks, Bucket::Next, rest.tasks.len() as int);
    &&& first_with(before.tasks, before.tasks[c].id, k)
    &&& done.task == before.tasks[k]
    &&& if empty && !none_next {
        exists|n: int|
            {
                &&& #[trigger] first_of(rest.tasks, Bucket::Next, n)
                &&& done.pulled == Some(rest.tasks[n].id)
                &&& list_moved(rest, after, rest.tasks[n].id, Bucket::Now, Some(0), now)
            }
    } else {
        done.pulled is None && after.next_id == before.next_id && is_timed(
            rest.tasks,
            after.tasks,
            now,
        )
    }
}

/// Completing changes the list so, whatever it holds.
pub proof fn law_completing_changes_the_list_so(s: StoreView, now: u64, c: int)
    requires
        first_of(s.tasks, Bucket::Now, c),
    ensures
        forall|m: &mut Store, done: Option<Completed>|
            (*m)@ == s && #[trigger] call_ensures(Store::complete_current_at, (m, now), done)
                ==> if c == s.tasks.len() {
                done is None && (*final(m))@ == s
            } else {
                done is Some && exists|k: int| #[trigger]
                    list_completed(s, (*final(m))@, done->0@, c, k, now)
            },
{
    lemma_first_of(s.tasks, Bucket::Now);
    if c < s.tasks.len() {
        queue::lemma_current_is_found(s);
        let id = s.tasks[c].id;
        lemma_first_with(s.tasks, id);
        let k = s.position(id);
        let rest = s.without_current();
        assert(rest == (StoreView { tasks: s.tasks.remove(k), ..s }));
        lemma_first_of(rest.tasks, Bucket::Now);
        lemma_first_of(rest.tasks, Bucket::Next);
        let n = rest.head(Bucket::Next);
        let done = s.completion()->0;
        if done.pulled is Some {
            assert(first_of(rest.tasks, Bucket::Next, n));
            crate::promises::lemma_holds(rest, rest.tasks[n].id);
            assert(rest.tasks[n].id == done.pulled->0);
            lemma_list_moved(rest, done.pulled->0, Bucket::Now, Some(0), now);
        } else {
            lemma_is_timed(rest, now);
        }
        assert(list_completed(s, s.completed(now), done, c, k, now));
    }
}

/// Whether undoing changed a list so: the pulled task, where the first with its id is in
/// Now, is moved to the front of Next, and the completed one put in front of Now.
pub open spec fn list_restored(
    before: StoreView,
    after: StoreView,
    done: CompletedView,
    base: StoreView,
    now: u64,
) -> bool {
    &&& if done.pulled is Some && (exists|k: int| #[trigger]
        first_with(before.tasks, done.pulled->0, k) && k < before.tasks.len()
            && before.tasks[k].bucket == Bucket::Now) {
        list_moved(before, base, done.pulled->0, Bucket::Next, Some(0), now)
    } else {
        base == before
    }
    &&& after.next_id == before.next_id
    &&& exists|h: int| #[trigger]
        first_of(base.tasks, Bucket::Now, h) && is_timed(
            base.tasks.insert(h, TaskView { bucket: Bucket::Now, ..done.task }),
            after.tasks,
            now,
        )
}

/// Undoing changes the list so, whatever it holds, unless a task has the id already.
pub proof fn law_undoing_changes_the_list_so(s: StoreView, done: Completed, now: u64)
    ensures
        forall|m: &mut Store, undone: bool|
            (*m)@ == s && #[trigger] call_ensures(Store::undo_complete_at, (m, done, now), undone)
                ==> undone == !crate::promises::holds(s, done.task.id) && (if undone {
                exists|base: StoreView| #[trigger]
                    list_restored(s, (*final(m))@, done@, base, now)
            } else {
                (*final(m))@ == s
            }),
{
    let d = done@;
    crate::promises::lemma_holds(s, d.task.id);
    if !s.has(d.task.id) {
        let base = crate::laws::restore_base(s, d, now);
        if d.pulled is Some {
            lemma_first_with(s.tasks, d.pulled->0);
            lemma_list_moved(s, d.pulled->0, Bucket::Next, Some(0), now);
        }
        lemma_first_of(base.tasks, Bucket::Now);
        let h = base.head(Bucket::Now);
        assert(first_of(base.tasks, Bucket::Now, h));
        lemma_is_timed(
            StoreView {
                tasks: base.tasks.insert(h, TaskView { bucket: Bucket::Now, ..d.task }),
                ..base
            },
            now,
        );
        assert(list_restored(s, s.restored(d, now), d, base, now));
    }
}

// ---- quick-add -----------------------------------------------------------------------

/// A quick-add adds the task that the line asks for, whatever the list holds: to the front
/// of Now, or behind every task for any other bucket.
pub proof fn law_a_line_is_added_to_the_list(
    s: StoreView,
    input: &str,
    b: Bucket,
    created_at: u64,
    now: u64,
)
    requires
        s.next_id < u64::MAX,
    ensures
        forall|m: &mut Store, id: Option<u64>|
            (*m)@ == s && #[trigger] call_ensures(
                Store::quick_add_at,
                (m, input, b, created_at, now),
                id,
            ) ==> exists|q: Option<crate::quick::QuickAddView>|
                {
                    &&& #[trigger] crate::quick::is_asked(input@, q)
                    &&& match q {
                        None => id is None && (*final(m))@ == s,
                        Some(q) => {
                            let to = match q.bucket {
                                Some(named) => named,
                                None => b,
                            };
                            &&& id == Some(s.next_id)
                            &&& list_added(
                                s,
                                (*final(m))@,
                                q.title,
                                to,
                                q.tag,
                                to == Bucket::Now,
                                created_at,
                                now,
                            )
                        },
                    }
                },
{
    let q = crate::quick::asked(input@);
    crate::quick::law_what_a_line_asks_for(input);
    assert(crate::quick::is_asked(input@, q));
    if q is Some {
        let to = match (q->0).bucket {
            Some(named) => named,
            None => b,
        };
        lemma_list_added(s, (q->0).title, to, (q->0).tag, to == Bucket::Now, created_at, now);
    }
}

// ---- looking -------------------------------------------------------------------------

/// Looking for an id finds the first task with it, whatever the list holds.
pub proof fn law_the_first_task_with_the_id_is_found(store: Store, id: u64, k: int)
    requires
        first_with(store@.tasks, id, k),
    ensures
        forall|found: Option<&Task>| #[trigger]
            call_ensures(Store::get, (&store, id), found) ==> {
                &&& found is Some <==> k < store@.tasks.len()
                &&& found matches Some(t) ==> t@ == store@.tasks[k]
            },
{
    lemma_first_with(store@.tasks, id);
}

} // verus!
