//! What holds of the task store as a whole.

use crate::model::Bucket;
use crate::model::CompletedView;
use crate::model::Tag;
use crate::model::TaskView;
use crate::order;
use crate::queue;
use crate::queue::StoreView;
use vstd::prelude::*;

verus! {

// ---- valid stores --------------------------------------------------------------

/// No two tasks share an id.
pub open spec fn unique_ids(tasks: Seq<TaskView>) -> bool {
    forall|i: int, j: int|
        0 <= i < j < tasks.len() ==> (#[trigger] tasks[i]).id != (#[trigger] tasks[j]).id
}

/// Every task's id was given out before `next_id`.
pub open spec fn ids_below(tasks: Seq<TaskView>, next_id: u64) -> bool {
    forall|i: int| 0 <= i < tasks.len() ==> (#[trigger] tasks[i]).id < next_id
}

/// The current task has a timer, and no other task has one.
pub open spec fn timers_right(s: StoreView) -> bool {
    forall|i: int|
        0 <= i < s.tasks.len() ==> if s.current_id() == Some((#[trigger] s.tasks[i]).id) {
            s.tasks[i].started_at is Some
        } else {
            s.tasks[i] == s.tasks[i].untimed()
        }
}

/// A store as the changes leave it.
pub open spec fn valid(s: StoreView) -> bool {
    &&& unique_ids(s.tasks)
    &&& ids_below(s.tasks, s.next_id)
    &&& timers_right(s)
}

// ---- what the timer rule leaves alone --------------------------------------------

/// The tasks without their timers.
pub open spec fn plain(tasks: Seq<TaskView>) -> Seq<TaskView> {
    tasks.map_values(|t: TaskView| t.untimed())
}

/// Whether a test on tasks looks at nothing of the timer.
pub open spec fn ignores_timer(p: spec_fn(TaskView) -> bool) -> bool {
    forall|t: TaskView| #![trigger p(t.untimed())] p(t.untimed()) == p(t)
}

proof fn lemma_plain_filter(tasks: Seq<TaskView>, p: spec_fn(TaskView) -> bool)
    requires
        ignores_timer(p),
    ensures
        plain(tasks).filter(p) == plain(tasks.filter(p)),
    decreases tasks.len(),
{
    reveal(Seq::filter);
    if tasks.len() == 0 {
        assert(plain(tasks).filter(p) =~= plain(tasks.filter(p)));
    } else {
        let front = tasks.drop_last();
        lemma_plain_filter(front, p);
        assert(plain(tasks).drop_last() =~= plain(front));
        assert(plain(tasks).last() == tasks.last().untimed());
        assert(plain(tasks).filter(p) =~= plain(tasks.filter(p)));
    }
}

/// Two sequences alike but for their timers have the same task first.
pub(crate) proof fn lemma_plain_first(a: Seq<TaskView>, b: Seq<TaskView>, p: spec_fn(TaskView) -> bool)
    requires
        ignores_timer(p),
        plain(a) == plain(b),
    ensures
        a.len() == b.len(),
        order::first_where(a, p) == order::first_where(b, p),
{
    assert(plain(a).len() == a.len());
    assert(plain(b).len() == b.len());
    order::lemma_first_where(b, p);
    let i = order::first_where(b, p);
    assert forall|j: int| 0 <= j < a.len() implies p(#[trigger] a[j]) == p(b[j]) by {
        assert(plain(a)[j] == a[j].untimed());
        assert(plain(b)[j] == b[j].untimed());
        assert(p(a[j].untimed()) == p(a[j]));
        assert(p(b[j].untimed()) == p(b[j]));
    }
    order::lemma_first_where_is(a, p, i);
}

pub(crate) proof fn lemma_ids_ignore_timer(id: u64, bucket: Bucket)
    ensures
        ignores_timer(order::has_id(id)),
        ignores_timer(order::other_id(id)),
        ignores_timer(order::is_in(bucket)),
{
}

pub(crate) proof fn lemma_normalized_plain(s: StoreView, now: u64)
    ensures
        plain(s.normalized(now).tasks) == plain(s.tasks),
        s.normalized(now).current_id() == s.current_id(),
        s.normalized(now).tasks.len() == s.tasks.len(),
{
    let n = s.normalized(now);
    assert(plain(n.tasks) =~= plain(s.tasks));
    lemma_ids_ignore_timer(0, Bucket::Now);
    lemma_plain_first(n.tasks, s.tasks, order::is_in(Bucket::Now));
    order::lemma_first_where(s.tasks, order::is_in(Bucket::Now));
    if s.current() is Some {
        let k = s.head(Bucket::Now);
        assert(plain(n.tasks)[k] == plain(s.tasks)[k]);
    }
}

proof fn lemma_plain_ids(a: Seq<TaskView>, b: Seq<TaskView>, next_id: u64)
    requires
        plain(a) == plain(b),
        unique_ids(a),
    ensures
        unique_ids(b),
        ids_below(a, next_id) ==> ids_below(b, next_id),
{
    assert(plain(a).len() == a.len());
    assert(plain(b).len() == b.len());
    assert forall|i: int| 0 <= i < b.len() implies (#[trigger] b[i]).id == a[i].id by {
        assert(plain(a)[i] == plain(b)[i]);
    }
}

/// The timer rule makes a store valid whose ids are in order.
proof fn lemma_normalized_valid(s: StoreView, now: u64)
    requires
        unique_ids(s.tasks),
        ids_below(s.tasks, s.next_id),
    ensures
        valid(s.normalized(now)),
{
    lemma_normalized_plain(s, now);
    lemma_plain_ids(s.tasks, s.normalized(now).tasks, s.next_id);
}

pub(crate) proof fn lemma_filter_unique(tasks: Seq<TaskView>, p: spec_fn(TaskView) -> bool, next_id: u64)
    requires
        unique_ids(tasks),
    ensures
        unique_ids(tasks.filter(p)),
        ids_below(tasks, next_id) ==> ids_below(tasks.filter(p), next_id),
    decreases tasks.len(),
{
    reveal(Seq::filter);
    if tasks.len() > 0 {
        let front = tasks.drop_last();
        lemma_filter_unique(front, p, next_id);
        let kept = tasks.filter(p);
        let old = front.filter(p);
        order::lemma_filter_all(front, p);
        assert forall|i: int, j: int| 0 <= i < j < kept.len() implies (#[trigger] kept[i]).id != (
        #[trigger] kept[j]).id by {
            if j < old.len() {
                assert(old[i].id != old[j].id);
            } else {
                assert(front.contains(old[i]));
                let k = choose|k: int| 0 <= k < front.len() && front[k] == old[i];
                assert(tasks[k].id != tasks[tasks.len() - 1].id);
            }
        }
        if ids_below(tasks, next_id) {
            assert forall|i: int| 0 <= i < kept.len() implies (#[trigger] kept[i]).id
                < next_id by {
                if i < old.len() {
                    assert(old[i].id < next_id);
                } else {
                    assert(tasks[tasks.len() - 1].id < next_id);
                }
            }
        }
    }
}

proof fn lemma_insert_unique(tasks: Seq<TaskView>, at: int, t: TaskView, next_id: u64)
    requires
        unique_ids(tasks),
        ids_below(tasks, next_id),
        0 <= at <= tasks.len(),
        forall|i: int| 0 <= i < tasks.len() ==> (#[trigger] tasks[i]).id != t.id,
        t.id < next_id,
    ensures
        unique_ids(tasks.insert(at, t)),
        ids_below(tasks.insert(at, t), next_id),
{
    let all = tasks.insert(at, t);
    assert forall|i: int, j: int| 0 <= i < j < all.len() implies (#[trigger] all[i]).id != (
    #[trigger] all[j]).id by {
        let a = if i < at { i } else { i - 1 };
        let b = if j < at { j } else { j - 1 };
        if i != at && j != at {
            assert(tasks[a].id != tasks[b].id);
        } else if i == at {
            assert(all[j] == tasks[b]);
        } else {
            assert(all[i] == tasks[a]);
        }
    }
    assert forall|i: int| 0 <= i < all.len() implies (#[trigger] all[i]).id < next_id by {
        if i < at {
            assert(all[i] == tasks[i]);
        } else if i > at {
            assert(all[i] == tasks[i - 1]);
        }
    }
}

/// Taking out the one task with an id leaves the tasks with other ids.
pub(crate) proof fn lemma_remove_is_filter(tasks: Seq<TaskView>, id: u64)
    requires
        unique_ids(tasks),
        order::first_where(tasks, order::has_id(id)) < tasks.len(),
    ensures
        tasks.remove(order::first_where(tasks, order::has_id(id))) == tasks.filter(
            order::other_id(id),
        ),
{
    let i = order::first_where(tasks, order::has_id(id));
    let p = order::other_id(id);
    order::lemma_first_where(tasks, order::has_id(id));
    let head = tasks.take(i);
    let tail = tasks.skip(i + 1);
    queue::lemma_filter_keeps(head, p);
    assert forall|j: int| 0 <= j < tail.len() implies p(#[trigger] tail[j]) by {
        assert(tail[j] == tasks[i + 1 + j]);
        assert(tasks[i].id != tasks[i + 1 + j].id);
    }
    queue::lemma_filter_keeps(tail, p);
    assert(tasks =~= head.push(tasks[i]) + tail);
    order::lemma_filter_push(head, tasks[i], p);
    order::lemma_filter_add(head.push(tasks[i]), tail, p);
    assert(tasks.remove(i) =~= head + tail);
}

/// Without an id, nothing has it.
proof fn lemma_other_id(tasks: Seq<TaskView>, id: u64)
    ensures
        forall|i: int|
            0 <= i < tasks.filter(order::other_id(id)).len() ==> (#[trigger] tasks.filter(
                order::other_id(id),
            )[i]).id != id,
{
    order::lemma_filter_all(tasks, order::other_id(id));
}

pub proof fn lemma_place_bounds(tasks: Seq<TaskView>, bucket: Bucket, index: Option<usize>)
    ensures
        0 <= queue::place(tasks, bucket, index) <= tasks.len(),
{
    order::lemma_behind_last(tasks, order::is_in(bucket));
    let members = order::bucket_of(tasks, bucket);
    if index is Some && index->0 < members.len() {
        order::lemma_first_where(tasks, order::has_id(members[index->0 as int].id));
    }
}

proof fn lemma_moved_valid(s: StoreView, id: u64, bucket: Bucket, index: Option<usize>, now: u64)
    requires
        unique_ids(s.tasks),
        ids_below(s.tasks, s.next_id),
    ensures
        s.has(id) ==> valid(s.moved(id, bucket, index, now)),
        unique_ids(s.moved(id, bucket, index, now).tasks),
        ids_below(s.moved(id, bucket, index, now).tasks, s.next_id),
        s.moved(id, bucket, index, now).next_id == s.next_id,
{
    if s.has(id) {
        let task = TaskView { bucket, ..s.tasks[s.position(id)] };
        let rest = s.tasks.remove(s.position(id));
        order::lemma_first_where(s.tasks, order::has_id(id));
        lemma_remove_is_filter(s.tasks, id);
        lemma_filter_unique(s.tasks, order::other_id(id), s.next_id);
        lemma_other_id(s.tasks, id);
        lemma_place_bounds(rest, bucket, index);
        assert(s.tasks[s.position(id)].id < s.next_id);
        lemma_insert_unique(rest, queue::place(rest, bucket, index), task, s.next_id);
        lemma_normalized_valid(
            StoreView { tasks: rest.insert(queue::place(rest, bucket, index), task), ..s },
            now,
        );
    }
}

/// Changing a task in place, but not its id, its bucket or whether it has a
/// timer, keeps a store valid.
proof fn lemma_with_task_valid(s: StoreView, id: u64, task: TaskView)
    requires
        valid(s),
        s.has(id),
        task.id == id,
        task.bucket == s.get(id)->0.bucket,
        (task.started_at == s.get(id)->0.started_at && task.paused_at == s.get(id)->0.paused_at)
            || (task.started_at is Some && s.current_id() == Some(id)),
    ensures
        valid(s.with_task(id, task)),
        s.with_task(id, task).current_id() == s.current_id(),
{
    let w = s.with_task(id, task);
    let p = order::is_in(Bucket::Now);
    order::lemma_first_where(s.tasks, order::has_id(id));
    order::lemma_first_where(s.tasks, p);
    let k = s.position(id);
    assert(s.tasks[k].id == id);
    let h = s.head(Bucket::Now);
    assert forall|j: int| 0 <= j < w.tasks.len() implies p(#[trigger] w.tasks[j]) == p(
        s.tasks[j],
    ) && w.tasks[j].id == s.tasks[j].id by {}
    order::lemma_first_where_is(w.tasks, p, h);
    assert(w.current_id() == s.current_id());
    assert forall|i: int| 0 <= i < w.tasks.len() implies if w.current_id() == Some(
        (#[trigger] w.tasks[i]).id,
    ) {
        w.tasks[i].started_at is Some
    } else {
        w.tasks[i] == w.tasks[i].untimed()
    } by {
        assert(s.tasks[i].id == w.tasks[i].id);
    }
}

/// Every change keeps a store valid: no two tasks share an id, every id was
/// given out, and only the current task carries a timer.
pub proof fn law_changes_keep_a_store_valid(
    s: StoreView,
    id: u64,
    title: Seq<char>,
    bucket: Bucket,
    tag: Option<Tag>,
    front: bool,
    index: Option<usize>,
    delta: i32,
    created_at: u64,
    now: u64,
)
    requires
        valid(s),
    ensures
        s.next_id < u64::MAX ==> valid(s.added(title, bucket, tag, front, created_at, now)),
        s.next_id < u64::MAX ==> valid(s.quick_added(title, bucket, created_at, now)),
        valid(s.removed(id, now)),
        valid(s.moved(id, bucket, index, now)),
        valid(s.promoted(id, now)),
        valid(s.shifted(id, delta, now)),
        valid(s.tagged(id, tag)),
        valid(s.tag_cycled(id)),
        valid(s.renamed(id, title)),
        valid(s.pause_toggled(now)),
        valid(s.completed(now)),
{
    if s.next_id < u64::MAX {
        lemma_added_valid(s, title, bucket, tag, front, created_at, now);
        match crate::quick::asked(title) {
            None => {},
            Some(q) => {
                let b = match q.bucket {
                    Some(b) => b,
                    None => bucket,
                };
                lemma_added_valid(s, q.title, b, q.tag, b == Bucket::Now, created_at, now);
            },
        }
    }
    if s.has(id) {
        lemma_filter_unique(s.tasks, order::other_id(id), s.next_id);
        lemma_normalized_valid(
            StoreView { tasks: s.tasks.filter(order::other_id(id)), ..s },
            now,
        );
    }
    lemma_moved_valid(s, id, bucket, index, now);
    lemma_moved_valid(s, id, Bucket::Now, Some(0), now);
    if s.shifts(id, delta) {
        lemma_moved_valid(
            s,
            id,
            s.get(id)->0.bucket,
            Some(s.shift_target(id, delta) as usize),
            now,
        );
    }
    if s.has(id) {
        order::lemma_first_where(s.tasks, order::has_id(id));
        lemma_with_task_valid(s, id, TaskView { tag, ..s.get(id)->0 });
        lemma_with_task_valid(s, id, TaskView { tag: Tag::after(s.get(id)->0.tag), ..s.get(id)->0 });
        lemma_with_task_valid(s, id, TaskView { title: queue::bounded(title), ..s.get(id)->0 });
    }
    if s.can_pause() {
        let cur = s.current_id()->0;
        order::lemma_first_where(s.tasks, order::has_id(cur));
        lemma_with_task_valid(s, cur, queue::toggled(s.timer()->0, now));
    }
    if s.completion() is Some {
        let cur = s.current_id()->0;
        queue::lemma_current_is_found(s);
        order::lemma_first_where(s.tasks, order::has_id(cur));
        lemma_remove_is_filter(s.tasks, cur);
        lemma_filter_unique(s.tasks, order::other_id(cur), s.next_id);
        let rest = s.without_current();
        lemma_normalized_valid(rest, now);
        match s.completion()->0.pulled {
            Some(next) => {
                order::lemma_first_where(rest.tasks, order::is_in(Bucket::Next));
                lemma_has(rest.tasks, rest.head(Bucket::Next));
                lemma_moved_valid(rest, next, Bucket::Now, Some(0), now);
            },
            None => {},
        }
    }
}

proof fn lemma_added_valid(
    s: StoreView,
    title: Seq<char>,
    bucket: Bucket,
    tag: Option<Tag>,
    front: bool,
    created_at: u64,
    now: u64,
)
    requires
        valid(s),
        s.next_id < u64::MAX,
    ensures
        valid(s.added(title, bucket, tag, front, created_at, now)),
{
    let task = TaskView {
        id: s.next_id,
        title: queue::bounded(title),
        bucket,
        tag,
        created_at,
        started_at: None,
        paused_at: None,
    };
    let next = (s.next_id + 1) as u64;
    order::lemma_first_where(s.tasks, order::is_in(bucket));
    let at = if front {
        s.head(bucket)
    } else {
        s.tasks.len() as int
    };
    lemma_insert_unique(s.tasks, at, task, next);
    if !front {
        assert(s.tasks.insert(at, task) =~= s.tasks.push(task));
    }
    lemma_normalized_valid(StoreView { next_id: next, tasks: s.tasks.insert(at, task) }, now);
}

/// A task in the sequence is found by its id.
proof fn lemma_has(tasks: Seq<TaskView>, i: int)
    requires
        0 <= i < tasks.len(),
    ensures
        order::first_where(tasks, order::has_id(tasks[i].id)) <= i,
{
    let id = tasks[i].id;
    order::lemma_first_where(tasks, order::has_id(id));
    if order::first_where(tasks, order::has_id(id)) > i {
        assert(!order::has_id(id)(tasks[i]));
    }
}

/// A new store is valid.
pub proof fn law_new_store_is_valid()
    ensures
        valid(StoreView { next_id: 1, tasks: Seq::empty() }),
{
}

// ---- the order within the buckets ------------------------------------------------

/// The tasks of a bucket without one of them.
pub open spec fn bucket_without(s: StoreView, bucket: Bucket, id: u64) -> Seq<TaskView> {
    s.in_bucket(bucket).filter(order::other_id(id))
}

/// A place counted within a bucket, no further than its end.
pub open spec fn place_within(index: Option<usize>, len: nat) -> int {
    if index is Some && index->0 < len {
        index->0 as int
    } else {
        len as int
    }
}

proof fn lemma_filters_commute(
    tasks: Seq<TaskView>,
    p: spec_fn(TaskView) -> bool,
    q: spec_fn(TaskView) -> bool,
)
    ensures
        tasks.filter(p).filter(q) == tasks.filter(q).filter(p),
    decreases tasks.len(),
{
    reveal(Seq::filter);
    if tasks.len() > 0 {
        let front = tasks.drop_last();
        let t = tasks.last();
        lemma_filters_commute(front, p, q);
        order::lemma_filter_push(front.filter(p), t, q);
        order::lemma_filter_push(front.filter(q), t, p);
    }
}

pub(crate) proof fn lemma_insert_filter(
    tasks: Seq<TaskView>,
    at: int,
    t: TaskView,
    p: spec_fn(TaskView) -> bool,
)
    requires
        0 <= at <= tasks.len(),
    ensures
        tasks.take(at).filter(p).len() <= tasks.filter(p).len(),
        tasks.insert(at, t).filter(p) == if p(t) {
            tasks.filter(p).insert(tasks.take(at).filter(p).len() as int, t)
        } else {
            tasks.filter(p)
        },
{
    let a = tasks.take(at);
    let b = tasks.skip(at);
    assert(tasks =~= a + b);
    assert(tasks.insert(at, t) =~= a.push(t) + b);
    order::lemma_filter_add(a, b, p);
    order::lemma_filter_push(a, t, p);
    order::lemma_filter_add(a.push(t), b, p);
    if p(t) {
        assert(a.filter(p).push(t) + b.filter(p) =~= (a.filter(p) + b.filter(p)).insert(
            a.filter(p).len() as int,
            t,
        ));
    }
}

/// The tasks of the bucket before the place where a task joins it.
proof fn lemma_place_rank(tasks: Seq<TaskView>, bucket: Bucket, index: Option<usize>)
    requires
        unique_ids(tasks),
    ensures
        0 <= queue::place(tasks, bucket, index) <= tasks.len(),
        tasks.take(queue::place(tasks, bucket, index)).filter(order::is_in(bucket)).len()
            == place_within(index, order::bucket_of(tasks, bucket).len()),
{
    let p = order::is_in(bucket);
    let members = order::bucket_of(tasks, bucket);
    lemma_place_bounds(tasks, bucket, index);
    let at = queue::place(tasks, bucket, index);
    let a = tasks.take(at);
    let b = tasks.skip(at);
    assert(tasks =~= a + b);
    order::lemma_filter_add(a, b, p);
    if index is Some && index->0 < members.len() {
        let i = index->0 as int;
        let id = members[i].id;
        order::lemma_filter_all(tasks, p);
        assert(tasks.contains(members[i]));
        let k = choose|k: int| 0 <= k < tasks.len() && tasks[k] == members[i];
        lemma_has(tasks, k);
        order::lemma_first_where(tasks, order::has_id(id));
        if at != k {
            assert(tasks[at].id != tasks[k].id);
        }
        assert(tasks[at] == members[i]);
        assert(b[0] == tasks[at]);
        let rest = b.skip(1);
        assert(b =~= seq![b[0]] + rest);
        order::lemma_filter_add(seq![b[0]], rest, p);
        order::lemma_filter_none(Seq::<TaskView>::empty(), p);
        order::lemma_filter_push(Seq::<TaskView>::empty(), b[0], p);
        assert(Seq::<TaskView>::empty().push(b[0]) =~= seq![b[0]]);
        let n = a.filter(p).len() as int;
        assert(members[n] == b[0]);
        lemma_filter_unique(tasks, p, 0);
        if n != i {
            if n < i {
                assert(members[n].id != members[i].id);
            } else {
                assert(members[i].id != members[n].id);
            }
        }
    } else {
        order::lemma_behind_last(tasks, p);
        assert forall|j: int| 0 <= j < b.len() implies !p(#[trigger] b[j]) by {
            assert(b[j] == tasks[at + j]);
        }
        order::lemma_filter_none(b, p);
        assert(a.filter(p) + b.filter(p) =~= a.filter(p));
    }
}

/// Moving a task puts it at the asked place of its new bucket, or at the end,
/// and leaves the order of every bucket otherwise alone. Nothing of any task
/// changes but the bucket of the moved one and the timers.
pub proof fn law_move_keeps_the_order(
    s: StoreView,
    id: u64,
    bucket: Bucket,
    index: Option<usize>,
    now: u64,
    other: Bucket,
)
    requires
        unique_ids(s.tasks),
        s.has(id),
    ensures
        plain(s.moved(id, bucket, index, now).in_bucket(bucket)) == plain(
            bucket_without(s, bucket, id).insert(
                place_within(index, bucket_without(s, bucket, id).len()),
                TaskView { bucket, ..s.get(id)->0 },
            ),
        ),
        other != bucket ==> plain(s.moved(id, bucket, index, now).in_bucket(other)) == plain(
            bucket_without(s, other, id),
        ),
{
    let task = TaskView { bucket, ..s.tasks[s.position(id)] };
    let rest = s.tasks.remove(s.position(id));
    order::lemma_first_where(s.tasks, order::has_id(id));
    lemma_remove_is_filter(s.tasks, id);
    lemma_filter_unique(s.tasks, order::other_id(id), 0);
    lemma_filters_commute(s.tasks, order::is_in(bucket), order::other_id(id));
    lemma_filters_commute(s.tasks, order::is_in(other), order::other_id(id));
    lemma_place_rank(rest, bucket, index);
    let at = queue::place(rest, bucket, index);
    lemma_insert_filter(rest, at, task, order::is_in(bucket));
    lemma_insert_filter(rest, at, task, order::is_in(other));
    let placed = StoreView { tasks: rest.insert(at, task), ..s };
    lemma_normalized_buckets(placed, now, bucket);
    lemma_normalized_buckets(placed, now, other);
}

pub(crate) proof fn lemma_normalized_buckets(s: StoreView, now: u64, bucket: Bucket)
    ensures
        plain(s.normalized(now).in_bucket(bucket)) == plain(s.in_bucket(bucket)),
{
    lemma_normalized_plain(s, now);
    lemma_ids_ignore_timer(0, bucket);
    lemma_plain_filter(s.tasks, order::is_in(bucket));
    lemma_plain_filter(s.normalized(now).tasks, order::is_in(bucket));
}

/// A bucket's first task, and the bucket's tasks from the second on.
proof fn lemma_first_is_head(s: StoreView, bucket: Bucket)
    ensures
        s.first(bucket) == if s.in_bucket(bucket).len() > 0 {
            Some(s.in_bucket(bucket)[0])
        } else {
            None
        },
{
    order::lemma_filter_head(s.tasks, order::is_in(bucket));
    order::lemma_first_where(s.tasks, order::is_in(bucket));
}

/// The current task is the first of Now.
pub proof fn law_current_is_the_head_of_now(s: StoreView)
    ensures
        s.current() == if s.in_bucket(Bucket::Now).len() > 0 {
            Some(s.in_bucket(Bucket::Now)[0])
        } else {
            None
        },
{
    lemma_first_is_head(s, Bucket::Now);
}

/// Promoting a task puts it first in Now, with the tasks that were in Now behind
/// it in their order.
pub proof fn law_promote_puts_a_task_first(s: StoreView, id: u64, now: u64)
    requires
        unique_ids(s.tasks),
        s.has(id),
    ensures
        s.promoted(id, now).current_id() == Some(id),
        plain(s.promoted(id, now).in_bucket(Bucket::Now)) == plain(
            seq![TaskView { bucket: Bucket::Now, ..s.get(id)->0 }] + bucket_without(
                s,
                Bucket::Now,
                id,
            ),
        ),
{
    law_move_keeps_the_order(s, id, Bucket::Now, Some(0), now, Bucket::Now);
    let others = bucket_without(s, Bucket::Now, id);
    let task = TaskView { bucket: Bucket::Now, ..s.get(id)->0 };
    assert(others.insert(0, task) =~= seq![task] + others);
    let after = s.promoted(id, now);
    lemma_first_is_head(after, Bucket::Now);
    order::lemma_first_where(s.tasks, order::has_id(id));
    let members = after.in_bucket(Bucket::Now);
    assert(plain(members).len() == members.len());
    assert(plain(members)[0] == members[0].untimed());
    assert(plain(seq![task] + others)[0] == task.untimed());
}

/// Whether the current task's timer is right behind a change at a time: a task that
/// became current has a new timer, with no pause, and one that stayed current has
/// the timer that it had.
pub open spec fn timer_follows(before: StoreView, after: StoreView, now: u64) -> bool {
    after.current() matches Some(t) ==> if before.current_id() == Some(t.id) {
        t.started_at == before.current()->0.started_at && t.paused_at
            == before.current()->0.paused_at
    } else {
        t.started_at == Some(now) && t.paused_at is None
    }
}

/// Whether a task carries the timer that its id has in a store.
pub open spec fn carries(s: StoreView, t: TaskView) -> bool {
    if s.current_id() == Some(t.id) {
        t.started_at == s.current()->0.started_at && t.paused_at == s.current()->0.paused_at
    } else {
        t == t.untimed()
    }
}

/// The tasks of a valid store carry their timers.
proof fn lemma_tasks_carry(s: StoreView)
    requires
        valid(s),
    ensures
        forall|i: int| 0 <= i < s.tasks.len() ==> carries(s, #[trigger] s.tasks[i]),
{
    order::lemma_first_where(s.tasks, order::is_in(Bucket::Now));
    let c = s.head(Bucket::Now);
    assert forall|i: int| 0 <= i < s.tasks.len() implies carries(s, #[trigger] s.tasks[i]) by {
        if s.current_id() == Some(s.tasks[i].id) {
            if c < i {
                assert(s.tasks[c].id != s.tasks[i].id);
            } else if i < c {
                assert(s.tasks[i].id != s.tasks[c].id);
            }
        }
    }
}

/// The timer rule on tasks that carry their timers.
proof fn lemma_timer_follows(s: StoreView, placed: StoreView, now: u64)
    requires
        valid(s),
        forall|i: int| 0 <= i < placed.tasks.len() ==> carries(s, #[trigger] placed.tasks[i]),
    ensures
        timer_follows(s, placed.normalized(now), now),
{
    let p = order::is_in(Bucket::Now);
    lemma_normalized_plain(placed, now);
    lemma_ids_ignore_timer(0, Bucket::Now);
    lemma_plain_first(placed.normalized(now).tasks, placed.tasks, p);
    order::lemma_first_where(placed.tasks, p);
    order::lemma_first_where(s.tasks, p);
    let h = placed.head(Bucket::Now);
    if h < placed.tasks.len() {
        assert(carries(s, placed.tasks[h]));
        if s.current() is Some {
            assert(s.tasks[s.head(Bucket::Now)].started_at is Some);
        }
    }
}

/// Moving a task of those that carry their timers.
proof fn lemma_moved_follows(
    s: StoreView,
    from: StoreView,
    id: u64,
    bucket: Bucket,
    index: Option<usize>,
    now: u64,
)
    requires
        valid(s),
        from.has(id),
        forall|i: int| 0 <= i < from.tasks.len() ==> carries(s, #[trigger] from.tasks[i]),
    ensures
        timer_follows(s, from.moved(id, bucket, index, now), now),
{
    order::lemma_first_where(from.tasks, order::has_id(id));
    let task = TaskView { bucket, ..from.tasks[from.position(id)] };
    let rest = from.tasks.remove(from.position(id));
    let at = queue::place(rest, bucket, index);
    lemma_place_bounds(rest, bucket, index);
    let placed = StoreView { tasks: rest.insert(at, task), ..from };
    assert forall|i: int| 0 <= i < rest.len() implies carries(s, #[trigger] rest[i]) by {
        if i < from.position(id) {
            assert(rest[i] == from.tasks[i]);
        } else {
            assert(rest[i] == from.tasks[i + 1]);
        }
    }
    assert forall|i: int| 0 <= i < placed.tasks.len() implies carries(
        s,
        #[trigger] placed.tasks[i],
    ) by {
        if i < at {
            assert(placed.tasks[i] == rest[i]);
        } else if i > at {
            assert(placed.tasks[i] == rest[i - 1]);
        } else {
            assert(carries(s, from.tasks[from.position(id)]));
        }
    }
    lemma_timer_follows(s, placed, now);
}

/// Adding a task to a valid store.
proof fn lemma_added_follows(
    s: StoreView,
    title: Seq<char>,
    bucket: Bucket,
    tag: Option<Tag>,
    front: bool,
    created_at: u64,
    now: u64,
)
    requires
        valid(s),
    ensures
        timer_follows(s, s.added(title, bucket, tag, front, created_at, now), now),
{
    let task = TaskView {
        id: s.next_id,
        title: queue::bounded(title),
        bucket,
        tag,
        created_at,
        started_at: None,
        paused_at: None,
    };
    order::lemma_first_where(s.tasks, order::is_in(bucket));
    order::lemma_first_where(s.tasks, order::is_in(Bucket::Now));
    let at = if front {
        s.head(bucket)
    } else {
        s.tasks.len() as int
    };
    let placed = StoreView {
        next_id: (s.next_id + 1) as u64,
        tasks: if front {
            s.tasks.insert(at, task)
        } else {
            s.tasks.push(task)
        },
    };
    lemma_tasks_carry(s);
    assert forall|i: int| 0 <= i < placed.tasks.len() implies carries(
        s,
        #[trigger] placed.tasks[i],
    ) by {
        if i < at {
            assert(placed.tasks[i] == s.tasks[i]);
        } else if i > at {
            assert(placed.tasks[i] == s.tasks[i - 1]);
        } else if s.current() is Some {
            assert(s.tasks[s.head(Bucket::Now)].id < s.next_id);
        }
    }
    lemma_timer_follows(s, placed, now);
}

/// Removing a task from a valid store.
proof fn lemma_removed_follows(s: StoreView, id: u64, now: u64)
    requires
        valid(s),
    ensures
        timer_follows(s, s.removed(id, now), now),
{
    if s.has(id) {
        let left = StoreView { tasks: s.tasks.filter(order::other_id(id)), ..s };
        lemma_tasks_carry(s);
        order::lemma_filter_all(s.tasks, order::other_id(id));
        assert forall|i: int| 0 <= i < left.tasks.len() implies carries(
            s,
            #[trigger] left.tasks[i],
        ) by {
            assert(s.tasks.contains(left.tasks[i]));
        }
        lemma_timer_follows(s, left, now);
    }
}

/// Completing the current task of a valid store.
proof fn lemma_completed_follows(s: StoreView, now: u64)
    requires
        valid(s),
    ensures
        timer_follows(s, s.completed(now), now),
{
    if s.completion() is Some {
        let cur = s.current_id()->0;
        queue::lemma_current_is_found(s);
        order::lemma_first_where(s.tasks, order::has_id(cur));
        lemma_tasks_carry(s);
        let rest = s.without_current();
        let at = s.position(cur);
        assert forall|i: int| 0 <= i < rest.tasks.len() implies carries(
            s,
            #[trigger] rest.tasks[i],
        ) by {
            if i < at {
                assert(rest.tasks[i] == s.tasks[i]);
            } else {
                assert(rest.tasks[i] == s.tasks[i + 1]);
            }
        }
        match s.completion()->0.pulled {
            Some(next) => {
                order::lemma_first_where(rest.tasks, order::is_in(Bucket::Next));
                lemma_has(rest.tasks, rest.head(Bucket::Next));
                lemma_moved_follows(s, rest, next, Bucket::Now, Some(0), now);
            },
            None => lemma_timer_follows(s, rest, now),
        }
    }
}

/// Changing a task in place leaves the current task current.
proof fn lemma_in_place_keeps_current(
    s: StoreView,
    id: u64,
    title: Seq<char>,
    tag: Option<Tag>,
    now: u64,
)
    requires
        valid(s),
    ensures
        s.tagged(id, tag).current_id() == s.current_id(),
        s.tag_cycled(id).current_id() == s.current_id(),
        s.renamed(id, title).current_id() == s.current_id(),
        s.pause_toggled(now).current_id() == s.current_id(),
{
    if s.has(id) {
        order::lemma_first_where(s.tasks, order::has_id(id));
        lemma_with_task_valid(s, id, TaskView { tag, ..s.get(id)->0 });
        lemma_with_task_valid(s, id, TaskView { tag: Tag::after(s.get(id)->0.tag), ..s.get(id)->0 });
        lemma_with_task_valid(s, id, TaskView { title: queue::bounded(title), ..s.get(id)->0 });
    }
    if s.can_pause() {
        let cur = s.current_id()->0;
        order::lemma_first_where(s.tasks, order::has_id(cur));
        lemma_with_task_valid(s, cur, queue::toggled(s.timer()->0, now));
    }
}

/// A task that becomes current starts a new timer, with no pause, whatever made it
/// current; one that stays current keeps its timer; and every task that is not
/// current has none. Tags, titles and pauses leave the current task current.
pub proof fn law_becoming_current_starts_the_timer(
    s: StoreView,
    id: u64,
    title: Seq<char>,
    bucket: Bucket,
    tag: Option<Tag>,
    front: bool,
    index: Option<usize>,
    delta: i32,
    created_at: u64,
    now: u64,
)
    requires
        valid(s),
    ensures
        timer_follows(s, s.added(title, bucket, tag, front, created_at, now), now),
        timer_follows(s, s.quick_added(title, bucket, created_at, now), now),
        timer_follows(s, s.removed(id, now), now),
        timer_follows(s, s.moved(id, bucket, index, now), now),
        timer_follows(s, s.promoted(id, now), now),
        timer_follows(s, s.shifted(id, delta, now), now),
        timer_follows(s, s.completed(now), now),
        s.tagged(id, tag).current_id() == s.current_id(),
        s.tag_cycled(id).current_id() == s.current_id(),
        s.renamed(id, title).current_id() == s.current_id(),
        s.pause_toggled(now).current_id() == s.current_id(),
        timers_right(s.removed(id, now)),
        timers_right(s.moved(id, bucket, index, now)),
        timers_right(s.promoted(id, now)),
        timers_right(s.shifted(id, delta, now)),
        timers_right(s.completed(now)),
        s.next_id < u64::MAX ==> timers_right(
            s.added(title, bucket, tag, front, created_at, now),
        ),
        s.next_id < u64::MAX ==> timers_right(s.quick_added(title, bucket, created_at, now)),
{
    law_changes_keep_a_store_valid(s, id, title, bucket, tag, front, index, delta, created_at, now);
    lemma_tasks_carry(s);
    assert(timer_follows(s, s, now));
    lemma_added_follows(s, title, bucket, tag, front, created_at, now);
    match crate::quick::asked(title) {
        None => {},
        Some(q) => {
            let b = match q.bucket {
                Some(b) => b,
                None => bucket,
            };
            lemma_added_follows(s, q.title, b, q.tag, b == Bucket::Now, created_at, now);
        },
    }
    lemma_removed_follows(s, id, now);
    if s.has(id) {
        lemma_moved_follows(s, s, id, bucket, index, now);
        lemma_moved_follows(s, s, id, Bucket::Now, Some(0), now);
    }
    if s.shifts(id, delta) {
        lemma_moved_follows(
            s,
            s,
            id,
            s.get(id)->0.bucket,
            Some(s.shift_target(id, delta) as usize),
            now,
        );
    }
    lemma_completed_follows(s, now);
    lemma_in_place_keeps_current(s, id, title, tag, now);
}

// ---- completing and undoing --------------------------------------------------------

/// A bucket that does not hold the task is the same without it.
pub(crate) proof fn lemma_without_elsewhere(s: StoreView, id: u64, bucket: Bucket)
    requires
        unique_ids(s.tasks),
        s.has(id) ==> s.get(id)->0.bucket != bucket,
    ensures
        bucket_without(s, bucket, id) == s.in_bucket(bucket),
{
    let members = s.in_bucket(bucket);
    order::lemma_filter_all(s.tasks, order::is_in(bucket));
    order::lemma_first_where(s.tasks, order::has_id(id));
    assert forall|i: int| 0 <= i < members.len() implies order::other_id(id)(
        #[trigger] members[i],
    ) by {
        assert(s.tasks.contains(members[i]));
        let k = choose|k: int| 0 <= k < s.tasks.len() && s.tasks[k] == members[i];
        if members[i].id == id {
            lemma_has(s.tasks, k);
            if k != s.position(id) {
                assert(s.tasks[s.position(id)].id != s.tasks[k].id);
            }
        }
    }
    queue::lemma_filter_keeps(members, order::other_id(id));
}

/// A bucket without its first task.
proof fn lemma_without_head(s: StoreView, bucket: Bucket)
    requires
        unique_ids(s.tasks),
        s.in_bucket(bucket).len() > 0,
    ensures
        bucket_without(s, bucket, s.in_bucket(bucket)[0].id) == s.in_bucket(bucket).drop_first(),
{
    let members = s.in_bucket(bucket);
    let id = members[0].id;
    let tail = members.drop_first();
    let p = order::other_id(id);
    lemma_filter_unique(s.tasks, order::is_in(bucket), 0);
    assert forall|i: int| 0 <= i < tail.len() implies p(#[trigger] tail[i]) by {
        assert(tail[i] == members[i + 1]);
        assert(members[0].id != members[i + 1].id);
    }
    queue::lemma_filter_keeps(tail, p);
    order::lemma_filter_none(Seq::<TaskView>::empty(), p);
    order::lemma_filter_push(Seq::<TaskView>::empty(), members[0], p);
    let head = Seq::<TaskView>::empty().push(members[0]);
    assert(members =~= head + tail);
    order::lemma_filter_add(head, tail, p);
    assert(Seq::<TaskView>::empty() + tail =~= tail);
}

/// The position of a task in a store with unique ids.
pub(crate) proof fn lemma_position(s: StoreView, i: int)
    requires
        unique_ids(s.tasks),
        0 <= i < s.tasks.len(),
    ensures
        s.position(s.tasks[i].id) == i,
        s.has(s.tasks[i].id),
        s.get(s.tasks[i].id) == Some(s.tasks[i]),
{
    let id = s.tasks[i].id;
    lemma_has(s.tasks, i);
    order::lemma_first_where(s.tasks, order::has_id(id));
    if s.position(id) < i {
        assert(s.tasks[s.position(id)].id != s.tasks[i].id);
    }
}

/// The store without its current task, bucket by bucket.
proof fn lemma_without_current(s: StoreView, bucket: Bucket)
    requires
        unique_ids(s.tasks),
        ids_below(s.tasks, s.next_id),
        s.current() is Some,
    ensures
        unique_ids(s.without_current().tasks),
        ids_below(s.without_current().tasks, s.next_id),
        s.get(s.current_id()->0) == s.current(),
        s.in_bucket(Bucket::Now).len() > 0,
        s.in_bucket(Bucket::Now)[0] == s.current()->0,
        s.without_current().in_bucket(bucket) == if bucket == Bucket::Now {
            s.in_bucket(Bucket::Now).drop_first()
        } else {
            s.in_bucket(bucket)
        },
        !s.without_current().has(s.current_id()->0),
{
    let id = s.current_id()->0;
    order::lemma_first_where(s.tasks, order::is_in(Bucket::Now));
    lemma_position(s, s.head(Bucket::Now));
    lemma_first_is_head(s, Bucket::Now);
    lemma_remove_is_filter(s.tasks, id);
    lemma_filter_unique(s.tasks, order::other_id(id), s.next_id);
    lemma_filters_commute(s.tasks, order::is_in(bucket), order::other_id(id));
    if bucket == Bucket::Now {
        lemma_without_head(s, bucket);
    } else {
        lemma_without_elsewhere(s, id, bucket);
    }
    let rest = s.without_current();
    lemma_other_id(s.tasks, id);
    order::lemma_first_where(rest.tasks, order::has_id(id));
}

/// What completing the current task does to a bucket, timers aside: Now loses its
/// first task; where that leaves it empty, the first task of Next becomes the one
/// task of Now. Nothing else moves.
pub open spec fn bucket_after_completion(s: StoreView, bucket: Bucket) -> Seq<TaskView> {
    let now = s.in_bucket(Bucket::Now);
    let next = s.in_bucket(Bucket::Next);
    let pulls = now.len() == 1 && next.len() > 0;
    match bucket {
        Bucket::Now => if pulls {
            seq![TaskView { bucket: Bucket::Now, ..next[0] }]
        } else {
            now.drop_first()
        },
        Bucket::Next => if pulls {
            next.drop_first()
        } else {
            next
        },
        _ => s.in_bucket(bucket),
    }
}

/// Completing deletes the current task for good, and pulls the first task of
/// Next exactly where Now would be left empty.
pub proof fn law_completing_pulls_from_next(s: StoreView, now: u64, bucket: Bucket)
    requires
        valid(s),
        s.current() is Some,
    ensures
        s.completion() is Some,
        s.completion()->0.task == s.current()->0,
        s.completion()->0.pulled == if s.in_bucket(Bucket::Now).len() == 1 && s.in_bucket(
            Bucket::Next,
        ).len() > 0 {
            Some(s.in_bucket(Bucket::Next)[0].id)
        } else {
            None
        },
        plain(s.completed(now).in_bucket(bucket)) == plain(bucket_after_completion(s, bucket)),
        !s.completed(now).has(s.current_id()->0),
        s.completed(now).next_id == s.next_id,
{
    let id = s.current_id()->0;
    let rest = s.without_current();
    lemma_without_current(s, Bucket::Now);
    lemma_without_current(s, Bucket::Next);
    lemma_without_current(s, bucket);
    lemma_first_is_head(rest, Bucket::Now);
    lemma_first_is_head(rest, Bucket::Next);
    let done = s.completion()->0;
    match done.pulled {
        Some(next) => {
            order::lemma_first_where(rest.tasks, order::is_in(Bucket::Next));
            lemma_position(rest, rest.head(Bucket::Next));
            law_move_keeps_the_order(rest, next, Bucket::Now, Some(0), now, bucket);
            lemma_without_head(rest, Bucket::Next);
            lemma_without_elsewhere(rest, next, Bucket::Now);
            if bucket != Bucket::Next {
                lemma_without_elsewhere(rest, next, bucket);
            }
            let task = TaskView { bucket: Bucket::Now, ..rest.get(next)->0 };
            assert(rest.in_bucket(Bucket::Now) =~= Seq::empty());
            assert(rest.in_bucket(Bucket::Now).insert(0, task) =~= seq![task]);
            lemma_moved_has(rest, next, Bucket::Now, Some(0), now, id);
        },
        None => {
            lemma_normalized_buckets(rest, now, bucket);
            lemma_normalized_plain(rest, now);
            lemma_ids_ignore_timer(id, bucket);
            lemma_plain_first(rest.normalized(now).tasks, rest.tasks, order::has_id(id));
        },
    }
}

/// Moving a task changes nothing of which ids there are.
proof fn lemma_moved_has(
    s: StoreView,
    id: u64,
    bucket: Bucket,
    index: Option<usize>,
    now: u64,
    x: u64,
)
    requires
        unique_ids(s.tasks),
        s.has(id),
    ensures
        s.moved(id, bucket, index, now).has(x) == s.has(x),
{
    let task = TaskView { bucket, ..s.tasks[s.position(id)] };
    let pos = s.position(id);
    let rest = s.tasks.remove(pos);
    let at = queue::place(rest, bucket, index);
    lemma_place_bounds(rest, bucket, index);
    order::lemma_first_where(s.tasks, order::has_id(id));
    let all = rest.insert(at, task);
    let placed = StoreView { tasks: all, ..s };
    lemma_normalized_plain(placed, now);
    lemma_ids_ignore_timer(x, bucket);
    lemma_plain_first(placed.normalized(now).tasks, all, order::has_id(x));
    order::lemma_first_where(s.tasks, order::has_id(x));
    order::lemma_first_where(all, order::has_id(x));
    if s.has(x) {
        let k = s.position(x);
        let r = if k < pos { k } else { k - 1 };
        let j = if k == pos {
            at
        } else if r < at {
            r
        } else {
            r + 1
        };
        assert(all[j].id == x);
        lemma_has(all, j);
    }
    if placed.has(x) {
        let j = placed.position(x);
        let r = if j < at { j } else { j - 1 };
        let k = if j == at {
            pos
        } else if r < pos {
            r
        } else {
            r + 1
        };
        assert(s.tasks[k].id == x);
        lemma_has(s.tasks, k);
    }
}

/// Two valid stores whose current tasks agree, and which are alike but for their
/// timers, hold the same tasks in a bucket.
proof fn lemma_same_but_timers(a: StoreView, b: StoreView, bucket: Bucket)
    requires
        timers_right(a),
        timers_right(b),
        a.current() == b.current(),
        unique_ids(a.tasks),
        unique_ids(b.tasks),
        plain(a.in_bucket(bucket)) == plain(b.in_bucket(bucket)),
    ensures
        a.in_bucket(bucket) == b.in_bucket(bucket),
{
    let x = a.in_bucket(bucket);
    let y = b.in_bucket(bucket);
    let p = order::is_in(bucket);
    assert(plain(x).len() == x.len());
    assert(plain(y).len() == y.len());
    order::lemma_filter_all(a.tasks, p);
    order::lemma_filter_all(b.tasks, p);
    order::lemma_first_where(a.tasks, order::is_in(Bucket::Now));
    order::lemma_first_where(b.tasks, order::is_in(Bucket::Now));
    assert forall|i: int| 0 <= i < x.len() implies x[i] == y[i] by {
        assert(plain(x)[i] == x[i].untimed());
        assert(plain(y)[i] == y[i].untimed());
        assert(a.tasks.contains(x[i]));
        assert(b.tasks.contains(y[i]));
        let j = choose|j: int| 0 <= j < a.tasks.len() && a.tasks[j] == x[i];
        let k = choose|k: int| 0 <= k < b.tasks.len() && b.tasks[k] == y[i];
        if a.current_id() == Some(x[i].id) {
            lemma_position(a, j);
            lemma_position(b, k);
            lemma_position(a, a.head(Bucket::Now));
            lemma_position(b, b.head(Bucket::Now));
        } else {
            assert(a.tasks[j] == a.tasks[j].untimed());
            assert(b.tasks[k] == b.tasks[k].untimed());
        }
    }
    assert(x =~= y);
}

pub(crate) proof fn lemma_restored_valid(s: StoreView, done: CompletedView, now: u64)
    requires
        unique_ids(s.tasks),
        ids_below(s.tasks, s.next_id),
        done.task.id < s.next_id,
        !s.has(done.task.id),
    ensures
        valid(s.restored(done, now)),
{
    let base = restore_base(s, done, now);
    if done.pulled is Some && s.has(done.pulled->0) {
        lemma_moved_valid(s, done.pulled->0, Bucket::Next, Some(0), now);
        lemma_moved_has(s, done.pulled->0, Bucket::Next, Some(0), now, done.task.id);
    }
    order::lemma_first_where(base.tasks, order::is_in(Bucket::Now));
    order::lemma_first_where(base.tasks, order::has_id(done.task.id));
    let task = TaskView { bucket: Bucket::Now, ..done.task };
    lemma_insert_unique(base.tasks, base.head(Bucket::Now), task, base.next_id);
    lemma_normalized_valid(
        StoreView { tasks: base.tasks.insert(base.head(Bucket::Now), task), ..base },
        now,
    );
}

/// The store with the pulled task back in Next, before the completed one returns.
pub open spec fn restore_base(s: StoreView, done: CompletedView, now: u64) -> StoreView {
    if done.pulled is Some && s.has(done.pulled->0) && s.get(done.pulled->0)->0.bucket
        == Bucket::Now {
        s.moved(done.pulled->0, Bucket::Next, Some(0), now)
    } else {
        s
    }
}

/// Undoing a completion keeps a store valid.
pub proof fn law_undo_keeps_a_store_valid(s: StoreView, done: CompletedView, now: u64)
    requires
        valid(s),
        done.task.id < s.next_id,
    ensures
        valid(s.restored(done, now)),
{
    if !s.has(done.task.id) {
        lemma_restored_valid(s, done, now);
    }
}

/// The first of a bucket goes in front of it.
pub(crate) proof fn lemma_insert_first(tasks: Seq<TaskView>, t: TaskView)
    ensures
        tasks.insert(order::first_where(tasks, order::is_in(t.bucket)), t).filter(
            order::is_in(t.bucket),
        ) == seq![t] + tasks.filter(order::is_in(t.bucket)),
{
    let p = order::is_in(t.bucket);
    let at = order::first_where(tasks, p);
    order::lemma_first_where(tasks, p);
    lemma_insert_filter(tasks, at, t, p);
    order::lemma_filter_none(tasks.take(at), p);
    assert(tasks.filter(p).insert(0, t) =~= seq![t] + tasks.filter(p));
}

/// Undoing a completion gives every bucket back as it was, the completed task
/// with its clock, at whatever times the two happen.
pub proof fn law_undo_reverses_a_completion(
    s: StoreView,
    done_at: u64,
    undone_at: u64,
    bucket: Bucket,
)
    requires
        valid(s),
        s.current() is Some,
    ensures
        ({
            let done = s.completion()->0;
            let back = s.completed(done_at).restored(done, undone_at);
            &&& !s.completed(done_at).has(done.task.id)
            &&& back.in_bucket(bucket) == s.in_bucket(bucket)
            &&& back.current() == s.current()
            &&& back.next_id == s.next_id
            &&& valid(back)
        }),
{
    let done = s.completion()->0;
    let after = s.completed(done_at);
    let back = after.restored(done, undone_at);
    law_completing_pulls_from_next(s, done_at, bucket);
    law_changes_keep_a_store_valid(
        s,
        0,
        Seq::empty(),
        Bucket::Now,
        None,
        false,
        None,
        0,
        0,
        done_at,
    );
    lemma_without_current(s, bucket);
    lemma_without_current(s, Bucket::Now);
    order::lemma_first_where(s.tasks, order::is_in(Bucket::Now));
    assert(s.tasks[s.head(Bucket::Now)].id < s.next_id);
    lemma_restored_valid(after, done, undone_at);
    let base = restore_base(after, done, undone_at);
    let task = TaskView { bucket: Bucket::Now, ..done.task };
    assert(task == s.current()->0);
    lemma_restored_bucket(s, done_at, undone_at, bucket);
    lemma_restored_bucket(s, done_at, undone_at, Bucket::Now);
    let placed = StoreView { tasks: base.tasks.insert(base.head(Bucket::Now), task), ..base };
    // The completed task is current again, and its clock runs on.
    lemma_normalized_plain(placed, undone_at);
    order::lemma_first_where(base.tasks, order::is_in(Bucket::Now));
    let h = base.head(Bucket::Now);
    order::lemma_first_where_is(placed.tasks, order::is_in(Bucket::Now), h);
    lemma_ids_ignore_timer(0, Bucket::Now);
    lemma_plain_first(back.tasks, placed.tasks, order::is_in(Bucket::Now));
    assert(s.tasks[s.head(Bucket::Now)].started_at is Some);
    assert(back.tasks[h] == task);
    assert(back.current() == s.current());
    lemma_same_but_timers(back, s, bucket);
}

/// The buckets after undoing a completion, timers aside.
proof fn lemma_restored_bucket(s: StoreView, done_at: u64, undone_at: u64, bucket: Bucket)
    requires
        valid(s),
        s.current() is Some,
    ensures
        plain(s.completed(done_at).restored(s.completion()->0, undone_at).in_bucket(bucket))
            == plain(s.in_bucket(bucket)),
{
    let done = s.completion()->0;
    let after = s.completed(done_at);
    law_completing_pulls_from_next(s, done_at, bucket);
    law_completing_pulls_from_next(s, done_at, Bucket::Now);
    law_completing_pulls_from_next(s, done_at, Bucket::Next);
    law_changes_keep_a_store_valid(
        s,
        0,
        Seq::empty(),
        Bucket::Now,
        None,
        false,
        None,
        0,
        0,
        done_at,
    );
    lemma_without_current(s, Bucket::Now);
    let base = restore_base(after, done, undone_at);
    let task = TaskView { bucket: Bucket::Now, ..done.task };
    let placed = StoreView { tasks: base.tasks.insert(base.head(Bucket::Now), task), ..base };
    lemma_normalized_buckets(placed, undone_at, bucket);
    lemma_insert_first(base.tasks, task);
    order::lemma_first_where(base.tasks, order::is_in(Bucket::Now));
    lemma_insert_filter(base.tasks, base.head(Bucket::Now), task, order::is_in(bucket));
    let now_tasks = s.in_bucket(Bucket::Now);
    let next_tasks = s.in_bucket(Bucket::Next);
    assert(now_tasks =~= seq![now_tasks[0]] + now_tasks.drop_first());
    match done.pulled {
        Some(next) => {
            // The pulled task is the one task of Now, and goes back to Next.
            let members = after.in_bucket(Bucket::Now);
            let pulled = TaskView { bucket: Bucket::Now, ..next_tasks[0] };
            assert(plain(members).len() == members.len());
            assert(plain(seq![pulled]).len() == 1);
            assert(plain(members)[0] == plain(seq![pulled])[0]);
            assert(members[0].untimed() == pulled.untimed());
            order::lemma_filter_all(after.tasks, order::is_in(Bucket::Now));
            assert(after.tasks.contains(members[0]));
            let k = choose|k: int| 0 <= k < after.tasks.len() && after.tasks[k] == members[0];
            lemma_position(after, k);
            law_move_keeps_the_order(after, next, Bucket::Next, Some(0), undone_at, bucket);
            law_move_keeps_the_order(
                after,
                next,
                Bucket::Next,
                Some(0),
                undone_at,
                Bucket::Now,
            );
            lemma_without_head(after, Bucket::Now);
            lemma_without_elsewhere(after, next, Bucket::Next);
            if bucket != Bucket::Now {
                lemma_without_elsewhere(after, next, bucket);
            }
            assert(members.drop_first() =~= Seq::empty());
            assert(plain(base.in_bucket(Bucket::Now)) =~= Seq::empty());
            assert(plain(base.in_bucket(Bucket::Now)).len() == base.in_bucket(Bucket::Now).len());
            assert(base.in_bucket(Bucket::Now) =~= Seq::empty());
            order::lemma_filter_all(s.tasks, order::is_in(Bucket::Next));
            let returned = TaskView { bucket: Bucket::Next, ..after.get(next)->0 };
            assert(returned.untimed() == next_tasks[0].untimed());
            let tail = after.in_bucket(Bucket::Next);
            assert(plain(tail.insert(0, returned)) =~= seq![returned.untimed()] + plain(tail));
            assert(plain(next_tasks) =~= seq![next_tasks[0].untimed()] + plain(
                next_tasks.drop_first(),
            ));
            assert(plain(seq![task] + base.in_bucket(Bucket::Now)) =~= plain(now_tasks));
        },
        None => {
            assert(plain(seq![task] + after.in_bucket(Bucket::Now)) =~= seq![task.untimed()]
                + plain(after.in_bucket(Bucket::Now)));
            assert(plain(now_tasks) =~= seq![now_tasks[0].untimed()] + plain(
                now_tasks.drop_first(),
            ));
        },
    }
}

// ---- adding, removing, shifting ------------------------------------------------------

/// A new task gets an id that no task has, joins its bucket at the front or the
/// end, and moves nothing else.
pub proof fn law_adding_joins_one_bucket(
    s: StoreView,
    title: Seq<char>,
    bucket: Bucket,
    tag: Option<Tag>,
    front: bool,
    created_at: u64,
    now: u64,
    other: Bucket,
)
    requires
        valid(s),
        s.next_id < u64::MAX,
    ensures
        !s.has(s.next_id),
        ({
            let after = s.added(title, bucket, tag, front, created_at, now);
            let task = TaskView {
                id: s.next_id,
                title: queue::bounded(title),
                bucket,
                tag,
                created_at,
                started_at: None,
                paused_at: None,
            };
            &&& after.has(s.next_id)
            &&& after.get(s.next_id)->0.untimed() == task
            &&& plain(after.in_bucket(bucket)) == plain(
                if front {
                    seq![task] + s.in_bucket(bucket)
                } else {
                    s.in_bucket(bucket).push(task)
                },
            )
            &&& other != bucket ==> plain(after.in_bucket(other)) == plain(s.in_bucket(other))
            &&& after.next_id == s.next_id + 1
        }),
{
    let task = TaskView {
        id: s.next_id,
        title: queue::bounded(title),
        bucket,
        tag,
        created_at,
        started_at: None,
        paused_at: None,
    };
    order::lemma_first_where(s.tasks, order::has_id(s.next_id));
    order::lemma_first_where(s.tasks, order::is_in(bucket));
    let at = if front {
        s.head(bucket)
    } else {
        s.tasks.len() as int
    };
    let all = s.tasks.insert(at, task);
    if !front {
        assert(all =~= s.tasks.push(task));
    }
    let placed = StoreView { next_id: (s.next_id + 1) as u64, tasks: all };
    let after = placed.normalized(now);
    lemma_added_valid(s, title, bucket, tag, front, created_at, now);
    lemma_insert_filter(s.tasks, at, task, order::is_in(bucket));
    lemma_insert_filter(s.tasks, at, task, order::is_in(other));
    lemma_normalized_buckets(placed, now, bucket);
    lemma_normalized_buckets(placed, now, other);
    if front {
        lemma_insert_first(s.tasks, task);
    } else {
        assert(s.tasks.take(at) =~= s.tasks);
        order::lemma_filter_push(s.tasks, task, order::is_in(bucket));
    }
    lemma_normalized_plain(placed, now);
    assert(after.tasks[at].id == s.next_id);
    lemma_position(after, at);
    assert(plain(after.tasks)[at] == plain(all)[at]);
}

/// A removed task is gone, and every bucket keeps its other tasks in order.
pub proof fn law_removing_leaves_the_others(s: StoreView, id: u64, now: u64, bucket: Bucket)
    ensures
        !s.removed(id, now).has(id),
        s.has(id) ==> plain(s.removed(id, now).in_bucket(bucket)) == plain(
            bucket_without(s, bucket, id),
        ),
        !s.has(id) ==> s.removed(id, now) == s,
        s.removed(id, now).next_id == s.next_id,
{
    order::lemma_first_where(s.tasks, order::has_id(id));
    if s.has(id) {
        let rest = StoreView { tasks: s.tasks.filter(order::other_id(id)), ..s };
        lemma_filters_commute(s.tasks, order::is_in(bucket), order::other_id(id));
        lemma_normalized_buckets(rest, now, bucket);
        lemma_normalized_plain(rest, now);
        lemma_ids_ignore_timer(id, bucket);
        lemma_plain_first(rest.normalized(now).tasks, rest.tasks, order::has_id(id));
        lemma_other_id(s.tasks, id);
        order::lemma_first_where(rest.tasks, order::has_id(id));
    }
}

/// A shift takes a task to its new place among the tasks of its bucket, and
/// moves nothing in any other bucket.
pub proof fn law_shift_stays_in_the_bucket(
    s: StoreView,
    id: u64,
    delta: i32,
    now: u64,
    other: Bucket,
)
    requires
        unique_ids(s.tasks),
        s.shifts(id, delta),
        s.tasks.len() <= usize::MAX,
    ensures
        ({
            let task = s.get(id)->0;
            let members = s.in_bucket(task.bucket);
            let after = s.shifted(id, delta, now);
            &&& plain(after.in_bucket(task.bucket)) == plain(
                members.remove(s.rank(id)).insert(s.shift_target(id, delta), task),
            )
            &&& other != task.bucket ==> plain(after.in_bucket(other)) == plain(
                s.in_bucket(other),
            )
        }),
{
    let task = s.get(id)->0;
    let members = s.in_bucket(task.bucket);
    queue::lemma_member_of_bucket(s, id);
    lemma_filter_unique(s.tasks, order::is_in(task.bucket), 0);
    order::lemma_filter_all(s.tasks, order::is_in(task.bucket));
    lemma_remove_is_filter(members, id);
    order::lemma_first_where(s.tasks, order::has_id(id));
    law_move_keeps_the_order(
        s,
        id,
        task.bucket,
        Some(s.shift_target(id, delta) as usize),
        now,
        other,
    );
    if other != task.bucket {
        lemma_without_elsewhere(s, id, other);
    }
}

/// A shift is refused at the end of the bucket that it points to, and where it
/// asks for no step.
pub proof fn law_shift_stops_at_the_ends(s: StoreView, id: u64, delta: i32)
    requires
        s.has(id),
    ensures
        delta == 0 ==> !s.shifts(id, delta),
        s.rank(id) == 0 && delta < 0 ==> !s.shifts(id, delta),
        s.rank(id) == s.in_bucket(s.get(id)->0.bucket).len() - 1 && delta > 0 ==> !s.shifts(
            id,
            delta,
        ),
{
    queue::lemma_member_of_bucket(s, id);
}

// ---- the clock -----------------------------------------------------------------------

/// While a task is paused its clock stands still.
pub proof fn law_a_paused_clock_stands_still(t: TaskView, a: u64, b: u64)
    requires
        t.paused(),
    ensures
        t.elapsed(a) == t.elapsed(b),
{
}

/// Pausing freezes the clock at the time it shows, and resuming goes on from the
/// time that it showed while paused, provided that the clock has not gone back
/// since the pause and the new start still is a number of seconds.
pub proof fn law_pausing_keeps_the_time(t: TaskView, now: u64, later: u64)
    requires
        t.started_at is Some,
    ensures
        t.paused_at is None ==> queue::toggled(t, now).paused() && queue::toggled(t, now).elapsed(
            later,
        ) == t.elapsed(now),
        t.paused_at is Some && t.paused_at->0 <= now && t.started_at->0 + (now - t.paused_at->0)
            <= u64::MAX ==> !queue::toggled(t, now).paused() && queue::toggled(t, now).elapsed(now)
            == t.elapsed(now),
{
}

/// Pausing and resuming acts on the current task alone.
pub proof fn law_pausing_touches_the_current_task_only(s: StoreView, now: u64, i: int)
    requires
        unique_ids(s.tasks),
        s.can_pause(),
        0 <= i < s.tasks.len(),
    ensures
        s.pause_toggled(now).tasks.len() == s.tasks.len(),
        s.current_id() == Some(s.tasks[i].id) ==> s.pause_toggled(now).tasks[i] == queue::toggled(
            s.tasks[i],
            now,
        ),
        s.current_id() != Some(s.tasks[i].id) ==> s.pause_toggled(now).tasks[i] == s.tasks[i],
        s.pause_toggled(now).next_id == s.next_id,
{
    let cur = s.current_id()->0;
    order::lemma_first_where(s.tasks, order::has_id(cur));
    lemma_position(s, i);
}

/// Three steps round the tags come back to where they started.
pub proof fn law_tags_cycle(t: Option<Tag>)
    ensures
        Tag::after(Tag::after(Tag::after(t))) == t,
        Tag::after(t) != t,
{
}

// ---- titles --------------------------------------------------------------------------

/// Every title is within the limit.
pub open spec fn titles_bounded(tasks: Seq<TaskView>) -> bool {
    forall|i: int|
        0 <= i < tasks.len() ==> (#[trigger] tasks[i]).title.len() <= crate::model::MAX_TITLE_CHARS
}

/// Every title is one of those that a test takes.
spec fn titles_are(tasks: Seq<TaskView>, p: spec_fn(Seq<char>) -> bool) -> bool {
    forall|i: int| 0 <= i < tasks.len() ==> p((#[trigger] tasks[i]).title)
}

proof fn lemma_normalized_titles(s: StoreView, now: u64, p: spec_fn(Seq<char>) -> bool)
    requires
        titles_are(s.tasks, p),
    ensures
        titles_are(s.normalized(now).tasks, p),
{
    assert forall|i: int| 0 <= i < s.tasks.len() implies (#[trigger] s.normalized(
        now,
    ).tasks[i]).title == s.tasks[i].title by {}
}

proof fn lemma_insert_titles(
    tasks: Seq<TaskView>,
    at: int,
    t: TaskView,
    p: spec_fn(Seq<char>) -> bool,
)
    requires
        titles_are(tasks, p),
        0 <= at <= tasks.len(),
        p(t.title),
    ensures
        titles_are(tasks.insert(at, t), p),
{
    let all = tasks.insert(at, t);
    assert forall|i: int| 0 <= i < all.len() implies p((#[trigger] all[i]).title) by {
        if i < at {
            assert(all[i] == tasks[i]);
        } else if i > at {
            assert(all[i] == tasks[i - 1]);
        }
    }
}

proof fn lemma_moved_titles(
    s: StoreView,
    id: u64,
    bucket: Bucket,
    index: Option<usize>,
    now: u64,
    p: spec_fn(Seq<char>) -> bool,
)
    requires
        titles_are(s.tasks, p),
    ensures
        titles_are(s.moved(id, bucket, index, now).tasks, p),
{
    if s.has(id) {
        let pos = s.position(id);
        let task = TaskView { bucket, ..s.tasks[pos] };
        let rest = s.tasks.remove(pos);
        order::lemma_first_where(s.tasks, order::has_id(id));
        lemma_place_bounds(rest, bucket, index);
        assert forall|i: int| 0 <= i < rest.len() implies p((#[trigger] rest[i]).title) by {
            let k = if i < pos { i } else { i + 1 };
            assert(rest[i] == s.tasks[k]);
        }
        let at = queue::place(rest, bucket, index);
        lemma_insert_titles(rest, at, task, p);
        lemma_normalized_titles(StoreView { tasks: rest.insert(at, task), ..s }, now, p);
    }
}

/// Whatever title is asked for, the title that a store keeps is within the limit.
pub proof fn law_a_kept_title_is_within_the_limit(title: Seq<char>)
    ensures
        queue::bounded(title).len() <= crate::model::MAX_TITLE_CHARS,
{
}

/// What holds of every title and of a new one holds of every title after a change.
proof fn lemma_titles_stay(
    s: StoreView,
    id: u64,
    title: Seq<char>,
    bucket: Bucket,
    tag: Option<Tag>,
    front: bool,
    index: Option<usize>,
    delta: i32,
    created_at: u64,
    now: u64,
    done: CompletedView,
    p: spec_fn(Seq<char>) -> bool,
)
    requires
        titles_are(s.tasks, p),
    ensures
        p(queue::bounded(title)) ==> titles_are(
            s.added(title, bucket, tag, front, created_at, now).tasks,
            p,
        ),
        (crate::quick::asked(title) matches Some(q) ==> p(queue::bounded(q.title))) ==> titles_are(
            s.quick_added(title, bucket, created_at, now).tasks,
            p,
        ),
        titles_are(s.removed(id, now).tasks, p),
        titles_are(s.moved(id, bucket, index, now).tasks, p),
        titles_are(s.shifted(id, delta, now).tasks, p),
        titles_are(s.tagged(id, tag).tasks, p),
        titles_are(s.tag_cycled(id).tasks, p),
        p(queue::bounded(title)) ==> titles_are(s.renamed(id, title).tasks, p),
        titles_are(s.pause_toggled(now).tasks, p),
        titles_are(s.completed(now).tasks, p),
        p(done.task.title) ==> titles_are(s.restored(done, now).tasks, p),
{
    if p(queue::bounded(title)) {
        lemma_added_titles(s, title, bucket, tag, front, created_at, now, p);
    }
    match crate::quick::asked(title) {
        None => {},
        Some(q) => {
            let b = match q.bucket {
                Some(b) => b,
                None => bucket,
            };
            if p(queue::bounded(q.title)) {
                lemma_added_titles(s, q.title, b, q.tag, b == Bucket::Now, created_at, now, p);
            }
        },
    }
    if s.has(id) {
        let rest = s.tasks.filter(order::other_id(id));
        order::lemma_filter_all(s.tasks, order::other_id(id));
        assert forall|i: int| 0 <= i < rest.len() implies p((#[trigger] rest[i]).title) by {
            assert(s.tasks.contains(rest[i]));
        }
        lemma_normalized_titles(StoreView { tasks: rest, ..s }, now, p);
        order::lemma_first_where(s.tasks, order::has_id(id));
    }
    lemma_moved_titles(s, id, bucket, index, now, p);
    if s.shifts(id, delta) {
        lemma_moved_titles(
            s,
            id,
            s.get(id)->0.bucket,
            Some(s.shift_target(id, delta) as usize),
            now,
            p,
        );
    }
    if s.can_pause() {
        order::lemma_first_where(s.tasks, order::has_id(s.current_id()->0));
    }
    if s.completion() is Some {
        let rest = s.without_current();
        let pos = s.position(s.current_id()->0);
        queue::lemma_current_is_found(s);
        order::lemma_first_where(s.tasks, order::has_id(s.current_id()->0));
        assert forall|i: int| 0 <= i < rest.tasks.len() implies p((#[trigger] rest.tasks[i]).title) by {
            let k = if i < pos { i } else { i + 1 };
            assert(rest.tasks[i] == s.tasks[k]);
        }
        lemma_normalized_titles(rest, now, p);
        match s.completion()->0.pulled {
            Some(next) => {
                lemma_moved_titles(rest, next, Bucket::Now, Some(0), now, p);
            },
            None => {},
        }
    }
    let base = restore_base(s, done, now);
    if done.pulled is Some {
        lemma_moved_titles(s, done.pulled->0, Bucket::Next, Some(0), now, p);
    }
    if p(done.task.title) {
        let task = TaskView { bucket: Bucket::Now, ..done.task };
        order::lemma_first_where(base.tasks, order::is_in(Bucket::Now));
        lemma_insert_titles(base.tasks, base.head(Bucket::Now), task, p);
        lemma_normalized_titles(
            StoreView { tasks: base.tasks.insert(base.head(Bucket::Now), task), ..base },
            now,
            p,
        );
    }
}

proof fn lemma_added_titles(
    s: StoreView,
    title: Seq<char>,
    bucket: Bucket,
    tag: Option<Tag>,
    front: bool,
    created_at: u64,
    now: u64,
    p: spec_fn(Seq<char>) -> bool,
)
    requires
        titles_are(s.tasks, p),
        p(queue::bounded(title)),
    ensures
        titles_are(s.added(title, bucket, tag, front, created_at, now).tasks, p),
{
    let task = TaskView {
        id: s.next_id,
        title: queue::bounded(title),
        bucket,
        tag,
        created_at,
        started_at: None,
        paused_at: None,
    };
    order::lemma_first_where(s.tasks, order::is_in(bucket));
    let at = if front {
        s.head(bucket)
    } else {
        s.tasks.len() as int
    };
    if !front {
        assert(s.tasks.insert(at, task) =~= s.tasks.push(task));
    }
    lemma_insert_titles(s.tasks, at, task, p);
    lemma_normalized_titles(
        StoreView { next_id: (s.next_id + 1) as u64, tasks: s.tasks.insert(at, task) },
        now,
        p,
    );
}

/// No change lets a title grow past the limit.
pub proof fn law_titles_stay_bounded(
    s: StoreView,
    id: u64,
    title: Seq<char>,
    bucket: Bucket,
    tag: Option<Tag>,
    front: bool,
    index: Option<usize>,
    delta: i32,
    created_at: u64,
    now: u64,
    done: CompletedView,
)
    requires
        titles_bounded(s.tasks),
        done.task.title.len() <= crate::model::MAX_TITLE_CHARS,
    ensures
        titles_bounded(s.added(title, bucket, tag, front, created_at, now).tasks),
        titles_bounded(s.quick_added(title, bucket, created_at, now).tasks),
        titles_bounded(s.removed(id, now).tasks),
        titles_bounded(s.moved(id, bucket, index, now).tasks),
        titles_bounded(s.shifted(id, delta, now).tasks),
        titles_bounded(s.tagged(id, tag).tasks),
        titles_bounded(s.tag_cycled(id).tasks),
        titles_bounded(s.renamed(id, title).tasks),
        titles_bounded(s.pause_toggled(now).tasks),
        titles_bounded(s.completed(now).tasks),
        titles_bounded(s.restored(done, now).tasks),
{
    let p = |t: Seq<char>| t.len() <= crate::model::MAX_TITLE_CHARS;
    lemma_titles_stay(
        s,
        id,
        title,
        bucket,
        tag,
        front,
        index,
        delta,
        created_at,
        now,
        done,
        p,
    );
}

/// Whether a title reads back from the file as it was written.
pub open spec fn survives(title: Seq<char>) -> bool {
    queue::bounded(title) == title
}

/// A store whose titles survive the file stays one through every change, as long as
/// a new title is not cut in front of a blank.
pub proof fn law_titles_stay_kept(
    s: StoreView,
    id: u64,
    title: Seq<char>,
    bucket: Bucket,
    tag: Option<Tag>,
    front: bool,
    index: Option<usize>,
    delta: i32,
    created_at: u64,
    now: u64,
    done: CompletedView,
)
    requires
        s.titles_kept(),
    ensures
        survives(queue::bounded(title)) ==> s.added(
            title,
            bucket,
            tag,
            front,
            created_at,
            now,
        ).titles_kept(),
        (crate::quick::asked(title) matches Some(q) ==> survives(queue::bounded(q.title)))
            ==> s.quick_added(title, bucket, created_at, now).titles_kept(),
        s.removed(id, now).titles_kept(),
        s.moved(id, bucket, index, now).titles_kept(),
        s.shifted(id, delta, now).titles_kept(),
        s.tagged(id, tag).titles_kept(),
        s.tag_cycled(id).titles_kept(),
        survives(queue::bounded(title)) ==> s.renamed(id, title).titles_kept(),
        s.pause_toggled(now).titles_kept(),
        s.completed(now).titles_kept(),
        survives(done.task.title) ==> s.restored(done, now).titles_kept(),
{
    let p = |t: Seq<char>| survives(t);
    assert(titles_are(s.tasks, p));
    lemma_titles_stay(
        s,
        id,
        title,
        bucket,
        tag,
        front,
        index,
        delta,
        created_at,
        now,
        done,
        p,
    );
    lemma_titles_kept(s.added(title, bucket, tag, front, created_at, now));
    lemma_titles_kept(s.quick_added(title, bucket, created_at, now));
    lemma_titles_kept(s.removed(id, now));
    lemma_titles_kept(s.moved(id, bucket, index, now));
    lemma_titles_kept(s.shifted(id, delta, now));
    lemma_titles_kept(s.tagged(id, tag));
    lemma_titles_kept(s.tag_cycled(id));
    lemma_titles_kept(s.renamed(id, title));
    lemma_titles_kept(s.pause_toggled(now));
    lemma_titles_kept(s.completed(now));
    lemma_titles_kept(s.restored(done, now));
}

proof fn lemma_titles_kept(s: StoreView)
    ensures
        titles_are(s.tasks, |t: Seq<char>| survives(t)) ==> s.titles_kept(),
{
}

} // verus!
