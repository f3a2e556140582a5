//! Sequences of tasks: finding a task, and the tasks of one bucket in order.

use crate::model::Bucket;
use crate::model::Task;
use crate::model::TaskView;
use vstd::prelude::*;

verus! {

/// What each of several tasks holds.
pub open spec fn views(tasks: Seq<Task>) -> Seq<TaskView> {
    tasks.map_values(|t: Task| t@)
}

pub open spec fn ref_views(tasks: Seq<&Task>) -> Seq<TaskView> {
    tasks.map_values(|t: &Task| t@)
}

pub open spec fn has_id(id: u64) -> spec_fn(TaskView) -> bool {
    |t: TaskView| t.id == id
}

pub open spec fn other_id(id: u64) -> spec_fn(TaskView) -> bool {
    |t: TaskView| t.id != id
}

pub open spec fn is_in(bucket: Bucket) -> spec_fn(TaskView) -> bool {
    |t: TaskView| t.bucket == bucket
}

/// The position of the first task that `p` holds of, or the length.
pub open spec fn first_where(tasks: Seq<TaskView>, p: spec_fn(TaskView) -> bool) -> int
    decreases tasks.len(),
{
    if tasks.len() == 0 || p(tasks[0]) {
        0
    } else {
        1 + first_where(tasks.drop_first(), p)
    }
}

/// The position behind the last task that `p` holds of, or zero.
pub open spec fn behind_last(tasks: Seq<TaskView>, p: spec_fn(TaskView) -> bool) -> int
    decreases tasks.len(),
{
    if tasks.len() == 0 {
        0
    } else if p(tasks.last()) {
        tasks.len() as int
    } else {
        behind_last(tasks.drop_last(), p)
    }
}

/// The tasks of one bucket, in order.
pub open spec fn bucket_of(tasks: Seq<TaskView>, bucket: Bucket) -> Seq<TaskView> {
    tasks.filter(is_in(bucket))
}

/// The position that `first_where` gives is the only one with nothing before it.
pub proof fn lemma_first_where_is(tasks: Seq<TaskView>, p: spec_fn(TaskView) -> bool, i: int)
    requires
        0 <= i <= tasks.len(),
        forall|j: int| 0 <= j < i ==> !p(#[trigger] tasks[j]),
        i < tasks.len() ==> p(tasks[i]),
    ensures
        first_where(tasks, p) == i,
    decreases tasks.len(),
{
    if i > 0 {
        assert(!p(tasks[0]));
        lemma_first_where_is(tasks.drop_first(), p, i - 1);
    }
}

pub proof fn lemma_first_where(tasks: Seq<TaskView>, p: spec_fn(TaskView) -> bool)
    ensures
        0 <= first_where(tasks, p) <= tasks.len(),
        forall|j: int| 0 <= j < first_where(tasks, p) ==> !p(#[trigger] tasks[j]),
        first_where(tasks, p) < tasks.len() ==> p(tasks[first_where(tasks, p)]),
    decreases tasks.len(),
{
    if tasks.len() > 0 && !p(tasks[0]) {
        let rest = tasks.drop_first();
        lemma_first_where(rest, p);
        assert forall|j: int| 0 <= j < first_where(tasks, p) implies !p(#[trigger] tasks[j]) by {
            if j > 0 {
                assert(tasks[j] == rest[j - 1]);
            }
        }
    }
}

pub proof fn lemma_behind_last_is(tasks: Seq<TaskView>, p: spec_fn(TaskView) -> bool, n: int)
    requires
        0 <= n <= tasks.len(),
        forall|j: int| n <= j < tasks.len() ==> !p(#[trigger] tasks[j]),
        n > 0 ==> p(tasks[n - 1]),
    ensures
        behind_last(tasks, p) == n,
    decreases tasks.len(),
{
    if n < tasks.len() {
        assert(!p(tasks[tasks.len() - 1]));
        lemma_behind_last_is(tasks.drop_last(), p, n);
    }
}

pub proof fn lemma_behind_last(tasks: Seq<TaskView>, p: spec_fn(TaskView) -> bool)
    ensures
        0 <= behind_last(tasks, p) <= tasks.len(),
        forall|j: int| behind_last(tasks, p) <= j < tasks.len() ==> !p(#[trigger] tasks[j]),
        behind_last(tasks, p) > 0 ==> p(tasks[behind_last(tasks, p) - 1]),
    decreases tasks.len(),
{
    if tasks.len() > 0 && !p(tasks.last()) {
        let front = tasks.drop_last();
        lemma_behind_last(front, p);
        assert forall|j: int| behind_last(tasks, p) <= j < tasks.len() implies !p(
            #[trigger] tasks[j],
        ) by {
            if j < front.len() {
                assert(tasks[j] == front[j]);
            }
        }
    }
}

/// Filtering with one more task at the end.
pub proof fn lemma_filter_push(s: Seq<TaskView>, t: TaskView, p: spec_fn(TaskView) -> bool)
    ensures
        s.push(t).filter(p) == if p(t) {
            s.filter(p).push(t)
        } else {
            s.filter(p)
        },
{
    reveal(Seq::filter);
    assert(s.push(t).drop_last() =~= s);
}

/// Filtering a sequence made of two parts.
pub proof fn lemma_filter_add(a: Seq<TaskView>, b: Seq<TaskView>, p: spec_fn(TaskView) -> bool)
    ensures
        (a + b).filter(p) == a.filter(p) + b.filter(p),
    decreases b.len(),
{
    reveal(Seq::filter);
    if b.len() == 0 {
        assert(a + b =~= a);
        assert(a.filter(p) + b.filter(p) =~= a.filter(p));
    } else {
        let front = b.drop_last();
        lemma_filter_add(a, front, p);
        assert((a + b).drop_last() =~= a + front);
        assert((a + b).last() == b.last());
        assert((a + b).filter(p) =~= a.filter(p) + b.filter(p));
    }
}

/// A filtered sequence holds only tasks that pass.
pub proof fn lemma_filter_all(s: Seq<TaskView>, p: spec_fn(TaskView) -> bool)
    ensures
        s.filter(p).len() <= s.len(),
        forall|i: int|
            0 <= i < s.filter(p).len() ==> p(#[trigger] s.filter(p)[i]) && s.contains(
                s.filter(p)[i],
            ),
    decreases s.len(),
{
    reveal(Seq::filter);
    if s.len() > 0 {
        let front = s.drop_last();
        lemma_filter_all(front, p);
        assert forall|i: int| 0 <= i < s.filter(p).len() implies p(#[trigger] s.filter(p)[i])
            && s.contains(s.filter(p)[i]) by {
            if i < front.filter(p).len() {
                assert(front.filter(p)[i] == s.filter(p)[i]);
                let k = choose|k: int| 0 <= k < front.len() && front[k] == s.filter(p)[i];
                assert(s[k] == s.filter(p)[i]);
            } else {
                assert(s[s.len() - 1] == s.filter(p)[i]);
            }
        }
    }
}

/// Nothing passes where no task does.
pub proof fn lemma_filter_none(s: Seq<TaskView>, p: spec_fn(TaskView) -> bool)
    requires
        forall|i: int| 0 <= i < s.len() ==> !p(#[trigger] s[i]),
    ensures
        s.filter(p) == Seq::<TaskView>::empty(),
    decreases s.len(),
{
    reveal(Seq::filter);
    if s.len() > 0 {
        lemma_filter_none(s.drop_last(), p);
    }
}

/// The first task that passes is the head of the filtered sequence.
pub proof fn lemma_filter_head(s: Seq<TaskView>, p: spec_fn(TaskView) -> bool)
    ensures
        s.filter(p).len() == 0 <==> first_where(s, p) == s.len(),
        first_where(s, p) < s.len() ==> s.filter(p)[0] == s[first_where(s, p)],
{
    lemma_first_where(s, p);
    let i = first_where(s, p);
    let head = s.take(i);
    lemma_filter_none(head, p);
    if i == s.len() {
        assert(head =~= s);
    } else {
        let tail = s.skip(i + 1);
        assert(s =~= head.push(s[i]) + tail);
        lemma_filter_push(head, s[i], p);
        lemma_filter_add(head.push(s[i]), tail, p);
    }
}

} // verus!
