//! What the operations on the queue promise, in terms of the tasks before and after
//! them: which task stands where, and what it holds.

use crate::change::Change;
use crate::change::Effect;
use crate::laws;
use crate::model::Bucket;
use crate::model::Completed;
use crate::model::CompletedView;
use crate::model::Tag;
use crate::model::Task;
use crate::model::TaskView;
use crate::order;
use crate::queue;
use crate::queue::Store;
use crate::queue::StoreView;
use vstd::prelude::*;

verus! {

// ---- what a store holds --------------------------------------------------------------

/// The tasks of a bucket, in the order of the store.
pub open spec fn members(s: StoreView, b: Bucket) -> Seq<TaskView> {
    s.tasks.filter(|t: TaskView| t.bucket == b)
}

/// Some tasks without one.
pub open spec fn others(m: Seq<TaskView>, id: u64) -> Seq<TaskView> {
    m.filter(|t: TaskView| t.id != id)
}

/// Whether a store has a task with an id.
pub open spec fn holds(s: StoreView, id: u64) -> bool {
    exists|i: int| 0 <= i < s.tasks.len() && (#[trigger] s.tasks[i]).id == id
}

/// Whether the task being worked on is this one: the first of Now.
pub open spec fn works_on(s: StoreView, id: u64) -> bool {
    members(s, Bucket::Now).len() > 0 && members(s, Bucket::Now)[0].id == id
}

/// Whether no two tasks share an id, every id was given out, and exactly the task
/// being worked on has a timer.
pub open spec fn sound(s: StoreView) -> bool {
    &&& forall|i: int, j: int|
        0 <= i < j < s.tasks.len() ==> (#[trigger] s.tasks[i]).id != (#[trigger] s.tasks[j]).id
    &&& forall|i: int| 0 <= i < s.tasks.len() ==> (#[trigger] s.tasks[i]).id < s.next_id
    &&& timers_stand(s)
}

/// Whether exactly the task being worked on has a timer.
pub open spec fn timers_stand(s: StoreView) -> bool {
    forall|i: int|
        0 <= i < s.tasks.len() ==> if works_on(s, (#[trigger] s.tasks[i]).id) {
            s.tasks[i].started_at is Some
        } else {
            s.tasks[i].started_at is None && s.tasks[i].paused_at is None
        }
}

/// Whether two tasks are the same but for their timers.
pub open spec fn alike(a: TaskView, b: TaskView) -> bool {
    &&& a.id == b.id
    &&& a.title == b.title
    &&& a.bucket == b.bucket
    &&& a.tag == b.tag
    &&& a.created_at == b.created_at
}

/// Whether the same tasks stand in the same order, but for their timers.
pub open spec fn all_alike(a: Seq<TaskView>, b: Seq<TaskView>) -> bool {
    &&& a.len() == b.len()
    &&& forall|i: int| 0 <= i < a.len() ==> alike(#[trigger] a[i], b[i])
}

/// Whether every bucket but two is as it was.
pub open spec fn rest_kept(before: StoreView, after: StoreView, b: Bucket, c: Bucket) -> bool {
    forall|x: Bucket|
        x != b && x != c ==> all_alike(#[trigger] members(after, x), members(before, x))
}

proof fn lemma_filter_ext(
    m: Seq<TaskView>,
    p: spec_fn(TaskView) -> bool,
    q: spec_fn(TaskView) -> bool,
)
    requires
        forall|t: TaskView| #[trigger] p(t) == q(t),
    ensures
        m.filter(p) == m.filter(q),
{
    assert(p =~= q);
}

pub proof fn lemma_members(s: StoreView, b: Bucket)
    ensures
        members(s, b) == s.in_bucket(b),
{
    lemma_filter_ext(s.tasks, |t: TaskView| t.bucket == b, order::is_in(b));
}

proof fn lemma_others(m: Seq<TaskView>, id: u64)
    ensures
        others(m, id) == m.filter(order::other_id(id)),
{
    lemma_filter_ext(m, |t: TaskView| t.id != id, order::other_id(id));
}

pub proof fn lemma_holds(s: StoreView, id: u64)
    ensures
        holds(s, id) == s.has(id),
        s.has(id) ==> s.get(id) == Some(s.tasks[s.position(id)]) && s.get(id)->0.id == id,
{
    order::lemma_first_where(s.tasks, order::has_id(id));
    if holds(s, id) {
        let i = choose|i: int| 0 <= i < s.tasks.len() && (#[trigger] s.tasks[i]).id == id;
        if s.position(id) >= s.tasks.len() {
            assert(!order::has_id(id)(s.tasks[i]));
        }
    }
}

pub(crate) proof fn lemma_works_on(s: StoreView)
    ensures
        forall|id: u64| #[trigger] works_on(s, id) == (s.current_id() == Some(id)),
{
    lemma_members(s, Bucket::Now);
    laws::law_current_is_the_head_of_now(s);
}

pub(crate) proof fn lemma_sound(s: StoreView)
    ensures
        sound(s) == laws::valid(s),
{
    lemma_works_on(s);
    if laws::valid(s) {
        assert forall|i: int| 0 <= i < s.tasks.len() implies if works_on(
            s,
            (#[trigger] s.tasks[i]).id,
        ) {
            s.tasks[i].started_at is Some
        } else {
            s.tasks[i].started_at is None && s.tasks[i].paused_at is None
        } by {
            assert(!works_on(s, s.tasks[i].id) ==> s.tasks[i] == s.tasks[i].untimed());
        }
    }
    if sound(s) {
        assert forall|i: int| 0 <= i < s.tasks.len() implies if s.current_id() == Some(
            (#[trigger] s.tasks[i]).id,
        ) {
            s.tasks[i].started_at is Some
        } else {
            s.tasks[i] == s.tasks[i].untimed()
        } by {
            assert(works_on(s, s.tasks[i].id) == (s.current_id() == Some(s.tasks[i].id)));
        }
    }
}

proof fn lemma_plain_alike(a: Seq<TaskView>, b: Seq<TaskView>)
    requires
        laws::plain(a) == laws::plain(b),
    ensures
        all_alike(a, b),
{
    assert(laws::plain(a).len() == a.len() && laws::plain(b).len() == b.len());
    assert forall|i: int| 0 <= i < a.len() implies alike(#[trigger] a[i], b[i]) by {
        assert(laws::plain(a)[i] == a[i].untimed());
        assert(laws::plain(b)[i] == b[i].untimed());
    }
}

// ---- looking -------------------------------------------------------------------------

/// A task is found by its id exactly where there is one with it, a bucket lists the
/// tasks that are in it in the order of the store, and the current task is the first
/// of Now.
pub proof fn law_looking_finds_what_is_there(store: Store, id: u64, b: Bucket)
    ensures
        forall|found: Option<&Task>| #[trigger]
            call_ensures(Store::get, (&store, id), found) ==> {
                &&& found is Some <==> holds(store@, id)
                &&& found matches Some(t) ==> t@.id == id && store@.tasks.contains(t@)
            },
        forall|out: Vec<&Task>| #[trigger]
            call_ensures(Store::in_bucket, (&store, b), out) ==> out@.len() == members(
                store@,
                b,
            ).len() && forall|i: int|
                0 <= i < out@.len() ==> (#[trigger] out@[i])@ == members(store@, b)[i],
        forall|found: Option<&Task>| #[trigger]
            call_ensures(Store::current, (&store,), found) ==> {
                &&& found is Some <==> members(store@, Bucket::Now).len() > 0
                &&& found matches Some(t) ==> t@ == members(store@, Bucket::Now)[0]
            },
        forall|n: usize| #[trigger]
            call_ensures(Store::len, (&store,), n) ==> n == store@.tasks.len(),
        forall|empty: bool| #[trigger]
            call_ensures(Store::is_empty, (&store,), empty) ==> empty == (store@.tasks.len() == 0),
{
    lemma_holds(store@, id);
    lemma_members(store@, b);
    lemma_members(store@, Bucket::Now);
    laws::law_current_is_the_head_of_now(store@);
    order::lemma_first_where(store@.tasks, order::has_id(id));
    assert forall|out: Vec<&Task>| #[trigger]
        call_ensures(Store::in_bucket, (&store, b), out) implies out@.len() == members(
        store@,
        b,
    ).len() && forall|i: int|
        0 <= i < out@.len() ==> (#[trigger] out@[i])@ == members(store@, b)[i] by {
        assert(order::ref_views(out@).len() == out@.len());
        assert forall|i: int| 0 <= i < out@.len() implies (#[trigger] out@[i])@ == members(
            store@,
            b,
        )[i] by {
            assert(order::ref_views(out@)[i] == out@[i]@);
        }
    }
}

// ---- adding --------------------------------------------------------------------------

/// Whether a title is kept so: without the whitespace around it, and no more than
/// its first 256 characters.
pub open spec fn is_kept(title: Seq<char>, kept: Seq<char>) -> bool {
    exists|i: int, j: int| #[trigger] is_core(title, i, j) && kept == title.subrange(
        i,
        if j - i > 256 {
            i + 256
        } else {
            j
        },
    )
}

/// Whether a part of a text is all of it but the whitespace around it.
pub open spec fn is_core(s: Seq<char>, i: int, j: int) -> bool {
    &&& 0 <= i <= j <= s.len()
    &&& forall|k: int| 0 <= k < i || j <= k < s.len() ==> crate::text::is_white(#[trigger] s[k])
    &&& i < j ==> !crate::text::is_white(s[i]) && !crate::text::is_white(s[j - 1])
}

/// Whether a new task joined a bucket, at its front or its end, and nothing else
/// changed.
pub open spec fn has_joined(
    before: StoreView,
    after: StoreView,
    title: Seq<char>,
    b: Bucket,
    tag: Option<Tag>,
    created_at: u64,
    front: bool,
) -> bool {
    let old_members = members(before, b);
    let new_members = members(after, b);
    let at = if front {
        0
    } else {
        old_members.len() as int
    };
    &&& !holds(before, before.next_id)
    &&& after.next_id == before.next_id + 1
    &&& new_members.len() == old_members.len() + 1
    &&& new_members[at].id == before.next_id
    &&& is_kept(title, new_members[at].title)
    &&& new_members[at].tag == tag
    &&& new_members[at].created_at == created_at
    &&& all_alike(new_members.remove(at), old_members)
    &&& rest_kept(before, after, b, b)
}

proof fn lemma_core(s: Seq<char>) -> (part: (int, int))
    ensures
        is_core(s, part.0, part.1),
        crate::text::trim(s) == s.subrange(part.0, part.1),
{
    let i = lemma_start(s);
    crate::text::lemma_trim_start(s, i);
    let t = s.skip(i);
    let n = lemma_end(t);
    crate::text::lemma_trim_end(t, n);
    assert(t.take(n) =~= s.subrange(i, i + n));
    assert forall|k: int| 0 <= k < i || i + n <= k < s.len() implies crate::text::is_white(
        #[trigger] s[k],
    ) by {
        if k >= i {
            assert(t[k - i] == s[k]);
        }
    }
    if n > 0 {
        assert(t[0] == s[i] && t[n - 1] == s[i + n - 1]);
        if i == s.len() {
            assert(t.len() == 0);
        }
    }
    (i, i + n)
}

/// Where the whitespace in front of a text ends.
proof fn lemma_start(s: Seq<char>) -> (i: int)
    ensures
        0 <= i <= s.len(),
        forall|j: int| 0 <= j < i ==> crate::text::is_white(#[trigger] s[j]),
        i < s.len() ==> !crate::text::is_white(s[i]),
    decreases s.len(),
{
    if s.len() > 0 && crate::text::is_white(s[0]) {
        let rest = s.drop_first();
        let i = lemma_start(rest);
        assert forall|j: int| 0 <= j < i + 1 implies crate::text::is_white(#[trigger] s[j]) by {
            if j > 0 {
                assert(rest[j - 1] == s[j]);
            }
        }
        if i < rest.len() {
            assert(rest[i] == s[i + 1]);
        }
        i + 1
    } else {
        0
    }
}

/// Where the whitespace behind a text begins.
proof fn lemma_end(s: Seq<char>) -> (n: int)
    ensures
        0 <= n <= s.len(),
        forall|j: int| n <= j < s.len() ==> crate::text::is_white(#[trigger] s[j]),
        n > 0 ==> !crate::text::is_white(s[n - 1]),
    decreases s.len(),
{
    if s.len() > 0 && crate::text::is_white(s.last()) {
        let front = s.drop_last();
        let n = lemma_end(front);
        assert forall|j: int| n <= j < s.len() implies crate::text::is_white(#[trigger] s[j]) by {
            if j < front.len() {
                assert(front[j] == s[j]);
            }
        }
        n
    } else {
        s.len() as int
    }
}

/// Trimming takes away the whitespace around a text, and a kept title is the first
/// 256 characters of what is left.
pub proof fn law_a_title_is_trimmed_and_cut(title: Seq<char>)
    ensures
        is_kept(title, queue::bounded(title)),
        exists|i: int, j: int| #[trigger]
            is_core(title, i, j) && crate::text::trim(title) == title.subrange(i, j),
        forall|text: &str, kept: String|
            text@ == title && #[trigger] call_ensures(queue::bounded_title, (text,), kept)
                ==> is_kept(title, kept@),
{
    let (i, j) = lemma_core(title);
    assert(is_core(title, i, j));
    let t = crate::text::trim(title);
    if j - i > 256 {
        assert(t.take(256) =~= title.subrange(i, i + 256));
    }
    assert(is_kept(title, queue::bounded(title)));
}

proof fn lemma_joined(
    s: StoreView,
    title: Seq<char>,
    b: Bucket,
    tag: Option<Tag>,
    front: bool,
    created_at: u64,
    now: u64,
)
    requires
        sound(s),
        s.next_id < u64::MAX,
    ensures
        has_joined(
            s,
            s.added(title, b, tag, front, created_at, now),
            title,
            b,
            tag,
            created_at,
            front,
        ),
{
    lemma_sound(s);
    let after = s.added(title, b, tag, front, created_at, now);
    let task = TaskView {
        id: s.next_id,
        title: queue::bounded(title),
        bucket: b,
        tag,
        created_at,
        started_at: None,
        paused_at: None,
    };
    laws::law_adding_joins_one_bucket(s, title, b, tag, front, created_at, now, b);
    law_a_title_is_trimmed_and_cut(title);
    lemma_members(s, b);
    lemma_members(after, b);
    lemma_holds(s, s.next_id);
    let m = members(s, b);
    let n = members(after, b);
    let at = if front {
        0
    } else {
        m.len() as int
    };
    let want = if front {
        seq![task] + m
    } else {
        m.push(task)
    };
    lemma_plain_alike(n, want);
    assert(alike(n[at], want[at]));
    assert forall|i: int| 0 <= i < m.len() implies alike(#[trigger] n.remove(at)[i], m[i]) by {
        if front {
            assert(alike(n[i + 1], want[i + 1]));
        } else {
            assert(alike(n[i], want[i]));
        }
    }
    assert forall|x: Bucket| x != b implies all_alike(
        #[trigger] members(after, x),
        members(s, x),
    ) by {
        laws::law_adding_joins_one_bucket(s, title, b, tag, front, created_at, now, x);
        lemma_members(s, x);
        lemma_members(after, x);
        lemma_plain_alike(members(after, x), members(s, x));
    }
}

/// A task that is added has the id that was next, the title as it is kept, the tag
/// and the time that were given; it stands first or last in its bucket, and every
/// other task stays where it is.
pub proof fn law_an_added_task_is_what_was_asked_for(
    s: StoreView,
    title: &str,
    b: Bucket,
    tag: Option<Tag>,
    front: bool,
    created_at: u64,
    now: u64,
)
    requires
        sound(s),
        s.next_id < u64::MAX,
    ensures
        forall|m: &mut Store, id: u64|
            (*m)@ == s && #[trigger] call_ensures(
                Store::add_at,
                (m, title, b, tag, front, created_at, now),
                id,
            ) ==> id == s.next_id && has_joined(
                s,
                (*final(m))@,
                title@,
                b,
                tag,
                created_at,
                front,
            ),
        forall|m: &mut Store, id: u64|
            (*m)@ == s && #[trigger] call_ensures(Store::add, (m, title, b, tag, front), id) ==> id
                == s.next_id && exists|at: u64| #[trigger]
                has_joined(s, (*final(m))@, title@, b, tag, at, front),
{
    assert forall|c: u64, n: u64| #[trigger]
        has_joined(s, s.added(title@, b, tag, front, c, n), title@, b, tag, c, front) by {
        lemma_joined(s, title@, b, tag, front, c, n);
    }
    assert forall|m: &mut Store, id: u64|
        (*m)@ == s && #[trigger] call_ensures(Store::add, (m, title, b, tag, front), id)
            implies id == s.next_id && exists|at: u64| #[trigger]
        has_joined(s, (*final(m))@, title@, b, tag, at, front) by {
        let (c, n) = choose|c: u64, n: u64|
            (*final(m))@ == #[trigger] s.added(title@, b, tag, front, c, n);
        assert(has_joined(s, s.added(title@, b, tag, front, c, n), title@, b, tag, c, front));
    }
}

/// Quick-add adds the task that its text asks for: with that title and that tag, to
/// the bucket that it names or else the given one, first in Now and last in every
/// other bucket. A text that asks for nothing changes nothing.
pub proof fn law_quick_add_adds_what_the_text_asks_for(
    s: StoreView,
    input: &str,
    b: Bucket,
    created_at: u64,
    now: u64,
)
    requires
        sound(s),
        s.next_id < u64::MAX,
    ensures
        forall|m: &mut Store, id: Option<u64>|
            (*m)@ == s && #[trigger] call_ensures(
                Store::quick_add_at,
                (m, input, b, created_at, now),
                id,
            ) ==> is_quick_added(s, (*final(m))@, input@, b, created_at, id),
        forall|m: &mut Store, id: Option<u64>|
            (*m)@ == s && #[trigger] call_ensures(Store::quick_add, (m, input, b), id)
                ==> exists|at: u64| #[trigger]
                is_quick_added(s, (*final(m))@, input@, b, at, id),
{
    assert forall|c: u64, n: u64|
        is_quick_added(
            s,
            #[trigger] s.quick_added(input@, b, c, n),
            input@,
            b,
            c,
            if crate::quick::asked(input@) is Some {
                Some(s.next_id)
            } else {
                None
            },
        ) by {
        lemma_quick_added(s, input@, b, c, n);
    }
    assert forall|m: &mut Store, id: Option<u64>|
        (*m)@ == s && #[trigger] call_ensures(Store::quick_add, (m, input, b), id)
            implies exists|at: u64| #[trigger]
        is_quick_added(s, (*final(m))@, input@, b, at, id) by {
        let (c, n) = choose|c: u64, n: u64|
            (*final(m))@ == #[trigger] s.quick_added(input@, b, c, n);
        assert(is_quick_added(s, (*final(m))@, input@, b, c, id));
    }
}

/// Whether quick-add made this of a store.
pub open spec fn is_quick_added(
    before: StoreView,
    after: StoreView,
    input: Seq<char>,
    b: Bucket,
    created_at: u64,
    id: Option<u64>,
) -> bool {
    match crate::quick::asked(input) {
        None => id is None && after == before,
        Some(q) => {
            let to = match q.bucket {
                Some(named) => named,
                None => b,
            };
            &&& id == Some(before.next_id)
            &&& has_joined(before, after, q.title, to, q.tag, created_at, to == Bucket::Now)
        },
    }
}

proof fn lemma_quick_added(s: StoreView, input: Seq<char>, b: Bucket, created_at: u64, now: u64)
    requires
        sound(s),
        s.next_id < u64::MAX,
    ensures
        is_quick_added(
            s,
            s.quick_added(input, b, created_at, now),
            input,
            b,
            created_at,
            if crate::quick::asked(input) is Some {
                Some(s.next_id)
            } else {
                None
            },
        ),
{
    match crate::quick::asked(input) {
        None => {},
        Some(q) => {
            let to = match q.bucket {
                Some(named) => named,
                None => b,
            };
            lemma_joined(s, q.title, to, q.tag, to == Bucket::Now, created_at, now);
        },
    }
}

// ---- moving --------------------------------------------------------------------------

/// Whether one task went to a place of a bucket, counted among the others there, or
/// to its end, and every other task kept its bucket and its order.
pub open spec fn has_moved(
    before: StoreView,
    after: StoreView,
    id: u64,
    b: Bucket,
    index: Option<usize>,
    found: bool,
) -> bool {
    let there = others(members(before, b), id);
    let new_members = members(after, b);
    let at = match index {
        Some(i) => if i < there.len() {
            i as int
        } else {
            there.len() as int
        },
        None => there.len() as int,
    };
    &&& found == holds(before, id)
    &&& !found ==> after == before
    &&& found ==> {
        &&& after.next_id == before.next_id
        &&& new_members.len() == there.len() + 1
        &&& all_alike(new_members.remove(at), there)
        &&& forall|k: int|
            0 <= k < before.tasks.len() && (#[trigger] before.tasks[k]).id == id ==> alike(
                new_members[at],
                TaskView { bucket: b, ..before.tasks[k] },
            )
        &&& forall|x: Bucket|
            x != b ==> all_alike(#[trigger] members(after, x), others(members(before, x), id))
    }
}

proof fn lemma_has_moved(s: StoreView, id: u64, b: Bucket, index: Option<usize>, now: u64)
    requires
        sound(s),
    ensures
        has_moved(s, s.moved(id, b, index, now), id, b, index, s.has(id)),
{
    lemma_sound(s);
    lemma_holds(s, id);
    if s.has(id) {
        let after = s.moved(id, b, index, now);
        let there = others(members(s, b), id);
        let n = members(after, b);
        let at = laws::place_within(index, there.len());
        let task = TaskView { bucket: b, ..s.get(id)->0 };
        lemma_members(s, b);
        lemma_members(after, b);
        lemma_others(members(s, b), id);
        laws::law_move_keeps_the_order(s, id, b, index, now, b);
        let want = there.insert(at, task);
        lemma_plain_alike(n, want);
        assert forall|i: int| 0 <= i < there.len() implies alike(
            #[trigger] n.remove(at)[i],
            there[i],
        ) by {
            if i < at {
                assert(alike(n[i], want[i]));
            } else {
                assert(alike(n[i + 1], want[i + 1]));
            }
        }
        assert(alike(n[at], want[at]));
        assert forall|k: int| 0 <= k < s.tasks.len() && (#[trigger] s.tasks[k]).id == id
            implies alike(n[at], TaskView { bucket: b, ..s.tasks[k] }) by {
            laws::lemma_position(s, k);
        }
        assert forall|x: Bucket| x != b implies all_alike(
            #[trigger] members(after, x),
            others(members(s, x), id),
        ) by {
            laws::law_move_keeps_the_order(s, id, b, index, now, x);
            lemma_members(s, x);
            lemma_members(after, x);
            lemma_others(members(s, x), id);
            lemma_plain_alike(members(after, x), others(members(s, x), id));
        }
    }
}

/// A task that is moved stands at the place that was asked for, or at the end, with
/// nothing of it changed but its bucket; the other tasks keep their buckets and
/// their order. Promoting moves to the front of Now.
pub proof fn law_a_moved_task_stands_where_it_was_sent(
    s: StoreView,
    id: u64,
    b: Bucket,
    index: Option<usize>,
    now: u64,
)
    requires
        sound(s),
    ensures
        forall|m: &mut Store, found: bool|
            (*m)@ == s && #[trigger] call_ensures(Store::move_to_at, (m, id, b, index, now), found)
                ==> has_moved(s, (*final(m))@, id, b, index, found),
        forall|m: &mut Store, found: bool|
            (*m)@ == s && #[trigger] call_ensures(Store::move_to, (m, id, b, index), found)
                ==> has_moved(s, (*final(m))@, id, b, index, found),
        forall|m: &mut Store, found: bool|
            (*m)@ == s && #[trigger] call_ensures(Store::promote_at, (m, id, now), found)
                ==> has_moved(s, (*final(m))@, id, Bucket::Now, Some(0), found) && (found
                ==> works_on((*final(m))@, id)),
        forall|m: &mut Store, found: bool|
            (*m)@ == s && #[trigger] call_ensures(Store::promote, (m, id), found) ==> has_moved(
                s,
                (*final(m))@,
                id,
                Bucket::Now,
                Some(0),
                found,
            ) && (found ==> works_on((*final(m))@, id)),
{
    lemma_holds(s, id);
    assert forall|n: u64| has_moved(s, #[trigger] s.moved(id, b, index, n), id, b, index, s.has(id)) by {
        lemma_has_moved(s, id, b, index, n);
    }
    assert forall|n: u64|
        has_moved(s, #[trigger] s.promoted(id, n), id, Bucket::Now, Some(0), s.has(id)) && (s.has(
            id,
        ) ==> works_on(s.promoted(id, n), id)) by {
        lemma_has_moved(s, id, Bucket::Now, Some(0), n);
        if s.has(id) {
            order::lemma_first_where(s.tasks, order::has_id(id));
            assert(alike(
                members(s.promoted(id, n), Bucket::Now)[0],
                TaskView { bucket: Bucket::Now, ..s.tasks[s.position(id)] },
            ));
        }
    }
}

// ---- removing ------------------------------------------------------------------------

/// Whether one task is gone, and every other one kept its bucket and its order.
pub open spec fn has_gone(before: StoreView, after: StoreView, id: u64, found: bool) -> bool {
    &&& found == holds(before, id)
    &&& !found ==> after == before
    &&& !holds(after, id)
    &&& after.next_id == before.next_id
    &&& found ==> forall|x: Bucket|
        all_alike(#[trigger] members(after, x), others(members(before, x), id))
}

pub(crate) proof fn lemma_has_gone(s: StoreView, id: u64, now: u64)
    ensures
        has_gone(s, s.removed(id, now), id, s.has(id)),
{
    let after = s.removed(id, now);
    lemma_holds(s, id);
    lemma_holds(after, id);
    laws::law_removing_leaves_the_others(s, id, now, Bucket::Now);
    if s.has(id) {
        assert forall|x: Bucket|
            all_alike(#[trigger] members(after, x), others(members(s, x), id)) by {
            laws::law_removing_leaves_the_others(s, id, now, x);
            lemma_members(s, x);
            lemma_members(after, x);
            lemma_others(members(s, x), id);
            lemma_plain_alike(members(after, x), others(members(s, x), id));
        }
    }
}

/// A removed task is gone, and the others stay in their buckets in their order. An
/// id that no task has changes nothing.
pub proof fn law_a_removed_task_is_gone(s: StoreView, id: u64, now: u64)
    ensures
        forall|m: &mut Store, found: bool|
            (*m)@ == s && #[trigger] call_ensures(Store::remove_at, (m, id, now), found)
                ==> has_gone(s, (*final(m))@, id, found),
        forall|m: &mut Store, found: bool|
            (*m)@ == s && #[trigger] call_ensures(Store::remove, (m, id), found) ==> has_gone(
                s,
                (*final(m))@,
                id,
                found,
            ),
{
    lemma_holds(s, id);
    assert forall|n: u64| has_gone(s, #[trigger] s.removed(id, n), id, s.has(id)) by {
        lemma_has_gone(s, id, n);
    }
}

// ---- shifting ------------------------------------------------------------------------

/// Whether a task went so many places down among the tasks of its bucket, no further
/// than to the first or the last, and everything else stayed in order.
pub open spec fn has_shifted(
    before: StoreView,
    after: StoreView,
    id: u64,
    delta: i32,
    moved: bool,
) -> bool {
    &&& !holds(before, id) ==> !moved
    &&& !moved ==> after == before
    &&& after.next_id == before.next_id
    &&& forall|b: Bucket, i: int|
        0 <= i < members(before, b).len() && (#[trigger] members(before, b)[i]).id == id ==> {
            let n = members(before, b).len();
            let to = if i + delta < 0 {
                0
            } else if i + delta > n - 1 {
                n - 1
            } else {
                i + delta
            };
            &&& moved == (to != i)
            &&& members(after, b).len() == n
            &&& alike(members(after, b)[to], members(before, b)[i])
            &&& all_alike(members(after, b).remove(to), members(before, b).remove(i))
            &&& rest_kept(before, after, b, b)
        }
}

proof fn lemma_place_in_bucket(s: StoreView, id: u64, b: Bucket, i: int)
    requires
        sound(s),
        0 <= i < members(s, b).len(),
        members(s, b)[i].id == id,
    ensures
        s.has(id),
        s.get(id)->0.bucket == b,
        s.get(id)->0 == members(s, b)[i],
        s.rank(id) == i,
{
    lemma_sound(s);
    lemma_members(s, b);
    let m = members(s, b);
    order::lemma_filter_all(s.tasks, order::is_in(b));
    assert(s.tasks.contains(m[i]));
    let k = choose|k: int| 0 <= k < s.tasks.len() && s.tasks[k] == m[i];
    laws::lemma_position(s, k);
    laws::lemma_filter_unique(s.tasks, order::is_in(b), 0);
    assert forall|j: int| 0 <= j < i implies !order::has_id(id)(#[trigger] m[j]) by {
        assert(m[j].id != m[i].id);
    }
    order::lemma_first_where_is(m, order::has_id(id), i);
}

proof fn lemma_has_shifted(s: StoreView, id: u64, delta: i32, now: u64)
    requires
        sound(s),
        s.tasks.len() <= usize::MAX,
    ensures
        has_shifted(s, s.shifted(id, delta, now), id, delta, s.shifts(id, delta)),
{
    lemma_sound(s);
    lemma_holds(s, id);
    let after = s.shifted(id, delta, now);
    assert forall|b: Bucket, i: int|
        0 <= i < members(s, b).len() && (#[trigger] members(s, b)[i]).id == id implies {
            let n = members(s, b).len();
            let to = if i + delta < 0 {
                0
            } else if i + delta > n - 1 {
                n - 1
            } else {
                i + delta
            };
            &&& s.shifts(id, delta) == (to != i)
            &&& members(after, b).len() == n
            &&& alike(members(after, b)[to], members(s, b)[i])
            &&& all_alike(members(after, b).remove(to), members(s, b).remove(i))
            &&& rest_kept(s, after, b, b)
        } by {
        lemma_place_in_bucket(s, id, b, i);
        lemma_members(s, b);
        lemma_members(after, b);
        let m = members(s, b);
        let n = members(after, b);
        let to = s.shift_target(id, delta);
        if s.shifts(id, delta) {
            laws::law_shift_stays_in_the_bucket(s, id, delta, now, b);
            let want = m.remove(i).insert(to, m[i]);
            lemma_plain_alike(n, want);
            assert(alike(n[to], want[to]));
            assert forall|j: int| 0 <= j < m.len() - 1 implies alike(
                #[trigger] n.remove(to)[j],
                m.remove(i)[j],
            ) by {
                if j < to {
                    assert(alike(n[j], want[j]));
                } else {
                    assert(alike(n[j + 1], want[j + 1]));
                }
            }
            assert forall|x: Bucket| x != b implies all_alike(
                #[trigger] members(after, x),
                members(s, x),
            ) by {
                laws::law_shift_stays_in_the_bucket(s, id, delta, now, x);
                lemma_members(s, x);
                lemma_members(after, x);
                lemma_plain_alike(members(after, x), members(s, x));
            }
        }
    }
}

/// A shift takes a task exactly so many places down its bucket as were asked for, or
/// up where they are below zero, and stops at the ends; it is refused where that is
/// where the task stands already.
pub proof fn law_a_shift_goes_the_steps_asked_for(s: StoreView, id: u64, delta: i32, now: u64)
    requires
        sound(s),
    ensures
        forall|m: &mut Store, moved: bool|
            (*m)@ == s && #[trigger] call_ensures(Store::shift_at, (m, id, delta, now), moved)
                ==> has_shifted(s, (*final(m))@, id, delta, moved),
        forall|m: &mut Store, moved: bool|
            (*m)@ == s && #[trigger] call_ensures(Store::shift, (m, id, delta), moved)
                ==> has_shifted(s, (*final(m))@, id, delta, moved),
{
    assert forall|m: &mut Store| #[trigger] (*m)@ == s implies s.tasks.len() <= usize::MAX by {
        assert((*m).tasks.len() == (*m).tasks@.len());
        assert((*m)@.tasks.len() == (*m).tasks@.len());
    }
    if s.tasks.len() <= usize::MAX {
        assert forall|n: u64|
            has_shifted(s, #[trigger] s.shifted(id, delta, n), id, delta, s.shifts(id, delta)) by {
            lemma_has_shifted(s, id, delta, n);
        }
    }
}

// ---- changing a task in place --------------------------------------------------------

/// Whether the tasks with other ids are as they were, each at its place.
pub open spec fn kept_but(before: StoreView, after: StoreView, id: u64) -> bool {
    &&& after.next_id == before.next_id
    &&& after.tasks.len() == before.tasks.len()
    &&& forall|i: int|
        0 <= i < before.tasks.len() && before.tasks[i].id != id ==> #[trigger] after.tasks[i]
            == before.tasks[i]
}

/// Whether a task has a tag now and is otherwise as it was, like all the others.
pub open spec fn has_tag(
    before: StoreView,
    after: StoreView,
    id: u64,
    tag: Option<Tag>,
    found: bool,
) -> bool {
    &&& found == holds(before, id)
    &&& kept_but(before, after, id)
    &&& forall|i: int|
        0 <= i < before.tasks.len() && before.tasks[i].id == id ==> #[trigger] after.tasks[i] == (
        TaskView { tag, ..before.tasks[i] })
}

/// Setting a tag gives the task exactly that tag, whatever it had, or none; cycling
/// goes from none to work, from there to personal, and from there to none. Nothing
/// else changes.
pub proof fn law_a_tag_is_what_was_set(s: StoreView, id: u64, tag: Option<Tag>)
    requires
        sound(s),
    ensures
        forall|m: &mut Store, found: bool|
            (*m)@ == s && #[trigger] call_ensures(Store::set_tag, (m, id, tag), found) ==> has_tag(
                s,
                (*final(m))@,
                id,
                tag,
                found,
            ),
        forall|m: &mut Store, found: bool|
            (*m)@ == s && #[trigger] call_ensures(Store::cycle_tag, (m, id), found) ==> forall|
                i: int,
            |
                0 <= i < s.tasks.len() && (#[trigger] s.tasks[i]).id == id ==> has_tag(
                    s,
                    (*final(m))@,
                    id,
                    match s.tasks[i].tag {
                        None => Some(Tag::Work),
                        Some(Tag::Work) => Some(Tag::Personal),
                        Some(Tag::Personal) => None,
                    },
                    found,
                ),
        forall|m: &mut Store, found: bool|
            (*m)@ == s && #[trigger] call_ensures(Store::cycle_tag, (m, id), found) && !holds(s, id)
                ==> !found && (*final(m))@ == s,
{
    lemma_sound(s);
    lemma_holds(s, id);
    assert forall|i: int| 0 <= i < s.tasks.len() && (#[trigger] s.tasks[i]).id == id implies i
        == s.position(id) by {
        laws::lemma_position(s, i);
    }
}

/// Whether a task has a title now and is otherwise as it was, like all the others.
pub open spec fn has_title(
    before: StoreView,
    after: StoreView,
    id: u64,
    title: Seq<char>,
    renamed: bool,
) -> bool {
    &&& renamed == (holds(before, id) && exists|k: int|
        0 <= k < title.len() && !crate::text::is_white(#[trigger] title[k]))
    &&& !renamed ==> after == before
    &&& kept_but(before, after, id)
    &&& renamed ==> forall|i: int|
        0 <= i < before.tasks.len() && before.tasks[i].id == id ==> {
            &&& is_kept(title, (#[trigger] after.tasks[i]).title)
            &&& after.tasks[i] == (TaskView { title: after.tasks[i].title, ..before.tasks[i] })
        }
}

proof fn lemma_has_title(s: StoreView, id: u64, title: Seq<char>)
    requires
        sound(s),
    ensures
        has_title(s, s.renamed(id, title), id, title, s.renames(id, title)),
{
    lemma_sound(s);
    lemma_holds(s, id);
    law_a_title_is_trimmed_and_cut(title);
    let (i, j) = lemma_core(title);
    if i < j {
        assert(!crate::text::is_white(title[i]));
    }
    assert(queue::bounded(title).len() > 0 <==> i < j);
    assert forall|i: int| 0 <= i < s.tasks.len() && (#[trigger] s.tasks[i]).id == id implies i
        == s.position(id) by {
        laws::lemma_position(s, i);
    }
}

/// Renaming gives a task the new title as it is kept, and changes nothing else; a
/// title of whitespace only is refused.
pub proof fn law_a_renamed_task_has_the_title(s: StoreView, id: u64, title: &str)
    requires
        sound(s),
    ensures
        forall|m: &mut Store, renamed: bool|
            (*m)@ == s && #[trigger] call_ensures(Store::rename, (m, id, title), renamed)
                ==> has_title(s, (*final(m))@, id, title@, renamed),
{
    lemma_has_title(s, id, title@);
}

// ---- the timer -----------------------------------------------------------------------

/// The clock of a task shows the seconds since it started, or up to its pause: the
/// start and what the clock shows together are now, or the time of the pause. A task
/// that was not started shows nothing.
pub proof fn law_the_clock_shows_the_time_since_the_start(t: Task, now: u64)
    ensures
        forall|secs: Option<u64>| #[trigger]
            call_ensures(Task::elapsed_secs, (&t, now), secs) ==> match (
                t.started_at,
                t.paused_at,
            ) {
                (None, _) => secs is None,
                (Some(start), None) => secs is Some && (if now >= start {
                    start + secs->0 == now
                } else {
                    secs->0 == 0
                }),
                (Some(start), Some(pause)) => secs is Some && (if pause >= start {
                    start + secs->0 == pause
                } else {
                    secs->0 == 0
                }),
            },
        forall|paused: bool| #[trigger]
            call_ensures(Task::is_paused, (&t,), paused) ==> paused == (t.started_at is Some
                && t.paused_at is Some),
{
}

/// A running clock goes on a second every second.
pub proof fn law_a_running_clock_goes_on(t: Task, now: u64, secs: Option<u64>, next: Option<u64>)
    requires
        t.started_at is Some,
        t.paused_at is None,
        t.started_at->0 <= now < u64::MAX,
        call_ensures(Task::elapsed_secs, (&t, now), secs),
        call_ensures(Task::elapsed_secs, (&t, (now + 1) as u64), next),
    ensures
        next is Some && secs is Some && next->0 == secs->0 + 1,
{
}

/// Whether the timers are right behind a change at a time: exactly the task being
/// worked on has one, and that runs on where it was worked on before, and starts
/// where it was not.
pub open spec fn timer_runs(before: StoreView, after: StoreView, now: u64) -> bool {
    let m = members(after, Bucket::Now);
    &&& timers_stand(after)
    &&& m.len() > 0 ==> if works_on(before, m[0].id) {
        &&& m[0].started_at == members(before, Bucket::Now)[0].started_at
        &&& m[0].paused_at == members(before, Bucket::Now)[0].paused_at
    } else {
        m[0].started_at == Some(now) && m[0].paused_at is None
    }
}

proof fn lemma_timer_runs(before: StoreView, after: StoreView, now: u64)
    requires
        laws::valid(after),
        laws::timer_follows(before, after, now),
    ensures
        timer_runs(before, after, now),
{
    lemma_sound(after);
    lemma_works_on(before);
    lemma_members(before, Bucket::Now);
    lemma_members(after, Bucket::Now);
    laws::law_current_is_the_head_of_now(before);
    laws::law_current_is_the_head_of_now(after);
    let m = members(after, Bucket::Now);
    if m.len() > 0 {
        assert(works_on(before, m[0].id) == (before.current_id() == Some(m[0].id)));
    }
}

/// Whatever makes a task the current one starts its timer at that time, without a
/// pause; a task that stays current keeps its timer, and no other task has one.
pub proof fn law_every_change_leaves_the_timers_right(
    s: StoreView,
    id: u64,
    title: &str,
    b: Bucket,
    tag: Option<Tag>,
    front: bool,
    index: Option<usize>,
    delta: i32,
    created_at: u64,
    now: u64,
)
    requires
        sound(s),
    ensures
        s.next_id < u64::MAX ==> forall|m: &mut Store, i: u64|
            (*m)@ == s && #[trigger] call_ensures(
                Store::add_at,
                (m, title, b, tag, front, created_at, now),
                i,
            ) ==> timer_runs(s, (*final(m))@, now),
        s.next_id < u64::MAX ==> forall|m: &mut Store, i: Option<u64>|
            (*m)@ == s && #[trigger] call_ensures(
                Store::quick_add_at,
                (m, title, b, created_at, now),
                i,
            ) ==> timer_runs(s, (*final(m))@, now),
        forall|m: &mut Store, found: bool|
            (*m)@ == s && #[trigger] call_ensures(Store::remove_at, (m, id, now), found)
                ==> timer_runs(s, (*final(m))@, now),
        forall|m: &mut Store, found: bool|
            (*m)@ == s && #[trigger] call_ensures(Store::move_to_at, (m, id, b, index, now), found)
                ==> timer_runs(s, (*final(m))@, now),
        forall|m: &mut Store, found: bool|
            (*m)@ == s && #[trigger] call_ensures(Store::promote_at, (m, id, now), found)
                ==> timer_runs(s, (*final(m))@, now),
        forall|m: &mut Store, found: bool|
            (*m)@ == s && #[trigger] call_ensures(Store::shift_at, (m, id, delta, now), found)
                ==> timer_runs(s, (*final(m))@, now),
        forall|m: &mut Store, done: Option<Completed>|
            (*m)@ == s && #[trigger] call_ensures(Store::complete_current_at, (m, now), done)
                ==> timer_runs(s, (*final(m))@, now),
{
    lemma_timers(s, id, title@, b, tag, front, index, delta, created_at, now);
}

pub(crate) proof fn lemma_timers(
    s: StoreView,
    id: u64,
    title: Seq<char>,
    b: Bucket,
    tag: Option<Tag>,
    front: bool,
    index: Option<usize>,
    delta: i32,
    created_at: u64,
    now: u64,
)
    requires
        sound(s),
    ensures
        s.next_id < u64::MAX ==> timer_runs(
            s,
            s.added(title, b, tag, front, created_at, now),
            now,
        ),
        s.next_id < u64::MAX ==> timer_runs(s, s.quick_added(title, b, created_at, now), now),
        timer_runs(s, s.removed(id, now), now),
        timer_runs(s, s.moved(id, b, index, now), now),
        timer_runs(s, s.promoted(id, now), now),
        timer_runs(s, s.shifted(id, delta, now), now),
        timer_runs(s, s.completed(now), now),
{
    lemma_sound(s);
    laws::law_changes_keep_a_store_valid(
        s,
        id,
        title,
        b,
        tag,
        front,
        index,
        delta,
        created_at,
        now,
    );
    laws::law_becoming_current_starts_the_timer(
        s,
        id,
        title,
        b,
        tag,
        front,
        index,
        delta,
        created_at,
        now,
    );
    if s.next_id < u64::MAX {
        lemma_timer_runs(s, s.added(title, b, tag, front, created_at, now), now);
        lemma_timer_runs(s, s.quick_added(title, b, created_at, now), now);
    }
    lemma_timer_runs(s, s.removed(id, now), now);
    lemma_timer_runs(s, s.moved(id, b, index, now), now);
    lemma_timer_runs(s, s.promoted(id, now), now);
    lemma_timer_runs(s, s.shifted(id, delta, now), now);
    lemma_timer_runs(s, s.completed(now), now);
}

/// Whether the timer of the task being worked on was paused, or went on again with
/// the time that it showed, and nothing else changed.
pub open spec fn has_toggled(before: StoreView, after: StoreView, now: u64, toggled: bool) -> bool {
    &&& toggled == (members(before, Bucket::Now).len() > 0)
    &&& !toggled ==> after == before
    &&& after.next_id == before.next_id
    &&& after.tasks.len() == before.tasks.len()
    &&& forall|i: int|
        #![trigger after.tasks[i]]
        #![trigger before.tasks[i]]
        0 <= i < before.tasks.len() ==> {
            let (t, u) = (before.tasks[i], after.tasks[i]);
            let start = t.started_at->0;
            &&& alike(t, u)
            &&& if !works_on(before, t.id) {
                u == t
            } else {
                match t.paused_at {
                    None => u.started_at == t.started_at && u.paused_at == Some(
                        if now >= start {
                            now
                        } else {
                            start
                        },
                    ),
                    Some(pause) => {
                        &&& u.paused_at is None
                        &&& u.started_at is Some
                        &&& now < pause ==> u.started_at == t.started_at
                        &&& now >= pause && start + (now - pause) <= u64::MAX ==> u.started_at->0
                            - start == now - pause
                    },
                }
            }
        }
}

/// Pausing stops the clock of the task being worked on at that time, or at its start
/// where that is later; resuming moves its start by as long as the pause was. No
/// other task is touched, and without a current task there is nothing to pause.
pub proof fn law_a_pause_stops_the_current_clock(s: StoreView, now: u64)
    requires
        sound(s),
    ensures
        forall|m: &mut Store, toggled: bool|
            (*m)@ == s && #[trigger] call_ensures(Store::toggle_pause_at, (m, now), toggled)
                ==> has_toggled(s, (*final(m))@, now, toggled),
        forall|m: &mut Store, toggled: bool|
            (*m)@ == s && #[trigger] call_ensures(Store::toggle_pause, (m,), toggled)
                ==> exists|at: u64| #[trigger] has_toggled(s, (*final(m))@, at, toggled),
{
    assert forall|n: u64| has_toggled(s, #[trigger] s.pause_toggled(n), n, s.can_pause()) by {
        lemma_has_toggled(s, n);
    }
    assert forall|m: &mut Store, toggled: bool|
        (*m)@ == s && #[trigger] call_ensures(Store::toggle_pause, (m,), toggled)
            implies exists|at: u64| #[trigger] has_toggled(s, (*final(m))@, at, toggled) by {
        let n = choose|n: u64| (*final(m))@ == #[trigger] s.pause_toggled(n);
        assert(has_toggled(s, (*final(m))@, n, toggled));
    }
}

proof fn lemma_has_toggled(s: StoreView, now: u64)
    requires
        sound(s),
    ensures
        has_toggled(s, s.pause_toggled(now), now, s.can_pause()),
{
    lemma_sound(s);
    lemma_works_on(s);
    lemma_members(s, Bucket::Now);
    laws::law_current_is_the_head_of_now(s);
    let after = s.pause_toggled(now);
    if members(s, Bucket::Now).len() > 0 {
        let id = s.current_id()->0;
        queue::lemma_current_is_found(s);
        order::lemma_first_where(s.tasks, order::has_id(id));
        let k = s.position(id);
        assert(s.tasks[k].id == id);
        assert(s.tasks[k].started_at is Some);
        assert(s.can_pause());
    }
    assert forall|i: int|
        #![trigger after.tasks[i]]
        #![trigger s.tasks[i]]
        0 <= i < s.tasks.len() implies alike(s.tasks[i], after.tasks[i]) && (works_on(
        s,
        s.tasks[i].id,
    ) ==> s.can_pause() && i == s.position(s.current_id()->0) && s.tasks[i].started_at is Some) && (
    !works_on(s, s.tasks[i].id) ==> after.tasks[i] == s.tasks[i]) by {
        assert(works_on(s, s.tasks[i].id) == (s.current_id() == Some(s.tasks[i].id)));
        laws::lemma_position(s, i);
        if s.can_pause() {
            laws::law_pausing_touches_the_current_task_only(s, now, i);
        }
    }
}

// ---- completing and undoing ----------------------------------------------------------

/// Whether the task being worked on was completed: it is gone; where it was the only
/// one of Now, the first of Next took its place; and everything else stayed.
pub open spec fn has_completed(
    before: StoreView,
    after: StoreView,
    done: Option<CompletedView>,
) -> bool {
    let now = members(before, Bucket::Now);
    let next = members(before, Bucket::Next);
    let pulls = now.len() == 1 && next.len() > 0;
    if now.len() == 0 {
        done is None && after == before
    } else {
        &&& done matches Some(d)
        &&& d.task == now[0]
        &&& d.pulled == (if pulls {
            Some(next[0].id)
        } else {
            None
        })
        &&& after.next_id == before.next_id
        &&& !holds(after, now[0].id)
        &&& if pulls {
            &&& members(after, Bucket::Now).len() == 1
            &&& alike(
                members(after, Bucket::Now)[0],
                TaskView { bucket: Bucket::Now, ..next[0] },
            )
            &&& all_alike(members(after, Bucket::Next), next.drop_first())
        } else {
            &&& all_alike(members(after, Bucket::Now), now.drop_first())
            &&& all_alike(members(after, Bucket::Next), next)
        }
        &&& rest_kept(before, after, Bucket::Now, Bucket::Next)
    }
}

pub(crate) proof fn lemma_has_completed(s: StoreView, now: u64)
    requires
        sound(s),
    ensures
        has_completed(s, s.completed(now), s.completion()),
        timer_runs(s, s.completed(now), now),
{
    lemma_timers(s, 0, seq![], Bucket::Now, None, false, None, 0, now, now);
    lemma_sound(s);
    lemma_members(s, Bucket::Now);
    lemma_members(s, Bucket::Next);
    laws::law_current_is_the_head_of_now(s);
    let after = s.completed(now);
    if members(s, Bucket::Now).len() > 0 {
        laws::law_completing_pulls_from_next(s, now, Bucket::Now);
        laws::law_completing_pulls_from_next(s, now, Bucket::Next);
        lemma_members(after, Bucket::Now);
        lemma_members(after, Bucket::Next);
        lemma_holds(after, s.current_id()->0);
        lemma_plain_alike(
            members(after, Bucket::Now),
            laws::bucket_after_completion(s, Bucket::Now),
        );
        lemma_plain_alike(
            members(after, Bucket::Next),
            laws::bucket_after_completion(s, Bucket::Next),
        );
        assert forall|x: Bucket| x != Bucket::Now && x != Bucket::Next implies all_alike(
            #[trigger] members(after, x),
            members(s, x),
        ) by {
            laws::law_completing_pulls_from_next(s, now, x);
            lemma_members(s, x);
            lemma_members(after, x);
            lemma_plain_alike(members(after, x), members(s, x));
        }
    }
}

/// Completing deletes the first task of Now and gives it back; the first of Next
/// comes to Now exactly where Now is left empty; and nothing else moves.
pub proof fn law_completing_takes_the_first_of_now(s: StoreView, now: u64)
    requires
        sound(s),
    ensures
        forall|m: &mut Store, done: Option<Completed>|
            (*m)@ == s && #[trigger] call_ensures(Store::complete_current_at, (m, now), done)
                ==> has_completed(s, (*final(m))@, completed_view(done)),
        forall|m: &mut Store, done: Option<Completed>|
            (*m)@ == s && #[trigger] call_ensures(Store::complete_current, (m,), done)
                ==> has_completed(s, (*final(m))@, completed_view(done)),
{
    assert forall|n: u64| has_completed(s, #[trigger] s.completed(n), s.completion()) by {
        lemma_has_completed(s, n);
    }
}

pub open spec fn completed_view(done: Option<Completed>) -> Option<CompletedView> {
    match done {
        Some(d) => Some(d@),
        None => None,
    }
}

/// Whether a completion was undone: the completed task is first in Now again, with
/// its clock; the pulled one, where it still is in Now, is first in Next again; and
/// everything else stayed.
pub open spec fn has_returned(
    before: StoreView,
    after: StoreView,
    done: CompletedView,
    undone: bool,
) -> bool {
    let goes_back = done.pulled is Some && stands_in(before, Bucket::Now, done.pulled->0);
    let now = if goes_back {
        others(members(before, Bucket::Now), done.pulled->0)
    } else {
        members(before, Bucket::Now)
    };
    let next = members(before, Bucket::Next);
    &&& undone == !holds(before, done.task.id)
    &&& !undone ==> after == before
    &&& undone ==> {
        &&& after.next_id == before.next_id
        &&& members(after, Bucket::Now).len() == now.len() + 1
        &&& alike(
            members(after, Bucket::Now)[0],
            TaskView { bucket: Bucket::Now, ..done.task },
        )
        &&& done.task.started_at is Some ==> members(after, Bucket::Now)[0].started_at
            == done.task.started_at && members(after, Bucket::Now)[0].paused_at
            == done.task.paused_at
        &&& all_alike(members(after, Bucket::Now).drop_first(), now)
        &&& if goes_back {
            &&& members(after, Bucket::Next).len() == next.len() + 1
            &&& members(after, Bucket::Next)[0].id == done.pulled->0
            &&& all_alike(members(after, Bucket::Next).drop_first(), next)
        } else {
            all_alike(members(after, Bucket::Next), next)
        }
        &&& rest_kept(before, after, Bucket::Now, Bucket::Next)
        &&& timers_stand(after)
    }
}

/// Whether a bucket has a task.
pub open spec fn stands_in(s: StoreView, b: Bucket, id: u64) -> bool {
    exists|i: int| 0 <= i < members(s, b).len() && (#[trigger] members(s, b)[i]).id == id
}

proof fn lemma_stands_in(s: StoreView, b: Bucket, id: u64)
    requires
        sound(s),
    ensures
        stands_in(s, b, id) == (s.has(id) && s.get(id)->0.bucket == b),
        !stands_in(s, b, id) ==> others(members(s, b), id) == members(s, b),
{
    lemma_sound(s);
    lemma_members(s, b);
    lemma_others(members(s, b), id);
    if stands_in(s, b, id) {
        let i = choose|i: int| 0 <= i < members(s, b).len() && (#[trigger] members(s, b)[i]).id
            == id;
        lemma_place_in_bucket(s, id, b, i);
    }
    if s.has(id) && s.get(id)->0.bucket == b {
        queue::lemma_member_of_bucket(s, id);
        order::lemma_first_where(members(s, b), order::has_id(id));
        assert(members(s, b)[s.rank(id)].id == id);
    }
    if !stands_in(s, b, id) {
        let m = members(s, b);
        assert forall|i: int| 0 <= i < m.len() implies order::other_id(id)(#[trigger] m[i]) by {}
        queue::lemma_filter_keeps(m, order::other_id(id));
    }
}

pub(crate) proof fn lemma_has_returned(s: StoreView, done: CompletedView, now: u64)
    requires
        sound(s),
        done.task.id < s.next_id,
    ensures
        has_returned(s, s.restored(done, now), done, !s.has(done.task.id)),
{
    lemma_sound(s);
    lemma_holds(s, done.task.id);
    if !s.has(done.task.id) {
        let after = s.restored(done, now);
        let base = laws::restore_base(s, done, now);
        let task = TaskView { bucket: Bucket::Now, ..done.task };
        let h = base.head(Bucket::Now);
        let placed = StoreView { tasks: base.tasks.insert(h, task), ..base };
        let goes_back = done.pulled is Some && stands_in(s, Bucket::Now, done.pulled->0);
        order::lemma_first_where(base.tasks, order::is_in(Bucket::Now));
        laws::lemma_restored_valid(s, done, now);
        lemma_sound(after);
        // What the pulled task leaves.
        if done.pulled is Some {
            lemma_stands_in(s, Bucket::Now, done.pulled->0);
        }
        if goes_back {
            lemma_has_moved(s, done.pulled->0, Bucket::Next, Some(0), now);
            lemma_holds(s, done.pulled->0);
            order::lemma_first_where(s.tasks, order::has_id(done.pulled->0));
            lemma_stands_in(s, Bucket::Next, done.pulled->0);
            let k = s.position(done.pulled->0);
            assert(s.tasks[k].id == done.pulled->0);
        }
        // What the completed task adds.
        laws::lemma_insert_first(base.tasks, task);
        laws::lemma_normalized_buckets(placed, now, Bucket::Now);
        lemma_members(base, Bucket::Now);
        lemma_members(after, Bucket::Now);
        lemma_members(placed, Bucket::Now);
        lemma_plain_alike(members(after, Bucket::Now), members(placed, Bucket::Now));
        let m = members(after, Bucket::Now);
        assert(members(placed, Bucket::Now) == seq![task] + members(base, Bucket::Now));
        assert(alike(m[0], members(placed, Bucket::Now)[0]));
        assert forall|i: int| 0 <= i < members(base, Bucket::Now).len() implies alike(
            #[trigger] m.drop_first()[i],
            members(base, Bucket::Now)[i],
        ) by {
            assert(alike(m[i + 1], members(placed, Bucket::Now)[i + 1]));
        }
        assert forall|x: Bucket| x != Bucket::Now implies all_alike(
            #[trigger] members(after, x),
            members(base, x),
        ) by {
            laws::lemma_insert_filter(base.tasks, h, task, order::is_in(x));
            laws::lemma_normalized_buckets(placed, now, x);
            lemma_members(base, x);
            lemma_members(after, x);
            lemma_members(placed, x);
            lemma_plain_alike(members(after, x), members(base, x));
        }
        assert forall|x: Bucket| x != Bucket::Now && x != Bucket::Next implies all_alike(
            #[trigger] members(after, x),
            members(s, x),
        ) by {
            assert(all_alike(members(after, x), members(base, x)));
            if goes_back {
                lemma_stands_in(s, x, done.pulled->0);
                assert(all_alike(members(base, x), others(members(s, x), done.pulled->0)));
            }
        }
        assert(all_alike(members(after, Bucket::Next), members(base, Bucket::Next)));
        if goes_back {
            let there = others(members(s, Bucket::Now), done.pulled->0);
            assert(all_alike(members(base, Bucket::Now), there));
            let n = members(base, Bucket::Next);
            assert(n.remove(0) =~= n.drop_first());
            assert forall|i: int| 0 <= i < members(s, Bucket::Next).len() implies alike(
                #[trigger] members(after, Bucket::Next).drop_first()[i],
                members(s, Bucket::Next)[i],
            ) by {
                assert(alike(members(after, Bucket::Next)[i + 1], n[i + 1]));
                assert(alike(n.remove(0)[i], members(s, Bucket::Next)[i]));
            }
        }
        // The clock.
        laws::lemma_normalized_plain(placed, now);
        order::lemma_first_where_is(placed.tasks, order::is_in(Bucket::Now), h);
        laws::lemma_ids_ignore_timer(0, Bucket::Now);
        laws::lemma_plain_first(after.tasks, placed.tasks, order::is_in(Bucket::Now));
        laws::law_current_is_the_head_of_now(after);
        assert(after.tasks[h] == queue::timed(task, Some(task.id), now));
        assert(after.current() == Some(after.tasks[h]));
    }
}

/// Undoing a completion puts the completed task first in Now again, clock and all,
/// and the pulled one back at the head of Next; it is refused where a task with that
/// id is there.
pub proof fn law_undoing_puts_the_task_back(s: StoreView, done: Completed, now: u64)
    requires
        sound(s),
        done@.task.id < s.next_id,
    ensures
        forall|m: &mut Store, undone: bool|
            (*m)@ == s && #[trigger] call_ensures(Store::undo_complete_at, (m, done, now), undone)
                ==> has_returned(s, (*final(m))@, done@, undone),
        forall|m: &mut Store, undone: bool|
            (*m)@ == s && #[trigger] call_ensures(Store::undo_complete, (m, done), undone)
                ==> has_returned(s, (*final(m))@, done@, undone),
{
    assert forall|n: u64|
        has_returned(s, #[trigger] s.restored(done@, n), done@, !s.has(done@.task.id)) by {
        lemma_has_returned(s, done@, n);
    }
}

/// Completing and undoing gives every bucket back as it was, timers and all.
pub proof fn law_undoing_reverses_completing(
    s: StoreView,
    a: u64,
    b: u64,
    done: Option<Completed>,
    mid: StoreView,
    x: Bucket,
)
    requires
        sound(s),
        members(s, Bucket::Now).len() > 0,
        exists|m: &mut Store|
            (*m)@ == s && (*final(m))@ == mid && #[trigger] call_ensures(
                Store::complete_current_at,
                (m, a),
                done,
            ),
    ensures
        done is Some,
        forall|m: &mut Store, undone: bool|
            (*m)@ == mid && #[trigger] call_ensures(
                Store::undo_complete_at,
                (m, done->0, b),
                undone,
            ) ==> undone && members((*final(m))@, x) == members(s, x) && (*final(m))@.next_id
                == s.next_id,
{
    lemma_sound(s);
    lemma_members(s, Bucket::Now);
    laws::law_current_is_the_head_of_now(s);
    laws::law_undo_reverses_a_completion(s, a, b, x);
    lemma_members(s, x);
    let back = mid.restored(s.completion()->0, b);
    lemma_members(back, x);
}

// ---- changes -------------------------------------------------------------------------

/// Whether a task that was dropped on a bucket's list landed there: right before the
/// row that it was dropped on, where it is where that is its own, and last where it
/// was dropped on none.
pub open spec fn has_landed(
    before: StoreView,
    after: StoreView,
    id: u64,
    b: Bucket,
    index: Option<usize>,
) -> bool {
    let rows = members(before, b);
    let new_rows = members(after, b);
    if index is Some && index->0 < rows.len() {
        let i = index->0 as int;
        if rows[i].id == id {
            all_alike(new_rows, rows)
        } else {
            exists|k: int|
                0 <= k < new_rows.len() - 1 && (#[trigger] new_rows[k]).id == id && new_rows[k
                    + 1].id == rows[i].id
        }
    } else {
        new_rows.len() > 0 && new_rows.last().id == id
    }
}

/// Whether the tag of a task went one step round, and nothing else changed.
pub open spec fn has_cycled(before: StoreView, after: StoreView, id: u64, found: bool) -> bool {
    &&& found == holds(before, id)
    &&& !found ==> after == before
    &&& forall|i: int|
        0 <= i < before.tasks.len() && (#[trigger] before.tasks[i]).id == id ==> has_tag(
            before,
            after,
            id,
            match before.tasks[i].tag {
                None => Some(Tag::Work),
                Some(Tag::Work) => Some(Tag::Personal),
                Some(Tag::Personal) => None,
            },
            found,
        )
}

proof fn lemma_has_cycled(s: StoreView, id: u64)
    requires
        sound(s),
    ensures
        has_cycled(s, s.tag_cycled(id), id, s.has(id)),
{
    lemma_sound(s);
    lemma_holds(s, id);
    lemma_has_tag(s, id, Tag::after(s.get(id)->0.tag));
    assert forall|i: int| 0 <= i < s.tasks.len() && (#[trigger] s.tasks[i]).id == id implies i
        == s.position(id) && s.has(id) by {
        laws::lemma_position(s, i);
    }
}

/// Whether a change made this of a store, and what came of it.
pub open spec fn is_changed(
    change: Change,
    before: StoreView,
    after: StoreView,
    created_at: u64,
    now: u64,
    e: Effect,
) -> bool {
    let did = e == Effect::Changed;
    &&& (match change {
        Change::QuickAdd(text, b) => match e {
            Effect::Added(id) => is_quick_added(before, after, text@, b, created_at, Some(id)),
            Effect::Refused => is_quick_added(before, after, text@, b, created_at, None),
            Effect::Changed => false,
        },
        Change::Promote(id) => has_moved(before, after, id, Bucket::Now, Some(0), did) && (did
            ==> works_on(after, id)),
        Change::Remove(id) => has_gone(before, after, id, did),
        Change::Done(id) => if works_on(before, id) {
            did && exists|d: CompletedView| #[trigger] has_completed(before, after, Some(d))
        } else {
            has_gone(before, after, id, did)
        },
        Change::Move(id, b, index) => has_moved(before, after, id, b, index, did),
        Change::Drop(id, b, index) => {
            &&& exists|i: Option<usize>| #[trigger] has_moved(before, after, id, b, i, did)
            &&& did ==> has_landed(before, after, id, b, index)
        },
        Change::Shift(id, delta) => has_shifted(before, after, id, delta, did),
        Change::SetTag(id, tag) => has_tag(before, after, id, tag, did),
        Change::CycleTag(id) => has_cycled(before, after, id, did),
        Change::Rename(id, title) => has_title(before, after, id, title@, did),
        Change::TogglePause => has_toggled(before, after, now, did),
    })
    &&& e is Added ==> change is QuickAdd
    &&& e is Refused ==> after == before
    &&& change is SetTag || change is CycleTag || change is Rename || change is TogglePause
        || timer_runs(before, after, now)
}

#[verifier::rlimit(50)]
proof fn lemma_dropped(s: StoreView, id: u64, b: Bucket, index: Option<usize>, now: u64)
    requires
        sound(s),
        s.has(id),
    ensures
        has_landed(
            s,
            s.moved(id, b, crate::change::drop_index(s, id, b, index), now),
            id,
            b,
            index,
        ),
{
    let to = crate::change::drop_index(s, id, b, index);
    let after = s.moved(id, b, to, now);
    lemma_sound(s);
    lemma_has_moved(s, id, b, to, now);
    lemma_holds(s, id);
    lemma_stands_in(s, b, id);
    lemma_members(s, b);
    lemma_others(members(s, b), id);
    order::lemma_first_where(s.tasks, order::has_id(id));
    let rows = members(s, b);
    let there = others(rows, id);
    let n = members(after, b);
    let at = match to {
        Some(i) => if i < there.len() {
            i as int
        } else {
            there.len() as int
        },
        None => there.len() as int,
    };
    let k = s.position(id);
    assert(s.tasks[k].id == id);
    assert(n[at].id == id);
    let r = s.rank(id);
    if s.get(id)->0.bucket == b {
        queue::lemma_member_of_bucket(s, id);
        order::lemma_first_where(rows, order::has_id(id));
        laws::lemma_filter_unique(s.tasks, order::is_in(b), 0);
        laws::lemma_remove_is_filter(rows, id);
        assert(there == rows.remove(r));
        assert(rows[r].id == id);
    } else {
        assert(there == rows);
    }
    if index is Some && index->0 < rows.len() {
        let i = index->0 as int;
        if rows[i].id == id {
            if s.get(id)->0.bucket != b {
                assert(stands_in(s, b, id));
            }
            if r < i {
                assert(rows[r].id != rows[i].id);
            } else if i < r {
                assert(rows[i].id != rows[r].id);
            }
            lemma_place_in_bucket(s, id, b, i);
            assert(at == i);
            assert forall|j: int| 0 <= j < rows.len() implies alike(#[trigger] n[j], rows[j]) by {
                if j < i {
                    assert(alike(n.remove(at)[j], there[j]));
                } else if j > i {
                    assert(alike(n.remove(at)[j - 1], there[j - 1]));
                }
            }
        } else {
            assert(there[at] == rows[i]);
            assert(alike(n.remove(at)[at], there[at]));
            assert(n[at + 1] == n.remove(at)[at]);
            assert(n[at].id == id && n[at + 1].id == rows[i].id);
        }
    } else {
        assert(at == there.len());
    }
}

pub(crate) proof fn lemma_is_changed(change: Change, s: StoreView, created_at: u64, now: u64)
    requires
        sound(s),
        change.has_an_id(s),
        s.tasks.len() <= usize::MAX,
    ensures
        is_changed(change, s, change.applied(s, created_at, now), created_at, now, change.effect(s)),
{
    lemma_sound(s);
    lemma_works_on(s);
    match change {
        Change::QuickAdd(text, b) => {
            if crate::quick::asked(text@) is Some {
                lemma_quick_added(s, text@, b, created_at, now);
            }
            lemma_timers(s, 0, text@, b, None, false, None, 0, created_at, now);
        },
        Change::Promote(id) => {
            lemma_timers(s, id, seq![], Bucket::Now, None, false, None, 0, created_at, now);
            lemma_has_moved(s, id, Bucket::Now, Some(0), now);
            lemma_holds(s, id);
            order::lemma_first_where(s.tasks, order::has_id(id));
            if s.has(id) {
                assert(alike(
                    members(s.promoted(id, now), Bucket::Now)[0],
                    TaskView { bucket: Bucket::Now, ..s.tasks[s.position(id)] },
                ));
            }
        },
        Change::Remove(id) => {
            lemma_timers(s, id, seq![], Bucket::Now, None, false, None, 0, created_at, now);
            lemma_has_gone(s, id, now);
        },
        Change::Done(id) => {
            lemma_timers(s, id, seq![], Bucket::Now, None, false, None, 0, created_at, now);
            if works_on(s, id) {
                queue::lemma_current_is_found(s);
                lemma_has_completed(s, now);
                lemma_members(s, Bucket::Now);
                laws::law_current_is_the_head_of_now(s);
                assert(has_completed(s, s.completed(now), Some(s.completion()->0)));
            } else {
                lemma_has_gone(s, id, now);
            }
        },
        Change::Move(id, b, index) => {
            lemma_timers(s, id, seq![], b, None, false, index, 0, created_at, now);
            lemma_has_moved(s, id, b, index, now);
        },
        Change::Drop(id, b, index) => {
            let to = crate::change::drop_index(s, id, b, index);
            lemma_timers(s, id, seq![], b, None, false, to, 0, created_at, now);
            lemma_has_moved(s, id, b, to, now);
            let did = change.effect(s) == Effect::Changed;
            assert(has_moved(s, change.applied(s, created_at, now), id, b, to, did));
            if s.has(id) {
                lemma_dropped(s, id, b, index, now);
            }
        },
        Change::Shift(id, delta) => {
            lemma_timers(s, id, seq![], Bucket::Now, None, false, None, delta, created_at, now);
            lemma_has_shifted(s, id, delta, now);
        },
        Change::SetTag(id, tag) => lemma_has_tag(s, id, tag),
        Change::CycleTag(id) => lemma_has_cycled(s, id),
        Change::Rename(id, title) => lemma_has_title(s, id, title@),
        Change::TogglePause => lemma_has_toggled(s, now),
    }
}

proof fn lemma_has_tag(s: StoreView, id: u64, tag: Option<Tag>)
    requires
        sound(s),
    ensures
        has_tag(s, s.tagged(id, tag), id, tag, s.has(id)),
{
    lemma_sound(s);
    lemma_holds(s, id);
    assert forall|i: int| 0 <= i < s.tasks.len() && (#[trigger] s.tasks[i]).id == id implies i
        == s.position(id) by {
        laws::lemma_position(s, i);
    }
}

/// Every change that the window, the bus or the command line asks for does what it
/// says, or is refused and changes nothing.
pub proof fn law_a_change_does_what_it_says(
    change: Change,
    s: StoreView,
    created_at: u64,
    now: u64,
)
    requires
        sound(s),
        change.has_an_id(s),
        s.tasks.len() <= usize::MAX,
    ensures
        is_changed(change, s, change.applied(s, created_at, now), created_at, now, change.effect(s)),
        sound(change.applied(s, created_at, now)),
        forall|m: &mut Store, e: Effect|
            (*m)@ == s && #[trigger] call_ensures(
                Change::apply_at,
                (&change, m, created_at, now),
                e,
            ) ==> is_changed(change, s, (*final(m))@, created_at, now, e),
{
    lemma_is_changed(change, s, created_at, now);
    lemma_sound(s);
    crate::change::law_every_change_keeps_a_store_valid(change, s, created_at, now);
    lemma_sound(change.applied(s, created_at, now));
}

/// Marking a task done completes it where it is the one being worked on, and deletes
/// it where it is not.
pub proof fn law_done_completes_or_deletes(s: StoreView, id: u64, now: u64)
    requires
        sound(s),
    ensures
        forall|m: &mut Store, done: bool|
            (*m)@ == s && #[trigger] call_ensures(
                crate::change::complete_task_at,
                (m, id, now),
                done,
            ) ==> done == holds(s, id) && timer_runs(s, (*final(m))@, now) && if works_on(s, id) {
                exists|d: CompletedView| #[trigger] has_completed(s, (*final(m))@, Some(d))
            } else {
                has_gone(s, (*final(m))@, id, done)
            },
{
    lemma_sound(s);
    lemma_works_on(s);
    lemma_holds(s, id);
    lemma_timers(s, id, seq![], Bucket::Now, None, false, None, 0, now, now);
    if works_on(s, id) {
        lemma_has_completed(s, now);
        lemma_members(s, Bucket::Now);
        laws::law_current_is_the_head_of_now(s);
        assert(has_completed(s, s.completed(now), Some(s.completion()->0)));
    } else {
        lemma_has_gone(s, id, now);
    }
}

/// A row dropped in front of another one goes there, counted without the dropped row where
/// that one stood further up in the same list.
pub proof fn law_a_drop_is_counted_without_the_dropped_row(
    store: Store,
    id: u64,
    b: Bucket,
    index: Option<usize>,
)
    requires
        sound(store@),
    ensures
        forall|at: Option<usize>| #[trigger]
            call_ensures(crate::change::adjusted_drop_index, (&store, id, b, index), at)
                ==> match index {
                None => at is None,
                Some(i) => at == (if exists|k: int|
                    0 <= k < i && k < members(store@, b).len() && (#[trigger] members(
                        store@,
                        b,
                    )[k]).id == id {
                    Some((i - 1) as usize)
                } else {
                    Some(i)
                }),
            },
{
    let s = store@;
    lemma_sound(s);
    lemma_holds(s, id);
    lemma_members(s, b);
    let rows = members(s, b);
    if s.has(id) && s.get(id)->0.bucket == b {
        queue::lemma_member_of_bucket(s, id);
        order::lemma_first_where(rows, order::has_id(id));
        laws::lemma_filter_unique(s.tasks, order::is_in(b), 0);
        let r = s.rank(id);
        assert(rows[r].id == id);
        assert forall|k: int| 0 <= k < rows.len() && (#[trigger] rows[k]).id == id implies k
            == r by {
            if k < r {
                assert(rows[k].id != rows[r].id);
            } else if r < k {
                assert(rows[r].id != rows[k].id);
            }
        }
    } else {
        assert forall|k: int| 0 <= k < rows.len() implies (#[trigger] rows[k]).id != id by {
            if rows[k].id == id {
                lemma_stands_in(s, b, id);
            }
        }
    }
}

/// What is said of a store or a task is said of its fields.
pub proof fn law_a_view_shows_the_fields(store: Store, t: Task, c: Completed)
    ensures
        store@.next_id == store.next_id,
        store@.tasks.len() == store.tasks@.len(),
        forall|i: int|
            0 <= i < store.tasks@.len() ==> #[trigger] store@.tasks[i] == store.tasks@[i]@,
        t@.id == t.id,
        t@.title == t.title@,
        t@.bucket == t.bucket,
        t@.tag == t.tag,
        t@.created_at == t.created_at,
        t@.started_at == t.started_at,
        t@.paused_at == t.paused_at,
        c@.task == c.task@,
        c@.pulled == c.pulled,
{
}

/// A new store is empty and gives ids from one on, and two stores are the same exactly
/// where they hold the same tasks, field by field, and give the same next id.
pub proof fn law_a_new_store_is_empty(a: Store, b: Store)
    ensures
        forall|s: Store| #[trigger]
            call_ensures(Store::new, (), s) ==> s.tasks@.len() == 0 && s.next_id == 1,
        forall|same: bool| #[trigger]
            call_ensures(Store::same, (&a, &b), same) ==> (same <==> a.next_id == b.next_id
                && a.tasks@.len() == b.tasks@.len() && (forall|i: int|
                0 <= i < a.tasks@.len() ==> (#[trigger] a.tasks@[i])@ == b.tasks@[i]@)),
{
    assert forall|s: Store| #[trigger] call_ensures(Store::new, (), s) implies s.tasks@.len()
        == 0 by {
        assert(s@.tasks.len() == s.tasks@.len());
    }
    assert(a@.tasks.len() == a.tasks@.len() && b@.tasks.len() == b.tasks@.len());
    let alike_all = a.next_id == b.next_id && a.tasks@.len() == b.tasks@.len() && (forall|i: int|
        0 <= i < a.tasks@.len() ==> (#[trigger] a.tasks@[i])@ == b.tasks@[i]@);
    if alike_all {
        assert(a@.tasks =~= b@.tasks);
    }
    if a@ == b@ {
        assert forall|i: int| 0 <= i < a.tasks@.len() implies (#[trigger] a.tasks@[i])@
            == b.tasks@[i]@ by {
            assert(a@.tasks[i] == b@.tasks[i]);
        }
    }
}

} // verus!
