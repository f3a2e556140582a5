//! The ordered task store and every change that can be made to it.

use crate::clock::unix_now;
use crate::model::Bucket;
use crate::model::Completed;
use crate::model::CompletedView;
use crate::model::Tag;
use crate::model::Task;
use crate::model::TaskView;
use crate::order;
use crate::quick;
use crate::quick::QuickAdd;
use crate::text;
use vstd::prelude::*;

verus! {

/// Ordered task store. `tasks` order is the display order within each bucket.
#[derive(Debug, PartialEq, Eq)]
pub struct Store {
    pub next_id: u64,
    pub tasks: Vec<Task>,
}

impl Default for Store {
    fn default() -> (s: Self)
        ensures
            s@ == (StoreView { next_id: 0, tasks: Seq::empty() }),
    {
        let s = Store { next_id: 0, tasks: Vec::new() };
        assert(s@.tasks =~= Seq::empty());
        s
    }
}

impl Clone for Store {
    fn clone(&self) -> (s: Self)
        ensures
            s@ == self@,
    {
        let mut tasks: Vec<Task> = Vec::new();
        let mut i: usize = 0;
        while i < self.tasks.len()
            invariant
                i <= self.tasks@.len(),
                order::views(tasks@) =~= order::views(self.tasks@).take(i as int),
            decreases self.tasks@.len() - i,
        {
            let ghost before = order::views(tasks@);
            let task = self.tasks[i].clone();
            tasks.push(task);
            assert(order::views(tasks@) =~= before.push(task@));
            i = i + 1;
        }
        Store { next_id: self.next_id, tasks }
    }
}

/// What a `Store` holds.
#[verifier::ext_equal]
pub struct StoreView {
    pub next_id: u64,
    pub tasks: Seq<TaskView>,
}

impl View for Store {
    type V = StoreView;

    open spec fn view(&self) -> StoreView {
        StoreView { next_id: self.next_id, tasks: order::views(self.tasks@) }
    }
}

/// The title as a store keeps it: trimmed, and no longer than the limit.
pub open spec fn bounded(title: Seq<char>) -> Seq<char> {
    let t = text::trim(title);
    if t.len() <= crate::model::MAX_TITLE_CHARS {
        t
    } else {
        t.take(crate::model::MAX_TITLE_CHARS as int)
    }
}

/// The timer rule for one task: the current one keeps its timer or starts it
/// now, every other one has none.
pub open spec fn timed(t: TaskView, current: Option<u64>, now: u64) -> TaskView {
    if current == Some(t.id) {
        if t.started_at is None {
            TaskView { started_at: Some(now), paused_at: None, ..t }
        } else {
            t
        }
    } else {
        t.untimed()
    }
}

pub open spec fn timed_all(
    tasks: Seq<TaskView>,
    current: Option<u64>,
    now: u64,
) -> Seq<TaskView> {
    tasks.map_values(|t: TaskView| timed(t, current, now))
}

/// Where a task goes that joins a bucket at a place counted within the bucket,
/// or at the bucket's end.
pub open spec fn place(tasks: Seq<TaskView>, bucket: Bucket, index: Option<usize>) -> int {
    let members = order::bucket_of(tasks, bucket);
    if index is Some && index->0 < members.len() {
        order::first_where(tasks, order::has_id(members[index->0 as int].id))
    } else {
        bucket_end(tasks, bucket)
    }
}

/// The position behind the last task of a bucket, or behind every task where
/// the bucket is empty.
pub open spec fn bucket_end(tasks: Seq<TaskView>, bucket: Bucket) -> int {
    let end = order::behind_last(tasks, order::is_in(bucket));
    if end > 0 {
        end
    } else {
        tasks.len() as int
    }
}

impl StoreView {
    /// The position of the first task with this id, or the number of tasks.
    pub open spec fn position(self, id: u64) -> int {
        order::first_where(self.tasks, order::has_id(id))
    }

    pub open spec fn has(self, id: u64) -> bool {
        self.position(id) < self.tasks.len()
    }

    pub open spec fn get(self, id: u64) -> Option<TaskView> {
        if self.has(id) {
            Some(self.tasks[self.position(id)])
        } else {
            None
        }
    }

    pub open spec fn in_bucket(self, bucket: Bucket) -> Seq<TaskView> {
        order::bucket_of(self.tasks, bucket)
    }

    /// The position of the first task of a bucket, or the number of tasks.
    pub open spec fn head(self, bucket: Bucket) -> int {
        order::first_where(self.tasks, order::is_in(bucket))
    }

    /// The first task of a bucket.
    pub open spec fn first(self, bucket: Bucket) -> Option<TaskView> {
        if self.head(bucket) < self.tasks.len() {
            Some(self.tasks[self.head(bucket)])
        } else {
            None
        }
    }

    /// The task being worked on: the first of Now.
    pub open spec fn current(self) -> Option<TaskView> {
        self.first(Bucket::Now)
    }

    pub open spec fn current_id(self) -> Option<u64> {
        match self.current() {
            Some(t) => Some(t.id),
            None => None,
        }
    }

    /// The store under the rule that only the current task carries a timer.
    pub open spec fn normalized(self, now: u64) -> StoreView {
        StoreView { tasks: timed_all(self.tasks, self.current_id(), now), ..self }
    }

    pub open spec fn added(
        self,
        title: Seq<char>,
        bucket: Bucket,
        tag: Option<Tag>,
        front: bool,
        created_at: u64,
        now: u64,
    ) -> StoreView {
        let task = TaskView {
            id: self.next_id,
            title: bounded(title),
            bucket,
            tag,
            created_at,
            started_at: None,
            paused_at: None,
        };
        StoreView {
            next_id: (self.next_id + 1) as u64,
            tasks: if front {
                self.tasks.insert(self.head(bucket), task)
            } else {
                self.tasks.push(task)
            },
        }.normalized(now)
    }

    /// The task that a quick-add text asks for added, where it asks for one: at
    /// the front of Now, at the end of any other bucket.
    pub open spec fn quick_added(
        self,
        input: Seq<char>,
        default_bucket: Bucket,
        created_at: u64,
        now: u64,
    ) -> StoreView {
        match quick::asked(input) {
            None => self,
            Some(q) => {
                let bucket = match q.bucket {
                    Some(b) => b,
                    None => default_bucket,
                };
                self.added(q.title, bucket, q.tag, bucket == Bucket::Now, created_at, now)
            },
        }
    }

    /// Every task with this id gone, or the store as it is where none has it.
    pub open spec fn removed(self, id: u64, now: u64) -> StoreView {
        if self.has(id) {
            StoreView { tasks: self.tasks.filter(order::other_id(id)), ..self }.normalized(now)
        } else {
            self
        }
    }

    pub open spec fn moved(
        self,
        id: u64,
        bucket: Bucket,
        index: Option<usize>,
        now: u64,
    ) -> StoreView {
        if self.has(id) {
            let task = TaskView { bucket, ..self.tasks[self.position(id)] };
            let rest = self.tasks.remove(self.position(id));
            StoreView { tasks: rest.insert(place(rest, bucket, index), task), ..self }.normalized(
                now,
            )
        } else {
            self
        }
    }

    pub open spec fn promoted(self, id: u64, now: u64) -> StoreView {
        self.moved(id, Bucket::Now, Some(0), now)
    }

    /// The place of a task among the tasks of its bucket.
    pub open spec fn rank(self, id: u64) -> int
        recommends
            self.has(id),
    {
        order::first_where(self.in_bucket(self.get(id)->0.bucket), order::has_id(id))
    }

    /// The place that a task has in its bucket after going `delta` down, within
    /// the bucket.
    pub open spec fn shift_target(self, id: u64, delta: i32) -> int
        recommends
            self.has(id),
    {
        let last = self.in_bucket(self.get(id)->0.bucket).len() - 1;
        let wanted = self.rank(id) + delta;
        if wanted < 0 {
            0
        } else if wanted > last {
            last
        } else {
            wanted
        }
    }

    /// Whether there is a task to shift, and somewhere else for it to go.
    pub open spec fn shifts(self, id: u64, delta: i32) -> bool {
        self.has(id) && self.shift_target(id, delta) != self.rank(id)
    }

    pub open spec fn shifted(self, id: u64, delta: i32, now: u64) -> StoreView {
        if self.shifts(id, delta) {
            self.moved(
                id,
                self.get(id)->0.bucket,
                Some(self.shift_target(id, delta) as usize),
                now,
            )
        } else {
            self
        }
    }

    /// The store with one task changed in place.
    pub open spec fn with_task(self, id: u64, task: TaskView) -> StoreView {
        StoreView { tasks: self.tasks.update(self.position(id), task), ..self }
    }

    pub open spec fn tagged(self, id: u64, tag: Option<Tag>) -> StoreView {
        if self.has(id) {
            self.with_task(id, TaskView { tag, ..self.get(id)->0 })
        } else {
            self
        }
    }

    pub open spec fn tag_cycled(self, id: u64) -> StoreView {
        if self.has(id) {
            self.tagged(id, Tag::after(self.get(id)->0.tag))
        } else {
            self
        }
    }

    /// Whether there is a task to rename and a title to give it.
    pub open spec fn renames(self, id: u64, title: Seq<char>) -> bool {
        bounded(title).len() > 0 && self.has(id)
    }

    pub open spec fn renamed(self, id: u64, title: Seq<char>) -> StoreView {
        if self.renames(id, title) {
            self.with_task(id, TaskView { title: bounded(title), ..self.get(id)->0 })
        } else {
            self
        }
    }

    /// The task whose timer a pause acts on: the first with the current id.
    pub open spec fn timer(self) -> Option<TaskView> {
        match self.current_id() {
            Some(id) => self.get(id),
            None => None,
        }
    }

    /// Whether there is a timer to pause or resume.
    pub open spec fn can_pause(self) -> bool {
        self.timer() is Some && self.timer()->0.started_at is Some
    }

    pub open spec fn pause_toggled(self, now: u64) -> StoreView {
        if self.can_pause() {
            let task = self.timer()->0;
            self.with_task(task.id, toggled(task, now))
        } else {
            self
        }
    }

    /// The store without the current task, before anything takes its place.
    pub open spec fn without_current(self) -> StoreView {
        StoreView { tasks: self.tasks.remove(self.position(self.current_id()->0)), ..self }
    }

    /// What completing the current task removes and pulls into Now.
    pub open spec fn completion(self) -> Option<CompletedView> {
        if self.current() is Some {
            let rest = self.without_current();
            Some(
                CompletedView {
                    task: self.get(self.current_id()->0)->0,
                    pulled: if rest.current() is None && rest.first(Bucket::Next) is Some {
                        Some(rest.first(Bucket::Next)->0.id)
                    } else {
                        None
                    },
                },
            )
        } else {
            None
        }
    }

    pub open spec fn completed(self, now: u64) -> StoreView {
        match self.completion() {
            None => self,
            Some(done) => match done.pulled {
                Some(next) => self.without_current().promoted(next, now),
                None => self.without_current().normalized(now),
            },
        }
    }

    /// The store with a completion reversed: the pulled task back at the head of
    /// Next, where it is still in Now, and the completed task at the head of Now.
    pub open spec fn restored(self, done: CompletedView, now: u64) -> StoreView {
        if self.has(done.task.id) {
            self
        } else {
            let base = if done.pulled is Some && self.has(done.pulled->0) && self.get(
                done.pulled->0,
            )->0.bucket == Bucket::Now {
                self.moved(done.pulled->0, Bucket::Next, Some(0), now)
            } else {
                self
            };
            let task = TaskView { bucket: Bucket::Now, ..done.task };
            StoreView {
                tasks: base.tasks.insert(base.head(Bucket::Now), task),
                ..base
            }.normalized(now)
        }
    }
}

/// A task with its timer paused, or resumed with the time already on the clock.
pub open spec fn toggled(t: TaskView, now: u64) -> TaskView {
    let started = t.started_at->0;
    match t.paused_at {
        Some(paused) => TaskView {
            started_at: Some(started.wrapping_add(crate::model::since(now, paused))),
            paused_at: None,
            ..t
        },
        None => TaskView {
            paused_at: Some(
                if now >= started {
                    now
                } else {
                    started
                },
            ),
            ..t
        },
    }
}

impl Store {
    pub fn new() -> (s: Self)
        ensures
            s@ == (StoreView { next_id: 1, tasks: Seq::empty() }),
    {
        let s = Store { next_id: 1, tasks: Vec::new() };
        assert(s@.tasks =~= Seq::empty());
        s
    }

    // ---- queries -------------------------------------------------------------

    /// Whether two stores hold the same.
    pub fn same(&self, other: &Store) -> (same: bool)
        ensures
            same == (self@ == other@),
    {
        assert(self@.tasks.len() == self.tasks@.len() && other@.tasks.len() == other.tasks@.len());
        if self.next_id != other.next_id || self.tasks.len() != other.tasks.len() {
            return false;
        }
        let mut i: usize = 0;
        while i < self.tasks.len()
            invariant
                i <= self.tasks@.len(),
                self.tasks@.len() == other.tasks@.len(),
                forall|k: int| 0 <= k < i ==> #[trigger] self@.tasks[k] == other@.tasks[k],
            decreases self.tasks@.len() - i,
        {
            if !self.tasks[i].same(&other.tasks[i]) {
                assert(self@.tasks[i as int] != other@.tasks[i as int]);
                return false;
            }
            i = i + 1;
        }
        assert(self@.tasks =~= other@.tasks);
        true
    }

    /// The position of the first task with this id, or the number of tasks.
    fn find(&self, id: u64) -> (i: usize)
        ensures
            i == self@.position(id),
            i <= self.tasks.len(),
    {
        let mut i: usize = 0;
        while i < self.tasks.len() && self.tasks[i].id != id
            invariant
                i <= self.tasks.len(),
                forall|j: int|
                    0 <= j < i ==> !order::has_id(id)(#[trigger] order::views(self.tasks@)[j]),
            decreases self.tasks.len() - i,
        {
            i += 1;
        }
        proof {
            order::lemma_first_where_is(order::views(self.tasks@), order::has_id(id), i as int);
        }
        i
    }

    /// The position of the first task of a bucket, or the number of tasks.
    fn first_pos(&self, bucket: Bucket) -> (i: usize)
        ensures
            i == self@.head(bucket),
            i <= self.tasks.len(),
    {
        let mut i: usize = 0;
        while i < self.tasks.len() && self.tasks[i].bucket != bucket
            invariant
                i <= self.tasks.len(),
                forall|j: int|
                    0 <= j < i ==> !order::is_in(bucket)(#[trigger] order::views(self.tasks@)[j]),
            decreases self.tasks.len() - i,
        {
            i += 1;
        }
        proof {
            order::lemma_first_where_is(order::views(self.tasks@), order::is_in(bucket), i as int);
        }
        i
    }

    /// The position behind the last task of a bucket, or behind every task.
    fn end_pos(&self, bucket: Bucket) -> (n: usize)
        ensures
            n == bucket_end(self@.tasks, bucket),
            n <= self.tasks.len(),
    {
        let mut n: usize = self.tasks.len();
        while n > 0 && self.tasks[n - 1].bucket != bucket
            invariant
                n <= self.tasks.len(),
                forall|j: int|
                    n <= j < self.tasks.len() ==> !order::is_in(bucket)(
                        #[trigger] order::views(self.tasks@)[j],
                    ),
            decreases n,
        {
            n -= 1;
        }
        proof {
            order::lemma_behind_last_is(order::views(self.tasks@), order::is_in(bucket), n as int);
        }
        if n > 0 {
            n
        } else {
            self.tasks.len()
        }
    }

    pub fn get(&self, id: u64) -> (t: Option<&Task>)
        ensures
            t is Some <==> self@.has(id),
            t is Some ==> Some(t->0@) == self@.get(id),
    {
        let i = self.find(id);
        if i < self.tasks.len() {
            Some(&self.tasks[i])
        } else {
            None
        }
    }

    /// The tasks of a bucket, in order.
    pub fn in_bucket(&self, bucket: Bucket) -> (out: Vec<&Task>)
        ensures
            order::ref_views(out@) == self@.in_bucket(bucket),
    {
        let mut out: Vec<&Task> = Vec::new();
        let mut i: usize = 0;
        let ghost all = self@.tasks;
        proof {
            order::lemma_filter_none(all.take(0), order::is_in(bucket));
            assert(order::ref_views(out@) =~= order::bucket_of(all.take(0), bucket));
        }
        while i < self.tasks.len()
            invariant
                i <= self.tasks.len(),
                all == self@.tasks,
                order::ref_views(out@) == order::bucket_of(all.take(i as int), bucket),
            decreases self.tasks.len() - i,
        {
            proof {
                assert(all.take(i + 1) =~= all.take(i as int).push(all[i as int]));
                order::lemma_filter_push(
                    all.take(i as int),
                    all[i as int],
                    order::is_in(bucket),
                );
            }
            let ghost before = out@;
            if self.tasks[i].bucket == bucket {
                out.push(&self.tasks[i]);
                assert(order::ref_views(out@) =~= order::ref_views(before).push(all[i as int]));
            }
            i += 1;
        }
        assert(all.take(all.len() as int) =~= all);
        out
    }

    /// The focused task: head of Now.
    pub fn current(&self) -> (t: Option<&Task>)
        ensures
            t is Some <==> self@.current() is Some,
            t is Some ==> Some(t->0@) == self@.current(),
    {
        let i = self.first_pos(Bucket::Now);
        if i < self.tasks.len() {
            Some(&self.tasks[i])
        } else {
            None
        }
    }

    pub fn len(&self) -> (n: usize)
        ensures
            n == self@.tasks.len(),
    {
        self.tasks.len()
    }

    pub fn is_empty(&self) -> (empty: bool)
        ensures
            empty == (self@.tasks.len() == 0),
    {
        self.tasks.len() == 0
    }

    // ---- changes ---------------------------------------------------------------

    /// Only the current task carries a (possibly paused) timer.
    fn normalize(&mut self, now: u64)
        ensures
            final(self)@ == old(self)@.normalized(now),
    {
        let current: Option<u64> = match self.current() {
            Some(t) => Some(t.id),
            None => None,
        };
        let ghost start = self@;
        let ghost goal = timed_all(start.tasks, current, now);
        let mut i: usize = 0;
        while i < self.tasks.len()
            invariant
                i <= self.tasks.len(),
                self.tasks.len() == start.tasks.len(),
                self.next_id == start.next_id,
                goal == timed_all(start.tasks, current, now),
                forall|j: int| 0 <= j < i ==> #[trigger] self@.tasks[j] == goal[j],
                forall|j: int|
                    i <= j < self.tasks.len() ==> #[trigger] self@.tasks[j] == start.tasks[j],
            decreases self.tasks.len() - i,
        {
            assert(self@.tasks[i as int] == start.tasks[i as int]);
            let ghost before = self@.tasks;
            let here: bool = match current {
                Some(id) => self.tasks[i].id == id,
                None => false,
            };
            if here {
                if self.tasks[i].started_at.is_none() {
                    self.tasks[i].started_at = Some(now);
                    self.tasks[i].paused_at = None;
                }
            } else {
                self.tasks[i].started_at = None;
                self.tasks[i].paused_at = None;
            }
            assert(self@.tasks =~= before.update(i as int, goal[i as int]));
            i += 1;
        }
        assert(self@.tasks =~= goal);
    }

    /// Adds a task at the front or the end of a bucket, at the given times.
    pub fn add_at(
        &mut self,
        title: &str,
        bucket: Bucket,
        tag: Option<Tag>,
        front: bool,
        created_at: u64,
        now: u64,
    ) -> (id: u64)
        requires
            old(self).next_id < u64::MAX,
        ensures
            id == old(self).next_id,
            final(self)@ == old(self)@.added(title@, bucket, tag, front, created_at, now),
    {
        let id: u64 = self.next_id;
        let ghost start = self@;
        let task = Task {
            id,
            title: bounded_title(title),
            bucket,
            tag,
            created_at,
            started_at: None,
            paused_at: None,
        };
        let ghost view = task@;
        if front {
            let pos = self.first_pos(bucket);
            self.tasks.insert(pos, task);
            assert(self@.tasks =~= start.tasks.insert(start.head(bucket), view));
        } else {
            self.tasks.push(task);
            assert(self@.tasks =~= start.tasks.push(view));
        }
        self.next_id = id + 1;
        self.normalize(now);
        id
    }

    pub fn add(&mut self, title: &str, bucket: Bucket, tag: Option<Tag>, front: bool) -> (id: u64)
        requires
            old(self).next_id < u64::MAX,
        ensures
            id == old(self).next_id,
            exists|created_at: u64, now: u64|
                final(self)@ == #[trigger] old(self)@.added(
                    title@,
                    bucket,
                    tag,
                    front,
                    created_at,
                    now,
                ),
    {
        let created_at = unix_now();
        let now = unix_now();
        self.add_at(title, bucket, tag, front, created_at, now)
    }

    /// Adds the task that a quick-add text asks for, at the given times.
    pub fn quick_add_at(
        &mut self,
        input: &str,
        default_bucket: Bucket,
        created_at: u64,
        now: u64,
    ) -> (id: Option<u64>)
        requires
            quick::asked(input@) is Some ==> old(self).next_id < u64::MAX,
        ensures
            id == (if quick::asked(input@) is Some {
                Some(old(self).next_id)
            } else {
                None
            }),
            final(self)@ == old(self)@.quick_added(input@, default_bucket, created_at, now),
    {
        match QuickAdd::parse(input) {
            None => None,
            Some(q) => {
                let bucket: Bucket = match q.bucket {
                    Some(b) => b,
                    None => default_bucket,
                };
                let front: bool = bucket == Bucket::Now;
                Some(self.add_at(q.title.as_str(), bucket, q.tag, front, created_at, now))
            },
        }
    }

    pub fn quick_add(&mut self, input: &str, default_bucket: Bucket) -> (id: Option<u64>)
        requires
            quick::asked(input@) is Some ==> old(self).next_id < u64::MAX,
        ensures
            id == (if quick::asked(input@) is Some {
                Some(old(self).next_id)
            } else {
                None
            }),
            exists|created_at: u64, now: u64|
                final(self)@ == #[trigger] old(self)@.quick_added(
                    input@,
                    default_bucket,
                    created_at,
                    now,
                ),
    {
        let created_at = unix_now();
        let now = unix_now();
        self.quick_add_at(input, default_bucket, created_at, now)
    }

    /// Deletes every task with this id.
    pub fn remove_at(&mut self, id: u64, now: u64) -> (removed: bool)
        ensures
            removed == old(self)@.has(id),
            final(self)@ == old(self)@.removed(id, now),
    {
        let ghost start = self@.tasks;
        let ghost keep = order::other_id(id);
        let before: usize = self.tasks.len();
        let mut i: usize = 0;
        let ghost mut done: int = 0;
        proof {
            order::lemma_filter_none(start.take(0), keep);
            assert(self@.tasks =~= start.take(0).filter(keep) + start.skip(0));
        }
        while i < self.tasks.len()
            invariant
                keep == order::other_id(id),
                self.next_id == old(self).next_id,
                0 <= done <= start.len(),
                i == start.take(done).filter(keep).len(),
                i <= self.tasks.len(),
                self@.tasks == start.take(done).filter(keep) + start.skip(done),
            decreases start.len() - done,
        {
            let ghost here = self@.tasks;
            proof {
                assert(here.len() == i + (start.len() - done));
                assert(start.take(done + 1) =~= start.take(done).push(start[done]));
                order::lemma_filter_push(start.take(done), start[done], keep);
                assert(here[i as int] == start.skip(done)[0]);
            }
            if self.tasks[i].id == id {
                self.tasks.remove(i);
                assert(self@.tasks =~= here.remove(i as int));
            } else {
                i += 1;
            }
            proof {
                done = done + 1;
                assert(self@.tasks =~= start.take(done).filter(keep) + start.skip(done));
            }
        }
        proof {
            assert(done == start.len());
            assert(start.take(done) =~= start);
            assert(self@.tasks =~= start.filter(keep));
            lemma_filter_other(start, id);
            order::lemma_first_where(start, order::has_id(id));
        }
        let removed: bool = self.tasks.len() != before;
        if removed {
            self.normalize(now);
        }
        removed
    }

    pub fn remove(&mut self, id: u64) -> (removed: bool)
        ensures
            removed == old(self)@.has(id),
            exists|now: u64| final(self)@ == #[trigger] old(self)@.removed(id, now),
    {
        let now = unix_now();
        self.remove_at(id, now)
    }

    /// Where a task goes that joins a bucket at a place counted within the
    /// bucket.
    fn place_in(&self, bucket: Bucket, index: Option<usize>) -> (at: usize)
        ensures
            at == place(self@.tasks, bucket, index),
            at <= self.tasks.len(),
    {
        match index {
            Some(i) => {
                let members = self.in_bucket(bucket);
                assert(order::ref_views(members@).len() == members.len());
                if i < members.len() {
                    assert(order::ref_views(members@)[i as int] == members@[i as int]@);
                    return self.find(members[i].id);
                }
            },
            None => {},
        }
        self.end_pos(bucket)
    }

    /// Move a task into `bucket` at `index` (None = end).
    pub fn move_to_at(
        &mut self,
        id: u64,
        bucket: Bucket,
        index: Option<usize>,
        now: u64,
    ) -> (found: bool)
        ensures
            found == old(self)@.has(id),
            final(self)@ == old(self)@.moved(id, bucket, index, now),
    {
        let pos = self.find(id);
        if pos >= self.tasks.len() {
            return false;
        }
        let ghost start = self@;
        let mut task = self.tasks.remove(pos);
        assert(self@.tasks =~= start.tasks.remove(pos as int));
        task.bucket = bucket;
        let at = self.place_in(bucket, index);
        let ghost rest = self@.tasks;
        let ghost view = task@;
        self.tasks.insert(at, task);
        assert(self@.tasks =~= rest.insert(at as int, view));
        self.normalize(now);
        true
    }

    pub fn move_to(&mut self, id: u64, bucket: Bucket, index: Option<usize>) -> (found: bool)
        ensures
            found == old(self)@.has(id),
            exists|now: u64| final(self)@ == #[trigger] old(self)@.moved(id, bucket, index, now),
    {
        let now = unix_now();
        self.move_to_at(id, bucket, index, now)
    }

    /// Make a task the current one (head of Now).
    pub fn promote_at(&mut self, id: u64, now: u64) -> (found: bool)
        ensures
            found == old(self)@.has(id),
            final(self)@ == old(self)@.promoted(id, now),
    {
        self.move_to_at(id, Bucket::Now, Some(0), now)
    }

    pub fn promote(&mut self, id: u64) -> (found: bool)
        ensures
            found == old(self)@.has(id),
            exists|now: u64| final(self)@ == #[trigger] old(self)@.promoted(id, now),
    {
        let now = unix_now();
        self.promote_at(id, now)
    }

    /// Move a task up (-1) or down (+1) within its bucket.
    pub fn shift_at(&mut self, id: u64, delta: i32, now: u64) -> (moved: bool)
        ensures
            moved == old(self)@.shifts(id, delta),
            final(self)@ == old(self)@.shifted(id, delta, now),
    {
        let bucket: Bucket = match self.get(id) {
            Some(t) => t.bucket,
            None => {
                return false;
            },
        };
        let members = self.in_bucket(bucket);
        let ghost seq = order::ref_views(members@);
        let n: usize = members.len();
        let mut i: usize = 0;
        while i < n && members[i].id != id
            invariant
                i <= n,
                n == members.len(),
                seq == order::ref_views(members@),
                forall|j: int| 0 <= j < i ==> !order::has_id(id)(#[trigger] seq[j]),
            decreases n - i,
        {
            assert(seq[i as int] == members@[i as int]@);
            i += 1;
        }
        proof {
            if i < n {
                assert(seq[i as int] == members@[i as int]@);
            }
            order::lemma_first_where_is(seq, order::has_id(id), i as int);
            lemma_member_of_bucket(self@, id);
            assert(i < n);
        }
        let target: usize = if delta < 0 {
            let up: u64 = (-(delta as i64)) as u64;
            if (i as u64) < up {
                0
            } else {
                i - up as usize
            }
        } else {
            let down: u64 = delta as u64;
            if ((n - 1 - i) as u64) < down {
                n - 1
            } else {
                i + down as usize
            }
        };
        if target == i {
            return false;
        }
        self.move_to_at(id, bucket, Some(target), now)
    }

    pub fn shift(&mut self, id: u64, delta: i32) -> (moved: bool)
        ensures
            moved == old(self)@.shifts(id, delta),
            exists|now: u64| final(self)@ == #[trigger] old(self)@.shifted(id, delta, now),
    {
        let now = unix_now();
        self.shift_at(id, delta, now)
    }

    pub fn set_tag(&mut self, id: u64, tag: Option<Tag>) -> (found: bool)
        ensures
            found == old(self)@.has(id),
            final(self)@ == old(self)@.tagged(id, tag),
    {
        let i = self.find(id);
        if i >= self.tasks.len() {
            return false;
        }
        let ghost start = self@;
        self.tasks[i].tag = tag;
        assert(self@.tasks =~= start.tagged(id, tag).tasks);
        true
    }

    pub fn cycle_tag(&mut self, id: u64) -> (found: bool)
        ensures
            found == old(self)@.has(id),
            final(self)@ == old(self)@.tag_cycled(id),
    {
        let cur: Option<Tag> = match self.get(id) {
            Some(t) => t.tag,
            None => {
                return false;
            },
        };
        self.set_tag(id, Tag::cycle(cur))
    }

    /// Pause or resume the current task's timer. Resuming keeps the time already
    /// on the clock by shifting `started_at` forward by the paused duration.
    pub fn toggle_pause_at(&mut self, now: u64) -> (toggled: bool)
        ensures
            toggled == old(self)@.can_pause(),
            final(self)@ == old(self)@.pause_toggled(now),
    {
        let id: u64 = match self.current() {
            Some(t) => t.id,
            None => {
                return false;
            },
        };
        let i = self.find(id);
        if i >= self.tasks.len() {
            return false;
        }
        let started: u64 = match self.tasks[i].started_at {
            Some(started) => started,
            None => {
                return false;
            },
        };
        let ghost start = self@;
        proof {
            order::lemma_first_where(start.tasks, order::has_id(id));
            assert(start.timer()->0.id == id);
        }
        match self.tasks[i].paused_at {
            Some(paused) => {
                let gap: u64 = now.saturating_sub(paused);
                self.tasks[i].paused_at = None;
                self.tasks[i].started_at = Some(started.wrapping_add(gap));
            },
            None => {
                self.tasks[i].paused_at = Some(
                    if now >= started {
                        now
                    } else {
                        started
                    },
                );
            },
        }
        assert(self@.tasks =~= start.pause_toggled(now).tasks);
        true
    }

    pub fn toggle_pause(&mut self) -> (toggled: bool)
        ensures
            toggled == old(self)@.can_pause(),
            exists|now: u64| final(self)@ == #[trigger] old(self)@.pause_toggled(now),
    {
        let now = unix_now();
        self.toggle_pause_at(now)
    }

    pub fn rename(&mut self, id: u64, title: &str) -> (renamed: bool)
        ensures
            renamed == old(self)@.renames(id, title@),
            final(self)@ == old(self)@.renamed(id, title@),
    {
        let title = bounded_title(title);
        if title.as_str().is_empty() {
            return false;
        }
        let i = self.find(id);
        if i >= self.tasks.len() {
            return false;
        }
        let ghost start = self@;
        let ghost view = title@;
        self.tasks[i].title = title;
        assert(self@.tasks =~= start.with_task(id, TaskView { title: view, ..start.get(id)->0 }).tasks);
        true
    }

    /// Delete the current task; if Now becomes empty, pull the head of Next.
    pub fn complete_current_at(&mut self, now: u64) -> (done: Option<Completed>)
        ensures
            done is Some <==> old(self)@.completion() is Some,
            done is Some ==> Some(done->0@) == old(self)@.completion(),
            final(self)@ == old(self)@.completed(now),
    {
        let id: u64 = match self.current() {
            Some(t) => t.id,
            None => {
                return None;
            },
        };
        let ghost start = self@;
        let idx = self.find(id);
        proof {
            lemma_current_is_found(start);
        }
        let task = self.tasks.remove(idx);
        assert(self@.tasks =~= start.without_current().tasks);
        let mut pulled: Option<u64> = None;
        if self.current().is_none() {
            let i = self.first_pos(Bucket::Next);
            if i < self.tasks.len() {
                pulled = Some(self.tasks[i].id);
            }
        }
        match pulled {
            Some(next) => {
                self.promote_at(next, now);
            },
            None => {
                self.normalize(now);
            },
        }
        Some(Completed { task, pulled })
    }

    pub fn complete_current(&mut self) -> (done: Option<Completed>)
        ensures
            done is Some <==> old(self)@.completion() is Some,
            done is Some ==> Some(done->0@) == old(self)@.completion(),
            exists|now: u64| final(self)@ == #[trigger] old(self)@.completed(now),
    {
        let now = unix_now();
        self.complete_current_at(now)
    }

    /// Reverse a completion: the pulled task goes back to the head of Next and
    /// the completed task becomes current again, clock intact. Refuses if a task
    /// with that id already exists.
    pub fn undo_complete_at(&mut self, completed: Completed, now: u64) -> (undone: bool)
        ensures
            undone == !old(self)@.has(completed@.task.id),
            final(self)@ == old(self)@.restored(completed@, now),
    {
        let ghost done = completed@;
        if self.get(completed.task.id).is_some() {
            return false;
        }
        match completed.pulled {
            Some(pulled) => {
                let in_now: bool = match self.get(pulled) {
                    Some(t) => t.bucket == Bucket::Now,
                    None => false,
                };
                if in_now {
                    self.move_to_at(pulled, Bucket::Next, Some(0), now);
                }
            },
            None => {},
        }
        let ghost base = self@;
        let mut task = completed.task;
        task.bucket = Bucket::Now;
        let ghost view = task@;
        let at = self.first_pos(Bucket::Now);
        self.tasks.insert(at, task);
        assert(self@.tasks =~= base.tasks.insert(at as int, view));
        self.normalize(now);
        true
    }

    pub fn undo_complete(&mut self, completed: Completed) -> (undone: bool)
        ensures
            undone == !old(self)@.has(completed@.task.id),
            exists|now: u64| final(self)@ == #[trigger] old(self)@.restored(completed@, now),
    {
        let now = unix_now();
        self.undo_complete_at(completed, now)
    }
}

/// The title as a store keeps it.
pub fn bounded_title(title: &str) -> (t: String)
    ensures
        t@ == bounded(title@),
{
    let v = text::trim_chars(&text::chars_of(title));
    if v.len() <= crate::model::MAX_TITLE_CHARS {
        text::text_of(&v)
    } else {
        let short = text::slice_chars(&v, 0, crate::model::MAX_TITLE_CHARS);
        assert(v@.subrange(0, 256) =~= v@.take(256));
        text::text_of(&short)
    }
}

/// Dropping the tasks with an id drops something exactly where one has it.
proof fn lemma_filter_other(tasks: Seq<TaskView>, id: u64)
    ensures
        tasks.filter(order::other_id(id)).len() <= tasks.len(),
        tasks.filter(order::other_id(id)).len() == tasks.len() <==> order::first_where(
            tasks,
            order::has_id(id),
        ) == tasks.len(),
        order::first_where(tasks, order::has_id(id)) == tasks.len() ==> tasks.filter(
            order::other_id(id),
        ) == tasks,
{
    let i = order::first_where(tasks, order::has_id(id));
    order::lemma_first_where(tasks, order::has_id(id));
    lemma_filter_keeps(tasks.take(i), order::other_id(id));
    if i == tasks.len() {
        assert(tasks.take(i) =~= tasks);
    } else {
        let head = tasks.take(i);
        let tail = tasks.skip(i + 1);
        assert(tasks =~= head.push(tasks[i]) + tail);
        order::lemma_filter_push(head, tasks[i], order::other_id(id));
        order::lemma_filter_add(head.push(tasks[i]), tail, order::other_id(id));
        order::lemma_filter_all(tail, order::other_id(id));
    }
}

/// Filtering keeps everything where everything passes.
pub proof fn lemma_filter_keeps(tasks: Seq<TaskView>, p: spec_fn(TaskView) -> bool)
    requires
        forall|i: int| 0 <= i < tasks.len() ==> p(#[trigger] tasks[i]),
    ensures
        tasks.filter(p) == tasks,
    decreases tasks.len(),
{
    reveal(Seq::filter);
    if tasks.len() > 0 {
        lemma_filter_keeps(tasks.drop_last(), p);
        assert(tasks.drop_last().push(tasks.last()) =~= tasks);
    } else {
        assert(tasks.filter(p) =~= tasks);
    }
}

/// A task is among the tasks of its bucket.
pub proof fn lemma_member_of_bucket(s: StoreView, id: u64)
    requires
        s.has(id),
    ensures
        0 <= s.rank(id) < s.in_bucket(s.get(id)->0.bucket).len(),
{
    let i = s.position(id);
    let p = order::is_in(s.get(id)->0.bucket);
    order::lemma_first_where(s.tasks, order::has_id(id));
    let head = s.tasks.take(i);
    let tail = s.tasks.skip(i + 1);
    assert(s.tasks =~= head.push(s.tasks[i]) + tail);
    order::lemma_filter_push(head, s.tasks[i], p);
    order::lemma_filter_add(head.push(s.tasks[i]), tail, p);
    let members = s.tasks.filter(p);
    let k = head.filter(p).len() as int;
    assert(members[k].id == id);
    order::lemma_first_where(members, order::has_id(id));
}

/// The current task is found by its id.
pub proof fn lemma_current_is_found(s: StoreView)
    requires
        s.current() is Some,
    ensures
        s.has(s.current_id()->0),
{
    let id = s.current_id()->0;
    order::lemma_first_where(s.tasks, order::has_id(id));
    order::lemma_first_where(s.tasks, order::is_in(Bucket::Now));
    assert(s.tasks[s.head(Bucket::Now)].id == id);
}

} // verus!
