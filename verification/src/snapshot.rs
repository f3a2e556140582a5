//! The state of the queue as the shell extension and the command line read it.

use crate::json;
use crate::json::Json;
use crate::json::JsonTree;
use crate::model::Bucket;
use crate::model::Task;
use crate::model::TaskView;
use crate::order;
use crate::queue::Store;
use crate::queue::StoreView;
use vstd::prelude::*;

verus! {

/// A time, or null.
pub open spec fn time_or_null(n: Option<u64>) -> JsonTree {
    match n {
        Some(n) => JsonTree::Unsigned(n),
        None => JsonTree::Null,
    }
}

impl TaskView {
    /// The members of a task in a snapshot.
    pub open spec fn snapshot(self) -> Seq<(Seq<char>, JsonTree)> {
        seq![
            ("id"@, JsonTree::Unsigned(self.id)),
            ("paused_at"@, time_or_null(self.paused_at)),
            ("started_at"@, time_or_null(self.started_at)),
            (
                "tag"@,
                match self.tag {
                    Some(tag) => JsonTree::Text(tag.name()),
                    None => JsonTree::Null,
                },
            ),
            ("title"@, JsonTree::Text(self.title)),
        ]
    }
}

/// The tasks of a bucket in a snapshot.
pub open spec fn list_snapshot(tasks: Seq<TaskView>) -> Seq<JsonTree> {
    Seq::new(tasks.len(), |i: int| JsonTree::Object(tasks[i].snapshot()))
}

impl StoreView {
    /// The members of a snapshot: the current task, and the tasks of each bucket
    /// in order.
    pub open spec fn snapshot(self) -> Seq<(Seq<char>, JsonTree)> {
        seq![
            (
                "current"@,
                match self.current() {
                    Some(t) => JsonTree::Object(t.snapshot()),
                    None => JsonTree::Null,
                },
            ),
            ("later"@, JsonTree::Array(list_snapshot(self.in_bucket(Bucket::Later)))),
            ("next"@, JsonTree::Array(list_snapshot(self.in_bucket(Bucket::Next)))),
            ("now"@, JsonTree::Array(list_snapshot(self.in_bucket(Bucket::Now)))),
            ("side"@, JsonTree::Array(list_snapshot(self.in_bucket(Bucket::Side)))),
        ]
    }
}

proof fn lemma_task_keeps(t: TaskView, depth: nat)
    requires
        depth > 0,
    ensures
        json::keeps(JsonTree::Object(t.snapshot()), depth),
{
    reveal_strlit("id");
    reveal_strlit("paused_at");
    reveal_strlit("started_at");
    reveal_strlit("tag");
    reveal_strlit("title");
    let f = t.snapshot();
    assert(f[0].0.len() == 2);
    assert(f[1].0.len() == 9);
    assert(f[2].0.len() == 10);
    assert(f[3].0.len() == 3);
    assert(f[4].0.len() == 5);
    json::lemma_object_keeps(f, depth);
}

proof fn lemma_list_keeps(tasks: Seq<TaskView>, depth: nat)
    requires
        depth > 1,
    ensures
        json::keeps(JsonTree::Array(list_snapshot(tasks)), depth),
{
    let v = list_snapshot(tasks);
    assert forall|i: int| 0 <= i < v.len() implies json::keeps(
        #[trigger] v[i],
        (depth - 1) as nat,
    ) by {
        lemma_task_keeps(tasks[i], (depth - 1) as nat);
    }
    json::lemma_array_keeps(v, depth);
}

proof fn lemma_snapshot_keeps(s: StoreView)
    ensures
        json::keeps(JsonTree::Object(s.snapshot()), json::MAX_DEPTH as nat),
{
    reveal_strlit("current");
    reveal_strlit("later");
    reveal_strlit("next");
    reveal_strlit("now");
    reveal_strlit("side");
    let f = s.snapshot();
    let depth = (json::MAX_DEPTH - 1) as nat;
    assert(f[0].0.len() == 7);
    assert(f[1].0.len() == 5);
    assert(f[2].0.len() == 4 && f[2].0[0] == 'n');
    assert(f[3].0.len() == 3);
    assert(f[4].0.len() == 4 && f[4].0[0] == 's');
    match s.current() {
        Some(t) => lemma_task_keeps(t, depth),
        None => {},
    }
    lemma_list_keeps(s.in_bucket(Bucket::Later), depth);
    lemma_list_keeps(s.in_bucket(Bucket::Next), depth);
    lemma_list_keeps(s.in_bucket(Bucket::Now), depth);
    lemma_list_keeps(s.in_bucket(Bucket::Side), depth);
    json::lemma_object_keeps(f, json::MAX_DEPTH as nat);
}

fn time_json(n: Option<u64>) -> (j: Json)
    ensures
        j@ == time_or_null(n),
{
    match n {
        Some(n) => Json::Unsigned(n),
        None => Json::Null,
    }
}

fn task_json(t: &Task) -> (j: Json)
    ensures
        j@ == JsonTree::Object(t@.snapshot()),
{
    broadcast use json::lemma_parts;

    let mut f: Vec<(String, Json)> = Vec::new();
    f.push(("id".to_string(), Json::Unsigned(t.id)));
    f.push(("paused_at".to_string(), time_json(t.paused_at)));
    f.push(("started_at".to_string(), time_json(t.started_at)));
    f.push(
        (
            "tag".to_string(),
            match t.tag {
                Some(tag) => Json::Text(tag.as_str().to_string()),
                None => Json::Null,
            },
        ),
    );
    f.push(("title".to_string(), Json::Text(t.title.clone())));
    assert(json::members(f@) =~= t@.snapshot());
    Json::Object(f)
}

impl Store {
    fn list_json(&self, bucket: Bucket) -> (j: Json)
        ensures
            j@ == JsonTree::Array(list_snapshot(self@.in_bucket(bucket))),
    {
        broadcast use json::lemma_parts;

        let tasks = self.in_bucket(bucket);
        let ghost all = order::ref_views(tasks@);
        let mut v: Vec<Json> = Vec::new();
        let mut i: usize = 0;
        assert(json::items(v@) =~= list_snapshot(all.take(0)));
        while i < tasks.len()
            invariant
                i <= tasks@.len(),
                all == order::ref_views(tasks@),
                json::items(v@) == list_snapshot(all.take(i as int)),
            decreases tasks@.len() - i,
        {
            let ghost before = json::items(v@);
            let j = task_json(tasks[i]);
            v.push(j);
            assert(json::items(v@) =~= before.push(j@));
            assert(json::items(v@) =~= list_snapshot(all.take(i as int + 1)));
            i = i + 1;
        }
        assert(all.take(i as int) =~= all);
        Json::Array(v)
    }

    /// The snapshot as a JSON value.
    pub fn snapshot(&self) -> (j: Json)
        ensures
            j@ == JsonTree::Object(self@.snapshot()),
            json::keeps(j@, json::MAX_DEPTH as nat),
    {
        broadcast use json::lemma_parts;

        let mut f: Vec<(String, Json)> = Vec::new();
        f.push(
            (
                "current".to_string(),
                match self.current() {
                    Some(t) => task_json(t),
                    None => Json::Null,
                },
            ),
        );
        f.push(("later".to_string(), self.list_json(Bucket::Later)));
        f.push(("next".to_string(), self.list_json(Bucket::Next)));
        f.push(("now".to_string(), self.list_json(Bucket::Now)));
        f.push(("side".to_string(), self.list_json(Bucket::Side)));
        assert(json::members(f@) =~= self@.snapshot());
        proof {
            lemma_snapshot_keeps(self@);
        }
        Json::Object(f)
    }

    /// Compact JSON snapshot for the shell extension and the command line.
    pub fn snapshot_json(&self) -> (s: String)
        ensures
            s@ == json::compact(JsonTree::Object(self@.snapshot())),
            json::parsed(s@) == Ok::<JsonTree, Seq<char>>(JsonTree::Object(self@.snapshot())),
    {
        json::print(self.snapshot())
    }
}

// ---- laws ----------------------------------------------------------------------------

/// Whether an object tells of a task: its id, its title, its tag and its times.
pub open spec fn tells_of(j: JsonTree, t: TaskView) -> bool {
    &&& j matches JsonTree::Object(f)
    &&& f.len() == 5
    &&& json::field(f, "id"@) == Some(JsonTree::Unsigned(t.id))
    &&& json::field(f, "title"@) == Some(JsonTree::Text(t.title))
    &&& json::field(f, "tag"@) == Some(
        match t.tag {
            None => JsonTree::Null,
            Some(crate::model::Tag::Work) => JsonTree::Text("work"@),
            Some(crate::model::Tag::Personal) => JsonTree::Text("personal"@),
        },
    )
    &&& json::field(f, "started_at"@) == Some(
        match t.started_at {
            None => JsonTree::Null,
            Some(n) => JsonTree::Unsigned(n),
        },
    )
    &&& json::field(f, "paused_at"@) == Some(
        match t.paused_at {
            None => JsonTree::Null,
            Some(n) => JsonTree::Unsigned(n),
        },
    )
}

/// Whether an array tells of some tasks, one object each, in their order.
pub open spec fn tells_of_all(j: Option<JsonTree>, tasks: Seq<TaskView>) -> bool {
    &&& j matches Some(JsonTree::Array(v))
    &&& v.len() == tasks.len()
    &&& forall|i: int| 0 <= i < tasks.len() ==> tells_of(#[trigger] v[i], tasks[i])
}

/// Whether a snapshot tells of a store: under the name of each bucket of the tasks in
/// it, and of the task being worked on.
pub open spec fn tells_of_store(j: JsonTree, s: StoreView) -> bool {
    let now = s.tasks.filter(|t: TaskView| t.bucket == Bucket::Now);
    &&& j matches JsonTree::Object(f)
    &&& f.len() == 5
    &&& tells_of_all(json::field(f, "now"@), now)
    &&& tells_of_all(
        json::field(f, "side"@),
        s.tasks.filter(|t: TaskView| t.bucket == Bucket::Side),
    )
    &&& tells_of_all(
        json::field(f, "next"@),
        s.tasks.filter(|t: TaskView| t.bucket == Bucket::Next),
    )
    &&& tells_of_all(
        json::field(f, "later"@),
        s.tasks.filter(|t: TaskView| t.bucket == Bucket::Later),
    )
    &&& json::field(f, "current"@) matches Some(c) && (if now.len() > 0 {
        tells_of(c, now[0])
    } else {
        c is Null
    })
}

proof fn lemma_tells_of(t: TaskView)
    ensures
        tells_of(JsonTree::Object(t.snapshot()), t),
{
    lemma_task_keeps(t, 1);
    let f = t.snapshot();
    json::lemma_field_at(f, 0);
    json::lemma_field_at(f, 1);
    json::lemma_field_at(f, 2);
    json::lemma_field_at(f, 3);
    json::lemma_field_at(f, 4);
}

proof fn lemma_tells_of_all(tasks: Seq<TaskView>)
    ensures
        tells_of_all(Some(JsonTree::Array(list_snapshot(tasks))), tasks),
{
    let v = list_snapshot(tasks);
    assert forall|i: int| 0 <= i < tasks.len() implies tells_of(#[trigger] v[i], tasks[i]) by {
        lemma_tells_of(tasks[i]);
    }
}

pub(crate) proof fn lemma_tells_of_store(s: StoreView)
    ensures
        tells_of_store(JsonTree::Object(s.snapshot()), s),
{
    lemma_snapshot_keeps(s);
    let f = s.snapshot();
    json::lemma_field_at(f, 0);
    json::lemma_field_at(f, 1);
    json::lemma_field_at(f, 2);
    json::lemma_field_at(f, 3);
    json::lemma_field_at(f, 4);
    assert(order::is_in(Bucket::Now) =~= (|t: TaskView| t.bucket == Bucket::Now));
    assert(order::is_in(Bucket::Side) =~= (|t: TaskView| t.bucket == Bucket::Side));
    assert(order::is_in(Bucket::Next) =~= (|t: TaskView| t.bucket == Bucket::Next));
    assert(order::is_in(Bucket::Later) =~= (|t: TaskView| t.bucket == Bucket::Later));
    lemma_tells_of_all(s.in_bucket(Bucket::Now));
    lemma_tells_of_all(s.in_bucket(Bucket::Side));
    lemma_tells_of_all(s.in_bucket(Bucket::Next));
    lemma_tells_of_all(s.in_bucket(Bucket::Later));
    crate::laws::law_current_is_the_head_of_now(s);
    match s.current() {
        Some(t) => lemma_tells_of(t),
        None => {},
    }
}

/// A snapshot lists every task under the name of its bucket and nowhere else, in
/// order, with what it holds, and names the task being worked on.
pub proof fn law_a_snapshot_tells_of_every_task(store: Store)
    ensures
        forall|j: Json| #[trigger]
            call_ensures(Store::snapshot, (&store,), j) ==> tells_of_store(j@, store@),
        forall|s: String| #[trigger]
            call_ensures(Store::snapshot_json, (&store,), s) ==> (json::parsed(s@) matches Ok(j)
                && tells_of_store(j, store@)),
{
    lemma_tells_of_store(store@);
}

} // verus!
