//! The two files: what the bytes of each mean, and what is written.

use crate::json;
use crate::json::Json;
use crate::json::JsonTree;
use crate::model::Bucket;
use crate::model::Tag;
use crate::model::Task;
use crate::model::TaskView;
use crate::order;
use crate::queue;
use crate::queue::Store;
use crate::queue::StoreView;
use crate::settings;
use crate::settings::Settings;
use crate::text;
use vstd::prelude::*;

verus! {

// ---- failures ------------------------------------------------------------------------

/// `std::io::ErrorKind`, carried for the kinds that nothing here asks for.
#[verifier::external_type_specification]
#[verifier::external_body]
pub struct ExErrorKind(std::io::ErrorKind);

/// What kind of failure a file gave.
#[derive(Debug, Clone, Copy, PartialEq, Eq)]
pub enum FailureKind {
    NotFound,
    AlreadyExists,
    InvalidInput,
    InvalidData,
    Other(std::io::ErrorKind),
}

/// A failure to read or write a file.
#[derive(Debug, PartialEq, Eq)]
pub struct Failure {
    pub kind: FailureKind,
    pub message: String,
}

/// What a `Failure` holds.
#[verifier::ext_equal]
pub struct FailureView {
    pub kind: FailureKind,
    pub message: Seq<char>,
}

impl View for Failure {
    type V = FailureView;

    open spec fn view(&self) -> FailureView {
        FailureView { kind: self.kind, message: self.message@ }
    }
}

impl FailureView {
    pub open spec fn bad_data(message: Seq<char>) -> FailureView {
        FailureView { kind: FailureKind::InvalidData, message }
    }
}

/// A failure of data that is not what it should be.
pub fn bad_data(message: String) -> (f: Failure)
    ensures
        f@ == FailureView::bad_data(message@),
{
    Failure { kind: FailureKind::InvalidData, message }
}

/// A save failure, including whether the destination was already replaced.
///
/// Before the commit point, callers can safely retain or restore their old
/// in-memory state. After the commit point, the new JSON is visible at the
/// destination even though syncing its directory failed.
#[derive(Debug, PartialEq, Eq)]
pub enum SaveError {
    BeforeCommit(Failure),
    AfterCommit(Failure),
}

impl SaveError {
    pub open spec fn failure(self) -> FailureView {
        match self {
            SaveError::BeforeCommit(f) => f@,
            SaveError::AfterCommit(f) => f@,
        }
    }

    /// Whether the atomic rename that installs the new JSON has completed.
    pub fn is_committed(&self) -> (committed: bool)
        ensures
            committed == (self is AfterCommit),
    {
        match self {
            SaveError::BeforeCommit(_) => false,
            SaveError::AfterCommit(_) => true,
        }
    }

    pub fn kind(&self) -> (kind: FailureKind)
        ensures
            kind == self.failure().kind,
    {
        self.error().kind
    }

    pub fn error(&self) -> (f: &Failure)
        ensures
            f@ == self.failure(),
    {
        match self {
            SaveError::BeforeCommit(f) => f,
            SaveError::AfterCommit(f) => f,
        }
    }

    /// The words of the failure.
    pub fn to_string(&self) -> (s: String)
        ensures
            s@ == self.failure().message,
    {
        self.error().message.clone()
    }
}

// ---- tasks out of JSON ---------------------------------------------------------------

/// The bucket that a field gives, if the field is there.
pub open spec fn bucket_field(f: Seq<(Seq<char>, JsonTree)>, key: Seq<char>) -> Result<
    Option<Bucket>,
    Seq<char>,
> {
    match json::field(f, key) {
        None => Ok(None),
        Some(t) => match Bucket::read(t) {
            Ok(b) => Ok(Some(b)),
            Err(e) => Err(e),
        },
    }
}

/// The number that a field gives, if the field is there.
pub open spec fn number_field(f: Seq<(Seq<char>, JsonTree)>, key: Seq<char>) -> Result<
    Option<u64>,
    Seq<char>,
> {
    match json::field(f, key) {
        None => Ok(None),
        Some(t) => match json::as_u64(t) {
            Ok(n) => Ok(Some(n)),
            Err(e) => Err(e),
        },
    }
}

/// The time that a field gives, none where the field is null or not there.
pub open spec fn time_field(f: Seq<(Seq<char>, JsonTree)>, key: Seq<char>) -> Result<
    Option<u64>,
    Seq<char>,
> {
    match json::field(f, key) {
        None => Ok(None),
        Some(t) => json::as_optional_u64(t),
    }
}

/// The tag that a value gives, none where it is null.
pub open spec fn optional_tag(t: JsonTree) -> Result<Option<Tag>, Seq<char>> {
    match t {
        JsonTree::Null => Ok(None),
        _ => match Tag::read(t) {
            Ok(tag) => Ok(Some(tag)),
            Err(e) => Err(e),
        },
    }
}

/// The tag that a field gives, none where the field is null or not there.
pub open spec fn tag_field(f: Seq<(Seq<char>, JsonTree)>, key: Seq<char>) -> Result<
    Option<Tag>,
    Seq<char>,
> {
    match json::field(f, key) {
        None => Ok(None),
        Some(t) => optional_tag(t),
    }
}

/// A title as a store keeps it, out of a text.
pub open spec fn title_in(t: JsonTree) -> Result<Seq<char>, Seq<char>> {
    match json::as_text(t) {
        Ok(s) => Ok(queue::bounded(s)),
        Err(e) => Err(e),
    }
}

/// The title that a field gives, if the field is there.
pub open spec fn title_field(f: Seq<(Seq<char>, JsonTree)>, key: Seq<char>) -> Result<
    Option<Seq<char>>,
    Seq<char>,
> {
    match json::field(f, key) {
        None => Ok(None),
        Some(t) => match title_in(t) {
            Ok(s) => Ok(Some(s)),
            Err(e) => Err(e),
        },
    }
}

impl TaskView {
    /// A task out of the parts of an object, where the parts that must be there
    /// are. The first that is not, in the order of the fields, is complained of.
    pub open spec fn of_parts(
        id: Option<u64>,
        title: Option<Seq<char>>,
        bucket: Option<Bucket>,
        tag: Option<Tag>,
        created_at: Option<u64>,
        started_at: Option<u64>,
        paused_at: Option<u64>,
    ) -> Result<TaskView, Seq<char>> {
        if id is None {
            Err(json::missing("id"@))
        } else if title is None {
            Err(json::missing("title"@))
        } else if bucket is None {
            Err(json::missing("bucket"@))
        } else if created_at is None {
            Err(json::missing("created_at"@))
        } else {
            Ok(
                TaskView {
                    id: id->0,
                    title: title->0,
                    bucket: bucket->0,
                    tag,
                    created_at: created_at->0,
                    started_at,
                    paused_at,
                },
            )
        }
    }

    /// The task that the members of an object give. Where several fields cannot
    /// be read, the complaint is about the first of them by name.
    pub open spec fn of_members(f: Seq<(Seq<char>, JsonTree)>) -> Result<TaskView, Seq<char>> {
        match bucket_field(f, "bucket"@) {
            Err(e) => Err(e),
            Ok(bucket) => match number_field(f, "created_at"@) {
                Err(e) => Err(e),
                Ok(created_at) => match number_field(f, "id"@) {
                    Err(e) => Err(e),
                    Ok(id) => match time_field(f, "paused_at"@) {
                        Err(e) => Err(e),
                        Ok(paused_at) => match time_field(f, "started_at"@) {
                            Err(e) => Err(e),
                            Ok(started_at) => match tag_field(f, "tag"@) {
                                Err(e) => Err(e),
                                Ok(tag) => match title_field(f, "title"@) {
                                    Err(e) => Err(e),
                                    Ok(title) => TaskView::of_parts(
                                        id,
                                        title,
                                        bucket,
                                        tag,
                                        created_at,
                                        started_at,
                                        paused_at,
                                    ),
                                },
                            },
                        },
                    },
                },
            },
        }
    }

    /// The task that the items of an array give, one field behind the other.
    pub open spec fn of_items(v: Seq<JsonTree>) -> Result<TaskView, Seq<char>> {
        let short = |n: nat| json::wrong_length(n, "struct Task with 7 elements"@);
        if v.len() < 1 {
            Err(short(0))
        } else {
            match json::as_u64(v[0]) {
                Err(e) => Err(e),
                Ok(id) => if v.len() < 2 {
                    Err(short(1))
                } else {
                    match title_in(v[1]) {
                        Err(e) => Err(e),
                        Ok(title) => if v.len() < 3 {
                            Err(short(2))
                        } else {
                            match Bucket::read(v[2]) {
                                Err(e) => Err(e),
                                Ok(bucket) => TaskView::of_last_items(v, id, title, bucket),
                            }
                        },
                    }
                },
            }
        }
    }

    /// The rest of such a task, behind its first three fields.
    pub open spec fn of_last_items(
        v: Seq<JsonTree>,
        id: u64,
        title: Seq<char>,
        bucket: Bucket,
    ) -> Result<TaskView, Seq<char>> {
        match (if v.len() < 4 {
            Ok(None)
        } else {
            optional_tag(v[3])
        }) {
            Err(e) => Err(e),
            Ok(tag) => if v.len() < 5 {
                Err(json::wrong_length(4, "struct Task with 7 elements"@))
            } else {
                match json::as_u64(v[4]) {
                    Err(e) => Err(e),
                    Ok(created_at) => match (if v.len() < 6 {
                        Ok(None)
                    } else {
                        json::as_optional_u64(v[5])
                    }) {
                        Err(e) => Err(e),
                        Ok(started_at) => match (if v.len() < 7 {
                            Ok(None)
                        } else {
                            json::as_optional_u64(v[6])
                        }) {
                            Err(e) => Err(e),
                            Ok(paused_at) => if v.len() > 7 {
                                Err(json::wrong_length(v.len(), "fewer elements in array"@))
                            } else {
                                Ok(
                                    TaskView {
                                        id,
                                        title,
                                        bucket,
                                        tag,
                                        created_at,
                                        started_at,
                                        paused_at,
                                    },
                                )
                            },
                        },
                    },
                }
            },
        }
    }

    /// The task that a JSON value gives.
    pub open spec fn read(t: JsonTree) -> Result<TaskView, Seq<char>> {
        match t {
            JsonTree::Object(f) => TaskView::of_members(f),
            JsonTree::Array(v) => TaskView::of_items(v),
            _ => Err(json::wrong_type(t, "struct Task"@)),
        }
    }
}

/// The tasks that the items of an array give, or what is said of the first item
/// that gives none.
pub open spec fn tasks_of_items(v: Seq<JsonTree>) -> Result<Seq<TaskView>, Seq<char>>
    decreases v.len(),
{
    if v.len() == 0 {
        Ok(seq![])
    } else {
        match tasks_of_items(v.drop_last()) {
            Err(e) => Err(e),
            Ok(tasks) => match TaskView::read(v.last()) {
                Err(e) => Err(e),
                Ok(task) => Ok(tasks.push(task)),
            },
        }
    }
}

/// The tasks that a JSON value gives.
pub open spec fn tasks_in(t: JsonTree) -> Result<Seq<TaskView>, Seq<char>> {
    match t {
        JsonTree::Array(v) => tasks_of_items(v),
        _ => Err(json::wrong_type(t, "a sequence"@)),
    }
}

impl StoreView {
    /// The store of a queue that nothing was added to yet.
    pub open spec fn fresh() -> StoreView {
        StoreView { next_id: 1, tasks: Seq::empty() }
    }

    /// The store that the members of an object give: the ids start at one and the
    /// queue is empty where they are not said.
    pub open spec fn of_members(f: Seq<(Seq<char>, JsonTree)>) -> Result<StoreView, Seq<char>> {
        match number_field(f, "next_id"@) {
            Err(e) => Err(e),
            Ok(next_id) => match (match json::field(f, "tasks"@) {
                None => Ok(Seq::empty()),
                Some(t) => tasks_in(t),
            }) {
                Err(e) => Err(e),
                Ok(tasks) => Ok(
                    StoreView {
                        next_id: match next_id {
                            Some(n) => n,
                            None => 1,
                        },
                        tasks,
                    },
                ),
            },
        }
    }
}

/// The members of the object that a file holds. Both files hold an object; a
/// file that holds anything else is refused under its name.
pub open spec fn members_of_file(path: Seq<char>, read: Result<JsonTree, Seq<char>>) -> Result<
    Seq<(Seq<char>, JsonTree)>,
    Seq<char>,
> {
    match read {
        Err(e) => Err(e),
        Ok(JsonTree::Object(f)) => Ok(f),
        Ok(_) => Err(path + " does not hold a JSON object"@),
    }
}

/// The store that the contents of a file give. A file that is not there is an
/// empty queue.
pub open spec fn loaded(
    path: Seq<char>,
    contents: Option<Result<JsonTree, Seq<char>>>,
) -> Result<StoreView, Seq<char>> {
    match contents {
        None => Ok(StoreView::fresh()),
        Some(read) => match members_of_file(path, read) {
            Err(e) => Err(e),
            Ok(f) => StoreView::of_members(f),
        },
    }
}

/// The settings that the contents of a file give, pulled into range. A file that
/// is not there means the defaults.
pub open spec fn loaded_settings(
    path: Seq<char>,
    contents: Option<Result<JsonTree, Seq<char>>>,
) -> Result<Settings, Seq<char>> {
    match contents {
        None => Ok(Settings::usual().sane()),
        Some(read) => match members_of_file(path, read) {
            Err(e) => Err(e),
            Ok(f) => match Settings::read(f, Settings::usual()) {
                Err(e) => Err(e.words),
                Ok(s) => Ok(s.sane()),
            },
        },
    }
}

fn find_bucket(f: &Vec<(String, Json)>, key: &str) -> (r: Result<Option<Bucket>, String>)
    ensures
        json::gives(r, bucket_field(json::members(f@), key@)),
{
    match json::find_field(f, key) {
        None => Ok(None),
        Some(j) => match Bucket::from_json(j) {
            Ok(b) => Ok(Some(b)),
            Err(e) => Err(e),
        },
    }
}

fn find_number(f: &Vec<(String, Json)>, key: &str) -> (r: Result<Option<u64>, String>)
    ensures
        json::gives(r, number_field(json::members(f@), key@)),
{
    match json::find_field(f, key) {
        None => Ok(None),
        Some(j) => match json::u64_of(j) {
            Ok(n) => Ok(Some(n)),
            Err(e) => Err(e),
        },
    }
}

fn find_time(f: &Vec<(String, Json)>, key: &str) -> (r: Result<Option<u64>, String>)
    ensures
        json::gives(r, time_field(json::members(f@), key@)),
{
    match json::find_field(f, key) {
        None => Ok(None),
        Some(j) => json::optional_u64_of(j),
    }
}

fn optional_tag_of(j: &Json) -> (r: Result<Option<Tag>, String>)
    ensures
        json::gives(r, optional_tag(j@)),
{
    match j {
        Json::Null => Ok(None),
        _ => match Tag::from_json(j) {
            Ok(tag) => Ok(Some(tag)),
            Err(e) => Err(e),
        },
    }
}

fn find_tag(f: &Vec<(String, Json)>, key: &str) -> (r: Result<Option<Tag>, String>)
    ensures
        json::gives(r, tag_field(json::members(f@), key@)),
{
    match json::find_field(f, key) {
        None => Ok(None),
        Some(j) => optional_tag_of(j),
    }
}

fn title_of(j: &Json) -> (r: Result<String, String>)
    ensures
        match r {
            Ok(s) => title_in(j@) == Ok::<Seq<char>, Seq<char>>(s@),
            Err(e) => title_in(j@) == Err::<Seq<char>, Seq<char>>(e@),
        },
{
    match json::text_in(j) {
        Ok(s) => Ok(queue::bounded_title(s.as_str())),
        Err(e) => Err(e),
    }
}

fn find_title(f: &Vec<(String, Json)>, key: &str) -> (r: Result<Option<String>, String>)
    ensures
        match r {
            Ok(Some(s)) => title_field(json::members(f@), key@) == Ok::<
                Option<Seq<char>>,
                Seq<char>,
            >(Some(s@)),
            Ok(None) => title_field(json::members(f@), key@) == Ok::<Option<Seq<char>>, Seq<char>>(
                None,
            ),
            Err(e) => title_field(json::members(f@), key@) == Err::<Option<Seq<char>>, Seq<char>>(
                e@,
            ),
        },
{
    match json::find_field(f, key) {
        None => Ok(None),
        Some(j) => match title_of(j) {
            Ok(s) => Ok(Some(s)),
            Err(e) => Err(e),
        },
    }
}

/// Whether what a decoder of tasks returns is the outcome that a contract gives.
pub open spec fn gives_task(r: Result<Task, String>, want: Result<TaskView, Seq<char>>) -> bool {
    match r {
        Ok(t) => want == Ok::<TaskView, Seq<char>>(t@),
        Err(e) => want == Err::<TaskView, Seq<char>>(e@),
    }
}

impl Task {
    fn from_members(f: &Vec<(String, Json)>) -> (r: Result<Task, String>)
        ensures
            gives_task(r, TaskView::of_members(json::members(f@))),
    {
        let bucket: Option<Bucket> = match find_bucket(f, "bucket") {
            Ok(v) => v,
            Err(e) => return Err(e),
        };
        let created_at: Option<u64> = match find_number(f, "created_at") {
            Ok(v) => v,
            Err(e) => return Err(e),
        };
        let id: Option<u64> = match find_number(f, "id") {
            Ok(v) => v,
            Err(e) => return Err(e),
        };
        let paused_at: Option<u64> = match find_time(f, "paused_at") {
            Ok(v) => v,
            Err(e) => return Err(e),
        };
        let started_at: Option<u64> = match find_time(f, "started_at") {
            Ok(v) => v,
            Err(e) => return Err(e),
        };
        let tag: Option<Tag> = match find_tag(f, "tag") {
            Ok(v) => v,
            Err(e) => return Err(e),
        };
        let title: Option<String> = match find_title(f, "title") {
            Ok(v) => v,
            Err(e) => return Err(e),
        };
        match id {
            None => Err(json::say_missing("id")),
            Some(id) => match title {
                None => Err(json::say_missing("title")),
                Some(title) => match bucket {
                    None => Err(json::say_missing("bucket")),
                    Some(bucket) => match created_at {
                        None => Err(json::say_missing("created_at")),
                        Some(created_at) => Ok(
                            Task { id, title, bucket, tag, created_at, started_at, paused_at },
                        ),
                    },
                },
            },
        }
    }

    fn from_items(v: &Vec<Json>) -> (r: Result<Task, String>)
        ensures
            gives_task(r, TaskView::of_items(json::items(v@))),
    {
        if v.len() < 1 {
            return Err(json::say_wrong_length(0, "struct Task with 7 elements"));
        }
        let id: u64 = match json::u64_of(&v[0]) {
            Ok(v) => v,
            Err(e) => return Err(e),
        };
        if v.len() < 2 {
            return Err(json::say_wrong_length(1, "struct Task with 7 elements"));
        }
        let title: String = match title_of(&v[1]) {
            Ok(v) => v,
            Err(e) => return Err(e),
        };
        if v.len() < 3 {
            return Err(json::say_wrong_length(2, "struct Task with 7 elements"));
        }
        let bucket: Bucket = match Bucket::from_json(&v[2]) {
            Ok(v) => v,
            Err(e) => return Err(e),
        };
        Task::from_last_items(v, id, title, bucket)
    }

    fn from_last_items(v: &Vec<Json>, id: u64, title: String, bucket: Bucket) -> (r: Result<
        Task,
        String,
    >)
        ensures
            gives_task(r, TaskView::of_last_items(json::items(v@), id, title@, bucket)),
    {
        let tag: Option<Tag> = if v.len() < 4 {
            None
        } else {
            match optional_tag_of(&v[3]) {
                Ok(v) => v,
                Err(e) => return Err(e),
            }
        };
        if v.len() < 5 {
            return Err(json::say_wrong_length(4, "struct Task with 7 elements"));
        }
        let created_at: u64 = match json::u64_of(&v[4]) {
            Ok(v) => v,
            Err(e) => return Err(e),
        };
        let started_at: Option<u64> = if v.len() < 6 {
            None
        } else {
            match json::optional_u64_of(&v[5]) {
                Ok(v) => v,
                Err(e) => return Err(e),
            }
        };
        let paused_at: Option<u64> = if v.len() < 7 {
            None
        } else {
            match json::optional_u64_of(&v[6]) {
                Ok(v) => v,
                Err(e) => return Err(e),
            }
        };
        if v.len() > 7 {
            return Err(json::say_wrong_length(v.len(), "fewer elements in array"));
        }
        Ok(Task { id, title, bucket, tag, created_at, started_at, paused_at })
    }

    /// The task that a JSON value gives.
    pub fn from_json(j: &Json) -> (r: Result<Task, String>)
        ensures
            gives_task(r, TaskView::read(j@)),
    {
        broadcast use json::lemma_parts;

        match j {
            Json::Object(f) => Task::from_members(f),
            Json::Array(v) => Task::from_items(v),
            _ => Err(json::say_wrong_type(j, "struct Task")),
        }
    }
}

fn tasks_from(j: &Json) -> (r: Result<Vec<Task>, String>)
    ensures
        match r {
            Ok(tasks) => tasks_in(j@) == Ok::<Seq<TaskView>, Seq<char>>(order::views(tasks@)),
            Err(e) => tasks_in(j@) == Err::<Seq<TaskView>, Seq<char>>(e@),
        },
{
    broadcast use json::lemma_parts;

    match j {
        Json::Array(v) => {
            let ghost all = json::items(v@);
            let mut tasks: Vec<Task> = Vec::new();
            let mut i: usize = 0;
            assert(order::views(tasks@) =~= Seq::empty());
            while i < v.len()
                invariant
                    i <= v@.len(),
                    all == json::items(v@),
                    j@ == JsonTree::Array(all),
                    tasks_of_items(all.take(i as int)) == Ok::<Seq<TaskView>, Seq<char>>(
                        order::views(tasks@),
                    ),
                decreases v@.len() - i,
            {
                let ghost next = all.take(i as int + 1);
                assert(next.drop_last() =~= all.take(i as int));
                assert(next.last() == all[i as int]);
                match Task::from_json(&v[i]) {
                    Ok(task) => {
                        let ghost before = order::views(tasks@);
                        tasks.push(task);
                        assert(order::views(tasks@) =~= before.push(task@));
                    },
                    Err(e) => {
                        proof {
                            lemma_first_error(all, i as int + 1);
                        }
                        return Err(e);
                    },
                }
                i = i + 1;
            }
            assert(all.take(i as int) =~= all);
            Ok(tasks)
        },
        _ => Err(json::say_wrong_type(j, "a sequence")),
    }
}

/// Once an item gives no task, the items behind it change nothing.
proof fn lemma_first_error(v: Seq<JsonTree>, n: int)
    requires
        0 <= n <= v.len(),
        tasks_of_items(v.take(n)) is Err,
    ensures
        tasks_of_items(v) == tasks_of_items(v.take(n)),
    decreases v.len() - n,
{
    if n < v.len() {
        assert(v.take(n + 1).drop_last() =~= v.take(n));
        lemma_first_error(v, n + 1);
    } else {
        assert(v.take(n) =~= v);
    }
}

impl Store {
    /// The store that the members of an object give.
    pub fn from_members(f: &Vec<(String, Json)>) -> (r: Result<Store, String>)
        ensures
            match r {
                Ok(s) => StoreView::of_members(json::members(f@)) == Ok::<StoreView, Seq<char>>(s@),
                Err(e) => StoreView::of_members(json::members(f@)) == Err::<StoreView, Seq<char>>(
                    e@,
                ),
            },
    {
        let next_id: Option<u64> = match find_number(f, "next_id") {
            Ok(v) => v,
            Err(e) => return Err(e),
        };
        let tasks: Vec<Task> = match json::find_field(f, "tasks") {
            None => Vec::new(),
            Some(j) => match tasks_from(j) {
                Ok(v) => v,
                Err(e) => return Err(e),
            },
        };
        let next_id: u64 = match next_id {
            Some(n) => n,
            None => 1,
        };
        let s = Store { next_id, tasks };
        assert(json::field(json::members(f@), "tasks"@) is None ==> s@.tasks =~= Seq::empty());
        Ok(s)
    }
}

// ---- loading -------------------------------------------------------------------------

fn file_members(path: &str, read: Result<Json, String>) -> (r: Result<
    Vec<(String, Json)>,
    String,
>)
    ensures
        ({
            let want = members_of_file(
                path@,
                match read {
                    Ok(j) => Ok(j@),
                    Err(e) => Err(e@),
                },
            );
            match r {
                Ok(f) => want == Ok::<Seq<(Seq<char>, JsonTree)>, Seq<char>>(json::members(f@)),
                Err(e) => want == Err::<Seq<(Seq<char>, JsonTree)>, Seq<char>>(e@),
            }
        }),
{
    broadcast use json::lemma_parts;

    match read {
        Err(e) => Err(e),
        Ok(Json::Object(f)) => Ok(f),
        Ok(_) => Err(text::behind_text(path, " does not hold a JSON object")),
    }
}

/// What was read of a file, as the contracts speak of it.
pub open spec fn read_of(contents: Option<Result<Json, String>>) -> Option<
    Result<JsonTree, Seq<char>>,
> {
    match contents {
        None => None,
        Some(Ok(j)) => Some(Ok(j@)),
        Some(Err(e)) => Some(Err(e@)),
    }
}

/// What bytes read as, if there are any.
pub open spec fn bytes_read(contents: Option<&[u8]>) -> Option<Result<JsonTree, Seq<char>>> {
    match contents {
        None => None,
        Some(bytes) => Some(json::parsed_bytes(bytes@)),
    }
}

fn parse_contents(contents: Option<&[u8]>) -> (read: Option<Result<Json, String>>)
    ensures
        read_of(read) == bytes_read(contents),
{
    match contents {
        None => None,
        Some(bytes) => Some(json::parse_bytes(bytes)),
    }
}

/// The store that was read of a file.
pub fn load_parsed(path: &str, contents: Option<Result<Json, String>>) -> (r: Result<
    Store,
    Failure,
>)
    ensures
        match r {
            Ok(s) => loaded(path@, read_of(contents)) == Ok::<StoreView, Seq<char>>(s@),
            Err(f) => loaded(path@, read_of(contents)) == Err::<StoreView, Seq<char>>(f@.message)
                && f@.kind == FailureKind::InvalidData,
        },
{
    match contents {
        None => Ok(Store::new()),
        Some(read) => match file_members(path, read) {
            Err(e) => Err(bad_data(e)),
            Ok(f) => match Store::from_members(&f) {
                Ok(s) => Ok(s),
                Err(e) => Err(bad_data(e)),
            },
        },
    }
}

/// Load the task store from the contents of its file.
///
/// An absent file is an empty queue, not an error.
pub fn load(path: &str, contents: Option<&[u8]>) -> (r: Result<Store, Failure>)
    ensures
        match r {
            Ok(s) => loaded(path@, bytes_read(contents)) == Ok::<StoreView, Seq<char>>(s@),
            Err(f) => loaded(path@, bytes_read(contents)) == Err::<StoreView, Seq<char>>(f@.message)
                && f@.kind == FailureKind::InvalidData,
        },
{
    load_parsed(path, parse_contents(contents))
}

/// The settings that were read of a file.
pub fn load_settings_parsed(path: &str, contents: Option<Result<Json, String>>) -> (r: Result<
    Settings,
    Failure,
>)
    ensures
        match r {
            Ok(s) => loaded_settings(path@, read_of(contents)) == Ok::<Settings, Seq<char>>(s),
            Err(f) => loaded_settings(path@, read_of(contents)) == Err::<Settings, Seq<char>>(
                f@.message,
            ) && f@.kind == FailureKind::InvalidData,
        },
{
    let base = Settings::default();
    match contents {
        None => {
            let mut s = base;
            s.sanitize();
            Ok(s)
        },
        Some(read) => match file_members(path, read) {
            Err(e) => Err(bad_data(e)),
            Ok(f) => match Settings::from_members(&f, &base) {
                Ok(s) => {
                    let mut s = s;
                    s.sanitize();
                    Ok(s)
                },
                Err(e) => Err(bad_data(e.words)),
            },
        },
    }
}

/// Load the settings from the contents of their file. An absent file means the
/// defaults; a malformed one is an error, so a caller can say so rather than
/// quietly resetting the file.
pub fn load_settings(path: &str, contents: Option<&[u8]>) -> (r: Result<Settings, Failure>)
    ensures
        match r {
            Ok(s) => loaded_settings(path@, bytes_read(contents)) == Ok::<Settings, Seq<char>>(s),
            Err(f) => loaded_settings(path@, bytes_read(contents)) == Err::<Settings, Seq<char>>(
                f@.message,
            ) && f@.kind == FailureKind::InvalidData,
        },
{
    load_settings_parsed(path, parse_contents(contents))
}

// ---- saving --------------------------------------------------------------------------

/// A member that is left out where there is nothing to say.
pub open spec fn number_member(key: Seq<char>, n: Option<u64>) -> Seq<(Seq<char>, JsonTree)> {
    match n {
        None => seq![],
        Some(n) => seq![(key, JsonTree::Unsigned(n))],
    }
}

pub open spec fn tag_member(tag: Option<Tag>) -> Seq<(Seq<char>, JsonTree)> {
    match tag {
        None => seq![],
        Some(tag) => seq![("tag"@, JsonTree::Text(tag.name()))],
    }
}

impl TaskView {
    /// The first members of the object that a file holds of a task.
    pub open spec fn first_members(self) -> Seq<(Seq<char>, JsonTree)> {
        seq![
            ("id"@, JsonTree::Unsigned(self.id)),
            ("title"@, JsonTree::Text(self.title)),
            ("bucket"@, JsonTree::Text(self.bucket.name())),
        ]
    }

    /// The members of the object that a file holds of a task.
    pub open spec fn members(self) -> Seq<(Seq<char>, JsonTree)> {
        self.first_members() + tag_member(self.tag) + seq![
            ("created_at"@, JsonTree::Unsigned(self.created_at)),
        ] + number_member("started_at"@, self.started_at) + number_member(
            "paused_at"@,
            self.paused_at,
        )
    }
}

/// The items of the array that a file holds of some tasks.
pub open spec fn task_items(tasks: Seq<TaskView>) -> Seq<JsonTree> {
    Seq::new(tasks.len(), |i: int| JsonTree::Object(tasks[i].members()))
}

impl StoreView {
    /// The members of the object that a file holds of a store.
    pub open spec fn members(self) -> Seq<(Seq<char>, JsonTree)> {
        seq![
            ("next_id"@, JsonTree::Unsigned(self.next_id)),
            ("tasks"@, JsonTree::Array(task_items(self.tasks))),
        ]
    }

    /// Every title reads back from the file as it is.
    pub open spec fn titles_kept(self) -> bool {
        forall|i: int|
            0 <= i < self.tasks.len() ==> crate::laws::survives((#[trigger] self.tasks[i]).title)
    }
}

/// The place of a field among those of a task.
spec fn key_rank(key: Seq<char>) -> int {
    if key == "id"@ {
        0
    } else if key == "title"@ {
        1
    } else if key == "bucket"@ {
        2
    } else if key == "tag"@ {
        3
    } else if key == "created_at"@ {
        4
    } else if key == "started_at"@ {
        5
    } else if key == "paused_at"@ {
        6
    } else {
        7
    }
}

proof fn lemma_key_ranks()
    ensures
        key_rank("id"@) == 0,
        key_rank("title"@) == 1,
        key_rank("bucket"@) == 2,
        key_rank("tag"@) == 3,
        key_rank("created_at"@) == 4,
        key_rank("started_at"@) == 5,
        key_rank("paused_at"@) == 6,
{
    reveal_strlit("id");
    reveal_strlit("title");
    reveal_strlit("bucket");
    reveal_strlit("tag");
    reveal_strlit("created_at");
    reveal_strlit("started_at");
    reveal_strlit("paused_at");
    assert("created_at"@[0] != "started_at"@[0]);
    assert("id"@.len() == 2);
    assert("title"@.len() == 5);
    assert("bucket"@.len() == 6);
    assert("tag"@.len() == 3);
    assert("created_at"@.len() == 10);
    assert("started_at"@.len() == 10);
    assert("paused_at"@.len() == 9);
}

/// The members stand in the order of the fields, from one of them up to another.
spec fn in_order(f: Seq<(Seq<char>, JsonTree)>, from: int, to: int) -> bool {
    &&& forall|i: int| 0 <= i < f.len() ==> from <= key_rank((#[trigger] f[i]).0) < to
    &&& forall|i: int, j: int|
        0 <= i < j < f.len() ==> key_rank((#[trigger] f[i]).0) < key_rank((#[trigger] f[j]).0)
}

proof fn lemma_in_order_add(
    a: Seq<(Seq<char>, JsonTree)>,
    b: Seq<(Seq<char>, JsonTree)>,
    from: int,
    mid: int,
    to: int,
)
    requires
        in_order(a, from, mid),
        in_order(b, mid, to),
        from <= mid <= to,
    ensures
        in_order(a + b, from, to),
{
    let c = a + b;
    assert forall|i: int| 0 <= i < c.len() implies from <= key_rank((#[trigger] c[i]).0) < to by {
        if i < a.len() {
            assert(c[i] == a[i]);
        } else {
            assert(c[i] == b[i - a.len()]);
        }
    }
    assert forall|i: int, j: int| 0 <= i < j < c.len() implies key_rank((#[trigger] c[i]).0)
        < key_rank((#[trigger] c[j]).0) by {
        if j < a.len() {
            assert(c[i] == a[i] && c[j] == a[j]);
        } else if i < a.len() {
            assert(c[i] == a[i] && c[j] == b[j - a.len()]);
        } else {
            assert(c[i] == b[i - a.len()] && c[j] == b[j - a.len()]);
        }
    }
}

/// The members of a task come in the order of its fields, so no key comes twice.
proof fn lemma_task_keys(t: TaskView)
    ensures
        in_order(t.members(), 0, 7),
        json::keys_differ(t.members()),
{
    lemma_key_ranks();
    let a = t.first_members();
    assert(in_order(a, 0, 3));
    let b = a + tag_member(t.tag);
    lemma_in_order_add(a, tag_member(t.tag), 0, 3, 4);
    let created = seq![("created_at"@, JsonTree::Unsigned(t.created_at))];
    let c = b + created;
    lemma_in_order_add(b, created, 0, 4, 5);
    let started = number_member("started_at"@, t.started_at);
    let d = c + started;
    lemma_in_order_add(c, started, 0, 5, 6);
    let paused = number_member("paused_at"@, t.paused_at);
    lemma_in_order_add(d, paused, 0, 6, 7);
    assert(t.members() == d + paused);
}

/// Looking behind members that do not have the key.
proof fn lemma_field_add(
    a: Seq<(Seq<char>, JsonTree)>,
    b: Seq<(Seq<char>, JsonTree)>,
    key: Seq<char>,
)
    ensures
        json::field(a + b, key) == (match json::field(a, key) {
            Some(t) => Some(t),
            None => json::field(b, key),
        }),
    decreases a.len(),
{
    if a.len() == 0 {
        assert(a + b =~= b);
    } else {
        assert((a + b)[0] == a[0]);
        assert((a + b).drop_first() =~= a.drop_first() + b);
        lemma_field_add(a.drop_first(), b, key);
    }
}

/// What a field of a task's members is: what its own part says of it.
proof fn lemma_task_field(t: TaskView, key: Seq<char>)
    ensures
        json::field(t.members(), key) == (if key == "id"@ {
            Some(JsonTree::Unsigned(t.id))
        } else if key == "title"@ {
            Some(JsonTree::Text(t.title))
        } else if key == "bucket"@ {
            Some(JsonTree::Text(t.bucket.name()))
        } else if key == "tag"@ {
            match t.tag {
                Some(tag) => Some(JsonTree::Text(tag.name())),
                None => None,
            }
        } else if key == "created_at"@ {
            Some(JsonTree::Unsigned(t.created_at))
        } else if key == "started_at"@ {
            match t.started_at {
                Some(n) => Some(JsonTree::Unsigned(n)),
                None => None,
            }
        } else if key == "paused_at"@ {
            match t.paused_at {
                Some(n) => Some(JsonTree::Unsigned(n)),
                None => None,
            }
        } else {
            None
        }),
{
    lemma_key_ranks();
    reveal_with_fuel(json::field, 4);
    let a = t.first_members();
    let created = seq![("created_at"@, JsonTree::Unsigned(t.created_at))];
    let started = number_member("started_at"@, t.started_at);
    let paused = number_member("paused_at"@, t.paused_at);
    assert(a.drop_first() =~= seq![a[1], a[2]]);
    assert(a.drop_first().drop_first() =~= seq![a[2]]);
    assert(a.drop_first().drop_first().drop_first() =~= seq![]);
    lemma_field_add(a, tag_member(t.tag), key);
    lemma_field_add(a + tag_member(t.tag), created, key);
    lemma_field_add(a + tag_member(t.tag) + created, started, key);
    lemma_field_add(a + tag_member(t.tag) + created + started, paused, key);
    assert(created.drop_first() =~= seq![]);
    assert(tag_member(t.tag).len() > 0 ==> tag_member(t.tag).drop_first() =~= seq![]);
    assert(started.len() > 0 ==> started.drop_first() =~= seq![]);
    assert(paused.len() > 0 ==> paused.drop_first() =~= seq![]);
}

/// A task that was written reads back as it was, where its title survives.
pub proof fn law_a_task_reads_back(t: TaskView)
    requires
        crate::laws::survives(t.title),
    ensures
        TaskView::read(JsonTree::Object(t.members())) == Ok::<TaskView, Seq<char>>(t),
{
    lemma_task_field(t, "id"@);
    lemma_task_field(t, "title"@);
    lemma_task_field(t, "bucket"@);
    lemma_task_field(t, "tag"@);
    lemma_task_field(t, "created_at"@);
    lemma_task_field(t, "started_at"@);
    lemma_task_field(t, "paused_at"@);
    lemma_key_ranks();
    settings::law_names_read_back(
        settings::Intensity::Normal,
        settings::FlashColor::Tag,
        settings::Theme::System,
        settings::FlashStyle::Wash,
        t.bucket,
        match t.tag {
            Some(tag) => tag,
            None => Tag::Work,
        },
    );
}

proof fn lemma_tasks_read_back(tasks: Seq<TaskView>)
    requires
        forall|i: int|
            0 <= i < tasks.len() ==> crate::laws::survives((#[trigger] tasks[i]).title),
    ensures
        tasks_of_items(task_items(tasks)) == Ok::<Seq<TaskView>, Seq<char>>(tasks),
    decreases tasks.len(),
{
    if tasks.len() > 0 {
        let front = tasks.drop_last();
        assert(task_items(tasks).drop_last() =~= task_items(front));
        lemma_tasks_read_back(front);
        law_a_task_reads_back(tasks.last());
        assert(front.push(tasks.last()) =~= tasks);
    } else {
        assert(tasks =~= seq![]);
    }
}

/// A store that was written reads back as it was, where its titles survive.
pub proof fn law_a_store_reads_back(s: StoreView)
    requires
        s.titles_kept(),
    ensures
        StoreView::of_members(s.members()) == Ok::<StoreView, Seq<char>>(s),
{
    reveal_strlit("next_id");
    reveal_strlit("tasks");
    assert("next_id"@.len() != "tasks"@.len());
    let f = s.members();
    json::lemma_field_at(f, 0);
    json::lemma_field_at(f, 1);
    lemma_tasks_read_back(s.tasks);
}

/// Settings that were saved load as they were, where their interval is in range.
pub proof fn law_saved_settings_load(path: Seq<char>, s: Settings)
    requires
        s.quiet_from.since_midnight() < 1440,
        s.quiet_to.since_midnight() < 1440,
        s.sane() == s,
    ensures
        loaded_settings(path, Some(Ok(JsonTree::Object(s.members())))) == Ok::<Settings, Seq<char>>(
            s,
        ),
{
    settings::law_settings_read_back(s, Settings::usual());
}

proof fn lemma_task_keeps(t: TaskView, depth: nat)
    requires
        depth > 0,
    ensures
        json::keeps(JsonTree::Object(t.members()), depth),
{
    lemma_task_keys(t);
    let f = t.members();
    assert forall|i: int| 0 <= i < f.len() implies json::keeps(
        (#[trigger] f[i]).1,
        (depth - 1) as nat,
    ) by {
        assert(f[i].1 is Unsigned || f[i].1 is Text);
    }
    json::lemma_object_keeps(f, depth);
}

proof fn lemma_store_keeps(s: StoreView)
    ensures
        json::keeps(JsonTree::Object(s.members()), json::MAX_DEPTH as nat),
{
    reveal_strlit("next_id");
    reveal_strlit("tasks");
    assert("next_id"@.len() != "tasks"@.len());
    let f = s.members();
    let v = task_items(s.tasks);
    let depth = (json::MAX_DEPTH - 1) as nat;
    assert forall|i: int| 0 <= i < v.len() implies json::keeps(
        #[trigger] v[i],
        (depth - 1) as nat,
    ) by {
        lemma_task_keeps(s.tasks[i], (depth - 1) as nat);
    }
    json::lemma_array_keeps(v, depth);
    assert(json::keeps(JsonTree::Unsigned(s.next_id), depth));
    assert forall|i: int| 0 <= i < f.len() implies json::keeps((#[trigger] f[i]).1, depth) by {}
    json::lemma_object_keeps(f, json::MAX_DEPTH as nat);
}

fn push_number(f: &mut Vec<(String, Json)>, key: &str, n: Option<u64>)
    ensures
        json::members(final(f)@) == json::members(old(f)@) + number_member(key@, n),
{
    let ghost before = json::members(f@);
    match n {
        None => {},
        Some(n) => f.push((key.to_string(), Json::Unsigned(n))),
    }
    assert(json::members(f@) =~= before + number_member(key@, n));
}

impl Task {
    /// The object that a file holds of a task.
    pub fn as_json(&self) -> (j: Json)
        ensures
            j@ == JsonTree::Object(self@.members()),
    {
        broadcast use json::lemma_parts;

        let mut f: Vec<(String, Json)> = Vec::new();
        f.push(("id".to_string(), Json::Unsigned(self.id)));
        f.push(("title".to_string(), Json::Text(self.title.clone())));
        f.push(("bucket".to_string(), Json::Text(self.bucket.as_str().to_string())));
        assert(json::members(f@) =~= self@.first_members());
        match self.tag {
            None => {},
            Some(tag) => f.push(("tag".to_string(), Json::Text(tag.as_str().to_string()))),
        }
        assert(json::members(f@) =~= self@.first_members() + tag_member(self.tag));
        push_number(&mut f, "created_at", Some(self.created_at));
        push_number(&mut f, "started_at", self.started_at);
        push_number(&mut f, "paused_at", self.paused_at);
        Json::Object(f)
    }
}

impl Store {
    /// The object that a file holds of a store.
    pub fn as_json(&self) -> (j: Json)
        ensures
            j@ == JsonTree::Object(self@.members()),
            json::keeps(j@, json::MAX_DEPTH as nat),
    {
        broadcast use json::lemma_parts;

        let mut v: Vec<Json> = Vec::new();
        let mut i: usize = 0;
        assert(json::items(v@) =~= task_items(self@.tasks.take(0)));
        while i < self.tasks.len()
            invariant
                i <= self.tasks@.len(),
                json::items(v@) == task_items(self@.tasks.take(i as int)),
            decreases self.tasks@.len() - i,
        {
            let ghost before = json::items(v@);
            let j = self.tasks[i].as_json();
            v.push(j);
            assert(json::items(v@) =~= before.push(j@));
            assert(json::items(v@) =~= task_items(self@.tasks.take(i as int + 1)));
            i = i + 1;
        }
        assert(self@.tasks.take(i as int) =~= self@.tasks);
        let mut f: Vec<(String, Json)> = Vec::new();
        f.push(("next_id".to_string(), Json::Unsigned(self.next_id)));
        f.push(("tasks".to_string(), Json::Array(v)));
        assert(json::members(f@) =~= self@.members());
        proof {
            lemma_store_keeps(self@);
        }
        Json::Object(f)
    }
}

/// The bytes of the task file for a store. Loading them gives the store back,
/// where its titles survive.
pub fn save(store: &Store) -> (bytes: Vec<u8>)
    ensures
        bytes@ == json::pretty(JsonTree::Object(store@.members())),
        json::parsed_bytes(bytes@) == Ok::<JsonTree, Seq<char>>(JsonTree::Object(store@.members())),
        store@.titles_kept() ==> forall|path: Seq<char>| #[trigger]
            loaded(path, Some(json::parsed_bytes(bytes@))) == Ok::<StoreView, Seq<char>>(store@),
{
    proof {
        if store@.titles_kept() {
            law_a_store_reads_back(store@);
        }
    }
    json::print_pretty(store.as_json())
}

/// The bytes of the settings file. Loading them gives the settings back, where
/// their interval is in range.
pub fn save_settings(settings: &Settings) -> (bytes: Vec<u8>)
    ensures
        bytes@ == json::pretty(JsonTree::Object(settings.members())),
        json::parsed_bytes(bytes@) == Ok::<JsonTree, Seq<char>>(
            JsonTree::Object(settings.members()),
        ),
        settings.sane() == *settings ==> forall|path: Seq<char>| #[trigger]
            loaded_settings(path, Some(json::parsed_bytes(bytes@))) == Ok::<Settings, Seq<char>>(
                *settings,
            ),
{
    let bytes = json::print_pretty(settings.as_json());
    assert forall|path: Seq<char>| settings.sane() == *settings implies #[trigger] loaded_settings(
        path,
        Some(json::parsed_bytes(bytes@)),
    ) == Ok::<Settings, Seq<char>>(*settings) by {
        law_saved_settings_load(path, *settings);
    }
    bytes
}

// ---- laws of the files ---------------------------------------------------------------

proof fn lemma_read_title(t: JsonTree)
    ensures
        TaskView::read(t) matches Ok(task) ==> task.title.len() <= crate::model::MAX_TITLE_CHARS,
{
}

proof fn lemma_read_titles(v: Seq<JsonTree>)
    ensures
        tasks_of_items(v) matches Ok(tasks) ==> crate::laws::titles_bounded(tasks),
    decreases v.len(),
{
    if v.len() > 0 {
        lemma_read_titles(v.drop_last());
        lemma_read_title(v.last());
    }
}

/// The titles of a store that was loaded are within the limit, whatever the file
/// held.
pub proof fn law_loaded_titles_are_bounded(
    path: Seq<char>,
    contents: Option<Result<JsonTree, Seq<char>>>,
)
    ensures
        loaded(path, contents) matches Ok(s) ==> crate::laws::titles_bounded(s.tasks),
{
    match contents {
        Some(Ok(JsonTree::Object(f))) => match json::field(f, "tasks"@) {
            Some(JsonTree::Array(v)) => lemma_read_titles(v),
            _ => {},
        },
        _ => {},
    }
}

/// Loaded settings have their interval in range, whatever the file held.
pub proof fn law_loaded_settings_are_in_range(
    path: Seq<char>,
    contents: Option<Result<JsonTree, Seq<char>>>,
)
    ensures
        loaded_settings(path, contents) matches Ok(s) ==> s.sane() == s,
{
}

/// A file that holds no object is refused, and the complaint names the file.
pub proof fn law_a_file_must_hold_an_object(path: Seq<char>, t: JsonTree)
    requires
        !(t is Object),
    ensures
        loaded(path, Some(Ok(t))) == Err::<StoreView, Seq<char>>(
            path + " does not hold a JSON object"@,
        ),
        loaded_settings(path, Some(Ok(t))) == Err::<Settings, Seq<char>>(
            path + " does not hold a JSON object"@,
        ),
{
}

/// The title that a store keeps survives the file, unless it was cut and ends in a
/// blank where it was.
pub proof fn law_which_titles_survive(title: Seq<char>)
    ensures
        text::trim(title).len() <= crate::model::MAX_TITLE_CHARS ==> queue::bounded(title)
            == text::trim(title),
        crate::laws::survives(queue::bounded(title)) <==> text::trim(title).len()
            <= crate::model::MAX_TITLE_CHARS || !text::is_white(
            text::trim(title)[crate::model::MAX_TITLE_CHARS - 1],
        ),
{
    let t = text::trim(title);
    let kept = queue::bounded(title);
    text::lemma_trim_is_trimmed(title);
    text::lemma_trim_is_trimmed(kept);
    if t.len() > crate::model::MAX_TITLE_CHARS {
        assert(kept[0] == t[0]);
        assert(kept.last() == t[crate::model::MAX_TITLE_CHARS - 1]);
        if !text::is_white(kept.last()) {
            text::lemma_trim_fixed(kept);
        }
    }
}

// ---- what the files say --------------------------------------------------------------

/// Whether a time is what a value says: the number, and none for null or nothing.
pub open spec fn time_says(t: Option<JsonTree>, got: Option<u64>) -> bool {
    match got {
        Some(n) => t == Some(JsonTree::Unsigned(n)),
        None => t is None || t == Some(JsonTree::Null),
    }
}

/// Whether a tag is what a value says: the one it names, and none for null or nothing.
pub open spec fn tag_says(t: Option<JsonTree>, got: Option<Tag>) -> bool {
    match got {
        Some(tag) => t is Some && settings::gives_name(t->0, tag.name()),
        None => t is None || t == Some(JsonTree::Null),
    }
}

/// Whether a title is what a value says: its text, trimmed and cut.
pub open spec fn title_says(t: Option<JsonTree>, got: Seq<char>) -> bool {
    t is Some && t->0 is Text && crate::promises::is_kept(t->0->Text_0, got)
}

/// Whether a task is what an object says.
pub open spec fn members_say(f: Seq<(Seq<char>, JsonTree)>, t: TaskView) -> bool {
    &&& json::field(f, "id"@) == Some(JsonTree::Unsigned(t.id))
    &&& title_says(json::field(f, "title"@), t.title)
    &&& json::field(f, "bucket"@) is Some
    &&& settings::gives_name(json::field(f, "bucket"@)->0, t.bucket.name())
    &&& tag_says(json::field(f, "tag"@), t.tag)
    &&& json::field(f, "created_at"@) == Some(JsonTree::Unsigned(t.created_at))
    &&& time_says(json::field(f, "started_at"@), t.started_at)
    &&& time_says(json::field(f, "paused_at"@), t.paused_at)
}

/// The item at a place, if there is one.
pub open spec fn item(v: Seq<JsonTree>, i: int) -> Option<JsonTree> {
    if i < v.len() {
        Some(v[i])
    } else {
        None
    }
}

/// Whether a task is what an array says, one field behind the other.
pub open spec fn items_say(v: Seq<JsonTree>, t: TaskView) -> bool {
    &&& 5 <= v.len() <= 7
    &&& v[0] == JsonTree::Unsigned(t.id)
    &&& title_says(item(v, 1), t.title)
    &&& settings::gives_name(v[2], t.bucket.name())
    &&& tag_says(item(v, 3), t.tag)
    &&& v[4] == JsonTree::Unsigned(t.created_at)
    &&& time_says(item(v, 5), t.started_at)
    &&& time_says(item(v, 6), t.paused_at)
}

/// Whether a task is what a value says.
pub open spec fn task_says(j: JsonTree, t: TaskView) -> bool {
    match j {
        JsonTree::Object(f) => members_say(f, t),
        JsonTree::Array(v) => items_say(v, t),
        _ => false,
    }
}

/// Whether tasks are what a value says: an array of tasks, in order.
pub open spec fn tasks_say(j: JsonTree, tasks: Seq<TaskView>) -> bool {
    &&& j matches JsonTree::Array(v)
    &&& v.len() == tasks.len()
    &&& forall|i: int| 0 <= i < tasks.len() ==> task_says(v[i], #[trigger] tasks[i])
}

/// Whether a store is what an object says: with ids from one on where it says nothing of
/// them, and empty where it says nothing of tasks.
pub open spec fn store_says(f: Seq<(Seq<char>, JsonTree)>, s: StoreView) -> bool {
    &&& match json::field(f, "next_id"@) {
        Some(t) => t == JsonTree::Unsigned(s.next_id),
        None => s.next_id == 1,
    }
    &&& match json::field(f, "tasks"@) {
        Some(t) => tasks_say(t, s.tasks),
        None => s.tasks.len() == 0,
    }
}

/// Whether no task is what a value says.
pub open spec fn says_no_task(j: JsonTree) -> bool {
    forall|t: TaskView| !(#[trigger] task_says(j, t))
}

/// Whether no store is what an object says.
pub open spec fn says_no_store(f: Seq<(Seq<char>, JsonTree)>) -> bool {
    forall|s: StoreView| !(#[trigger] store_says(f, s))
}

proof fn lemma_title_says(t: JsonTree)
    ensures
        match title_in(t) {
            Ok(s) => title_says(Some(t), s),
            Err(_) => !(t is Text),
        },
{
    if t is Text {
        crate::promises::law_a_title_is_trimmed_and_cut(t->Text_0);
    }
}

proof fn lemma_task_says(j: JsonTree)
    ensures
        match TaskView::read(j) {
            Ok(t) => task_says(j, t),
            Err(_) => says_no_task(j),
        },
{
    match j {
        JsonTree::Object(f) => {
            if json::field(f, "title"@) is Some {
                lemma_title_says(json::field(f, "title"@)->0);
            }
            if json::field(f, "bucket"@) is Some {
                settings::law_a_choice_is_read_of_its_name(json::field(f, "bucket"@)->0);
            }
            if json::field(f, "tag"@) is Some {
                settings::law_a_choice_is_read_of_its_name(json::field(f, "tag"@)->0);
            }
        },
        JsonTree::Array(v) => {
            if v.len() > 1 {
                lemma_title_says(v[1]);
            }
            if v.len() > 2 {
                settings::law_a_choice_is_read_of_its_name(v[2]);
            }
            if v.len() > 3 {
                settings::law_a_choice_is_read_of_its_name(v[3]);
            }
        },
        _ => {},
    }
}

proof fn lemma_tasks_say(v: Seq<JsonTree>)
    ensures
        match tasks_of_items(v) {
            Ok(tasks) => tasks_say(JsonTree::Array(v), tasks),
            Err(_) => forall|tasks: Seq<TaskView>|
                !(#[trigger] tasks_say(JsonTree::Array(v), tasks)),
        },
    decreases v.len(),
{
    if v.len() > 0 {
        let front = v.drop_last();
        lemma_tasks_say(front);
        lemma_task_says(v.last());
        match tasks_of_items(v) {
            Ok(tasks) => {
                let before = tasks_of_items(front)->Ok_0;
                assert forall|i: int| 0 <= i < tasks.len() implies task_says(
                    v[i],
                    #[trigger] tasks[i],
                ) by {
                    if i < front.len() {
                        assert(tasks[i] == before[i]);
                        assert(v[i] == front[i]);
                    }
                }
            },
            Err(_) => {
                assert forall|tasks: Seq<TaskView>| !(#[trigger] tasks_say(
                    JsonTree::Array(v),
                    tasks,
                )) by {
                    if tasks_say(JsonTree::Array(v), tasks) {
                        let before = tasks.drop_last();
                        assert forall|i: int| 0 <= i < before.len() implies task_says(
                            front[i],
                            #[trigger] before[i],
                        ) by {
                            assert(task_says(v[i], tasks[i]));
                        }
                        assert(tasks_say(JsonTree::Array(front), before));
                        assert(task_says(v.last(), tasks[tasks.len() - 1]));
                    }
                }
            },
        }
    }
}

pub(crate) proof fn lemma_store_says(f: Seq<(Seq<char>, JsonTree)>)
    ensures
        match StoreView::of_members(f) {
            Ok(s) => store_says(f, s),
            Err(_) => says_no_store(f),
        },
{
    match json::field(f, "tasks"@) {
        Some(JsonTree::Array(v)) => lemma_tasks_say(v),
        _ => {},
    }
}

/// A task is read exactly of a value that says what every field of it is.
pub proof fn law_a_task_is_what_a_value_says(j: Json)
    ensures
        forall|r: Result<Task, String>| #[trigger]
            call_ensures(Task::from_json, (&j,), r) ==> match r {
                Ok(t) => task_says(j@, t@),
                Err(_) => says_no_task(j@),
            },
{
    lemma_task_says(j@);
}

/// What is said of a task that cannot be read: which field is missing, where one is, and
/// else what is wrong with the value.
pub proof fn law_a_missing_field_is_named(j: Json, f: Seq<(Seq<char>, JsonTree)>, t: TaskView)
    requires
        j@ == JsonTree::Object(f),
        json::field(f, "id"@) is Some ==> json::field(f, "id"@) == Some(JsonTree::Unsigned(t.id)),
        json::field(f, "title"@) is Some ==> json::field(f, "title"@)->0 is Text,
        json::field(f, "bucket"@) is Some ==> settings::gives_name(
            json::field(f, "bucket"@)->0,
            t.bucket.name(),
        ),
        json::field(f, "created_at"@) is Some ==> json::field(f, "created_at"@) == Some(
            JsonTree::Unsigned(t.created_at),
        ),
        tag_says(json::field(f, "tag"@), t.tag),
        time_says(json::field(f, "started_at"@), t.started_at),
        time_says(json::field(f, "paused_at"@), t.paused_at),
    ensures
        forall|r: Result<Task, String>| #[trigger]
            call_ensures(Task::from_json, (&j,), r) ==> if json::field(f, "id"@) is None {
                r is Err && (r->Err_0)@ == "missing field `id`"@
            } else if json::field(f, "title"@) is None {
                r is Err && (r->Err_0)@ == "missing field `title`"@
            } else if json::field(f, "bucket"@) is None {
                r is Err && (r->Err_0)@ == "missing field `bucket`"@
            } else if json::field(f, "created_at"@) is None {
                r is Err && (r->Err_0)@ == "missing field `created_at`"@
            } else {
                r is Ok
            },
{
    reveal_strlit("missing field `");
    reveal_strlit("`");
    reveal_strlit("id");
    reveal_strlit("title");
    reveal_strlit("bucket");
    reveal_strlit("created_at");
    reveal_strlit("missing field `id`");
    reveal_strlit("missing field `title`");
    reveal_strlit("missing field `bucket`");
    reveal_strlit("missing field `created_at`");
    assert(json::missing("id"@) =~= "missing field `id`"@);
    assert(json::missing("title"@) =~= "missing field `title`"@);
    assert(json::missing("bucket"@) =~= "missing field `bucket`"@);
    assert(json::missing("created_at"@) =~= "missing field `created_at`"@);
    if json::field(f, "bucket"@) is Some {
        settings::law_a_choice_is_read_of_its_name(json::field(f, "bucket"@)->0);
    }
    if json::field(f, "tag"@) is Some {
        settings::law_a_choice_is_read_of_its_name(json::field(f, "tag"@)->0);
    }
}

/// A store is read exactly of an object that says what is in it.
pub proof fn law_a_store_is_what_an_object_says(f: Vec<(String, Json)>)
    ensures
        forall|r: Result<Store, String>| #[trigger]
            call_ensures(Store::from_members, (&f,), r) ==> match r {
                Ok(s) => store_says(json::members(f@), s@),
                Err(_) => says_no_store(json::members(f@)),
            },
{
    lemma_store_says(json::members(f@));
}

/// Whether loading a store came out as what was read says: empty, with ids from one on,
/// where there is no file; what the object in it says; and else a failure of bad data,
/// which tells what is wrong.
pub open spec fn is_loaded(
    path: Seq<char>,
    read: Option<Result<JsonTree, Seq<char>>>,
    r: Result<Store, Failure>,
) -> bool {
    &&& r matches Err(f) ==> f.kind == FailureKind::InvalidData
    &&& match read {
        None => r is Ok && (r->Ok_0).tasks@.len() == 0 && (r->Ok_0).next_id == 1,
        Some(Err(e)) => r is Err && (r->Err_0).message@ == e,
        Some(Ok(JsonTree::Object(f))) => match r {
            Ok(s) => store_says(f, s@),
            Err(_) => says_no_store(f),
        },
        Some(Ok(_)) => r is Err && (r->Err_0).message@ == path + " does not hold a JSON object"@,
    }
}

/// Whether loading the settings came out as what was read says: the usual ones where there
/// is no file; those with what the object in it says, the interval pulled into range; and
/// else a failure of bad data, which tells what is wrong.
pub open spec fn is_loaded_settings(
    path: Seq<char>,
    read: Option<Result<JsonTree, Seq<char>>>,
    r: Result<Settings, Failure>,
) -> bool {
    &&& r matches Err(f) ==> f.kind == FailureKind::InvalidData
    &&& match read {
        None => r is Ok && settings::is_usual(r->Ok_0),
        Some(Err(e)) => r is Err && (r->Err_0).message@ == e,
        Some(Ok(JsonTree::Object(f))) => match r {
            Ok(s) => exists|base: Settings, said: Settings| #[trigger]
                settings::says_all(f, base, said) && settings::is_usual(base)
                    && settings::is_in_range(said, s),
            Err(_) => exists|key: Seq<char>|
                (#[trigger] json::field(f, key)) is Some && settings::cannot_be(
                    key,
                    json::field(f, key)->0,
                ),
        },
        Some(Ok(_)) => r is Err && (r->Err_0).message@ == path + " does not hold a JSON object"@,
    }
}

proof fn lemma_is_loaded(
    path: Seq<char>,
    read: Option<Result<JsonTree, Seq<char>>>,
    r: Result<Store, Failure>,
)
    requires
        match r {
            Ok(s) => loaded(path, read) == Ok::<StoreView, Seq<char>>(s@),
            Err(f) => loaded(path, read) == Err::<StoreView, Seq<char>>(f@.message) && f@.kind
                == FailureKind::InvalidData,
        },
    ensures
        is_loaded(path, read, r),
{
    match read {
        Some(Ok(JsonTree::Object(f))) => lemma_store_says(f),
        None => {
            assert(r->Ok_0@.tasks.len() == (r->Ok_0).tasks@.len());
        },
        _ => {},
    }
}

proof fn lemma_is_loaded_settings(
    path: Seq<char>,
    read: Option<Result<JsonTree, Seq<char>>>,
    r: Result<Settings, Failure>,
)
    requires
        match r {
            Ok(s) => loaded_settings(path, read) == Ok::<Settings, Seq<char>>(s),
            Err(f) => loaded_settings(path, read) == Err::<Settings, Seq<char>>(f@.message)
                && f@.kind == FailureKind::InvalidData,
        },
    ensures
        is_loaded_settings(path, read, r),
{
    settings::law_what_is_usual();
    match read {
        Some(Ok(JsonTree::Object(f))) => {
            settings::lemma_says_all(f, Settings::usual());
            match Settings::read(f, Settings::usual()) {
                Ok(said) => {
                    assert(settings::says_all(f, Settings::usual(), said));
                },
                Err(e) => {
                    assert(json::field(f, e.key) is Some);
                },
            }
        },
        _ => {},
    }
}

/// Loading gives what the file says.
pub proof fn law_loading_gives_what_the_file_says(
    path: &str,
    contents: Option<&[u8]>,
    read: Option<Result<Json, String>>,
)
    ensures
        forall|r: Result<Store, Failure>| #[trigger]
            call_ensures(load, (path, contents), r) ==> is_loaded(
                path@,
                match contents {
                    Some(bytes) => Some(json::parsed_bytes(bytes@)),
                    None => None,
                },
                r,
            ),
        forall|r: Result<Store, Failure>| #[trigger]
            call_ensures(load_parsed, (path, read), r) ==> is_loaded(
                path@,
                match read {
                    Some(Ok(j)) => Some(Ok(j@)),
                    Some(Err(e)) => Some(Err(e@)),
                    None => None,
                },
                r,
            ),
        forall|r: Result<Settings, Failure>| #[trigger]
            call_ensures(load_settings, (path, contents), r) ==> is_loaded_settings(
                path@,
                match contents {
                    Some(bytes) => Some(json::parsed_bytes(bytes@)),
                    None => None,
                },
                r,
            ),
        forall|r: Result<Settings, Failure>| #[trigger]
            call_ensures(load_settings_parsed, (path, read), r) ==> is_loaded_settings(
                path@,
                match read {
                    Some(Ok(j)) => Some(Ok(j@)),
                    Some(Err(e)) => Some(Err(e@)),
                    None => None,
                },
                r,
            ),
{
    assert forall|r: Result<Store, Failure>| #[trigger]
        call_ensures(load, (path, contents), r) implies is_loaded(
        path@,
        bytes_read(contents),
        r,
    ) by {
        lemma_is_loaded(path@, bytes_read(contents), r);
    }
    assert forall|r: Result<Store, Failure>| #[trigger]
        call_ensures(load_parsed, (path, read), r) implies is_loaded(path@, read_of(read), r) by {
        lemma_is_loaded(path@, read_of(read), r);
    }
    assert forall|r: Result<Settings, Failure>| #[trigger]
        call_ensures(load_settings, (path, contents), r) implies is_loaded_settings(
        path@,
        bytes_read(contents),
        r,
    ) by {
        lemma_is_loaded_settings(path@, bytes_read(contents), r);
    }
    assert forall|r: Result<Settings, Failure>| #[trigger]
        call_ensures(load_settings_parsed, (path, read), r) implies is_loaded_settings(
        path@,
        read_of(read),
        r,
    ) by {
        lemma_is_loaded_settings(path@, read_of(read), r);
    }
}

/// Whether an object is what is written of a task: its fields under their names, those
/// that it does not have left out.
pub open spec fn writes_task(j: JsonTree, t: TaskView) -> bool {
    &&& j matches JsonTree::Object(f)
    &&& json::field(f, "id"@) == Some(JsonTree::Unsigned(t.id))
    &&& json::field(f, "title"@) == Some(JsonTree::Text(t.title))
    &&& json::field(f, "bucket"@) == Some(JsonTree::Text(t.bucket.name()))
    &&& match t.tag {
        Some(tag) => json::field(f, "tag"@) == Some(JsonTree::Text(tag.name())),
        None => json::field(f, "tag"@) is None,
    }
    &&& json::field(f, "created_at"@) == Some(JsonTree::Unsigned(t.created_at))
    &&& match t.started_at {
        Some(n) => json::field(f, "started_at"@) == Some(JsonTree::Unsigned(n)),
        None => json::field(f, "started_at"@) is None,
    }
    &&& match t.paused_at {
        Some(n) => json::field(f, "paused_at"@) == Some(JsonTree::Unsigned(n)),
        None => json::field(f, "paused_at"@) is None,
    }
    &&& f.len() == 4 + (if t.tag is Some {
        1int
    } else {
        0
    }) + (if t.started_at is Some {
        1int
    } else {
        0
    }) + (if t.paused_at is Some {
        1int
    } else {
        0
    })
}

/// Whether an object is what is written of a store: the next id, and the tasks in order.
pub open spec fn writes_store(j: JsonTree, s: StoreView) -> bool {
    &&& j matches JsonTree::Object(f)
    &&& f.len() == 2
    &&& json::field(f, "next_id"@) == Some(JsonTree::Unsigned(s.next_id))
    &&& json::field(f, "tasks"@) matches Some(JsonTree::Array(v))
    &&& v.len() == s.tasks.len()
    &&& forall|i: int| 0 <= i < v.len() ==> writes_task(#[trigger] v[i], s.tasks[i])
}

proof fn lemma_writes_task(t: TaskView)
    ensures
        writes_task(JsonTree::Object(t.members()), t),
{
    lemma_task_field(t, "id"@);
    lemma_task_field(t, "title"@);
    lemma_task_field(t, "bucket"@);
    lemma_task_field(t, "tag"@);
    lemma_task_field(t, "created_at"@);
    lemma_task_field(t, "started_at"@);
    lemma_task_field(t, "paused_at"@);
    lemma_key_ranks();
}

proof fn lemma_writes_store(s: StoreView)
    ensures
        writes_store(JsonTree::Object(s.members()), s),
{
    reveal_strlit("next_id");
    reveal_strlit("tasks");
    assert("next_id"@.len() != "tasks"@.len());
    let f = s.members();
    json::lemma_field_at(f, 0);
    json::lemma_field_at(f, 1);
    let v = task_items(s.tasks);
    assert forall|i: int| 0 <= i < v.len() implies writes_task(#[trigger] v[i], s.tasks[i]) by {
        lemma_writes_task(s.tasks[i]);
    }
}

/// A task, a store and the settings are written with every field under its name, and the
/// files hold them indented.
pub proof fn law_the_files_hold_what_there_is(t: Task, s: Store, chosen: Settings)
    ensures
        forall|j: Json| #[trigger] call_ensures(Task::as_json, (&t,), j) ==> writes_task(j@, t@),
        forall|j: Json| #[trigger] call_ensures(Store::as_json, (&s,), j) ==> writes_store(j@, s@),
        forall|bytes: Vec<u8>| #[trigger]
            call_ensures(save, (&s,), bytes) ==> {
                &&& json::parsed_bytes(bytes@) is Ok
                &&& bytes@ == json::pretty(json::parsed_bytes(bytes@)->Ok_0)
                &&& writes_store(json::parsed_bytes(bytes@)->Ok_0, s@)
            },
        forall|bytes: Vec<u8>| #[trigger]
            call_ensures(save_settings, (&chosen,), bytes) ==> {
                &&& json::parsed_bytes(bytes@) is Ok
                &&& bytes@ == json::pretty(json::parsed_bytes(bytes@)->Ok_0)
                &&& settings::writes_all(json::parsed_bytes(bytes@)->Ok_0, chosen)
            },
{
    lemma_writes_task(t@);
    lemma_writes_store(s@);
    settings::lemma_writes_all(chosen);
}

/// A failure to save tells of the failure that it is, and whether the file was replaced.
pub proof fn law_a_failure_to_save_tells_which(f: Failure)
    ensures
        forall|yes: bool| #[trigger]
            call_ensures(SaveError::is_committed, (&SaveError::BeforeCommit(f),), yes) ==> !yes,
        forall|yes: bool| #[trigger]
            call_ensures(SaveError::is_committed, (&SaveError::AfterCommit(f),), yes) ==> yes,
        forall|e: SaveError, kind: FailureKind|
            (e == SaveError::BeforeCommit(f) || e == SaveError::AfterCommit(f))
                && #[trigger] call_ensures(SaveError::kind, (&e,), kind) ==> kind == f.kind,
        forall|e: SaveError, g: &Failure|
            (e == SaveError::BeforeCommit(f) || e == SaveError::AfterCommit(f))
                && #[trigger] call_ensures(SaveError::error, (&e,), g) ==> g.kind == f.kind
                && g.message@ == f.message@,
        forall|e: SaveError, s: String|
            (e == SaveError::BeforeCommit(f) || e == SaveError::AfterCommit(f))
                && #[trigger] call_ensures(SaveError::to_string, (&e,), s) ==> s@ == f.message@,
        forall|g: Failure| #[trigger]
            call_ensures(bad_data, (f.message,), g) ==> g.kind == FailureKind::InvalidData
                && g.message@ == f.message@,
{
}

/// What is said of a failure is said of its fields.
pub proof fn law_a_failure_shows_its_fields(f: Failure)
    ensures
        f@.kind == f.kind,
        f@.message == f.message@,
{
}

} // verus!
