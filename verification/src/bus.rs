//! The session-bus interface: what a call asks for, and what it is answered.

use crate::change::Change;
use crate::change::Effect;
use crate::clock::unix_now;
use crate::json;
use crate::json::JsonTree;
use crate::model::Bucket;
use crate::model::Tag;
use crate::model::Task;
use crate::queue::Store;
use crate::queue::StoreView;
use crate::state;
use crate::state::State;
use crate::state::StateView;
use crate::state::UpdateOutcome;
use crate::store::Failure;
use crate::store::FailureView;
use crate::store::SaveError;
use crate::text;
use crate::ui::Page;
use vstd::prelude::*;

verus! {

/// The bus name of the service, which is also the id of the application.
pub const BUS_NAME: &'static str = "org.queuefocus.QueueFocus";

/// The path of the object that the service exports.
pub const PATH: &'static str = "/org/queuefocus/QueueFocus";

/// The interface of that object.
pub const IFACE: &'static str = "org.queuefocus.QueueFocus1";

// ---- calls ---------------------------------------------------------------------------

/// The arguments of a call, as far as they have a type that a method takes.
#[derive(Debug, PartialEq, Eq)]
pub enum Args {
    Empty,
    Text(String),
    Texts(String, String),
    Id(u64),
    IdText(u64, String),
    IdTextIndex(u64, String, i32),
    Other,
}

/// What is to be shown.
#[derive(Debug, Clone, Copy, PartialEq, Eq, Structural)]
pub enum Show {
    QuickAdd,
    Toggle,
    Page(Page),
}

/// What a call asks for.
#[derive(Debug, PartialEq, Eq)]
pub enum Request {
    GetState,
    CompleteCurrent,
    UndoComplete(u64),
    Change(Change),
    Show(Show),
    Hide,
}

/// The kinds of errors that a call is answered with.
#[derive(Debug, Clone, Copy, PartialEq, Eq, Structural)]
pub enum ErrorName {
    InvalidArgs,
    Persistence,
    UnknownMethod,
}

impl ErrorName {
    pub open spec fn wire(self) -> Seq<char> {
        match self {
            ErrorName::InvalidArgs => "org.queuefocus.Error.InvalidArgs"@,
            ErrorName::Persistence => "org.queuefocus.Error.Persistence"@,
            ErrorName::UnknownMethod => "org.freedesktop.DBus.Error.UnknownMethod"@,
        }
    }

    pub fn as_str(self) -> (s: &'static str)
        ensures
            s@ == self.wire(),
    {
        match self {
            ErrorName::InvalidArgs => "org.queuefocus.Error.InvalidArgs",
            ErrorName::Persistence => "org.queuefocus.Error.Persistence",
            ErrorName::UnknownMethod => "org.freedesktop.DBus.Error.UnknownMethod",
        }
    }
}

/// An error that a call is answered with.
#[derive(Debug, PartialEq, Eq)]
pub struct BusError {
    pub name: ErrorName,
    pub message: String,
}

impl BusError {
    pub open spec fn is(self, name: ErrorName, message: Seq<char>) -> bool {
        self.name == name && self.message@ == message
    }

    fn new(name: ErrorName, message: &str) -> (e: BusError)
        ensures
            e.is(name, message@),
    {
        BusError { name, message: message.to_string() }
    }
}

/// Whether arguments are refused with a message.
pub open spec fn refused(r: Result<Request, BusError>, message: Seq<char>) -> bool {
    r matches Err(e) && e.is(ErrorName::InvalidArgs, message)
}

/// The tag that a call sets: none for an empty text.
pub open spec fn tag_asked(tag: Seq<char>) -> Option<Option<Tag>> {
    if tag.len() == 0 {
        Some(None)
    } else {
        match Tag::named(tag) {
            Some(t) => Some(Some(t)),
            None => None,
        }
    }
}

/// What a call shows.
pub open spec fn show_asked(view: Seq<char>) -> Show {
    if view == "add"@ {
        Show::QuickAdd
    } else if view == "toggle"@ {
        Show::Toggle
    } else if view == "board"@ {
        Show::Page(Page::Board)
    } else {
        Show::Page(Page::Queue)
    }
}

/// The place that an index asks for: the end where it is negative.
pub open spec fn index_asked(index: i32) -> Option<usize> {
    if index < 0 {
        None
    } else {
        Some(index as usize)
    }
}

/// What the methods that take no argument ask for. Arguments to them are ignored.
pub open spec fn plain_method(method: Seq<char>) -> Option<Request> {
    if method == "GetState"@ {
        Some(Request::GetState)
    } else if method == "CompleteCurrent"@ {
        Some(Request::CompleteCurrent)
    } else if method == "Hide"@ {
        Some(Request::Hide)
    } else {
        None
    }
}

/// What the methods that take a task's id ask for.
pub open spec fn id_method(method: Seq<char>, id: u64) -> Option<Request> {
    if method == "UndoComplete"@ {
        Some(Request::UndoComplete(id))
    } else if method == "Promote"@ {
        Some(Request::Change(Change::Promote(id)))
    } else if method == "Remove"@ {
        Some(Request::Change(Change::Remove(id)))
    } else {
        None
    }
}

/// Whether a call was read so.
pub open spec fn is_read(method: Seq<char>, args: Args, r: Result<Request, BusError>) -> bool {
    if plain_method(method) is Some {
        r == Ok::<Request, BusError>(plain_method(method)->0)
    } else if id_method(method, 0) is Some {
        match args {
            Args::Id(id) => r == Ok::<Request, BusError>(id_method(method, id)->0),
            _ => refused(r, "expected (t)"@),
        }
    } else if method == "Add"@ {
        match args {
            Args::Texts(words, bucket) => {
                &&& r matches Ok(Request::Change(Change::QuickAdd(t, b)))
                &&& t@ == words@
                &&& b == (match Bucket::named(bucket@) {
                    Some(named) => named,
                    None => Bucket::Next,
                })
            },
            _ => refused(r, "expected (ss)"@),
        }
    } else if method == "Move"@ {
        match args {
            Args::IdTextIndex(id, bucket, index) => match Bucket::named(bucket@) {
                Some(b) => r == Ok::<Request, BusError>(
                    Request::Change(Change::Move(id, b, index_asked(index))),
                ),
                None => refused(r, "bad bucket"@),
            },
            _ => refused(r, "expected (tsi)"@),
        }
    } else if method == "SetTag"@ {
        match args {
            Args::IdText(id, tag) => match tag_asked(tag@) {
                Some(t) => r == Ok::<Request, BusError>(Request::Change(Change::SetTag(id, t))),
                None => refused(r, "bad tag"@),
            },
            _ => refused(r, "expected (ts)"@),
        }
    } else if method == "Show"@ {
        match args {
            Args::Text(view) => r == Ok::<Request, BusError>(Request::Show(show_asked(view@))),
            _ => refused(r, "expected (s)"@),
        }
    } else {
        r matches Err(e) && e.is(ErrorName::UnknownMethod, "unknown method"@)
    }
}

fn bad(message: &str) -> (r: Result<Request, BusError>)
    ensures
        refused(r, message@),
{
    Err(BusError::new(ErrorName::InvalidArgs, message))
}

fn read_plain(method: &str) -> (r: Option<Request>)
    ensures
        r == plain_method(method@),
{
    if text::same_text(method, "GetState") {
        Some(Request::GetState)
    } else if text::same_text(method, "CompleteCurrent") {
        Some(Request::CompleteCurrent)
    } else if text::same_text(method, "Hide") {
        Some(Request::Hide)
    } else {
        None
    }
}

fn read_id(method: &str, id: u64) -> (r: Option<Request>)
    ensures
        r == id_method(method@, id),
{
    if text::same_text(method, "UndoComplete") {
        Some(Request::UndoComplete(id))
    } else if text::same_text(method, "Promote") {
        Some(Request::Change(Change::Promote(id)))
    } else if text::same_text(method, "Remove") {
        Some(Request::Change(Change::Remove(id)))
    } else {
        None
    }
}

fn read_move(id: u64, bucket: &str, index: i32) -> (r: Result<Request, BusError>)
    ensures
        match Bucket::named(bucket@) {
            Some(b) => r == Ok::<Request, BusError>(
                Request::Change(Change::Move(id, b, index_asked(index))),
            ),
            None => refused(r, "bad bucket"@),
        },
{
    match Bucket::parse(bucket) {
        None => bad("bad bucket"),
        Some(b) => {
            let at: Option<usize> = if index < 0 {
                None
            } else {
                Some(index as usize)
            };
            Ok(Request::Change(Change::Move(id, b, at)))
        },
    }
}

fn read_tag(id: u64, tag: &str) -> (r: Result<Request, BusError>)
    ensures
        match tag_asked(tag@) {
            Some(t) => r == Ok::<Request, BusError>(Request::Change(Change::SetTag(id, t))),
            None => refused(r, "bad tag"@),
        },
{
    if tag.is_empty() {
        return Ok(Request::Change(Change::SetTag(id, None)));
    }
    match Tag::parse(tag) {
        Some(t) => Ok(Request::Change(Change::SetTag(id, Some(t)))),
        None => bad("bad tag"),
    }
}

fn read_show(view: &str) -> (show: Show)
    ensures
        show == show_asked(view@),
{
    if text::same_text(view, "add") {
        Show::QuickAdd
    } else if text::same_text(view, "toggle") {
        Show::Toggle
    } else {
        Show::Page(Page::parse(view))
    }
}

impl Request {
    /// Read a call: which method it calls, and with what.
    pub fn read(method: &str, args: Args) -> (r: Result<Request, BusError>)
        ensures
            is_read(method@, args, r),
    {
        match read_plain(method) {
            Some(request) => return Ok(request),
            None => {},
        }
        match read_id(method, 0) {
            Some(_) => {
                return match args {
                    Args::Id(id) => match read_id(method, id) {
                        Some(request) => Ok(request),
                        None => bad("expected (t)"),
                    },
                    _ => bad("expected (t)"),
                };
            },
            None => {},
        }
        if text::same_text(method, "Add") {
            match args {
                Args::Texts(words, bucket) => {
                    let default: Bucket = match Bucket::parse(bucket.as_str()) {
                        Some(b) => b,
                        None => Bucket::Next,
                    };
                    Ok(Request::Change(Change::QuickAdd(words, default)))
                },
                _ => bad("expected (ss)"),
            }
        } else if text::same_text(method, "Move") {
            match args {
                Args::IdTextIndex(id, bucket, index) => read_move(id, bucket.as_str(), index),
                _ => bad("expected (tsi)"),
            }
        } else if text::same_text(method, "SetTag") {
            match args {
                Args::IdText(id, tag) => read_tag(id, tag.as_str()),
                _ => bad("expected (ts)"),
            }
        } else if text::same_text(method, "Show") {
            match args {
                Args::Text(view) => Ok(Request::Show(read_show(view.as_str()))),
                _ => bad("expected (s)"),
            }
        } else {
            Err(BusError::new(ErrorName::UnknownMethod, "unknown method"))
        }
    }
}

// ---- answers -------------------------------------------------------------------------

/// What a call returns.
#[derive(Debug, PartialEq, Eq)]
pub enum Reply {
    Nothing,
    /// The snapshot.
    State(String),
    /// The id of an added task.
    Id(u64),
    /// Whether a task was completed; none is where Now is empty.
    Completed(bool),
    Undone(bool),
}

/// The answer to a call, and a warning for everyone who listens.
#[derive(Debug, PartialEq, Eq)]
pub struct Answer {
    pub reply: Result<Reply, BusError>,
    pub warning: Option<String>,
}

impl Answer {
    /// Whether the answer is to a failure to save.
    pub open spec fn is_failure(self, f: Failure) -> bool {
        &&& self.warning is None
        &&& self.reply matches Err(e)
        &&& e.is(ErrorName::Persistence, f@.message)
    }

    /// Whether the answer passes on the warning of an outcome, if it has one.
    pub open spec fn warns<R>(self, outcome: UpdateOutcome<R>) -> bool {
        match outcome.caution() {
            None => self.warning is None,
            Some(w) => self.warning matches Some(message) && message@ == w.words(),
        }
    }

    /// Whether this is the answer to a change with this outcome.
    pub open spec fn tells_change(self, change: Change, r: Result<UpdateOutcome<Effect>, Failure>) -> bool {
        match r {
            Err(f) => self.is_failure(f),
            Ok(outcome) => self.warns(outcome) && match outcome.result() {
                Effect::Added(id) => self.reply == Ok::<Reply, BusError>(Reply::Id(id)),
                Effect::Changed => self.reply == Ok::<Reply, BusError>(Reply::Nothing),
                Effect::Refused => self.reply matches Err(e) && e.is(
                    ErrorName::InvalidArgs,
                    if change is QuickAdd {
                        "empty title"@
                    } else {
                        "no such task"@
                    },
                ),
            },
        }
    }

    /// Whether this is the answer to completing the current task with this outcome.
    pub open spec fn tells_completion(
        self,
        r: Result<UpdateOutcome<Option<Task>>, Failure>,
    ) -> bool {
        match r {
            Err(f) => self.is_failure(f),
            Ok(outcome) => self.warns(outcome) && self.reply == Ok::<Reply, BusError>(
                Reply::Completed(outcome.result() is Some),
            ),
        }
    }

    /// Whether this is the answer to undoing a completion with this outcome.
    pub open spec fn tells_undo(self, r: Result<UpdateOutcome<bool>, Failure>) -> bool {
        match r {
            Err(f) => self.is_failure(f),
            Ok(outcome) => self.warns(outcome) && self.reply == Ok::<Reply, BusError>(
                Reply::Undone(outcome.result()),
            ),
        }
    }

    fn failure(f: Failure) -> (a: Answer)
        ensures
            a.is_failure(f),
    {
        Answer {
            reply: Err(BusError { name: ErrorName::Persistence, message: f.message }),
            warning: None,
        }
    }

    /// Answer a change, given what came of it. A failure to save is an error; a
    /// change that was committed with a warning still succeeds.
    pub fn to_change(change: &Change, r: Result<UpdateOutcome<Effect>, Failure>) -> (a: Answer)
        ensures
            a.tells_change(*change, r),
    {
        match r {
            Err(f) => Answer::failure(f),
            Ok(outcome) => {
                let (effect, warning) = outcome.into_parts();
                let reply = match effect {
                    Effect::Added(id) => Ok(Reply::Id(id)),
                    Effect::Changed => Ok(Reply::Nothing),
                    Effect::Refused => Err(
                        BusError::new(
                            ErrorName::InvalidArgs,
                            match change {
                                Change::QuickAdd(_, _) => "empty title",
                                _ => "no such task",
                            },
                        ),
                    ),
                };
                let warning: Option<String> = match warning {
                    Some(w) => Some(w.to_string()),
                    None => None,
                };
                Answer { reply, warning }
            },
        }
    }

    /// Answer the completion of the current task, given what came of it.
    pub fn to_completion(r: Result<UpdateOutcome<Option<Task>>, Failure>) -> (a: Answer)
        ensures
            a.tells_completion(r),
    {
        match r {
            Err(f) => Answer::failure(f),
            Ok(outcome) => {
                let (done, warning) = outcome.into_parts();
                let warning: Option<String> = match warning {
                    Some(w) => Some(w.to_string()),
                    None => None,
                };
                Answer { reply: Ok(Reply::Completed(done.is_some())), warning }
            },
        }
    }

    /// Answer the undoing of a completion, given what came of it.
    pub fn to_undo(r: Result<UpdateOutcome<bool>, Failure>) -> (a: Answer)
        ensures
            a.tells_undo(r),
    {
        match r {
            Err(f) => Answer::failure(f),
            Ok(outcome) => {
                let (undone, warning) = outcome.into_parts();
                let warning: Option<String> = match warning {
                    Some(w) => Some(w.to_string()),
                    None => None,
                };
                Answer { reply: Ok(Reply::Undone(undone)), warning }
            },
        }
    }

    fn of(reply: Reply) -> (a: Answer)
        ensures
            a.reply == Ok::<Reply, BusError>(reply),
            a.warning is None,
    {
        Answer { reply: Ok(reply), warning: None }
    }
}

impl Request {
    /// The store that is saved for a request at the given times, if one is.
    pub open spec fn to_save(self, before: StateView, created_at: u64, now: u64) -> Option<
        StoreView,
    > {
        match self {
            Request::CompleteCurrent => before.to_save_completing(now),
            Request::UndoComplete(id) => before.to_save_undoing(id, now),
            Request::Change(change) => before.to_save(
                change.applied(before.store, created_at, now),
            ),
            _ => None,
        }
    }
}

/// Whether a request was served so, at the given times.
pub open spec fn is_served<F: FnOnce(&str, &Store) -> Result<(), SaveError>>(
    before: StateView,
    request: Request,
    created_at: u64,
    now: u64,
    save: F,
    after: StateView,
    a: Answer,
) -> bool {
    match request {
        Request::GetState => {
            &&& after == before
            &&& a.warning is None
            &&& a.reply matches Ok(Reply::State(s))
            &&& s@ == json::compact(JsonTree::Object(before.store.snapshot()))
            &&& json::parsed(s@) == Ok::<JsonTree, Seq<char>>(
                JsonTree::Object(before.store.snapshot()),
            )
        },
        Request::Show(_) | Request::Hide => {
            &&& after == before
            &&& a.warning is None
            &&& a.reply == Ok::<Reply, BusError>(Reply::Nothing)
        },
        Request::CompleteCurrent => exists|r: Result<UpdateOutcome<Option<Task>>, Failure>|
            #[trigger] state::completes(before, now, save, after, r) && a.tells_completion(r),
        Request::UndoComplete(id) => exists|r: Result<UpdateOutcome<bool>, Failure>| #[trigger]
            state::undoes(before, id, now, save, after, r) && a.tells_undo(r),
        Request::Change(change) => exists|r: Result<UpdateOutcome<Effect>, Failure>| #[trigger]
            state::commits(
                before,
                change.applied(before.store, created_at, now),
                change.effect(before.store),
                save,
                after,
                r,
            ) && a.tells_change(change, r),
    }
}

/// Serve a request on the state, at the given times. What is to be shown or hidden
/// is left to the windows.
pub fn serve_at(
    state: &mut State,
    request: &Request,
    created_at: u64,
    now: u64,
    save: impl FnOnce(&str, &Store) -> Result<(), SaveError>,
) -> (a: Answer)
    requires
        request matches Request::Change(change) ==> change.has_an_id(old(state)@.store),
        state::can_save(old(state)@, request.to_save(old(state)@, created_at, now), save),
    ensures
        is_served(old(state)@, *request, created_at, now, save, final(state)@, a),
{
    match request {
        Request::GetState => Answer::of(Reply::State(state.store().snapshot_json())),
        Request::Show(_) => Answer::of(Reply::Nothing),
        Request::Hide => Answer::of(Reply::Nothing),
        Request::CompleteCurrent => {
            let r = state.complete_current_at(now, save);
            Answer::to_completion(r)
        },
        Request::UndoComplete(id) => {
            let r = state.undo_complete_at(*id, now, save);
            Answer::to_undo(r)
        },
        Request::Change(change) => {
            let r = state.change_at(change, created_at, now, save);
            Answer::to_change(change, r)
        },
    }
}

/// Serve a request on the state.
pub fn serve(
    state: &mut State,
    request: &Request,
    save: impl FnOnce(&str, &Store) -> Result<(), SaveError>,
) -> (a: Answer)
    requires
        request matches Request::Change(change) ==> change.has_an_id(old(state)@.store),
        forall|created_at: u64, now: u64|
            state::can_save(
                old(state)@,
                #[trigger] request.to_save(old(state)@, created_at, now),
                save,
            ),
    ensures
        exists|created_at: u64, now: u64| #[trigger]
            is_served(old(state)@, *request, created_at, now, save, final(state)@, a),
{
    let created_at: u64 = unix_now();
    let now: u64 = unix_now();
    serve_at(state, request, created_at, now, save)
}

// ---- what calls do -------------------------------------------------------------------

proof fn lemma_methods_differ()
    ensures
        "GetState"@.len() == 8,
        "CompleteCurrent"@.len() == 15,
        "Hide"@.len() == 4 && "Hide"@[0] == 'H',
        "UndoComplete"@.len() == 12,
        "Promote"@.len() == 7,
        "Remove"@.len() == 6 && "Remove"@[0] == 'R',
        "Add"@.len() == 3,
        "Move"@.len() == 4 && "Move"@[0] == 'M',
        "SetTag"@.len() == 6 && "SetTag"@[0] == 'S',
        "Show"@.len() == 4 && "Show"@[0] == 'S',
        "add"@.len() == 3,
        "toggle"@.len() == 6,
        "board"@.len() == 5,
{
    reveal_strlit("GetState");
    reveal_strlit("CompleteCurrent");
    reveal_strlit("Hide");
    reveal_strlit("UndoComplete");
    reveal_strlit("Promote");
    reveal_strlit("Remove");
    reveal_strlit("Add");
    reveal_strlit("Move");
    reveal_strlit("SetTag");
    reveal_strlit("Show");
    reveal_strlit("add");
    reveal_strlit("toggle");
    reveal_strlit("board");
}

/// Whether a call was refused for its arguments.
pub open spec fn is_refused(r: Result<Request, BusError>, words: Seq<char>) -> bool {
    r matches Err(e) && e.name == ErrorName::InvalidArgs && e.message@ == words
}

/// What every method asks for, of every arguments: the request that it is named after,
/// for the task, the bucket, the tag, the place or the window that the arguments say; and
/// a refusal where they are of another type or say none. No other method is known.
pub proof fn law_what_every_method_asks_for(method: &str, args: Args)
    ensures
        forall|r: Result<Request, BusError>| #[trigger]
            call_ensures(Request::read, (method, args), r) ==> {
                let m = method@;
                &&& m == "GetState"@ ==> r == Ok::<Request, BusError>(Request::GetState)
                &&& m == "CompleteCurrent"@ ==> r == Ok::<Request, BusError>(
                    Request::CompleteCurrent,
                )
                &&& m == "Hide"@ ==> r == Ok::<Request, BusError>(Request::Hide)
                &&& m == "UndoComplete"@ || m == "Promote"@ || m == "Remove"@ ==> match args {
                    Args::Id(id) => r == Ok::<Request, BusError>(
                        if m == "UndoComplete"@ {
                            Request::UndoComplete(id)
                        } else if m == "Promote"@ {
                            Request::Change(Change::Promote(id))
                        } else {
                            Request::Change(Change::Remove(id))
                        },
                    ),
                    _ => is_refused(r, "expected (t)"@),
                }
                &&& m == "Add"@ ==> match args {
                    Args::Texts(words, bucket) => {
                        &&& r matches Ok(Request::Change(Change::QuickAdd(t, b)))
                        &&& t@ == words@
                        &&& match Bucket::named(bucket@) {
                            Some(named) => b == named,
                            None => b is Next,
                        }
                    },
                    _ => is_refused(r, "expected (ss)"@),
                }
                &&& m == "Move"@ ==> match args {
                    Args::IdTextIndex(id, bucket, index) => match Bucket::named(bucket@) {
                        Some(b) => r matches Ok(Request::Change(Change::Move(i, to, at))) && i == id
                            && to == b && (at is Some <==> index >= 0) && (at is Some ==> at->0
                            == index),
                        None => is_refused(r, "bad bucket"@),
                    },
                    _ => is_refused(r, "expected (tsi)"@),
                }
                &&& m == "SetTag"@ ==> match args {
                    Args::IdText(id, tag) => if tag@.len() == 0 {
                        r == Ok::<Request, BusError>(Request::Change(Change::SetTag(id, None)))
                    } else {
                        match Tag::named(tag@) {
                            Some(t) => r == Ok::<Request, BusError>(
                                Request::Change(Change::SetTag(id, Some(t))),
                            ),
                            None => is_refused(r, "bad tag"@),
                        }
                    },
                    _ => is_refused(r, "expected (ts)"@),
                }
                &&& m == "Show"@ ==> match args {
                    Args::Text(view) => r == Ok::<Request, BusError>(
                        Request::Show(
                            if view@ == "add"@ {
                                Show::QuickAdd
                            } else if view@ == "toggle"@ {
                                Show::Toggle
                            } else if view@ == "board"@ {
                                Show::Page(Page::Board)
                            } else {
                                Show::Page(Page::Queue)
                            },
                        ),
                    ),
                    _ => is_refused(r, "expected (s)"@),
                }
                &&& m != "GetState"@ && m != "CompleteCurrent"@ && m != "Hide"@ && m
                    != "UndoComplete"@ && m != "Promote"@ && m != "Remove"@ && m != "Add"@ && m
                    != "Move"@ && m != "SetTag"@ && m != "Show"@ ==> (r matches Err(e) && e.name
                    == ErrorName::UnknownMethod && e.message@ == "unknown method"@)
            },
        forall|n: ErrorName, s: &'static str| #[trigger]
            call_ensures(ErrorName::as_str, (n,), s) ==> s@ == (match n {
                ErrorName::InvalidArgs => "org.queuefocus.Error.InvalidArgs"@,
                ErrorName::Persistence => "org.queuefocus.Error.Persistence"@,
                ErrorName::UnknownMethod => "org.freedesktop.DBus.Error.UnknownMethod"@,
            }),
{
    lemma_methods_differ();
}

/// Whether a call was answered by a failure to save, and left nothing changed.
pub open spec fn is_unsaved(before: StateView, after: StateView, a: Answer) -> bool {
    &&& after == before
    &&& a.warning is None
    &&& a.reply matches Err(e)
    &&& e.name == ErrorName::Persistence
    &&& ("could not save "@ + before.path + ": "@).is_prefix_of(e.message@)
}

/// Whether a request was answered for what it did.
pub open spec fn is_answered(
    before: StateView,
    request: Request,
    created_at: u64,
    now: u64,
    after: StateView,
    a: Answer,
) -> bool {
    let working = crate::promises::members(before.store, Bucket::Now).len() > 0;
    &&& after.path == before.path
    &&& match request {
        Request::GetState => {
            &&& after == before
            &&& a.warning is None
            &&& a.reply matches Ok(Reply::State(s))
            &&& json::parsed(s@) matches Ok(j)
            &&& crate::snapshot::tells_of_store(j, before.store)
        },
        Request::Show(_) | Request::Hide => after == before && a.warning is None && a.reply
            == Ok::<Reply, BusError>(Reply::Nothing),
        Request::CompleteCurrent => if !working {
            after == before && a.reply == Ok::<Reply, BusError>(Reply::Completed(false))
        } else {
            ||| is_unsaved(before, after, a)
            ||| {
                &&& a.reply == Ok::<Reply, BusError>(Reply::Completed(true))
                &&& exists|d: crate::model::CompletedView| #[trigger]
                    crate::promises::has_completed(before.store, after.store, Some(d))
                &&& crate::promises::timer_runs(before.store, after.store, now)
                &&& after.revision == before.revision.wrapping_add(1)
            }
        },
        Request::UndoComplete(id) => {
            let on_offer = before.undo is Some && (before.undo->0).revision == before.revision && (
            before.undo->0).completed.task.id == id && !crate::promises::holds(before.store, id);
            if !on_offer {
                after.store == before.store && a.reply == Ok::<Reply, BusError>(
                    Reply::Undone(false),
                )
            } else {
                ||| is_unsaved(before, after, a)
                ||| {
                    &&& a.reply == Ok::<Reply, BusError>(Reply::Undone(true))
                    &&& after.undo is None
                    &&& id < before.store.next_id ==> crate::promises::has_returned(
                        before.store,
                        after.store,
                        (before.undo->0).completed,
                        true,
                    )
                }
            }
        },
        Request::Change(change) => {
            ||| is_unsaved(before, after, a)
            ||| exists|e: Effect|
                {
                    &&& #[trigger] crate::promises::is_changed(
                        change,
                        before.store,
                        after.store,
                        created_at,
                        now,
                        e,
                    )
                    &&& after.revision == (if after.store == before.store {
                        before.revision
                    } else {
                        before.revision.wrapping_add(1)
                    })
                    &&& match e {
                        Effect::Added(id) => a.reply == Ok::<Reply, BusError>(Reply::Id(id)),
                        Effect::Changed => a.reply == Ok::<Reply, BusError>(Reply::Nothing),
                        Effect::Refused => a.reply matches Err(error) && error.name
                            == ErrorName::InvalidArgs && error.message@ == (if change is QuickAdd {
                            "empty title"@
                        } else {
                            "no such task"@
                        }),
                    }
                }
        },
    }
}

/// A call does what it asks for and is answered for that, or is answered with the failure
/// to save it and does nothing.
pub proof fn law_a_call_is_answered_for_what_it_did<
    F: FnOnce(&str, &Store) -> Result<(), SaveError>,
>(before: StateView, request: Request, created_at: u64, now: u64, save: F)
    requires
        crate::promises::sound(before.store),
        before.store.tasks.len() <= usize::MAX,
        request matches Request::Change(change) ==> change.has_an_id(before.store),
    ensures
        forall|m: &mut State, a: Answer|
            (*m)@ == before && #[trigger] call_ensures(
                serve_at,
                (m, &request, created_at, now, save),
                a,
            ) ==> is_answered(before, request, created_at, now, (*final(m))@, a),
{
    assert forall|after: StateView, a: Answer|
        #[trigger] is_served(before, request, created_at, now, save, after, a)
            implies is_answered(before, request, created_at, now, after, a) by {
        lemma_is_answered(before, request, created_at, now, save, after, a);
    }
}

proof fn lemma_is_answered<F: FnOnce(&str, &Store) -> Result<(), SaveError>>(
    before: StateView,
    request: Request,
    created_at: u64,
    now: u64,
    save: F,
    after: StateView,
    a: Answer,
)
    requires
        crate::promises::sound(before.store),
        before.store.tasks.len() <= usize::MAX,
        request matches Request::Change(change) ==> change.has_an_id(before.store),
        is_served(before, request, created_at, now, save, after, a),
    ensures
        is_answered(before, request, created_at, now, after, a),
{
    let s = before.store;
    crate::promises::lemma_members(s, Bucket::Now);
    crate::laws::law_current_is_the_head_of_now(s);
    match request {
        Request::GetState => crate::snapshot::lemma_tells_of_store(s),
        Request::Show(_) => {},
        Request::Hide => {},
        Request::CompleteCurrent => {
            let r = choose|r: Result<UpdateOutcome<Option<Task>>, Failure>| #[trigger]
                state::completes(before, now, save, after, r) && a.tells_completion(r);
            crate::promises::lemma_has_completed(s, now);
            if s.current() is Some {
                state::lemma_completed_is_gone(s, now);
                assert(crate::promises::has_completed(
                    s,
                    s.completed(now),
                    Some(s.completion()->0),
                ));
                lemma_unsaved(before.path);
                let (p, next, saved) = choose|p: &str, next: &Store, saved: Result<(), SaveError>|
                    {
                        &&& p@ == before.path
                        &&& next@ == s.completed(now)
                        &&& #[trigger] call_ensures(save, (p, next), saved)
                        &&& after == before.completed(now, saved)
                        &&& state::is_completed(r, before, saved)
                    };
                if state::committed(saved) {
                    assert(after.store == s.completed(now));
                    assert(a.reply == Ok::<Reply, BusError>(Reply::Completed(true)));
                } else {
                    assert(after == before);
                    assert(is_unsaved(before, after, a));
                }
            }
        },
        Request::UndoComplete(id) => {
            let r = choose|r: Result<UpdateOutcome<bool>, Failure>| #[trigger]
                state::undoes(before, id, now, save, after, r) && a.tells_undo(r);
            crate::promises::lemma_holds(s, id);
            if before.restores(id) {
                let done = (before.undo->0).completed;
                state::lemma_restoring_changes(s, done, now);
                if id < s.next_id {
                    crate::promises::lemma_has_returned(s, done, now);
                }
                lemma_unsaved(before.path);
            } else if before.offers_undo(id) {
                state::lemma_restoring_changes(s, (before.undo->0).completed, now);
            }
        },
        Request::Change(change) => {
            let next = change.applied(s, created_at, now);
            let e = change.effect(s);
            let r = choose|r: Result<UpdateOutcome<Effect>, Failure>| #[trigger]
                state::commits(before, next, e, save, after, r) && a.tells_change(change, r);
            crate::promises::lemma_is_changed(change, s, created_at, now);
            assert(crate::promises::is_changed(change, s, next, created_at, now, e));
            lemma_unsaved(before.path);
            if next != s {
                let (p, t, saved) = choose|p: &str, t: &Store, saved: Result<(), SaveError>|
                    {
                        &&& p@ == before.path
                        &&& t@ == next
                        &&& #[trigger] call_ensures(save, (p, t), saved)
                        &&& after == before.settled(next, saved)
                        &&& state::is_settled(r, e, before.path, saved)
                    };
                if !state::committed(saved) {
                    assert(is_unsaved(before, after, a));
                } else {
                    assert(after.store == next);
                }
            }
        },
    }
}

/// A failure to save says so under the name of the file.
proof fn lemma_unsaved(path: Seq<char>)
    ensures
        forall|f: FailureView|
            ("could not save "@ + path + ": "@).is_prefix_of(
                (#[trigger] state::unsaved(path, f)).message,
            ),
{
    let head = "could not save "@ + path + ": "@;
    assert forall|f: FailureView| head.is_prefix_of((#[trigger] state::unsaved(path, f)).message) by {
        let m = state::unsaved(path, f).message;
        assert(m == head + f.message);
        assert(m.subrange(0, head.len() as int) =~= head);
    }
}

/// Whether an answer passes the warning of an outcome on, if there is one.
pub open spec fn is_passed_on(a: Answer, w: Option<crate::state::DurabilityWarning>) -> bool {
    match w {
        None => a.warning is None,
        Some(w) => a.warning is Some && (a.warning->0)@ == w.words(),
    }
}

/// Whether an answer tells of a failure to save.
pub open spec fn is_told_of(a: Answer, f: Failure) -> bool {
    a.warning is None && a.reply is Err && a.reply->Err_0.name == ErrorName::Persistence
        && a.reply->Err_0.message@ == f.message@
}

/// Whether an answer is that to a change with this outcome.
pub open spec fn answers_change(
    change: Change,
    r: Result<UpdateOutcome<Effect>, Failure>,
    a: Answer,
) -> bool {
    match r {
        Err(f) => is_told_of(a, f),
        Ok(UpdateOutcome::Saved(e)) => is_passed_on(a, None) && is_reply_to(change, e, a),
        Ok(UpdateOutcome::CommittedWithWarning { value: e, warning }) => is_passed_on(
            a,
            Some(warning),
        ) && is_reply_to(change, e, a),
    }
}

/// Whether an answer is that to a completion with this outcome.
pub open spec fn answers_completion(
    r: Result<UpdateOutcome<Option<Task>>, Failure>,
    a: Answer,
) -> bool {
    match r {
        Err(f) => is_told_of(a, f),
        Ok(UpdateOutcome::Saved(t)) => is_passed_on(a, None) && a.reply == Ok::<Reply, BusError>(
            Reply::Completed(t is Some),
        ),
        Ok(UpdateOutcome::CommittedWithWarning { value: t, warning }) => is_passed_on(
            a,
            Some(warning),
        ) && a.reply == Ok::<Reply, BusError>(Reply::Completed(t is Some)),
    }
}

/// Whether an answer is that to an undoing with this outcome.
pub open spec fn answers_undoing(r: Result<UpdateOutcome<bool>, Failure>, a: Answer) -> bool {
    match r {
        Err(f) => is_told_of(a, f),
        Ok(UpdateOutcome::Saved(yes)) => is_passed_on(a, None) && a.reply == Ok::<Reply, BusError>(
            Reply::Undone(yes),
        ),
        Ok(UpdateOutcome::CommittedWithWarning { value: yes, warning }) => is_passed_on(
            a,
            Some(warning),
        ) && a.reply == Ok::<Reply, BusError>(Reply::Undone(yes)),
    }
}

/// A change, a completion and an undoing are answered with what came of them: the failure
/// to save them under its own name, and else whether there was something to do.
pub proof fn law_what_came_of_it_is_the_answer(
    change: Change,
    changed: Result<UpdateOutcome<Effect>, Failure>,
    completed: Result<UpdateOutcome<Option<Task>>, Failure>,
    undone: Result<UpdateOutcome<bool>, Failure>,
)
    ensures
        forall|a: Answer| #[trigger]
            call_ensures(Answer::to_change, (&change, changed), a) ==> answers_change(
                change,
                changed,
                a,
            ),
        forall|a: Answer| #[trigger]
            call_ensures(Answer::to_completion, (completed,), a) ==> answers_completion(
                completed,
                a,
            ),
        forall|a: Answer| #[trigger]
            call_ensures(Answer::to_undo, (undone,), a) ==> answers_undoing(undone, a),
{
}

/// Whether a call was saved as it should be and answered with how that went.
pub open spec fn is_carried_out<F: FnOnce(&str, &Store) -> Result<(), SaveError>>(
    before: StateView,
    request: Request,
    created_at: u64,
    now: u64,
    save: F,
    after: StateView,
    a: Answer,
) -> bool {
    match request {
        Request::CompleteCurrent => exists|
            task: Option<Task>,
            r: Result<UpdateOutcome<Option<Task>>, Failure>,
        | #[trigger]
            state::has_finished(before, now, save, after, task, r) && answers_completion(r, a),
        Request::UndoComplete(id) => id < before.store.next_id ==> exists|
            r: Result<UpdateOutcome<bool>, Failure>,
        | #[trigger] state::has_undone(before, id, save, after, r) && answers_undoing(r, a),
        Request::Change(change) => exists|r: Result<UpdateOutcome<Effect>, Failure>| #[trigger]
            crate::change::has_changed(before, change, created_at, now, save, after, r)
                && answers_change(change, r, a),
        _ => after == before && a.warning is None && a.reply is Ok,
    }
}

/// A call is saved as it should be and answered with how that went, warning and all.
pub proof fn law_a_call_is_answered_with_how_it_went<
    F: FnOnce(&str, &Store) -> Result<(), SaveError>,
>(before: StateView, request: Request, created_at: u64, now: u64, save: F)
    requires
        crate::promises::sound(before.store),
        before.store.tasks.len() <= usize::MAX,
        request matches Request::Change(change) ==> change.has_an_id(before.store),
    ensures
        forall|m: &mut State, a: Answer|
            (*m)@ == before && #[trigger] call_ensures(
                serve_at,
                (m, &request, created_at, now, save),
                a,
            ) ==> is_carried_out(before, request, created_at, now, save, (*final(m))@, a),
{
    assert forall|after: StateView, a: Answer|
        #[trigger] is_served(before, request, created_at, now, save, after, a)
            implies is_carried_out(before, request, created_at, now, save, after, a) by {
        match request {
            Request::CompleteCurrent => {
                let r = choose|r: Result<UpdateOutcome<Option<Task>>, Failure>| #[trigger]
                    state::completes(before, now, save, after, r) && a.tells_completion(r);
                state::lemma_has_finished(before, now, save, after, r);
                let task = choose|task: Option<Task>| #[trigger]
                    state::has_finished(before, now, save, after, task, r);
                assert(answers_completion(r, a));
                assert(state::has_finished(before, now, save, after, task, r));
            },
            Request::UndoComplete(id) => {
                let r = choose|r: Result<UpdateOutcome<bool>, Failure>| #[trigger]
                    state::undoes(before, id, now, save, after, r) && a.tells_undo(r);
                if id < before.store.next_id {
                    state::lemma_has_undone(before, id, now, save, after, r);
                    assert(answers_undoing(r, a));
                }
            },
            Request::Change(change) => {
                let next = change.applied(before.store, created_at, now);
                let e = change.effect(before.store);
                let r = choose|r: Result<UpdateOutcome<Effect>, Failure>| #[trigger]
                    state::commits(before, next, e, save, after, r) && a.tells_change(change, r);
                crate::change::lemma_has_changed(before, change, created_at, now, save, after, r);
                assert(answers_change(change, r, a));
            },
            _ => {},
        }
    }
}

/// Whether an answer replies to a change with this effect.
pub open spec fn is_reply_to(change: Change, e: Effect, a: Answer) -> bool {
    match e {
        Effect::Added(id) => a.reply == Ok::<Reply, BusError>(Reply::Id(id)),
        Effect::Changed => a.reply == Ok::<Reply, BusError>(Reply::Nothing),
        Effect::Refused => a.reply is Err && a.reply->Err_0.name == ErrorName::InvalidArgs
            && a.reply->Err_0.message@ == (match change {
            Change::QuickAdd(_, _) => "empty title"@,
            _ => "no such task"@,
        }),
    }
}

/// A call that is served now does what it asks for at some time, and is answered for that.
pub proof fn law_a_call_is_served_at_some_time<
    F: FnOnce(&str, &Store) -> Result<(), SaveError>,
>(before: StateView, request: Request, save: F)
    requires
        crate::promises::sound(before.store),
        before.store.tasks.len() <= usize::MAX,
        request matches Request::Change(change) ==> change.has_an_id(before.store),
    ensures
        forall|m: &mut State, a: Answer|
            (*m)@ == before && #[trigger] call_ensures(serve, (m, &request, save), a) ==> exists|
                created_at: u64,
                now: u64,
            | #[trigger]
                is_answered(before, request, created_at, now, (*final(m))@, a),
{
    assert forall|created_at: u64, now: u64, after: StateView, a: Answer|
        #[trigger] is_served(before, request, created_at, now, save, after, a)
            implies is_answered(before, request, created_at, now, after, a) by {
        lemma_is_answered(before, request, created_at, now, save, after, a);
    }
}

/// Where the service is found on the bus.
pub proof fn law_where_the_service_is_found()
    ensures
        BUS_NAME@ == "org.queuefocus.QueueFocus"@,
        PATH@ == "/org/queuefocus/QueueFocus"@,
        IFACE@ == "org.queuefocus.QueueFocus1"@,
{
}

} // verus!
