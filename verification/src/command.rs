//! The command line: what the arguments ask for, and what is printed.

use crate::change::Change;
use crate::change::Effect;
use crate::clock::unix_now;
use crate::json;
use crate::json::JsonTree;
use crate::model::Bucket;
use crate::model::Task;
use crate::queue::Store;
use crate::queue::StoreView;
use crate::quick;
use crate::state;
use crate::state::DurabilityWarning;
use crate::state::State;
use crate::state::StateView;
use crate::state::UpdateOutcome;
use crate::store::Failure;
use crate::store::SaveError;
use crate::text;
use crate::ui::Page;
use vstd::prelude::*;

verus! {

pub const USAGE: &'static str = "usage: queue-focus [COMMAND]

  toggle          show/hide the queue panel (default)
  queue | show    show the queue panel
  board           show the board
  add [TEXT]      add a task (opens quick-add if TEXT omitted)
                  syntax: '!title' -> Now, '#w'/'#p' tag, '@later'/'@side'
  done            complete (delete) the current task
  status          print the current state as JSON
  hide            hide all windows
  service         start in the background only (used by D-Bus activation)
  restart         stop the background service and start it again
  quit            exit the background service until the next request
  version         print the version
";

// ---- starting ------------------------------------------------------------------------

/// What an invocation does first.
#[derive(Debug, Clone, Copy, PartialEq, Eq, Structural)]
pub enum Startup {
    PrintVersion,
    /// Become the service.
    Serve,
    /// There is nothing to stop: just start the service.
    StartService,
    /// See that there is a service, and hand it the command.
    Ask,
    /// The same, with a request to stop; then start the service again.
    Restart,
}

impl Startup {
    pub open spec fn of(first: Option<Seq<char>>, running: bool) -> Startup {
        match first {
            Some(arg) => if arg == "version"@ || arg == "--version"@ {
                Startup::PrintVersion
            } else if arg == "service"@ {
                Startup::Serve
            } else if arg == "restart"@ {
                if running {
                    Startup::Restart
                } else {
                    Startup::StartService
                }
            } else {
                Startup::Ask
            },
            None => Startup::Ask,
        }
    }

    /// What an invocation with this first argument does, with a service running or
    /// not.
    pub fn new(first: Option<&str>, running: bool) -> (s: Startup)
        ensures
            s == Startup::of(
                match first {
                    Some(arg) => Some(arg@),
                    None => None,
                },
                running,
            ),
    {
        match first {
            None => Startup::Ask,
            Some(arg) => if text::same_text(arg, "version") || text::same_text(arg, "--version") {
                Startup::PrintVersion
            } else if text::same_text(arg, "service") {
                Startup::Serve
            } else if text::same_text(arg, "restart") {
                if running {
                    Startup::Restart
                } else {
                    Startup::StartService
                }
            } else {
                Startup::Ask
            },
        }
    }
}

/// What is done next to see that there is a service, so that an invocation acts as a
/// short-lived remote rather than becoming the service itself.
#[derive(Debug, Clone, Copy, PartialEq, Eq, Structural)]
pub enum ServiceStep {
    /// Connect to the session bus.
    Connect,
    /// Ask whether the name is owned.
    AskOwner,
    /// Have the bus start the service. It replies once the name is owned.
    Activate,
    /// Start this program as the service.
    Spawn,
    /// Wait until the name is owned.
    Wait,
    /// There is a service.
    Running,
    NotRunning,
}

impl ServiceStep {
    pub open spec fn after(self, ok: bool) -> ServiceStep {
        match (self, ok) {
            (ServiceStep::Connect, true) => ServiceStep::AskOwner,
            (ServiceStep::Connect, false) => ServiceStep::NotRunning,
            (ServiceStep::AskOwner, true) => ServiceStep::Running,
            (ServiceStep::AskOwner, false) => ServiceStep::Activate,
            (ServiceStep::Activate, true) => ServiceStep::Running,
            (ServiceStep::Activate, false) => ServiceStep::Spawn,
            (ServiceStep::Spawn, true) => ServiceStep::Wait,
            (ServiceStep::Spawn, false) => ServiceStep::NotRunning,
            (ServiceStep::Wait, true) => ServiceStep::Running,
            (ServiceStep::Wait, false) => ServiceStep::NotRunning,
            _ => self,
        }
    }

    /// The step behind this one, given whether this one worked or was answered yes.
    pub fn next(self, ok: bool) -> (step: ServiceStep)
        ensures
            step == self.after(ok),
    {
        match self {
            ServiceStep::Connect => if ok {
                ServiceStep::AskOwner
            } else {
                ServiceStep::NotRunning
            },
            ServiceStep::AskOwner => if ok {
                ServiceStep::Running
            } else {
                ServiceStep::Activate
            },
            ServiceStep::Activate => if ok {
                ServiceStep::Running
            } else {
                ServiceStep::Spawn
            },
            ServiceStep::Spawn => if ok {
                ServiceStep::Wait
            } else {
                ServiceStep::NotRunning
            },
            ServiceStep::Wait => if ok {
                ServiceStep::Running
            } else {
                ServiceStep::NotRunning
            },
            _ => self,
        }
    }
}

/// A service is started only where none is running, and the search for one ends.
pub proof fn law_no_second_service_is_started(step: ServiceStep, ok: bool)
    ensures
        step.after(ok) is Activate ==> step is AskOwner && !ok,
        step.after(ok) is Spawn ==> step is Activate && !ok,
        step is Running || step is NotRunning ==> step.after(ok) == step,
        step.after(true).after(true).after(true) is Running || step.after(true).after(true).after(
            true,
        ) is NotRunning,
        step.after(ok) != step || step is Running || step is NotRunning,
{
}

// ---- waiting -------------------------------------------------------------------------

/// How often something is checked that is waited for.
pub const POLL_CHECKS: u32 = 50;

/// How long the pause behind a check is, in milliseconds.
pub const POLL_PAUSE_MS: u64 = 100;

/// What is done next in waiting for something.
#[derive(Debug, Clone, Copy, PartialEq, Eq, Structural)]
pub enum PollStep {
    /// Check it.
    Ask,
    Pause,
    /// It has come about.
    Yes,
    /// It has not, and is no longer waited for.
    No,
}

impl PollStep {
    pub open spec fn of(tries: int, answer: Option<bool>) -> PollStep {
        match answer {
            Some(true) => PollStep::Yes,
            Some(false) => PollStep::Pause,
            None => if tries < POLL_CHECKS {
                PollStep::Ask
            } else {
                PollStep::No
            },
        }
    }
}

/// The next step behind so many checks: behind the answer of the last one, or with
/// none at the start and behind a pause.
pub fn poll_step(tries: u32, answer: Option<bool>) -> (step: PollStep)
    ensures
        step == PollStep::of(tries as int, answer),
{
    match answer {
        Some(yes) => if yes {
            PollStep::Yes
        } else {
            PollStep::Pause
        },
        None => if tries < POLL_CHECKS {
            PollStep::Ask
        } else {
            PollStep::No
        },
    }
}

/// Whether waiting ends with yes, behind so many checks and with these answers to
/// come.
pub open spec fn comes_about(answers: spec_fn(int) -> bool, tries: int) -> bool
    decreases POLL_CHECKS - tries,
{
    match PollStep::of(tries, None) {
        PollStep::Ask => match PollStep::of(tries + 1, Some(answers(tries))) {
            PollStep::Yes => true,
            _ => comes_about(answers, tries + 1),
        },
        _ => false,
    }
}

/// Waiting ends with yes exactly where one of the checks says so.
pub proof fn law_waiting_ends_with_the_first_yes(answers: spec_fn(int) -> bool, tries: int)
    requires
        0 <= tries <= POLL_CHECKS,
    ensures
        comes_about(answers, tries) <==> exists|i: int|
            tries <= i < POLL_CHECKS && #[trigger] answers(i),
    decreases POLL_CHECKS - tries,
{
    if tries < POLL_CHECKS {
        law_waiting_ends_with_the_first_yes(answers, tries + 1);
        if answers(tries) {
            assert(tries <= tries < POLL_CHECKS && answers(tries));
        }
    }
}

// ---- commands ------------------------------------------------------------------------

/// What the arguments ask for.
#[derive(Debug, PartialEq, Eq)]
pub enum Command {
    Toggle,
    Show(Page),
    Hide,
    Service,
    Quit,
    Version,
    Done,
    Status,
    /// Open the quick-add window.
    QuickAdd,
    Add(String),
    Help,
    Unknown(String),
}

/// What a `Command` holds.
#[verifier::ext_equal]
pub enum CommandView {
    Toggle,
    Show(Page),
    Hide,
    Service,
    Quit,
    Version,
    Done,
    Status,
    QuickAdd,
    Add(Seq<char>),
    Help,
    Unknown(Seq<char>),
}

impl View for Command {
    type V = CommandView;

    open spec fn view(&self) -> CommandView {
        match self {
            Command::Toggle => CommandView::Toggle,
            Command::Show(page) => CommandView::Show(*page),
            Command::Hide => CommandView::Hide,
            Command::Service => CommandView::Service,
            Command::Quit => CommandView::Quit,
            Command::Version => CommandView::Version,
            Command::Done => CommandView::Done,
            Command::Status => CommandView::Status,
            Command::QuickAdd => CommandView::QuickAdd,
            Command::Add(words) => CommandView::Add(words@),
            Command::Help => CommandView::Help,
            Command::Unknown(word) => CommandView::Unknown(word@),
        }
    }
}

/// What adding these words means: the quick-add window where there is nothing in
/// them.
pub open spec fn adding(words: Seq<Seq<char>>) -> CommandView {
    let joined = text::join_words(words);
    if text::trim(joined).len() == 0 {
        CommandView::QuickAdd
    } else {
        CommandView::Add(joined)
    }
}

/// What some arguments ask for.
pub open spec fn command_of(args: Seq<Seq<char>>) -> CommandView {
    if args.len() == 0 {
        CommandView::Toggle
    } else {
        let word = args[0];
        if word == "toggle"@ {
            CommandView::Toggle
        } else if word == "queue"@ || word == "show"@ {
            CommandView::Show(Page::Queue)
        } else if word == "board"@ {
            CommandView::Show(Page::Board)
        } else if word == "hide"@ {
            CommandView::Hide
        } else if word == "service"@ {
            CommandView::Service
        } else if word == "quit"@ || word == "restart"@ {
            CommandView::Quit
        } else if word == "version"@ || word == "--version"@ {
            CommandView::Version
        } else if word == "done"@ {
            CommandView::Done
        } else if word == "status"@ {
            CommandView::Status
        } else if word == "add"@ {
            adding(args.skip(1))
        } else if word == "-h"@ || word == "--help"@ || word == "help"@ {
            CommandView::Help
        } else {
            CommandView::Unknown(word)
        }
    }
}

/// The texts of some arguments.
pub open spec fn arg_views(args: Seq<String>) -> Seq<Seq<char>> {
    args.map_values(|a: String| a@)
}

fn read_adding(args: &Vec<String>) -> (c: Command)
    requires
        args@.len() > 0,
    ensures
        c@ == adding(arg_views(args@).skip(1)),
{
    let mut words: Vec<Vec<char>> = Vec::new();
    let ghost all = arg_views(args@).skip(1);
    let mut i: usize = 1;
    assert(text::char_views(words@) =~= all.take(0));
    while i < args.len()
        invariant
            1 <= i <= args@.len(),
            all == arg_views(args@).skip(1),
            text::char_views(words@) =~= all.take(i - 1),
        decreases args@.len() - i,
    {
        let ghost before = text::char_views(words@);
        let word = text::chars_of(args[i].as_str());
        words.push(word);
        assert(text::char_views(words@) =~= before.push(word@));
        assert(all.take(i as int) =~= all.take(i - 1).push(all[i - 1]));
        i = i + 1;
    }
    assert(all.take(i - 1) =~= all);
    let joined = text::join_chars(&words);
    let trimmed = text::trim_chars(&joined);
    if trimmed.len() == 0 {
        Command::QuickAdd
    } else {
        Command::Add(text::text_of(&joined))
    }
}

impl Command {
    /// What the arguments behind the program's name ask for.
    pub fn parse(args: &Vec<String>) -> (c: Command)
        ensures
            c@ == command_of(arg_views(args@)),
    {
        if args.len() == 0 {
            return Command::Toggle;
        }
        let word: &str = args[0].as_str();
        assert(arg_views(args@)[0] == word@);
        if text::same_text(word, "toggle") {
            Command::Toggle
        } else if text::same_text(word, "queue") || text::same_text(word, "show") {
            Command::Show(Page::Queue)
        } else if text::same_text(word, "board") {
            Command::Show(Page::Board)
        } else if text::same_text(word, "hide") {
            Command::Hide
        } else if text::same_text(word, "service") {
            Command::Service
        } else if text::same_text(word, "quit") || text::same_text(word, "restart") {
            Command::Quit
        } else if text::same_text(word, "version") || text::same_text(word, "--version") {
            Command::Version
        } else if text::same_text(word, "done") {
            Command::Done
        } else if text::same_text(word, "status") {
            Command::Status
        } else if text::same_text(word, "add") {
            read_adding(args)
        } else if text::same_text(word, "-h") || text::same_text(word, "--help")
            || text::same_text(word, "help") {
            Command::Help
        } else {
            Command::Unknown(args[0].clone())
        }
    }
}

// ---- what is printed -----------------------------------------------------------------

/// What a command prints, and the code it exits with.
#[derive(Debug, PartialEq, Eq)]
pub struct Output {
    pub out: String,
    pub err: String,
    pub code: i32,
}

/// What an `Output` holds.
#[verifier::ext_equal]
pub struct OutputView {
    pub out: Seq<char>,
    pub err: Seq<char>,
    pub code: i32,
}

impl View for Output {
    type V = OutputView;

    open spec fn view(&self) -> OutputView {
        OutputView { out: self.out@, err: self.err@, code: self.code }
    }
}

impl OutputView {
    pub open spec fn said(out: Seq<char>) -> OutputView {
        OutputView { out, err: seq![], code: 0 }
    }

    pub open spec fn failed(err: Seq<char>, code: i32) -> OutputView {
        OutputView { out: seq![], err, code }
    }

    /// The same behind a warning.
    pub open spec fn warned<R>(self, outcome: UpdateOutcome<R>) -> OutputView {
        match outcome.caution() {
            None => self,
            Some(w) => OutputView {
                err: "queue-focus: warning: "@ + w.words() + "\n"@ + self.err,
                ..self
            },
        }
    }
}

/// What is printed of a failure to save.
pub open spec fn failure_words(f: Failure) -> OutputView {
    OutputView::failed("queue-focus: "@ + f@.message + "\n"@, 1)
}

/// What `done` prints.
pub open spec fn done_words(r: Result<UpdateOutcome<Option<Task>>, Failure>) -> OutputView {
    match r {
        Err(f) => failure_words(f),
        Ok(outcome) => match outcome.result() {
            Some(t) => OutputView::said("done: "@ + t@.title + "\n"@),
            None => OutputView::said("nothing in Now\n"@),
        }.warned(outcome),
    }
}

/// What `add` prints.
pub open spec fn add_words(r: Result<UpdateOutcome<Effect>, Failure>) -> OutputView {
    match r {
        Err(f) => failure_words(f),
        Ok(outcome) => match outcome.result() {
            Effect::Added(id) => OutputView::said("added #"@ + text::decimal(id as nat) + "\n"@),
            _ => OutputView::failed("nothing to add\n"@, 1),
        }.warned(outcome),
    }
}

fn line(head: &str, words: &str) -> (s: String)
    ensures
        s@ == head@ + words@ + "\n"@,
{
    let mut out: Vec<char> = text::chars_of(head);
    text::push_text(&mut out, words);
    text::push_text(&mut out, "\n");
    text::text_of(&out)
}

impl Output {
    fn said(out: String) -> (o: Output)
        ensures
            o@ == OutputView::said(out@),
    {
        let o = Output { out, err: String::new(), code: 0 };
        assert(o@ =~= OutputView::said(out@));
        o
    }

    fn failed(err: String, code: i32) -> (o: Output)
        ensures
            o@ == OutputView::failed(err@, code),
    {
        let o = Output { out: String::new(), err, code };
        assert(o@ =~= OutputView::failed(err@, code));
        o
    }

    fn failure(f: Failure) -> (o: Output)
        ensures
            o@ == failure_words(f),
    {
        Output::failed(line("queue-focus: ", f.message.as_str()), 1)
    }

    fn warned(self, warning: Option<DurabilityWarning>) -> (o: Output)
        ensures
            o@ == (match warning {
                None => self@,
                Some(w) => OutputView {
                    err: "queue-focus: warning: "@ + w.words() + "\n"@ + self@.err,
                    ..self@
                },
            }),
    {
        match warning {
            None => self,
            Some(w) => {
                let words = w.to_string();
                let first = line("queue-focus: warning: ", words.as_str());
                let err = text::behind_text(first.as_str(), self.err.as_str());
                Output { out: self.out, err, code: self.code }
            },
        }
    }

    /// What `done` prints, given what came of completing the current task.
    pub fn of_done(r: Result<UpdateOutcome<Option<Task>>, Failure>) -> (o: Output)
        ensures
            o@ == done_words(r),
    {
        match r {
            Err(f) => Output::failure(f),
            Ok(outcome) => {
                let (done, warning) = outcome.into_parts();
                let o = match done {
                    Some(task) => Output::said(line("done: ", task.title.as_str())),
                    None => Output::said("nothing in Now\n".to_string()),
                };
                o.warned(warning)
            },
        }
    }

    /// What `add` prints, given what came of adding the task.
    pub fn of_add(r: Result<UpdateOutcome<Effect>, Failure>) -> (o: Output)
        ensures
            o@ == add_words(r),
    {
        match r {
            Err(f) => Output::failure(f),
            Ok(outcome) => {
                let (effect, warning) = outcome.into_parts();
                let o = match effect {
                    Effect::Added(id) => {
                        let mut out: Vec<char> = text::chars_of("added #");
                        text::push_decimal(&mut out, id);
                        text::push_text(&mut out, "\n");
                        Output::said(text::text_of(&out))
                    },
                    _ => Output::failed("nothing to add\n".to_string(), 1),
                };
                o.warned(warning)
            },
        }
    }

    /// What `status` prints: the snapshot, on one line.
    pub fn of_status(store: &Store) -> (o: Output)
        ensures
            o@ == OutputView::said(
                json::compact(JsonTree::Object(store@.snapshot())) + "\n"@,
            ),
            json::parsed(json::compact(JsonTree::Object(store@.snapshot()))) == Ok::<
                JsonTree,
                Seq<char>,
            >(JsonTree::Object(store@.snapshot())),
    {
        let json = store.snapshot_json();
        Output::said(text::behind_text(json.as_str(), "\n"))
    }

    /// What `version` prints.
    pub fn of_version(version: &str) -> (o: Output)
        ensures
            o@ == OutputView::said("queue-focus "@ + version@ + "\n"@),
    {
        Output::said(line("queue-focus ", version))
    }

    /// What `help` prints.
    pub fn of_help() -> (o: Output)
        ensures
            o@ == OutputView::said(USAGE@),
    {
        Output::said(USAGE.to_string())
    }

    /// What an unknown command prints.
    pub fn of_unknown(word: &str) -> (o: Output)
        ensures
            o@ == OutputView::failed("unknown command: "@ + word@ + "\n\n"@ + USAGE@, 2),
    {
        let mut err: Vec<char> = text::chars_of("unknown command: ");
        text::push_text(&mut err, word);
        text::push_text(&mut err, "\n\n");
        text::push_text(&mut err, USAGE);
        Output::failed(text::text_of(&err), 2)
    }
}

/// Whether a command ran so on the state, at the given times.
pub open spec fn is_run<F: FnOnce(&str, &Store) -> Result<(), SaveError>>(
    before: StateView,
    command: Command,
    version: Seq<char>,
    created_at: u64,
    now: u64,
    save: F,
    after: StateView,
    o: OutputView,
) -> bool {
    match command {
        Command::Done => exists|r: Result<UpdateOutcome<Option<Task>>, Failure>| #[trigger]
            state::completes(before, now, save, after, r) && o == done_words(r),
        Command::Add(words) => exists|r: Result<UpdateOutcome<Effect>, Failure>|
            {
                &&& o == add_words(r)
                &&& #[trigger] state::commits(
                    before,
                    before.store.quick_added(words@, Bucket::Next, created_at, now),
                    Change::QuickAdd(words, Bucket::Next).effect(before.store),
                    save,
                    after,
                    r,
                )
            },
        Command::Status => {
            let tree = JsonTree::Object(before.store.snapshot());
            &&& after == before
            &&& o == OutputView::said(json::compact(tree) + "\n"@)
            &&& json::parsed(json::compact(tree)) == Ok::<JsonTree, Seq<char>>(tree)
        },
        Command::Version => after == before && o == OutputView::said(
            "queue-focus "@ + version + "\n"@,
        ),
        Command::Help => after == before && o == OutputView::said(USAGE@),
        Command::Unknown(word) => after == before && o == OutputView::failed(
            "unknown command: "@ + word@ + "\n\n"@ + USAGE@,
            2,
        ),
        _ => after == before && o == OutputView::said(seq![]),
    }
}

impl Command {
    /// The store that is saved for a command at the given times, if one is.
    pub open spec fn to_save(self, before: StateView, created_at: u64, now: u64) -> Option<
        StoreView,
    > {
        match self {
            Command::Done => before.to_save_completing(now),
            Command::Add(words) => before.to_save(
                before.store.quick_added(words@, Bucket::Next, created_at, now),
            ),
            _ => None,
        }
    }

    /// Run a command on the state, at the given times. What it shows, hides or stops
    /// is left to the windows and the service.
    pub fn run_at(
        self,
        state: &mut State,
        version: &str,
        created_at: u64,
        now: u64,
        save: impl FnOnce(&str, &Store) -> Result<(), SaveError>,
    ) -> (o: Output)
        requires
            self matches Command::Add(words) ==> quick::asked(words@) is Some ==> old(
                state,
            )@.store.next_id < u64::MAX,
            state::can_save(old(state)@, self.to_save(old(state)@, created_at, now), save),
        ensures
            is_run(old(state)@, self, version@, created_at, now, save, final(state)@, o@),
    {
        match self {
            Command::Done => {
                let r = state.complete_current_at(now, save);
                Output::of_done(r)
            },
            Command::Add(words) => {
                let change = Change::QuickAdd(words, Bucket::Next);
                let r = state.change_at(&change, created_at, now, save);
                Output::of_add(r)
            },
            Command::Status => Output::of_status(state.store()),
            Command::Version => Output::of_version(version),
            Command::Help => Output::of_help(),
            Command::Unknown(word) => Output::of_unknown(word.as_str()),
            _ => {
                let nothing = String::new();
                assert(nothing@ =~= seq![]);
                Output::said(nothing)
            },
        }
    }

    /// Run a command on the state.
    pub fn run(
        self,
        state: &mut State,
        version: &str,
        save: impl FnOnce(&str, &Store) -> Result<(), SaveError>,
    ) -> (o: Output)
        requires
            self matches Command::Add(words) ==> quick::asked(words@) is Some ==> old(
                state,
            )@.store.next_id < u64::MAX,
            forall|created_at: u64, now: u64|
                state::can_save(
                    old(state)@,
                    #[trigger] self.to_save(old(state)@, created_at, now),
                    save,
                ),
        ensures
            exists|created_at: u64, now: u64| #[trigger]
                is_run(old(state)@, self, version@, created_at, now, save, final(state)@, o@),
    {
        let created_at: u64 = unix_now();
        let now: u64 = unix_now();
        self.run_at(state, version, created_at, now, save)
    }
}

// ---- what the command line does ------------------------------------------------------

/// The first argument alone decides how an invocation starts: it prints the version, is
/// the service, stops and starts it again where it runs, or hands the command to it.
pub proof fn law_how_an_invocation_starts(first: Option<&str>, running: bool)
    ensures
        forall|s: Startup| #[trigger]
            call_ensures(Startup::new, (first, running), s) ==> {
                let is = |word: Seq<char>| first is Some && (first->0)@ == word;
                &&& s == Startup::PrintVersion <==> is("version"@) || is("--version"@)
                &&& s == Startup::Serve <==> is("service"@)
                &&& s == Startup::Restart <==> is("restart"@) && running
                &&& s == Startup::StartService <==> is("restart"@) && !running
            },
{
    lemma_words_differ();
}

/// A service that runs is used; else the bus is asked to start it, and where it cannot,
/// this program is started as it and waited for. Anything else that fails ends without.
pub proof fn law_how_a_service_is_found(step: ServiceStep, ok: bool)
    ensures
        forall|next: ServiceStep| #[trigger]
            call_ensures(ServiceStep::next, (step, ok), next) ==> match step {
                ServiceStep::Connect => next == (if ok {
                    ServiceStep::AskOwner
                } else {
                    ServiceStep::NotRunning
                }),
                ServiceStep::AskOwner => next == (if ok {
                    ServiceStep::Running
                } else {
                    ServiceStep::Activate
                }),
                ServiceStep::Activate => next == (if ok {
                    ServiceStep::Running
                } else {
                    ServiceStep::Spawn
                }),
                ServiceStep::Spawn => next == (if ok {
                    ServiceStep::Wait
                } else {
                    ServiceStep::NotRunning
                }),
                ServiceStep::Wait => next == (if ok {
                    ServiceStep::Running
                } else {
                    ServiceStep::NotRunning
                }),
                ServiceStep::Running | ServiceStep::NotRunning => next == step,
            },
{
}

/// Waiting checks, pauses behind a no, ends with a yes, and gives up behind 50 checks.
pub proof fn law_how_long_is_waited(tries: u32, answer: Option<bool>)
    ensures
        forall|step: PollStep| #[trigger]
            call_ensures(poll_step, (tries, answer), step) ==> {
                &&& step == PollStep::Yes <==> answer == Some(true)
                &&& step == PollStep::Pause <==> answer == Some(false)
                &&& step == PollStep::Ask <==> answer is None && tries < 50
            },
        POLL_PAUSE_MS == 100,
{
}

proof fn lemma_words_differ()
    ensures
        "toggle"@.len() == 6 && "toggle"@[0] == 't',
        "queue"@.len() == 5 && "queue"@[0] == 'q',
        "show"@.len() == 4 && "show"@[0] == 's',
        "board"@.len() == 5 && "board"@[0] == 'b',
        "hide"@.len() == 4 && "hide"@[0] == 'h' && "hide"@[1] == 'i',
        "service"@.len() == 7 && "service"@[0] == 's',
        "quit"@.len() == 4 && "quit"@[0] == 'q',
        "restart"@.len() == 7 && "restart"@[0] == 'r',
        "version"@.len() == 7 && "version"@[0] == 'v',
        "--version"@.len() == 9,
        "done"@.len() == 4 && "done"@[0] == 'd',
        "status"@.len() == 6 && "status"@[0] == 's',
        "add"@.len() == 3,
        "-h"@.len() == 2,
        "--help"@.len() == 6 && "--help"@[0] == '-',
        "help"@.len() == 4 && "help"@[0] == 'h' && "help"@[1] == 'e',
{
    reveal_strlit("toggle");
    reveal_strlit("queue");
    reveal_strlit("show");
    reveal_strlit("board");
    reveal_strlit("hide");
    reveal_strlit("service");
    reveal_strlit("quit");
    reveal_strlit("restart");
    reveal_strlit("version");
    reveal_strlit("--version");
    reveal_strlit("done");
    reveal_strlit("status");
    reveal_strlit("add");
    reveal_strlit("-h");
    reveal_strlit("--help");
    reveal_strlit("help");
}

/// Whether a text holds nothing but whitespace.
pub open spec fn is_blank(s: Seq<char>) -> bool {
    forall|i: int| 0 <= i < s.len() ==> text::is_white(#[trigger] s[i])
}

proof fn lemma_blank(s: Seq<char>)
    ensures
        text::trim(s).len() == 0 <==> is_blank(s),
{
    crate::promises::law_a_title_is_trimmed_and_cut(s);
    let (i, j) = choose|i: int, j: int| #[trigger]
        crate::promises::is_core(s, i, j) && text::trim(s) == s.subrange(i, j);
    assert(crate::promises::is_core(s, i, j));
    if i < j {
        assert(!text::is_white(s[i]));
    } else {
        assert forall|k: int| 0 <= k < s.len() implies text::is_white(#[trigger] s[k]) by {}
    }
}

/// What the arguments ask for: the command that the first of them names, or the window
/// where there is none. Behind `add` come the words to add, with a space between each and
/// the next; where they are blank the quick-add window is asked for.
pub proof fn law_what_the_arguments_ask_for(args: Vec<String>)
    ensures
        forall|c: Command| #[trigger]
            call_ensures(Command::parse, (&args,), c) ==> {
                let word = args@[0]@;
                let some = args@.len() > 0;
                let rest = text::join_words(arg_views(args@).skip(1));
                &&& c is Toggle <==> !some || word == "toggle"@
                &&& c is Show <==> some && (word == "queue"@ || word == "show"@ || word == "board"@)
                &&& c is Show ==> (c->Show_0 is Board <==> word == "board"@)
                &&& c is Hide <==> some && word == "hide"@
                &&& c is Service <==> some && word == "service"@
                &&& c is Quit <==> some && (word == "quit"@ || word == "restart"@)
                &&& c is Version <==> some && (word == "version"@ || word == "--version"@)
                &&& c is Done <==> some && word == "done"@
                &&& c is Status <==> some && word == "status"@
                &&& c is QuickAdd <==> some && word == "add"@ && is_blank(rest)
                &&& c is Add <==> some && word == "add"@ && !is_blank(rest)
                &&& c matches Command::Add(words) ==> words@ == rest
                &&& c is Help <==> some && (word == "-h"@ || word == "--help"@ || word == "help"@)
                &&& c matches Command::Unknown(w) ==> w@ == word
            },
{
    lemma_words_differ();
    if args@.len() > 0 {
        assert(arg_views(args@)[0] == args@[0]@);
        lemma_blank(text::join_words(arg_views(args@).skip(1)));
    }
}

/// What is printed in front of an outcome on standard error: its warning, if it has one.
pub open spec fn warning_line(caution: Option<DurabilityWarning>) -> Seq<char> {
    match caution {
        None => Seq::empty(),
        Some(w) => "queue-focus: warning: "@ + w.words() + "\n"@,
    }
}

/// Whether an output tells of the completion with this outcome.
pub open spec fn prints_done(
    r: Result<UpdateOutcome<Option<Task>>, Failure>,
    o: OutputView,
) -> bool {
    match r {
        Err(f) => o.code == 1 && o.out.len() == 0 && o.err == "queue-focus: "@ + f@.message
            + "\n"@,
        Ok(outcome) => {
            &&& o.code == 0
            &&& o.err == warning_line(outcome.caution())
            &&& o.out == (match outcome.result() {
                Some(t) => "done: "@ + t.title@ + "\n"@,
                None => "nothing in Now\n"@,
            })
        },
    }
}

/// Whether an output tells of the addition with this outcome.
pub open spec fn prints_added(r: Result<UpdateOutcome<Effect>, Failure>, o: OutputView) -> bool {
    match r {
        Err(f) => o.code == 1 && o.out.len() == 0 && o.err == "queue-focus: "@ + f@.message
            + "\n"@,
        Ok(outcome) => match outcome.result() {
            Effect::Added(id) => o.code == 0 && o.err == warning_line(outcome.caution()) && o.out
                == "added #"@ + text::decimal(id as nat) + "\n"@,
            _ => o.code == 1 && o.out.len() == 0 && o.err == warning_line(outcome.caution())
                + "nothing to add\n"@,
        },
    }
}

proof fn lemma_prints(
    done: Result<UpdateOutcome<Option<Task>>, Failure>,
    added: Result<UpdateOutcome<Effect>, Failure>,
)
    ensures
        prints_done(done, done_words(done)),
        prints_added(added, add_words(added)),
{
    match done {
        Ok(outcome) => {
            let w = warning_line(outcome.caution());
            assert(w + Seq::<char>::empty() =~= w);
        },
        Err(_) => {},
    }
    match added {
        Ok(outcome) => {
            let w = warning_line(outcome.caution());
            let tail = "nothing to add\n"@;
            assert(w + Seq::<char>::empty() =~= w);
            assert(Seq::<char>::empty() + tail =~= tail);
        },
        Err(_) => {},
    }
}

/// What is printed of a command, and the code that it ends with. A change that was not
/// made safe is warned of in front of it.
pub proof fn law_what_is_printed(
    done: Result<UpdateOutcome<Option<Task>>, Failure>,
    added: Result<UpdateOutcome<Effect>, Failure>,
    words: &str,
)
    ensures
        forall|o: Output| #[trigger]
            call_ensures(Output::of_done, (done,), o) ==> prints_done(done, o@),
        forall|o: Output| #[trigger]
            call_ensures(Output::of_add, (added,), o) ==> prints_added(added, o@),
        forall|o: Output| #[trigger]
            call_ensures(Output::of_version, (words,), o) ==> o.code == 0 && o.err@.len() == 0
                && o.out@ == "queue-focus "@ + words@ + "\n"@,
        forall|o: Output| #[trigger]
            call_ensures(Output::of_help, (), o) ==> o.code == 0 && o.err@.len() == 0 && o.out@
                == USAGE@,
        forall|o: Output| #[trigger]
            call_ensures(Output::of_unknown, (words,), o) ==> o.code == 2 && o.out@.len() == 0
                && o.err@ == "unknown command: "@ + words@ + "\n\n"@ + USAGE@,
{
    lemma_prints(done, added);
}

/// Whether a command failed to save, and left nothing changed.
pub open spec fn is_lost(before: StateView, after: StateView, o: OutputView) -> bool {
    &&& after == before
    &&& o.code == 1
    &&& o.out.len() == 0
    &&& ("queue-focus: could not save "@ + before.path + ": "@).is_prefix_of(o.err)
}

/// Whether a command did what it says and told of it.
pub open spec fn is_told(
    before: StateView,
    command: Command,
    version: Seq<char>,
    created_at: u64,
    now: u64,
    after: StateView,
    o: OutputView,
) -> bool {
    let working = crate::promises::members(before.store, Bucket::Now);
    match command {
        Command::Done => if working.len() == 0 {
            after == before && o.code == 0 && o.out == "nothing in Now\n"@
        } else {
            ||| is_lost(before, after, o)
            ||| {
                &&& exists|d: crate::model::CompletedView| #[trigger]
                    crate::promises::has_completed(before.store, after.store, Some(d))
                &&& crate::promises::timer_runs(before.store, after.store, now)
                &&& o.code == 0
                &&& o.out == "done: "@ + working[0].title + "\n"@
            }
        },
        Command::Add(words) => {
            ||| is_lost(before, after, o)
            ||| exists|e: Effect|
                {
                    &&& #[trigger] crate::promises::is_changed(
                        Change::QuickAdd(words, Bucket::Next),
                        before.store,
                        after.store,
                        created_at,
                        now,
                        e,
                    )
                    &&& match e {
                        Effect::Added(id) => o.code == 0 && o.out == "added #"@ + text::decimal(
                            id as nat,
                        ) + "\n"@,
                        _ => o.code == 1 && o.out.len() == 0,
                    }
                }
        },
        Command::Status => {
            &&& after == before
            &&& o.code == 0
            &&& o.err.len() == 0
            &&& exists|line: Seq<char>|
                o.out == #[trigger] (line + "\n"@) && (json::parsed(line) matches Ok(j)
                    && crate::snapshot::tells_of_store(j, before.store))
        },
        Command::Version => after == before && o.code == 0 && o.err.len() == 0 && o.out
            == "queue-focus "@ + version + "\n"@,
        Command::Help => after == before && o.code == 0 && o.err.len() == 0 && o.out == USAGE@,
        Command::Unknown(word) => after == before && o.code == 2 && o.out.len() == 0 && o.err
            == "unknown command: "@ + word@ + "\n\n"@ + USAGE@,
        _ => after == before && o.code == 0 && o.out.len() == 0 && o.err.len() == 0,
    }
}

/// A command does what it says and tells of it, or tells of the failure to save it and
/// does nothing. Those that ask for a window leave the queue alone.
pub proof fn law_a_command_tells_what_it_did<F: FnOnce(&str, &Store) -> Result<(), SaveError>>(
    before: StateView,
    command: Command,
    version: &str,
    created_at: u64,
    now: u64,
    save: F,
)
    requires
        crate::promises::sound(before.store),
        before.store.tasks.len() <= usize::MAX,
        before.store.next_id < u64::MAX,
    ensures
        forall|m: &mut State, o: Output|
            (*m)@ == before && #[trigger] call_ensures(
                Command::run_at,
                (command, m, version, created_at, now, save),
                o,
            ) ==> is_told(before, command, version@, created_at, now, (*final(m))@, o@),
{
    assert forall|after: StateView, o: OutputView|
        #[trigger] is_run(before, command, version@, created_at, now, save, after, o)
            implies is_told(before, command, version@, created_at, now, after, o) by {
        lemma_is_told(before, command, version@, created_at, now, save, after, o);
    }
}

/// Whether a command was saved as it should be and told of how that went.
pub open spec fn is_carried_out<F: FnOnce(&str, &Store) -> Result<(), SaveError>>(
    before: StateView,
    command: Command,
    created_at: u64,
    now: u64,
    save: F,
    after: StateView,
    o: OutputView,
) -> bool {
    match command {
        Command::Done => exists|
            task: Option<Task>,
            r: Result<UpdateOutcome<Option<Task>>, Failure>,
        | #[trigger] state::has_finished(before, now, save, after, task, r) && prints_done(r, o),
        Command::Add(words) => exists|r: Result<UpdateOutcome<Effect>, Failure>| #[trigger]
            crate::change::has_changed(
                before,
                Change::QuickAdd(words, Bucket::Next),
                created_at,
                now,
                save,
                after,
                r,
            ) && prints_added(r, o),
        _ => after == before,
    }
}

/// A command is saved as it should be and tells of how that went, warning and all.
pub proof fn law_a_command_tells_how_it_went<F: FnOnce(&str, &Store) -> Result<(), SaveError>>(
    before: StateView,
    command: Command,
    version: &str,
    created_at: u64,
    now: u64,
    save: F,
)
    requires
        crate::promises::sound(before.store),
        before.store.tasks.len() <= usize::MAX,
        before.store.next_id < u64::MAX,
    ensures
        forall|m: &mut State, o: Output|
            (*m)@ == before && #[trigger] call_ensures(
                Command::run_at,
                (command, m, version, created_at, now, save),
                o,
            ) ==> is_carried_out(before, command, created_at, now, save, (*final(m))@, o@),
{
    assert forall|after: StateView, o: OutputView|
        #[trigger] is_run(before, command, version@, created_at, now, save, after, o)
            implies is_carried_out(before, command, created_at, now, save, after, o) by {
        match command {
            Command::Done => {
                let r = choose|r: Result<UpdateOutcome<Option<Task>>, Failure>| #[trigger]
                    state::completes(before, now, save, after, r) && o == done_words(r);
                state::lemma_has_finished(before, now, save, after, r);
                let task = choose|task: Option<Task>| #[trigger]
                    state::has_finished(before, now, save, after, task, r);
                lemma_prints(r, Ok(UpdateOutcome::Saved(Effect::Refused)));
                assert(state::has_finished(before, now, save, after, task, r));
            },
            Command::Add(words) => {
                let change = Change::QuickAdd(words, Bucket::Next);
                let next = change.applied(before.store, created_at, now);
                let e = change.effect(before.store);
                let r = choose|r: Result<UpdateOutcome<Effect>, Failure>|
                    o == add_words(r) && #[trigger] state::commits(
                        before,
                        next,
                        e,
                        save,
                        after,
                        r,
                    );
                crate::change::lemma_has_changed(before, change, created_at, now, save, after, r);
                lemma_prints(Ok(UpdateOutcome::Saved(None)), r);
            },
            _ => {},
        }
    }
}

proof fn lemma_is_told<F: FnOnce(&str, &Store) -> Result<(), SaveError>>(
    before: StateView,
    command: Command,
    version: Seq<char>,
    created_at: u64,
    now: u64,
    save: F,
    after: StateView,
    o: OutputView,
)
    requires
        crate::promises::sound(before.store),
        before.store.tasks.len() <= usize::MAX,
        before.store.next_id < u64::MAX,
        is_run(before, command, version, created_at, now, save, after, o),
    ensures
        is_told(before, command, version, created_at, now, after, o),
{
    let s = before.store;
    crate::promises::lemma_members(s, Bucket::Now);
    crate::laws::law_current_is_the_head_of_now(s);
    match command {
        Command::Done => {
            let r = choose|r: Result<UpdateOutcome<Option<Task>>, Failure>| #[trigger]
                state::completes(before, now, save, after, r) && o == done_words(r);
            crate::promises::lemma_has_completed(s, now);
            if s.current() is Some {
                state::lemma_completed_is_gone(s, now);
                assert(crate::promises::has_completed(
                    s,
                    s.completed(now),
                    Some(s.completion()->0),
                ));
                let (p, next, saved) = choose|p: &str, next: &Store, saved: Result<(), SaveError>|
                    {
                        &&& p@ == before.path
                        &&& next@ == s.completed(now)
                        &&& #[trigger] call_ensures(save, (p, next), saved)
                        &&& after == before.completed(now, saved)
                        &&& state::is_completed(r, before, saved)
                    };
                if state::committed(saved) {
                    assert(after.store == s.completed(now));
                } else {
                    lemma_lost(before.path, r->Err_0);
                    assert(is_lost(before, after, o));
                }
            }
        },
        Command::Add(words) => {
            let change = Change::QuickAdd(words, Bucket::Next);
            let next = change.applied(s, created_at, now);
            let e = change.effect(s);
            let r = choose|r: Result<UpdateOutcome<Effect>, Failure>|
                o == add_words(r) && #[trigger] state::commits(before, next, e, save, after, r);
            crate::promises::lemma_is_changed(change, s, created_at, now);
            assert(crate::promises::is_changed(change, s, next, created_at, now, e));
            if next != s {
                let (p, t, saved) = choose|p: &str, t: &Store, saved: Result<(), SaveError>|
                    {
                        &&& p@ == before.path
                        &&& t@ == next
                        &&& #[trigger] call_ensures(save, (p, t), saved)
                        &&& after == before.settled(next, saved)
                        &&& state::is_settled(r, e, before.path, saved)
                    };
                if !state::committed(saved) {
                    lemma_lost(before.path, r->Err_0);
                    assert(is_lost(before, after, o));
                } else {
                    assert(after.store == next);
                }
            }
        },
        Command::Status => {
            crate::snapshot::lemma_tells_of_store(s);
            let line = json::compact(JsonTree::Object(s.snapshot()));
            assert(o.out == line + "\n"@);
        },
        _ => {},
    }
}

proof fn lemma_lost(path: Seq<char>, f: Failure)
    requires
        exists|g: crate::store::FailureView| f@ == #[trigger] state::unsaved(path, g),
    ensures
        ("queue-focus: could not save "@ + path + ": "@).is_prefix_of(failure_words(f).err),
{
    let g = choose|g: crate::store::FailureView| f@ == #[trigger] state::unsaved(path, g);
    reveal_strlit("queue-focus: ");
    reveal_strlit("could not save ");
    reveal_strlit("queue-focus: could not save ");
    assert("queue-focus: could not save "@ =~= "queue-focus: "@ + "could not save "@);
    let head = "queue-focus: could not save "@ + path + ": "@;
    let all = failure_words(f).err;
    assert(all =~= head + g.message + "\n"@);
    assert(all.subrange(0, head.len() as int) =~= head);
}

/// The status is the snapshot of the queue, on a line.
pub proof fn law_the_status_tells_of_the_queue(store: Store)
    ensures
        forall|o: Output| #[trigger]
            call_ensures(Output::of_status, (&store,), o) ==> {
                &&& o.code == 0
                &&& o.err@.len() == 0
                &&& exists|line: Seq<char>|
                    o.out@ == #[trigger] (line + "\n"@) && (json::parsed(line) matches Ok(j)
                        && crate::snapshot::tells_of_store(j, store@))
            },
{
    crate::snapshot::lemma_tells_of_store(store@);
    assert forall|o: Output| #[trigger]
        call_ensures(Output::of_status, (&store,), o) implies exists|line: Seq<char>|
        o.out@ == #[trigger] (line + "\n"@) && (json::parsed(line) matches Ok(j)
            && crate::snapshot::tells_of_store(j, store@)) by {
        let line = json::compact(JsonTree::Object(store@.snapshot()));
        assert(o@.out == line + "\n"@);
    }
}

/// A command that is run now does what it says at some time, and tells of it.
pub proof fn law_a_command_is_run_at_some_time<F: FnOnce(&str, &Store) -> Result<(), SaveError>>(
    before: StateView,
    command: Command,
    version: &str,
    save: F,
)
    requires
        crate::promises::sound(before.store),
        before.store.tasks.len() <= usize::MAX,
        before.store.next_id < u64::MAX,
    ensures
        forall|m: &mut State, o: Output|
            (*m)@ == before && #[trigger] call_ensures(Command::run, (command, m, version, save), o)
                ==> exists|created_at: u64, now: u64| #[trigger]
                is_told(before, command, version@, created_at, now, (*final(m))@, o@),
{
    assert forall|created_at: u64, now: u64, after: StateView, o: OutputView|
        #[trigger] is_run(before, command, version@, created_at, now, save, after, o)
            implies is_told(before, command, version@, created_at, now, after, o) by {
        lemma_is_told(before, command, version@, created_at, now, save, after, o);
    }
}

/// What is said of an output is said of its fields.
pub proof fn law_an_output_shows_its_fields(o: Output)
    ensures
        o@.out == o.out@,
        o@.err == o.err@,
        o@.code == o.code,
{
}

/// What is said of the arguments is said of each of them.
pub proof fn law_arguments_show_each_argument(args: Seq<String>)
    ensures
        arg_views(args).len() == args.len(),
        forall|i: int| 0 <= i < args.len() ==> #[trigger] arg_views(args)[i] == args[i]@,
{
}

} // verus!
