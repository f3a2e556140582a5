use queue_focus::bus::serve;
use queue_focus::bus::serve_at;
use queue_focus::bus::Args;
use queue_focus::bus::ErrorName;
use queue_focus::bus::Reply;
use queue_focus::bus::Request;
use queue_focus::bus::Show;
use queue_focus::change::Change;
use queue_focus::command::poll_step;
use queue_focus::command::Command;
use queue_focus::command::PollStep;
use queue_focus::command::ServiceStep;
use queue_focus::command::Startup;
use queue_focus::command::USAGE;
use queue_focus::state::State;
use queue_focus::store::Failure;
use queue_focus::store::FailureKind;
use queue_focus::ui::Page;
use queue_focus::Bucket;
use queue_focus::SaveError;
use queue_focus::Store;
use queue_focus::Tag;

fn state() -> State {
    State::with_store(Store::new(), "tasks.json".to_string())
}

fn saved(_: &str, _: &Store) -> Result<(), SaveError> {
    Ok(())
}

fn failure(message: &str) -> Failure {
    Failure {
        kind: FailureKind::Other(std::io::ErrorKind::Other),
        message: message.to_string(),
    }
}

fn text(s: &str) -> String {
    s.to_string()
}

// ---- the bus --------------------------------------------------------------------------

#[test]
fn calls_are_read() {
    let read = |method: &str, args: Args| Request::read(method, args).unwrap();
    assert_eq!(read("GetState", Args::Empty), Request::GetState);
    assert_eq!(
        read("Add", Args::Texts(text("a #w"), text("L"))),
        Request::Change(Change::QuickAdd(text("a #w"), Bucket::Later))
    );
    assert_eq!(
        read("Add", Args::Texts(text("a"), text("elsewhere"))),
        Request::Change(Change::QuickAdd(text("a"), Bucket::Next))
    );
    assert_eq!(read("CompleteCurrent", Args::Other), Request::CompleteCurrent);
    assert_eq!(read("UndoComplete", Args::Id(4)), Request::UndoComplete(4));
    assert_eq!(read("Promote", Args::Id(4)), Request::Change(Change::Promote(4)));
    assert_eq!(read("Remove", Args::Id(4)), Request::Change(Change::Remove(4)));
    assert_eq!(
        read("Move", Args::IdTextIndex(4, text("side"), 2)),
        Request::Change(Change::Move(4, Bucket::Side, Some(2)))
    );
    assert_eq!(
        read("Move", Args::IdTextIndex(4, text("side"), -1)),
        Request::Change(Change::Move(4, Bucket::Side, None))
    );
    assert_eq!(
        read("SetTag", Args::IdText(4, text("p"))),
        Request::Change(Change::SetTag(4, Some(Tag::Personal)))
    );
    assert_eq!(
        read("SetTag", Args::IdText(4, text(""))),
        Request::Change(Change::SetTag(4, None))
    );
    assert_eq!(read("Show", Args::Text(text("add"))), Request::Show(Show::QuickAdd));
    assert_eq!(read("Show", Args::Text(text("toggle"))), Request::Show(Show::Toggle));
    assert_eq!(
        read("Show", Args::Text(text("board"))),
        Request::Show(Show::Page(Page::Board))
    );
    assert_eq!(
        read("Show", Args::Text(text("anything"))),
        Request::Show(Show::Page(Page::Queue))
    );
    assert_eq!(read("Hide", Args::Empty), Request::Hide);
}

#[test]
fn calls_that_cannot_be_read_say_why() {
    let cases = [
        ("Add", Args::Empty, "expected (ss)"),
        ("UndoComplete", Args::Text(text("4")), "expected (t)"),
        ("Promote", Args::Other, "expected (t)"),
        ("Remove", Args::Empty, "expected (t)"),
        ("Move", Args::Id(4), "expected (tsi)"),
        ("Move", Args::IdTextIndex(4, text("soon"), 0), "bad bucket"),
        ("SetTag", Args::Id(4), "expected (ts)"),
        ("SetTag", Args::IdText(4, text("home")), "bad tag"),
        ("Show", Args::Empty, "expected (s)"),
    ];
    for (method, args, words) in cases {
        let error = Request::read(method, args).unwrap_err();
        assert_eq!(error.name, ErrorName::InvalidArgs);
        assert_eq!(error.message, words);
    }
    let error = Request::read("Explode", Args::Empty).unwrap_err();
    assert_eq!(error.name.as_str(), "org.freedesktop.DBus.Error.UnknownMethod");
    assert_eq!(error.message, "unknown method");
    assert_eq!(ErrorName::InvalidArgs.as_str(), "org.queuefocus.Error.InvalidArgs");
    assert_eq!(ErrorName::Persistence.as_str(), "org.queuefocus.Error.Persistence");
}

#[test]
fn requests_are_served() {
    let mut s = state();
    let add = |words: &str| Request::Change(Change::QuickAdd(text(words), Bucket::Now));
    let answer = serve(&mut s, &add("a"), saved);
    assert_eq!(answer.reply, Ok(Reply::Id(1)));
    assert_eq!(answer.warning, None);
    let answer = serve(&mut s, &add(" "), saved);
    assert_eq!(answer.reply.unwrap_err().message, "empty title");

    let answer = serve(&mut s, &Request::GetState, saved);
    match answer.reply.unwrap() {
        Reply::State(json) => assert_eq!(json, s.store().snapshot_json()),
        other => panic!("{other:?}"),
    }
    let answer = serve(&mut s, &Request::Change(Change::Promote(9)), saved);
    let error = answer.reply.unwrap_err();
    assert_eq!(error.message, "no such task");
    assert_eq!(error.name, ErrorName::InvalidArgs);
    let answer = serve(&mut s, &Request::Change(Change::SetTag(1, Some(Tag::Work))), saved);
    assert_eq!(answer.reply, Ok(Reply::Nothing));

    let answer = serve(&mut s, &Request::CompleteCurrent, saved);
    assert_eq!(answer.reply, Ok(Reply::Completed(true)));
    let answer = serve(&mut s, &Request::UndoComplete(1), saved);
    assert_eq!(answer.reply, Ok(Reply::Undone(true)));
    let answer = serve(&mut s, &Request::UndoComplete(1), saved);
    assert_eq!(answer.reply, Ok(Reply::Undone(false)));
    let answer = serve(&mut s, &Request::Change(Change::Remove(1)), saved);
    assert_eq!(answer.reply, Ok(Reply::Nothing));
    let answer = serve(&mut s, &Request::CompleteCurrent, saved);
    assert_eq!(answer.reply, Ok(Reply::Completed(false)));
    let answer = serve(&mut s, &Request::Hide, saved);
    assert_eq!(answer.reply, Ok(Reply::Nothing));
}

#[test]
fn a_failure_to_save_is_an_error_and_a_late_one_a_warning() {
    let mut s = state();
    let add = Request::Change(Change::QuickAdd(text("a"), Bucket::Now));
    let answer = serve_at(&mut s, &add, 5, 6, |_, _| {
        Err(SaveError::BeforeCommit(failure("no")))
    });
    let error = answer.reply.unwrap_err();
    assert_eq!(error.name, ErrorName::Persistence);
    assert_eq!(error.message, "could not save tasks.json: no");
    assert!(s.store().is_empty());

    let answer = serve_at(&mut s, &add, 5, 6, |_, _| {
        Err(SaveError::AfterCommit(failure("late")))
    });
    assert_eq!(answer.reply, Ok(Reply::Id(1)));
    assert_eq!(
        answer.warning.unwrap(),
        "saved tasks.json but could not make the change crash-safe: late"
    );
    assert_eq!(s.store().get(1).unwrap().created_at, 5);
    assert_eq!(s.store().get(1).unwrap().started_at, Some(6));
}

// ---- the command line -----------------------------------------------------------------

fn command(args: &[&str]) -> Command {
    Command::parse(&args.iter().map(|a| a.to_string()).collect())
}

#[test]
fn commands_are_read() {
    assert_eq!(command(&[]), Command::Toggle);
    assert_eq!(command(&["toggle"]), Command::Toggle);
    assert_eq!(command(&["queue"]), Command::Show(Page::Queue));
    assert_eq!(command(&["show"]), Command::Show(Page::Queue));
    assert_eq!(command(&["board"]), Command::Show(Page::Board));
    assert_eq!(command(&["hide"]), Command::Hide);
    assert_eq!(command(&["service"]), Command::Service);
    assert_eq!(command(&["quit"]), Command::Quit);
    assert_eq!(command(&["restart"]), Command::Quit);
    assert_eq!(command(&["version"]), Command::Version);
    assert_eq!(command(&["--version"]), Command::Version);
    assert_eq!(command(&["done"]), Command::Done);
    assert_eq!(command(&["status"]), Command::Status);
    assert_eq!(command(&["add"]), Command::QuickAdd);
    assert_eq!(command(&["add", " ", ""]), Command::QuickAdd);
    assert_eq!(command(&["add", "fix", "login #w"]), Command::Add(text("fix login #w")));
    for word in ["-h", "--help", "help"] {
        assert_eq!(command(&[word]), Command::Help);
    }
    assert_eq!(command(&["Done"]), Command::Unknown(text("Done")));
}

#[test]
fn commands_print_what_they_did() {
    let mut s = state();
    let output = command(&["done"]).run(&mut s, "0.1.0", saved);
    assert_eq!((output.out.as_str(), output.err.as_str(), output.code), ("nothing in Now\n", "", 0));
    let output = command(&["add", "!a"]).run(&mut s, "0.1.0", saved);
    assert_eq!((output.out.as_str(), output.code), ("added #1\n", 0));
    let output = command(&["add", "#w"]).run(&mut s, "0.1.0", saved);
    assert_eq!((output.err.as_str(), output.code), ("nothing to add\n", 1));
    let output = command(&["status"]).run(&mut s, "0.1.0", saved);
    assert_eq!(output.out, format!("{}\n", s.store().snapshot_json()));
    let output = command(&["done"]).run(&mut s, "0.1.0", saved);
    assert_eq!((output.out.as_str(), output.code), ("done: a\n", 0));
    let output = command(&["version"]).run(&mut s, "0.1.0", saved);
    assert_eq!(output.out, "queue-focus 0.1.0\n");
    let output = command(&["help"]).run(&mut s, "0.1.0", saved);
    assert_eq!(output.out, USAGE);
    assert!(USAGE.starts_with("usage: queue-focus [COMMAND]\n\n  toggle          show/hide"));
    let output = command(&["explode"]).run(&mut s, "0.1.0", saved);
    assert_eq!(output.err, format!("unknown command: explode\n\n{USAGE}"));
    assert_eq!(output.code, 2);
    let output = command(&["toggle"]).run(&mut s, "0.1.0", saved);
    assert_eq!((output.out.as_str(), output.err.as_str(), output.code), ("", "", 0));
}

#[test]
fn commands_print_failures_and_warnings() {
    let mut s = state();
    let output = command(&["add", "a"]).run_at(&mut s, "0.1.0", 5, 6, |_, _| {
        Err(SaveError::BeforeCommit(failure("no")))
    });
    assert_eq!(output.err, "queue-focus: could not save tasks.json: no\n");
    assert_eq!(output.code, 1);
    let output = command(&["add", "!a"]).run_at(&mut s, "0.1.0", 5, 6, |_, _| {
        Err(SaveError::AfterCommit(failure("late")))
    });
    assert_eq!(output.out, "added #1\n");
    assert_eq!(
        output.err,
        "queue-focus: warning: saved tasks.json but could not make the change crash-safe: late\n"
    );
    assert_eq!(output.code, 0);
    let output = command(&["done"]).run_at(&mut s, "0.1.0", 5, 6, |_, _| {
        Err(SaveError::BeforeCommit(failure("no")))
    });
    assert_eq!(output.err, "queue-focus: could not save tasks.json: no\n");
    assert_eq!(s.store().len(), 1);
}

#[test]
fn an_invocation_knows_what_to_do_first() {
    assert_eq!(Startup::new(Some("version"), false), Startup::PrintVersion);
    assert_eq!(Startup::new(Some("--version"), true), Startup::PrintVersion);
    assert_eq!(Startup::new(Some("service"), false), Startup::Serve);
    assert_eq!(Startup::new(Some("restart"), false), Startup::StartService);
    assert_eq!(Startup::new(Some("restart"), true), Startup::Restart);
    assert_eq!(Startup::new(Some("done"), true), Startup::Ask);
    assert_eq!(Startup::new(None, false), Startup::Ask);
}

/// What waiting ends with, and how many checks and pauses it took.
fn wait(answers: &[bool]) -> (bool, u32, u32) {
    let mut tries: u32 = 0;
    let mut pauses: u32 = 0;
    let mut answer: Option<bool> = None;
    loop {
        match poll_step(tries, answer) {
            PollStep::Ask => {
                answer = Some(answers.get(tries as usize) == Some(&true));
                tries += 1;
            }
            PollStep::Pause => {
                pauses += 1;
                answer = None;
            }
            PollStep::Yes => return (true, tries, pauses),
            PollStep::No => return (false, tries, pauses),
        }
    }
}

#[test]
fn waiting_ends_with_the_first_yes() {
    assert_eq!(wait(&[true]), (true, 1, 0));
    assert_eq!(wait(&[false, false, true]), (true, 3, 2));
    assert_eq!(wait(&[]), (false, 50, 50));
    let mut late = vec![false; 49];
    late.push(true);
    assert_eq!(wait(&late), (true, 50, 49));
    late.insert(0, false);
    assert_eq!(wait(&late), (false, 50, 50));
}

#[test]
fn a_request_that_writes_nothing_does_not_save() {
    let never = |_: &str, _: &Store| -> Result<(), SaveError> { panic!("nothing to save") };
    let mut s = state();
    for request in [
        Request::GetState,
        Request::Hide,
        Request::CompleteCurrent,
        Request::UndoComplete(1),
        Request::Change(Change::Remove(1)),
        Request::Change(Change::Promote(1)),
    ] {
        serve(&mut s, &request, never);
    }
    assert_eq!(s.revision(), 0);
    Command::Status.run(&mut s, "1", never);
    Command::Done.run(&mut s, "1", never);
    Command::Add(text("#w")).run(&mut s, "1", never);
    assert!(!s.complete(1, never).unwrap().into_value());
}

#[test]
fn a_service_is_started_only_where_there_is_none() {
    let run = |answers: &[bool]| {
        answers
            .iter()
            .fold(ServiceStep::Connect, |step, ok| step.next(*ok))
    };
    assert_eq!(run(&[false]), ServiceStep::NotRunning);
    assert_eq!(run(&[true, true]), ServiceStep::Running);
    assert_eq!(run(&[true, false]), ServiceStep::Activate);
    assert_eq!(run(&[true, false, true]), ServiceStep::Running);
    assert_eq!(run(&[true, false, false]), ServiceStep::Spawn);
    assert_eq!(run(&[true, false, false, false]), ServiceStep::NotRunning);
    assert_eq!(run(&[true, false, false, true]), ServiceStep::Wait);
    assert_eq!(run(&[true, false, false, true, true]), ServiceStep::Running);
    assert_eq!(run(&[true, false, false, true, false]), ServiceStep::NotRunning);
    assert_eq!(ServiceStep::Running.next(false), ServiceStep::Running);
}
