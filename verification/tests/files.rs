use queue_focus::data_dir;
use queue_focus::data_path;
use queue_focus::disk::is_here;
use queue_focus::disk::temp_suffix;
use queue_focus::disk::ReadStep;
use queue_focus::disk::SaveStep;
use queue_focus::disk::DIRECTORY_MODE;
use queue_focus::disk::FILE_MODE;
use queue_focus::disk::TEMP_ATTEMPTS;
use queue_focus::load;
use queue_focus::load_settings;
use queue_focus::save;
use queue_focus::save_settings;
use queue_focus::settings_path;
use queue_focus::store::Failure;
use queue_focus::store::FailureKind;
use queue_focus::Bucket;
use queue_focus::SaveError;
use queue_focus::Settings;
use queue_focus::Store;
use queue_focus::Tag;
use queue_focus::Theme;
use queue_focus::INTERVAL_MAX;

fn failure(kind: FailureKind, message: &str) -> Failure {
    Failure {
        kind,
        message: message.to_string(),
    }
}

fn text(bytes: Vec<u8>) -> String {
    String::from_utf8(bytes).unwrap()
}

#[test]
fn save_load_roundtrip() {
    let path = "queue-focus/tasks.json";
    assert!(load(path, None).unwrap().is_empty());

    let mut store = Store::new();
    store.add("x", Bucket::Now, None, false);
    let bytes = save(&store);

    let loaded = load(path, Some(&bytes)).unwrap();
    assert_eq!(loaded.tasks, store.tasks);
    assert_eq!(loaded.next_id, store.next_id);
}

#[test]
fn the_task_file_is_indented_and_leaves_out_what_is_not_there() {
    let mut store = Store::new();
    store.add_at("a", Bucket::Now, Some(Tag::Work), false, 5, 7);
    store.add_at("b", Bucket::Next, None, false, 6, 7);
    assert_eq!(
        text(save(&store)),
        r#"{
  "next_id": 3,
  "tasks": [
    {
      "id": 1,
      "title": "a",
      "bucket": "now",
      "tag": "work",
      "created_at": 5,
      "started_at": 7
    },
    {
      "id": 2,
      "title": "b",
      "bucket": "next",
      "created_at": 6
    }
  ]
}"#
    );
    assert_eq!(text(save(&Store::new())), "{\n  \"next_id\": 1,\n  \"tasks\": []\n}");
}

#[test]
fn settings_round_trip_and_start_from_the_defaults() {
    let path = "queue-focus/settings.json";
    assert_eq!(load_settings(path, None).unwrap(), Settings::default());

    let settings = Settings {
        interval_min: 25,
        theme: Theme::Dark,
        ..Settings::default()
    };
    let bytes = save_settings(&settings);
    assert_eq!(load_settings(path, Some(&bytes)).unwrap(), settings);
}

#[test]
fn a_hand_edited_settings_file_is_pulled_back_into_range_on_load() {
    assert_eq!(
        load_settings("settings.json", Some(br#"{"interval_min": 4000}"#))
            .unwrap()
            .interval_min,
        INTERVAL_MAX
    );
}

/// Settings live beside the tasks, so a malformed file is reported rather than
/// silently replaced.
#[test]
fn malformed_settings_are_reported_and_left_alone() {
    assert_eq!(
        load_settings("settings.json", Some(b"{ not settings"))
            .unwrap_err()
            .kind,
        FailureKind::InvalidData
    );
}

/// A file truncated to `[]`, or a hand-edit that turned the object into a list, must
/// be reported rather than quietly accepted as a plausible set of values.
#[test]
fn a_file_that_is_not_a_json_object_is_refused() {
    for contents in [
        &b"[]"[..],
        b"[7, false]",
        br#"[3,false,"strong","orange",true,true,"22:00","06:00","dark",false,"side"]"#,
        b"\"settings\"",
        b"null",
        b"12",
    ] {
        let error = load_settings("settings.json", Some(contents)).unwrap_err();
        assert_eq!(error.kind, FailureKind::InvalidData);
        assert!(
            error.message.contains("does not hold a JSON object"),
            "{}",
            error.message
        );
    }
    assert!(
        load("tasks.json", Some(b"[1, []]")).is_err(),
        "the task file is held to it too"
    );
}

/// Reading and saving are shared by both files, so their complaints have to name the
/// file they were actually given.
#[test]
fn a_problem_with_a_file_names_that_file() {
    let step = ReadStep::CheckFile.next(Ok(false), "queue-focus/settings.json", "queue-focus");
    match step {
        ReadStep::Failed(error) => {
            assert!(error.message.contains("settings.json"), "{}", error.message);
            assert!(!error.message.contains("task store"), "{}", error.message);
        }
        other => panic!("{other:?}"),
    }
}

#[test]
fn the_data_files_sit_together_in_one_directory() {
    let home = || Some(b"/home/me".to_vec());
    let dir = text(data_dir(None, home()));
    let tasks = text(data_path(None, home()));
    let settings = text(settings_path(None, home()));
    let (tasks, settings) = (std::path::Path::new(&tasks), std::path::Path::new(&settings));
    assert_eq!(tasks.parent(), Some(std::path::Path::new(&dir)));
    assert_eq!(settings.parent(), Some(std::path::Path::new(&dir)));
    assert_eq!(tasks.file_name().unwrap(), "tasks.json");
    assert_eq!(settings.file_name().unwrap(), "settings.json");
}

#[test]
fn the_data_directory_follows_the_environment() {
    let dir = |data_home: Option<&str>, home: Option<&str>| {
        let bytes = |s: &str| s.as_bytes().to_vec();
        text(data_dir(data_home.map(bytes), home.map(bytes)))
    };
    assert_eq!(dir(Some("/data"), Some("/home/me")), "/data/queue-focus");
    assert_eq!(dir(Some("/data/"), None), "/data/queue-focus");
    assert_eq!(
        dir(Some("data"), Some("/home/me")),
        "/home/me/.local/share/queue-focus"
    );
    assert_eq!(dir(None, Some("/home/me")), "/home/me/.local/share/queue-focus");
    assert_eq!(dir(Some(""), Some("")), ".local/share/queue-focus");
    assert_eq!(dir(None, None), "./queue-focus");
    // What the system's own joining gives.
    for home in ["/home/me", "/", "rel", "", "a//"] {
        assert_eq!(
            dir(None, Some(home)),
            std::path::PathBuf::from(home)
                .join(".local/share")
                .join("queue-focus")
                .to_str()
                .unwrap()
        );
    }
    assert!(is_here(None));
    assert!(is_here(Some(true)));
    assert!(!is_here(Some(false)));
}

#[test]
fn temporary_names_tell_process_and_number() {
    assert_eq!(temp_suffix(12, 3), ".tmp-12-3");
    assert_ne!(temp_suffix(1, 23), temp_suffix(12, 3));
}

/// The messages of a file that holds an object which is no store.
#[test]
fn a_task_file_that_cannot_be_understood_says_why() {
    let cases = [
        (r#"{"tasks":[{}]}"#, "missing field `id`"),
        (r#"{"tasks":[{"id":1}]}"#, "missing field `title`"),
        (r#"{"tasks":[{"id":1,"title":"a"}]}"#, "missing field `bucket`"),
        (
            r#"{"tasks":[{"id":1,"title":"a","bucket":"now"}]}"#,
            "missing field `created_at`",
        ),
        (
            r#"{"tasks":[{"title":1,"bucket":"soon"}]}"#,
            "unknown variant `soon`, expected one of `now`, `next`, `later`, `side`",
        ),
        (
            r#"{"tasks":[{"tag":"home"}]}"#,
            "unknown variant `home`, expected `work` or `personal`",
        ),
        (
            r#"{"tasks":[{"id":"1"}]}"#,
            "invalid type: string \"1\", expected u64",
        ),
        (
            r#"{"tasks":[{"id":-1}]}"#,
            "invalid value: integer `-1`, expected u64",
        ),
        (r#"{"tasks":{}}"#, "invalid type: map, expected a sequence"),
        (r#"{"tasks":[7]}"#, "invalid type: integer `7`, expected struct Task"),
        (
            r#"{"tasks":[[]]}"#,
            "invalid length 0, expected struct Task with 7 elements",
        ),
        (
            r#"{"tasks":[[1,"a","now",null]]}"#,
            "invalid length 4, expected struct Task with 7 elements",
        ),
        (
            r#"{"tasks":[[1,"a","now",null,5,6,null,8]]}"#,
            "invalid length 8, expected fewer elements in array",
        ),
        (
            r#"{"next_id":null,"tasks":7}"#,
            "invalid type: null, expected u64",
        ),
        ("{", "EOF while parsing an object at line 1 column 1"),
    ];
    for (contents, words) in cases {
        let error = load("tasks.json", Some(contents.as_bytes())).unwrap_err();
        assert_eq!(error.message, words, "{contents}");
        assert_eq!(error.kind, FailureKind::InvalidData);
    }
    assert_eq!(
        load("x/tasks.json", Some(b"7")).unwrap_err().message,
        "x/tasks.json does not hold a JSON object"
    );
}

#[test]
fn a_task_file_may_leave_things_out() {
    let store = load("tasks.json", Some(b"{}")).unwrap();
    assert_eq!(store.next_id, 1);
    assert!(store.is_empty());

    let store = load(
        "tasks.json",
        Some(br#"{"extra":1,"tasks":[[4," a ",{"side":null},"work",5]],"next_id":9}"#),
    )
    .unwrap();
    assert_eq!(store.next_id, 9);
    let task = store.get(4).unwrap();
    assert_eq!(task.title, "a");
    assert_eq!(task.bucket, Bucket::Side);
    assert_eq!(task.tag, Some(Tag::Work));
    assert_eq!(task.created_at, 5);
    assert_eq!(task.started_at, None);
}

/// A title that was cut behind a blank loses the blank when it is loaded.
#[test]
fn a_cut_title_is_trimmed_again_on_load() {
    let mut store = Store::new();
    let id = store.add(&format!("{} b", "a".repeat(255)), Bucket::Next, None, false);
    assert_eq!(store.get(id).unwrap().title.chars().count(), 256);
    let loaded = load("tasks.json", Some(&save(&store))).unwrap();
    assert_eq!(loaded.get(id).unwrap().title, "a".repeat(255));
}

// ---- the steps of reading and saving --------------------------------------------------

/// Carry out the steps of a reading with these results, and give all of them.
fn read_steps(here: bool, results: Vec<Result<bool, Failure>>) -> Vec<ReadStep> {
    let mut steps = vec![ReadStep::first(here)];
    for done in results {
        let next = steps.pop().unwrap();
        steps.push(match &next {
            ReadStep::CheckDirectory => ReadStep::CheckDirectory,
            ReadStep::RestrictDirectory => ReadStep::RestrictDirectory,
            ReadStep::OpenFile => ReadStep::OpenFile,
            ReadStep::CheckFile => ReadStep::CheckFile,
            ReadStep::RestrictFile => ReadStep::RestrictFile,
            ReadStep::ReadFile => ReadStep::ReadFile,
            other => panic!("{other:?} has no step behind it"),
        });
        steps.push(next.next(done, "d/f", "d"));
    }
    steps
}

#[test]
fn a_file_is_restricted_before_it_is_read() {
    let steps = read_steps(false, vec![Ok(true), Ok(true), Ok(true), Ok(true), Ok(true), Ok(true)]);
    assert_eq!(
        steps,
        vec![
            ReadStep::CheckDirectory,
            ReadStep::RestrictDirectory,
            ReadStep::OpenFile,
            ReadStep::CheckFile,
            ReadStep::RestrictFile,
            ReadStep::ReadFile,
            ReadStep::Found,
        ]
    );
    assert_eq!(read_steps(true, vec![]), vec![ReadStep::OpenFile]);
    assert_eq!(DIRECTORY_MODE, 0o700);
    assert_eq!(FILE_MODE, 0o600);
}

#[test]
fn a_file_that_is_not_there_is_no_failure() {
    let gone = || failure(FailureKind::NotFound, "gone");
    assert_eq!(read_steps(false, vec![Err(gone())]).pop(), Some(ReadStep::Absent));
    assert_eq!(read_steps(true, vec![Err(gone())]).pop(), Some(ReadStep::Absent));
    // Once it was opened, it is.
    assert_eq!(
        read_steps(true, vec![Ok(true), Err(gone())]).pop(),
        Some(ReadStep::Failed(gone()))
    );
}

#[test]
fn a_reading_that_fails_says_where() {
    let refused = || failure(FailureKind::Other(std::io::ErrorKind::PermissionDenied), "no");
    assert_eq!(
        read_steps(false, vec![Ok(false)]).pop(),
        Some(ReadStep::Failed(failure(
            FailureKind::InvalidData,
            "d is not a directory"
        )))
    );
    assert_eq!(
        read_steps(true, vec![Ok(true), Ok(false)]).pop(),
        Some(ReadStep::Failed(failure(
            FailureKind::InvalidData,
            "d/f is not a regular file"
        )))
    );
    assert_eq!(
        read_steps(true, vec![Err(refused())]).pop(),
        Some(ReadStep::Failed(refused()))
    );
    assert_eq!(
        read_steps(true, vec![Ok(true), Ok(true), Ok(true), Err(refused())]).pop(),
        Some(ReadStep::Failed(failure(FailureKind::InvalidData, "no")))
    );
}

/// Carry out a saving with these results, and give the last step.
fn saved(first: SaveStep, results: Vec<Result<bool, Failure>>) -> SaveStep {
    let mut step = first;
    for done in results {
        step = step.next(done, "d");
    }
    step
}

#[test]
fn a_save_goes_through_its_steps() {
    let ok = |n: usize| (0..n).map(|_| Ok(true)).collect::<Vec<_>>();
    let first = || SaveStep::first(true, false, "d/f");
    let steps: Vec<SaveStep> = (0..10).map(|n| saved(first(), ok(n))).collect();
    assert_eq!(
        steps,
        vec![
            SaveStep::CreateDirectory,
            SaveStep::CheckDirectory,
            SaveStep::RestrictDirectory,
            SaveStep::CreateTemp(0),
            SaveStep::RestrictTemp,
            SaveStep::WriteTemp,
            SaveStep::SyncTemp,
            SaveStep::Rename,
            SaveStep::SyncDirectory,
            SaveStep::Saved,
        ]
    );
    assert_eq!(SaveStep::first(true, true, "f"), SaveStep::CreateTemp(0));
}

#[test]
fn a_sync_failure_behind_the_rename_is_one_after_commit() {
    let broken = || failure(FailureKind::Other(std::io::ErrorKind::Other), "injected");
    match saved(SaveStep::SyncDirectory, vec![Err(broken())]) {
        SaveStep::Failed(error) => {
            assert!(error.is_committed());
            assert_eq!(error.to_string(), "injected");
            assert_eq!(error.kind(), broken().kind);
        }
        other => panic!("{other:?}"),
    }
}

#[test]
fn a_failure_before_the_rename_removes_the_temporary_file() {
    let broken = || failure(FailureKind::Other(std::io::ErrorKind::Other), "injected");
    for step in [
        SaveStep::RestrictTemp,
        SaveStep::WriteTemp,
        SaveStep::SyncTemp,
        SaveStep::Rename,
    ] {
        let step = step.next(Err(broken()), "d");
        assert_eq!(step, SaveStep::RemoveTemp(broken()));
        // Whether the removal works does not matter.
        let other = failure(FailureKind::NotFound, "gone");
        match step.next(Err(other), "d") {
            SaveStep::Failed(error) => {
                assert!(!error.is_committed());
                assert_eq!(error.to_string(), "injected");
            }
            other => panic!("{other:?}"),
        }
    }
}

#[test]
fn a_name_for_the_temporary_file_is_tried_some_times() {
    let taken = || failure(FailureKind::AlreadyExists, "taken");
    let mut step = SaveStep::CreateTemp(0);
    for n in 1..TEMP_ATTEMPTS {
        step = step.next(Err(taken()), "d");
        assert_eq!(step, SaveStep::CreateTemp(n));
    }
    match step.next(Err(taken()), "d") {
        SaveStep::Failed(SaveError::BeforeCommit(error)) => {
            assert_eq!(error.kind, FailureKind::AlreadyExists);
            assert_eq!(error.message, "could not create a unique task temporary file");
        }
        other => panic!("{other:?}"),
    }
    let refused = failure(FailureKind::Other(std::io::ErrorKind::PermissionDenied), "no");
    match SaveStep::CreateTemp(3).next(Err(refused), "d") {
        SaveStep::Failed(SaveError::BeforeCommit(error)) => assert_eq!(error.message, "no"),
        other => panic!("{other:?}"),
    }
}

#[test]
fn a_save_that_cannot_start_says_why() {
    match SaveStep::first(false, true, "..") {
        SaveStep::Failed(SaveError::BeforeCommit(error)) => {
            assert_eq!(error.kind, FailureKind::InvalidInput);
            assert_eq!(error.message, ".. has no file name");
        }
        other => panic!("{other:?}"),
    }
    match SaveStep::CheckDirectory.next(Ok(false), "d") {
        SaveStep::Failed(SaveError::BeforeCommit(error)) => {
            assert_eq!(error.message, "d is not a directory");
        }
        other => panic!("{other:?}"),
    }
}
