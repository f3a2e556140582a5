use queue_focus::clock::seconds_of;
use queue_focus::json;
use queue_focus::store;
use queue_focus::text;
use queue_focus::unix_now;
use queue_focus::Bucket;
use queue_focus::QuickAdd;
use queue_focus::Store;
use queue_focus::Tag;
use queue_focus::MAX_QUICK_ADD_BYTES;
use queue_focus::MAX_TITLE_CHARS;

fn ids(s: &Store, b: Bucket) -> Vec<u64> {
    s.in_bucket(b).iter().map(|t| t.id).collect()
}

/// The store that a text holds.
fn read(text: &str) -> Store {
    store::load("tasks.json", Some(text.as_bytes())).unwrap()
}

#[test]
fn add_and_order() {
    let mut s = Store::new();
    let a = s.add("a", Bucket::Next, None, false);
    let b = s.add("b", Bucket::Next, None, false);
    let c = s.add("c", Bucket::Next, None, true);
    assert_eq!(ids(&s, Bucket::Next), vec![c, a, b]);
    assert!(s.current().is_none());
}

#[test]
fn promote_and_timer() {
    let mut s = Store::new();
    let a = s.add("a", Bucket::Next, None, false);
    let b = s.add("b", Bucket::Later, None, false);
    assert!(s.promote(b));
    assert_eq!(s.current().unwrap().id, b);
    assert!(s.get(b).unwrap().started_at.is_some());
    assert!(s.get(a).unwrap().started_at.is_none());
    s.promote(a);
    assert_eq!(ids(&s, Bucket::Now), vec![a, b]);
    assert!(s.get(b).unwrap().started_at.is_none(), "only head is timed");
}

#[test]
fn complete_pulls_from_next() {
    let mut s = Store::new();
    let a = s.add("a", Bucket::Now, None, false);
    let b = s.add("b", Bucket::Next, None, false);
    let c = s.add("c", Bucket::Next, None, false);
    let done = s.complete_current().unwrap();
    assert_eq!(done.task.id, a);
    assert_eq!(done.pulled, Some(b));
    assert_eq!(s.current().unwrap().id, b);
    assert_eq!(ids(&s, Bucket::Next), vec![c]);
    assert_eq!(s.len(), 2, "done tasks are deleted, not kept");
    s.complete_current();
    assert_eq!(s.current().unwrap().id, c);
    s.complete_current();
    assert!(s.current().is_none());
    assert!(s.complete_current().is_none());
}

#[test]
fn complete_does_not_pull_when_now_has_more() {
    let mut s = Store::new();
    let a = s.add("a", Bucket::Now, None, false);
    let b = s.add("b", Bucket::Now, None, false);
    let c = s.add("c", Bucket::Next, None, false);
    let done = s.complete_current().unwrap();
    assert_eq!(done.task.id, a);
    assert_eq!(done.pulled, None);
    assert_eq!(s.current().unwrap().id, b);
    assert_eq!(ids(&s, Bucket::Next), vec![c]);
}

#[test]
fn undo_complete_restores_the_task_and_returns_the_pulled_one() {
    let mut s = Store::new();
    let a = s.add("a", Bucket::Now, Some(Tag::Work), false);
    let b = s.add("b", Bucket::Next, None, false);
    let c = s.add("c", Bucket::Next, None, false);
    s.tasks[0].started_at = Some(1000);
    let done = s.complete_current().unwrap();
    assert!(s.undo_complete(done));
    assert_eq!(ids(&s, Bucket::Now), vec![a]);
    assert_eq!(ids(&s, Bucket::Next), vec![b, c]);
    let cur = s.current().unwrap();
    assert_eq!(cur.tag, Some(Tag::Work));
    assert_eq!(cur.started_at, Some(1000), "the clock carries on");
    assert!(s.get(b).unwrap().started_at.is_none());
}

#[test]
fn undo_complete_without_a_pull_puts_the_task_back_in_front() {
    let mut s = Store::new();
    let a = s.add("a", Bucket::Now, None, false);
    let b = s.add("b", Bucket::Now, None, false);
    let c = s.add("c", Bucket::Next, None, false);
    let done = s.complete_current().unwrap();
    assert!(s.undo_complete(done));
    assert_eq!(ids(&s, Bucket::Now), vec![a, b]);
    assert_eq!(ids(&s, Bucket::Next), vec![c]);
}

#[test]
fn undo_complete_refuses_a_task_that_already_exists() {
    let mut s = Store::new();
    s.add("a", Bucket::Now, None, false);
    let done = s.complete_current().unwrap();
    assert!(s.undo_complete(done.clone()));
    assert!(!s.undo_complete(done));
    assert_eq!(s.len(), 1);
}

#[test]
fn move_and_shift() {
    let mut s = Store::new();
    let a = s.add("a", Bucket::Next, None, false);
    let b = s.add("b", Bucket::Next, None, false);
    let c = s.add("c", Bucket::Next, None, false);
    assert!(s.shift(c, -1));
    assert_eq!(ids(&s, Bucket::Next), vec![a, c, b]);
    assert!(!s.shift(a, -1));
    assert!(s.shift(a, 5));
    assert_eq!(ids(&s, Bucket::Next), vec![c, b, a]);
    s.move_to(b, Bucket::Side, None);
    assert_eq!(ids(&s, Bucket::Side), vec![b]);
    assert_eq!(ids(&s, Bucket::Next), vec![c, a]);
    s.move_to(b, Bucket::Next, Some(1));
    assert_eq!(ids(&s, Bucket::Next), vec![c, b, a]);
    s.move_to(b, Bucket::Next, Some(99));
    assert_eq!(ids(&s, Bucket::Next), vec![c, a, b]);
}

#[test]
fn quick_add_syntax() {
    let q = QuickAdd::parse("!fix the build #w").unwrap();
    assert_eq!(q.title, "fix the build");
    assert_eq!(q.bucket, Some(Bucket::Now));
    assert_eq!(q.tag, Some(Tag::Work));
    let q = QuickAdd::parse("call mum @later #personal").unwrap();
    assert_eq!(q.title, "call mum");
    assert_eq!(q.bucket, Some(Bucket::Later));
    assert_eq!(q.tag, Some(Tag::Personal));
    assert!(QuickAdd::parse("  #w ").is_none());
    let q = QuickAdd::parse("issue #123").unwrap();
    assert_eq!(q.title, "issue #123");
    // "!now" is a word of its own: honour it wherever it appears, and never leave
    // it in the title.
    for input in [
        "!now fix the build",
        "fix the build !now",
        "! fix the build",
    ] {
        let q = QuickAdd::parse(input).unwrap();
        assert_eq!(q.title, "fix the build", "{input}");
        assert_eq!(q.bucket, Some(Bucket::Now), "{input}");
    }
    assert!(QuickAdd::parse("!now").is_none(), "nothing left to add");
    let q = QuickAdd::parse("!important thing").unwrap();
    assert_eq!(q.title, "important thing", "a bare ! still means Now");
    let mut s = Store::new();
    let id = s.quick_add("!do it", Bucket::Next).unwrap();
    assert_eq!(s.current().unwrap().id, id);
}

#[test]
fn tags_and_rename() {
    let mut s = Store::new();
    let a = s.add("a", Bucket::Next, None, false);
    s.cycle_tag(a);
    assert_eq!(s.get(a).unwrap().tag, Some(Tag::Work));
    s.cycle_tag(a);
    assert_eq!(s.get(a).unwrap().tag, Some(Tag::Personal));
    s.cycle_tag(a);
    assert_eq!(s.get(a).unwrap().tag, None);
    assert!(s.rename(a, "  new "));
    assert_eq!(s.get(a).unwrap().title, "new");
    assert!(!s.rename(a, "  "));
}

#[test]
fn task_titles_are_bounded_at_every_model_ingress() {
    let oversized = "🦀".repeat(MAX_TITLE_CHARS + 20);
    let mut store = Store::new();
    let id = store.add(&oversized, Bucket::Next, None, false);
    assert_eq!(
        store.get(id).unwrap().title.chars().count(),
        MAX_TITLE_CHARS
    );

    let replacement = "λ".repeat(MAX_TITLE_CHARS + 1);
    assert!(store.rename(id, &replacement));
    assert_eq!(
        store.get(id).unwrap().title.chars().count(),
        MAX_TITLE_CHARS
    );
    assert!(store.get(id).unwrap().title.chars().all(|c| c == 'λ'));

    let json = format!(
        "{{\"next_id\": 2, \"tasks\": [{{\"id\": 1, \"title\": \"{oversized}\", \
         \"bucket\": \"next\", \"created_at\": 1}}]}}"
    );
    let loaded = read(&json);
    assert_eq!(loaded.tasks[0].title.chars().count(), MAX_TITLE_CHARS);
}

#[test]
fn quick_add_refuses_input_too_large_to_parse_safely() {
    let oversized = "x".repeat(MAX_QUICK_ADD_BYTES + 1);
    assert!(QuickAdd::parse(&oversized).is_none());
}

#[test]
fn quick_add_takes_input_of_just_the_largest_size() {
    let largest = "x".repeat(MAX_QUICK_ADD_BYTES);
    assert_eq!(QuickAdd::parse(&largest).unwrap().title, largest);
    // The limit is one of bytes, not of characters.
    let wide = "é".repeat(MAX_QUICK_ADD_BYTES / 2 + 1);
    assert!(QuickAdd::parse(&wide).is_none());
}

#[test]
fn pause_freezes_the_clock_and_resume_keeps_it() {
    let mut s = Store::new();
    let a = s.add("a", Bucket::Now, None, false);
    // Pretend the task has been running for a minute.
    let now = unix_now();
    s.tasks[0].started_at = Some(now - 60);

    assert!(s.toggle_pause());
    assert!(s.get(a).unwrap().is_paused());
    let task = s.get(a).unwrap();
    assert_eq!(
        task.elapsed_secs(now + 30),
        task.elapsed_secs(now + 3000),
        "the clock is frozen while paused"
    );
    assert!((60..=61).contains(&task.elapsed_secs(now).unwrap()));

    // Resuming keeps the 60s already on the clock rather than restarting.
    assert!(s.toggle_pause());
    assert!(!s.get(a).unwrap().is_paused());
    assert!((60..=61).contains(&s.get(a).unwrap().elapsed_secs(unix_now()).unwrap()));
}

#[test]
fn pause_needs_a_current_task_and_never_outlives_it() {
    let mut s = Store::new();
    assert!(!s.toggle_pause(), "nothing in Now");
    let a = s.add("a", Bucket::Now, None, false);
    let b = s.add("b", Bucket::Next, None, false);
    assert!(s.toggle_pause());
    assert!(s.get(a).unwrap().is_paused());

    // Losing the current slot clears the pause with the timer.
    s.promote(b);
    assert!(!s.get(a).unwrap().is_paused());
    assert!(s.get(a).unwrap().started_at.is_none());
    assert!(!s.get(b).unwrap().is_paused());
}

/// `paused_at` is the contract with the shell extension, which freezes its own
/// clock on it. Pin the key name and the round-trip.
#[test]
fn a_paused_task_survives_the_snapshot_and_the_file() {
    let mut s = Store::new();
    s.add("a", Bucket::Now, Some(Tag::Work), false);
    s.tasks[0].started_at = Some(1000);
    assert!(s.toggle_pause());
    let paused_at = s.current().unwrap().paused_at;
    assert!(paused_at.is_some());

    let v: serde_json::Value = serde_json::from_str(&s.snapshot_json()).unwrap();
    assert_eq!(
        v["current"]["paused_at"],
        serde_json::Value::from(paused_at)
    );
    assert_eq!(v["now"][0]["paused_at"], serde_json::Value::from(paused_at));

    let back = store::load("tasks.json", Some(&store::save(&s))).unwrap();
    assert_eq!(back.tasks, s.tasks);
    assert!(back.current().unwrap().is_paused());
}

#[test]
fn tasks_without_the_pause_field_still_load() {
    let json = r#"{"next_id":2,"tasks":[{"id":1,"title":"a","bucket":"now",
            "created_at":0,"started_at":10}]}"#;
    let s = read(json);
    assert_eq!(s.current().unwrap().paused_at, None);
    assert_eq!(s.current().unwrap().elapsed_secs(70), Some(60));
}

#[test]
fn snapshot_roundtrip() {
    let mut s = Store::new();
    s.add("a", Bucket::Now, Some(Tag::Work), false);
    s.add("b", Bucket::Side, None, false);
    let json = s.snapshot_json();
    let v: serde_json::Value = serde_json::from_str(&json).unwrap();
    assert_eq!(v["current"]["title"], "a");
    assert_eq!(v["current"]["tag"], "work");
    assert_eq!(v["side"][0]["title"], "b");
    let back = store::load("tasks.json", Some(&store::save(&s))).unwrap();
    assert_eq!(back.tasks, s.tasks);
}

#[test]
fn the_snapshot_is_written_on_one_line_with_its_keys_in_order() {
    let mut s = Store::new();
    s.add_at("a \"b\"", Bucket::Now, Some(Tag::Personal), false, 5, 7);
    s.add_at("c", Bucket::Later, None, false, 5, 7);
    let now = r#"{"id":1,"paused_at":null,"started_at":7,"tag":"personal","title":"a \"b\""}"#;
    let later = r#"{"id":2,"paused_at":null,"started_at":null,"tag":null,"title":"c"}"#;
    assert_eq!(
        s.snapshot_json(),
        format!(
            "{{\"current\":{now},\"later\":[{later}],\"next\":[],\"now\":[{now}],\"side\":[]}}"
        )
    );
    assert_eq!(
        Store::new().snapshot_json(),
        r#"{"current":null,"later":[],"next":[],"now":[],"side":[]}"#
    );
}

#[test]
fn times_of_a_change_are_those_given() {
    let mut s = Store::new();
    let a = s.add_at("a", Bucket::Now, None, false, 100, 101);
    assert_eq!(s.get(a).unwrap().created_at, 100);
    assert_eq!(s.get(a).unwrap().started_at, Some(101));
    assert_eq!(s.get(a).unwrap().elapsed_secs(161), Some(60));
    assert_eq!(s.get(a).unwrap().elapsed_secs(50), Some(0));

    // Pausing before the start pauses at the start.
    assert!(s.toggle_pause_at(90));
    assert_eq!(s.get(a).unwrap().paused_at, Some(101));
    // Resuming moves the start by the length of the pause.
    assert!(s.toggle_pause_at(111));
    assert_eq!(s.get(a).unwrap().started_at, Some(111));
    assert_eq!(s.get(a).unwrap().paused_at, None);
}

#[test]
fn three_steps_round_the_tags_come_back() {
    for tag in [None, Some(Tag::Work), Some(Tag::Personal)] {
        assert_eq!(Tag::cycle(Tag::cycle(Tag::cycle(tag))), tag);
    }
}

#[test]
fn names_and_short_names_are_understood() {
    for bucket in Bucket::ALL {
        assert_eq!(Bucket::parse(bucket.as_str()), Some(bucket));
        assert_eq!(Bucket::parse(bucket.label()), Some(bucket));
    }
    assert_eq!(Bucket::parse(" N "), Some(Bucket::Now));
    assert_eq!(Bucket::parse("x"), Some(Bucket::Next));
    assert_eq!(Bucket::parse("L"), Some(Bucket::Later));
    assert_eq!(Bucket::parse("s"), Some(Bucket::Side));
    assert_eq!(Bucket::parse("soon"), None);
    assert_eq!(Bucket::parse(""), None);
    assert_eq!(Tag::parse("Work"), Some(Tag::Work));
    assert_eq!(Tag::parse("P"), Some(Tag::Personal));
    assert_eq!(Tag::parse("home"), None);
    assert_eq!(Tag::Personal.as_str(), "personal");
}

#[test]
fn the_last_marker_of_a_kind_wins() {
    let q = QuickAdd::parse("a #w @later #p @side").unwrap();
    assert_eq!(q.title, "a");
    assert_eq!(q.tag, Some(Tag::Personal));
    assert_eq!(q.bucket, Some(Bucket::Side));
    assert_eq!(QuickAdd::parse("a").unwrap().bucket, None);
}

#[test]
fn now_wins_wherever_it_appears() {
    for input in ["! a @l", "a !now @later", "a @side !n", "@next !now a @x", "!a @later"] {
        let q = QuickAdd::parse(input).unwrap();
        assert_eq!(q.title, "a", "{input}");
        assert_eq!(q.bucket, Some(Bucket::Now), "{input}");
    }
    // Written with an `@` it is a marker like the others.
    let q = QuickAdd::parse("a @now @later").unwrap();
    assert_eq!(q.bucket, Some(Bucket::Later));
}

#[test]
fn ids_are_not_given_twice() {
    let mut s = Store::new();
    let a = s.add("a", Bucket::Next, None, false);
    s.remove(a);
    let b = s.add("b", Bucket::Next, None, false);
    assert_ne!(a, b);
    assert!(!s.remove(a));
    assert!(s.get(a).is_none());
    assert_eq!(s.len(), 1);
    assert!(!s.is_empty());
}

#[test]
fn removing_leaves_the_others_in_order() {
    let mut s = Store::new();
    let a = s.add("a", Bucket::Next, None, false);
    let b = s.add("b", Bucket::Next, None, false);
    let c = s.add("c", Bucket::Next, None, false);
    assert!(s.remove(b));
    assert_eq!(ids(&s, Bucket::Next), vec![a, c]);
}

#[test]
fn whitespace_is_what_unicode_says_it_is() {
    for code in 0..0x110000u32 {
        if let Some(c) = char::from_u32(code) {
            assert_eq!(text::char_is_white(c), c.is_whitespace(), "{code:x}");
        }
    }
}

#[test]
fn numbers_are_read_like_unsigned_integers() {
    for s in [
        "0", "7", "+7", "007", "-1", "", "+", "1 ", "12a", "18446744073709551615",
        "18446744073709551616", "٣",
    ] {
        let v: Vec<char> = s.chars().collect();
        assert_eq!(text::read_number(&v, u64::MAX), s.parse::<u64>().ok(), "{s}");
        assert_eq!(
            text::read_number(&v, u32::MAX as u64),
            s.parse::<u32>().ok().map(|n| n as u64),
            "{s}"
        );
    }
}

#[test]
fn a_fresh_store_and_a_default_one_differ_in_the_next_id() {
    assert_eq!(Store::new().next_id, 1);
    assert_eq!(Store::default().next_id, 0);
    assert!(Store::default().tasks.is_empty());
}

#[test]
fn a_clone_holds_the_same() {
    let mut s = Store::new();
    s.add("a", Bucket::Now, Some(Tag::Work), false);
    let copy = s.clone();
    assert!(copy.same(&s));
    assert_eq!(copy, s);
    let other = Store::new();
    assert!(!other.same(&s));
}

#[test]
fn json_reads_every_kind_of_value() {
    let j = json::parse(r#"[null, true, 7, -7, 1.5, "x", [], {"k": 1}]"#).unwrap();
    let number = serde_json::from_str::<serde_json::Number>("1.5").unwrap();
    assert_eq!(
        j,
        json::Json::Array(vec![
            json::Json::Null,
            json::Json::Bool(true),
            json::Json::Unsigned(7),
            json::Json::Negative(-7),
            json::Json::Float(number),
            json::Json::Text("x".to_string()),
            json::Json::Array(vec![]),
            json::Json::Object(vec![("k".to_string(), json::Json::Unsigned(1))]),
        ])
    );
    assert_eq!(
        json::parse("{").unwrap_err(),
        "EOF while parsing an object at line 1 column 1"
    );
    assert_eq!(
        json::parse_bytes(b"[1,]").unwrap_err(),
        "trailing comma at line 1 column 4"
    );
}

#[test]
fn json_writes_what_it_reads() {
    let value = json::Json::Object(vec![
        ("z".to_string(), json::Json::Negative(-3)),
        (
            "a".to_string(),
            json::Json::Array(vec![json::Json::Text("\u{1}\"é".to_string()), json::Json::Null]),
        ),
    ]);
    assert_eq!(json::print(value), "{\"z\":-3,\"a\":[\"\\u0001\\\"é\",null]}");
    let value = json::Json::Object(vec![("z".to_string(), json::Json::Bool(false))]);
    assert_eq!(json::print_pretty(value), b"{\n  \"z\": false\n}");
    let back = json::parse("{\"z\":-3,\"a\":[\"\\u0001\\\"é\",null]}").unwrap();
    assert_eq!(
        back,
        json::Json::Object(vec![
            ("z".to_string(), json::Json::Negative(-3)),
            (
                "a".to_string(),
                json::Json::Array(vec![
                    json::Json::Text("\u{1}\"é".to_string()),
                    json::Json::Null
                ]),
            ),
        ])
    );
}

#[test]
fn a_clock_before_its_start_reads_zero() {
    assert_eq!(seconds_of(Ok(std::time::Duration::from_millis(7_999))), 7);
    let before = std::time::UNIX_EPOCH.duration_since(std::time::UNIX_EPOCH + std::time::Duration::from_secs(1));
    assert!(before.is_err());
    assert_eq!(seconds_of(before), 0);
}

#[test]
fn whatever_makes_a_task_current_starts_its_timer() {
    let timer = |s: &Store| {
        let t = s.current().unwrap();
        (t.id, t.started_at, t.paused_at)
    };
    let mut s = Store::new();
    let a = s.add_at("a", Bucket::Now, None, false, 1, 10);
    assert_eq!(timer(&s), (a, Some(10), None));
    // One that joins behind it leaves its timer alone.
    let b = s.add_at("b", Bucket::Now, None, false, 2, 20);
    assert_eq!(timer(&s), (a, Some(10), None));
    let c = s.quick_add_at("!c", Bucket::Next, 3, 30).unwrap();
    assert_eq!(timer(&s), (c, Some(30), None));
    assert!(s.remove_at(c, 40));
    assert_eq!(timer(&s), (a, Some(40), None));
    s.complete_current_at(50).unwrap();
    assert_eq!(timer(&s), (b, Some(50), None));
    let d = s.add_at("d", Bucket::Next, None, false, 5, 55);
    s.complete_current_at(60).unwrap();
    assert_eq!(timer(&s), (d, Some(60), None));
}
