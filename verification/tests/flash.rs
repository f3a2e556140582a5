use queue_focus::flash::advance;
use queue_focus::flash::short_elapsed;
use queue_focus::flash::FlashClock;
use queue_focus::flash::FlashEvent;
use queue_focus::Bucket;
use queue_focus::FlashStyle;
use queue_focus::Hold;
use queue_focus::Intensity;
use queue_focus::Palette;
use queue_focus::Settings;
use queue_focus::Store;
use queue_focus::Tag;
use queue_focus::TimeOfDay;

const MIN: u64 = 60;

#[test]
fn the_clock_waits_out_the_interval_and_then_flashes() {
    let interval = 15 * MIN;
    let start = 1_000;
    let (due, fire) = advance(start, start + interval, interval, false);
    assert_eq!((due, fire), (start + interval, false));

    let one_short = start + interval - 1;
    let (due, fire) = advance(one_short, due, interval, false);
    assert_eq!((due, fire), (start + interval, false), "not yet");

    let (due, fire) = advance(start + interval, due, interval, false);
    assert!(fire);
    assert_eq!(
        due,
        start + 2 * interval,
        "the next one is a full wait away"
    );
}

#[test]
fn a_held_back_reminder_starts_its_wait_over() {
    let interval = 15 * MIN;
    let (due, fire) = advance(1_000, 1_001, interval, true);
    assert_eq!((due, fire), (1_000 + interval, false));

    // Held right up to the moment one was due: it does not go off late.
    let (due, fire) = advance(2_000, 1_000, interval, true);
    assert_eq!((due, fire), (2_000 + interval, false));
    // And the first free second is a full wait away, not immediate.
    let (_, fire) = advance(2_001, due, interval, false);
    assert!(!fire);
}

#[test]
fn shortening_the_interval_brings_the_next_flash_forward() {
    let now = 1_000;
    let due = now + 90 * MIN;
    let (due, fire) = advance(now, due, 5 * MIN, false);
    assert_eq!((due, fire), (now + 5 * MIN, false));
}

#[test]
fn lengthening_the_interval_leaves_a_flash_already_due_alone() {
    let now = 1_000;
    let due = now + 2 * MIN;
    let (due, fire) = advance(now, due, 90 * MIN, false);
    assert_eq!((due, fire), (now + 2 * MIN, false), "still in two minutes");
}

/// A clock that jumps forward past the due time flashes once, not once per interval
/// it skipped; one that jumps back does not go quiet for hours.
#[test]
fn a_clock_that_jumps_does_not_leave_the_reminder_stuck() {
    let interval = 15 * MIN;
    let (due, fire) = advance(100_000, 1_000, interval, false);
    assert!(fire);
    assert_eq!(due, 100_000 + interval);

    let (due, fire) = advance(1_000, 100_000, interval, false);
    assert!(!fire);
    assert_eq!(due, 1_000 + interval, "not stuck until the old due time");
}

#[test]
fn the_arithmetic_survives_the_end_of_time() {
    let (due, fire) = advance(u64::MAX, u64::MAX, 15 * MIN, false);
    assert!(fire);
    assert_eq!(due, u64::MAX);
    let (due, fire) = advance(u64::MAX - 1, u64::MAX, 15 * MIN, true);
    assert!(!fire);
    assert_eq!(due, u64::MAX);
}

#[test]
fn the_flash_clock_reads_like_the_top_bar() {
    assert_eq!(short_elapsed(0, false), "0m");
    assert_eq!(short_elapsed(59, false), "0m");
    assert_eq!(short_elapsed(12 * MIN, false), "12m");
    assert_eq!(short_elapsed(3600, false), "1h00");
    assert_eq!(short_elapsed(3600 + 2 * MIN, false), "1h02");
    assert_eq!(short_elapsed(12 * MIN, true), "12m ⏸");
}

#[test]
fn a_flash_carries_everything_needed_to_draw_it() {
    let event = FlashEvent {
        style: FlashStyle::TopbarBeam,
        intensity: Intensity::Strong,
        palette: Palette::Orange,
        title: "call \"mum\"".into(),
        timer: "1h02".into(),
    };
    let json: serde_json::Value = serde_json::from_str(&event.to_json()).unwrap();
    assert_eq!(json["style"], "topbarBeam");
    assert_eq!(json["intensity"], "strong");
    assert_eq!(json["palette"], "orange");
    assert_eq!(json["title"], "call \"mum\"");
    assert_eq!(json["timer"], "1h02");
    assert_eq!(
        event.to_json(),
        r#"{"intensity":"strong","palette":"orange","style":"topbarBeam","timer":"1h02","title":"call \"mum\""}"#
    );
}

fn store_with_a_task() -> Store {
    let mut store = Store::new();
    store.add_at("a", Bucket::Now, Some(Tag::Personal), false, 1_000, 1_000);
    store
}

#[test]
fn a_clock_flashes_the_current_task_when_it_is_due() {
    let noon = TimeOfDay::new(12, 0).unwrap();
    let settings = Settings::default();
    let store = store_with_a_task();
    let mut clock = FlashClock::new_at(&settings, 1_000);
    assert_eq!(clock.due, 1_000 + 15 * MIN);
    assert_eq!(
        clock.remaining_at(&store, &settings, noon, 1_060),
        Some(14 * MIN)
    );
    assert!(clock.tick_at(&store, &settings, noon, 1_899, 0).is_none());

    let event = clock.tick_at(&store, &settings, noon, 1_900, 4).unwrap();
    assert_eq!(
        event,
        FlashEvent {
            style: FlashStyle::Topbar,
            intensity: Intensity::Normal,
            palette: Palette::Orange,
            title: "a".to_string(),
            timer: "15m".to_string(),
        }
    );
    assert_eq!(clock.due, 1_900 + 15 * MIN);
    assert_eq!(clock.last, Some(FlashStyle::Topbar));
    // The next one is another.
    let event = clock.fire_at(&store, &settings, 2_000, 4).unwrap();
    assert_eq!(event.style, FlashStyle::TopbarBeam);
}

#[test]
fn a_clock_without_a_task_holds_back() {
    let noon = TimeOfDay::new(12, 0).unwrap();
    let settings = Settings::default();
    let store = Store::new();
    let mut clock = FlashClock::new_at(&settings, 1_000);
    assert_eq!(clock.hold(&store, &settings, noon), Hold::NoCurrentTask);
    assert_eq!(clock.remaining_at(&store, &settings, noon, 1_000), None);
    assert!(clock.tick_at(&store, &settings, noon, 5_000, 0).is_none());
    assert_eq!(clock.due, 5_000 + 15 * MIN);
    assert!(clock.flash_now(&store, &settings, 0).is_none());
    assert_eq!(clock.due, 5_000 + 15 * MIN);
}

/// The quiet rules are the reminder's own manners and do not apply to a request.
#[test]
fn a_flash_that_was_asked_for_ignores_the_quiet_rules() {
    let noon = TimeOfDay::new(12, 0).unwrap();
    let settings = Settings::default();
    let mut store = store_with_a_task();
    assert!(store.toggle_pause_at(1_060));
    let mut clock = FlashClock::new(&settings);
    assert_eq!(clock.hold(&store, &settings, noon), Hold::Paused);
    assert!(clock.remaining(&store, &settings, noon).is_none());
    assert!(clock.tick(&store, &settings, noon, 0).is_none());
    let event = clock.flash_now(&store, &settings, 0).unwrap();
    assert_eq!(event.timer, "1m ⏸");
    assert_eq!(event.style, FlashStyle::Wash);
}
