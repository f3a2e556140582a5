use queue_focus::json;
use queue_focus::json::Json;
use queue_focus::pick_style;
use queue_focus::settings::STYLE_DRAWS;
use queue_focus::settings::local_time_of_day;
use queue_focus::store;
use queue_focus::within_window;
use queue_focus::Bucket;
use queue_focus::FlashColor;
use queue_focus::FlashStyle;
use queue_focus::Hold;
use queue_focus::Intensity;
use queue_focus::Palette;
use queue_focus::Settings;
use queue_focus::Store;
use queue_focus::Tag;
use queue_focus::Theme;
use queue_focus::TimeOfDay;
use queue_focus::INTERVAL_MAX;
use queue_focus::INTERVAL_MIN;

fn at(hour: u32, minute: u32) -> TimeOfDay {
    TimeOfDay::new(hour, minute).unwrap()
}

/// The settings that an object holds, as they are before they are pulled into range.
fn read(text: &str) -> Settings {
    match json::parse(text).unwrap() {
        Json::Object(members) => Settings::from_members(&members, &Settings::default()).unwrap(),
        other => panic!("{other:?}"),
    }
}

#[test]
fn defaults_match_the_design() {
    let s = Settings::default();
    assert_eq!(s.interval_min, 15);
    assert!(s.vary);
    assert_eq!(s.intensity, Intensity::Normal);
    assert_eq!(s.color, FlashColor::Tag);
    assert!(s.quiet_paused);
    assert!(!s.quiet_hours);
    assert_eq!(s.quiet_from, at(9, 0));
    assert_eq!(s.quiet_to, at(18, 0));
    assert_eq!(s.theme, Theme::System);
    assert!(s.show_timer);
    assert_eq!(s.default_bucket, Bucket::Next);
}

#[test]
fn time_of_day_reads_and_writes_a_clock_face() {
    assert_eq!(at(9, 0).to_string(), "09:00");
    assert_eq!(at(23, 59).to_string(), "23:59");
    assert_eq!(TimeOfDay::parse("9:05"), Some(at(9, 5)));
    assert_eq!(TimeOfDay::parse(" 09:05 "), Some(at(9, 5)));
    assert_eq!(TimeOfDay::parse("24:00"), None);
    assert_eq!(TimeOfDay::parse("09:60"), None);
    assert_eq!(TimeOfDay::parse("0900"), None);
    assert_eq!(TimeOfDay::parse(""), None);
    assert_eq!(TimeOfDay::parse("09:-1"), None);
}

#[test]
fn every_clock_face_reads_back() {
    for hour in 0..24 {
        for minute in 0..60 {
            let t = at(hour, minute);
            assert_eq!(TimeOfDay::parse(&t.to_string()), Some(t));
            assert_eq!(t.hour() as u32, hour);
            assert_eq!(t.minute() as u32, minute);
        }
    }
    assert_eq!(TimeOfDay::new(24, 0), None);
    assert_eq!(TimeOfDay::new(0, 60), None);
    for other in ["+9:00", "9:+5", "9:5", "9 : 00", "009:00", "9:000", ":00", "9:05:00"] {
        assert_eq!(TimeOfDay::parse(other), None, "{other}");
    }
}

#[test]
fn a_window_covers_its_start_and_stops_before_its_end() {
    let (from, to) = (at(9, 0), at(18, 0));
    assert!(!within_window(at(8, 59), from, to));
    assert!(within_window(at(9, 0), from, to));
    assert!(within_window(at(17, 59), from, to));
    assert!(!within_window(at(18, 0), from, to), "the end is not inside");
}

#[test]
fn a_window_that_ends_before_it_starts_wraps_past_midnight() {
    let (from, to) = (at(22, 0), at(6, 0));
    assert!(within_window(at(22, 0), from, to));
    assert!(within_window(at(23, 59), from, to));
    assert!(within_window(at(0, 0), from, to));
    assert!(within_window(at(5, 59), from, to));
    assert!(!within_window(at(6, 0), from, to));
    assert!(!within_window(at(12, 0), from, to));
}

/// Sliding both ends together must not silence the reminder for good.
#[test]
fn a_window_with_both_ends_the_same_is_the_whole_day() {
    let both = at(9, 0);
    for hour in 0..24 {
        assert!(within_window(at(hour, 30), both, both), "{hour}:30");
    }
}

#[test]
fn nothing_in_now_holds_every_flash_back() {
    let s = Settings::default();
    assert_eq!(s.hold(None, at(12, 0)), Hold::NoCurrentTask);
    assert_eq!(Hold::NoCurrentTask.reason(), "nothing in Now");
}

#[test]
fn a_paused_timer_holds_flashes_back_only_when_asked() {
    let mut store = Store::new();
    store.add("a", Bucket::Now, None, false);
    assert!(store.toggle_pause());
    let mut s = Settings::default();

    assert_eq!(s.hold(store.current(), at(12, 0)), Hold::Paused);
    s.quiet_paused = false;
    assert_eq!(s.hold(store.current(), at(12, 0)), Hold::Nothing);
}

#[test]
fn quiet_hours_apply_only_when_switched_on() {
    let mut store = Store::new();
    store.add("a", Bucket::Now, None, false);
    let mut s = Settings::default();

    assert_eq!(s.hold(store.current(), at(3, 0)), Hold::Nothing);
    s.quiet_hours = true;
    assert_eq!(s.hold(store.current(), at(3, 0)), Hold::OutsideHours);
    assert_eq!(s.hold(store.current(), at(9, 0)), Hold::Nothing);
}

/// An empty Now is reported before the quieter reasons: it is the one the user can
/// act on.
#[test]
fn an_empty_now_outranks_the_quiet_rules() {
    let s = Settings {
        quiet_hours: true,
        ..Settings::default()
    };
    assert_eq!(s.hold(None, at(3, 0)), Hold::NoCurrentTask);
}

#[test]
fn a_hold_says_why() {
    assert!(Hold::Nothing.is_none());
    assert!(!Hold::Paused.is_none());
    assert_eq!(Hold::Nothing.reason(), "");
    assert_eq!(Hold::Paused.reason(), "the timer is paused");
    assert_eq!(Hold::OutsideHours.reason(), "outside the chosen hours");
}

#[test]
fn a_fixed_flash_is_always_the_same_one() {
    for random in 0..12 {
        assert_eq!(pick_style(false, None, random), FlashStyle::Edges);
        assert_eq!(
            pick_style(false, Some(FlashStyle::Edges), random),
            FlashStyle::Edges
        );
    }
}

#[test]
fn a_varied_flash_never_repeats_the_one_before_it_and_reaches_them_all() {
    for last in FlashStyle::ALL {
        let mut seen = Vec::new();
        for random in 0..5 {
            let style = pick_style(true, Some(last), random);
            assert_ne!(style, last, "repeated {}", last.as_str());
            seen.push(style);
        }
        assert_eq!(seen.len(), 5);
        for style in FlashStyle::ALL.into_iter().filter(|s| *s != last) {
            assert!(seen.contains(&style), "{} unreachable", style.as_str());
        }
    }
    // With nothing to avoid, all six are reachable.
    let first: Vec<FlashStyle> = (0..6).map(|r| pick_style(true, None, r)).collect();
    for style in FlashStyle::ALL {
        assert!(first.contains(&style), "{} unreachable", style.as_str());
    }
}

#[test]
fn every_style_is_drawn_as_often_as_any_other() {
    let count = |last: Option<FlashStyle>, style: FlashStyle| {
        (0..STYLE_DRAWS)
            .filter(|random| pick_style(true, last, *random) == style)
            .count()
    };
    for style in FlashStyle::ALL {
        assert_eq!(count(None, style), 5);
        for last in FlashStyle::ALL {
            let wanted = if style == last { 0 } else { 6 };
            assert_eq!(count(Some(last), style), wanted);
        }
    }
}

#[test]
fn a_random_number_picks_by_its_place() {
    assert_eq!(pick_style(true, None, 8), FlashStyle::Edges);
    assert_eq!(
        pick_style(true, Some(FlashStyle::Edges), 7),
        FlashStyle::EdgesSoft
    );
    assert_eq!(
        pick_style(true, Some(FlashStyle::Wash), u32::MAX),
        FlashStyle::Wash2
    );
}

#[test]
fn the_palette_follows_the_tag_unless_a_colour_was_chosen() {
    assert_eq!(FlashColor::Tag.palette(None), Palette::Blue);
    assert_eq!(FlashColor::Tag.palette(Some(Tag::Work)), Palette::Blue);
    assert_eq!(
        FlashColor::Tag.palette(Some(Tag::Personal)),
        Palette::Orange
    );
    assert_eq!(FlashColor::Blue.palette(Some(Tag::Personal)), Palette::Blue);
    assert_eq!(FlashColor::Orange.palette(Some(Tag::Work)), Palette::Orange);
}

/// The extension switches on these exact strings, and settings.json holds them. The
/// name that is written and the name that is read have to agree.
#[test]
fn wire_names_are_the_ones_both_ends_agree_on() {
    for value in FlashStyle::ALL {
        let json = json::print(Json::Text(value.as_str().to_string()));
        assert_eq!(json, format!("\"{}\"", value.as_str()));
        assert_eq!(FlashStyle::from_json(&json::parse(&json).unwrap()).unwrap(), value);
    }
    for value in Intensity::ALL {
        let json = json::print(Json::Text(value.as_str().to_string()));
        assert_eq!(json, format!("\"{}\"", value.as_str()));
        assert_eq!(Intensity::from_json(&json::parse(&json).unwrap()).unwrap(), value);
    }
    for value in FlashColor::ALL {
        let json = json::print(Json::Text(value.as_str().to_string()));
        assert_eq!(json, format!("\"{}\"", value.as_str()));
        assert_eq!(FlashColor::from_json(&json::parse(&json).unwrap()).unwrap(), value);
    }
    for value in Theme::ALL {
        let json = json::print(Json::Text(value.as_str().to_string()));
        assert_eq!(json, format!("\"{}\"", value.as_str()));
        assert_eq!(Theme::from_json(&json::parse(&json).unwrap()).unwrap(), value);
    }

    // The six style names, spelled out once so a rename has to be deliberate.
    let names: Vec<&str> = FlashStyle::ALL.iter().map(|s| s.as_str()).collect();
    assert_eq!(
        names,
        [
            "wash",
            "wash2",
            "edges",
            "edgesSoft",
            "topbar",
            "topbarBeam"
        ]
    );
    assert!(FlashStyle::from_json(&json::parse("\"nonsense\"").unwrap()).is_err());
}

#[test]
fn a_patch_naming_several_keys_is_refused_whole_when_one_is_wrong() {
    let mut s = Settings::default();
    let before = s.clone();
    assert!(s
        .apply_patch(r#"{"intensity":"strong","vary":false,"theme":"puce"}"#)
        .is_err());
    assert_eq!(s, before, "the good keys did not slip through");
}

#[test]
fn settings_round_trip_through_json() {
    let s = Settings {
        interval_min: 42,
        color: FlashColor::Orange,
        quiet_hours: true,
        quiet_from: at(22, 0),
        quiet_to: at(6, 30),
        theme: Theme::Dark,
        default_bucket: Bucket::Side,
        ..Settings::default()
    };

    let json = s.to_json();
    assert!(json.contains("\"quiet_from\":\"22:00\""), "{json}");
    assert!(json.contains("\"quiet_to\":\"06:30\""), "{json}");
    assert_eq!(read(&json), s);
}

#[test]
fn settings_are_written_in_the_order_of_their_fields() {
    assert_eq!(
        Settings::default().to_json(),
        "{\"interval_min\":15,\"vary\":true,\"intensity\":\"normal\",\"color\":\"tag\",\
         \"quiet_paused\":true,\"quiet_hours\":false,\"quiet_from\":\"09:00\",\
         \"quiet_to\":\"18:00\",\"theme\":\"system\",\"show_timer\":true,\
         \"default_bucket\":\"next\"}"
    );
}

#[test]
fn a_file_from_an_older_version_keeps_the_defaults_it_does_not_mention() {
    let s = read(r#"{"interval_min":5,"vary":false}"#);
    assert_eq!(s.interval_min, 5);
    assert!(!s.vary);
    assert_eq!(s.theme, Theme::System);
    assert_eq!(s.quiet_from, at(9, 0));
    // A key from a newer version is ignored rather than fatal.
    let s = read(r#"{"interval_min":7,"whats_this":1}"#);
    assert_eq!(s.interval_min, 7);
}

#[test]
fn a_hand_edited_interval_is_pulled_back_into_range() {
    let mut s = read(r#"{"interval_min":0}"#);
    s.sanitize();
    assert_eq!(s.interval_min, INTERVAL_MIN);
    let mut s = read(r#"{"interval_min":100000}"#);
    s.sanitize();
    assert_eq!(s.interval_min, INTERVAL_MAX);
    assert_eq!(s.interval_secs(), INTERVAL_MAX as u64 * 60);
}

#[test]
fn a_patch_changes_only_the_keys_it_names() {
    let mut s = Settings::default();
    s.apply_patch(r#"{"intensity":"strong","interval_min":3}"#)
        .unwrap();
    assert_eq!(s.intensity, Intensity::Strong);
    assert_eq!(s.interval_min, 3);
    assert!(s.vary, "untouched");
    assert_eq!(s.quiet_to, at(18, 0), "untouched");
}

#[test]
fn a_patch_is_refused_whole_when_any_of_it_is_wrong() {
    let mut s = Settings::default();
    for bad in [
        r#"{"intensity":"loud"}"#,
        r#"{"quiet_from":"9am"}"#,
        r#"{"nonsense":true}"#,
        r#"{"vary":"yes"}"#,
        r#"["intensity","strong"]"#,
        r#"not json"#,
    ] {
        assert!(s.apply_patch(bad).is_err(), "{bad}");
        assert_eq!(s, Settings::default(), "{bad} changed something");
    }
}

#[test]
fn a_patched_interval_is_clamped_like_a_loaded_one() {
    let mut s = Settings::default();
    s.apply_patch(r#"{"interval_min":9000}"#).unwrap();
    assert_eq!(s.interval_min, INTERVAL_MAX);
}

#[test]
fn a_refused_patch_says_why() {
    let cases = [
        (
            r#"{"intensity":"loud"}"#,
            "bad setting value: intensity: unknown variant `loud`, expected one of `subtle`, `normal`, `strong`",
        ),
        (
            r#"{"quiet_from":"9am"}"#,
            "bad setting value: quiet_from: invalid value: string \"9am\", expected a time like \"09:00\"",
        ),
        (r#"{"zzz":1,"nonsense":true}"#, "unknown setting: nonsense"),
        (
            r#"{"vary":"yes"}"#,
            "bad setting value: vary: invalid type: string \"yes\", expected a boolean",
        ),
        (
            r#"{"interval_min":-1}"#,
            "bad setting value: interval_min: invalid value: integer `-1`, expected u32",
        ),
        (
            r#"{"interval_min":4294967296}"#,
            "bad setting value: interval_min: invalid value: integer `4294967296`, expected u32",
        ),
        (
            r#"{"interval_min":1.5}"#,
            "bad setting value: interval_min: invalid type: floating point `1.5`, expected u32",
        ),
        (
            r#"{"interval_min":null}"#,
            "bad setting value: interval_min: invalid type: null, expected u32",
        ),
        (
            r#"{"vary":[],"color":1}"#,
            "bad setting value: color: invalid type: integer `1`, expected string or map",
        ),
        (
            r#"{"theme":{"dark":1}}"#,
            "bad setting value: theme: invalid type: integer `1`, expected unit",
        ),
        (
            r#"{"theme":{}}"#,
            "bad setting value: theme: invalid value: map, expected map with a single key",
        ),
        (
            r#"{"quiet_to":true}"#,
            "bad setting value: quiet_to: invalid type: boolean `true`, expected a string",
        ),
        (
            r#"["intensity","strong"]"#,
            "settings patch is not a JSON object",
        ),
        (
            "not json",
            "settings patch is not JSON: expected ident at line 1 column 2",
        ),
    ];
    for (patch, words) in cases {
        let mut s = Settings::default();
        assert_eq!(s.apply_patch(patch).unwrap_err(), words, "{patch}");
    }
    // An object of one member with null stands for its key.
    let mut s = Settings::default();
    s.apply_patch(r#"{"theme":{"dark":null}}"#).unwrap();
    assert_eq!(s.theme, Theme::Dark);
}

#[test]
fn a_patch_that_was_read_applies_like_its_text() {
    let mut s = Settings::default();
    let patch = Json::Object(vec![("vary".to_string(), Json::Bool(false))]);
    s.apply_parsed(Ok(patch)).unwrap();
    assert!(!s.vary);
    assert_eq!(
        s.apply_parsed(Err("why".to_string())).unwrap_err(),
        "settings patch is not JSON: why"
    );
    assert_eq!(
        s.apply_parsed(Ok(Json::Null)).unwrap_err(),
        "settings patch is not a JSON object"
    );
}

#[test]
fn a_clock_that_cannot_be_read_is_taken_for_midday() {
    assert_eq!(local_time_of_day(None), at(12, 0));
    assert_eq!(local_time_of_day(Some((24, 0))), at(12, 0));
    assert_eq!(local_time_of_day(Some((7, 5))), at(7, 5));
}

#[test]
fn labels_are_what_the_buttons_say() {
    assert_eq!(Intensity::Subtle.label(), "subtle");
    assert_eq!(FlashColor::Tag.label(), "follow tag");
    assert_eq!(FlashColor::Blue.label(), "blue");
    assert_eq!(Theme::Dark.label(), "Dark");
    assert_eq!(Palette::Orange.as_str(), "orange");
    assert_eq!(Intensity::default(), Intensity::Normal);
    assert_eq!(FlashColor::default(), FlashColor::Tag);
    assert_eq!(Theme::default(), Theme::System);
    assert_eq!(FlashStyle::FIXED, FlashStyle::Edges);
}

#[test]
fn saved_settings_load_as_they_were() {
    let s = Settings {
        interval_min: 25,
        theme: Theme::Dark,
        ..Settings::default()
    };
    let bytes = store::save_settings(&s);
    assert_eq!(store::load_settings("settings.json", Some(&bytes)).unwrap(), s);
}
