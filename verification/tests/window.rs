use queue_focus::change::adjusted_drop_index;
use queue_focus::change::complete_task;
use queue_focus::change::Change;
use queue_focus::change::Effect;
use queue_focus::keys::entry_key;
use queue_focus::keys::is_submitted;
use queue_focus::keys::on_key;
use queue_focus::keys::quick_key;
use queue_focus::keys::toggle;
use queue_focus::keys::Act;
use queue_focus::keys::EntryAct;
use queue_focus::keys::Key;
use queue_focus::rows::chip_label;
use queue_focus::rows::later_caret;
use queue_focus::rows::pause_icon;
use queue_focus::rows::pause_tip;
use queue_focus::rows::task_menu;
use queue_focus::rows::tint;
use queue_focus::rows::window_tag;
use queue_focus::rows::Banner;
use queue_focus::rows::MenuItem;
use queue_focus::rows::Rebuild;
use queue_focus::rows::Rename;
use queue_focus::rows::Row;
use queue_focus::ui::fmt_elapsed;
use queue_focus::ui::focus_relative;
use queue_focus::ui::refocus;
use queue_focus::ui::row_id;
use queue_focus::ui::row_name;
use queue_focus::ui::timer_label_at;
use queue_focus::ui::visible_rows;
use queue_focus::ui::visual_index;
use queue_focus::ui::ListPlan;
use queue_focus::ui::Page;
use queue_focus::ui::RowStyle;
use queue_focus::ui::Section;
use queue_focus::Bucket;
use queue_focus::Store;
use queue_focus::Tag;

fn ids(store: &Store, bucket: Bucket) -> Vec<u64> {
    store.in_bucket(bucket).iter().map(|task| task.id).collect()
}

#[test]
fn elapsed_format() {
    assert_eq!(fmt_elapsed(0), "00:00");
    assert_eq!(fmt_elapsed(65), "01:05");
    assert_eq!(fmt_elapsed(762), "12:42");
    assert_eq!(fmt_elapsed(3600), "1:00:00");
    assert_eq!(fmt_elapsed(3725), "1:02:05");
}

#[test]
fn completing_current_from_main_window_pulls_next() {
    let mut store = Store::new();
    let now = store.add("now", Bucket::Now, None, false);
    let next = store.add("next", Bucket::Next, None, false);

    assert!(complete_task(&mut store, now));
    assert_eq!(store.current().map(|task| task.id), Some(next));
}

#[test]
fn downward_drop_uses_post_removal_index() {
    let mut store = Store::new();
    let a = store.add("a", Bucket::Next, None, false);
    let b = store.add("b", Bucket::Next, None, false);
    let c = store.add("c", Bucket::Next, None, false);

    let index = adjusted_drop_index(&store, a, Bucket::Next, Some(2));
    assert!(store.move_to(a, Bucket::Next, index));

    assert_eq!(ids(&store, Bucket::Next), vec![b, a, c]);
}

/// The queue page lists the tail of Now under Next, so a drop there is offset past
/// the banner's task and can never displace it.
#[test]
fn dropping_into_the_now_tail_never_displaces_the_current_task() {
    let mut store = Store::new();
    let current = store.add("current", Bucket::Now, None, false);
    let queued = store.add("queued", Bucket::Now, None, false);
    let other = store.add("other", Bucket::Next, None, false);

    // Row 0 of the tail list is store index 1: one past the current task.
    let head_offset = 1;
    let index = adjusted_drop_index(&store, other, Bucket::Now, Some(head_offset));
    assert!(store.move_to(other, Bucket::Now, index));

    assert_eq!(ids(&store, Bucket::Now), vec![current, other, queued]);
    assert_eq!(store.current().map(|t| t.id), Some(current));
}

#[test]
fn a_drop_elsewhere_keeps_its_index() {
    let mut store = Store::new();
    let a = store.add("a", Bucket::Next, None, false);
    let b = store.add("b", Bucket::Next, None, false);
    assert_eq!(adjusted_drop_index(&store, b, Bucket::Next, Some(0)), Some(0));
    assert_eq!(adjusted_drop_index(&store, a, Bucket::Side, Some(3)), Some(3));
    assert_eq!(adjusted_drop_index(&store, a, Bucket::Next, None), None);
    assert_eq!(adjusted_drop_index(&store, 99, Bucket::Next, Some(2)), Some(2));
}

#[test]
fn a_drop_on_the_tail_of_now_counts_the_banner() {
    let lists = ListPlan::all();
    assert_eq!(lists[1].drop_on(7, Some(0)), Change::Drop(7, Bucket::Now, Some(1)));
    assert_eq!(lists[2].drop_on(7, Some(0)), Change::Drop(7, Bucket::Next, Some(0)));
    assert_eq!(lists[1].drop_on(7, None), Change::Drop(7, Bucket::Now, None));
}

#[test]
fn pages_have_names_and_sizes() {
    assert_eq!(Page::parse("board"), Page::Board);
    assert_eq!(Page::parse("queue"), Page::Queue);
    assert_eq!(Page::parse("Board"), Page::Queue);
    for page in [Page::Queue, Page::Board] {
        assert_eq!(Page::parse(page.name()), page);
    }
    assert_eq!(Page::Queue.window_size(), (400, 640));
    assert_eq!(Page::Board.window_size(), (1040, 640));
}

#[test]
fn rows_carry_their_task_in_their_name() {
    assert_eq!(row_name(17), "task-17");
    for id in [0, 9, 10, u64::MAX] {
        assert_eq!(row_id(&row_name(id)), Some(id));
    }
    assert_eq!(row_id("banner"), None);
    assert_eq!(row_id("task-"), None);
    assert_eq!(row_id("task-x"), None);
    assert_eq!(row_id("task"), None);
}

fn four_buckets() -> Store {
    let mut store = Store::new();
    store.add_at("1 now", Bucket::Now, Some(Tag::Work), false, 1, 10);
    store.add_at("2 tail", Bucket::Now, None, false, 1, 10);
    store.add_at("3 side", Bucket::Side, None, false, 1, 10);
    store.add_at("4 next", Bucket::Next, None, false, 1, 10);
    store.add_at("5 later", Bucket::Later, None, false, 1, 10);
    store
}

#[test]
fn the_pages_show_their_tasks_in_visual_order() {
    let store = four_buckets();
    assert_eq!(visible_rows(&store, Page::Queue, false), vec![1, 3, 2, 4]);
    assert_eq!(visible_rows(&store, Page::Queue, true), vec![1, 3, 2, 4, 5]);
    assert_eq!(visible_rows(&store, Page::Board, false), vec![1, 2, 3, 4, 5]);
    assert!(visible_rows(&Store::new(), Page::Queue, true).is_empty());
}

#[test]
fn every_task_is_counted_in_one_section() {
    let store = four_buckets();
    let counts: Vec<usize> = Section::all().iter().map(|s| s.count(&store)).collect();
    assert_eq!(counts, vec![1, 2, 1, 2, 1, 1, 1]);
    let tail: Vec<u64> = ListPlan::all()[1].tasks(&store).iter().map(|t| t.id).collect();
    assert_eq!(tail, vec![2]);
    assert!(Section::all().iter().all(|s| s.count(&Store::new()) == 0));
}

#[test]
fn the_focus_moves_between_the_first_row_and_the_last() {
    assert_eq!(focus_relative(0, None, 1), None);
    assert_eq!(focus_relative(3, None, 1), Some(0));
    assert_eq!(focus_relative(3, Some(0), 1), Some(1));
    assert_eq!(focus_relative(3, Some(2), 1), Some(2));
    assert_eq!(focus_relative(3, Some(0), -1), Some(0));
    assert_eq!(focus_relative(3, Some(2), i32::MIN), Some(0));
    assert_eq!(focus_relative(3, Some(0), i32::MAX), Some(2));
}

#[test]
fn the_focus_stays_with_its_task_or_its_place() {
    let rows = vec![4, 7, 9];
    assert_eq!(refocus(&rows, Some(7), 0), Some(1));
    assert_eq!(refocus(&rows, Some(8), 2), Some(2));
    assert_eq!(refocus(&rows, Some(8), 5), Some(2));
    assert_eq!(refocus(&rows, None, 1), Some(1));
    assert_eq!(refocus(&vec![], Some(8), 1), None);
    assert_eq!(visual_index(&rows, 9), 2);
    assert_eq!(visual_index(&rows, 8), 0);
}

#[test]
fn the_timer_shows_the_current_task() {
    let store = four_buckets();
    assert_eq!(timer_label_at(&store, 75), "01:05");
    assert_eq!(timer_label_at(&Store::new(), 75), "");
}

#[test]
fn keys_do_what_the_cheat_sheet_says() {
    let key = |c: char| on_key(Key::Char(c), false, false, Some(3), Some(1));
    assert_eq!(key('j'), Act::FocusBy(1));
    assert_eq!(key('k'), Act::FocusBy(-1));
    assert_eq!(key('J'), Act::Shift(3, 1));
    assert_eq!(key('K'), Act::Shift(3, -1));
    assert_eq!(key('d'), Act::Done(3));
    assert_eq!(key('x'), Act::Done(3));
    assert_eq!(key('1'), Act::Promote(3));
    assert_eq!(key('2'), Act::MoveTo(3, Bucket::Next));
    assert_eq!(key('3'), Act::MoveTo(3, Bucket::Later));
    assert_eq!(key('4'), Act::MoveTo(3, Bucket::Side));
    assert_eq!(key('t'), Act::CycleTag(3));
    assert_eq!(key('p'), Act::TogglePause);
    assert_eq!(key('r'), Act::BeginRename(3));
    assert_eq!(key('l'), Act::ToggleLater);
    assert_eq!(key('n'), Act::FocusEntry);
    assert_eq!(key('/'), Act::FocusEntry);
    assert_eq!(key('a'), Act::FocusEntry);
    assert_eq!(key('?'), Act::ToggleShortcuts);
    assert_eq!(key('q'), Act::ShowPage(Page::Queue));
    assert_eq!(key('b'), Act::ShowPage(Page::Board));
    assert_eq!(key('z'), Act::Pass);
    assert_eq!(on_key(Key::Escape, false, false, None, None), Act::Hide);
    assert_eq!(on_key(Key::Delete, false, false, Some(3), None), Act::Done(3));
    assert_eq!(on_key(Key::F2, false, false, Some(3), None), Act::BeginRename(3));
    assert_eq!(on_key(Key::Enter, false, false, Some(3), None), Act::Pass);
}

#[test]
fn keys_fall_back_to_the_current_task_and_respect_an_entry() {
    assert_eq!(on_key(Key::Char('d'), false, false, None, Some(1)), Act::Done(1));
    assert_eq!(on_key(Key::Char('d'), false, false, None, None), Act::Pass);
    assert_eq!(on_key(Key::Char('r'), false, false, None, None), Act::Ignore);
    assert_eq!(on_key(Key::Char('d'), false, true, Some(3), None), Act::Pass);
    assert_eq!(
        on_key(Key::Char('2'), true, true, Some(3), None),
        Act::ShowPage(Page::Board)
    );
    assert_eq!(
        on_key(Key::Char('1'), true, false, Some(3), None),
        Act::ShowPage(Page::Queue)
    );
    assert_eq!(on_key(Key::Char('w'), true, false, None, None), Act::Hide);
    assert_eq!(on_key(Key::Char('q'), true, false, None, None), Act::Hide);
    assert_eq!(on_key(Key::Char('d'), true, false, Some(3), None), Act::Pass);
}

#[test]
fn acts_on_a_task_are_changes() {
    assert_eq!(Act::Done(3).change(), Some(Change::Done(3)));
    assert_eq!(
        Act::MoveTo(3, Bucket::Side).change(),
        Some(Change::Move(3, Bucket::Side, None))
    );
    assert_eq!(Act::Shift(3, -1).change(), Some(Change::Shift(3, -1)));
    assert_eq!(Act::Remove(3).change(), Some(Change::Remove(3)));
    assert_eq!(Act::TogglePause.change(), Some(Change::TogglePause));
    assert_eq!(Act::Hide.change(), None);
    assert_eq!(Act::BeginRename(3).change(), None);
}

#[test]
fn entries_add_to_now_with_control() {
    assert_eq!(entry_key(Key::Enter, true, false), EntryAct::Submit(Bucket::Now));
    assert_eq!(entry_key(Key::Enter, false, false), EntryAct::Pass);
    assert_eq!(entry_key(Key::Escape, false, false), EntryAct::Clear);
    assert_eq!(entry_key(Key::Escape, false, true), EntryAct::FocusRows);
    assert_eq!(entry_key(Key::Char('j'), false, true), EntryAct::Pass);
    assert_eq!(quick_key(Key::Enter, true), EntryAct::Submit(Bucket::Now));
    assert_eq!(quick_key(Key::Escape, false), EntryAct::Close);
    assert_eq!(quick_key(Key::Enter, false), EntryAct::Pass);
    assert!(is_submitted(Some(Effect::Added(1))));
    assert!(!is_submitted(Some(Effect::Refused)));
    assert!(!is_submitted(None));
    assert_eq!(toggle(true, true), Act::Hide);
    assert_eq!(toggle(true, false), Act::ShowPage(Page::Queue));
}

#[test]
fn the_banner_stands_in_for_the_current_task() {
    let mut store = four_buckets();
    assert_eq!(
        Banner::new(store.current(), None, Page::Queue),
        Banner::Current {
            id: 1,
            name: "task-1".to_string(),
            title: "1 now".to_string(),
            tag: Some(Tag::Work),
            paused: false,
            renaming: false,
        }
    );
    assert!(store.toggle_pause_at(20));
    match Banner::new(store.current(), Some(1), Page::Queue) {
        Banner::Current { paused, renaming, .. } => assert!(paused && renaming),
        Banner::Empty => panic!("there is a current task"),
    }
    match Banner::new(store.current(), Some(1), Page::Board) {
        Banner::Current { renaming, .. } => assert!(!renaming),
        Banner::Empty => panic!("there is a current task"),
    }
    assert_eq!(Banner::new(None, Some(1), Page::Queue), Banner::Empty);
    assert_eq!(pause_icon(true), "media-playback-start-symbolic");
    assert_eq!(pause_icon(false), "media-playback-pause-symbolic");
    assert_eq!(pause_tip(true), "Resume (p)");
    assert_eq!(pause_tip(false), "Pause (p)");
    assert_eq!(chip_label(Tag::Work), "W");
    assert_eq!(chip_label(Tag::Personal), "P");
    assert_eq!(window_tag(&store), Some(Tag::Work));
    assert_eq!(window_tag(&Store::new()), None);
    assert_eq!(tint(Tag::Work), "tag-work");
    assert_eq!(tint(Tag::Personal), "tag-personal");
    assert_eq!(later_caret(true), "pan-down-symbolic");
    assert_eq!(later_caret(false), "pan-end-symbolic");
}

#[test]
fn a_row_carries_the_furniture_of_its_list() {
    let store = four_buckets();
    let task = store.get(5).unwrap();
    let row = Row::new(task, false, RowStyle::Later, Page::Queue, Page::Queue, None);
    assert_eq!(row.name, "task-5");
    assert_eq!(row.title, "5 later");
    assert!(row.activatable && row.promote_button && row.next_button);
    assert!(!row.wraps && !row.renaming && !row.current);

    let row = Row::new(task, false, RowStyle::Queue, Page::Queue, Page::Queue, Some(5));
    assert!(row.renaming && !row.activatable && row.promote_button && !row.next_button);

    let task = store.get(1).unwrap();
    let row = Row::new(task, true, RowStyle::Board, Page::Board, Page::Queue, Some(1));
    assert!(row.current && row.wraps && row.activatable && !row.renaming);
    assert!(!row.promote_button && !row.next_button);
    assert_eq!(row.tag, Some(Tag::Work));
}

#[test]
fn a_menu_mirrors_the_keys() {
    let labels = |items: Vec<MenuItem>| -> Vec<String> {
        items
            .into_iter()
            .map(|item| match item {
                MenuItem::Separator => "-".to_string(),
                MenuItem::Entry { label, accel, destructive, .. } => {
                    format!("{label}|{accel}|{destructive}")
                }
            })
            .collect()
    };
    assert_eq!(
        labels(task_menu(3, false, Bucket::Side)),
        vec![
            "Make current|⏎|false",
            "Cycle tag|t|false",
            "Done|d|false",
            "-",
            "Move to Now||false",
            "Move to Next||false",
            "Move to Later||false",
            "-",
            "Rename…|r|false",
            "Delete||true",
        ]
    );
    let items = task_menu(3, true, Bucket::Now);
    assert_eq!(items.len(), 9);
    match &items[3] {
        MenuItem::Entry { label, act, .. } => {
            assert_eq!(label, "Move to Side");
            assert_eq!(*act, Act::MoveTo(3, Bucket::Side));
        }
        MenuItem::Separator => panic!("a move stands here"),
    }
}

#[test]
fn a_rename_starts_ends_and_is_forgotten() {
    let mut store = four_buckets();
    let mut rename = Rename::new();
    assert_eq!(rename.begin(&store, 99, Page::Queue), None);
    assert_eq!(rename.begin(&store, 5, Page::Board), Some(false));
    assert_eq!(rename.begin(&store, 5, Page::Queue), Some(true));
    assert_eq!(rename.id, Some(5));
    assert_eq!(rename.text, "5 later");
    assert!(rename.take_fresh());
    assert!(!rename.take_fresh());

    assert!(!rename.cancel(true), "the row is only being rebuilt");
    assert_eq!(rename.id, Some(5));
    assert!(rename.cancel(false));
    assert!(!rename.cancel(false));

    rename.begin(&store, 5, Page::Queue);
    assert!(!rename.lose_focus(false, true, false), "another window has the focus");
    assert!(!rename.lose_focus(true, false, false), "the window is hidden");
    assert!(!rename.lose_focus(true, true, true), "the row is only being rebuilt");
    assert_eq!(rename.id, Some(5));
    assert!(rename.lose_focus(true, true, false));
    assert_eq!(rename.id, None);
    assert!(!rename.lose_focus(true, true, false));

    rename.begin(&store, 3, Page::Queue);
    assert!(rename.commit(3));
    assert!(!rename.commit(3));

    rename.begin(&store, 3, Page::Queue);
    rename.keep_for(&store);
    assert_eq!(rename.id, Some(3));
    store.remove(3);
    rename.keep_for(&store);
    assert_eq!(rename.id, None);
}

#[test]
fn rebuilds_do_not_run_inside_one_another() {
    let mut gate = Rebuild::new();
    assert!(gate.begin());
    assert!(!gate.begin());
    assert!(gate.finish(), "a change arrived meanwhile");
    assert!(gate.begin());
    assert!(!gate.finish());
}
