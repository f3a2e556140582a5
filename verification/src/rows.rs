//! The banner, the rows and their menus, and renaming in place.

use crate::keys::Act;
use crate::model::Bucket;
use crate::model::Tag;
use crate::model::Task;
use crate::queue::Store;
use crate::text;
use crate::ui;
use crate::ui::row_name;
use crate::ui::Page;
use crate::ui::RowStyle;
use vstd::prelude::*;

verus! {

// ---- the banner ----------------------------------------------------------------------

/// The band of the current task: the one task you are doing right now.
#[derive(Debug, PartialEq, Eq)]
pub enum Banner {
    /// Not a task, so not a stop for the keyboard either.
    Empty,
    Current {
        id: u64,
        /// The banner stands in for the current task's row, so it has its name.
        name: String,
        title: String,
        tag: Option<Tag>,
        paused: bool,
        /// Whether the title is being edited here.
        renaming: bool,
    },
}

impl Banner {
    /// The banner for the current task. A title is edited here where the queue page
    /// is the one that is shown.
    pub fn new(current: Option<&Task>, renaming: Option<u64>, page: Page) -> (banner: Banner)
        ensures
            match (banner, current) {
                (Banner::Empty, None) => true,
                (Banner::Current { id, name, title, tag, paused, renaming: editing }, Some(t)) => {
                    &&& id == t@.id
                    &&& name@ == ui::name_of_row(t@.id)
                    &&& title@ == t@.title
                    &&& tag == t@.tag
                    &&& paused == t@.paused()
                    &&& editing == (renaming == Some(t@.id) && page == Page::Queue)
                },
                _ => false,
            },
    {
        match current {
            None => Banner::Empty,
            Some(task) => {
                let here: bool = match renaming {
                    Some(id) => id == task.id,
                    None => false,
                };
                Banner::Current {
                    id: task.id,
                    name: row_name(task.id),
                    title: task.title.clone(),
                    tag: task.tag,
                    paused: task.is_paused(),
                    renaming: here && page == Page::Queue,
                }
            },
        }
    }
}

/// The icon of the button that pauses and resumes.
pub fn pause_icon(paused: bool) -> (s: &'static str)
    ensures
        s@ == (if paused {
            "media-playback-start-symbolic"@
        } else {
            "media-playback-pause-symbolic"@
        }),
{
    if paused {
        "media-playback-start-symbolic"
    } else {
        "media-playback-pause-symbolic"
    }
}

/// What that button says.
pub fn pause_tip(paused: bool) -> (s: &'static str)
    ensures
        s@ == (if paused {
            "Resume (p)"@
        } else {
            "Pause (p)"@
        }),
{
    if paused {
        "Resume (p)"
    } else {
        "Pause (p)"
    }
}

/// The letter of a tag's chip.
pub fn chip_label(tag: Tag) -> (s: &'static str)
    ensures
        s@ == (match tag {
            Tag::Work => "W"@,
            Tag::Personal => "P"@,
        }),
{
    match tag {
        Tag::Work => "W",
        Tag::Personal => "P",
    }
}

/// The class that tints the window with a tag.
pub fn tint(tag: Tag) -> (s: &'static str)
    ensures
        s@ == "tag-"@ + tag.name(),
{
    proof {
        reveal_strlit("tag-");
        reveal_strlit("work");
        reveal_strlit("personal");
        reveal_strlit("tag-work");
        reveal_strlit("tag-personal");
        assert("tag-work"@ =~= "tag-"@ + "work"@);
        assert("tag-personal"@ =~= "tag-"@ + "personal"@);
    }
    match tag {
        Tag::Work => "tag-work",
        Tag::Personal => "tag-personal",
    }
}

/// The tag that the window is tinted with: that of the current task.
pub fn window_tag(store: &Store) -> (tag: Option<Tag>)
    ensures
        tag == (match store@.current() {
            Some(t) => t.tag,
            None => None,
        }),
{
    match store.current() {
        Some(task) => task.tag,
        None => None,
    }
}

/// The caret of the Later shelf.
pub fn later_caret(open: bool) -> (s: &'static str)
    ensures
        s@ == (if open {
            "pan-down-symbolic"@
        } else {
            "pan-end-symbolic"@
        }),
{
    if open {
        "pan-down-symbolic"
    } else {
        "pan-end-symbolic"
    }
}

// ---- rows ----------------------------------------------------------------------------

/// The row of a task in a list.
#[derive(Debug, PartialEq, Eq)]
pub struct Row {
    pub id: u64,
    pub name: String,
    pub title: String,
    /// Whether a double click makes the task current.
    pub activatable: bool,
    pub current: bool,
    /// Whether the title is being edited in this row.
    pub renaming: bool,
    /// Whether a long title goes over several lines.
    pub wraps: bool,
    pub tag: Option<Tag>,
    /// Whether the row carries a button that makes the task current.
    pub promote_button: bool,
    /// Whether the row carries a button that moves the task to Next.
    pub next_button: bool,
}

impl Row {
    /// The row of a task. Both pages hold a row per task, but only the one that is
    /// shown may host the editor, and a double click in the editor must not make
    /// the task current.
    pub fn new(
        task: &Task,
        current: bool,
        style: RowStyle,
        page: Page,
        shown: Page,
        renaming: Option<u64>,
    ) -> (row: Row)
        ensures
            row.id == task@.id,
            row.name@ == ui::name_of_row(task@.id),
            row.title@ == task@.title,
            row.tag == task@.tag,
            row.current == current,
            row.renaming == (renaming == Some(task@.id) && page == shown),
            row.activatable == !row.renaming,
            row.wraps == (style == RowStyle::Board),
            row.promote_button == (style != RowStyle::Board && !current),
            row.next_button == (style == RowStyle::Later),
    {
        let here: bool = match renaming {
            Some(id) => id == task.id,
            None => false,
        };
        let editing: bool = here && page == shown;
        Row {
            id: task.id,
            name: row_name(task.id),
            title: task.title.clone(),
            activatable: !editing,
            current,
            renaming: editing,
            wraps: style == RowStyle::Board,
            tag: task.tag,
            promote_button: style != RowStyle::Board && !current,
            next_button: style == RowStyle::Later,
        }
    }
}

// ---- menus ---------------------------------------------------------------------------

/// One line of a task's menu.
#[derive(Debug, PartialEq, Eq)]
pub enum MenuItem {
    Separator,
    Entry {
        label: String,
        /// The key that does the same, empty where none does.
        accel: &'static str,
        destructive: bool,
        act: Act,
    },
}

/// What a `MenuItem` holds.
#[verifier::ext_equal]
pub enum MenuView {
    Separator,
    Entry { label: Seq<char>, accel: Seq<char>, destructive: bool, act: Act },
}

impl View for MenuItem {
    type V = MenuView;

    open spec fn view(&self) -> MenuView {
        match self {
            MenuItem::Separator => MenuView::Separator,
            MenuItem::Entry { label, accel, destructive, act } => MenuView::Entry {
                label: label@,
                accel: accel@,
                destructive: *destructive,
                act: *act,
            },
        }
    }
}

pub open spec fn menu_views(items: Seq<MenuItem>) -> Seq<MenuView> {
    items.map_values(|i: MenuItem| i@)
}

/// The buckets in the order in which the board and the menus show them.
pub open spec fn shown_order() -> Seq<Bucket> {
    seq![Bucket::Now, Bucket::Side, Bucket::Next, Bucket::Later]
}

/// Where a bucket stands in that order.
pub open spec fn order_place(bucket: Bucket) -> int {
    match bucket {
        Bucket::Now => 0,
        Bucket::Side => 1,
        Bucket::Next => 2,
        Bucket::Later => 3,
    }
}

pub open spec fn entry(label: Seq<char>, accel: Seq<char>, act: Act) -> MenuView {
    MenuView::Entry { label, accel, destructive: false, act }
}

pub open spec fn move_entry(id: u64, bucket: Bucket) -> MenuView {
    entry("Move to "@ + bucket.title(), ""@, Act::MoveTo(id, bucket))
}

/// The menu of a task: what the keys do, a move to each of the other buckets, and
/// the rest.
pub open spec fn menu_plan(id: u64, current: bool, bucket: Bucket) -> Seq<MenuView> {
    let first = if current {
        seq![]
    } else {
        seq![entry("Make current"@, "⏎"@, Act::Promote(id))]
    };
    first + seq![
        entry("Cycle tag"@, "t"@, Act::CycleTag(id)),
        entry("Done"@, "d"@, Act::Done(id)),
        MenuView::Separator,
    ] + shown_order().remove(order_place(bucket)).map_values(|b: Bucket| move_entry(id, b)) + seq![
        MenuView::Separator,
        entry("Rename…"@, "r"@, Act::BeginRename(id)),
        MenuView::Entry {
            label: "Delete"@,
            accel: ""@,
            destructive: true,
            act: Act::Remove(id),
        },
    ]
}

fn menu_entry(label: &str, accel: &'static str, act: Act) -> (item: MenuItem)
    ensures
        item@ == entry(label@, accel@, act),
{
    MenuItem::Entry { label: label.to_string(), accel, destructive: false, act }
}

/// The menu of a task. Mirrors every keyboard action so the mouse never loses out.
pub fn task_menu(id: u64, current: bool, bucket: Bucket) -> (items: Vec<MenuItem>)
    ensures
        menu_views(items@) == menu_plan(id, current, bucket),
{
    let mut items: Vec<MenuItem> = Vec::new();
    if !current {
        items.push(menu_entry("Make current", "⏎", Act::Promote(id)));
    }
    items.push(menu_entry("Cycle tag", "t", Act::CycleTag(id)));
    items.push(menu_entry("Done", "d", Act::Done(id)));
    items.push(MenuItem::Separator);
    let ghost head = menu_views(items@);
    let ghost first = if current {
        seq![]
    } else {
        seq![entry("Make current"@, "⏎"@, Act::Promote(id))]
    };
    assert(head =~= first + seq![
        entry("Cycle tag"@, "t"@, Act::CycleTag(id)),
        entry("Done"@, "d"@, Act::Done(id)),
        MenuView::Separator,
    ]);
    let order: [Bucket; 4] = [Bucket::Now, Bucket::Side, Bucket::Next, Bucket::Later];
    let ghost moves = shown_order().map_values(|b: Bucket| move_entry(id, b));
    let ghost skip = order_place(bucket);
    let mut i: usize = 0;
    while i < 4
        invariant
            i <= 4,
            order@ == shown_order(),
            skip == order_place(bucket),
            moves == shown_order().map_values(|b: Bucket| move_entry(id, b)),
            i <= skip ==> menu_views(items@) =~= head + moves.take(i as int),
            i > skip ==> menu_views(items@) =~= head + moves.take(i as int).remove(skip),
        decreases 4 - i,
    {
        let b: Bucket = order[i];
        assert(b == shown_order()[i as int]);
        assert(moves[i as int] == move_entry(id, b));
        let ghost before = menu_views(items@);
        if b != bucket {
            let label = text::behind_text("Move to ", b.label());
            let item = menu_entry(label.as_str(), "", Act::MoveTo(id, b));
            items.push(item);
            assert(menu_views(items@) =~= before.push(item@));
            assert(moves.take(i as int + 1) =~= moves.take(i as int).push(moves[i as int]));
        }
        i = i + 1;
    }
    let ghost middle = shown_order().remove(skip).map_values(|b: Bucket| move_entry(id, b));
    assert(moves.take(4).remove(skip) =~= middle);
    assert(menu_views(items@) =~= head + middle);
    let ghost body = menu_views(items@);
    items.push(MenuItem::Separator);
    items.push(menu_entry("Rename…", "r", Act::BeginRename(id)));
    items.push(
        MenuItem::Entry {
            label: "Delete".to_string(),
            accel: "",
            destructive: true,
            act: Act::Remove(id),
        },
    );
    assert(menu_views(items@) =~= body + seq![
        MenuView::Separator,
        entry("Rename…"@, "r"@, Act::BeginRename(id)),
        MenuView::Entry {
            label: "Delete"@,
            accel: ""@,
            destructive: true,
            act: Act::Remove(id),
        },
    ]);
    items
}

/// Every menu can cycle the tag, mark the task done, move it to any other bucket,
/// rename it and delete it, and make it current where it is not.
pub proof fn law_a_menu_mirrors_the_keys(id: u64, current: bool, bucket: Bucket, other: Bucket)
    ensures
        ({
            let menu = menu_plan(id, current, bucket);
            &&& menu.contains(entry("Cycle tag"@, "t"@, Act::CycleTag(id)))
            &&& menu.contains(entry("Done"@, "d"@, Act::Done(id)))
            &&& menu.contains(entry("Rename…"@, "r"@, Act::BeginRename(id)))
            &&& menu.contains(
                MenuView::Entry {
                    label: "Delete"@,
                    accel: ""@,
                    destructive: true,
                    act: Act::Remove(id),
                },
            )
            &&& !current ==> menu.contains(entry("Make current"@, "⏎"@, Act::Promote(id)))
            &&& other != bucket ==> menu.contains(move_entry(id, other))
        }),
{
    let menu = menu_plan(id, current, bucket);
    let start: int = if current {
        0
    } else {
        1
    };
    assert(menu[start] == entry("Cycle tag"@, "t"@, Act::CycleTag(id)));
    assert(menu[start + 1] == entry("Done"@, "d"@, Act::Done(id)));
    assert(menu[start + 7] == entry("Rename…"@, "r"@, Act::BeginRename(id)));
    assert(menu[start + 8] is Entry);
    if !current {
        assert(menu[0] == entry("Make current"@, "⏎"@, Act::Promote(id)));
    }
    if other != bucket {
        let at = if order_place(other) < order_place(bucket) {
            order_place(other)
        } else {
            order_place(other) - 1
        };
        assert(shown_order().remove(order_place(bucket))[at] == other);
        assert(menu[start + 3 + at] == move_entry(id, other));
    }
}

// ---- renaming in place ---------------------------------------------------------------

/// The task being renamed in place, and the text typed so far, kept out of the
/// widget so a rebuild triggered by another client does not lose it.
#[derive(Debug, PartialEq, Eq)]
pub struct Rename {
    pub id: Option<u64>,
    pub text: String,
    /// Set while a rename has only just started, so the old title is selected once
    /// rather than on every rebuild.
    pub fresh: bool,
}

impl Rename {
    pub fn new() -> (r: Rename)
        ensures
            r.id is None,
            r.text@ == Seq::<char>::empty(),
            !r.fresh,
    {
        Rename { id: None, text: String::new(), fresh: false }
    }

    /// Start renaming a task. Gives whether the Later shelf has to be opened first:
    /// an editor is never put somewhere the user cannot see it. `None` where there
    /// is no such task.
    pub fn begin(&mut self, store: &Store, id: u64, page: Page) -> (open_later: Option<bool>)
        ensures
            match open_later {
                None => !store@.has(id) && *final(self) == *old(self),
                Some(open) => {
                    &&& store@.has(id)
                    &&& open == (store@.get(id)->0.bucket == Bucket::Later && page == Page::Queue)
                    &&& final(self).id == Some(id)
                    &&& final(self).text@ == store@.get(id)->0.title
                    &&& final(self).fresh
                },
            },
    {
        match store.get(id) {
            None => None,
            Some(task) => {
                self.id = Some(id);
                self.text = task.title.clone();
                self.fresh = true;
                Some(task.bucket == Bucket::Later && page == Page::Queue)
            },
        }
    }

    /// A rename outlives neither its task nor a change that removes it.
    pub fn keep_for(&mut self, store: &Store)
        ensures
            final(self).id == (if old(self).id is Some && store@.has(old(self).id->0) {
                old(self).id
            } else {
                None
            }),
            final(self).text == old(self).text,
            final(self).fresh == old(self).fresh,
    {
        match self.id {
            None => {},
            Some(id) => {
                if store.get(id).is_none() {
                    self.id = None;
                }
            },
        }
    }

    /// The editor of a task is done: whether its text is to be saved. Whatever was
    /// renamed is so no longer.
    pub fn commit(&mut self, id: u64) -> (save: bool)
        ensures
            save == (old(self).id == Some(id)),
            final(self).id is None,
            final(self).text == old(self).text,
            final(self).fresh == old(self).fresh,
    {
        let save: bool = match self.id {
            Some(renamed) => renamed == id,
            None => false,
        };
        self.id = None;
        save
    }

    /// Abandon the rename, unless the editor goes only because its row is being
    /// rebuilt. Gives whether the rows have to be rebuilt for it.
    pub fn cancel(&mut self, rebuilding: bool) -> (rebuild: bool)
        ensures
            rebuild == (!rebuilding && old(self).id is Some),
            !rebuild ==> *final(self) == *old(self),
            rebuild ==> final(self).id is None,
            final(self).text == old(self).text,
            final(self).fresh == old(self).fresh,
    {
        if rebuilding || self.id.is_none() {
            return false;
        }
        self.id = None;
        true
    }

    /// The editor lost the focus. That abandons the rename only in a window that is
    /// active and can be seen: the focus also leaves when the whole window is
    /// deactivated, and switching away must not throw the edit away. Gives whether
    /// the rows have to be rebuilt for it.
    pub fn lose_focus(&mut self, active: bool, visible: bool, rebuilding: bool) -> (rebuild: bool)
        ensures
            rebuild == (active && visible && !rebuilding && old(self).id is Some),
            !rebuild ==> *final(self) == *old(self),
            rebuild ==> final(self).id is None,
            final(self).text == old(self).text,
            final(self).fresh == old(self).fresh,
    {
        if active && visible {
            self.cancel(rebuilding)
        } else {
            false
        }
    }

    /// Whether the old title is to be selected, which it is once.
    pub fn take_fresh(&mut self) -> (fresh: bool)
        ensures
            fresh == old(self).fresh,
            !final(self).fresh,
            final(self).id == old(self).id,
            final(self).text == old(self).text,
    {
        let fresh: bool = self.fresh;
        self.fresh = false;
        fresh
    }
}

// ---- rebuilding ----------------------------------------------------------------------

/// Keeps rebuilds from running inside one another.
#[derive(Debug, Clone, Copy, PartialEq, Eq, Structural)]
pub struct Rebuild {
    pub running: bool,
    /// Set by a change that arrived while a rebuild was running.
    pub dirty: bool,
}

impl Rebuild {
    pub fn new() -> (r: Rebuild)
        ensures
            !r.running,
            !r.dirty,
    {
        Rebuild { running: false, dirty: false }
    }

    /// Ask for a rebuild. It may run now, or is remembered while another one runs.
    pub fn begin(&mut self) -> (run: bool)
        ensures
            run == !old(self).running,
            final(self).running,
            final(self).dirty == old(self).running,
    {
        if self.running {
            self.dirty = true;
            false
        } else {
            self.running = true;
            self.dirty = false;
            true
        }
    }

    /// A rebuild is done. Gives whether there has to be another one.
    pub fn finish(&mut self) -> (again: bool)
        ensures
            again == old(self).dirty,
            !final(self).running,
            !final(self).dirty,
    {
        let again: bool = self.dirty;
        self.running = false;
        self.dirty = false;
        again
    }
}

// ---- what is shown -------------------------------------------------------------------

/// The banner shows the current task, with its tag and whether it is paused, and takes
/// the title's editor on the queue page; without a current task it is empty.
pub proof fn law_the_banner_shows_the_current_task(
    current: Option<&Task>,
    renaming: Option<u64>,
    page: Page,
)
    ensures
        forall|b: Banner| #[trigger]
            call_ensures(Banner::new, (current, renaming, page), b) ==> {
                &&& b is Empty <==> current is None
                &&& b matches Banner::Current { id, name, title, tag, paused, renaming: editing }
                    ==> {
                    let t = current->0;
                    &&& id == t.id && title@ == t.title@ && tag == t.tag
                    &&& name@ == "task-"@ + text::decimal(t.id as nat)
                    &&& paused == (t.started_at is Some && t.paused_at is Some)
                    &&& editing <==> renaming == Some(t.id) && page is Queue
                }
            },
{
}

/// A row shows its task. Its title is edited on the page that is shown only, and then a
/// double click does not make it current. Rows of the board carry no buttons and wrap
/// long titles; those of other lists carry one that makes the task current, unless it is;
/// and only those of the Later shelf one that moves it to Next.
pub proof fn law_a_row_shows_its_task(
    task: Task,
    current: bool,
    style: RowStyle,
    page: Page,
    shown: Page,
    renaming: Option<u64>,
)
    ensures
        forall|row: Row| #[trigger]
            call_ensures(Row::new, (&task, current, style, page, shown, renaming), row) ==> {
                &&& row.id == task.id && row.title@ == task.title@ && row.tag == task.tag
                &&& row.name@ == "task-"@ + text::decimal(task.id as nat)
                &&& row.current == current
                &&& row.renaming <==> renaming == Some(task.id) && page == shown
                &&& row.activatable <==> !(renaming == Some(task.id) && page == shown)
                &&& row.wraps <==> style is Board
                &&& row.promote_button <==> !current && !(style is Board)
                &&& row.next_button <==> style is Later
            },
{
}

/// What buttons and chips say, and what the window is tinted with.
pub proof fn law_what_is_written_on_things(paused: bool, tag: Tag, open: bool, store: Store)
    ensures
        forall|s: &'static str| #[trigger]
            call_ensures(pause_icon, (paused,), s) ==> s@ == (if paused {
                "media-playback-start-symbolic"@
            } else {
                "media-playback-pause-symbolic"@
            }),
        forall|s: &'static str| #[trigger]
            call_ensures(pause_tip, (paused,), s) ==> s@ == (if paused {
                "Resume (p)"@
            } else {
                "Pause (p)"@
            }),
        forall|s: &'static str| #[trigger]
            call_ensures(chip_label, (tag,), s) ==> s@ == (match tag {
                Tag::Work => "W"@,
                Tag::Personal => "P"@,
            }),
        forall|s: &'static str| #[trigger]
            call_ensures(tint, (tag,), s) ==> s@ == "tag-"@ + (match tag {
                Tag::Work => "work"@,
                Tag::Personal => "personal"@,
            }),
        forall|s: &'static str| #[trigger]
            call_ensures(later_caret, (open,), s) ==> s@ == (if open {
                "pan-down-symbolic"@
            } else {
                "pan-end-symbolic"@
            }),
        forall|t: Option<Tag>| #[trigger]
            call_ensures(window_tag, (&store,), t) ==> {
                let now = crate::promises::members(store@, Bucket::Now);
                t == (if now.len() > 0 {
                    now[0].tag
                } else {
                    None
                })
            },
{
    crate::promises::lemma_members(store@, Bucket::Now);
    crate::laws::law_current_is_the_head_of_now(store@);
}

/// Whether a line of a menu says something and does something.
pub open spec fn offers(item: MenuItem, label: Seq<char>, accel: Seq<char>, act: Act) -> bool {
    item matches MenuItem::Entry { label: l, accel: a, destructive, act: does } && l@ == label
        && a@ == accel && does == act && destructive == (act is Remove)
}

/// A menu makes the task current where it is not, cycles its tag, marks it done, moves it
/// to each of the other three buckets in the order Now, Side, Next, Later, renames it and
/// deletes it, in this order and with nothing else in it but two lines between.
pub proof fn law_what_a_menu_offers(id: u64, current: bool, bucket: Bucket)
    ensures
        forall|items: Vec<MenuItem>| #[trigger]
            call_ensures(task_menu, (id, current, bucket), items) ==> {
                let at: int = if current {
                    0
                } else {
                    1
                };
                let first = if bucket is Now {
                    Bucket::Side
                } else {
                    Bucket::Now
                };
                let second = if bucket is Now || bucket is Side {
                    Bucket::Next
                } else {
                    Bucket::Side
                };
                let third = if bucket is Later {
                    Bucket::Next
                } else {
                    Bucket::Later
                };
                &&& items@.len() == at + 9
                &&& !current ==> offers(items@[0], "Make current"@, "⏎"@, Act::Promote(id))
                &&& offers(items@[at], "Cycle tag"@, "t"@, Act::CycleTag(id))
                &&& offers(items@[at + 1], "Done"@, "d"@, Act::Done(id))
                &&& items@[at + 2] is Separator
                &&& offers(
                    items@[at + 3],
                    "Move to "@ + first.title(),
                    ""@,
                    Act::MoveTo(id, first),
                )
                &&& offers(
                    items@[at + 4],
                    "Move to "@ + second.title(),
                    ""@,
                    Act::MoveTo(id, second),
                )
                &&& offers(
                    items@[at + 5],
                    "Move to "@ + third.title(),
                    ""@,
                    Act::MoveTo(id, third),
                )
                &&& items@[at + 6] is Separator
                &&& offers(items@[at + 7], "Rename…"@, "r"@, Act::BeginRename(id))
                &&& offers(items@[at + 8], "Delete"@, ""@, Act::Remove(id))
            },
{
    let plan = menu_plan(id, current, bucket);
    let at: int = if current {
        0
    } else {
        1
    };
    let moves = shown_order().remove(order_place(bucket));
    assert(plan.len() == at + 9);
    assert(moves.len() == 3);
    assert(plan[at + 3] == move_entry(id, moves[0]));
    assert(plan[at + 4] == move_entry(id, moves[1]));
    assert(plan[at + 5] == move_entry(id, moves[2]));
    assert forall|items: Vec<MenuItem>| #[trigger]
        call_ensures(task_menu, (id, current, bucket), items) implies items@.len() == at + 9
        && forall|i: int| 0 <= i < items@.len() ==> (#[trigger] items@[i])@ == plan[i] by {
        assert(menu_views(items@).len() == items@.len());
        assert forall|i: int| 0 <= i < items@.len() implies (#[trigger] items@[i])@ == plan[i] by {
            assert(menu_views(items@)[i] == items@[i]@);
        }
    }
}

/// A rename starts with the title of its task, selected once, and opens the shelf that
/// hides it; it ends with its task, with a commit, which saves only what is being
/// renamed, and with a cancel, unless the row is only being rebuilt. Losing the focus
/// cancels it in a window that is active and can be seen.
pub proof fn law_what_becomes_of_a_rename(
    r: Rename,
    store: Store,
    id: u64,
    page: Page,
    rebuilding: bool,
    active: bool,
    visible: bool,
)
    ensures
        forall|m: &mut Rename, open: Option<bool>|
            *m == r && #[trigger] call_ensures(Rename::begin, (m, &store, id, page), open) ==> {
                &&& open is Some <==> crate::promises::holds(store@, id)
                &&& open is None ==> *final(m) == r
                &&& open matches Some(shelf) ==> {
                    &&& (*final(m)).id == Some(id)
                    &&& (*final(m)).fresh
                    &&& exists|i: int|
                        {
                            &&& 0 <= i < store@.tasks.len()
                            &&& (#[trigger] store@.tasks[i]).id == id
                            &&& (*final(m)).text@ == store@.tasks[i].title
                            &&& shelf <==> store@.tasks[i].bucket is Later && page is Queue
                        }
                }
            },
        forall|m: &mut Rename| *m == r && #[trigger] call_ensures(Rename::keep_for, (m, &store), ())
            ==> (*final(m)).text == r.text && (*final(m)).fresh == r.fresh && (*final(m)).id == (
        if r.id is Some && crate::promises::holds(store@, r.id->0) {
            r.id
        } else {
            None
        }),
        forall|m: &mut Rename, save: bool|
            *m == r && #[trigger] call_ensures(Rename::commit, (m, id), save) ==> save == (r.id
                == Some(id)) && (*final(m)).id is None && (*final(m)).text == r.text
                && (*final(m)).fresh == r.fresh,
        forall|m: &mut Rename, again: bool|
            *m == r && #[trigger] call_ensures(Rename::cancel, (m, rebuilding), again) ==> again
                == (!rebuilding && r.id is Some) && (*final(m)).text == r.text && (*final(m)).fresh
                == r.fresh && (*final(m)).id == (if again {
                None
            } else {
                r.id
            }),
        forall|m: &mut Rename, again: bool|
            *m == r && #[trigger] call_ensures(
                Rename::lose_focus,
                (m, active, visible, rebuilding),
                again,
            ) ==> again == (active && visible && !rebuilding && r.id is Some) && (*final(m)).text
                == r.text && (*final(m)).fresh == r.fresh && (*final(m)).id == (if again {
                None
            } else {
                r.id
            }),
        forall|m: &mut Rename, fresh: bool|
            *m == r && #[trigger] call_ensures(Rename::take_fresh, (m,), fresh) ==> fresh
                == r.fresh && !(*final(m)).fresh && (*final(m)).id == r.id && (*final(m)).text
                == r.text,
{
    crate::promises::lemma_holds(store@, id);
    crate::order::lemma_first_where(store@.tasks, crate::order::has_id(id));
    if r.id is Some {
        crate::promises::lemma_holds(store@, r.id->0);
    }
}

/// One rebuild runs at a time: one that is asked for meanwhile comes behind it, once.
pub proof fn law_rebuilds_come_one_behind_the_other(r: Rebuild)
    ensures
        forall|m: &mut Rebuild, run: bool|
            *m == r && #[trigger] call_ensures(Rebuild::begin, (m,), run) ==> run == !r.running
                && (*final(m)).running && (*final(m)).dirty == r.running,
        forall|m: &mut Rebuild, again: bool|
            *m == r && #[trigger] call_ensures(Rebuild::finish, (m,), again) ==> again == r.dirty
                && !(*final(m)).running && !(*final(m)).dirty,
{
}

/// Nothing is being renamed or rebuilt to begin with.
pub proof fn law_nothing_is_going_on_to_begin_with()
    ensures
        forall|r: Rename| #[trigger]
            call_ensures(Rename::new, (), r) ==> r.id is None && r.text@.len() == 0 && !r.fresh,
        forall|r: Rebuild| #[trigger]
            call_ensures(Rebuild::new, (), r) ==> !r.running && !r.dirty,
{
}

} // verus!
