//! What the windows show and what keys and drops mean, without the widgets.
//!
//! The queue page is three bands: the current task's banner, a card holding Side
//! and Next, and a Later shelf. The head of Now is the banner, so the rest of the
//! Now bucket is listed under the Next header. The board page shows the four
//! buckets side by side. Both pages are rebuilt on every change.

use crate::change::Change;
use crate::clock::unix_now;
use crate::model::Bucket;
use crate::model::Task;
use crate::model::TaskView;
use crate::order;
use crate::queue::Store;
use crate::queue::StoreView;
use crate::text;
use vstd::prelude::*;

verus! {

// ---- pages ---------------------------------------------------------------------------

#[derive(Debug, Clone, Copy, PartialEq, Eq, Structural)]
pub enum Page {
    Queue,
    Board,
}

impl Page {
    pub open spec fn title(self) -> Seq<char> {
        match self {
            Page::Queue => "queue"@,
            Page::Board => "board"@,
        }
    }

    pub fn name(self) -> (s: &'static str)
        ensures
            s@ == self.title(),
    {
        match self {
            Page::Queue => "queue",
            Page::Board => "board",
        }
    }

    /// The page that a text names; anything but the board is the queue.
    pub fn parse(s: &str) -> (p: Page)
        ensures
            p == (if s@ == "board"@ {
                Page::Board
            } else {
                Page::Queue
            }),
    {
        if text::same_text(s, "board") {
            Page::Board
        } else {
            Page::Queue
        }
    }

    /// Width and height that the window wants for a page.
    pub fn window_size(self) -> (size: (i32, i32))
        ensures
            size == (match self {
                Page::Queue => (400i32, 640i32),
                Page::Board => (1040i32, 640i32),
            }),
    {
        match self {
            Page::Queue => (400, 640),
            Page::Board => (1040, 640),
        }
    }
}

/// A page's name is read back as the page.
pub proof fn law_a_page_reads_back(p: Page)
    ensures
        p == (if p.title() == "board"@ {
            Page::Board
        } else {
            Page::Queue
        }),
{
    reveal_strlit("queue");
    reveal_strlit("board");
    assert("queue"@[0] != "board"@[0]);
}

/// How much furniture a row carries. The board's columns are too narrow for inline
/// buttons, and Later gets a button to Next.
#[derive(Debug, Clone, Copy, PartialEq, Eq, Structural)]
pub enum RowStyle {
    Queue,
    Later,
    Board,
}

// ---- clocks --------------------------------------------------------------------------

/// A stopwatch: minutes and seconds in two digits each, behind hours if there are
/// any.
pub open spec fn stopwatch(secs: u64) -> Seq<char> {
    let h = (secs / 3600) as nat;
    let m = ((secs % 3600) / 60) as nat;
    let s = (secs % 60) as nat;
    if h > 0 {
        text::decimal(h) + ":"@ + text::two_digits(m) + ":"@ + text::two_digits(s)
    } else {
        text::two_digits(m) + ":"@ + text::two_digits(s)
    }
}

pub fn fmt_elapsed(secs: u64) -> (t: String)
    ensures
        t@ == stopwatch(secs),
{
    let mut out: Vec<char> = Vec::new();
    if secs / 3600 > 0 {
        text::push_decimal(&mut out, secs / 3600);
        text::push_text(&mut out, ":");
    }
    text::push_two_digits(&mut out, (secs % 3600) / 60);
    text::push_text(&mut out, ":");
    text::push_two_digits(&mut out, secs % 60);
    assert(out@ =~= stopwatch(secs));
    text::text_of(&out)
}

/// The elapsed time of the current task, empty where there is none.
pub open spec fn timer_words(s: StoreView, now: u64) -> Seq<char> {
    match s.current() {
        Some(t) => match t.elapsed(now) {
            Some(secs) => stopwatch(secs),
            None => seq![],
        },
        None => seq![],
    }
}

pub fn timer_label_at(store: &Store, now: u64) -> (t: String)
    ensures
        t@ == timer_words(store@, now),
{
    let elapsed: Option<u64> = match store.current() {
        Some(task) => task.elapsed_secs(now),
        None => None,
    };
    match elapsed {
        Some(secs) => fmt_elapsed(secs),
        None => {
            let none = String::new();
            assert(none@ =~= seq![]);
            none
        },
    }
}

pub fn timer_label(store: &Store) -> (t: String)
    ensures
        exists|now: u64| t@ == #[trigger] timer_words(store@, now),
{
    let now: u64 = unix_now();
    timer_label_at(store, now)
}

// ---- rows and their tasks ------------------------------------------------------------

/// The name of the row of a task.
pub open spec fn name_of_row(id: u64) -> Seq<char> {
    "task-"@ + text::decimal(id as nat)
}

pub fn row_name(id: u64) -> (s: String)
    ensures
        s@ == name_of_row(id),
{
    let mut out: Vec<char> = text::chars_of("task-");
    text::push_decimal(&mut out, id);
    text::text_of(&out)
}

/// The task that the name of a row stands for.
pub open spec fn id_in_name(name: Seq<char>) -> Option<nat> {
    if name.len() >= 5 && name.take(5) == "task-"@ {
        text::parse_number(name.skip(5), u64::MAX as nat)
    } else {
        None
    }
}

/// The task whose id a row carries in its name.
pub fn row_id(name: &str) -> (id: Option<u64>)
    ensures
        match id {
            Some(id) => id_in_name(name@) == Some(id as nat),
            None => id_in_name(name@) is None,
        },
{
    let v = text::chars_of(name);
    if v.len() < 5 {
        return None;
    }
    let head = text::slice_chars(&v, 0, 5);
    assert(v@.subrange(0, 5) =~= v@.take(5));
    if !text::chars_are(&head, "task-") {
        return None;
    }
    let rest = text::slice_chars(&v, 5, v.len());
    assert(v@.subrange(5, v@.len() as int) =~= v@.skip(5));
    text::read_number(&rest, u64::MAX)
}

/// The row of a task is found again by its name.
pub proof fn law_a_row_is_found_by_its_name(id: u64)
    ensures
        id_in_name(name_of_row(id)) == Some(id as nat),
{
    reveal_strlit("task-");
    let name = name_of_row(id);
    text::law_decimal_reads_back(id as nat);
    assert(name.take(5) =~= "task-"@);
    assert(name.skip(5) =~= text::decimal(id as nat));
    assert(text::is_digit(text::decimal(id as nat)[0]));
}

// ---- lists and sections --------------------------------------------------------------

/// One list showing (part of) one bucket on one page.
#[derive(Debug, Clone, Copy, PartialEq, Eq, Structural)]
pub struct ListPlan {
    pub bucket: Bucket,
    pub page: Page,
    pub style: RowStyle,
    /// Queue page: the head of Now is the banner, so this list starts after it.
    pub skip_current: bool,
}

/// The lists of both pages, from top to bottom and from left to right.
pub open spec fn list_plans() -> Seq<ListPlan> {
    let queue = |bucket: Bucket, style: RowStyle, skip_current: bool|
        ListPlan { bucket, page: Page::Queue, style, skip_current };
    let board = |bucket: Bucket|
        ListPlan { bucket, page: Page::Board, style: RowStyle::Board, skip_current: false };
    seq![
        queue(Bucket::Side, RowStyle::Queue, false),
        queue(Bucket::Now, RowStyle::Queue, true),
        queue(Bucket::Next, RowStyle::Queue, false),
        queue(Bucket::Later, RowStyle::Later, false),
        board(Bucket::Now),
        board(Bucket::Side),
        board(Bucket::Next),
        board(Bucket::Later),
    ]
}

impl ListPlan {
    /// The tasks that the list shows.
    pub open spec fn rows(self, s: StoreView) -> Seq<TaskView> {
        let members = s.in_bucket(self.bucket);
        if self.skip_current && members.len() > 0 {
            members.skip(1)
        } else {
            members
        }
    }

    /// Whether the list can be seen.
    pub open spec fn seen(self, page: Page, later_open: bool) -> bool {
        self.page == page && (self.style == RowStyle::Later ==> later_open)
    }

    /// The index in the bucket of the row at an index of the list.
    pub open spec fn index_of_row(self, row: int) -> int {
        if self.skip_current {
            row + 1
        } else {
            row
        }
    }

    fn queue(bucket: Bucket, style: RowStyle, skip_current: bool) -> (plan: ListPlan)
        ensures
            plan == (ListPlan { bucket, page: Page::Queue, style, skip_current }),
    {
        ListPlan { bucket, page: Page::Queue, style, skip_current }
    }

    fn board(bucket: Bucket) -> (plan: ListPlan)
        ensures
            plan == (ListPlan {
                bucket,
                page: Page::Board,
                style: RowStyle::Board,
                skip_current: false,
            }),
    {
        ListPlan { bucket, page: Page::Board, style: RowStyle::Board, skip_current: false }
    }

    /// The lists of both pages.
    pub fn all() -> (plans: Vec<ListPlan>)
        ensures
            plans@ == list_plans(),
    {
        let mut plans: Vec<ListPlan> = Vec::new();
        plans.push(ListPlan::queue(Bucket::Side, RowStyle::Queue, false));
        plans.push(ListPlan::queue(Bucket::Now, RowStyle::Queue, true));
        plans.push(ListPlan::queue(Bucket::Next, RowStyle::Queue, false));
        plans.push(ListPlan::queue(Bucket::Later, RowStyle::Later, false));
        plans.push(ListPlan::board(Bucket::Now));
        plans.push(ListPlan::board(Bucket::Side));
        plans.push(ListPlan::board(Bucket::Next));
        plans.push(ListPlan::board(Bucket::Later));
        assert(plans@ =~= list_plans());
        plans
    }

    /// The tasks that the list shows, in order.
    pub fn tasks<'a>(&self, store: &'a Store) -> (tasks: Vec<&'a Task>)
        ensures
            order::ref_views(tasks@) == self.rows(store@),
    {
        let mut tasks = store.in_bucket(self.bucket);
        let ghost all = order::ref_views(tasks@);
        if self.skip_current && tasks.len() > 0 {
            tasks.remove(0);
            assert(order::ref_views(tasks@) =~= all.skip(1));
        }
        tasks
    }

    /// The change that a drop of a task on the list asks for: before the row that
    /// it was dropped on, or at the end where it was dropped on none.
    pub fn drop_on(&self, id: u64, row: Option<usize>) -> (change: Change)
        requires
            row is Some ==> row->0 < usize::MAX,
        ensures
            change == Change::Drop(
                id,
                self.bucket,
                match row {
                    Some(i) => Some(self.index_of_row(i as int) as usize),
                    None => None,
                },
            ),
    {
        let index: Option<usize> = match row {
            Some(i) => Some(
                if self.skip_current {
                    i + 1
                } else {
                    i
                },
            ),
            None => None,
        };
        Change::Drop(id, self.bucket, index)
    }
}

/// A titled section of a page: the list or the two lists under one header.
#[derive(Debug, Clone, Copy, PartialEq, Eq, Structural)]
pub struct Section {
    pub bucket: Bucket,
    pub first: ListPlan,
    pub second: Option<ListPlan>,
}

impl Section {
    /// How many rows the section shows.
    pub open spec fn size(self, s: StoreView) -> nat {
        self.first.rows(s).len() + (match self.second {
            Some(plan) => plan.rows(s).len(),
            None => 0,
        })
    }

    /// The lists are of different buckets, so no task is in both.
    pub open spec fn sound(self) -> bool {
        self.second is Some ==> (self.second->0).bucket != self.first.bucket
    }

    /// The sections of both pages, in the order of their lists. Next also shows the
    /// tail of Now: what is queued behind the banner.
    pub fn all() -> (sections: Vec<Section>)
        ensures
            sections@ == all_sections(),
    {
        let plans = ListPlan::all();
        let mut sections: Vec<Section> = Vec::new();
        sections.push(Section { bucket: Bucket::Side, first: plans[0], second: None });
        sections.push(Section { bucket: Bucket::Next, first: plans[1], second: Some(plans[2]) });
        sections.push(Section { bucket: Bucket::Later, first: plans[3], second: None });
        sections.push(Section { bucket: Bucket::Now, first: plans[4], second: None });
        sections.push(Section { bucket: Bucket::Side, first: plans[5], second: None });
        sections.push(Section { bucket: Bucket::Next, first: plans[6], second: None });
        sections.push(Section { bucket: Bucket::Later, first: plans[7], second: None });
        assert(sections@ =~= all_sections());
        sections
    }

    /// How many rows the section shows. Its placeholder stands while there are none.
    pub fn count(&self, store: &Store) -> (n: usize)
        requires
            self.sound(),
        ensures
            n == self.size(store@),
    {
        let first = self.first.tasks(store);
        assert(first@.len() == order::ref_views(first@).len());
        let n: usize = first.len();
        match &self.second {
            None => n,
            Some(plan) => {
                let second = plan.tasks(store);
                proof {
                    lemma_two_buckets(store@.tasks, self.first.bucket, plan.bucket);
                    assert(second@.len() == order::ref_views(second@).len());
                    assert(store@.tasks.len() == store.tasks.len());
                }
                n + second.len()
            },
        }
    }
}

/// The sections of both pages.
pub open spec fn all_sections() -> Seq<Section> {
    let plans = list_plans();
    seq![
        Section { bucket: Bucket::Side, first: plans[0], second: None },
        Section { bucket: Bucket::Next, first: plans[1], second: Some(plans[2]) },
        Section { bucket: Bucket::Later, first: plans[3], second: None },
        Section { bucket: Bucket::Now, first: plans[4], second: None },
        Section { bucket: Bucket::Side, first: plans[5], second: None },
        Section { bucket: Bucket::Next, first: plans[6], second: None },
        Section { bucket: Bucket::Later, first: plans[7], second: None },
    ]
}

/// Two buckets together hold no more tasks than there are.
proof fn lemma_two_buckets(tasks: Seq<TaskView>, a: Bucket, b: Bucket)
    requires
        a != b,
    ensures
        tasks.filter(order::is_in(a)).len() + tasks.filter(order::is_in(b)).len() <= tasks.len(),
    decreases tasks.len(),
{
    if tasks.len() > 0 {
        let front = tasks.drop_last();
        assert(front.push(tasks.last()) =~= tasks);
        lemma_two_buckets(front, a, b);
        order::lemma_filter_push(front, tasks.last(), order::is_in(a));
        order::lemma_filter_push(front, tasks.last(), order::is_in(b));
    } else {
        order::lemma_filter_none(tasks, order::is_in(a));
        order::lemma_filter_none(tasks, order::is_in(b));
    }
}

/// Every task but the current one is in exactly one section of the queue page, and
/// every task in exactly one of the board: the sections of a page together show as
/// many rows as there are tasks, one fewer on the queue page where there is a
/// current task.
pub proof fn law_every_task_is_shown_once(s: StoreView)
    ensures
        ({
            let n = all_sections();
            let banner: nat = if s.current() is Some {
                1
            } else {
                0
            };
            &&& n[0].size(s) + n[1].size(s) + n[2].size(s) + banner == s.tasks.len()
            &&& n[3].size(s) + n[4].size(s) + n[5].size(s) + n[6].size(s) == s.tasks.len()
        }),
{
    lemma_four_buckets(s.tasks);
    crate::laws::law_current_is_the_head_of_now(s);
}

proof fn lemma_four_buckets(tasks: Seq<TaskView>)
    ensures
        tasks.filter(order::is_in(Bucket::Now)).len() + tasks.filter(
            order::is_in(Bucket::Side),
        ).len() + tasks.filter(order::is_in(Bucket::Next)).len() + tasks.filter(
            order::is_in(Bucket::Later),
        ).len() == tasks.len(),
    decreases tasks.len(),
{
    if tasks.len() > 0 {
        let front = tasks.drop_last();
        assert(front.push(tasks.last()) =~= tasks);
        lemma_four_buckets(front);
        order::lemma_filter_push(front, tasks.last(), order::is_in(Bucket::Now));
        order::lemma_filter_push(front, tasks.last(), order::is_in(Bucket::Side));
        order::lemma_filter_push(front, tasks.last(), order::is_in(Bucket::Next));
        order::lemma_filter_push(front, tasks.last(), order::is_in(Bucket::Later));
    } else {
        order::lemma_filter_none(tasks, order::is_in(Bucket::Now));
        order::lemma_filter_none(tasks, order::is_in(Bucket::Side));
        order::lemma_filter_none(tasks, order::is_in(Bucket::Next));
        order::lemma_filter_none(tasks, order::is_in(Bucket::Later));
    }
}

// ---- what can be seen, and where the focus goes --------------------------------------

/// The ids of tasks.
pub open spec fn ids(tasks: Seq<TaskView>) -> Seq<u64> {
    tasks.map_values(|t: TaskView| t.id)
}

/// The tasks that can be seen in some lists, in order.
pub open spec fn seen_in(
    plans: Seq<ListPlan>,
    s: StoreView,
    page: Page,
    later_open: bool,
) -> Seq<u64>
    decreases plans.len(),
{
    if plans.len() == 0 {
        seq![]
    } else {
        let before = seen_in(plans.drop_last(), s, page, later_open);
        if plans.last().seen(page, later_open) {
            before + ids(plans.last().rows(s))
        } else {
            before
        }
    }
}

/// The tasks that can be seen on a page, in visual order. On the queue page the
/// banner leads: it is the current task's row.
pub open spec fn visible(s: StoreView, page: Page, later_open: bool) -> Seq<u64> {
    let banner = if page == Page::Queue && s.current() is Some {
        seq![s.current()->0.id]
    } else {
        seq![]
    };
    banner + seen_in(list_plans(), s, page, later_open)
}

pub fn visible_rows(store: &Store, page: Page, later_open: bool) -> (rows: Vec<u64>)
    ensures
        rows@ == visible(store@, page, later_open),
{
    let mut rows: Vec<u64> = Vec::new();
    if page == Page::Queue {
        match store.current() {
            Some(task) => rows.push(task.id),
            None => {},
        }
    }
    let ghost banner = rows@;
    let plans = ListPlan::all();
    let mut i: usize = 0;
    assert(banner + seen_in(plans@.take(0), store@, page, later_open) =~= banner);
    while i < plans.len()
        invariant
            i <= plans@.len(),
            plans@ == list_plans(),
            rows@ == banner + seen_in(plans@.take(i as int), store@, page, later_open),
        decreases plans@.len() - i,
    {
        let plan: ListPlan = plans[i];
        let ghost before = rows@;
        proof {
            let next = plans@.take(i as int + 1);
            assert(next.drop_last() =~= plans@.take(i as int));
            assert(next.last() == plan);
        }
        if plan.page == page && (plan.style != RowStyle::Later || later_open) {
            let tasks = plan.tasks(store);
            let ghost all = ids(plan.rows(store@));
            let mut k: usize = 0;
            while k < tasks.len()
                invariant
                    k <= tasks@.len(),
                    all == ids(plan.rows(store@)),
                    order::ref_views(tasks@) == plan.rows(store@),
                    rows@ =~= before + all.take(k as int),
                decreases tasks@.len() - k,
            {
                assert(all[k as int] == order::ref_views(tasks@)[k as int].id);
                rows.push(tasks[k].id);
                k = k + 1;
            }
            assert(all.take(k as int) =~= all);
            assert(rows@ =~= banner + (seen_in(plans@.take(i as int), store@, page, later_open)
                + all));
        }
        i = i + 1;
    }
    assert(plans@.take(i as int) =~= plans@);
    let ghost start = if page == Page::Queue && store@.current() is Some {
        seq![store@.current()->0.id]
    } else {
        seq![]
    };
    assert(banner =~= start);
    rows
}

/// Where an id stands first, or the length where it does not.
pub open spec fn place_in(rows: Seq<u64>, id: u64) -> int
    decreases rows.len(),
{
    if rows.len() == 0 || rows[0] == id {
        0
    } else {
        1 + place_in(rows.drop_first(), id)
    }
}

fn find_row(rows: &Vec<u64>, id: u64) -> (i: usize)
    ensures
        i == place_in(rows@, id),
        i <= rows@.len(),
{
    let mut i: usize = 0;
    assert(rows@.skip(0) =~= rows@);
    while i < rows.len() && rows[i] != id
        invariant
            i <= rows@.len(),
            place_in(rows@, id) == i + place_in(rows@.skip(i as int), id),
        decreases rows@.len() - i,
    {
        assert(rows@.skip(i as int)[0] == rows@[i as int]);
        assert(rows@.skip(i as int).drop_first() =~= rows@.skip(i as int + 1));
        i = i + 1;
    }
    i
}

/// Where the focused row stands among those that can be seen, first where it does
/// not.
pub fn visual_index(rows: &Vec<u64>, id: u64) -> (i: usize)
    ensures
        i == (if place_in(rows@, id) < rows@.len() {
            place_in(rows@, id)
        } else {
            0
        }),
{
    let i: usize = find_row(rows, id);
    if i < rows.len() {
        i
    } else {
        0
    }
}

/// The row that the focus goes to after a rebuild: the same task, or else the same
/// position, the last row at most.
pub fn refocus(rows: &Vec<u64>, id: Option<u64>, index: usize) -> (row: Option<usize>)
    ensures
        row == (if id is Some && place_in(rows@, id->0) < rows@.len() {
            Some(place_in(rows@, id->0) as usize)
        } else if rows@.len() == 0 {
            None
        } else if index < rows@.len() {
            Some(index)
        } else {
            Some((rows@.len() - 1) as usize)
        }),
{
    match id {
        Some(id) => {
            let i: usize = find_row(rows, id);
            if i < rows.len() {
                return Some(i);
            }
        },
        None => {},
    }
    if rows.len() == 0 {
        None
    } else if index < rows.len() {
        Some(index)
    } else {
        Some(rows.len() - 1)
    }
}

/// The row that lies so many below another, between the first and the last.
pub open spec fn row_below(row: int, delta: int, len: int) -> int {
    if row + delta < 0 {
        0
    } else if row + delta >= len {
        len - 1
    } else {
        row + delta
    }
}

/// The row that the focus moves to, the first where none has it.
pub fn focus_relative(rows: usize, focused: Option<usize>, delta: i32) -> (row: Option<usize>)
    requires
        focused is Some ==> focused->0 < rows,
    ensures
        row == (if rows == 0 {
            None
        } else {
            Some(
                match focused {
                    Some(i) => row_below(i as int, delta as int, rows as int) as usize,
                    None => 0,
                },
            )
        }),
{
    if rows == 0 {
        return None;
    }
    match focused {
        None => Some(0),
        Some(i) => {
            if delta < 0 {
                let up: usize = (-(delta as i64)) as usize;
                if up > i {
                    Some(0)
                } else {
                    Some(i - up)
                }
            } else {
                let down: usize = delta as usize;
                if down > rows - 1 - i {
                    Some(rows - 1)
                } else {
                    Some(i + down)
                }
            }
        },
    }
}

// ---- what the windows show -----------------------------------------------------------

/// A stopwatch shows the minutes and the seconds of a time in two digits each, behind
/// the hours where there are any.
pub proof fn law_a_stopwatch_shows_the_time(secs: u64, h: nat, m: nat, s: nat)
    requires
        secs == h * 3600 + m * 60 + s,
        m < 60,
        s < 60,
    ensures
        forall|t: String| #[trigger]
            call_ensures(fmt_elapsed, (secs,), t) ==> t@ == (if h > 0 {
                text::decimal(h) + ":"@
            } else {
                Seq::empty()
            }) + text::two_digits(m) + ":"@ + text::two_digits(s),
{
    assert(secs / 3600 == h && (secs % 3600) / 60 == m && secs % 60 == s) by (nonlinear_arith)
        requires
            secs == h * 3600 + m * 60 + s,
            m < 60,
            s < 60,
    ;
    assert(Seq::<char>::empty() + text::two_digits(m) =~= text::two_digits(m));
}

/// The label shows the stopwatch of the current task, and nothing without one.
pub proof fn law_the_label_shows_the_current_clock(store: Store, now: u64)
    ensures
        forall|t: String| #[trigger]
            call_ensures(timer_label_at, (&store, now), t) ==> {
                let m = crate::promises::members(store@, Bucket::Now);
                t@ == (if m.len() > 0 && m[0].elapsed(now) is Some {
                    stopwatch(m[0].elapsed(now)->0)
                } else {
                    Seq::empty()
                })
            },
{
    crate::promises::lemma_members(store@, Bucket::Now);
    crate::laws::law_current_is_the_head_of_now(store@);
}

/// A row is named after its task and found again by that name, and the pages by theirs.
pub proof fn law_rows_and_pages_are_found_by_name(id: u64, p: Page, name: &str)
    ensures
        forall|s: String| #[trigger]
            call_ensures(row_name, (id,), s) ==> s@ == "task-"@ + text::decimal(id as nat),
        forall|found: Option<u64>| #[trigger]
            call_ensures(row_id, (name,), found) && name@ == "task-"@ + text::decimal(id as nat)
                ==> found == Some(id),
        forall|found: Option<u64>| #[trigger]
            call_ensures(row_id, (name,), found) && !(name@.len() >= 5 && name@.take(5) == "task-"@)
                ==> found is None,
        forall|found: Option<u64>| #[trigger]
            call_ensures(row_id, (name,), found) && name@.len() >= 5 && name@.take(5) == "task-"@
                ==> {
                let rest = name@.skip(5);
                let body = if rest.len() > 0 && rest[0] == '+' {
                    rest.skip(1)
                } else {
                    rest
                };
                &&& found is Some <==> body.len() > 0 && text::all_digits(body)
                    && text::digits_value(body) <= u64::MAX
                &&& found matches Some(k) ==> k == text::digits_value(body)
            },
        forall|s: &'static str| #[trigger]
            call_ensures(Page::name, (p,), s) ==> s@ == (match p {
                Page::Queue => "queue"@,
                Page::Board => "board"@,
            }),
        forall|q: Page| #[trigger]
            call_ensures(Page::parse, (name,), q) ==> (q is Board <==> name@ == "board"@),
        forall|size: (i32, i32)| #[trigger]
            call_ensures(Page::window_size, (p,), size) ==> size == (match p {
                Page::Queue => (400i32, 640i32),
                Page::Board => (1040i32, 640i32),
            }),
{
    law_a_row_is_found_by_its_name(id);
}

/// A list shows the tasks of its bucket in order, without the current one where that has
/// the banner; and a drop on a row of it goes before the task of that row.
pub proof fn law_a_list_shows_its_bucket(plan: ListPlan, store: Store, id: u64, row: Option<usize>)
    ensures
        forall|tasks: Vec<&Task>| #[trigger]
            call_ensures(ListPlan::tasks, (&plan, &store), tasks) ==> {
                let m = crate::promises::members(store@, plan.bucket);
                let skip: int = if plan.skip_current && m.len() > 0 {
                    1
                } else {
                    0
                };
                &&& tasks@.len() == m.len() - skip
                &&& forall|i: int| 0 <= i < tasks@.len() ==> (#[trigger] tasks@[i])@ == m[i + skip]
            },
        forall|change: Change| #[trigger]
            call_ensures(ListPlan::drop_on, (&plan, id, row), change) && (row is Some ==> row->0
                < usize::MAX) ==> {
                &&& change matches Change::Drop(i, b, at)
                &&& i == id && b == plan.bucket
                &&& at is Some <==> row is Some
                &&& at matches Some(k) ==> k == row->0 + (if plan.skip_current {
                    1int
                } else {
                    0
                })
            },
{
    crate::promises::lemma_members(store@, plan.bucket);
    assert forall|tasks: Vec<&Task>| #[trigger]
        call_ensures(ListPlan::tasks, (&plan, &store), tasks) implies tasks@.len() == plan.rows(
        store@,
    ).len() && forall|i: int| 0 <= i < tasks@.len() ==> (#[trigger] tasks@[i])@ == plan.rows(
        store@,
    )[i] by {
        assert(order::ref_views(tasks@).len() == tasks@.len());
        assert forall|i: int| 0 <= i < tasks@.len() implies (#[trigger] tasks@[i])@ == plan.rows(
            store@,
        )[i] by {
            assert(order::ref_views(tasks@)[i] == tasks@[i]@);
        }
    }
}

/// The queue page lists Side, the rest of Now, Next and Later from top to bottom, and the
/// board Now, Side, Next and Later from left to right; the rest of Now and Next are one
/// section, and every other list is one of its own.
pub proof fn law_which_lists_there_are()
    ensures
        forall|plans: Vec<ListPlan>| #[trigger]
            call_ensures(ListPlan::all, (), plans) ==> {
                &&& plans@.len() == 8
                &&& forall|i: int|
                    0 <= i < 8 ==> (#[trigger] plans@[i]).page == (if i < 4 {
                        Page::Queue
                    } else {
                        Page::Board
                    }) && plans@[i].skip_current == (i == 1) && plans@[i].style == (if i < 3 {
                        RowStyle::Queue
                    } else if i == 3 {
                        RowStyle::Later
                    } else {
                        RowStyle::Board
                    })
                &&& plans@[0].bucket is Side && plans@[1].bucket is Now && plans@[2].bucket is Next
                    && plans@[3].bucket is Later
                &&& plans@[4].bucket is Now && plans@[5].bucket is Side && plans@[6].bucket is Next
                    && plans@[7].bucket is Later
            },
        forall|sections: Vec<Section>, plans: Vec<ListPlan>| #[trigger]
            call_ensures(Section::all, (), sections) && #[trigger] call_ensures(
                ListPlan::all,
                (),
                plans,
            ) ==> {
                &&& sections@.len() == 7
                &&& sections@[0].first == plans@[0] && sections@[0].second is None
                &&& sections@[1].first == plans@[1] && sections@[1].second == Some(plans@[2])
                &&& sections@[1].bucket is Next
                &&& forall|i: int|
                    2 <= i < 7 ==> (#[trigger] sections@[i]).first == plans@[i + 1]
                        && sections@[i].second is None
                &&& forall|i: int|
                    0 <= i < 7 && i != 1 ==> (#[trigger] sections@[i]).bucket
                        == sections@[i].first.bucket
            },
{
}

/// Whether some rows are the ids of tasks.
pub open spec fn are_ids(rows: Seq<u64>, tasks: Seq<TaskView>) -> bool {
    &&& rows.len() == tasks.len()
    &&& forall|i: int| 0 <= i < rows.len() ==> #[trigger] rows[i] == tasks[i].id
}

/// What can be seen of the queue page, from top to bottom, is the current task, Side, the
/// rest of Now, Next, and Later where its shelf is open; of the board it is Now, Side,
/// Next and Later.
pub proof fn law_what_can_be_seen(store: Store, page: Page, later_open: bool)
    ensures
        forall|rows: Vec<u64>| #[trigger]
            call_ensures(visible_rows, (&store, page, later_open), rows) ==> {
                let now = crate::promises::members(store@, Bucket::Now);
                let side = crate::promises::members(store@, Bucket::Side);
                let next = crate::promises::members(store@, Bucket::Next);
                let later = crate::promises::members(store@, Bucket::Later);
                let first = if now.len() > 0 {
                    now.take(1)
                } else {
                    now
                };
                let rest = if now.len() > 0 {
                    now.skip(1)
                } else {
                    now
                };
                match page {
                    Page::Queue => are_ids(
                        rows@,
                        first + side + rest + next + (if later_open {
                            later
                        } else {
                            Seq::empty()
                        }),
                    ),
                    Page::Board => are_ids(rows@, now + side + next + later),
                }
            },
{
    let s = store@;
    crate::promises::lemma_members(s, Bucket::Now);
    crate::promises::lemma_members(s, Bucket::Side);
    crate::promises::lemma_members(s, Bucket::Next);
    crate::promises::lemma_members(s, Bucket::Later);
    crate::laws::law_current_is_the_head_of_now(s);
    let p = list_plans();
    let (t1, t2, t3, t4, t5, t6, t7) = (
        p.take(1),
        p.take(2),
        p.take(3),
        p.take(4),
        p.take(5),
        p.take(6),
        p.take(7),
    );
    assert(p.drop_last() =~= t7);
    assert(t7.drop_last() =~= t6);
    assert(t6.drop_last() =~= t5);
    assert(t5.drop_last() =~= t4);
    assert(t4.drop_last() =~= t3);
    assert(t3.drop_last() =~= t2);
    assert(t2.drop_last() =~= t1);
    assert(t1.drop_last() =~= Seq::<ListPlan>::empty());
    reveal_with_fuel(seen_in, 9);
    let none = Seq::<u64>::empty();
    let now = s.in_bucket(Bucket::Now);
    let side = ids(s.in_bucket(Bucket::Side));
    let next = ids(s.in_bucket(Bucket::Next));
    let later = ids(s.in_bucket(Bucket::Later));
    let rest = ids(p[1].rows(s));
    assert(seen_in(t1.drop_last(), s, page, later_open) =~= none);
    match page {
        Page::Queue => {
            assert(seen_in(p, s, page, later_open) =~= side + rest + next + (if later_open {
                later
            } else {
                none
            }));
        },
        Page::Board => {
            assert(seen_in(p, s, page, later_open) =~= ids(now) + side + next + later);
        },
    }
}

/// The focus stays on its row where that can be seen, else on the same place or the last;
/// it goes so many rows down or up, no further than the ends, and to the first row where
/// none has it.
pub proof fn law_where_the_focus_goes(
    rows: Vec<u64>,
    id: Option<u64>,
    index: usize,
    n: usize,
    focused: Option<usize>,
    delta: i32,
)
    requires
        focused is Some ==> focused->0 < n,
    ensures
        forall|row: Option<usize>| #[trigger]
            call_ensures(refocus, (&rows, id, index), row) ==> {
                &&& row is None <==> rows@.len() == 0
                &&& row matches Some(k) ==> {
                    &&& k < rows@.len()
                    &&& id is Some && rows@.contains(id->0) ==> rows@[k as int] == id->0
                    &&& !(id is Some && rows@.contains(id->0)) ==> k == (if index < rows@.len() {
                        index as int
                    } else {
                        rows@.len() - 1
                    })
                }
            },
        forall|row: Option<usize>| #[trigger]
            call_ensures(focus_relative, (n, focused, delta), row) ==> {
                &&& row is None <==> n == 0
                &&& row is Some && focused is None ==> row == Some(0usize)
                &&& row is Some && focused is Some ==> {
                    let to = focused->0 + delta;
                    &&& 0 <= to < n ==> row->0 == to
                    &&& to < 0 ==> row->0 == 0
                    &&& to >= n ==> row->0 == n - 1
                }
            },
        id is Some ==> forall|k: usize| #[trigger]
            call_ensures(visual_index, (&rows, id->0), k) ==> if rows@.contains(id->0) {
                k < rows@.len() && rows@[k as int] == id->0
            } else {
                k == 0
            },
{
    if id is Some {
        lemma_place_in(rows@, id->0);
    }
    assert(rows@.len() == rows.len());
}

proof fn lemma_place_in(rows: Seq<u64>, id: u64)
    ensures
        0 <= place_in(rows, id) <= rows.len(),
        place_in(rows, id) < rows.len() <==> rows.contains(id),
        place_in(rows, id) < rows.len() ==> rows[place_in(rows, id)] == id,
    decreases rows.len(),
{
    if rows.len() > 0 {
        let rest = rows.drop_first();
        if rows[0] != id {
            lemma_place_in(rest, id);
            if rows.contains(id) {
                let k = choose|k: int| 0 <= k < rows.len() && rows[k] == id;
                assert(rest[k - 1] == id);
            }
            if place_in(rest, id) < rest.len() {
                assert(rows[place_in(rest, id) + 1] == id);
            }
        } else {
            assert(rows[0] == id);
        }
    }
}

/// The label shows the clock of the current task at some time, and nothing without one; and
/// a section counts the rows of its lists.
pub proof fn law_a_section_counts_its_rows(store: Store, section: Section)
    ensures
        forall|t: String| #[trigger]
            call_ensures(timer_label, (&store,), t) ==> {
                let m = crate::promises::members(store@, Bucket::Now);
                exists|now: u64|
                    t@ == (match #[trigger] m[0].elapsed(now) {
                        Some(secs) => if m.len() > 0 {
                            stopwatch(secs)
                        } else {
                            Seq::empty()
                        },
                        None => Seq::empty(),
                    })
            },
        forall|n: usize| #[trigger]
            call_ensures(Section::count, (&section, &store), n) ==> n == listed_in(
                section.first,
                store@,
            ) + (match section.second {
                Some(plan) => listed_in(plan, store@),
                None => 0,
            }),
{
    let m = crate::promises::members(store@, Bucket::Now);
    crate::promises::lemma_members(store@, Bucket::Now);
    crate::laws::law_current_is_the_head_of_now(store@);
    crate::promises::lemma_members(store@, section.first.bucket);
    if section.second is Some {
        crate::promises::lemma_members(store@, section.second->0.bucket);
    }
    assert forall|t: String| #[trigger] call_ensures(timer_label, (&store,), t) implies exists|
        now: u64,
    |
        t@ == (match #[trigger] m[0].elapsed(now) {
            Some(secs) => if m.len() > 0 {
                stopwatch(secs)
            } else {
                Seq::empty()
            },
            None => Seq::empty(),
        }) by {
        let now = choose|now: u64| t@ == #[trigger] timer_words(store@, now);
        let e = m[0].elapsed(now);
    }
}

/// How many tasks a list shows: those of its bucket, without the current one where it
/// leaves that to the banner.
pub open spec fn listed_in(plan: ListPlan, s: StoreView) -> int {
    let n = crate::promises::members(s, plan.bucket).len();
    if plan.skip_current && n > 0 {
        n - 1
    } else {
        n as int
    }
}

} // verus!
