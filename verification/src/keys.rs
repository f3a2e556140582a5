//! What the keys mean, in the window and in its entries.

use crate::change::Change;
use crate::change::Effect;
use crate::model::Bucket;
use crate::ui::Page;
use vstd::prelude::*;

verus! {

/// A key. Letters, digits and signs are their characters.
#[derive(Debug, Clone, Copy, PartialEq, Eq, Structural)]
pub enum Key {
    Escape,
    Enter,
    Delete,
    F2,
    Char(char),
    Other,
}

/// What the window does.
#[derive(Debug, Clone, Copy, PartialEq, Eq, Structural)]
pub enum Act {
    /// Leave the key to others.
    Pass,
    /// Take the key, and do nothing.
    Ignore,
    ShowPage(Page),
    Hide,
    FocusEntry,
    ToggleLater,
    ToggleShortcuts,
    /// Move the focus so many rows down.
    FocusBy(i32),
    BeginRename(u64),
    TogglePause,
    Promote(u64),
    Done(u64),
    Remove(u64),
    CycleTag(u64),
    Shift(u64, i32),
    /// Move to the end of a bucket.
    MoveTo(u64, Bucket),
}

impl Act {
    /// The change to the store that the act makes, if it makes one.
    pub open spec fn asks(self) -> Option<Change> {
        match self {
            Act::TogglePause => Some(Change::TogglePause),
            Act::Promote(id) => Some(Change::Promote(id)),
            Act::Done(id) => Some(Change::Done(id)),
            Act::Remove(id) => Some(Change::Remove(id)),
            Act::CycleTag(id) => Some(Change::CycleTag(id)),
            Act::Shift(id, delta) => Some(Change::Shift(id, delta)),
            Act::MoveTo(id, bucket) => Some(Change::Move(id, bucket, None)),
            _ => None,
        }
    }

    pub fn change(self) -> (change: Option<Change>)
        ensures
            change == self.asks(),
    {
        match self {
            Act::TogglePause => Some(Change::TogglePause),
            Act::Promote(id) => Some(Change::Promote(id)),
            Act::Done(id) => Some(Change::Done(id)),
            Act::Remove(id) => Some(Change::Remove(id)),
            Act::CycleTag(id) => Some(Change::CycleTag(id)),
            Act::Shift(id, delta) => Some(Change::Shift(id, delta)),
            Act::MoveTo(id, bucket) => Some(Change::Move(id, bucket, None)),
            _ => None,
        }
    }
}

/// What a key with Control means.
pub open spec fn ctrl_meaning(key: Key) -> Act {
    match key {
        Key::Char('1') => Act::ShowPage(Page::Queue),
        Key::Char('2') => Act::ShowPage(Page::Board),
        Key::Char('w') => Act::Hide,
        Key::Char('q') => Act::Hide,
        _ => Act::Pass,
    }
}

/// What a key means that acts on no task.
pub open spec fn window_meaning(key: Key) -> Act {
    match key {
        Key::Escape => Act::Hide,
        Key::Char('n') => Act::FocusEntry,
        Key::Char('/') => Act::FocusEntry,
        Key::Char('a') => Act::FocusEntry,
        Key::Char('b') => Act::ShowPage(Page::Board),
        Key::Char('q') => Act::ShowPage(Page::Queue),
        Key::Char('l') => Act::ToggleLater,
        Key::Char('j') => Act::FocusBy(1),
        Key::Char('k') => Act::FocusBy(-1i32),
        Key::Char('p') => Act::TogglePause,
        Key::Char('?') => Act::ToggleShortcuts,
        _ => Act::Pass,
    }
}

/// What a key means for the task that it acts on.
pub open spec fn task_meaning(key: Key, id: u64) -> Act {
    match key {
        Key::F2 => Act::BeginRename(id),
        Key::Delete => Act::Done(id),
        Key::Char('r') => Act::BeginRename(id),
        Key::Char('J') => Act::Shift(id, 1),
        Key::Char('K') => Act::Shift(id, -1i32),
        Key::Char('d') => Act::Done(id),
        Key::Char('x') => Act::Done(id),
        Key::Char('t') => Act::CycleTag(id),
        Key::Char('1') => Act::Promote(id),
        Key::Char('2') => Act::MoveTo(id, Bucket::Next),
        Key::Char('3') => Act::MoveTo(id, Bucket::Later),
        Key::Char('4') => Act::MoveTo(id, Bucket::Side),
        _ => Act::Pass,
    }
}

/// Whether a key asks for a rename.
pub open spec fn renames(key: Key) -> bool {
    key == Key::F2 || key == Key::Char('r')
}

/// The task that the keys act on: the focused one, or else the current one.
pub open spec fn target(focused: Option<u64>, current: Option<u64>) -> Option<u64> {
    if focused is Some {
        focused
    } else {
        current
    }
}

/// What a key means in the window. Without Control, keys belong to an entry that is
/// being edited; the keys of a task are left to others where there is no task,
/// except for those that rename.
pub open spec fn meaning(key: Key, ctrl: bool, editing: bool, task: Option<u64>) -> Act {
    if ctrl {
        ctrl_meaning(key)
    } else if editing {
        Act::Pass
    } else if !(window_meaning(key) is Pass) {
        window_meaning(key)
    } else {
        match task {
            Some(id) => task_meaning(key, id),
            None => if renames(key) {
                Act::Ignore
            } else {
                Act::Pass
            },
        }
    }
}

fn on_ctrl_key(key: Key) -> (act: Act)
    ensures
        act == ctrl_meaning(key),
{
    match key {
        Key::Char('1') => Act::ShowPage(Page::Queue),
        Key::Char('2') => Act::ShowPage(Page::Board),
        Key::Char('w') => Act::Hide,
        Key::Char('q') => Act::Hide,
        _ => Act::Pass,
    }
}

fn on_task_key(key: Key, id: u64) -> (act: Act)
    ensures
        act == task_meaning(key, id),
{
    match key {
        Key::F2 => Act::BeginRename(id),
        Key::Delete => Act::Done(id),
        Key::Char('r') => Act::BeginRename(id),
        Key::Char('J') => Act::Shift(id, 1),
        Key::Char('K') => Act::Shift(id, -1),
        Key::Char('d') => Act::Done(id),
        Key::Char('x') => Act::Done(id),
        Key::Char('t') => Act::CycleTag(id),
        Key::Char('1') => Act::Promote(id),
        Key::Char('2') => Act::MoveTo(id, Bucket::Next),
        Key::Char('3') => Act::MoveTo(id, Bucket::Later),
        Key::Char('4') => Act::MoveTo(id, Bucket::Side),
        _ => Act::Pass,
    }
}

/// What a key means in the window, with the focused and the current task.
pub fn on_key(
    key: Key,
    ctrl: bool,
    editing: bool,
    focused: Option<u64>,
    current: Option<u64>,
) -> (act: Act)
    ensures
        act == meaning(key, ctrl, editing, target(focused, current)),
{
    if ctrl {
        return on_ctrl_key(key);
    }
    if editing {
        return Act::Pass;
    }
    let task: Option<u64> = if focused.is_some() {
        focused
    } else {
        current
    };
    match key {
        Key::Escape => Act::Hide,
        Key::Char('n') => Act::FocusEntry,
        Key::Char('/') => Act::FocusEntry,
        Key::Char('a') => Act::FocusEntry,
        Key::Char('b') => Act::ShowPage(Page::Board),
        Key::Char('q') => Act::ShowPage(Page::Queue),
        Key::Char('l') => Act::ToggleLater,
        Key::Char('j') => Act::FocusBy(1),
        Key::Char('k') => Act::FocusBy(-1),
        Key::Char('p') => Act::TogglePause,
        Key::Char('?') => Act::ToggleShortcuts,
        _ => match task {
            Some(id) => on_task_key(key, id),
            None => if key == Key::F2 || key == Key::Char('r') {
                Act::Ignore
            } else {
                Act::Pass
            },
        },
    }
}

/// What an entry does with a key.
#[derive(Debug, Clone, Copy, PartialEq, Eq, Structural)]
pub enum EntryAct {
    /// Leave the key to the entry.
    Pass,
    /// Add what was typed, to this bucket where it names none.
    Submit(Bucket),
    Clear,
    FocusRows,
    Close,
}

/// The bucket of a task that Enter adds.
pub const ENTER_BUCKET: Bucket = Bucket::Next;

/// What a key means in the entry of the window: Control and Enter add to Now,
/// Escape clears what was typed, or else goes back to the rows.
pub fn entry_key(key: Key, ctrl: bool, empty: bool) -> (act: EntryAct)
    ensures
        act == (match key {
            Key::Enter => if ctrl {
                EntryAct::Submit(Bucket::Now)
            } else {
                EntryAct::Pass
            },
            Key::Escape => if empty {
                EntryAct::FocusRows
            } else {
                EntryAct::Clear
            },
            _ => EntryAct::Pass,
        }),
{
    match key {
        Key::Enter => if ctrl {
            EntryAct::Submit(Bucket::Now)
        } else {
            EntryAct::Pass
        },
        Key::Escape => if empty {
            EntryAct::FocusRows
        } else {
            EntryAct::Clear
        },
        _ => EntryAct::Pass,
    }
}

/// What a key means in the quick-add window: Control and Enter add to Now, Escape
/// closes it.
pub fn quick_key(key: Key, ctrl: bool) -> (act: EntryAct)
    ensures
        act == (match key {
            Key::Escape => EntryAct::Close,
            Key::Enter => if ctrl {
                EntryAct::Submit(Bucket::Now)
            } else {
                EntryAct::Pass
            },
            _ => EntryAct::Pass,
        }),
{
    match key {
        Key::Escape => EntryAct::Close,
        Key::Enter => if ctrl {
            EntryAct::Submit(Bucket::Now)
        } else {
            EntryAct::Pass
        },
        _ => EntryAct::Pass,
    }
}

/// Whether an entry is done with what was typed: it was added and saved. The entry
/// is then cleared, and the quick-add window closes.
pub fn is_submitted(saved: Option<Effect>) -> (submitted: bool)
    ensures
        submitted == (saved is Some && saved->0 is Added),
{
    match saved {
        Some(Effect::Added(_)) => true,
        _ => false,
    }
}

/// What asking for the window means: hide it where it is in front, else bring the
/// queue to the front.
pub fn toggle(shown: bool, active: bool) -> (act: Act)
    ensures
        act == (if shown && active {
            Act::Hide
        } else {
            Act::ShowPage(Page::Queue)
        }),
{
    if shown && active {
        Act::Hide
    } else {
        Act::ShowPage(Page::Queue)
    }
}

/// While an entry is being edited the window takes no key without Control, and a
/// key never changes a task that it does not act on.
pub proof fn law_keys_act_on_their_task_only(key: Key, ctrl: bool, editing: bool, task: Option<u64>)
    ensures
        editing && !ctrl ==> meaning(key, ctrl, editing, task) is Pass,
        ctrl ==> meaning(key, ctrl, editing, task).asks() is None,
        task is None ==> (match meaning(key, ctrl, editing, task).asks() {
            None => true,
            Some(change) => change is TogglePause,
        }),
        task matches Some(id) ==> (match meaning(key, ctrl, editing, task).asks() {
            None => true,
            Some(Change::TogglePause) => true,
            Some(Change::Promote(i)) => i == id,
            Some(Change::Done(i)) => i == id,
            Some(Change::CycleTag(i)) => i == id,
            Some(Change::Shift(i, _)) => i == id,
            Some(Change::Move(i, _, index)) => i == id && index is None,
            Some(_) => false,
        }),
{
}

/// What every key means, for whatever task has the focus or else is current. With
/// Control: 1 and 2 show the pages, w and q hide the window. Without it, and with no
/// entry being edited: Escape hides; n, / and a go to the entry; b and q show the pages;
/// l opens the Later shelf; j and k go a row down and up; p pauses; ? shows the keys; and
/// of the task, F2 and r rename it, Delete, d and x mark it done, J and K shift it down
/// and up, t cycles its tag, and 1 to 4 send it to Now, Next, Later and Side. Nothing
/// else means anything.
pub proof fn law_what_every_key_means(
    key: Key,
    ctrl: bool,
    editing: bool,
    focused: Option<u64>,
    current: Option<u64>,
)
    ensures
        forall|act: Act| #[trigger]
            call_ensures(on_key, (key, ctrl, editing, focused, current), act) ==> {
                let task = if focused is Some {
                    focused
                } else {
                    current
                };
                let is = |c: char| key == Key::Char(c);
                let free = !ctrl && !editing;
                &&& act == Act::ShowPage(Page::Queue) <==> (ctrl && is('1')) || (free && is('q'))
                &&& act == Act::ShowPage(Page::Board) <==> (ctrl && is('2')) || (free && is('b'))
                &&& act == Act::Hide <==> (ctrl && (is('w') || is('q'))) || (free && key
                    == Key::Escape)
                &&& act == Act::FocusEntry <==> free && (is('n') || is('/') || is('a'))
                &&& act == Act::ToggleLater <==> free && is('l')
                &&& act == Act::ToggleShortcuts <==> free && is('?')
                &&& act == Act::TogglePause <==> free && is('p')
                &&& act is FocusBy <==> free && (is('j') || is('k'))
                &&& act is FocusBy ==> act->FocusBy_0 == (if is('j') {
                    1i32
                } else {
                    -1i32
                })
                &&& act == Act::Ignore <==> free && task is None && (key == Key::F2 || is('r'))
                &&& act is BeginRename <==> free && task is Some && (key == Key::F2 || is('r'))
                &&& act is BeginRename ==> Some(act->BeginRename_0) == task
                &&& act is Done <==> free && task is Some && (key == Key::Delete || is('d') || is(
                    'x',
                ))
                &&& act is Done ==> Some(act->Done_0) == task
                &&& act is CycleTag <==> free && task is Some && is('t')
                &&& act is CycleTag ==> Some(act->CycleTag_0) == task
                &&& act is Shift <==> free && task is Some && (is('J') || is('K'))
                &&& act is Shift ==> Some(act->Shift_0) == task && act->Shift_1 == (if is('J') {
                    1i32
                } else {
                    -1i32
                })
                &&& act is Promote <==> free && task is Some && is('1')
                &&& act is Promote ==> Some(act->Promote_0) == task
                &&& act is MoveTo <==> free && task is Some && (is('2') || is('3') || is('4'))
                &&& act is MoveTo ==> Some(act->MoveTo_0) == task && act->MoveTo_1 == (if is('2') {
                    Bucket::Next
                } else if is('3') {
                    Bucket::Later
                } else {
                    Bucket::Side
                })
                &&& !(act is Remove)
            },
{
}

/// What an act changes: the task that it is about, in the way that it says, and nothing
/// where it only shows something.
pub proof fn law_what_an_act_changes(act: Act)
    ensures
        forall|change: Option<Change>| #[trigger]
            call_ensures(Act::change, (act,), change) ==> match act {
                Act::TogglePause => change == Some(Change::TogglePause),
                Act::Promote(id) => change == Some(Change::Promote(id)),
                Act::Done(id) => change == Some(Change::Done(id)),
                Act::Remove(id) => change == Some(Change::Remove(id)),
                Act::CycleTag(id) => change == Some(Change::CycleTag(id)),
                Act::Shift(id, delta) => change == Some(Change::Shift(id, delta)),
                Act::MoveTo(id, b) => change == Some(Change::Move(id, b, None)),
                _ => change is None,
            },
{
}

/// In the entries Control and Enter add to Now; Escape closes the quick-add window, and
/// in the window clears what was typed or, where nothing was, goes back to the rows. Every
/// other key is typed. What was typed is done with exactly where a task was added. Asking
/// for the window hides it where it is in front, and else shows the queue.
pub proof fn law_what_keys_mean_in_an_entry(
    key: Key,
    ctrl: bool,
    empty: bool,
    saved: Option<Effect>,
    shown: bool,
    active: bool,
)
    ensures
        forall|act: EntryAct| #[trigger]
            call_ensures(entry_key, (key, ctrl, empty), act) ==> {
                &&& act is Submit <==> key == Key::Enter && ctrl
                &&& act is Submit ==> act == EntryAct::Submit(Bucket::Now)
                &&& act is FocusRows <==> key == Key::Escape && empty
                &&& act is Clear <==> key == Key::Escape && !empty
                &&& !(act is Close)
            },
        forall|act: EntryAct| #[trigger]
            call_ensures(quick_key, (key, ctrl), act) ==> {
                &&& act is Submit <==> key == Key::Enter && ctrl
                &&& act is Submit ==> act == EntryAct::Submit(Bucket::Now)
                &&& act is Close <==> key == Key::Escape
                &&& act is Submit || act is Close || act is Pass
            },
        forall|done: bool| #[trigger]
            call_ensures(is_submitted, (saved,), done) ==> done == (saved is Some && saved->0
                is Added),
        forall|act: Act| #[trigger]
            call_ensures(toggle, (shown, active), act) ==> act == (if shown && active {
                Act::Hide
            } else {
                Act::ShowPage(Page::Queue)
            }),
{
}

/// Enter adds to Next where the text names no bucket.
pub proof fn law_enter_adds_to_next()
    ensures
        ENTER_BUCKET == Bucket::Next,
{
}

} // verus!
