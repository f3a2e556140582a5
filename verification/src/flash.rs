//! The reminder's clock: every so often, ask the shell to flash the current task
//! across the screen.
//!
//! What is sent is one self-contained event per flash: everything needed to draw
//! it, so a shell that has only just connected still draws the right thing.

use crate::clock::unix_now;
use crate::json;
use crate::json::Json;
use crate::json::JsonTree;
use crate::model::TaskView;
use crate::queue::Store;
use crate::queue::StoreView;
use crate::settings;
use crate::settings::pick_style;
use crate::settings::FlashStyle;
use crate::settings::Hold;
use crate::settings::Intensity;
use crate::settings::Palette;
use crate::settings::Settings;
use crate::settings::TimeOfDay;
use crate::text;
use vstd::prelude::*;

verus! {

// ---- one flash -----------------------------------------------------------------------

/// One flash, as the extension receives it.
#[derive(Debug, PartialEq, Eq)]
pub struct FlashEvent {
    pub style: FlashStyle,
    pub intensity: Intensity,
    pub palette: Palette,
    pub title: String,
    /// Already formatted, so the flash and the top bar always read the same.
    pub timer: String,
}

/// What a `FlashEvent` holds.
#[verifier::ext_equal]
pub struct FlashEventView {
    pub style: FlashStyle,
    pub intensity: Intensity,
    pub palette: Palette,
    pub title: Seq<char>,
    pub timer: Seq<char>,
}

impl View for FlashEvent {
    type V = FlashEventView;

    open spec fn view(&self) -> FlashEventView {
        FlashEventView {
            style: self.style,
            intensity: self.intensity,
            palette: self.palette,
            title: self.title@,
            timer: self.timer@,
        }
    }
}

impl Clone for FlashEvent {
    fn clone(&self) -> (e: Self)
        ensures
            e@ == self@,
    {
        FlashEvent {
            style: self.style,
            intensity: self.intensity,
            palette: self.palette,
            title: self.title.clone(),
            timer: self.timer.clone(),
        }
    }
}

impl FlashEventView {
    /// The members of the object that goes over the bus.
    pub open spec fn members(self) -> Seq<(Seq<char>, JsonTree)> {
        seq![
            ("intensity"@, JsonTree::Text(self.intensity.name())),
            ("palette"@, JsonTree::Text(self.palette.name())),
            ("style"@, JsonTree::Text(self.style.name())),
            ("timer"@, JsonTree::Text(self.timer)),
            ("title"@, JsonTree::Text(self.title)),
        ]
    }
}

proof fn lemma_event_keeps(e: FlashEventView)
    ensures
        json::keeps(JsonTree::Object(e.members()), json::MAX_DEPTH as nat),
{
    reveal_strlit("intensity");
    reveal_strlit("palette");
    reveal_strlit("style");
    reveal_strlit("timer");
    reveal_strlit("title");
    let f = e.members();
    assert(f[0].0.len() == 9);
    assert(f[1].0.len() == 7);
    assert(f[2].0.len() == 5 && f[2].0[0] == 's');
    assert(f[3].0.len() == 5 && f[3].0[0] == 't' && f[3].0[2] == 'm');
    assert(f[4].0.len() == 5 && f[4].0[0] == 't' && f[4].0[2] == 't');
    json::lemma_object_keeps(f, json::MAX_DEPTH as nat);
}

impl FlashEvent {
    /// The event as the object that goes over the bus.
    pub fn to_json(&self) -> (s: String)
        ensures
            s@ == json::compact(JsonTree::Object(self@.members())),
            json::parsed(s@) == Ok::<JsonTree, Seq<char>>(JsonTree::Object(self@.members())),
    {
        broadcast use json::lemma_parts;

        let mut f: Vec<(String, Json)> = Vec::new();
        f.push(("intensity".to_string(), Json::Text(self.intensity.as_str().to_string())));
        f.push(("palette".to_string(), Json::Text(self.palette.as_str().to_string())));
        f.push(("style".to_string(), Json::Text(self.style.as_str().to_string())));
        f.push(("timer".to_string(), Json::Text(self.timer.clone())));
        f.push(("title".to_string(), Json::Text(self.title.clone())));
        assert(json::members(f@) =~= self@.members());
        proof {
            lemma_event_keeps(self@);
        }
        json::print(Json::Object(f))
    }
}

/// The top bar's clock: minutes, or hours and two digits of minutes, and a mark
/// while paused.
pub open spec fn short_clock(secs: u64, paused: bool) -> Seq<char> {
    let h = (secs / 3600) as nat;
    let m = ((secs % 3600) / 60) as nat;
    let t = if h > 0 {
        text::decimal(h) + "h"@ + text::two_digits(m)
    } else {
        text::decimal(m) + "m"@
    };
    if paused {
        t + " ⏸"@
    } else {
        t
    }
}

/// The top bar's clock: `"12m"`, `"1h02"`, and `" ⏸"` while paused.
pub fn short_elapsed(secs: u64, paused: bool) -> (s: String)
    ensures
        s@ == short_clock(secs, paused),
{
    let h: u64 = secs / 3600;
    let m: u64 = (secs % 3600) / 60;
    let mut out: Vec<char> = Vec::new();
    if h > 0 {
        text::push_decimal(&mut out, h);
        text::push_text(&mut out, "h");
        text::push_two_digits(&mut out, m);
    } else {
        text::push_decimal(&mut out, m);
        text::push_text(&mut out, "m");
    }
    if paused {
        text::push_text(&mut out, " ⏸");
    }
    assert(out@ =~= short_clock(secs, paused));
    text::text_of(&out)
}

// ---- the clock -----------------------------------------------------------------------

/// A time so many seconds later, the end of time at most.
pub open spec fn later(now: u64, secs: u64) -> u64 {
    if now + secs <= u64::MAX {
        (now + secs) as u64
    } else {
        u64::MAX
    }
}

/// One second of the clock: the time the next flash is due, and whether to flash
/// right now. A held-back reminder starts its wait over, and the next flash is
/// never further away than the wait.
pub open spec fn advanced(now: u64, due: u64, interval: u64, held: bool) -> (u64, bool) {
    let full_wait = later(now, interval);
    if held {
        (full_wait, false)
    } else if now >= due || now == u64::MAX || interval == 0 {
        (full_wait, true)
    } else if due <= full_wait {
        (due, false)
    } else {
        (full_wait, false)
    }
}

/// Decide one second of the clock: the time the next flash is due, and whether to
/// flash right now.
///
/// A held-back reminder keeps pushing the next flash away, so the wait starts over
/// once there is something to be reminded of rather than firing the instant a task
/// appears.
pub fn advance(now: u64, due: u64, interval: u64, held: bool) -> (r: (u64, bool))
    ensures
        r == advanced(now, due, interval, held),
{
    let full_wait: u64 = now.saturating_add(interval);
    // A shortened interval, or a clock that jumped, must not park the next flash
    // further away than the wait the user asked for.
    let due: u64 = if due < full_wait {
        due
    } else {
        full_wait
    };
    if held {
        return (full_wait, false);
    }
    if now >= due {
        return (full_wait, true);
    }
    (due, false)
}

/// The schedule of the reminder.
pub struct FlashClock {
    /// Unix seconds at which the next flash is due.
    pub due: u64,
    /// The style used last, so the next one differs.
    pub last: Option<FlashStyle>,
}

/// The timer of a task as a flash shows it, empty for a task without one.
pub open spec fn timer_text(t: TaskView, now: u64) -> Seq<char> {
    match t.elapsed(now) {
        Some(secs) => short_clock(secs, t.paused()),
        None => seq![],
    }
}

impl FlashClock {
    /// The flash of a task.
    pub open spec fn event(self, t: TaskView, s: Settings, now: u64, random: u32) -> FlashEventView {
        FlashEventView {
            style: settings::picked(s.vary, self.last, random),
            intensity: s.intensity,
            palette: s.color.colour(t.tag),
            title: t.title,
            timer: timer_text(t, now),
        }
    }

    /// What a flash of the current task sends, nothing where there is none.
    pub open spec fn shown(self, store: StoreView, s: Settings, now: u64, random: u32) -> Option<
        FlashEventView,
    > {
        match store.current() {
            Some(t) => Some(self.event(t, s, now, random)),
            None => None,
        }
    }

    /// The clock behind such a flash: the next one is a full wait away.
    pub open spec fn fired(self, store: StoreView, s: Settings, now: u64, random: u32) -> FlashClock {
        match store.current() {
            Some(t) => FlashClock {
                due: later(now, (settings::clamped(s.interval_min) * 60) as u64),
                last: Some(settings::picked(s.vary, self.last, random)),
            },
            None => self,
        }
    }

    /// What one second of the clock decides.
    pub open spec fn second(self, store: StoreView, s: Settings, time: TimeOfDay, now: u64) -> (
        u64,
        bool,
    ) {
        advanced(
            now,
            self.due,
            (settings::clamped(s.interval_min) * 60) as u64,
            s.held(store.current(), time) != Hold::Nothing,
        )
    }

    /// A clock whose first flash is a full wait away.
    pub fn new_at(s: &Settings, now: u64) -> (clock: FlashClock)
        ensures
            clock == (FlashClock {
                due: later(now, (settings::clamped(s.interval_min) * 60) as u64),
                last: None,
            }),
    {
        FlashClock { due: now.saturating_add(s.interval_secs()), last: None }
    }

    pub fn new(s: &Settings) -> (clock: FlashClock)
        ensures
            exists|now: u64| #[trigger]
                later(now, (settings::clamped(s.interval_min) * 60) as u64) == clock.due,
            clock.last is None,
    {
        let now: u64 = unix_now();
        FlashClock::new_at(s, now)
    }

    /// Why the next flash is being held back, if it is.
    pub fn hold(&self, store: &Store, s: &Settings, time: TimeOfDay) -> (h: Hold)
        ensures
            h == s.held(store@.current(), time),
    {
        s.hold(store.current(), time)
    }

    /// Seconds until the next flash, or `None` while it is held back.
    pub fn remaining_at(
        &self,
        store: &Store,
        s: &Settings,
        time: TimeOfDay,
        now: u64,
    ) -> (secs: Option<u64>)
        ensures
            secs == (if s.held(store@.current(), time) == Hold::Nothing {
                Some(crate::model::since(self.due, now))
            } else {
                None
            }),
    {
        if self.hold(store, s, time).is_none() {
            Some(self.due.saturating_sub(now))
        } else {
            None
        }
    }

    pub fn remaining(&self, store: &Store, s: &Settings, time: TimeOfDay) -> (secs: Option<u64>)
        ensures
            secs is Some <==> s.held(store@.current(), time) == Hold::Nothing,
            secs is Some ==> exists|now: u64|
                secs->0 == #[trigger] crate::model::since(self.due, now),
    {
        let now: u64 = unix_now();
        self.remaining_at(store, s, time, now)
    }

    /// Make one flash of the current task, if there is one.
    pub fn fire_at(&mut self, store: &Store, s: &Settings, now: u64, random: u32) -> (e: Option<
        FlashEvent,
    >)
        ensures
            *final(self) == old(self).fired(store@, *s, now, random),
            match e {
                Some(e) => old(self).shown(store@, *s, now, random) == Some(e@),
                None => old(self).shown(store@, *s, now, random) is None,
            },
    {
        match store.current() {
            None => None,
            Some(task) => {
                let style: FlashStyle = pick_style(s.vary, self.last, random);
                let timer: String = match task.elapsed_secs(now) {
                    Some(secs) => short_elapsed(secs, task.is_paused()),
                    None => String::new(),
                };
                assert(timer@ =~= timer_text(task@, now));
                self.last = Some(style);
                self.due = now.saturating_add(s.interval_secs());
                Some(
                    FlashEvent {
                        style,
                        intensity: s.intensity,
                        palette: s.color.palette(task.tag),
                        title: task.title.clone(),
                        timer,
                    },
                )
            },
        }
    }

    /// Flash right now because the user asked to see one. The quiet rules are the
    /// reminder's own manners and do not apply to a request; an empty Now still has
    /// nothing to show, so that alone refuses.
    pub fn flash_now(&mut self, store: &Store, s: &Settings, random: u32) -> (e: Option<FlashEvent>)
        ensures
            e is Some <==> store@.current() is Some,
            exists|now: u64|
                {
                    &&& *final(self) == #[trigger] old(self).fired(store@, *s, now, random)
                    &&& e matches Some(e) ==> old(self).shown(store@, *s, now, random) == Some(e@)
                },
    {
        let now: u64 = unix_now();
        self.fire_at(store, s, now, random)
    }

    /// One second of the clock.
    pub fn tick_at(
        &mut self,
        store: &Store,
        s: &Settings,
        time: TimeOfDay,
        now: u64,
        random: u32,
    ) -> (e: Option<FlashEvent>)
        ensures
            ({
                let (due, fire) = old(self).second(store@, *s, time, now);
                let set = FlashClock { due, last: old(self).last };
                if fire {
                    &&& *final(self) == set.fired(store@, *s, now, random)
                    &&& e matches Some(e)
                    &&& set.shown(store@, *s, now, random) == Some(e@)
                } else {
                    *final(self) == set && e is None
                }
            }),
    {
        let held: bool = !self.hold(store, s, time).is_none();
        let (due, fire) = advance(now, self.due, s.interval_secs(), held);
        self.due = due;
        if fire {
            self.fire_at(store, s, now, random)
        } else {
            None
        }
    }

    pub fn tick(&mut self, store: &Store, s: &Settings, time: TimeOfDay, random: u32) -> (e: Option<
        FlashEvent,
    >)
        ensures
            exists|now: u64|
                {
                    let (due, fire) = #[trigger] old(self).second(store@, *s, time, now);
                    let set = FlashClock { due, last: old(self).last };
                    if fire {
                        &&& *final(self) == set.fired(store@, *s, now, random)
                        &&& e matches Some(e)
                        &&& set.shown(store@, *s, now, random) == Some(e@)
                    } else {
                        *final(self) == set && e is None
                    }
                },
    {
        let now: u64 = unix_now();
        self.tick_at(store, s, time, now, random)
    }
}

// ---- laws ----------------------------------------------------------------------------

/// A flash comes when it is due and nothing holds it back, and the next one is then
/// a full wait away; a held-back reminder never flashes and starts its wait over.
pub proof fn law_a_flash_comes_when_due(now: u64, due: u64, interval: u64)
    ensures
        advanced(now, due, interval, true) == (later(now, interval), false),
        now >= due ==> advanced(now, due, interval, false) == (later(now, interval), true),
        now < due && due <= later(now, interval) && now + interval <= u64::MAX && interval > 0
            ==> advanced(now, due, interval, false) == (due, false),
{
}

/// The next flash is never further away than the wait: a shorter interval brings it
/// forward, and a clock that jumps back does not leave the reminder stuck.
pub proof fn law_the_next_flash_is_never_beyond_the_wait(
    now: u64,
    due: u64,
    interval: u64,
    held: bool,
)
    ensures
        advanced(now, due, interval, held).0 <= later(now, interval),
        !held && !advanced(now, due, interval, held).1 ==> advanced(now, due, interval, held).0
            <= due,
{
}

/// Behind a flash or a held-back second there is no flash before the whole wait is
/// over, however the clock ran in between.
pub proof fn law_no_flash_comes_before_the_wait_is_over(
    now: u64,
    due: u64,
    interval: u64,
    held: bool,
    then: u64,
)
    requires
        interval > 0,
        advanced(now, due, interval, held).1 || held,
        then < now + interval,
        now + interval <= u64::MAX,
    ensures
        !advanced(then, advanced(now, due, interval, held).0, interval, false).1,
{
}

/// A second of the clock flashes nothing while anything holds it back, and never
/// asks for a flash without a current task.
pub proof fn law_a_held_back_clock_is_silent(
    clock: FlashClock,
    store: StoreView,
    s: Settings,
    time: TimeOfDay,
    now: u64,
)
    ensures
        s.held(store.current(), time) != Hold::Nothing ==> !clock.second(store, s, time, now).1,
        store.current() is None ==> !clock.second(store, s, time, now).1,
{
}

// ---- what the reminder does ----------------------------------------------------------

/// Whether a time is so many seconds behind another, or the last there is where that
/// would be beyond it.
pub open spec fn is_after(due: u64, now: u64, secs: int) -> bool {
    if now + secs <= u64::MAX {
        due == now + secs
    } else {
        due == u64::MAX
    }
}

/// One second of the reminder: it flashes exactly where nothing holds it back and the
/// time has come, or is further away than the wait; a flash, and a second that is held
/// back, put the next one a whole wait away; any other second leaves it, no further away
/// than the wait.
pub proof fn law_when_the_reminder_flashes(now: u64, due: u64, interval: u64, held: bool)
    ensures
        forall|r: (u64, bool)| #[trigger]
            call_ensures(advance, (now, due, interval, held), r) ==> {
                &&& r.1 <==> !held && (now >= due || interval == 0 || now == u64::MAX)
                &&& r.1 || held ==> is_after(r.0, now, interval as int)
                &&& !r.1 && !held ==> r.0 == due || (is_after(r.0, now, interval as int) && r.0
                    < due)
                &&& !r.1 && !held && due <= now + interval ==> r.0 == due
                &&& !r.1 && !held ==> r.0 <= now + interval
            },
{
}

/// The top bar shows whole minutes, or hours and two digits of minutes, of the time on
/// the clock, and a mark behind them while it is paused.
pub proof fn law_the_top_bar_shows_hours_and_minutes(
    secs: u64,
    paused: bool,
    h: nat,
    m: nat,
    r: nat,
)
    requires
        secs == h * 3600 + m * 60 + r,
        m < 60,
        r < 60,
    ensures
        forall|s: String| #[trigger]
            call_ensures(short_elapsed, (secs, paused), s) ==> s@ == (if h > 0 {
                text::decimal(h) + "h"@ + text::two_digits(m)
            } else {
                text::decimal(m) + "m"@
            }) + (if paused {
                " ⏸"@
            } else {
                Seq::empty()
            }),
{
    assert(secs / 3600 == h && (secs % 3600) / 60 == m) by (nonlinear_arith)
        requires
            secs == h * 3600 + m * 60 + r,
            m < 60,
            r < 60,
    ;
    let t = if h > 0 {
        text::decimal(h) + "h"@ + text::two_digits(m)
    } else {
        text::decimal(m) + "m"@
    };
    assert(t + Seq::<char>::empty() =~= t);
}

/// Whether a flash is of a task: with its title, in the colour for its tag, as loud as
/// was chosen, with the time on its clock, and in the style that the clock keeps as its
/// last.
pub open spec fn is_flash_of(
    e: FlashEventView,
    t: TaskView,
    s: Settings,
    before: FlashClock,
    after: FlashClock,
    now: u64,
    random: u32,
) -> bool {
    &&& e.title == t.title
    &&& e.intensity == s.intensity
    &&& e.palette == s.color.colour(t.tag)
    &&& e.style == settings::picked(s.vary, before.last, random)
    &&& after.last == Some(e.style)
    &&& e.timer == (match t.elapsed(now) {
        Some(secs) => short_clock(secs, t.started_at is Some && t.paused_at is Some),
        None => Seq::empty(),
    })
    &&& is_after(after.due, now, wait_of(s))
}

/// The wait of the settings, in seconds: the interval from 1 to 90 minutes.
pub open spec fn wait_of(s: Settings) -> int {
    if s.interval_min < 1 {
        60
    } else if s.interval_min > 90 {
        5400
    } else {
        s.interval_min * 60
    }
}

/// The first flash is a whole wait away, and what is left is counted down to it, unless
/// it is held back. A flash that is asked for is of the current task, whatever would
/// hold the reminder back; without one there is none.
pub proof fn law_a_flash_is_of_the_current_task(
    clock: FlashClock,
    store: Store,
    s: Settings,
    time: TimeOfDay,
    now: u64,
    random: u32,
)
    ensures
        forall|c: FlashClock| #[trigger]
            call_ensures(FlashClock::new_at, (&s, now), c) ==> is_after(c.due, now, wait_of(s))
                && c.last is None,
        forall|secs: Option<u64>| #[trigger]
            call_ensures(FlashClock::remaining_at, (&clock, &store, &s, time, now), secs) ==> {
                &&& secs is Some <==> s.held(store@.current(), time) == Hold::Nothing
                &&& secs matches Some(n) ==> if clock.due >= now {
                    now + n == clock.due
                } else {
                    n == 0
                }
            },
        forall|h: Hold| #[trigger]
            call_ensures(FlashClock::hold, (&clock, &store, &s, time), h) ==> h == s.held(
                store@.current(),
                time,
            ),
        forall|m: &mut FlashClock, e: Option<FlashEvent>|
            *m == clock && #[trigger] call_ensures(
                FlashClock::fire_at,
                (m, &store, &s, now, random),
                e,
            ) ==> match store@.current() {
                None => e is None && *final(m) == clock,
                Some(t) => e matches Some(e) && is_flash_of(
                    e@,
                    t,
                    s,
                    clock,
                    *final(m),
                    now,
                    random,
                ),
            },
{
}

/// A second of the reminder flashes the current task exactly where it is due and nothing
/// holds it back.
pub proof fn law_a_second_flashes_where_it_is_due(
    clock: FlashClock,
    store: Store,
    s: Settings,
    time: TimeOfDay,
    now: u64,
    random: u32,
)
    ensures
        forall|m: &mut FlashClock, e: Option<FlashEvent>|
            *m == clock && #[trigger] call_ensures(
                FlashClock::tick_at,
                (m, &store, &s, time, now, random),
                e,
            ) ==> is_second_of(clock, store@, s, time, now, random, *final(m), e),
{
}

/// A flash goes over the bus under the names of its parts.
pub proof fn law_a_flash_is_sent_under_the_names_of_its_parts(e: FlashEvent)
    ensures
        forall|s: String| #[trigger]
            call_ensures(FlashEvent::to_json, (&e,), s) ==> {
                &&& json::parsed(s@) matches Ok(JsonTree::Object(f))
                &&& f.len() == 5
                &&& json::field(f, "style"@) == Some(JsonTree::Text(e.style.name()))
                &&& json::field(f, "intensity"@) == Some(JsonTree::Text(e.intensity.name()))
                &&& json::field(f, "palette"@) == Some(JsonTree::Text(e.palette.name()))
                &&& json::field(f, "title"@) == Some(JsonTree::Text(e.title@))
                &&& json::field(f, "timer"@) == Some(JsonTree::Text(e.timer@))
            },
{
    lemma_event_keeps(e@);
    let f = e@.members();
    json::lemma_field_at(f, 0);
    json::lemma_field_at(f, 1);
    json::lemma_field_at(f, 2);
    json::lemma_field_at(f, 3);
    json::lemma_field_at(f, 4);
}

/// What the clock of the flashes does now, it does at some time.
pub proof fn law_the_flash_clock_goes_by_some_time(
    clock: FlashClock,
    store: Store,
    s: Settings,
    time: TimeOfDay,
    random: u32,
)
    ensures
        forall|c: FlashClock| #[trigger]
            call_ensures(FlashClock::new, (&s,), c) ==> c.last is None && exists|now: u64| #[trigger]
                is_after(c.due, now, wait_of(s)),
        forall|secs: Option<u64>| #[trigger]
            call_ensures(FlashClock::remaining, (&clock, &store, &s, time), secs) ==> (secs is Some
                <==> s.held(store@.current(), time) == Hold::Nothing) && (secs matches Some(n)
                ==> n <= clock.due),
        forall|m: &mut FlashClock, e: Option<FlashEvent>|
            *m == clock && #[trigger] call_ensures(
                FlashClock::flash_now,
                (m, &store, &s, random),
                e,
            ) ==> match store@.current() {
                None => e is None && *final(m) == clock,
                Some(t) => e is Some && exists|now: u64| #[trigger]
                    is_flash_of(e->0@, t, s, clock, *final(m), now, random),
            },
        forall|m: &mut FlashClock, e: Option<FlashEvent>|
            *m == clock && #[trigger] call_ensures(
                FlashClock::tick,
                (m, &store, &s, time, random),
                e,
            ) ==> exists|now: u64| #[trigger]
                is_second_of(clock, store@, s, time, now, random, *final(m), e),
{
    assert forall|now: u64|
        #![trigger later(now, (settings::clamped(s.interval_min) * 60) as u64)]
        is_after(
            later(now, (settings::clamped(s.interval_min) * 60) as u64),
            now,
            wait_of(s),
        ) by {}
    assert forall|m: &mut FlashClock, e: Option<FlashEvent>|
        *m == clock && #[trigger] call_ensures(FlashClock::flash_now, (m, &store, &s, random), e)
            && store@.current() is Some implies exists|now: u64| #[trigger]
        is_flash_of(e->0@, store@.current()->0, s, clock, *final(m), now, random) by {
        let after = *final(m);
        let now = choose|now: u64|
            {
                &&& after == #[trigger] clock.fired(store@, s, now, random)
                &&& e matches Some(e) ==> clock.shown(store@, s, now, random) == Some(e@)
            };
        assert(is_flash_of(e->0@, store@.current()->0, s, clock, after, now, random));
    }
    assert forall|m: &mut FlashClock, e: Option<FlashEvent>|
        *m == clock && #[trigger] call_ensures(FlashClock::tick, (m, &store, &s, time, random), e)
            implies exists|now: u64| #[trigger]
        is_second_of(clock, store@, s, time, now, random, *final(m), e) by {
        let after = *final(m);
        let now = choose|now: u64|
            {
                let (due, fire) = #[trigger] clock.second(store@, s, time, now);
                let set = FlashClock { due, last: clock.last };
                if fire {
                    &&& after == set.fired(store@, s, now, random)
                    &&& e matches Some(e)
                    &&& set.shown(store@, s, now, random) == Some(e@)
                } else {
                    after == set && e is None
                }
            };
        assert(is_second_of(clock, store@, s, time, now, random, after, e));
    }
}

/// Whether a second of the clock of the flashes at a time came out so: a flash of the
/// current task where it is due and nothing holds it back, with the next a whole wait away;
/// a wait that starts over while something does; and else nothing, with the next flash no
/// later than before and no more than a wait away.
pub open spec fn is_second_of(
    clock: FlashClock,
    store: StoreView,
    s: Settings,
    time: TimeOfDay,
    now: u64,
    random: u32,
    after: FlashClock,
    e: Option<FlashEvent>,
) -> bool {
    let held = s.held(store.current(), time) != Hold::Nothing;
    &&& e is Some <==> !held && (now >= clock.due || now == u64::MAX)
    &&& e is Some ==> store.current() is Some && is_flash_of(
        e->0@,
        store.current()->0,
        s,
        clock,
        after,
        now,
        random,
    )
    &&& e is None ==> after.last == clock.last
    &&& held ==> is_after(after.due, now, wait_of(s))
    &&& e is None && !held ==> after.due <= clock.due && after.due <= now + wait_of(s) && (clock.due
        <= now + wait_of(s) ==> after.due == clock.due)
}

/// What is said of a flash is said of its fields.
pub proof fn law_a_flash_shows_its_fields(e: FlashEvent)
    ensures
        e@.style == e.style,
        e@.intensity == e.intensity,
        e@.palette == e.palette,
        e@.title == e.title@,
        e@.timer == e.timer@,
{
}

} // verus!
