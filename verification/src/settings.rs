//! User settings: the flash reminder, the quiet rules, and the few defaults the
//! app and the shell extension have to agree on.
//!
//! No clock, no randomness, no files: the caller supplies the local time of day
//! and a random number.

use crate::json;
use crate::json::Json;
use crate::json::JsonTree;
use crate::model::Bucket;
use crate::model::Tag;
use crate::model::Task;
use crate::model::TaskView;
use crate::text;
use vstd::prelude::*;

verus! {

/// Bounds of the "flash every" slider, in minutes.
pub const INTERVAL_MIN: u32 = 1;

pub const INTERVAL_MAX: u32 = 90;

// ---- the choices ---------------------------------------------------------------------

/// How loud a flash is.
#[derive(Debug, Clone, Copy, PartialEq, Eq, Structural)]
pub enum Intensity {
    Subtle,
    Normal,
    Strong,
}

impl Default for Intensity {
    fn default() -> (i: Self)
        ensures
            i == Intensity::Normal,
    {
        Intensity::Normal
    }
}

impl Intensity {
    pub const ALL: [Intensity; 3] = [Intensity::Subtle, Intensity::Normal, Intensity::Strong];

    pub open spec fn name(self) -> Seq<char> {
        match self {
            Intensity::Subtle => "subtle"@,
            Intensity::Normal => "normal"@,
            Intensity::Strong => "strong"@,
        }
    }

    pub open spec fn names() -> Seq<Seq<char>> {
        seq!["subtle"@, "normal"@, "strong"@]
    }

    /// The intensity that a JSON value gives.
    pub open spec fn read(t: JsonTree) -> Result<Intensity, Seq<char>> {
        match json::as_name(t, Intensity::names()) {
            Ok(i) => Ok(
                if i == 0 {
                    Intensity::Subtle
                } else if i == 1 {
                    Intensity::Normal
                } else {
                    Intensity::Strong
                },
            ),
            Err(e) => Err(e),
        }
    }

    /// The wire name and the button label are the same word here.
    pub fn label(self) -> (s: &'static str)
        ensures
            s@ == self.name(),
    {
        self.as_str()
    }

    pub fn as_str(self) -> (s: &'static str)
        ensures
            s@ == self.name(),
    {
        match self {
            Intensity::Subtle => "subtle",
            Intensity::Normal => "normal",
            Intensity::Strong => "strong",
        }
    }

    pub fn from_json(j: &Json) -> (r: Result<Intensity, String>)
        ensures
            json::gives(r, Intensity::read(j@)),
    {
        let names: &'static [&'static str] = &["subtle", "normal", "strong"];
        assert(json::texts(names@) =~= Intensity::names());
        match json::name_of(j, names) {
            Ok(i) => Ok(
                if i == 0 {
                    Intensity::Subtle
                } else if i == 1 {
                    Intensity::Normal
                } else {
                    Intensity::Strong
                },
            ),
            Err(e) => Err(e),
        }
    }
}

/// Which colour a flash is painted in.
#[derive(Debug, Clone, Copy, PartialEq, Eq, Structural)]
pub enum FlashColor {
    /// Follow the current task's tag; untagged flashes blue.
    Tag,
    Blue,
    Orange,
}

impl Default for FlashColor {
    fn default() -> (d: Self)
        ensures
            d == FlashColor::Tag,
    {
        FlashColor::Tag
    }
}

impl FlashColor {
    pub const ALL: [FlashColor; 3] = [
        FlashColor::Tag,
        FlashColor::Blue,
        FlashColor::Orange,
    ];

    pub open spec fn name(self) -> Seq<char> {
        match self {
            FlashColor::Tag => "tag"@,
            FlashColor::Blue => "blue"@,
            FlashColor::Orange => "orange"@,
        }
    }

    pub open spec fn title(self) -> Seq<char> {
        match self {
            FlashColor::Tag => "follow tag"@,
            FlashColor::Blue => "blue"@,
            FlashColor::Orange => "orange"@,
        }
    }

    pub open spec fn names() -> Seq<Seq<char>> {
        seq!["tag"@, "blue"@, "orange"@]
    }

    /// The colour that a JSON value gives.
    pub open spec fn read(t: JsonTree) -> Result<FlashColor, Seq<char>> {
        match json::as_name(t, FlashColor::names()) {
            Ok(i) => Ok(
                if i == 0 {
                    FlashColor::Tag
                } else if i == 1 {
                    FlashColor::Blue
                } else {
                    FlashColor::Orange
                },
            ),
            Err(e) => Err(e),
        }
    }

    pub fn as_str(self) -> (s: &'static str)
        ensures
            s@ == self.name(),
    {
        match self {
            FlashColor::Tag => "tag",
            FlashColor::Blue => "blue",
            FlashColor::Orange => "orange",
        }
    }

    pub fn label(self) -> (s: &'static str)
        ensures
            s@ == self.title(),
    {
        match self {
            FlashColor::Tag => "follow tag",
            FlashColor::Blue => "blue",
            FlashColor::Orange => "orange",
        }
    }

    pub fn from_json(j: &Json) -> (r: Result<FlashColor, String>)
        ensures
            json::gives(r, FlashColor::read(j@)),
    {
        let names: &'static [&'static str] = &["tag", "blue", "orange"];
        assert(json::texts(names@) =~= FlashColor::names());
        match json::name_of(j, names) {
            Ok(i) => Ok(
                if i == 0 {
                    FlashColor::Tag
                } else if i == 1 {
                    FlashColor::Blue
                } else {
                    FlashColor::Orange
                },
            ),
            Err(e) => Err(e),
        }
    }
}

impl FlashColor {
    /// The colour of a flash for a task with a tag.
    pub open spec fn colour(self, tag: Option<Tag>) -> Palette {
        match self {
            FlashColor::Blue => Palette::Blue,
            FlashColor::Orange => Palette::Orange,
            FlashColor::Tag => if tag == Some(Tag::Personal) {
                Palette::Orange
            } else {
                Palette::Blue
            },
        }
    }

    /// The palette a flash is drawn in: the tag whose colours to use, or the
    /// untagged default.
    pub fn palette(self, tag: Option<Tag>) -> (p: Palette)
        ensures
            p == self.colour(tag),
    {
        match self {
            FlashColor::Blue => Palette::Blue,
            FlashColor::Orange => Palette::Orange,
            FlashColor::Tag => match tag {
                Some(Tag::Personal) => Palette::Orange,
                _ => Palette::Blue,
            },
        }
    }
}

/// The resolved colour of one flash. The extension owns the hex values.
#[derive(Debug, Clone, Copy, PartialEq, Eq, Structural)]
pub enum Palette {
    Blue,
    Orange,
}

impl Palette {
    pub open spec fn name(self) -> Seq<char> {
        match self {
            Palette::Blue => "blue"@,
            Palette::Orange => "orange"@,
        }
    }

    pub fn as_str(self) -> (s: &'static str)
        ensures
            s@ == self.name(),
    {
        match self {
            Palette::Blue => "blue",
            Palette::Orange => "orange",
        }
    }
}

/// Window colour scheme. `System` follows the desktop.
#[derive(Debug, Clone, Copy, PartialEq, Eq, Structural)]
pub enum Theme {
    System,
    Light,
    Dark,
}

impl Default for Theme {
    fn default() -> (d: Self)
        ensures
            d == Theme::System,
    {
        Theme::System
    }
}

impl Theme {
    pub const ALL: [Theme; 3] = [
        Theme::System,
        Theme::Light,
        Theme::Dark,
    ];

    pub open spec fn name(self) -> Seq<char> {
        match self {
            Theme::System => "system"@,
            Theme::Light => "light"@,
            Theme::Dark => "dark"@,
        }
    }

    pub open spec fn title(self) -> Seq<char> {
        match self {
            Theme::System => "System"@,
            Theme::Light => "Light"@,
            Theme::Dark => "Dark"@,
        }
    }

    pub open spec fn names() -> Seq<Seq<char>> {
        seq!["system"@, "light"@, "dark"@]
    }

    /// The theme that a JSON value gives.
    pub open spec fn read(t: JsonTree) -> Result<Theme, Seq<char>> {
        match json::as_name(t, Theme::names()) {
            Ok(i) => Ok(
                if i == 0 {
                    Theme::System
                } else if i == 1 {
                    Theme::Light
                } else {
                    Theme::Dark
                },
            ),
            Err(e) => Err(e),
        }
    }

    pub fn as_str(self) -> (s: &'static str)
        ensures
            s@ == self.name(),
    {
        match self {
            Theme::System => "system",
            Theme::Light => "light",
            Theme::Dark => "dark",
        }
    }

    pub fn label(self) -> (s: &'static str)
        ensures
            s@ == self.title(),
    {
        match self {
            Theme::System => "System",
            Theme::Light => "Light",
            Theme::Dark => "Dark",
        }
    }

    pub fn from_json(j: &Json) -> (r: Result<Theme, String>)
        ensures
            json::gives(r, Theme::read(j@)),
    {
        let names: &'static [&'static str] = &["system", "light", "dark"];
        assert(json::texts(names@) =~= Theme::names());
        match json::name_of(j, names) {
            Ok(i) => Ok(
                if i == 0 {
                    Theme::System
                } else if i == 1 {
                    Theme::Light
                } else {
                    Theme::Dark
                },
            ),
            Err(e) => Err(e),
        }
    }
}

/// One of the six ways the screen can flash. Three families, two each.
#[derive(Debug, Clone, Copy, PartialEq, Eq, Structural)]
pub enum FlashStyle {
    /// Accent tint over the whole screen, one fade.
    Wash,
    /// The same tint, two beats.
    Wash2,
    /// Accent frame and inward glow, pulsing twice.
    Edges,
    /// One slow soft breath of the same glow, without the frame.
    EdgesSoft,
    /// The top bar goes accent.
    Topbar,
    /// The top bar goes accent and a beam drops to the card.
    TopbarBeam,
}

impl FlashStyle {
    pub const ALL: [FlashStyle; 6] = [
        FlashStyle::Wash,
        FlashStyle::Wash2,
        FlashStyle::Edges,
        FlashStyle::EdgesSoft,
        FlashStyle::Topbar,
        FlashStyle::TopbarBeam,
    ];

    /// The style used when "vary the flash" is off.
    pub const FIXED: FlashStyle = FlashStyle::Edges;

    pub open spec fn name(self) -> Seq<char> {
        match self {
            FlashStyle::Wash => "wash"@,
            FlashStyle::Wash2 => "wash2"@,
            FlashStyle::Edges => "edges"@,
            FlashStyle::EdgesSoft => "edgesSoft"@,
            FlashStyle::Topbar => "topbar"@,
            FlashStyle::TopbarBeam => "topbarBeam"@,
        }
    }

    pub open spec fn names() -> Seq<Seq<char>> {
        seq!["wash"@, "wash2"@, "edges"@, "edgesSoft"@, "topbar"@, "topbarBeam"@]
    }

    /// The style that a JSON value gives.
    pub open spec fn read(t: JsonTree) -> Result<FlashStyle, Seq<char>> {
        match json::as_name(t, FlashStyle::names()) {
            Ok(i) => Ok(
                if i == 0 {
                    FlashStyle::Wash
                } else if i == 1 {
                    FlashStyle::Wash2
                } else if i == 2 {
                    FlashStyle::Edges
                } else if i == 3 {
                    FlashStyle::EdgesSoft
                } else if i == 4 {
                    FlashStyle::Topbar
                } else {
                    FlashStyle::TopbarBeam
                },
            ),
            Err(e) => Err(e),
        }
    }

    pub fn as_str(self) -> (s: &'static str)
        ensures
            s@ == self.name(),
    {
        match self {
            FlashStyle::Wash => "wash",
            FlashStyle::Wash2 => "wash2",
            FlashStyle::Edges => "edges",
            FlashStyle::EdgesSoft => "edgesSoft",
            FlashStyle::Topbar => "topbar",
            FlashStyle::TopbarBeam => "topbarBeam",
        }
    }

    pub fn from_json(j: &Json) -> (r: Result<FlashStyle, String>)
        ensures
            json::gives(r, FlashStyle::read(j@)),
    {
        let names: &'static [&'static str] = &["wash", "wash2", "edges", "edgesSoft", "topbar", "topbarBeam"];
        assert(json::texts(names@) =~= FlashStyle::names());
        match json::name_of(j, names) {
            Ok(i) => Ok(
                if i == 0 {
                    FlashStyle::Wash
                } else if i == 1 {
                    FlashStyle::Wash2
                } else if i == 2 {
                    FlashStyle::Edges
                } else if i == 3 {
                    FlashStyle::EdgesSoft
                } else if i == 4 {
                    FlashStyle::Topbar
                } else {
                    FlashStyle::TopbarBeam
                },
            ),
            Err(e) => Err(e),
        }
    }
}

// ---- picking a style -----------------------------------------------------------------

/// The six styles in order.
pub open spec fn all_styles() -> Seq<FlashStyle> {
    seq![
        FlashStyle::Wash,
        FlashStyle::Wash2,
        FlashStyle::Edges,
        FlashStyle::EdgesSoft,
        FlashStyle::Topbar,
        FlashStyle::TopbarBeam,
    ]
}

/// Where a style stands among the six.
pub open spec fn style_place(s: FlashStyle) -> int {
    match s {
        FlashStyle::Wash => 0,
        FlashStyle::Wash2 => 1,
        FlashStyle::Edges => 2,
        FlashStyle::EdgesSoft => 3,
        FlashStyle::Topbar => 4,
        FlashStyle::TopbarBeam => 5,
    }
}

/// The styles that may follow another: all but that one.
pub open spec fn pool(last: Option<FlashStyle>) -> Seq<FlashStyle> {
    match last {
        None => all_styles(),
        Some(s) => all_styles().remove(style_place(s)),
    }
}

/// The style that a random number picks.
pub open spec fn picked(vary: bool, last: Option<FlashStyle>, random: u32) -> FlashStyle {
    if vary {
        pool(last)[(random as int) % (pool(last).len() as int)]
    } else {
        FlashStyle::Edges
    }
}

/// Choose the next style. `vary` off always gives the same one; `vary` on picks
/// from the styles that are not `last`, so the same flash never arrives twice in
/// a row.
///
/// `random` is any number.
pub fn pick_style(vary: bool, last: Option<FlashStyle>, random: u32) -> (s: FlashStyle)
    ensures
        s == picked(vary, last, random),
{
    if !vary {
        return FlashStyle::FIXED;
    }
    let mut pool: Vec<FlashStyle> = Vec::new();
    let mut i: usize = 0;
    while i < FlashStyle::ALL.len()
        invariant
            i <= 6,
            FlashStyle::ALL@ == all_styles(),
            last is None ==> pool@ == all_styles().take(i as int),
            last is Some && i <= style_place(last->0) ==> pool@ == all_styles().take(i as int),
            last is Some && i > style_place(last->0) ==> pool@ == all_styles().take(
                i as int,
            ).remove(style_place(last->0)),
        decreases 6 - i,
    {
        let s: FlashStyle = FlashStyle::ALL[i];
        assert(s == all_styles()[i as int]);
        assert(style_place(s) == i);
        assert(all_styles().take(i as int + 1) =~= all_styles().take(i as int).push(s));
        if last != Some(s) {
            pool.push(s);
        }
        i = i + 1;
    }
    assert(all_styles().take(6) =~= all_styles());
    pool[random as usize % pool.len()]
}

// ---- times of day --------------------------------------------------------------------

/// A time of day, as minutes since local midnight. Written as `"09:00"`.
#[derive(Debug, Clone, Copy, PartialEq, Eq, PartialOrd, Ord, Structural)]
pub struct TimeOfDay {
    minutes: u16,
}

/// The minutes that a clock face such as `9:05` or `09:05` reads, whitespace round
/// it allowed: one or two digits, a colon, two digits. Anything else reads nothing.
pub open spec fn clock_minutes(s: Seq<char>) -> Option<int> {
    let t = text::trim(s);
    let at = t.len() - 3;
    if (t.len() == 4 || t.len() == 5) && t[at] == ':' && text::all_digits(t.take(at))
        && text::all_digits(t.skip(at + 1)) {
        let hour = text::digits_value(t.take(at));
        let minute = text::digits_value(t.skip(at + 1));
        if hour <= 23 && minute <= 59 {
            Some((hour * 60 + minute) as int)
        } else {
            None
        }
    } else {
        None
    }
}

impl TimeOfDay {
    #[verifier::type_invariant]
    spec fn in_a_day(self) -> bool {
        self.minutes < 1440
    }

    /// Minutes since midnight.
    pub closed spec fn since_midnight(self) -> int {
        self.minutes as int
    }

    /// The time so many minutes after midnight.
    pub closed spec fn after_midnight(minutes: int) -> TimeOfDay {
        TimeOfDay { minutes: minutes as u16 }
    }

    /// The clock face: two digits, a colon, two digits.
    pub open spec fn face(self) -> Seq<char> {
        text::two_digits((self.since_midnight() / 60) as nat) + ":"@ + text::two_digits(
            (self.since_midnight() % 60) as nat,
        )
    }

    pub fn new(hour: u32, minute: u32) -> (t: Option<TimeOfDay>)
        ensures
            t is Some <==> hour <= 23 && minute <= 59,
            t matches Some(t) ==> t == TimeOfDay::after_midnight(hour * 60 + minute)
                && t.since_midnight() == hour * 60 + minute,
    {
        if hour > 23 || minute > 59 {
            return None;
        }
        Some(TimeOfDay { minutes: hour as u16 * 60 + minute as u16 })
    }

    pub fn hour(self) -> (h: u16)
        ensures
            h == self.since_midnight() / 60,
            h <= 23,
    {
        proof {
            use_type_invariant(&self);
        }
        self.minutes / 60
    }

    pub fn minute(self) -> (m: u16)
        ensures
            m == self.since_midnight() % 60,
            m <= 59,
    {
        self.minutes % 60
    }

    /// `"9:00"` and `"09:00"` both parse; anything else does not.
    pub fn parse(s: &str) -> (t: Option<TimeOfDay>)
        ensures
            match t {
                Some(t) => clock_minutes(s@) == Some(t.since_midnight())
                    && t == TimeOfDay::after_midnight(t.since_midnight()),
                None => clock_minutes(s@) is None,
            },
    {
        let t = text::trim_chars(&text::chars_of(s));
        if t.len() != 4 && t.len() != 5 {
            return None;
        }
        let at: usize = t.len() - 3;
        if t[at] != ':' {
            return None;
        }
        let hour = text::slice_chars(&t, 0, at);
        let minute = text::slice_chars(&t, at + 1, t.len());
        assert(hour@ =~= t@.take(at as int));
        assert(minute@ =~= t@.skip(at + 1));
        // A sign is no digit, though a number may start with one.
        if hour[0] == '+' || minute[0] == '+' {
            assert(!text::is_digit('+'));
            return None;
        }
        match text::read_number(&hour, u32::MAX as u64) {
            None => None,
            Some(h) => match text::read_number(&minute, u32::MAX as u64) {
                None => None,
                Some(m) => TimeOfDay::new(h as u32, m as u32),
            },
        }
    }

    /// The clock face, `"09:00"`.
    pub fn to_string(self) -> (s: String)
        ensures
            s@ == self.face(),
    {
        let mut out: Vec<char> = Vec::new();
        text::push_two_digits(&mut out, self.hour() as u64);
        text::push_text(&mut out, ":");
        text::push_two_digits(&mut out, self.minute() as u64);
        assert(out@ =~= self.face());
        text::text_of(&out)
    }
}

/// Whether a time is inside the daily window from one time to another, the end
/// not included. A window whose end is not after its start wraps past midnight,
/// and one with both ends the same is the whole day.
pub open spec fn inside(now: int, from: int, to: int) -> bool {
    if from == to {
        true
    } else if from < to {
        from <= now < to
    } else {
        now >= from || now < to
    }
}

/// Is `now` inside the daily window `[from, to)`?
pub fn within_window(now: TimeOfDay, from: TimeOfDay, to: TimeOfDay) -> (within: bool)
    ensures
        within == inside(now.since_midnight(), from.since_midnight(), to.since_midnight()),
{
    if from.minutes == to.minutes {
        true
    } else if from.minutes < to.minutes {
        now.minutes >= from.minutes && now.minutes < to.minutes
    } else {
        now.minutes >= from.minutes || now.minutes < to.minutes
    }
}

/// The time of day that a reading of the local clock gives. A clock that cannot
/// be read, or reads no time of day, is treated as midday.
pub fn local_time_of_day(reading: Option<(u32, u32)>) -> (t: TimeOfDay)
    ensures
        t == TimeOfDay::after_midnight(
            match reading {
                Some((hour, minute)) => if hour <= 23 && minute <= 59 {
                    hour * 60 + minute
                } else {
                    720
                },
                None => 720,
            },
        ),
{
    match reading {
        Some((hour, minute)) => match TimeOfDay::new(hour, minute) {
            Some(t) => t,
            None => TimeOfDay { minutes: 720 },
        },
        None => TimeOfDay { minutes: 720 },
    }
}

// ---- holding back --------------------------------------------------------------------

/// Why the reminder is holding back, or that it is not.
#[derive(Debug, Clone, Copy, PartialEq, Eq, Structural)]
pub enum Hold {
    /// Nothing is stopping the next flash.
    Nothing,
    /// Now is empty: there is nothing to be reminded of.
    NoCurrentTask,
    /// The current task's timer is paused.
    Paused,
    /// The time of day is outside the hours the user chose.
    OutsideHours,
}

impl Hold {
    pub open spec fn words(self) -> Seq<char> {
        match self {
            Hold::Nothing => ""@,
            Hold::NoCurrentTask => "nothing in Now"@,
            Hold::Paused => "the timer is paused"@,
            Hold::OutsideHours => "outside the chosen hours"@,
        }
    }

    pub fn is_none(self) -> (none: bool)
        ensures
            none == (self == Hold::Nothing),
    {
        self == Hold::Nothing
    }

    /// Shown in place of the countdown.
    pub fn reason(self) -> (s: &'static str)
        ensures
            s@ == self.words(),
    {
        match self {
            Hold::Nothing => "",
            Hold::NoCurrentTask => "nothing in Now",
            Hold::Paused => "the timer is paused",
            Hold::OutsideHours => "outside the chosen hours",
        }
    }
}

// ---- the settings --------------------------------------------------------------------

/// Everything the user can change. Field names are the JSON keys.
#[derive(Debug, Clone, Copy, PartialEq, Eq, Structural)]
pub struct Settings {
    /// Minutes between flashes, within `INTERVAL_MIN..=INTERVAL_MAX`.
    pub interval_min: u32,
    /// Pick a different style each time rather than always `FlashStyle::FIXED`.
    pub vary: bool,
    pub intensity: Intensity,
    pub color: FlashColor,
    /// Hold flashes back while the current task's timer is paused.
    pub quiet_paused: bool,
    /// Only flash between `quiet_from` and `quiet_to`.
    pub quiet_hours: bool,
    pub quiet_from: TimeOfDay,
    pub quiet_to: TimeOfDay,
    pub theme: Theme,
    /// Show the elapsed time beside the title in the top bar.
    pub show_timer: bool,
    /// Where Enter in the quick-add entry puts a task without an `@marker`.
    pub default_bucket: Bucket,
}

/// A field that could not be understood, and why.
#[derive(Debug, PartialEq, Eq)]
pub struct BadField {
    pub key: &'static str,
    pub words: String,
}

/// What a `BadField` holds.
#[verifier::ext_equal]
pub struct BadFieldView {
    pub key: Seq<char>,
    pub words: Seq<char>,
}

impl View for BadField {
    type V = BadFieldView;

    open spec fn view(&self) -> BadFieldView {
        BadFieldView { key: self.key@, words: self.words@ }
    }
}

/// The number that a field gives, `base` where the field is not there.
pub open spec fn number_in(f: Seq<(Seq<char>, JsonTree)>, key: Seq<char>, base: u32) -> Result<
    u32,
    Seq<char>,
> {
    match json::field(f, key) {
        None => Ok(base),
        Some(t) => json::as_u32(t),
    }
}

/// The switch that a field gives, `base` where the field is not there.
pub open spec fn switch_in(f: Seq<(Seq<char>, JsonTree)>, key: Seq<char>, base: bool) -> Result<
    bool,
    Seq<char>,
> {
    match json::field(f, key) {
        None => Ok(base),
        Some(t) => json::as_bool(t),
    }
}

/// The intensity that a field gives, `base` where the field is not there.
pub open spec fn intensity_in(f: Seq<(Seq<char>, JsonTree)>, key: Seq<char>, base: Intensity) -> Result<
    Intensity,
    Seq<char>,
> {
    match json::field(f, key) {
        None => Ok(base),
        Some(t) => Intensity::read(t),
    }
}

/// The colour that a field gives, `base` where the field is not there.
pub open spec fn colour_in(f: Seq<(Seq<char>, JsonTree)>, key: Seq<char>, base: FlashColor) -> Result<
    FlashColor,
    Seq<char>,
> {
    match json::field(f, key) {
        None => Ok(base),
        Some(t) => FlashColor::read(t),
    }
}

/// The time that a field gives, `base` where the field is not there.
pub open spec fn time_in(f: Seq<(Seq<char>, JsonTree)>, key: Seq<char>, base: TimeOfDay) -> Result<
    TimeOfDay,
    Seq<char>,
> {
    match json::field(f, key) {
        None => Ok(base),
        Some(t) => TimeOfDay::read(t),
    }
}

/// The theme that a field gives, `base` where the field is not there.
pub open spec fn theme_in(f: Seq<(Seq<char>, JsonTree)>, key: Seq<char>, base: Theme) -> Result<
    Theme,
    Seq<char>,
> {
    match json::field(f, key) {
        None => Ok(base),
        Some(t) => Theme::read(t),
    }
}

/// The bucket that a field gives, `base` where the field is not there.
pub open spec fn bucket_in(f: Seq<(Seq<char>, JsonTree)>, key: Seq<char>, base: Bucket) -> Result<
    Bucket,
    Seq<char>,
> {
    match json::field(f, key) {
        None => Ok(base),
        Some(t) => Bucket::read(t),
    }
}

/// Whether a key is that of a setting.
pub open spec fn is_setting(key: Seq<char>) -> bool {
    key == "interval_min"@ || key == "vary"@ || key == "intensity"@ || key == "color"@ || key == "quiet_paused"@ || key == "quiet_hours"@ || key == "quiet_from"@ || key == "quiet_to"@ || key == "theme"@ || key == "show_timer"@ || key == "default_bucket"@
}

/// Whether a text comes before another in the order of its characters.
pub open spec fn precedes(a: Seq<char>, b: Seq<char>) -> bool
    decreases a.len(),
{
    if b.len() == 0 {
        false
    } else if a.len() == 0 {
        true
    } else if a[0] == b[0] {
        precedes(a.drop_first(), b.drop_first())
    } else {
        (a[0] as u32) < (b[0] as u32)
    }
}

/// The first key in order that is that of no setting.
pub open spec fn unknown_key(f: Seq<(Seq<char>, JsonTree)>) -> Option<Seq<char>>
    decreases f.len(),
{
    if f.len() == 0 {
        None
    } else {
        let before = unknown_key(f.drop_last());
        let key = f.last().0;
        if is_setting(key) {
            before
        } else {
            match before {
                None => Some(key),
                Some(k) => if precedes(key, k) {
                    Some(key)
                } else {
                    before
                },
            }
        }
    }
}

pub open spec fn clamped(minutes: u32) -> u32 {
    if minutes < INTERVAL_MIN {
        INTERVAL_MIN
    } else if minutes > INTERVAL_MAX {
        INTERVAL_MAX
    } else {
        minutes
    }
}

impl TimeOfDay {
    /// The time that a JSON value gives.
    pub open spec fn read(t: JsonTree) -> Result<TimeOfDay, Seq<char>> {
        match json::as_text(t) {
            Err(e) => Err(e),
            Ok(s) => match clock_minutes(s) {
                Some(m) => Ok(TimeOfDay::after_midnight(m)),
                None => Err(json::wrong_value(t, "a time like \"09:00\""@)),
            },
        }
    }

    pub fn from_json(j: &Json) -> (r: Result<TimeOfDay, String>)
        ensures
            json::gives(r, TimeOfDay::read(j@)),
    {
        match json::text_in(j) {
            Err(e) => Err(e),
            Ok(s) => match TimeOfDay::parse(s.as_str()) {
                Some(t) => Ok(t),
                None => Err(json::say_wrong_value(j, "a time like \"09:00\"")),
            },
        }
    }
}

impl Settings {
    /// The settings before anything is changed.
    pub open spec fn usual() -> Settings {
        Settings {
            interval_min: 15,
            vary: true,
            intensity: Intensity::Normal,
            color: FlashColor::Tag,
            quiet_paused: true,
            quiet_hours: false,
            quiet_from: TimeOfDay::after_midnight(540),
            quiet_to: TimeOfDay::after_midnight(1080),
            theme: Theme::System,
            show_timer: true,
            default_bucket: Bucket::Next,
        }
    }

    /// The same settings with the interval inside its bounds.
    pub open spec fn sane(self) -> Settings {
        Settings { interval_min: clamped(self.interval_min), ..self }
    }

    /// Why the next flash is held back: an empty Now before all, then a paused
    /// timer, then the time of day.
    pub open spec fn held(self, current: Option<TaskView>, now: TimeOfDay) -> Hold {
        match current {
            None => Hold::NoCurrentTask,
            Some(task) => if self.quiet_paused && task.paused() {
                Hold::Paused
            } else if self.quiet_hours && !inside(
                now.since_midnight(),
                self.quiet_from.since_midnight(),
                self.quiet_to.since_midnight(),
            ) {
                Hold::OutsideHours
            } else {
                Hold::Nothing
            },
        }
    }

    /// The members of the settings as an object.
    pub open spec fn members(self) -> Seq<(Seq<char>, JsonTree)> {
        seq![
            ("interval_min"@, JsonTree::Unsigned(self.interval_min as u64)),
            ("vary"@, JsonTree::Bool(self.vary)),
            ("intensity"@, JsonTree::Text(self.intensity.name())),
            ("color"@, JsonTree::Text(self.color.name())),
            ("quiet_paused"@, JsonTree::Bool(self.quiet_paused)),
            ("quiet_hours"@, JsonTree::Bool(self.quiet_hours)),
            ("quiet_from"@, JsonTree::Text(self.quiet_from.face())),
            ("quiet_to"@, JsonTree::Text(self.quiet_to.face())),
            ("theme"@, JsonTree::Text(self.theme.name())),
            ("show_timer"@, JsonTree::Bool(self.show_timer)),
            ("default_bucket"@, JsonTree::Text(self.default_bucket.name())),
        ]
    }

    /// The settings that an object gives over `base`: the fields it names, and
    /// `base` for the rest. Where fields cannot be read, the complaint is about the
    /// first of them by name.
    pub open spec fn read(f: Seq<(Seq<char>, JsonTree)>, base: Settings) -> Result<
        Settings,
        BadFieldView,
    > {
        match colour_in(f, "color"@, base.color) {
            Err(e) => Err(BadFieldView { key: "color"@, words: e }),
            Ok(color) => match bucket_in(f, "default_bucket"@, base.default_bucket) {
                Err(e) => Err(BadFieldView { key: "default_bucket"@, words: e }),
                Ok(default_bucket) => match intensity_in(f, "intensity"@, base.intensity) {
                    Err(e) => Err(BadFieldView { key: "intensity"@, words: e }),
                    Ok(intensity) => match number_in(f, "interval_min"@, base.interval_min) {
                        Err(e) => Err(BadFieldView { key: "interval_min"@, words: e }),
                        Ok(interval_min) => match time_in(f, "quiet_from"@, base.quiet_from) {
                            Err(e) => Err(BadFieldView { key: "quiet_from"@, words: e }),
                            Ok(quiet_from) => match switch_in(f, "quiet_hours"@, base.quiet_hours) {
                                Err(e) => Err(BadFieldView { key: "quiet_hours"@, words: e }),
                                Ok(quiet_hours) => match switch_in(f, "quiet_paused"@, base.quiet_paused) {
                                    Err(e) => Err(BadFieldView { key: "quiet_paused"@, words: e }),
                                    Ok(quiet_paused) => match time_in(f, "quiet_to"@, base.quiet_to) {
                                        Err(e) => Err(BadFieldView { key: "quiet_to"@, words: e }),
                                        Ok(quiet_to) => match switch_in(f, "show_timer"@, base.show_timer) {
                                            Err(e) => Err(BadFieldView { key: "show_timer"@, words: e }),
                                            Ok(show_timer) => match theme_in(f, "theme"@, base.theme) {
                                                Err(e) => Err(BadFieldView { key: "theme"@, words: e }),
                                                Ok(theme) => match switch_in(f, "vary"@, base.vary) {
                                                    Err(e) => Err(BadFieldView { key: "vary"@, words: e }),
                                                    Ok(vary) => {
                                                        Ok(
                                                            Settings {
                                                                interval_min,
                                                                vary,
                                                                intensity,
                                                                color,
                                                                quiet_paused,
                                                                quiet_hours,
                                                                quiet_from,
                                                                quiet_to,
                                                                theme,
                                                                show_timer,
                                                                default_bucket,
                                                            },
                                                        )
                                                    },
                                                },
                                            },
                                        },
                                    },
                                },
                            },
                        },
                    },
                },
            },
        }
    }

    /// What a patch makes of the settings, or why it is refused.
    pub open spec fn patched(self, patch: Result<JsonTree, Seq<char>>) -> Result<
        Settings,
        Seq<char>,
    > {
        match patch {
            Err(e) => Err("settings patch is not JSON: "@ + e),
            Ok(JsonTree::Object(f)) => match unknown_key(f) {
                Some(key) => Err("unknown setting: "@ + key),
                None => match Settings::read(f, self) {
                    Ok(s) => Ok(s.sane()),
                    Err(e) => Err("bad setting value: "@ + e.key + ": "@ + e.words),
                },
            },
            Ok(_) => Err("settings patch is not a JSON object"@),
        }
    }
}

impl Default for Settings {
    fn default() -> (s: Self)
        ensures
            s == Settings::usual(),
    {
        Settings {
            interval_min: 15,
            vary: true,
            intensity: Intensity::Normal,
            color: FlashColor::Tag,
            quiet_paused: true,
            quiet_hours: false,
            quiet_from: TimeOfDay { minutes: 540 },
            quiet_to: TimeOfDay { minutes: 1080 },
            theme: Theme::System,
            show_timer: true,
            default_bucket: Bucket::Next,
        }
    }
}

fn clamp_interval(minutes: u32) -> (m: u32)
    ensures
        m == clamped(minutes),
{
    if minutes < INTERVAL_MIN {
        INTERVAL_MIN
    } else if minutes > INTERVAL_MAX {
        INTERVAL_MAX
    } else {
        minutes
    }
}

fn known_key(key: &str) -> (known: bool)
    ensures
        known == is_setting(key@),
{
    text::same_text(key, "interval_min")
        || text::same_text(key, "vary")
        || text::same_text(key, "intensity")
        || text::same_text(key, "color")
        || text::same_text(key, "quiet_paused")
        || text::same_text(key, "quiet_hours")
        || text::same_text(key, "quiet_from")
        || text::same_text(key, "quiet_to")
        || text::same_text(key, "theme")
        || text::same_text(key, "show_timer")
        || text::same_text(key, "default_bucket")
}

fn text_precedes(a: &Vec<char>, b: &Vec<char>) -> (before: bool)
    ensures
        before == precedes(a@, b@),
{
    let mut i: usize = 0;
    assert(a@.skip(0) =~= a@);
    assert(b@.skip(0) =~= b@);
    while i < a.len() && i < b.len() && a[i] == b[i]
        invariant
            i <= a@.len(),
            i <= b@.len(),
            precedes(a@, b@) == precedes(a@.skip(i as int), b@.skip(i as int)),
        decreases a@.len() - i,
    {
        assert(a@.skip(i as int).drop_first() =~= a@.skip(i as int + 1));
        assert(b@.skip(i as int).drop_first() =~= b@.skip(i as int + 1));
        i = i + 1;
    }
    if i >= b.len() {
        false
    } else if i >= a.len() {
        true
    } else {
        (a[i] as u32) < (b[i] as u32)
    }
}

fn find_unknown(f: &Vec<(String, Json)>) -> (key: Option<Vec<char>>)
    ensures
        match key {
            Some(k) => unknown_key(json::members(f@)) == Some(k@),
            None => unknown_key(json::members(f@)) is None,
        },
{
    let mut found: Option<Vec<char>> = None;
    let mut i: usize = 0;
    while i < f.len()
        invariant
            i <= f@.len(),
            match found {
                Some(k) => unknown_key(json::members(f@).take(i as int)) == Some(k@),
                None => unknown_key(json::members(f@).take(i as int)) is None,
            },
        decreases f@.len() - i,
    {
        proof {
            let next = json::members(f@).take(i as int + 1);
            assert(next.drop_last() =~= json::members(f@).take(i as int));
            assert(next.last() == json::members(f@)[i as int]);
        }
        if !known_key(f[i].0.as_str()) {
            let key = text::chars_of(f[i].0.as_str());
            let first: bool = match &found {
                None => true,
                Some(k) => text_precedes(&key, k),
            };
            if first {
                found = Some(key);
            }
        }
        i = i + 1;
    }
    assert(json::members(f@).take(i as int) =~= json::members(f@));
    found
}

fn find_number(f: &Vec<(String, Json)>, key: &str, base: u32) -> (r: Result<u32, String>)
    ensures
        json::gives(r, number_in(json::members(f@), key@, base)),
{
    match json::find_field(f, key) {
        None => Ok(base),
        Some(j) => json::u32_of(j),
    }
}

fn find_switch(f: &Vec<(String, Json)>, key: &str, base: bool) -> (r: Result<bool, String>)
    ensures
        json::gives(r, switch_in(json::members(f@), key@, base)),
{
    match json::find_field(f, key) {
        None => Ok(base),
        Some(j) => json::bool_of(j),
    }
}

fn find_intensity(f: &Vec<(String, Json)>, key: &str, base: Intensity) -> (r: Result<Intensity, String>)
    ensures
        json::gives(r, intensity_in(json::members(f@), key@, base)),
{
    match json::find_field(f, key) {
        None => Ok(base),
        Some(j) => Intensity::from_json(j),
    }
}

fn find_colour(f: &Vec<(String, Json)>, key: &str, base: FlashColor) -> (r: Result<FlashColor, String>)
    ensures
        json::gives(r, colour_in(json::members(f@), key@, base)),
{
    match json::find_field(f, key) {
        None => Ok(base),
        Some(j) => FlashColor::from_json(j),
    }
}

fn find_time(f: &Vec<(String, Json)>, key: &str, base: TimeOfDay) -> (r: Result<TimeOfDay, String>)
    ensures
        json::gives(r, time_in(json::members(f@), key@, base)),
{
    match json::find_field(f, key) {
        None => Ok(base),
        Some(j) => TimeOfDay::from_json(j),
    }
}

fn find_theme(f: &Vec<(String, Json)>, key: &str, base: Theme) -> (r: Result<Theme, String>)
    ensures
        json::gives(r, theme_in(json::members(f@), key@, base)),
{
    match json::find_field(f, key) {
        None => Ok(base),
        Some(j) => Theme::from_json(j),
    }
}

fn find_bucket(f: &Vec<(String, Json)>, key: &str, base: Bucket) -> (r: Result<Bucket, String>)
    ensures
        json::gives(r, bucket_in(json::members(f@), key@, base)),
{
    match json::find_field(f, key) {
        None => Ok(base),
        Some(j) => Bucket::from_json(j),
    }
}

impl Settings {
    /// Pull values a hand-edited file could hold back into range.
    pub fn sanitize(&mut self)
        ensures
            *final(self) == old(self).sane(),
    {
        self.interval_min = clamp_interval(self.interval_min);
    }

    pub fn interval_secs(&self) -> (secs: u64)
        ensures
            secs == clamped(self.interval_min) * 60,
    {
        clamp_interval(self.interval_min) as u64 * 60
    }

    /// Why the next flash is being held back. `current` is the head of Now and
    /// `now` is the local time of day.
    pub fn hold(&self, current: Option<&Task>, now: TimeOfDay) -> (h: Hold)
        ensures
            h == self.held(
                match current {
                    Some(t) => Some(t@),
                    None => None,
                },
                now,
            ),
    {
        match current {
            None => Hold::NoCurrentTask,
            Some(task) => {
                if self.quiet_paused && task.is_paused() {
                    return Hold::Paused;
                }
                if self.quiet_hours && !within_window(now, self.quiet_from, self.quiet_to) {
                    return Hold::OutsideHours;
                }
                Hold::Nothing
            },
        }
    }

    /// The settings as an object.
    pub fn as_json(&self) -> (j: Json)
        ensures
            j@ == JsonTree::Object(self.members()),
            json::keeps(j@, json::MAX_DEPTH as nat),
            self.quiet_from.since_midnight() < 1440,
            self.quiet_to.since_midnight() < 1440,
    {
        broadcast use json::lemma_parts;

        proof {
            use_type_invariant(&self.quiet_from);
            use_type_invariant(&self.quiet_to);
        }
        let mut f: Vec<(String, Json)> = Vec::new();
        f.push(("interval_min".to_string(), Json::Unsigned(self.interval_min as u64)));
        f.push(("vary".to_string(), Json::Bool(self.vary)));
        f.push(("intensity".to_string(), Json::Text(self.intensity.as_str().to_string())));
        f.push(("color".to_string(), Json::Text(self.color.as_str().to_string())));
        f.push(("quiet_paused".to_string(), Json::Bool(self.quiet_paused)));
        f.push(("quiet_hours".to_string(), Json::Bool(self.quiet_hours)));
        f.push(("quiet_from".to_string(), Json::Text(self.quiet_from.to_string())));
        f.push(("quiet_to".to_string(), Json::Text(self.quiet_to.to_string())));
        f.push(("theme".to_string(), Json::Text(self.theme.as_str().to_string())));
        f.push(("show_timer".to_string(), Json::Bool(self.show_timer)));
        f.push(("default_bucket".to_string(), Json::Text(self.default_bucket.as_str().to_string())));
        assert(json::members(f@) =~= self.members());
        proof {
            lemma_settings_keep(*self);
        }
        Json::Object(f)
    }

    /// The JSON the extension reads.
    pub fn to_json(&self) -> (s: String)
        ensures
            s@ == json::compact(JsonTree::Object(self.members())),
            json::parsed(s@) == Ok::<JsonTree, Seq<char>>(JsonTree::Object(self.members())),
            forall|base: Settings|
                #![trigger Settings::read(self.members(), base)]
                Settings::read(self.members(), base) == Ok::<Settings, BadFieldView>(*self),
    {
        proof {
            use_type_invariant(&self.quiet_from);
            use_type_invariant(&self.quiet_to);
            assert forall|base: Settings|
                #![trigger Settings::read(self.members(), base)]
                Settings::read(self.members(), base) == Ok::<Settings, BadFieldView>(*self) by {
                law_settings_read_back(*self, base);
            }
        }
        json::print(self.as_json())
    }

    /// The settings that an object gives over `base`.
    pub fn from_members(f: &Vec<(String, Json)>, base: &Settings) -> (r: Result<
        Settings,
        BadField,
    >)
        ensures
            match r {
                Ok(s) => Settings::read(json::members(f@), *base) == Ok::<Settings, BadFieldView>(
                    s,
                ),
                Err(e) => Settings::read(json::members(f@), *base)
                    == Err::<Settings, BadFieldView>(e@),
            },
    {
        let color: FlashColor = match find_colour(f, "color", base.color) {
            Ok(v) => v,
            Err(e) => return Err(BadField { key: "color", words: e }),
        };
        let default_bucket: Bucket = match find_bucket(f, "default_bucket", base.default_bucket) {
            Ok(v) => v,
            Err(e) => return Err(BadField { key: "default_bucket", words: e }),
        };
        let intensity: Intensity = match find_intensity(f, "intensity", base.intensity) {
            Ok(v) => v,
            Err(e) => return Err(BadField { key: "intensity", words: e }),
        };
        let interval_min: u32 = match find_number(f, "interval_min", base.interval_min) {
            Ok(v) => v,
            Err(e) => return Err(BadField { key: "interval_min", words: e }),
        };
        let quiet_from: TimeOfDay = match find_time(f, "quiet_from", base.quiet_from) {
            Ok(v) => v,
            Err(e) => return Err(BadField { key: "quiet_from", words: e }),
        };
        let quiet_hours: bool = match find_switch(f, "quiet_hours", base.quiet_hours) {
            Ok(v) => v,
            Err(e) => return Err(BadField { key: "quiet_hours", words: e }),
        };
        let quiet_paused: bool = match find_switch(f, "quiet_paused", base.quiet_paused) {
            Ok(v) => v,
            Err(e) => return Err(BadField { key: "quiet_paused", words: e }),
        };
        let quiet_to: TimeOfDay = match find_time(f, "quiet_to", base.quiet_to) {
            Ok(v) => v,
            Err(e) => return Err(BadField { key: "quiet_to", words: e }),
        };
        let show_timer: bool = match find_switch(f, "show_timer", base.show_timer) {
            Ok(v) => v,
            Err(e) => return Err(BadField { key: "show_timer", words: e }),
        };
        let theme: Theme = match find_theme(f, "theme", base.theme) {
            Ok(v) => v,
            Err(e) => return Err(BadField { key: "theme", words: e }),
        };
        let vary: bool = match find_switch(f, "vary", base.vary) {
            Ok(v) => v,
            Err(e) => return Err(BadField { key: "vary", words: e }),
        };
        Ok(
            Settings {
                interval_min,
                vary,
                intensity,
                color,
                quiet_paused,
                quiet_hours,
                quiet_from,
                quiet_to,
                theme,
                show_timer,
                default_bucket,
            },
        )
    }

    /// Apply what was read of a patch. A patch that is no object of settings that
    /// can be read changes nothing.
    pub fn apply_parsed(&mut self, patch: Result<Json, String>) -> (r: Result<(), String>)
        ensures
            ({
                let read = match patch {
                    Ok(j) => Ok(j@),
                    Err(e) => Err(e@),
                };
                match r {
                    Ok(_) => old(self).patched(read) == Ok::<Settings, Seq<char>>(*final(self)),
                    Err(e) => old(self).patched(read) == Err::<Settings, Seq<char>>(e@)
                        && *final(self) == *old(self),
                }
            }),
    {
        broadcast use json::lemma_parts;

        match patch {
            Err(e) => Err(text::behind_text("settings patch is not JSON: ", e.as_str())),
            Ok(Json::Object(f)) => match find_unknown(&f) {
                Some(key) => {
                    let key = text::text_of(&key);
                    Err(text::behind_text("unknown setting: ", key.as_str()))
                },
                None => match Settings::from_members(&f, self) {
                    Ok(next) => {
                        let mut next = next;
                        next.sanitize();
                        *self = next;
                        Ok(())
                    },
                    Err(e) => {
                        let mut out: Vec<char> = text::chars_of("bad setting value: ");
                        text::push_text(&mut out, e.key);
                        text::push_text(&mut out, ": ");
                        text::push_text(&mut out, e.words.as_str());
                        Err(text::text_of(&out))
                    },
                },
            },
            Ok(_) => Err("settings patch is not a JSON object".to_string()),
        }
    }

    /// Apply a JSON object of changed keys, leaving the rest alone. A patch that
    /// cannot be understood is refused whole, and the reason given: it names the
    /// field that is unknown or cannot be read, so a caller can complain rather than
    /// silently ignoring a typo.
    pub fn apply_patch(&mut self, patch: &str) -> (r: Result<(), String>)
        ensures
            match r {
                Ok(_) => old(self).patched(json::parsed(patch@)) == Ok::<Settings, Seq<char>>(
                    *final(self),
                ),
                Err(e) => old(self).patched(json::parsed(patch@)) == Err::<Settings, Seq<char>>(e@)
                    && *final(self) == *old(self),
            },
    {
        let parsed = json::parse(patch);
        self.apply_parsed(parsed)
    }
}

// ---- laws ----------------------------------------------------------------------------

proof fn lemma_setting_keys()
    ensures
        forall|s: Settings| json::keys_differ(#[trigger] s.members()),
{
    reveal_strlit("interval_min");
    reveal_strlit("vary");
    reveal_strlit("intensity");
    reveal_strlit("color");
    reveal_strlit("quiet_paused");
    reveal_strlit("quiet_hours");
    reveal_strlit("quiet_from");
    reveal_strlit("quiet_to");
    reveal_strlit("theme");
    reveal_strlit("show_timer");
    reveal_strlit("default_bucket");
    assert("interval_min"@[0] != "quiet_paused"@[0]);
    assert("color"@[0] != "theme"@[0]);
    assert("quiet_from"@[0] != "show_timer"@[0]);
    assert("interval_min"@.len() != "vary"@.len());
    assert("interval_min"@.len() != "intensity"@.len());
    assert("interval_min"@.len() != "color"@.len());
    assert("interval_min"@.len() != "quiet_hours"@.len());
    assert("interval_min"@.len() != "quiet_from"@.len());
    assert("interval_min"@.len() != "quiet_to"@.len());
    assert("interval_min"@.len() != "theme"@.len());
    assert("interval_min"@.len() != "show_timer"@.len());
    assert("interval_min"@.len() != "default_bucket"@.len());
    assert("vary"@.len() != "intensity"@.len());
    assert("vary"@.len() != "color"@.len());
    assert("vary"@.len() != "quiet_paused"@.len());
    assert("vary"@.len() != "quiet_hours"@.len());
    assert("vary"@.len() != "quiet_from"@.len());
    assert("vary"@.len() != "quiet_to"@.len());
    assert("vary"@.len() != "theme"@.len());
    assert("vary"@.len() != "show_timer"@.len());
    assert("vary"@.len() != "default_bucket"@.len());
    assert("intensity"@.len() != "color"@.len());
    assert("intensity"@.len() != "quiet_paused"@.len());
    assert("intensity"@.len() != "quiet_hours"@.len());
    assert("intensity"@.len() != "quiet_from"@.len());
    assert("intensity"@.len() != "quiet_to"@.len());
    assert("intensity"@.len() != "theme"@.len());
    assert("intensity"@.len() != "show_timer"@.len());
    assert("intensity"@.len() != "default_bucket"@.len());
    assert("color"@.len() != "quiet_paused"@.len());
    assert("color"@.len() != "quiet_hours"@.len());
    assert("color"@.len() != "quiet_from"@.len());
    assert("color"@.len() != "quiet_to"@.len());
    assert("color"@.len() != "show_timer"@.len());
    assert("color"@.len() != "default_bucket"@.len());
    assert("quiet_paused"@.len() != "quiet_hours"@.len());
    assert("quiet_paused"@.len() != "quiet_from"@.len());
    assert("quiet_paused"@.len() != "quiet_to"@.len());
    assert("quiet_paused"@.len() != "theme"@.len());
    assert("quiet_paused"@.len() != "show_timer"@.len());
    assert("quiet_paused"@.len() != "default_bucket"@.len());
    assert("quiet_hours"@.len() != "quiet_from"@.len());
    assert("quiet_hours"@.len() != "quiet_to"@.len());
    assert("quiet_hours"@.len() != "theme"@.len());
    assert("quiet_hours"@.len() != "show_timer"@.len());
    assert("quiet_hours"@.len() != "default_bucket"@.len());
    assert("quiet_from"@.len() != "quiet_to"@.len());
    assert("quiet_from"@.len() != "theme"@.len());
    assert("quiet_from"@.len() != "default_bucket"@.len());
    assert("quiet_to"@.len() != "theme"@.len());
    assert("quiet_to"@.len() != "show_timer"@.len());
    assert("quiet_to"@.len() != "default_bucket"@.len());
    assert("theme"@.len() != "show_timer"@.len());
    assert("theme"@.len() != "default_bucket"@.len());
    assert("show_timer"@.len() != "default_bucket"@.len());
    assert forall|s: Settings| json::keys_differ(#[trigger] s.members()) by {
        let f = s.members();
        assert(f[0].0 == "interval_min"@);
        assert(f[1].0 == "vary"@);
        assert(f[2].0 == "intensity"@);
        assert(f[3].0 == "color"@);
        assert(f[4].0 == "quiet_paused"@);
        assert(f[5].0 == "quiet_hours"@);
        assert(f[6].0 == "quiet_from"@);
        assert(f[7].0 == "quiet_to"@);
        assert(f[8].0 == "theme"@);
        assert(f[9].0 == "show_timer"@);
        assert(f[10].0 == "default_bucket"@);
        assert forall|i: int, j: int| 0 <= i < j < f.len() implies (#[trigger] f[i]).0 != (
        #[trigger] f[j]).0 by {
            assert(i == 0 || i == 1 || i == 2 || i == 3 || i == 4 || i == 5 || i == 6 || i == 7 || i == 8 || i == 9);
            assert(j == 1 || j == 2 || j == 3 || j == 4 || j == 5 || j == 6 || j == 7 || j == 8 || j == 9 || j == 10);
        }
    }
}

proof fn lemma_settings_keep(s: Settings)
    ensures
        json::keeps(JsonTree::Object(s.members()), json::MAX_DEPTH as nat),
{
    lemma_setting_keys();
    let f = s.members();
    assert forall|i: int| 0 <= i < f.len() implies json::keeps(
        (#[trigger] f[i]).1,
        (json::MAX_DEPTH - 1) as nat,
    ) by {}
    json::lemma_object_keeps(f, json::MAX_DEPTH as nat);
}

proof fn lemma_two_digits(n: nat)
    requires
        n < 60,
    ensures
        text::two_digits(n) == seq![text::digit((n / 10) as int), text::digit((n % 10) as int)],
        text::trim(text::two_digits(n)) == text::two_digits(n),
        text::parse_number(text::two_digits(n), u32::MAX as nat) == Some(n),
{
    let s = text::two_digits(n);
    if n >= 10 {
        assert(text::decimal(n / 10) =~= seq![text::digit((n / 10) as int)]);
    }
    assert(s =~= seq![text::digit((n / 10) as int), text::digit((n % 10) as int)]);
    text::lemma_trim_fixed(s);
    assert(s.drop_last() =~= seq![s[0]]);
    assert(s.drop_last().drop_last() =~= Seq::<char>::empty());
    assert(text::digits_value(s.drop_last().drop_last()) == 0);
    assert(text::digits_value(s.drop_last()) == n / 10);
}

/// A clock face that was written reads back as the time it was written for.
pub proof fn law_a_clock_face_reads_back(t: TimeOfDay)
    requires
        t.since_midnight() < 1440,
    ensures
        clock_minutes(t.face()) == Some(t.since_midnight()),
        TimeOfDay::after_midnight(t.since_midnight()) == t,
{
    let h = (t.since_midnight() / 60) as nat;
    let m = (t.since_midnight() % 60) as nat;
    lemma_two_digits(h);
    lemma_two_digits(m);
    reveal_strlit(":");
    let f = t.face();
    assert(f.len() == 5);
    text::lemma_trim_fixed(f);
    assert(f.take(2) =~= text::two_digits(h));
    assert(f.skip(3) =~= text::two_digits(m));
    assert(f[2] == ':');
}

/// The names that are written are the names that are read, of every choice.
pub proof fn law_names_read_back(
    intensity: Intensity,
    color: FlashColor,
    theme: Theme,
    style: FlashStyle,
    bucket: Bucket,
    tag: Tag,
)
    ensures
        Intensity::read(JsonTree::Text(intensity.name())) == Ok::<Intensity, Seq<char>>(intensity),
        FlashColor::read(JsonTree::Text(color.name())) == Ok::<FlashColor, Seq<char>>(color),
        Theme::read(JsonTree::Text(theme.name())) == Ok::<Theme, Seq<char>>(theme),
        FlashStyle::read(JsonTree::Text(style.name())) == Ok::<FlashStyle, Seq<char>>(style),
        Bucket::read(JsonTree::Text(bucket.name())) == Ok::<Bucket, Seq<char>>(bucket),
        Tag::read(JsonTree::Text(tag.name())) == Ok::<Tag, Seq<char>>(tag),
{
    lemma_intensity_reads_back(intensity);
    lemma_color_reads_back(color);
    lemma_theme_reads_back(theme);
    lemma_style_reads_back(style);
    lemma_bucket_reads_back(bucket);
    lemma_tag_reads_back(tag);
}

proof fn lemma_intensity_reads_back(v: Intensity)
    ensures
        Intensity::read(JsonTree::Text(v.name())) == Ok::<Intensity, Seq<char>>(v),
{
    reveal_strlit("subtle");
    reveal_strlit("normal");
    reveal_strlit("strong");
    assert("subtle"@[0] != "normal"@[0]);
    assert("subtle"@[1] != "strong"@[1]);
    assert("normal"@[0] != "strong"@[0]);
    let names = Intensity::names();
    match v {
        Intensity::Subtle => json::lemma_name_at(names, 0),
        Intensity::Normal => json::lemma_name_at(names, 1),
        Intensity::Strong => json::lemma_name_at(names, 2),
    }
}

proof fn lemma_color_reads_back(v: FlashColor)
    ensures
        FlashColor::read(JsonTree::Text(v.name())) == Ok::<FlashColor, Seq<char>>(v),
{
    reveal_strlit("tag");
    reveal_strlit("blue");
    reveal_strlit("orange");
    assert("tag"@.len() != "blue"@.len());
    assert("tag"@.len() != "orange"@.len());
    assert("blue"@.len() != "orange"@.len());
    let names = FlashColor::names();
    match v {
        FlashColor::Tag => json::lemma_name_at(names, 0),
        FlashColor::Blue => json::lemma_name_at(names, 1),
        FlashColor::Orange => json::lemma_name_at(names, 2),
    }
}

proof fn lemma_theme_reads_back(v: Theme)
    ensures
        Theme::read(JsonTree::Text(v.name())) == Ok::<Theme, Seq<char>>(v),
{
    reveal_strlit("system");
    reveal_strlit("light");
    reveal_strlit("dark");
    assert("system"@.len() != "light"@.len());
    assert("system"@.len() != "dark"@.len());
    assert("light"@.len() != "dark"@.len());
    let names = Theme::names();
    match v {
        Theme::System => json::lemma_name_at(names, 0),
        Theme::Light => json::lemma_name_at(names, 1),
        Theme::Dark => json::lemma_name_at(names, 2),
    }
}

proof fn lemma_style_reads_back(v: FlashStyle)
    ensures
        FlashStyle::read(JsonTree::Text(v.name())) == Ok::<FlashStyle, Seq<char>>(v),
{
    reveal_strlit("wash");
    reveal_strlit("wash2");
    reveal_strlit("edges");
    reveal_strlit("edgesSoft");
    reveal_strlit("topbar");
    reveal_strlit("topbarBeam");
    assert("wash"@.len() != "wash2"@.len());
    assert("wash"@.len() != "edges"@.len());
    assert("wash"@.len() != "edgesSoft"@.len());
    assert("wash"@.len() != "topbar"@.len());
    assert("wash"@.len() != "topbarBeam"@.len());
    assert("wash2"@.len() != "edgesSoft"@.len());
    assert("wash2"@.len() != "topbar"@.len());
    assert("wash2"@.len() != "topbarBeam"@.len());
    assert("edges"@.len() != "edgesSoft"@.len());
    assert("edges"@.len() != "topbar"@.len());
    assert("edges"@.len() != "topbarBeam"@.len());
    assert("edgesSoft"@.len() != "topbar"@.len());
    assert("edgesSoft"@.len() != "topbarBeam"@.len());
    assert("topbar"@.len() != "topbarBeam"@.len());
    assert("wash2"@[0] != "edges"@[0]);
    let names = FlashStyle::names();
    match v {
        FlashStyle::Wash => json::lemma_name_at(names, 0),
        FlashStyle::Wash2 => json::lemma_name_at(names, 1),
        FlashStyle::Edges => json::lemma_name_at(names, 2),
        FlashStyle::EdgesSoft => json::lemma_name_at(names, 3),
        FlashStyle::Topbar => json::lemma_name_at(names, 4),
        FlashStyle::TopbarBeam => json::lemma_name_at(names, 5),
    }
}

proof fn lemma_bucket_reads_back(v: Bucket)
    ensures
        Bucket::read(JsonTree::Text(v.name())) == Ok::<Bucket, Seq<char>>(v),
{
    reveal_strlit("now");
    reveal_strlit("next");
    reveal_strlit("later");
    reveal_strlit("side");
    assert("now"@.len() != "next"@.len());
    assert("now"@.len() != "later"@.len());
    assert("now"@.len() != "side"@.len());
    assert("next"@.len() != "later"@.len());
    assert("later"@.len() != "side"@.len());
    assert("next"@[0] != "side"@[0]);
    let names = Bucket::names();
    match v {
        Bucket::Now => json::lemma_name_at(names, 0),
        Bucket::Next => json::lemma_name_at(names, 1),
        Bucket::Later => json::lemma_name_at(names, 2),
        Bucket::Side => json::lemma_name_at(names, 3),
    }
}

proof fn lemma_tag_reads_back(v: Tag)
    ensures
        Tag::read(JsonTree::Text(v.name())) == Ok::<Tag, Seq<char>>(v),
{
    reveal_strlit("work");
    reveal_strlit("personal");
    assert("work"@.len() != "personal"@.len());
    let names = Tag::names();
    match v {
        Tag::Work => json::lemma_name_at(names, 0),
        Tag::Personal => json::lemma_name_at(names, 1),
    }
}

/// Settings that were written read back as they were, whatever they are read over.
pub proof fn law_settings_read_back(s: Settings, base: Settings)
    requires
        s.quiet_from.since_midnight() < 1440,
        s.quiet_to.since_midnight() < 1440,
    ensures
        Settings::read(s.members(), base) == Ok::<Settings, BadFieldView>(s),
{
    let f = s.members();
    lemma_setting_keys();
    law_names_read_back(
        s.intensity,
        s.color,
        s.theme,
        FlashStyle::Wash,
        s.default_bucket,
        Tag::Work,
    );
    law_a_clock_face_reads_back(s.quiet_from);
    law_a_clock_face_reads_back(s.quiet_to);
    json::lemma_field_at(f, 0);
    json::lemma_field_at(f, 1);
    json::lemma_field_at(f, 2);
    json::lemma_field_at(f, 3);
    json::lemma_field_at(f, 4);
    json::lemma_field_at(f, 5);
    json::lemma_field_at(f, 6);
    json::lemma_field_at(f, 7);
    json::lemma_field_at(f, 8);
    json::lemma_field_at(f, 9);
    json::lemma_field_at(f, 10);
}

/// A patch changes the settings that it names and leaves the rest alone.
pub proof fn law_a_patch_leaves_the_rest_alone(s: Settings, f: Seq<(Seq<char>, JsonTree)>)
    requires
        s.patched(Ok(JsonTree::Object(f))) is Ok,
    ensures
        ({
            let after = s.patched(Ok(JsonTree::Object(f)))->Ok_0;
            &&& json::field(f, "interval_min"@) is None ==> after.interval_min == clamped(
                s.interval_min,
            )
            &&& json::field(f, "vary"@) is None ==> after.vary == s.vary
            &&& json::field(f, "intensity"@) is None ==> after.intensity == s.intensity
            &&& json::field(f, "color"@) is None ==> after.color == s.color
            &&& json::field(f, "quiet_paused"@) is None ==> after.quiet_paused == s.quiet_paused
            &&& json::field(f, "quiet_hours"@) is None ==> after.quiet_hours == s.quiet_hours
            &&& json::field(f, "quiet_from"@) is None ==> after.quiet_from == s.quiet_from
            &&& json::field(f, "quiet_to"@) is None ==> after.quiet_to == s.quiet_to
            &&& json::field(f, "theme"@) is None ==> after.theme == s.theme
            &&& json::field(f, "show_timer"@) is None ==> after.show_timer == s.show_timer
            &&& json::field(f, "default_bucket"@) is None ==> after.default_bucket
                == s.default_bucket
            &&& INTERVAL_MIN <= after.interval_min <= INTERVAL_MAX
        }),
{
}

/// Pulling settings into range twice is pulling them once, and settings in range
/// stay as they are.
pub proof fn law_sane_settings_stay(s: Settings)
    ensures
        s.sane().sane() == s.sane(),
        INTERVAL_MIN <= s.sane().interval_min <= INTERVAL_MAX,
        INTERVAL_MIN <= s.interval_min <= INTERVAL_MAX ==> s.sane() == s,
{
}

proof fn lemma_pool(last: Option<FlashStyle>)
    ensures
        pool(last).len() == (if last is Some {
            5int
        } else {
            6int
        }),
        forall|i: int| 0 <= i < pool(last).len() ==> last != Some(#[trigger] pool(last)[i]),
        forall|i: int, j: int|
            0 <= i < j < pool(last).len() ==> #[trigger] pool(last)[i] != #[trigger] pool(last)[j],
{
    let p = pool(last);
    assert(forall|i: int| 0 <= i < 6 ==> style_place(#[trigger] all_styles()[i]) == i);
    match last {
        None => {},
        Some(l) => {
            let q = style_place(l);
            assert(all_styles()[q] == l);
            assert forall|i: int| 0 <= i < p.len() implies style_place(#[trigger] p[i]) == (if i
                < q {
                i
            } else {
                i + 1
            }) by {
                assert(p[i] == all_styles()[if i < q {
                    i
                } else {
                    i + 1
                }]);
            }
        },
    }
}

/// The number that picks a style.
proof fn lemma_style_in_pool(last: Option<FlashStyle>, s: FlashStyle) -> (r: u32)
    requires
        Some(s) != last,
    ensures
        r < pool(last).len(),
        pool(last)[r as int] == s,
{
    lemma_pool(last);
    let at = style_place(s);
    assert(all_styles()[at] == s);
    match last {
        None => at as u32,
        Some(l) => {
            let q = style_place(l);
            assert(all_styles()[q] == l);
            let r: u32 = if q < at {
                (at - 1) as u32
            } else {
                at as u32
            };
            assert(pool(last)[r as int] == all_styles()[at]);
            r
        },
    }
}

/// A style is drawn with a number below this: a multiple of both numbers of styles
/// to choose between, so none is favoured.
pub const STYLE_DRAWS: u32 = 30;

/// A number below the length of the pool picks the style at its place.
proof fn lemma_picked_below(last: Option<FlashStyle>, r: u32)
    requires
        r < pool(last).len(),
    ensures
        picked(true, last, r) == pool(last)[r as int],
{
    lemma_pool(last);
    vstd::arithmetic::div_mod::lemma_small_mod(r as nat, pool(last).len());
}

/// A flash that varies is never the one before it; every other one can come, and
/// of the numbers that are drawn each comes of as many as any other: the pick
/// depends on the place of the number in a row of the pool's length, which divides
/// how many can be drawn, and within a row no two picks are the same.
pub proof fn law_a_varied_flash_never_repeats(
    last: Option<FlashStyle>,
    random: u32,
    other: FlashStyle,
    a: u32,
    b: u32,
)
    ensures
        last != Some(picked(true, last, random)),
        Some(other) != last ==> exists|r: u32|
            r < pool(last).len() && #[trigger] picked(true, last, r) == other,
        a < b < pool(last).len() ==> picked(true, last, a) != picked(true, last, b),
        STYLE_DRAWS as nat % pool(last).len() == 0,
        random + pool(last).len() <= u32::MAX ==> picked(true, last, random) == picked(
            true,
            last,
            (random + pool(last).len()) as u32,
        ),
{
    lemma_pool(last);
    let n = pool(last).len() as int;
    vstd::arithmetic::div_mod::lemma_mod_bound(random as int, n);
    assert(last != Some(pool(last)[(random as int) % n]));
    if Some(other) != last {
        let r = lemma_style_in_pool(last, other);
        lemma_picked_below(last, r);
    }
    if a < b < pool(last).len() {
        lemma_picked_below(last, a);
        lemma_picked_below(last, b);
    }
    vstd::arithmetic::div_mod::lemma_mod_add_multiples_vanish(random as int, n);
}

/// A fixed flash is always the same one.
pub proof fn law_a_fixed_flash_stays(last: Option<FlashStyle>, random: u32)
    ensures
        picked(false, last, random) == FlashStyle::FIXED,
{
}

/// A window holds its start and not its end, is the whole day where both are the
/// same, and otherwise is what the window with its ends swapped leaves of the day.
pub proof fn law_windows(now: int, from: int, to: int)
    requires
        0 <= now < 1440,
        0 <= from < 1440,
        0 <= to < 1440,
    ensures
        from == to ==> inside(now, from, to),
        inside(from, from, to),
        from != to ==> !inside(to, from, to),
        from != to ==> inside(now, from, to) != inside(now, to, from),
{
}

/// An empty Now is reported before the quieter reasons, and without one of the
/// quiet rules switched on nothing else holds a flash back.
pub proof fn law_an_empty_now_outranks_the_quiet_rules(s: Settings, t: TaskView, now: TimeOfDay)
    ensures
        s.held(None, now) == Hold::NoCurrentTask,
        !s.quiet_paused && !s.quiet_hours ==> s.held(Some(t), now) == Hold::Nothing,
        s.held(Some(t), now) == Hold::Paused ==> s.quiet_paused && t.paused(),
        s.held(Some(t), now) == Hold::OutsideHours ==> s.quiet_hours,
{
}

/// A patch is looked at for keys that are those of no setting, and the complaint is
/// about the first of them in order.
pub proof fn law_unknown_keys_are_refused(f: Seq<(Seq<char>, JsonTree)>, i: int)
    requires
        0 <= i < f.len(),
    ensures
        unknown_key(f) is None ==> is_setting(f[i].0),
        unknown_key(f) matches Some(key) ==> !is_setting(key) && (is_setting(f[i].0) || !precedes(
            f[i].0,
            key,
        )),
    decreases f.len(),
{
    let front = f.drop_last();
    if i < front.len() {
        law_unknown_keys_are_refused(front, i);
        assert(front[i] == f[i]);
    }
    if front.len() > 0 {
        law_unknown_keys_are_refused(front, 0);
    }
    lemma_nothing_precedes_itself(f.last().0);
    if unknown_key(front) is Some && i < front.len() && precedes(f.last().0, unknown_key(front)->0)
        && precedes(f[i].0, f.last().0) {
        lemma_precedes_is_transitive(f[i].0, f.last().0, unknown_key(front)->0);
    }
}

proof fn lemma_nothing_precedes_itself(a: Seq<char>)
    ensures
        !precedes(a, a),
    decreases a.len(),
{
    if a.len() > 0 {
        lemma_nothing_precedes_itself(a.drop_first());
    }
}

proof fn lemma_precedes_is_transitive(a: Seq<char>, b: Seq<char>, c: Seq<char>)
    requires
        precedes(a, b),
        precedes(b, c),
    ensures
        precedes(a, c),
    decreases a.len(),
{
    if a.len() > 0 && b.len() > 0 && c.len() > 0 && a[0] == b[0] && b[0] == c[0] {
        lemma_precedes_is_transitive(a.drop_first(), b.drop_first(), c.drop_first());
    }
}

// ---- what the settings mean ----------------------------------------------------------

/// What the choices are called in files and on the bus, and on their buttons.
pub proof fn law_what_choices_are_called(
    i: Intensity,
    c: FlashColor,
    p: Palette,
    t: Theme,
    f: FlashStyle,
    h: Hold,
)
    ensures
        forall|s: &'static str|
            #[trigger] call_ensures(Intensity::as_str, (i,), s) || #[trigger] call_ensures(
                Intensity::label,
                (i,),
                s,
            ) ==> s@ == (match i {
                Intensity::Subtle => "subtle"@,
                Intensity::Normal => "normal"@,
                Intensity::Strong => "strong"@,
            }),
        forall|s: &'static str| #[trigger]
            call_ensures(FlashColor::as_str, (c,), s) ==> s@ == (match c {
                FlashColor::Tag => "tag"@,
                FlashColor::Blue => "blue"@,
                FlashColor::Orange => "orange"@,
            }),
        forall|s: &'static str| #[trigger]
            call_ensures(FlashColor::label, (c,), s) ==> s@ == (match c {
                FlashColor::Tag => "follow tag"@,
                FlashColor::Blue => "blue"@,
                FlashColor::Orange => "orange"@,
            }),
        forall|s: &'static str| #[trigger]
            call_ensures(Palette::as_str, (p,), s) ==> s@ == (match p {
                Palette::Blue => "blue"@,
                Palette::Orange => "orange"@,
            }),
        forall|s: &'static str| #[trigger]
            call_ensures(Theme::as_str, (t,), s) ==> s@ == (match t {
                Theme::System => "system"@,
                Theme::Light => "light"@,
                Theme::Dark => "dark"@,
            }),
        forall|s: &'static str| #[trigger]
            call_ensures(Theme::label, (t,), s) ==> s@ == (match t {
                Theme::System => "System"@,
                Theme::Light => "Light"@,
                Theme::Dark => "Dark"@,
            }),
        forall|s: &'static str| #[trigger]
            call_ensures(FlashStyle::as_str, (f,), s) ==> s@ == (match f {
                FlashStyle::Wash => "wash"@,
                FlashStyle::Wash2 => "wash2"@,
                FlashStyle::Edges => "edges"@,
                FlashStyle::EdgesSoft => "edgesSoft"@,
                FlashStyle::Topbar => "topbar"@,
                FlashStyle::TopbarBeam => "topbarBeam"@,
            }),
        forall|s: &'static str| #[trigger]
            call_ensures(Hold::reason, (h,), s) ==> s@ == (match h {
                Hold::Nothing => ""@,
                Hold::NoCurrentTask => "nothing in Now"@,
                Hold::Paused => "the timer is paused"@,
                Hold::OutsideHours => "outside the chosen hours"@,
            }),
        forall|none: bool| #[trigger]
            call_ensures(Hold::is_none, (h,), none) ==> none == (h == Hold::Nothing),
{
}

/// Whether a JSON value gives a name: as a text, or as the key of an object with null.
pub open spec fn gives_name(t: JsonTree, name: Seq<char>) -> bool {
    t == JsonTree::Text(name) || t == JsonTree::Object(seq![(name, JsonTree::Null)])
}

/// A choice is read exactly of a value that gives its name.
pub proof fn law_a_choice_is_read_of_its_name(t: JsonTree)
    ensures
        forall|v: Intensity|
            Intensity::read(t) == Ok::<Intensity, Seq<char>>(v) <==> gives_name(
                t,
                #[trigger] v.name(),
            ),
        forall|v: FlashColor|
            FlashColor::read(t) == Ok::<FlashColor, Seq<char>>(v) <==> gives_name(
                t,
                #[trigger] v.name(),
            ),
        forall|v: Theme|
            Theme::read(t) == Ok::<Theme, Seq<char>>(v) <==> gives_name(t, #[trigger] v.name()),
        forall|v: FlashStyle|
            FlashStyle::read(t) == Ok::<FlashStyle, Seq<char>>(v) <==> gives_name(
                t,
                #[trigger] v.name(),
            ),
        forall|v: Bucket|
            Bucket::read(t) == Ok::<Bucket, Seq<char>>(v) <==> gives_name(t, #[trigger] v.name()),
        forall|v: Tag|
            Tag::read(t) == Ok::<Tag, Seq<char>>(v) <==> gives_name(t, #[trigger] v.name()),
{
    json::law_a_name_is_found_where_it_stands(t, Intensity::names());
    json::law_a_name_is_found_where_it_stands(t, FlashColor::names());
    json::law_a_name_is_found_where_it_stands(t, Theme::names());
    json::law_a_name_is_found_where_it_stands(t, FlashStyle::names());
    json::law_a_name_is_found_where_it_stands(t, Bucket::names());
    json::law_a_name_is_found_where_it_stands(t, Tag::names());
    assert forall|v: Intensity|
        Intensity::read(t) == Ok::<Intensity, Seq<char>>(v) <==> gives_name(
            t,
            #[trigger] v.name(),
        ) by {
        lemma_intensity_reads_back(v);
    }
    assert forall|v: FlashColor|
        FlashColor::read(t) == Ok::<FlashColor, Seq<char>>(v) <==> gives_name(
            t,
            #[trigger] v.name(),
        ) by {
        lemma_color_reads_back(v);
    }
    assert forall|v: Theme|
        Theme::read(t) == Ok::<Theme, Seq<char>>(v) <==> gives_name(t, #[trigger] v.name()) by {
        lemma_theme_reads_back(v);
    }
    assert forall|v: FlashStyle|
        FlashStyle::read(t) == Ok::<FlashStyle, Seq<char>>(v) <==> gives_name(
            t,
            #[trigger] v.name(),
        ) by {
        lemma_style_reads_back(v);
    }
    assert forall|v: Bucket|
        Bucket::read(t) == Ok::<Bucket, Seq<char>>(v) <==> gives_name(t, #[trigger] v.name()) by {
        lemma_bucket_reads_back(v);
    }
    assert forall|v: Tag|
        Tag::read(t) == Ok::<Tag, Seq<char>>(v) <==> gives_name(t, #[trigger] v.name()) by {
        lemma_tag_reads_back(v);
    }
}

/// A flash is painted in the chosen colour; where that follows the tag, in orange for a
/// personal task and in blue for every other.
pub proof fn law_which_colour_a_flash_has(c: FlashColor, tag: Option<Tag>)
    ensures
        forall|p: Palette| #[trigger]
            call_ensures(FlashColor::palette, (c, tag), p) ==> (p == Palette::Orange <==> c
                == FlashColor::Orange || (c == FlashColor::Tag && tag == Some(Tag::Personal))),
{
}

/// A varied flash is one of the six styles in their order without the last one, counted
/// round by the number; a fixed flash is the frame that pulses twice.
pub proof fn law_which_style_a_number_picks(vary: bool, last: Option<FlashStyle>, random: u32)
    ensures
        forall|s: FlashStyle| #[trigger]
            call_ensures(pick_style, (vary, last, random), s) ==> {
                let all = seq![
                    FlashStyle::Wash,
                    FlashStyle::Wash2,
                    FlashStyle::Edges,
                    FlashStyle::EdgesSoft,
                    FlashStyle::Topbar,
                    FlashStyle::TopbarBeam,
                ];
                &&& !vary ==> s == FlashStyle::Edges
                &&& vary && last is None ==> s == all[random as int % 6]
                &&& forall|p: int|
                    0 <= p < 6 && vary && last == Some(#[trigger] all[p]) ==> s == all[if random
                        as int % 5 < p {
                        random as int % 5
                    } else {
                        random as int % 5 + 1
                    }]
            },
{
    lemma_pool(last);
    assert(forall|i: int| 0 <= i < 6 ==> style_place(#[trigger] all_styles()[i]) == i);
    vstd::arithmetic::div_mod::lemma_mod_bound(random as int, 5);
    vstd::arithmetic::div_mod::lemma_mod_bound(random as int, 6);
}

/// The digit that a character writes.
pub open spec fn value_of(c: char) -> int {
    c as u32 - 48
}

/// Whether a text, without the whitespace around it, is a clock face for so many minutes
/// since midnight: one or two digits, a colon and two digits, in a day.
pub open spec fn is_face(s: Seq<char>, minutes: int) -> bool {
    let t = text::trim(s);
    let n = t.len() as int;
    let hour = if n == 4 {
        value_of(t[0])
    } else {
        value_of(t[0]) * 10 + value_of(t[1])
    };
    &&& n == 4 || n == 5
    &&& t[n - 3] == ':'
    &&& forall|i: int| 0 <= i < n && i != n - 3 ==> 0 <= value_of(#[trigger] t[i]) <= 9
    &&& hour < 24
    &&& value_of(t[n - 2]) < 6
    &&& minutes == hour * 60 + value_of(t[n - 2]) * 10 + value_of(t[n - 1])
}

proof fn lemma_two(s: Seq<char>)
    ensures
        s.len() == 2 && text::all_digits(s) ==> text::digits_value(s) == value_of(s[0]) * 10
            + value_of(s[1]),
        s.len() == 1 && text::all_digits(s) ==> text::digits_value(s) == value_of(s[0]),
{
    if s.len() == 1 {
        assert(s.drop_last() =~= Seq::<char>::empty());
        assert(text::digits_value(s.drop_last()) == 0);
    }
    if s.len() == 2 {
        assert(s.drop_last() =~= seq![s[0]]);
        assert(s.drop_last().drop_last() =~= Seq::<char>::empty());
        assert(text::digits_value(s.drop_last().drop_last()) == 0);
        if text::all_digits(s) {
            assert(text::is_digit(s[0]) && text::is_digit(s[1]));
            assert(text::digits_value(s.drop_last()) == value_of(s[0]));
        }
    }
}

proof fn lemma_face(s: Seq<char>)
    ensures
        forall|m: int| clock_minutes(s) == Some(m) <==> #[trigger] is_face(s, m),
{
    let t = text::trim(s);
    let at = t.len() - 3;
    if t.len() == 4 || t.len() == 5 {
        let a = t.take(at);
        let b = t.skip(at + 1);
        if text::all_digits(a) && text::all_digits(b) {
            lemma_two(a);
            lemma_two(b);
            assert(a[0] == t[0]);
            if t.len() == 5 {
                assert(a[1] == t[1]);
            }
            assert(b[0] == t[at + 1] && b[1] == t[at + 2]);
            assert(text::is_digit(a[0]) && text::is_digit(b[0]) && text::is_digit(b[1]));
            assert forall|i: int| 0 <= i < t.len() && i != at implies 0 <= value_of(
                #[trigger] t[i],
            ) <= 9 by {
                if i < at {
                    assert(a[i] == t[i]);
                } else {
                    assert(b[i - at - 1] == t[i]);
                }
            }
        } else {
            assert forall|m: int| !#[trigger] is_face(s, m) by {
                if is_face(s, m) {
                    assert forall|i: int| 0 <= i < a.len() implies text::is_digit(
                        #[trigger] a[i],
                    ) by {
                        assert(0 <= value_of(t[i]) <= 9);
                    }
                    assert forall|i: int| 0 <= i < b.len() implies text::is_digit(
                        #[trigger] b[i],
                    ) by {
                        assert(0 <= value_of(t[at + 1 + i]) <= 9);
                    }
                }
            }
        }
    }
}

/// A time of day is made of an hour and a minute of a day and of nothing else, gives
/// them back, and is read of its clock face and of no other text.
pub proof fn law_a_time_is_an_hour_and_a_minute(hour: u32, minute: u32, s: &str, t: TimeOfDay)
    ensures
        forall|made: Option<TimeOfDay>| #[trigger]
            call_ensures(TimeOfDay::new, (hour, minute), made) ==> {
                &&& made is Some <==> hour < 24 && minute < 60
                &&& made matches Some(m) ==> m.since_midnight() == hour * 60 + minute
            },
        forall|h: u16, m: u16| #[trigger]
            call_ensures(TimeOfDay::hour, (t,), h) && #[trigger] call_ensures(
                TimeOfDay::minute,
                (t,),
                m,
            ) ==> h < 24 && m < 60 && h * 60 + m == t.since_midnight(),
        forall|read: Option<TimeOfDay>| #[trigger]
            call_ensures(TimeOfDay::parse, (s,), read) ==> match read {
                Some(r) => is_face(s@, r.since_midnight()),
                None => forall|m: int| !#[trigger] is_face(s@, m),
            },
        forall|face: String| #[trigger]
            call_ensures(TimeOfDay::to_string, (t,), face) && 0 <= t.since_midnight() < 1440
                ==> face@.len() == 5 && is_face(face@, t.since_midnight()),
        forall|out: TimeOfDay| #[trigger]
            call_ensures(local_time_of_day, (Some((hour, minute)),), out) ==> out.since_midnight()
                == (if hour < 24 && minute < 60 {
                hour * 60 + minute
            } else {
                720
            }),
        forall|out: TimeOfDay| #[trigger]
            call_ensures(local_time_of_day, (None::<(u32, u32)>,), out) ==> out.since_midnight()
                == 720,
{
    lemma_face(s@);
    if 0 <= t.since_midnight() < 1440 {
        law_a_clock_face_reads_back(t);
        lemma_face(t.face());
        lemma_two_digits((t.since_midnight() / 60) as nat);
        lemma_two_digits((t.since_midnight() % 60) as nat);
        reveal_strlit(":");
    }
}

/// A time is inside a daily window exactly where it is less far behind the start, going
/// round the day, than the end is; a window with both ends the same is the whole day.
pub proof fn law_a_window_goes_round_the_day(now: TimeOfDay, from: TimeOfDay, to: TimeOfDay)
    requires
        0 <= now.since_midnight() < 1440,
        0 <= from.since_midnight() < 1440,
        0 <= to.since_midnight() < 1440,
    ensures
        forall|within: bool| #[trigger]
            call_ensures(within_window, (now, from, to), within) ==> within == ({
                let gone = now.since_midnight() - from.since_midnight();
                let length = to.since_midnight() - from.since_midnight();
                ||| length == 0
                ||| (if gone < 0 {
                    gone + 1440
                } else {
                    gone
                }) < (if length < 0 {
                    length + 1440
                } else {
                    length
                })
            }),
{
}

/// The reminder is held back for an empty Now; else for a pause, where that is asked
/// for; else outside the hours, where those are; and else not at all.
pub proof fn law_what_holds_a_flash_back(s: Settings, current: Option<&Task>, now: TimeOfDay)
    ensures
        forall|h: Hold| #[trigger]
            call_ensures(Settings::hold, (&s, current, now), h) ==> {
                let paused = current matches Some(t) && t.started_at is Some && t.paused_at is Some;
                let outside = !inside(
                    now.since_midnight(),
                    s.quiet_from.since_midnight(),
                    s.quiet_to.since_midnight(),
                );
                &&& h == Hold::NoCurrentTask <==> current is None
                &&& h == Hold::Paused <==> s.quiet_paused && paused
                &&& h == Hold::OutsideHours <==> current is Some && !(s.quiet_paused && paused)
                    && s.quiet_hours && outside
            },
{
}

/// The interval is pulled into 1 to 90 minutes, everything else is left alone, and the
/// wait is the interval in seconds.
pub proof fn law_the_interval_is_one_to_ninety_minutes(s: Settings)
    ensures
        forall|m: &mut Settings| #[trigger]
            call_ensures(Settings::sanitize, (m,), ()) && *m == s ==> {
                &&& *final(m) == (Settings { interval_min: (*final(m)).interval_min, ..s })
                &&& 1 <= (*final(m)).interval_min <= 90
                &&& 1 <= s.interval_min <= 90 ==> *final(m) == s
                &&& s.interval_min > 90 ==> (*final(m)).interval_min == 90
                &&& s.interval_min < 1 ==> (*final(m)).interval_min == 1
            },
        forall|secs: u64| #[trigger]
            call_ensures(Settings::interval_secs, (&s,), secs) ==> {
                &&& 1 <= s.interval_min <= 90 ==> secs == s.interval_min * 60
                &&& s.interval_min > 90 ==> secs == 5400
                &&& s.interval_min < 1 ==> secs == 60
            },
{
}

// ---- the settings as JSON ------------------------------------------------------------

/// Whether a switch is what a field says, or what it was where there is no field.
pub open spec fn bool_says(field: Option<JsonTree>, base: bool, got: bool) -> bool {
    match field {
        None => got == base,
        Some(t) => t == JsonTree::Bool(got),
    }
}

/// The same of a number.
pub open spec fn number_says(field: Option<JsonTree>, base: u32, got: u32) -> bool {
    match field {
        None => got == base,
        Some(t) => t == JsonTree::Unsigned(got as u64),
    }
}

/// The same of a time of day.
pub open spec fn time_says(field: Option<JsonTree>, base: TimeOfDay, got: TimeOfDay) -> bool {
    match field {
        None => got == base,
        Some(t) => t is Text && is_face(t->Text_0, got.since_midnight()),
    }
}

/// The same of a choice, by its name.
pub open spec fn name_says(field: Option<JsonTree>, base: Seq<char>, got: Seq<char>) -> bool {
    match field {
        None => got == base,
        Some(t) => gives_name(t, got),
    }
}

/// Whether settings are what an object says of them, and what they were where it says
/// nothing.
pub open spec fn says_all(f: Seq<(Seq<char>, JsonTree)>, base: Settings, got: Settings) -> bool {
    &&& bool_says(json::field(f, "vary"@), base.vary, got.vary)
    &&& bool_says(json::field(f, "quiet_paused"@), base.quiet_paused, got.quiet_paused)
    &&& bool_says(json::field(f, "quiet_hours"@), base.quiet_hours, got.quiet_hours)
    &&& bool_says(json::field(f, "show_timer"@), base.show_timer, got.show_timer)
    &&& number_says(json::field(f, "interval_min"@), base.interval_min, got.interval_min)
    &&& time_says(json::field(f, "quiet_from"@), base.quiet_from, got.quiet_from)
    &&& time_says(json::field(f, "quiet_to"@), base.quiet_to, got.quiet_to)
    &&& name_says(json::field(f, "intensity"@), base.intensity.name(), got.intensity.name())
    &&& name_says(json::field(f, "color"@), base.color.name(), got.color.name())
    &&& name_says(json::field(f, "theme"@), base.theme.name(), got.theme.name())
    &&& name_says(
        json::field(f, "default_bucket"@),
        base.default_bucket.name(),
        got.default_bucket.name(),
    )
}

/// Whether a setting cannot have a value.
pub open spec fn cannot_be(key: Seq<char>, t: JsonTree) -> bool {
    ||| (key == "vary"@ || key == "quiet_paused"@ || key == "quiet_hours"@ || key == "show_timer"@)
        && !(t is Bool)
    ||| key == "interval_min"@ && !(t is Unsigned && t->Unsigned_0 <= u32::MAX)
    ||| (key == "quiet_from"@ || key == "quiet_to"@) && !(t is Text && exists|m: int| #[trigger]
        is_face(t->Text_0, m))
    ||| key == "intensity"@ && forall|v: Intensity| !gives_name(t, #[trigger] v.name())
    ||| key == "color"@ && forall|v: FlashColor| !gives_name(t, #[trigger] v.name())
    ||| key == "theme"@ && forall|v: Theme| !gives_name(t, #[trigger] v.name())
    ||| key == "default_bucket"@ && forall|v: Bucket| !gives_name(t, #[trigger] v.name())
}

proof fn lemma_time_read(t: JsonTree)
    ensures
        TimeOfDay::read(t) matches Ok(v) ==> t is Text && is_face(t->Text_0, v.since_midnight()),
        TimeOfDay::read(t) is Err ==> !(t is Text && exists|m: int| #[trigger]
            is_face(t->Text_0, m)),
{
    if t is Text {
        lemma_face(t->Text_0);
        match clock_minutes(t->Text_0) {
            Some(m) => {
                assert(is_face(t->Text_0, m));
                assert(0 <= m < 1440);
            },
            None => {},
        }
    }
}

#[verifier::rlimit(50)]
pub(crate) proof fn lemma_says_all(f: Seq<(Seq<char>, JsonTree)>, base: Settings)
    ensures
        match Settings::read(f, base) {
            Ok(s) => says_all(f, base, s),
            Err(e) => json::field(f, e.key) is Some && cannot_be(
                e.key,
                json::field(f, e.key)->0,
            ),
        },
{
    lemma_setting_keys();
    for_each_field(f, "intensity"@);
    for_each_field(f, "color"@);
    for_each_field(f, "theme"@);
    for_each_field(f, "default_bucket"@);
    match json::field(f, "quiet_from"@) {
        Some(t) => lemma_time_read(t),
        None => {},
    }
    match json::field(f, "quiet_to"@) {
        Some(t) => lemma_time_read(t),
        None => {},
    }
}

/// What choices a field gives.
proof fn for_each_field(f: Seq<(Seq<char>, JsonTree)>, key: Seq<char>)
    ensures
        json::field(f, key) matches Some(t) ==> {
            &&& match Intensity::read(t) {
                Ok(v) => gives_name(t, v.name()),
                Err(_) => forall|v: Intensity| !gives_name(t, #[trigger] v.name()),
            }
            &&& match FlashColor::read(t) {
                Ok(v) => gives_name(t, v.name()),
                Err(_) => forall|v: FlashColor| !gives_name(t, #[trigger] v.name()),
            }
            &&& match Theme::read(t) {
                Ok(v) => gives_name(t, v.name()),
                Err(_) => forall|v: Theme| !gives_name(t, #[trigger] v.name()),
            }
            &&& match Bucket::read(t) {
                Ok(v) => gives_name(t, v.name()),
                Err(_) => forall|v: Bucket| !gives_name(t, #[trigger] v.name()),
            }
        },
{
    match json::field(f, key) {
        Some(t) => law_a_choice_is_read_of_its_name(t),
        None => {},
    }
}

/// Settings read of an object are what it says of each, and those that they are read
/// over where it says nothing; a value that a setting cannot have is refused, and the
/// complaint names the setting.
pub proof fn law_settings_are_what_an_object_says(f: Vec<(String, Json)>, base: Settings)
    ensures
        forall|r: Result<Settings, BadField>| #[trigger]
            call_ensures(Settings::from_members, (&f, &base), r) ==> match r {
                Ok(s) => says_all(json::members(f@), base, s),
                Err(e) => json::field(json::members(f@), e.key@) is Some && cannot_be(
                    e.key@,
                    json::field(json::members(f@), e.key@)->0,
                ),
            },
{
    lemma_says_all(json::members(f@), base);
}

/// The names of the settings in files and in patches.
pub open spec fn setting_names() -> Seq<Seq<char>> {
    seq![
        "color"@,
        "default_bucket"@,
        "intensity"@,
        "interval_min"@,
        "quiet_from"@,
        "quiet_hours"@,
        "quiet_paused"@,
        "quiet_to"@,
        "show_timer"@,
        "theme"@,
        "vary"@,
    ]
}

proof fn lemma_setting_names(key: Seq<char>)
    ensures
        is_setting(key) <==> setting_names().contains(key),
{
    let n = setting_names();
    assert(n[0] == "color"@ && n[1] == "default_bucket"@ && n[2] == "intensity"@ && n[3]
        == "interval_min"@ && n[4] == "quiet_from"@ && n[5] == "quiet_hours"@ && n[6]
        == "quiet_paused"@ && n[7] == "quiet_to"@ && n[8] == "show_timer"@ && n[9] == "theme"@
        && n[10] == "vary"@);
    if n.contains(key) {
        let k = choose|k: int| 0 <= k < n.len() && n[k] == key;
        assert(k == 0 || k == 1 || k == 2 || k == 3 || k == 4 || k == 5 || k == 6 || k == 7 || k
            == 8 || k == 9 || k == 10);
    }
}

/// A patch is an object of settings. It sets those that it names to what it says,
/// pulls the interval into range, and leaves the rest; a patch with a key of no setting
/// or with a value that a setting cannot have changes nothing.
pub proof fn law_a_patch_sets_what_it_names(s: Settings, patch: Result<Json, String>)
    ensures
        forall|m: &mut Settings, r: Result<(), String>|
            *m == s && #[trigger] call_ensures(Settings::apply_parsed, (m, patch), r)
                ==> is_patched(
                s,
                match patch {
                    Ok(j) => Ok(j@),
                    Err(e) => Err(e@),
                },
                *final(m),
                r is Ok,
            ),
{
    lemma_is_patched(
        s,
        match patch {
            Ok(j) => Ok(j@),
            Err(e) => Err(e@),
        },
    );
}

/// The same of a patch that is a text.
pub proof fn law_a_patch_text_sets_what_it_names(s: Settings, patch: &str)
    ensures
        forall|m: &mut Settings, r: Result<(), String>|
            *m == s && #[trigger] call_ensures(Settings::apply_patch, (m, patch), r) ==> is_patched(
                s,
                json::parsed(patch@),
                *final(m),
                r is Ok,
            ),
{
    lemma_is_patched(s, json::parsed(patch@));
}

/// Whether a patch made this of settings.
pub open spec fn is_patched(
    before: Settings,
    patch: Result<JsonTree, Seq<char>>,
    after: Settings,
    done: bool,
) -> bool {
    match patch {
        Ok(JsonTree::Object(f)) => {
            let known = forall|i: int|
                0 <= i < f.len() ==> setting_names().contains((#[trigger] f[i]).0);
            if done {
                &&& known
                &&& 1 <= after.interval_min <= 90
                &&& exists|n: u32|
                    {
                        &&& #[trigger] says_all(
                            f,
                            before,
                            Settings { interval_min: n, ..after },
                        )
                        &&& after.interval_min == (if n < 1 {
                            1
                        } else if n > 90 {
                            90
                        } else {
                            n
                        })
                    }
            } else {
                &&& after == before
                &&& known ==> exists|key: Seq<char>| #[trigger]
                    json::field(f, key) is Some && cannot_be(key, json::field(f, key)->0)
            }
        },
        _ => !done && after == before,
    }
}

pub(crate) proof fn lemma_is_patched(s: Settings, patch: Result<JsonTree, Seq<char>>)
    ensures
        match s.patched(patch) {
            Ok(after) => is_patched(s, patch, after, true),
            Err(_) => is_patched(s, patch, s, false),
        },
{
    match patch {
        Ok(JsonTree::Object(f)) => {
            lemma_says_all(f, s);
            assert forall|i: int| 0 <= i < f.len() implies is_setting((#[trigger] f[i]).0)
                == setting_names().contains(f[i].0) by {
                lemma_setting_names(f[i].0);
            }
            if unknown_key(f) is None {
                assert forall|i: int| 0 <= i < f.len() implies setting_names().contains(
                    (#[trigger] f[i]).0,
                ) by {
                    law_unknown_keys_are_refused(f, i);
                }
            } else {
                let i = lemma_unknown_stands(f);
                assert(!setting_names().contains(f[i].0));
            }
            match Settings::read(f, s) {
                Ok(read) => {
                    let after = read.sane();
                    assert(Settings { interval_min: read.interval_min, ..after } == read);
                    assert(says_all(f, s, Settings { interval_min: read.interval_min, ..after }));
                },
                Err(e) => {
                    assert(json::field(f, e.key) is Some);
                },
            }
        },
        _ => {},
    }
}

/// The unknown key that is complained of stands in the object.
proof fn lemma_unknown_stands(f: Seq<(Seq<char>, JsonTree)>) -> (i: int)
    requires
        unknown_key(f) is Some,
    ensures
        0 <= i < f.len(),
        f[i].0 == unknown_key(f)->0,
        !is_setting(f[i].0),
    decreases f.len(),
{
    let front = f.drop_last();
    if unknown_key(front) is Some && unknown_key(f) == unknown_key(front) {
        let i = lemma_unknown_stands(front);
        assert(front[i] == f[i]);
        i
    } else {
        f.len() - 1
    }
}

/// Settings are written under their names, each as what it is.
pub proof fn law_settings_are_written_under_their_names(s: Settings)
    ensures
        forall|j: Json| #[trigger]
            call_ensures(Settings::as_json, (&s,), j) ==> writes_all(j@, s),
        forall|text: String| #[trigger]
            call_ensures(Settings::to_json, (&s,), text) ==> (json::parsed(text@) matches Ok(j)
                && writes_all(j, s)),
{
    lemma_writes_all(s);
}

pub(crate) proof fn lemma_writes_all(s: Settings)
    ensures
        writes_all(JsonTree::Object(s.members()), s),
{
    lemma_setting_keys();
    let f = s.members();
    json::lemma_field_at(f, 0);
    json::lemma_field_at(f, 1);
    json::lemma_field_at(f, 2);
    json::lemma_field_at(f, 3);
    json::lemma_field_at(f, 4);
    json::lemma_field_at(f, 5);
    json::lemma_field_at(f, 6);
    json::lemma_field_at(f, 7);
    json::lemma_field_at(f, 8);
    json::lemma_field_at(f, 9);
    json::lemma_field_at(f, 10);
}

pub open spec fn writes_all(j: JsonTree, s: Settings) -> bool {
    &&& j matches JsonTree::Object(f)
    &&& f.len() == 11
    &&& json::field(f, "interval_min"@) == Some(JsonTree::Unsigned(s.interval_min as u64))
    &&& json::field(f, "vary"@) == Some(JsonTree::Bool(s.vary))
    &&& json::field(f, "quiet_paused"@) == Some(JsonTree::Bool(s.quiet_paused))
    &&& json::field(f, "quiet_hours"@) == Some(JsonTree::Bool(s.quiet_hours))
    &&& json::field(f, "show_timer"@) == Some(JsonTree::Bool(s.show_timer))
    &&& json::field(f, "quiet_from"@) == Some(JsonTree::Text(s.quiet_from.face()))
    &&& json::field(f, "quiet_to"@) == Some(JsonTree::Text(s.quiet_to.face()))
    &&& json::field(f, "intensity"@) == Some(JsonTree::Text(s.intensity.name()))
    &&& json::field(f, "color"@) == Some(JsonTree::Text(s.color.name()))
    &&& json::field(f, "theme"@) == Some(JsonTree::Text(s.theme.name()))
    &&& json::field(f, "default_bucket"@) == Some(JsonTree::Text(s.default_bucket.name()))
}

/// The settings of somebody who never changed any: a flash every quarter of an hour, and
/// quiet hours, once they are asked for, from nine to six.
pub open spec fn is_usual(s: Settings) -> bool {
    &&& s.interval_min == 15
    &&& s.vary
    &&& s.intensity == Intensity::Normal
    &&& s.color == FlashColor::Tag
    &&& s.quiet_paused
    &&& !s.quiet_hours
    &&& s.quiet_from.since_midnight() == 9 * 60
    &&& s.quiet_to.since_midnight() == 18 * 60
    &&& s.theme == Theme::System
    &&& s.show_timer
    &&& s.default_bucket == Bucket::Next
}

/// Whether settings are these with the interval pulled between one and ninety minutes.
pub open spec fn is_in_range(s: Settings, got: Settings) -> bool {
    &&& got.interval_min == (if s.interval_min < 1 {
        1
    } else if s.interval_min > 90 {
        90
    } else {
        s.interval_min
    })
    &&& got == (Settings { interval_min: got.interval_min, ..s })
}

/// What the settings are where nobody changed any.
pub proof fn law_what_is_usual()
    ensures
        is_usual(Settings::usual()),
        forall|s: Settings| #[trigger]
            call_ensures(<Settings as Default>::default, (), s) ==> is_usual(s),
        forall|v: Intensity| #[trigger]
            call_ensures(<Intensity as Default>::default, (), v) ==> v == Intensity::Normal,
        forall|v: FlashColor| #[trigger]
            call_ensures(<FlashColor as Default>::default, (), v) ==> v == FlashColor::Tag,
        forall|v: Theme| #[trigger]
            call_ensures(<Theme as Default>::default, (), v) ==> v == Theme::System,
{
}

/// A choice is read of a JSON value exactly where the value gives its name.
pub proof fn law_what_reads_as_a_choice(j: Json)
    ensures
        forall|r: Result<Bucket, String>| #[trigger]
            call_ensures(Bucket::from_json, (&j,), r) ==> match r {
                Ok(v) => gives_name(j@, v.name()),
                Err(_) => !gives_name(j@, Bucket::Now.name()) && !gives_name(
                    j@,
                    Bucket::Next.name(),
                ) && !gives_name(j@, Bucket::Later.name()) && !gives_name(j@, Bucket::Side.name()),
            },
        forall|r: Result<Tag, String>| #[trigger]
            call_ensures(Tag::from_json, (&j,), r) ==> match r {
                Ok(v) => gives_name(j@, v.name()),
                Err(_) => !gives_name(j@, Tag::Work.name()) && !gives_name(
                    j@,
                    Tag::Personal.name(),
                ),
            },
{
    law_a_choice_is_read_of_its_name(j@);
}

/// A choice of the settings, and a time of day, is read of a JSON value exactly where the
/// value gives its name, or its hour and minute.
pub proof fn law_what_reads_as_a_setting(j: Json)
    ensures
        forall|r: Result<Intensity, String>| #[trigger]
            call_ensures(Intensity::from_json, (&j,), r) ==> match r {
                Ok(v) => gives_name(j@, v.name()),
                Err(_) => cannot_be("intensity"@, j@),
            },
        forall|r: Result<FlashColor, String>| #[trigger]
            call_ensures(FlashColor::from_json, (&j,), r) ==> match r {
                Ok(v) => gives_name(j@, v.name()),
                Err(_) => cannot_be("color"@, j@),
            },
        forall|r: Result<Theme, String>| #[trigger]
            call_ensures(Theme::from_json, (&j,), r) ==> match r {
                Ok(v) => gives_name(j@, v.name()),
                Err(_) => cannot_be("theme"@, j@),
            },
        forall|r: Result<FlashStyle, String>| #[trigger]
            call_ensures(FlashStyle::from_json, (&j,), r) ==> match r {
                Ok(v) => gives_name(j@, v.name()),
                Err(_) => no_style_is(j@),
            },
        forall|r: Result<TimeOfDay, String>| #[trigger]
            call_ensures(TimeOfDay::from_json, (&j,), r) ==> match r {
                Ok(v) => j@ is Text && is_face(j@->Text_0, v.since_midnight()),
                Err(_) => cannot_be("quiet_from"@, j@),
            },
{
    law_a_choice_is_read_of_its_name(j@);
    lemma_time_read(j@);
}

/// Whether a value gives the name of no style.
pub open spec fn no_style_is(t: JsonTree) -> bool {
    forall|v: FlashStyle| !gives_name(t, #[trigger] v.name())
}

/// The choices stand in their order, each once, and a draw is fair to five styles and to
/// six.
pub proof fn law_which_choices_there_are()
    ensures
        Intensity::ALL@ == seq![Intensity::Subtle, Intensity::Normal, Intensity::Strong],
        FlashColor::ALL@ == seq![FlashColor::Tag, FlashColor::Blue, FlashColor::Orange],
        Theme::ALL@ == seq![Theme::System, Theme::Light, Theme::Dark],
        FlashStyle::ALL@ == seq![
            FlashStyle::Wash,
            FlashStyle::Wash2,
            FlashStyle::Edges,
            FlashStyle::EdgesSoft,
            FlashStyle::Topbar,
            FlashStyle::TopbarBeam,
        ],
        Bucket::ALL@ == seq![Bucket::Now, Bucket::Next, Bucket::Later, Bucket::Side],
        STYLE_DRAWS > 0 && STYLE_DRAWS % 5 == 0 && STYLE_DRAWS % 6 == 0,
{
}

/// Whether a text comes before another where they first differ.
pub open spec fn comes_first(a: Seq<char>, b: Seq<char>) -> bool {
    exists|p: int|
        {
            &&& 0 <= p <= a.len() && p < b.len()
            &&& #[trigger] a.take(p) == b.take(p)
            &&& p == a.len() || (a[p] as u32) < (b[p] as u32)
        }
}

proof fn lemma_comes_first(a: Seq<char>, b: Seq<char>)
    ensures
        precedes(a, b) == comes_first(a, b),
    decreases a.len(),
{
    if b.len() > 0 && a.len() > 0 && a[0] == b[0] {
        let (x, y) = (a.drop_first(), b.drop_first());
        lemma_comes_first(x, y);
        if comes_first(x, y) {
            let p = choose|p: int|
                {
                    &&& 0 <= p <= x.len() && p < y.len()
                    &&& #[trigger] x.take(p) == y.take(p)
                    &&& p == x.len() || (x[p] as u32) < (y[p] as u32)
                };
            assert(a.take(p + 1) =~= seq![a[0]] + x.take(p));
            assert(b.take(p + 1) =~= seq![b[0]] + y.take(p));
            assert(a.take(p + 1) == b.take(p + 1));
        }
        if comes_first(a, b) {
            let p = choose|p: int|
                {
                    &&& 0 <= p <= a.len() && p < b.len()
                    &&& #[trigger] a.take(p) == b.take(p)
                    &&& p == a.len() || (a[p] as u32) < (b[p] as u32)
                };
            if p > 0 {
                assert(x.take(p - 1) =~= a.take(p).drop_first());
                assert(y.take(p - 1) =~= b.take(p).drop_first());
                assert(x.take(p - 1) == y.take(p - 1));
            }
        }
    } else if b.len() > 0 {
        assert(a.take(0) =~= b.take(0));
        if comes_first(a, b) && a.len() > 0 {
            let p = choose|p: int|
                {
                    &&& 0 <= p <= a.len() && p < b.len()
                    &&& #[trigger] a.take(p) == b.take(p)
                    &&& p == a.len() || (a[p] as u32) < (b[p] as u32)
                };
            if p > 0 {
                assert(a.take(p)[0] == b.take(p)[0]);
            }
        }
    }
}

/// Whether words tell why a patch was refused: that it is no JSON, or no object; which key
/// of it is that of no setting, the first of them in order; or which setting cannot have
/// the value.
pub open spec fn is_refusal(patch: Result<JsonTree, Seq<char>>, words: Seq<char>) -> bool {
    match patch {
        Err(e) => words == "settings patch is not JSON: "@ + e,
        Ok(JsonTree::Object(f)) => {
            ||| exists|i: int|
                {
                    &&& 0 <= i < f.len()
                    &&& words == "unknown setting: "@ + (#[trigger] f[i]).0
                    &&& !setting_names().contains(f[i].0)
                    &&& forall|j: int|
                        0 <= j < f.len() && !setting_names().contains((#[trigger] f[j]).0)
                            ==> !comes_first(f[j].0, f[i].0)
                }
            ||| exists|key: Seq<char>, why: Seq<char>|
                {
                    &&& words == #[trigger] ("bad setting value: "@ + key + ": "@ + why)
                    &&& json::field(f, key) is Some
                    &&& cannot_be(key, json::field(f, key)->0)
                    &&& forall|i: int|
                        0 <= i < f.len() ==> setting_names().contains((#[trigger] f[i]).0)
                }
        },
        Ok(_) => words == "settings patch is not a JSON object"@,
    }
}

pub(crate) proof fn lemma_is_refusal(s: Settings, patch: Result<JsonTree, Seq<char>>)
    ensures
        s.patched(patch) matches Err(words) ==> is_refusal(patch, words),
{
    match patch {
        Ok(JsonTree::Object(f)) => {
            lemma_says_all(f, s);
            assert forall|i: int| 0 <= i < f.len() implies is_setting((#[trigger] f[i]).0)
                == setting_names().contains(f[i].0) by {
                lemma_setting_names(f[i].0);
            }
            if unknown_key(f) is Some {
                let i = lemma_unknown_stands(f);
                assert forall|j: int|
                    0 <= j < f.len() && !setting_names().contains(
                        (#[trigger] f[j]).0,
                    ) implies !comes_first(f[j].0, f[i].0) by {
                    law_unknown_keys_are_refused(f, j);
                    lemma_comes_first(f[j].0, f[i].0);
                }
            } else {
                assert forall|i: int| 0 <= i < f.len() implies setting_names().contains(
                    (#[trigger] f[i]).0,
                ) by {
                    law_unknown_keys_are_refused(f, i);
                }
                match Settings::read(f, s) {
                    Ok(_) => {},
                    Err(e) => {
                        let words = "bad setting value: "@ + e.key + ": "@ + e.words;
                        assert(json::field(f, e.key) is Some);
                    },
                }
            }
        },
        _ => {},
    }
}

/// A patch that is refused is told why.
pub proof fn law_a_refused_patch_is_told_why(s: Settings, read: Result<Json, String>, patch: &str)
    ensures
        forall|m: &mut Settings, r: Result<(), String>|
            *m == s && #[trigger] call_ensures(Settings::apply_parsed, (m, read), r) && r is Err
                ==> is_refusal(
                match read {
                    Ok(j) => Ok(j@),
                    Err(e) => Err(e@),
                },
                (r->Err_0)@,
            ),
        forall|m: &mut Settings, r: Result<(), String>|
            *m == s && #[trigger] call_ensures(Settings::apply_patch, (m, patch), r) && r is Err
                ==> is_refusal(json::parsed(patch@), (r->Err_0)@),
{
    lemma_is_refusal(
        s,
        match read {
            Ok(j) => Ok(j@),
            Err(e) => Err(e@),
        },
    );
    lemma_is_refusal(s, json::parsed(patch@));
}

/// Whether an object gives a setting a value that it cannot have.
pub open spec fn is_bad(f: Seq<(Seq<char>, JsonTree)>, key: Seq<char>) -> bool {
    json::field(f, key) is Some && cannot_be(key, json::field(f, key)->0)
}

#[verifier::rlimit(80)]
proof fn lemma_is_bad(f: Seq<(Seq<char>, JsonTree)>, base: Settings)
    ensures
        colour_in(f, "color"@, base.color) is Err <==> is_bad(f, "color"@),
        bucket_in(f, "default_bucket"@, base.default_bucket) is Err <==> is_bad(
            f,
            "default_bucket"@,
        ),
        intensity_in(f, "intensity"@, base.intensity) is Err <==> is_bad(f, "intensity"@),
        number_in(f, "interval_min"@, base.interval_min) is Err <==> is_bad(f, "interval_min"@),
        time_in(f, "quiet_from"@, base.quiet_from) is Err <==> is_bad(f, "quiet_from"@),
        switch_in(f, "quiet_hours"@, base.quiet_hours) is Err <==> is_bad(f, "quiet_hours"@),
        switch_in(f, "quiet_paused"@, base.quiet_paused) is Err <==> is_bad(f, "quiet_paused"@),
        time_in(f, "quiet_to"@, base.quiet_to) is Err <==> is_bad(f, "quiet_to"@),
        switch_in(f, "show_timer"@, base.show_timer) is Err <==> is_bad(f, "show_timer"@),
        theme_in(f, "theme"@, base.theme) is Err <==> is_bad(f, "theme"@),
        switch_in(f, "vary"@, base.vary) is Err <==> is_bad(f, "vary"@),
{
    lemma_setting_keys();
    let m = base.members();
    assert(json::keys_differ(m));
    assert(m[0].0 != m[1].0 && m[2].0 != m[3].0 && m[4].0 != m[5].0 && m[6].0 != m[7].0 && m[8].0
        != m[9].0 && m[9].0 != m[10].0);
    for_each_field(f, "intensity"@);
    for_each_field(f, "color"@);
    for_each_field(f, "theme"@);
    for_each_field(f, "default_bucket"@);
    match json::field(f, "quiet_from"@) {
        Some(t) => lemma_time_read(t),
        None => {},
    }
    match json::field(f, "quiet_to"@) {
        Some(t) => lemma_time_read(t),
        None => {},
    }
}

/// Of several settings that cannot have their values, the first by name is told of.
pub proof fn law_the_first_bad_setting_is_told_of(f: Vec<(String, Json)>, base: Settings)
    ensures
        forall|r: Result<Settings, BadField>| #[trigger]
            call_ensures(Settings::from_members, (&f, &base), r) && r is Err ==> {
                let m = json::members(f@);
                (r->Err_0).key@ == (if is_bad(m, "color"@) {
                    "color"@
                } else if is_bad(m, "default_bucket"@) {
                    "default_bucket"@
                } else if is_bad(m, "intensity"@) {
                    "intensity"@
                } else if is_bad(m, "interval_min"@) {
                    "interval_min"@
                } else if is_bad(m, "quiet_from"@) {
                    "quiet_from"@
                } else if is_bad(m, "quiet_hours"@) {
                    "quiet_hours"@
                } else if is_bad(m, "quiet_paused"@) {
                    "quiet_paused"@
                } else if is_bad(m, "quiet_to"@) {
                    "quiet_to"@
                } else if is_bad(m, "show_timer"@) {
                    "show_timer"@
                } else if is_bad(m, "theme"@) {
                    "theme"@
                } else {
                    "vary"@
                })
            },
{
    lemma_is_bad(json::members(f@), base);
}

} // verus!
