//! The settings the user changes, held once for the whole process and written to
//! their file.
//!
//! The value in memory is authoritative the moment it changes. The file catches up
//! on the writer's next tick, because dragging the interval slider moves the value
//! on every pixel and each save is a write, a sync and a rename.

use crate::json;
use crate::settings::Settings;
use crate::store;
use crate::store::Failure;
use crate::store::FailureView;
use crate::store::SaveError;
use crate::text;
use vstd::prelude::*;

verus! {

/// Seconds to wait before trying a failed write again.
pub const RETRY_TICKS: u32 = 30;

/// The settings, the file they are saved to, and how far the file is behind.
pub struct SettingsStore {
    settings: Settings,
    path: String,
    /// Set while the file is behind the value in memory.
    dirty: bool,
    /// Set once a failure has been reported, so one outage is one complaint.
    reported: bool,
    /// Ticks to sit out before trying a failed write again.
    backoff: u32,
}

/// What a `SettingsStore` holds.
#[verifier::ext_equal]
pub struct SettingsStoreView {
    pub settings: Settings,
    pub path: Seq<char>,
    pub dirty: bool,
    pub reported: bool,
    pub backoff: u32,
}

impl View for SettingsStore {
    type V = SettingsStoreView;

    closed spec fn view(&self) -> SettingsStoreView {
        SettingsStoreView {
            settings: self.settings,
            path: self.path@,
            dirty: self.dirty,
            reported: self.reported,
            backoff: self.backoff,
        }
    }
}

/// What is said of a settings file that cannot be read.
pub open spec fn unreadable(path: Seq<char>, why: Seq<char>) -> Seq<char> {
    "could not read "@ + path + ": "@ + why
        + "; using the default settings until you change one"@
}

/// The settings to start with, and what is said of their file.
pub open spec fn start_with(
    path: Seq<char>,
    contents: Result<Option<Result<json::JsonTree, Seq<char>>>, FailureView>,
) -> (Settings, Option<Seq<char>>) {
    match contents {
        Err(f) => (Settings::usual(), Some(unreadable(path, f.message))),
        Ok(read) => match store::loaded_settings(path, read) {
            Ok(s) => (s, None),
            Err(e) => (Settings::usual(), Some(unreadable(path, e))),
        },
    }
}

/// What was read of the file, as the contracts speak of it.
pub open spec fn contents_read(contents: Result<Option<Vec<u8>>, Failure>) -> Result<
    Option<Result<json::JsonTree, Seq<char>>>,
    FailureView,
> {
    match contents {
        Err(f) => Err(f@),
        Ok(Some(bytes)) => Ok(Some(json::parsed_bytes(bytes@))),
        Ok(None) => Ok(None),
    }
}

impl SettingsStoreView {
    /// The store with other settings, which the file does not hold yet.
    pub open spec fn with(self, next: Settings) -> SettingsStoreView {
        if next == self.settings {
            self
        } else {
            SettingsStoreView { settings: next, dirty: true, ..self }
        }
    }

    /// The store once it is known how a write went.
    pub open spec fn written(self, saved: Result<(), SaveError>) -> SettingsStoreView {
        match saved {
            Ok(_) => SettingsStoreView { dirty: false, reported: false, backoff: 0, ..self },
            Err(_) => SettingsStoreView {
                dirty: true,
                reported: true,
                backoff: RETRY_TICKS,
                ..self
            },
        }
    }

    /// What is reported of a write: the first failure of an outage.
    pub open spec fn complaint(self, saved: Result<(), SaveError>) -> Option<Seq<char>> {
        match saved {
            Ok(_) => None,
            Err(e) => if self.reported {
                None
            } else {
                Some("could not save "@ + self.path + ": "@ + e.failure().message)
            },
        }
    }

    /// Whether the writer's next tick writes.
    pub open spec fn writes_on_tick(self) -> bool {
        self.backoff == 0 && self.dirty
    }

    /// The store after a tick that writes nothing.
    pub open spec fn waited(self) -> SettingsStoreView {
        if self.backoff > 0 {
            SettingsStoreView { backoff: (self.backoff - 1) as u32, ..self }
        } else {
            self
        }
    }

    /// The store after some ticks that write nothing.
    pub open spec fn waited_for(self, ticks: nat) -> SettingsStoreView
        decreases ticks,
    {
        if ticks == 0 {
            self
        } else {
            self.waited_for((ticks - 1) as nat).waited()
        }
    }
}

/// The words of an optional message.
pub open spec fn said(message: Option<String>) -> Option<Seq<char>> {
    match message {
        Some(m) => Some(m@),
        None => None,
    }
}

fn unreadable_text(path: &str, why: &str) -> (s: String)
    ensures
        s@ == unreadable(path@, why@),
{
    let mut out: Vec<char> = text::chars_of("could not read ");
    text::push_text(&mut out, path);
    text::push_text(&mut out, ": ");
    text::push_text(&mut out, why);
    text::push_text(&mut out, "; using the default settings until you change one");
    text::text_of(&out)
}

impl SettingsStore {
    /// Take the settings from what reading their file gave, falling back to the
    /// defaults. A file that cannot be read comes back as a warning rather than an
    /// error: losing the queue is worth refusing to start over, losing a switch is
    /// not. The broken file is left alone until something changes.
    pub fn load(path: &str, contents: Result<Option<Vec<u8>>, Failure>) -> (r: (
        SettingsStore,
        Option<String>,
    ))
        ensures
            r.0@ == (SettingsStoreView {
                settings: start_with(path@, contents_read(contents)).0,
                path: path@,
                dirty: false,
                reported: false,
                backoff: 0,
            }),
            said(r.1) == start_with(path@, contents_read(contents)).1,
    {
        let loaded = match contents {
            Err(f) => Err(f),
            Ok(Some(bytes)) => store::load_settings(path, Some(bytes.as_slice())),
            Ok(None) => store::load_settings(path, None),
        };
        let (settings, warning) = match loaded {
            Ok(settings) => (settings, None),
            Err(f) => (
                Settings::default(),
                Some(unreadable_text(path, f.message.as_str())),
            ),
        };
        (
            SettingsStore {
                settings,
                path: path.to_string(),
                dirty: false,
                reported: false,
                backoff: 0,
            },
            warning,
        )
    }

    pub fn get(&self) -> (s: &Settings)
        ensures
            *s == self@.settings,
    {
        &self.settings
    }

    /// Whether the file is behind.
    pub fn is_dirty(&self) -> (dirty: bool)
        ensures
            dirty == self@.dirty,
    {
        self.dirty
    }

    /// Ticks that the writer sits out.
    pub fn backoff(&self) -> (n: u32)
        ensures
            n == self@.backoff,
    {
        self.backoff
    }

    fn set(&mut self, next: Settings) -> (changed: bool)
        ensures
            final(self)@ == old(self)@.with(next),
            changed == (next != old(self)@.settings),
    {
        if next == self.settings {
            return false;
        }
        self.settings = next;
        self.dirty = true;
        true
    }

    /// Change the settings, and say whether they are other settings now: nothing is
    /// written and nobody is told when the change leaves the value it had.
    pub fn update(&mut self, f: impl FnOnce(&mut Settings)) -> (changed: bool)
        requires
            forall|m: &mut Settings| *m == old(self)@.settings ==> #[trigger] call_requires(f, (m,)),
        ensures
            exists|m: &mut Settings|
                {
                    &&& *m == old(self)@.settings
                    &&& #[trigger] call_ensures(f, (m,), ())
                    &&& final(self)@ == old(self)@.with((*final(m)).sane())
                    &&& changed == ((*final(m)).sane() != old(self)@.settings)
                },
    {
        let mut next = self.settings;
        f(&mut next);
        let ghost after = next;
        assert(exists|m: &mut Settings|
            *m == old(self)@.settings && *final(m) == after && #[trigger] call_ensures(f, (m,), ()));
        next.sanitize();
        self.set(next)
    }

    /// Apply a JSON object of changed keys, and say whether the settings are other
    /// settings now. An unknown key or an unusable value leaves every setting as it
    /// was.
    pub fn apply_patch(&mut self, patch: &str) -> (r: Result<bool, String>)
        ensures
            ({
                let want = old(self)@.settings.patched(json::parsed(patch@));
                match r {
                    Ok(changed) => want is Ok && final(self)@ == old(self)@.with(want->Ok_0)
                        && changed == (want->Ok_0 != old(self)@.settings),
                    Err(e) => want == Err::<Settings, Seq<char>>(e@) && final(self)@ == old(self)@,
                }
            }),
    {
        let mut next = self.settings;
        match next.apply_patch(patch) {
            Err(e) => Err(e),
            Ok(_) => Ok(self.set(next)),
        }
    }

    /// Take in how a write went, and give what is to be reported: only once per
    /// outage, since a dialog a second would be worse than the trouble it reports.
    pub fn settle(&mut self, saved: Result<(), SaveError>) -> (report: Option<String>)
        ensures
            final(self)@ == old(self)@.written(saved),
            said(report) == old(self)@.complaint(saved),
    {
        match saved {
            Ok(_) => {
                self.dirty = false;
                self.reported = false;
                self.backoff = 0;
                None
            },
            Err(e) => {
                // The change is still unsaved.
                self.dirty = true;
                self.backoff = RETRY_TICKS;
                if self.reported {
                    return None;
                }
                self.reported = true;
                let mut out: Vec<char> = text::chars_of("could not save ");
                text::push_text(&mut out, self.path.as_str());
                text::push_text(&mut out, ": ");
                text::push_text(&mut out, e.error().message.as_str());
                Some(text::text_of(&out))
            },
        }
    }

    /// Write if the file is behind, and give what is to be reported. Called on the
    /// writer's tick, and once more before the process exits, which is why it never
    /// sits out a turn. The saving is called only where the file is behind.
    pub fn flush(
        &mut self,
        save: impl FnOnce(&str, &Settings) -> Result<(), SaveError>,
    ) -> (report: Option<String>)
        requires
            old(self)@.dirty ==> forall|p: &str, s: &Settings|
                p@ == old(self)@.path && *s == old(self)@.settings
                    ==> #[trigger] call_requires(save, (p, s)),
        ensures
            !old(self)@.dirty ==> final(self)@ == old(self)@ && report is None,
            old(self)@.dirty ==> exists|p: &str, s: &Settings, saved: Result<(), SaveError>|
                {
                    &&& p@ == old(self)@.path
                    &&& *s == old(self)@.settings
                    &&& #[trigger] call_ensures(save, (p, s), saved)
                    &&& final(self)@ == old(self)@.written(saved)
                    &&& said(report) == old(self)@.complaint(saved)
                },
    {
        if !self.dirty {
            return None;
        }
        let settings = self.settings;
        let saved = save(self.path.as_str(), &settings);
        self.settle(saved)
    }

    /// One second of the writer. A write that failed is not retried on the next
    /// tick: every attempt makes a temporary file and syncs it before it can fail,
    /// and a file that cannot be written now usually cannot be written a second
    /// later either. The saving is not called on a tick that is sat out.
    pub fn tick(
        &mut self,
        save: impl FnOnce(&str, &Settings) -> Result<(), SaveError>,
    ) -> (report: Option<String>)
        requires
            old(self)@.writes_on_tick() ==> forall|p: &str, s: &Settings|
                p@ == old(self)@.path && *s == old(self)@.settings
                    ==> #[trigger] call_requires(save, (p, s)),
        ensures
            !old(self)@.writes_on_tick() ==> final(self)@ == old(self)@.waited() && report is None,
            old(self)@.writes_on_tick() ==> exists|
                p: &str,
                s: &Settings,
                saved: Result<(), SaveError>,
            |
                {
                    &&& p@ == old(self)@.path
                    &&& *s == old(self)@.settings
                    &&& #[trigger] call_ensures(save, (p, s), saved)
                    &&& final(self)@ == old(self)@.written(saved)
                    &&& said(report) == old(self)@.complaint(saved)
                },
    {
        if self.backoff > 0 {
            self.backoff = self.backoff - 1;
            return None;
        }
        self.flush(save)
    }
}

/// One outage is one complaint: behind a failed write no failure is reported until
/// a write has worked, and the first one behind that is.
pub proof fn law_one_outage_is_one_complaint(
    s: SettingsStoreView,
    first: Result<(), SaveError>,
    second: Result<(), SaveError>,
)
    ensures
        first is Err ==> s.written(first).complaint(second) is None,
        first is Ok && second is Err ==> s.written(first).complaint(second) is Some,
        first is Err ==> s.written(first).dirty,
{
}

proof fn lemma_waited_for(s: SettingsStoreView, ticks: nat)
    requires
        ticks <= s.backoff,
    ensures
        s.waited_for(ticks) == (SettingsStoreView { backoff: (s.backoff - ticks) as u32, ..s }),
    decreases ticks,
{
    if ticks > 0 {
        lemma_waited_for(s, (ticks - 1) as nat);
    }
}

/// A failed write is tried again behind the whole wait, and not before.
pub proof fn law_a_failed_write_waits(
    s: SettingsStoreView,
    saved: Result<(), SaveError>,
    ticks: nat,
)
    requires
        saved is Err,
        ticks <= RETRY_TICKS,
    ensures
        s.written(saved).waited_for(ticks).writes_on_tick() <==> ticks == RETRY_TICKS,
        s.written(saved).waited_for(ticks).settings == s.settings,
{
    lemma_waited_for(s.written(saved), ticks);
}

/// Settings that are set again are no change: nothing is written for them.
pub proof fn law_the_same_settings_are_no_change(s: SettingsStoreView, next: Settings)
    ensures
        s.with(next).with(next) == s.with(next),
        s.with(s.settings) == s,
        s.with(next).settings == next,
        next != s.settings ==> s.with(next).dirty,
{
}

// ---- what the store of the settings does ---------------------------------------------

/// A write that worked leaves nothing to write and nothing to wait for; one that failed
/// leaves the change to be written again behind 30 ticks, and is reported under the name
/// of the file where none has been since the last that worked.
pub proof fn law_what_a_write_leaves(s: SettingsStoreView, saved: Result<(), SaveError>)
    ensures
        forall|m: &mut SettingsStore, report: Option<String>|
            (*m)@ == s && #[trigger] call_ensures(SettingsStore::settle, (m, saved), report) ==> {
                let after = (*final(m))@;
                &&& after.settings == s.settings
                &&& after.path == s.path
                &&& after.dirty == (saved is Err)
                &&& after.reported == (saved is Err)
                &&& after.backoff == (if saved is Err {
                    30u32
                } else {
                    0
                })
                &&& report is Some <==> saved is Err && !s.reported
                &&& report matches Some(words) ==> words@ == "could not save "@ + s.path + ": "@
                    + (match saved->Err_0 {
                    SaveError::BeforeCommit(f) => f@.message,
                    SaveError::AfterCommit(f) => f@.message,
                })
            },
{
}

/// A second of the writer is sat out while it waits, and then one fewer is left; else it
/// writes what the file is behind of, if it is.
pub proof fn law_a_tick_writes_or_waits<F: FnOnce(&str, &Settings) -> Result<(), SaveError>>(
    s: SettingsStoreView,
    save: F,
)
    ensures
        forall|m: &mut SettingsStore, report: Option<String>|
            (*m)@ == s && #[trigger] call_ensures(SettingsStore::tick, (m, save), report) ==> {
                let after = (*final(m))@;
                &&& s.backoff > 0 ==> report is None && after == (SettingsStoreView {
                    backoff: (s.backoff - 1) as u32,
                    ..s
                })
                &&& s.backoff == 0 && !s.dirty ==> report is None && after == s
                &&& s.backoff == 0 && s.dirty ==> exists|p: &str, t: &Settings, saved: Result<
                    (),
                    SaveError,
                >|
                    {
                        &&& p@ == s.path
                        &&& *t == s.settings
                        &&& #[trigger] call_ensures(save, (p, t), saved)
                        &&& after.dirty == (saved is Err)
                        &&& after.settings == s.settings && after.path == s.path
                        &&& after.reported == (saved is Err)
                        &&& saved is Ok ==> after.backoff == 0 && report is None
                        &&& saved is Err ==> after.backoff == 30 && (report is Some <==> !s.reported)
                        &&& report is Some ==> (report->0)@ == "could not save "@ + s.path + ": "@
                            + (match saved->Err_0 {
                            SaveError::BeforeCommit(f) => f@.message,
                            SaveError::AfterCommit(f) => f@.message,
                        })
                    }
            },
        forall|m: &mut SettingsStore, report: Option<String>|
            (*m)@ == s && #[trigger] call_ensures(SettingsStore::flush, (m, save), report) ==> {
                let after = (*final(m))@;
                &&& !s.dirty ==> report is None && after == s
                &&& s.dirty ==> exists|p: &str, t: &Settings, saved: Result<(), SaveError>|
                    {
                        &&& p@ == s.path
                        &&& *t == s.settings
                        &&& #[trigger] call_ensures(save, (p, t), saved)
                        &&& after.dirty == (saved is Err)
                        &&& after.settings == s.settings && after.path == s.path
                        &&& after.reported == (saved is Err)
                        &&& saved is Ok ==> after.backoff == 0 && report is None
                        &&& saved is Err ==> after.backoff == 30 && (report is Some <==> !s.reported)
                        &&& report is Some ==> (report->0)@ == "could not save "@ + s.path + ": "@
                            + (match saved->Err_0 {
                            SaveError::BeforeCommit(f) => f@.message,
                            SaveError::AfterCommit(f) => f@.message,
                        })
                    }
            },
{
}

/// A patch that is taken in makes the settings what it says, and marks the file as
/// behind where they are others than before; one that is refused changes nothing.
pub proof fn law_a_patch_is_taken_in_or_refused(s: SettingsStoreView, patch: &str)
    ensures
        forall|m: &mut SettingsStore, r: Result<bool, String>|
            (*m)@ == s && #[trigger] call_ensures(SettingsStore::apply_patch, (m, patch), r) ==> {
                let after = (*final(m))@;
                &&& crate::settings::is_patched(
                    s.settings,
                    json::parsed(patch@),
                    after.settings,
                    r is Ok,
                )
                &&& after.dirty == (s.dirty || after.settings != s.settings)
                &&& r matches Ok(changed) ==> changed == (after.settings != s.settings)
                &&& r matches Err(words) ==> crate::settings::is_refusal(
                    json::parsed(patch@),
                    words@,
                )
                &&& after.path == s.path && after.reported == s.reported && after.backoff
                    == s.backoff
            },
{
    crate::settings::lemma_is_patched(s.settings, json::parsed(patch@));
    crate::settings::lemma_is_refusal(s.settings, json::parsed(patch@));
}

/// Settings that cannot be read are the usual ones, and a warning names the file; those
/// of a file that is not there are the usual ones without a warning. Nothing is to be
/// written then.
pub proof fn law_unreadable_settings_are_the_usual_ones(
    path: &str,
    contents: Result<Option<Vec<u8>>, Failure>,
)
    ensures
        forall|r: (SettingsStore, Option<String>)| #[trigger]
            call_ensures(SettingsStore::load, (path, contents), r) ==> {
                let usual = Settings {
                    interval_min: 15,
                    vary: true,
                    intensity: crate::settings::Intensity::Normal,
                    color: crate::settings::FlashColor::Tag,
                    quiet_paused: true,
                    quiet_hours: false,
                    quiet_from: crate::settings::TimeOfDay::after_midnight(540),
                    quiet_to: crate::settings::TimeOfDay::after_midnight(1080),
                    theme: crate::settings::Theme::System,
                    show_timer: true,
                    default_bucket: crate::model::Bucket::Next,
                };
                &&& !r.0@.dirty && !r.0@.reported && r.0@.backoff == 0 && r.0@.path == path@
                &&& contents == Ok::<Option<Vec<u8>>, Failure>(None) ==> r.0@.settings == usual
                    && r.1 is None
                &&& contents matches Err(f) ==> r.0@.settings == usual && r.1 is Some && (r.1->0)@
                    == "could not read "@ + path@ + ": "@ + f@.message
                    + "; using the default settings until you change one"@
                &&& contents matches Ok(Some(bytes)) ==> match store::loaded_settings(
                    path@,
                    Some(json::parsed_bytes(bytes@)),
                ) {
                    Ok(s) => r.0@.settings == s && r.1 is None,
                    Err(e) => r.0@.settings == usual && r.1 is Some && (r.1->0)@
                        == "could not read "@ + path@ + ": "@ + e
                        + "; using the default settings until you change one"@,
                }
            },
{
}

/// A change to the settings is made on those that there are, pulled into range, and marks
/// the file as behind where they are others then.
pub proof fn law_an_update_marks_the_file<F: FnOnce(&mut Settings)>(s: SettingsStoreView, f: F)
    ensures
        forall|m: &mut SettingsStore, changed: bool|
            (*m)@ == s && #[trigger] call_ensures(SettingsStore::update, (m, f), changed)
                ==> exists|n: &mut Settings|
                {
                    &&& #[trigger] call_ensures(f, (n,), ())
                    &&& *n == s.settings
                    &&& crate::settings::is_in_range(*final(n), (*final(m))@.settings)
                    &&& changed == ((*final(m))@.settings != s.settings)
                    &&& (*final(m))@.dirty == (s.dirty || changed)
                    &&& (*final(m))@.path == s.path
                    &&& (*final(m))@.reported == s.reported
                    &&& (*final(m))@.backoff == s.backoff
                },
{
}

/// The store of the settings shows what it holds.
pub proof fn law_the_store_shows_its_settings(store: SettingsStore)
    ensures
        forall|s: &Settings| #[trigger]
            call_ensures(SettingsStore::get, (&store,), s) ==> *s == store@.settings,
        forall|dirty: bool| #[trigger]
            call_ensures(SettingsStore::is_dirty, (&store,), dirty) ==> dirty == store@.dirty,
        forall|n: u32| #[trigger]
            call_ensures(SettingsStore::backoff, (&store,), n) ==> n == store@.backoff,
{
}

} // verus!
