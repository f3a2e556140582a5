use queue_focus::load_settings;
use queue_focus::save_settings;
use queue_focus::settings_store::SettingsStore;
use queue_focus::settings_store::RETRY_TICKS;
use queue_focus::store::Failure;
use queue_focus::store::FailureKind;
use queue_focus::Intensity;
use queue_focus::SaveError;
use queue_focus::Settings;
use queue_focus::Theme;
use std::cell::Cell;
use std::cell::RefCell;

/// A file in memory that may be in the way of every write.
struct File {
    contents: RefCell<Option<Vec<u8>>>,
    blocked: Cell<bool>,
    attempts: Cell<u32>,
}

impl File {
    fn new(blocked: bool) -> File {
        File {
            contents: RefCell::new(None),
            blocked: Cell::new(blocked),
            attempts: Cell::new(0),
        }
    }

    fn save(&self, _path: &str, settings: &Settings) -> Result<(), SaveError> {
        self.attempts.set(self.attempts.get() + 1);
        if self.blocked.get() {
            return Err(SaveError::BeforeCommit(Failure {
                kind: FailureKind::Other(std::io::ErrorKind::Other),
                message: "in the way".to_string(),
            }));
        }
        *self.contents.borrow_mut() = Some(save_settings(settings));
        Ok(())
    }

    fn load(&self) -> Settings {
        load_settings("settings.json", self.contents.borrow().as_deref()).unwrap()
    }
}

/// Every attempt makes a temporary file and syncs it before it can fail, so a file
/// that cannot be written must not be retried once a second for the life of the
/// session.
#[test]
fn a_failed_write_is_not_retried_on_every_tick() {
    let file = File::new(true);
    let (mut settings, _) = SettingsStore::load("settings.json", Ok(None));

    settings.update(|s| s.vary = false);
    assert!(settings.tick(|p, s| file.save(p, s)).is_some());
    assert_eq!(file.attempts.get(), 1, "the first tick tries");
    for _ in 0..RETRY_TICKS {
        assert!(settings.tick(|p, s| file.save(p, s)).is_none());
    }
    assert_eq!(file.attempts.get(), 1);
    assert!(settings.is_dirty(), "still unsaved");
    assert_eq!(settings.backoff(), 0, "and ready to try once more");
    assert!(settings.tick(|p, s| file.save(p, s)).is_none());
    assert_eq!(file.attempts.get(), 2);

    // Shutdown does not sit out a turn, whatever the backoff says.
    assert_eq!(settings.backoff(), RETRY_TICKS);
    file.blocked.set(false);
    assert!(settings.flush(|p, s| file.save(p, s)).is_none());
    assert!(!file.load().vary);
    assert_eq!(settings.backoff(), 0, "cleared by the write that worked");
}

#[test]
fn a_change_is_visible_at_once_and_reaches_the_file_on_flush() {
    let file = File::new(false);
    let (mut settings, warning) = SettingsStore::load("settings.json", Ok(None));
    assert!(warning.is_none());

    assert!(settings.update(|s| s.intensity = Intensity::Strong));
    assert_eq!(settings.get().intensity, Intensity::Strong);
    assert!(
        file.contents.borrow().is_none(),
        "the file waits for the changes after it"
    );

    settings.flush(|p, s| file.save(p, s));
    assert_eq!(file.load().intensity, Intensity::Strong);
    // A flush with nothing outstanding writes nothing and does not fail.
    assert!(settings.flush(|p, s| file.save(p, s)).is_none());
    assert_eq!(file.attempts.get(), 1);
}

#[test]
fn a_change_that_changes_nothing_notifies_nobody() {
    let (mut settings, _) = SettingsStore::load("settings.json", Ok(None));

    assert!(settings.update(|s| s.theme = Theme::Dark));
    assert!(!settings.update(|s| s.theme = Theme::Dark));
    assert!(!settings.apply_patch(r#"{"theme":"dark"}"#).unwrap());
    assert!(settings.apply_patch(r#"{"theme":"light"}"#).unwrap());
}

#[test]
fn a_refused_patch_leaves_every_setting_alone() {
    let (mut settings, _) = SettingsStore::load("settings.json", Ok(None));
    let before = *settings.get();

    assert!(settings.apply_patch(r#"{"intensity":"loud"}"#).is_err());
    assert_eq!(*settings.get(), before);
    assert!(!settings.is_dirty());
}

#[test]
fn an_unreadable_file_warns_and_falls_back_without_replacing_it() {
    let file = File::new(false);
    let (mut settings, warning) =
        SettingsStore::load("settings.json", Ok(Some(b"{ not settings".to_vec())));
    let warning = warning.unwrap();
    assert!(warning.contains("default settings"));
    assert_eq!(
        warning,
        "could not read settings.json: key must be a string at line 1 column 3; \
         using the default settings until you change one"
    );
    assert_eq!(*settings.get(), Settings::default());
    assert!(settings.flush(|p, s| file.save(p, s)).is_none());
    assert_eq!(file.attempts.get(), 0);

    // Changing one setting is the point at which the file is rewritten.
    settings.update(|s| s.vary = false);
    settings.flush(|p, s| file.save(p, s));
    assert!(!file.load().vary);
}

#[test]
fn a_file_that_cannot_be_opened_is_like_a_broken_one() {
    let failure = Failure {
        kind: FailureKind::InvalidData,
        message: "a symbolic link".to_string(),
    };
    let (settings, warning) = SettingsStore::load("settings.json", Err(failure));
    assert_eq!(*settings.get(), Settings::default());
    assert_eq!(
        warning.unwrap(),
        "could not read settings.json: a symbolic link; \
         using the default settings until you change one"
    );
}

#[test]
fn a_write_that_fails_is_reported_and_tried_again() {
    let file = File::new(true);
    let (mut settings, _) = SettingsStore::load("settings.json", Ok(None));
    let mut problems: Vec<String> = Vec::new();

    settings.update(|s| s.vary = false);
    problems.extend(settings.flush(|p, s| file.save(p, s)));
    assert_eq!(problems.len(), 1);
    assert!(problems[0].contains("could not save"));
    assert_eq!(problems[0], "could not save settings.json: in the way");

    // The trouble is reported once rather than once per attempt.
    for _ in 0..5 {
        problems.extend(settings.flush(|p, s| file.save(p, s)));
    }
    assert_eq!(problems.len(), 1, "one outage, one complaint");

    // Clear the obstruction: the next failure is worth hearing about again.
    file.blocked.set(false);
    problems.extend(settings.flush(|p, s| file.save(p, s)));
    assert!(!file.load().vary, "written at last");
    file.blocked.set(true);
    settings.update(|s| s.vary = true);
    problems.extend(settings.flush(|p, s| file.save(p, s)));
    assert_eq!(problems.len(), 2);
}

#[test]
fn a_change_is_pulled_into_range() {
    let (mut settings, _) = SettingsStore::load("settings.json", Ok(None));
    assert!(settings.update(|s| s.interval_min = 1000));
    assert_eq!(settings.get().interval_min, 90);
    assert!(!settings.update(|s| s.interval_min = 2000));
}
