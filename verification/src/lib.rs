//! Queue Focus: a task queue with four ordered buckets.
//!
//! The first task of one bucket, Now, is the task being worked on. It carries a
//! timer; completing it deletes it and pulls the head of Next where Now is empty.
//!
//! This crate decides everything that does not draw, read or write: the queue and
//! its changes, the two files, the settings, the reminder, the bus and the command
//! line, and what the windows show.

pub mod bus;
pub mod change;
pub mod clock;
pub mod command;
pub mod disk;
pub mod flash;
pub mod json;
pub mod keys;
pub mod laws;
pub mod list;
pub mod model;
pub mod order;
pub mod promises;
pub mod queue;
pub mod quick;
pub mod rows;
pub mod settings;
pub mod settings_store;
pub mod snapshot;
pub mod state;
pub mod store;
pub mod text;
pub mod ui;

pub use clock::unix_now;
pub use disk::data_dir;
pub use disk::data_path;
pub use disk::settings_path;
pub use model::Bucket;
pub use model::Completed;
pub use model::Tag;
pub use model::Task;
pub use model::MAX_QUICK_ADD_BYTES;
pub use model::MAX_TITLE_CHARS;
pub use queue::Store;
pub use quick::QuickAdd;
pub use settings::pick_style;
pub use settings::within_window;
pub use settings::FlashColor;
pub use settings::FlashStyle;
pub use settings::Hold;
pub use settings::Intensity;
pub use settings::Palette;
pub use settings::Settings;
pub use settings::Theme;
pub use settings::TimeOfDay;
pub use settings::INTERVAL_MAX;
pub use settings::INTERVAL_MIN;
pub use store::load;
pub use store::load_settings;
pub use store::save;
pub use store::save_settings;
pub use store::SaveError;
