//! A small durable note store: a line-oriented record codec, a log file
//! modeled as in-memory content with an append path and an atomic
//! temp-file/rename rewrite path, a singleton settings document, and a lazy
//! read cache for an interactive session.

pub mod codec;
pub mod log;
pub mod note;
pub mod settings;
pub mod shell;
pub mod store;
pub mod text;

pub use note::Note;
pub use settings::UserSettings;
