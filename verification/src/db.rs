//! Record types stored in the backing key-value store, and the position-key
//! codec that keeps prompt components ordered.

pub mod counter;
pub mod level;
pub mod prompt;

pub use counter::Counter;
pub use level::{Level, LevelDifficulty, LevelID};
pub use prompt::{ComponentID, PromptComponent, TemplateID};
