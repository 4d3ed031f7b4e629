//! Background review of the file changes that a conversation turn has made.
pub mod agent;
pub mod areas;
pub mod changes;
pub mod excerpt;
pub mod normalize;
pub mod notification;
pub mod prompt;
