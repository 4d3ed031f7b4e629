//! Two services of a coding assistant: the background review of what a conversation turn has done
//! to files, and the use of a local FreeLLMAPI server as the default provider.
pub mod auto_review;
pub mod freellmapi;
pub mod order;
pub mod path;
pub mod text;
