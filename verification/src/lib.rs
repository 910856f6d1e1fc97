//! Retry, wakeup and completion bookkeeping of the Codex core agent loop.

pub mod code_cell_completion;
pub mod completion;
pub mod decimal;
pub mod exec_command_completion;
pub mod exec_wakeup;
pub mod responses_retry;
