//! What plugins hand over, and the servers that files come from.

pub mod chunk_hasher;
pub mod failing;
pub mod failing_laws;
pub mod failures;
pub mod jobs;
pub mod manager;
pub mod metadata;
pub mod ranging;
pub mod reply_laws;
pub mod request;
pub mod retry_after;
pub mod scheduler;
pub mod scheduler_laws;
pub mod tasks;
