//! A self-hosted job queue for media acquisition: the queue store, the
//! dispatcher, the worker decisions, the decoder for the extraction tool's
//! output, and the recurring-job runner.

pub mod channel_tasks;
pub mod channels;
pub mod dates;
pub mod dispatch;
pub mod domain;
pub mod folders;
pub mod download;
pub mod jobs;
pub mod names;
pub mod pages;
pub mod protocol;
pub mod queue;
pub mod relocate;
pub mod settings;
pub mod text;
pub mod videos;
pub mod worker;
