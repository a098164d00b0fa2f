//! Monitoring of model availability behind a New API gateway.
//!
//! The modules of this crate hold the decisions of a chat-bot plugin that
//! watches a list of models: how request logs become samples, how samples merge
//! into request outcomes, how outcomes become metrics and reports, when a report
//! is pushed, and how the collector moves through a backlog.
//!
//! Beside them stand modules that only state and prove what holds of these decisions:
//! `sampling` of samples, `merging` of outcomes and the store, `judging` and `reordering`
//! of figures and statuses, `pushing` of pushes, `wording` of reports, `gathering` of the
//! collector, `accepting` of configurations, `asking` of commands, `answering` of the
//! gateway and of what is kept in memory, and `spelling` of texts.
pub mod accepting;
pub mod answering;
pub mod api;
pub mod asking;
pub mod collector;
pub mod command;
pub mod config;
pub mod decimal;
pub mod domain;
pub mod double;
pub mod gathering;
pub mod json;
pub mod judging;
pub mod merging;
pub mod metrics;
pub mod num;
pub mod order;
pub mod push;
pub mod pushing;
pub mod query;
pub mod redaction;
pub mod reordering;
pub mod report;
pub mod repository;
pub mod sampling;
pub mod smoke;
pub mod spelling;
pub mod state;
pub mod text;
pub mod wording;
