//! The desktop app's decisions, apart from the window itself: view modes and
//! their settings names, input parsing, label lists, LingQ lesson matching,
//! failure summaries and the bookkeeping of background jobs.

pub mod modes;
pub mod inputs;
pub mod labels;
pub mod lesson_match;
pub mod jobs;
pub mod bulk;
pub mod library;
pub mod activity;
pub mod messages;
pub mod workers;
pub mod events;

