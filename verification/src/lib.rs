//! Verified core of the funzzy file watcher: task rules, run plans,
//! command templates and the watcher's decision state machines.

pub mod duration_store;
pub mod environment;
pub mod errors;
pub mod event_stream;
pub mod executor;
pub mod identity;
pub mod logging;
pub mod option_catalog;
pub mod output;
pub mod plan;
pub mod process_owner;
pub mod reload;
pub mod reload_session;
pub mod rules;
pub mod service_lifecycle;
pub mod shortcut;
pub mod shutdown;
pub mod stdout;
pub mod task_machine;
pub mod task_result;
pub mod template;
pub mod text;
pub mod watch_loop;
pub mod watcher;
pub mod watcher_state;
