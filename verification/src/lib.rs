//! The background task subsystem of a package-manager front end: the task
//! queue and its state machine, the scheduler's decisions, the terminal
//! execution engine as a state machine, the parsers of package-manager
//! output, and the stores for settings and user data.

pub mod data_store;
pub mod logger;
pub mod paru;
pub mod platform;
pub mod progress;
pub mod queue_laws;
pub mod settings;
pub mod task_queue;
pub mod terminal;
pub mod text;
pub mod ui;
pub mod worker;
