pub mod app_watch;
pub mod control;
pub mod crash_watch;
pub mod detection;
pub mod reporter;
pub mod runner;
pub mod session;
pub mod state_machine;
