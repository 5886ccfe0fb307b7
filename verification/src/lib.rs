pub mod closer;
pub mod error;
pub mod models;
pub mod monitor;
pub mod process_tracker;
pub mod processes;
pub mod profile_file;
pub mod simconnect;
pub mod text;
pub mod tray;
pub mod trigger_conflicts;
pub mod session_history;
pub mod validation;
pub mod state;
pub mod paths;
pub mod launcher;
pub mod launch_args;
pub mod window;
pub mod exe_inspection;
pub mod storage;
pub mod app_discovery;
