pub mod cleanup;
pub mod config;
pub mod decimal;
pub mod download;
pub mod finalize;
pub mod http;
pub mod listing;
pub mod partial_state;
pub mod paths;
pub mod probe;
pub mod progress;
pub mod range_plan;
pub mod retry;
pub mod server;
pub mod state_file;
pub mod text;
pub mod upload;
