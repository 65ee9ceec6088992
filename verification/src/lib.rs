//! The logic of `codex-tools`: repairing providers in the configuration of
//! Codex, syncing the history of sessions, and backing sessions up.

pub mod auth;
pub mod backup;
pub mod bytes;
pub mod chunks;
pub mod cli;
pub mod cloud;
pub mod config;
pub mod counts;
pub mod digest;
pub mod envelope;
pub mod http;
pub mod inspect;
pub mod json;
pub mod law_auth;
pub mod law_cli;
pub mod law_cloud;
pub mod law_config;
pub mod law_details;
pub mod law_envelope;
pub mod law_index;
pub mod law_output;
pub mod law_parts;
pub mod law_paths;
pub mod law_process;
pub mod law_quota;
pub mod law_reading;
pub mod law_relay;
pub mod law_report;
pub mod law_settings;
pub mod law_sync;
pub mod law_tally;
pub mod law_transfer;
pub mod law_values;
pub mod law_workspace;
pub mod listing;
pub mod number;
pub mod order;
pub mod paths;
pub mod process;
pub mod provider;
pub mod quota;
pub mod relay;
pub mod report;
pub mod rollout;
pub mod sessions;
pub mod sqlite;
pub mod text;
pub mod transfer;
pub mod workspace;
pub mod writes;
