//! Verified core of a phone/desktop file-transfer tool.

pub mod adb_command;
pub mod adb_device;
pub mod adb_probe;
pub mod adb_pull_run;
pub mod adb_push;
pub mod adb_run;
pub mod agent;
pub mod agent_ask;
pub mod agent_log;
pub mod bundle;
pub mod cards;
pub mod checkpoint;
pub mod checkpoint_laws;
pub mod checkpoint_store;
pub mod checkpoint_text;
pub mod codec;
pub mod dashboard;
pub mod decimal;
pub mod digest;
pub mod dual_wifi_run;
pub mod engine;
pub mod engine_laws;
pub mod engine_life;
pub mod engine_task;
pub mod fields;
pub mod inventory;
pub mod json;
pub mod labels;
pub mod logging;
pub mod manifest;
pub mod models;
pub mod notes;
pub mod order;
pub mod paths;
pub mod protocol;
pub mod pull_run;
pub mod records;
pub mod remote_verify;
pub mod same_file;
pub mod same_file_lane;
pub mod same_file_run;
pub mod scheduler;
pub mod scheduler_laws;
pub mod sizing;
pub mod smoke;
pub mod task_calls;
pub mod text;
pub mod wifi_chunk;
pub mod wifi_run;
