//! Verified core logic of the Widgitron desktop widgets.

pub mod common;
pub mod text;
pub mod release;
pub mod deadline_time;
pub mod protobuf;
pub mod antigravity;
pub mod sort;
pub mod deadlines;
pub mod arxiv;
pub mod hotkey;
pub mod vscode_secrets;
pub mod ota;
pub mod monitor;
pub mod cloud_quota;
pub mod widget_layout;
pub mod theme_config;
pub mod laws;
pub mod config_paths;
