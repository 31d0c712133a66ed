//! Kuku: a PowerShell helper that asks a chat-completions service for fixes
//! to failed commands. This library holds its text handling, settings,
//! profile integration, environment checks and settings-screen logic, each
//! with a verified contract.
pub mod text;
pub mod profile;
pub mod init;
pub mod reset;
pub mod api;
pub mod assist;
pub mod ask;
pub mod mcp;
pub mod doctor;
pub mod ai_config;
pub mod cli;
pub mod config_cmd;
