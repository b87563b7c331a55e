pub mod decimal;
pub mod error;
pub mod github;
pub mod notice;
pub mod plugin;
pub mod storage;
pub mod task;
