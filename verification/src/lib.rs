pub mod ai_usage;
pub mod battery;
pub mod config;
pub mod disk_io;
pub mod media;
pub mod notifications;
pub mod overlay;
pub mod text;
