pub mod text;
pub mod config;
pub mod protocol;
pub mod crypto;
pub mod video_cache;
pub mod device;
pub mod handlers;
pub mod udp_listener;
pub mod static_files;
