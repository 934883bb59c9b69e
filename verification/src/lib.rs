//! A server-guided ad insertion proxy for HLS streams.

pub mod ads;
pub mod announce;
pub mod assets;
pub mod commands;
pub mod config;
pub mod hls;
pub mod ids;
pub mod interstitials;
pub mod json_value;
pub mod laws;
pub mod live_edge;
pub mod master;
pub mod media;
pub mod mp4_info;
pub mod numbers;
pub mod origin;
pub mod preload;
pub mod readable;
pub mod requests;
pub mod slots;
pub mod status;
pub mod stores;
pub mod text;
pub mod time;
pub mod timeline;
pub mod vast;
pub mod web;
