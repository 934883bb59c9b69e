//! Laws of the proxy: what its answers must satisfy, stated over what goes in
//! and what comes out.

pub mod asset_lists;
pub mod breaks;
pub mod playlists;
pub mod reading;
pub mod requests;
pub mod settings;
pub mod texts;
