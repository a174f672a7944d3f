//! Downloads the wallpaper images listed in a panels manifest.
//!
//! The verified part of the crate decides which catalog entries are
//! wallpapers, which image URL each one is fetched from, how the work is
//! spread over a fixed number of lanes and what file each download is
//! stored in.
pub mod config;
pub mod distribute;
pub mod lane;
pub mod manifest;
pub mod naming;

pub use config::App;
pub use distribute::distribute;
pub use lane::{Lane, LaneAction, LaneEvent};
pub use manifest::{Manifest, ManifestData};
