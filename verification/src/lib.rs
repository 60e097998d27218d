//! Decision logic of a desktop-icon layer for Hyprland: settings, icon
//! positions, text and URI handling, `.desktop` entries, grid layout and
//! ordering. The GTK front end in `app/` drives these functions.

pub mod text;
pub mod paths;
pub mod config;
pub mod positions;
pub mod uri;
pub mod desktop_entry;
pub mod layout;
pub mod sorting;
pub mod icons;
pub mod desktop;
pub mod system;
