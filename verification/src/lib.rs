//! The decisions behind a bar's system tray: which icons are cached and drawn,
//! what a click does, how menus are walked, and which items are kept.

pub mod draw;
pub mod icon;
pub mod id_map;
pub mod item;
pub mod menu;
pub mod order;
pub mod shared_state;
mod sni;
pub mod text;
pub mod tray;
pub mod tray_host;
pub mod tray_menu;
