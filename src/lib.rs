//! Theme palettes normalised into colour maps, rendered through
//! interpolation templates, and cached per template-bundle fingerprint.

pub mod text;

pub mod colors;
pub mod errors;
pub mod scheme;
pub mod tree;
pub mod loader;
pub mod template;
pub mod paths;
pub mod config;
pub mod cache;
pub mod theme;
pub mod reload;
pub mod state;
pub mod symlink;
pub mod switch;
