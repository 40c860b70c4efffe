//! A verified core for a BeamNG vehicle configuration editor: the rules that
//! decide how vehicle configs, parts, engines, mods and backups are found,
//! named, filtered, edited and restored.
use vstd::prelude::*;

pub mod text;
pub mod error;
pub mod json;
pub mod json_util;
pub mod paths;
pub mod slots;
pub mod config;
pub mod settings;
pub mod digest;
pub mod backup;
pub mod vehicle_source;
pub mod seen;
pub mod scan_util;
pub mod scanner;
pub mod mod_scanner;
pub mod engine;
pub mod parts;
pub mod index_laws;
pub mod state;
pub mod theme;
pub mod thumbnail;
