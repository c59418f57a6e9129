pub mod text;
pub mod strmap;
pub mod logging;
pub mod setting;
pub mod config;
pub mod dock;
pub mod terminal;
pub mod version;
pub mod session;
pub mod source;
pub mod platform;
pub mod git;
pub mod rhyme;
pub mod keymap;
pub mod css;
pub mod sort;
pub mod dock_area;
pub mod tabs;
pub mod timestamp;
pub mod stanza;
pub mod latest;
