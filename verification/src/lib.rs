//! The decisions of a desktop deleter: which selected items go to the recycle
//! bin, which installed programs are offered for removal, and what the overlay
//! shows meanwhile. Every function here computes; the program around it talks
//! to the shell, the registry, the screen and the disk.

pub mod audio;
pub mod base64;
pub mod bridge;
pub mod canvas;
pub mod config;
pub mod json;
pub mod layout;
pub mod locations;
pub mod overlay;
pub mod paths;
pub mod patterns;
pub mod picking;
pub mod programs;
pub mod registry;
pub mod scene;
pub mod selection;
pub mod shell;
pub mod shortcut;
pub mod sprite;
pub mod text;
pub mod wide;
pub mod window;
