//! Texture manifest management for a live-coding shader tool.
//!
//! A JSON configuration binds shader uniform names to image files, and a
//! directory holds the images. This library reconciles the two, derives
//! uniform and file names, plans imports of dropped images and archives, and
//! packs the active textures into an archive.

pub mod archive;
pub mod catalog;
pub mod config;
pub mod error;
pub mod export;
pub mod import;
pub mod laws;
pub mod name;
pub mod path;
pub mod text;
