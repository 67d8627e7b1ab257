//! A small writing-aid core: Markdown outline extraction, block-level
//! rendering to styled elements, inline-span tokenizing, and the plain
//! data records (world objects, structure nodes, foreshadowing) that a
//! novel-writing tool keeps.

pub mod files;
pub mod inline;
pub mod markdown;
pub mod models;
pub mod outline;
pub mod text;
