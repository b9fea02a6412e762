//! Canonical video projects for a speech and video studio.
//!
//! A project is one document, the manifest: its source media, the timeline that places them, the
//! captions, the cast and what they say, and the history of how it came to be. This crate holds the
//! rules that the document obeys and the pure functions that read and change it. Reading files,
//! calling FFmpeg and storing versions is left to the program around it.

pub mod assembly;
pub mod bytes;
pub mod cache;
pub mod candidates;
pub mod canvas;
pub mod caption_layout;
pub mod caption_pages;
pub mod caption_presets;
pub mod captions;
pub mod cast;
pub mod cover;
pub mod decimals;
pub mod dialogue;
pub mod digest;
pub mod doubles;
pub mod edit_shared;
pub mod editor;
pub mod error;
pub mod evidence;
pub mod filters;
pub mod format;
pub mod inputs;
pub mod layers;
pub mod lexicon;
pub mod listening;
pub mod manifest;
pub mod manifest_rules;
pub mod merge;
pub mod model;
pub mod notation;
pub mod operations;
pub mod order;
pub mod ownership;
pub mod preview;
pub mod reorder;
pub mod round_trip;
pub mod rules;
pub mod scene_plan;
pub mod score;
pub mod spans;
pub mod split;
pub mod stages;
pub mod style_lines;
pub mod subtitles;
pub mod text;
pub mod time;
pub mod timeline;
pub mod transcript;
pub mod trim;
pub mod validate;
pub mod words;
