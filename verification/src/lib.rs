//! Year, decade and genre tagging for music libraries: the per-source result
//! parsers, the weighted multi-source vote and the decisions around writing tags.

pub mod cache;
pub mod cli;
pub mod config;
pub mod models;
pub mod paths;
pub mod pipeline;
pub mod report;
pub mod sources;
pub mod tagger;
pub mod text;
pub mod track_run;
