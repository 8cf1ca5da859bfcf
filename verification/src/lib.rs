//! Selection translator core: configuration rules, prompt rendering, request
//! bodies, response extraction, cache keys and popup geometry.

pub mod text;
pub mod json;
pub mod config;
pub mod translator;
pub mod language;
pub mod cache;
pub mod ui;
pub mod geometry;
pub mod popup;
pub mod paint;
