//! Moonshine: an atomic-CSS generator. Design tokens and templates are turned
//! into transformations, transformations into rule families, and rule
//! families into CSS text.

pub mod config;
pub mod css;
pub mod errors;
pub mod framework;
pub mod index_map;
pub mod instruction;
pub mod pattern;
pub mod pipeline;
pub mod strmap;
pub mod template;
pub mod text;
pub mod transformation;
