//! Language resolution, translation catalogs and render-context assembly for
//! a server that renders localized pages.

pub mod config;
pub mod context;
pub mod dict;
pub mod error;
pub mod handlers;
pub mod language;
pub mod middleware;
pub mod text;
