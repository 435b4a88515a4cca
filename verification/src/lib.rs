//! In-memory model of a markdown blog site.
//!
//! The crate ingests content units (front matter + markdown body) into an
//! immutable `Site` snapshot, renders markdown to HTML, serves paginated and
//! tag-filtered views over a snapshot, and keeps a long-lived process's view
//! of the site fresh through an atomically replaceable live model.

pub mod context;
pub mod datetime;
pub mod front_matter;
pub mod render;
pub mod site;
pub mod text;
pub mod updating_site;
