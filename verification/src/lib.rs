//! Launcher logic for a desktop shell around the DSH web server: version and
//! installer selection, settings validation, launch planning and plugin bookkeeping.

pub mod app_update;
pub mod backend;
pub mod config;
pub mod dsh;
pub mod json;
pub mod numbers;
pub mod path;
pub mod prerelease;
pub mod text;
