//! The built-in analyses.

pub mod no_console;
pub mod no_process_env;
pub mod mustache_interpolation_spacing;
pub mod no_v_html;
pub mod prefer_import_meta;
pub mod require_v_for_key;
