//! Verified core of a statusline renderer: the lint checks for its JSON
//! configuration, the marked-JSON reader and scanner, error marks and their
//! formatting, buffer matchers, and the renderer's text helpers.

pub mod text;
pub mod char_map;
pub mod lint_checks;
pub mod lint_context;
pub mod lint_imp;
pub mod lint_inspect;
pub mod lint_config;
pub mod lint_spec;
pub mod lint_files;
pub mod lint_selfcheck;
pub mod matchers;
pub mod json_value;
pub mod powerline;
pub mod listers;
pub mod common_config;
pub mod renderer;
pub mod render_segments;
pub mod renderer_info;
pub mod markedjson;
pub mod regex_calls;
