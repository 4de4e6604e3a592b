//! Step selection and plugin-pipeline orchestration for a project generator.
//!
//! A run discovers a list of named plugins, assigns each a stable position in
//! a [`steps::Registry`], merges the user's `--only`/`--skip` selections into
//! an immutable [`steps::Steps`] bitset, and then drives every selected plugin
//! in discovery order through a fail-fast pipeline, after a one-time config
//! bootstrap and with an optional post-run editor launch.

pub mod init;
pub mod opts;
pub mod steps;
