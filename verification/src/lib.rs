use vstd::prelude::*;

pub mod ast;
pub mod attempts;
pub mod changeset;
pub mod class_mapping;
pub mod cli;
pub mod conflict_markers;
pub mod git;
pub mod lang_profile;
pub mod line_based;
pub mod matching;
pub mod merge;
pub mod merge_3dm;
pub mod merge_result;
pub mod merged_tree;
pub mod merged_text;
pub mod newline;
pub mod parsed_merge;
pub mod paths;
pub mod pcs;
pub mod priority_list;
pub mod settings;
pub mod signature;
pub mod solve;
pub mod std_ext;
pub mod supported_langs;
pub mod text;

pub use crate::supported_langs::languages;

verus! {

/// The environment variable which disables Mergiraf when set to `0`
pub const DISABLING_ENV_VAR: &'static str = "mergiraf";

} // verus!
