//! Publish-lifecycle management for a multi-package workspace.
//!
//! The library models a workspace of publishable packages, validates the
//! workspace and member manifests, computes a deterministic publish order
//! over the intra-workspace dependency graph, and rewrites dependency
//! declarations in the workspace manifest between path form (development)
//! and version form (release).

mod errors;
mod manifest;
mod model;
mod order;
mod transform;
mod validate;
mod workspace;

pub use errors::ErrorKind;
pub use errors::UniverError;
pub use manifest::TomlValue;
pub use manifest::get;
pub use manifest::lookup;
pub use model::Dependency;
pub use model::Member;
pub use model::MemberModel;
pub use model::Workspace;
pub use model::distinct_names;
pub use model::member_names;
pub use model::path_pattern;
pub use model::version_pattern;
pub use order::apply_order;
pub use order::cycle_error_message;
pub use order::edge;
pub use order::has_cycle;
pub use order::is_cycle;
pub use order::lemma_apply_order_is_permutation;
pub use order::sort;
pub use order::valid_publish_order;
pub use transform::declaration_present;
pub use transform::lemma_path_pattern_no_self_overlap;
pub use transform::lemma_replace_creates;
pub use transform::lemma_replace_round_trip;
pub use transform::lemma_round_trip_path_then_version;
pub use transform::lemma_round_trip_version_then_path;
pub use transform::lemma_version_pattern_no_self_overlap;
pub use transform::lemma_version_rewrite_idempotent;
pub use transform::members_to_publish;
pub use transform::missing_path_form_message;
pub use transform::missing_version_form_message;
pub use transform::needs_publish;
pub use transform::no_self_overlap;
pub use transform::occurs;
pub use transform::occurs_at;
pub use transform::path_rewrite;
pub use transform::replace_all;
pub use transform::to_path_form;
pub use transform::to_version_form;
pub use transform::version_rewrite;
pub use validate::crate_dep_entry_error;
pub use validate::crate_deps_error;
pub use validate::dep_has_path_message;
pub use validate::dep_has_version_message;
pub use validate::dep_section_error;
pub use validate::has_dependency;
pub use validate::lemma_dep_with_both_forms_rejected;
pub use validate::lemma_member_version_override_rejected;
pub use validate::lemma_missing_version_rejected;
pub use validate::member_deps_entries;
pub use validate::member_validation;
pub use validate::validate_member;
pub use validate::validate_workspace;
pub use validate::workspace_validation;
pub use validate::ws_dep_both_forms_message;
pub use validate::ws_dep_entry_error;
pub use validate::ws_deps_entries;
pub use validate::ws_deps_error;
pub use workspace::PackageRecord;
pub use workspace::build_members;
pub use workspace::built_members;
pub use workspace::duplicate_name_message;
pub use workspace::forward_slashed;
pub use workspace::member_model_of;
pub use workspace::parent_dir_spec;
pub use workspace::publish_eligible;
pub use workspace::record_names;
pub use workspace::strip_prefix_spec;
