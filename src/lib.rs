//! Aggregates the dependencies declared by several Cargo manifests into one
//! deduplicated set and renders a minimal manifest that declares exactly that
//! set, so that a package manager run against it fills its local cache.

mod version_req;
mod toml_doc;
mod extract;
mod crate_set;

pub use toml_doc::{parse_document, toml_document, toml_layer, TomlLayer};
pub use version_req::is_version_req;
pub use extract::{
    deps_view, entry_version, extract_manifest, position_of, keep_marked, lemma_invalid_entry_changes_nothing, lemma_invalid_requirement_dropped,
    lemma_no_sections_no_dependencies, lemma_plain_entry_kept, lemma_table_entry_reads_version, lookup,
    manifest_dependencies, manifest_model, section_of, marked, retain_valid, section_dependencies, table_dependencies,
    transform_dependencies, valid_only, version_of, versioned, versioned_entries, Dep, ManifestError,
    ManifestFault, Package, PackageDependencies,
};
pub use crate_set::{
    collect_crates, collected, declared, dependencies_header, dependency_line, dependency_lines, lemma_package_section_first,
    lemma_round_trip, lemma_shared_pair_stored_once, lemma_two_requirements_two_pairs, manifest_text,
    package_section, string_entries, CrateSet,
};
