//! A small package manager front end: a registry of package names and
//! version specifiers, its JSON manifest, and the decisions that follow each
//! run of the external installer.
//!
//! The installer itself and the manifest file are reached by the caller: the
//! functions here build the installer's command lines, take whether each run
//! succeeded, and read and write the manifest's text.

mod cli;
mod key_order;
mod manifest;
mod operations;
mod registry;

pub use cli::{requirements_path, requirements_prefix, Cli, Commands};
pub use key_order::{key_lt, lemma_key_lt_irreflexive, lemma_key_lt_transitive};
pub use manifest::{
    decode_manifest, entry_line, entry_lines, json_object_members, json_quoted, json_string_object,
    load_packages, loaded_view, manifest_entries, manifest_text, member_value, save_packages,
};
pub use operations::{
    apply_installs, delete_message, delete_package, install_command, install_command_text,
    install_from_requirements, install_message, install_packages, latest, latest_entries,
    lemma_all_installed, lemma_failed_installs_keep_entry, list_line, list_packages,
    pinned_install_command, pinned_install_command_text, uninstall_command, uninstall_command_text,
    update_message, update_package,
};
pub use registry::{keys_sorted, lists_key, map_of, pair_view, PackageRegistry};
