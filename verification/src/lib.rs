//! A directory-versioning library: it models a set of watched directories,
//! routes filesystem events to the watched root that owns them through a
//! component-wise path-prefix index, and drives a content-addressed snapshot
//! history (one per watched root) with rate-limited, change-gated commits,
//! history listing, tree diffing and point-in-time restoration.

use vstd::prelude::*;

mod bytes;
mod cli;
mod config;
mod confjson;
mod git_ops;
mod numbers;
mod pathrel;
mod prefix_index;
mod refspec;
mod storename;
mod timefmt;
mod watchdir;

pub use bytes::bytes_append;
pub use bytes::bytes_clone;
pub use bytes::bytes_contain;
pub use bytes::bytes_eq;
pub use bytes::bytes_tail;
pub use bytes::contains_byte;
pub use cli::Args;
pub use cli::CLIDiff;
pub use cli::CLILog;
pub use cli::CLIRestore;
pub use cli::CLIWatch;
pub use cli::Command;
pub use config::Config;
pub use config::FsEvent;
pub use config::FsEventKind;
pub use config::added_matches;
pub use config::loaded_first_at;
pub use config::loaded_has;
pub use config::merged_pinned;
pub use config::pending_extended;
pub use config::seq_holds;
pub use config::spec_remaining;
pub use config::targets_extended;
pub use confjson::config_json;
pub use confjson::hex_digit;
pub use confjson::json_escape_into;
pub use confjson::json_escaped;
pub use confjson::json_escaped_byte;
pub use confjson::spec_config_json;
pub use confjson::spec_entries_json;
pub use confjson::spec_entry_json;
pub use confjson::spec_policy_json;
pub use numbers::dec_digits;
pub use numbers::dec_val;
pub use numbers::is_dec_digits;
pub use numbers::parse_dec_u64;
pub use numbers::u64_to_dec;
pub use pathrel::PATH_SEP;
pub use pathrel::is_path_ancestor;
pub use pathrel::is_strict_path_ancestor;
pub use pathrel::path_is_ancestor;
pub use pathrel::lemma_ancestors_comparable;
pub use prefix_index::PrefixEntry;
pub use prefix_index::PrefixIndex;
pub use refspec::CommitRef;
pub use refspec::after_first;
pub use refspec::is_first_index;
pub use refspec::is_head_token;
pub use refspec::is_valid_offset;
pub use refspec::parse_commit_ref;
pub use refspec::spec_parse_ref;
pub use refspec::spec_upper_byte;
pub use storename::encode_store_name;
pub use storename::escaped_byte;
pub use storename::lemma_store_encoding_injective;
pub use storename::lemma_store_isolation;
pub use storename::store_encoding;
pub use storename::ESCAPE_BYTE;
pub use storename::SEP_MARK;
pub use timefmt::civil_format_of;
pub use timefmt::format_commit_time;
pub use timefmt::offset_magnitude;
pub use timefmt::offset_suffix;
pub use timefmt::two_digits;
pub use watchdir::CommitMeta;
pub use watchdir::DiffLine;
pub use watchdir::FsEntry;
pub use watchdir::LineTag;
pub use watchdir::StoreError;
pub use watchdir::WatchDir;
pub use watchdir::base_of_parent;
pub use watchdir::build_snapshot_message;
pub use watchdir::classify_line;
pub use watchdir::commit_decision;
pub use watchdir::commit_warranted;
pub use watchdir::entry_passes;
pub use watchdir::entry_within_limit;
pub use watchdir::id_position;
pub use watchdir::offset_selection;
pub use watchdir::require_head;
pub use watchdir::select_at_offset;
pub use watchdir::lemma_commit_gate;
pub use watchdir::lemma_force_overrides_gate;
pub use watchdir::lemma_rate_limit;
pub use watchdir::snapshot_due;
pub use watchdir::snapshot_message;
pub use watchdir::spec_line_tag;
pub use watchdir::tag_lines;

verus! {

/// Relies on env_logger's Builder::try_init: installs the process logger
/// configured from the `LOG_CONFIG` environment variable; does nothing if a
/// logger is already installed.
#[verifier::external_body]
fn env_logger_init()
{
    let _ = env_logger::Builder::from_env("LOG_CONFIG").try_init();
}

/// Installs the process-wide logger; safe to call more than once.
pub fn logger_init() {
    env_logger_init();
}

} // verus!
