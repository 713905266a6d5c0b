//! A personal command-alias manager's core: alias records (name, command,
//! description, tags), a store keyed by unique name, a codec between the
//! store and a JSON-shaped document tree, and the shell `alias` rendering.

mod codec;
mod doc;
mod entry;
mod shell;
mod store;
mod textio;

pub use codec::add_entry;
pub use codec::all_strings;
pub use codec::lemma_packed_entry_round_trip;
pub use codec::lemma_store_round_trip;
pub use codec::pack_alias_list;
pub use codec::pack_entry;
pub use codec::packed_entry_ok;
pub use codec::packed_list_ok;
pub use codec::spec_unpack_entry;
pub use codec::spec_unpack_list;
pub use codec::spec_unpack_store;
pub use codec::str_views;
pub use codec::unpack_alias_list;
pub use codec::unpack_entry;
pub use doc::Doc;
pub use doc::doc_lookup;
pub use entry::Entry;
pub use entry::EntryView;
pub use entry::ParseError;
pub use entry::SchemaError;
pub use entry::StoreError;
pub use shell::render_line;
pub use shell::render_lines;
pub use shell::render_shell_definitions;
pub use store::AliasStore;
pub use store::lemma_empty_search;
pub use store::lemma_insert_then_get;
pub use store::lemma_matching_names_iff;
pub use store::lemma_remove_then_get;
pub use store::matching_names;
pub use store::names_unique;
pub use store::remove_first;
pub use store::seq_find;
pub use store::tags_match;
pub use store::upsert_seq;
pub use textio::parse_document;
pub use textio::parsed_document;
pub use textio::render_document;
pub use textio::rendered_document;
