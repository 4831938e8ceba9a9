//! A gettext-compatible translation-catalog text engine: the PO and MO entry
//! model, escaping of control characters in quoted string fields, and the
//! Unicode-aware line wrapping that reproduces the textual layout of the
//! reference gettext tooling. The `entry` module keys plural forms by string
//! index; the `poentry` module offers a compact entry with positional plural
//! forms and a plainer wrapping policy.
//!
//! Two small side modules live beside the catalog engine: `blocks`, the HTML
//! rendering of wiki-text paragraph fragments, and `circuit_info`, a packed
//! set of node property bits.

pub mod blocks;
pub mod circuit_info;
pub mod entry;
pub mod escaping;
pub mod field;
pub mod poentry;
pub mod render;
pub mod strutil;
pub mod twrapper;
pub mod unicode;

pub use entry::maybe_msgid_msgctxt_eot_split;
pub use entry::mo_metadata_entry_to_string;
pub use entry::po_metadata_entry_to_string;
pub use entry::MOEntry;
pub use entry::MsgidEotMsgctxt;
pub use entry::POEntry;
pub use entry::Translated;
pub use escaping::escape;
pub use escaping::unescape;
pub use escaping::unescape_characters;
pub use escaping::unescape_except_double_quotes;
pub use field::POStringField;
pub use twrapper::wrap;
pub use twrapper::wrap_plain;
