//! A tagged, self-describing name/value container.
//!
//! An `NvList` owns an ordered sequence of entries, each pairing a name with a
//! dynamically typed value: a presence marker, a boolean, a 64-bit number, a
//! string, a binary blob, an opaque descriptor handle, a nested list, or a
//! homogeneous array of one of those kinds. Lists carry a duplicate-name and a
//! case-sensitivity policy fixed at construction, accumulate mutation failures
//! in a sticky error code, and can be serialized to a byte stream and parsed
//! back.

mod codec;
mod common;
mod laws;
mod model;
mod nvadd;
mod nvlist;
mod nvops;
mod views;

pub use codec::dec_list;
pub use codec::enc_entries;
pub use codec::enc_entry;
pub use codec::enc_list;
pub use codec::enc_value;
pub use codec::list_sizes_ok;
pub use codec::parse;
pub use codec::scrub_entries;
pub use codec::scrub_entry;
pub use codec::scrub_list;
pub use codec::scrub_lists;
pub use codec::scrub_value;
pub use codec::value_sizes_ok;
pub use codec::Decoded;
pub use common::NV_NAME_MAX;
pub use common::NvDecodeErr;
pub use common::NvErr;
pub use common::NvResult;
pub use common::NvType;
pub use common::ERROR_NAME_EXISTS;
pub use common::ERROR_NAME_TOO_LONG;
pub use common::ERROR_NO_MEMORY;
pub use laws::lemma_case_fold_lookup;
pub use laws::lemma_duplicate_rejected;
pub use laws::lemma_invalid_inert;
pub use laws::lemma_round_trip;
pub use laws::lemma_scrub_clean;
pub use laws::lemma_typed_lookup_misses;
pub use laws::list_error_free;
pub use laws::value_error_free;
pub use model::add_effect;
pub use model::entry_matches;
pub use model::fetched;
pub use model::fold_char;
pub use model::fold_name;
pub use model::free_effect;
pub use model::lookup;
pub use model::name_byte_len;
pub use model::name_matches;
pub use model::nested_value;
pub use model::remove_first;
pub use model::valid_only;
pub use model::NvEntryView;
pub use model::NvListView;
pub use model::NvValueView;
pub use nvlist::NvFlag;
pub use nvlist::NvList;
pub use nvadd::NvListAdd;
pub use nvops::NvListOps;
