//! Merges lists of named entries from JSON documents into a single
//! name-to-weight mapping, assigning each entry a bounded random weight.
//!
//! Entries compare case-insensitively but mapping keys keep their exact
//! spelling; weights are drawn from `[1, 1100)` and clamped into `[1, 999]`.

pub mod entry;
pub mod input;
pub mod json;
pub mod mapping;
pub mod merge;
pub mod render;
pub mod roundtrip;
pub mod text;
pub mod weights;

pub use entry::differ_only_in_case;
pub use entry::lemma_case_insensitive_equality;
pub use entry::Entry;
pub use input::sorted_ci;
pub use input::Input;
pub use json::parse_names;
pub use json::ParseError;
pub use mapping::lemma_case_distinct_keys;
pub use mapping::lemma_merge_override;
pub use mapping::NameMap;
pub use merge::include_entries;
pub use merge::merge_document;
pub use merge::parse_input;
pub use render::to_json_pretty;
pub use roundtrip::lemma_render_round_trip;
pub use text::cmp_lower;
pub use text::eq_lower;
pub use weights::clamp_weight;
pub use weights::draw_weight;
pub use weights::fresh_rng;
