//! Composite binary keys: sortable, concatenable byte-string keys built from
//! typed values (text, raw bytes, timestamps, calendar dates).
//!
//! A [`Key`] is an owned byte sequence. Conversion rules ([`ToKey`]) turn
//! each supported source type into its canonical byte encoding, and keys are
//! composed by concatenation, left to right, with no separators.

mod datetime;
mod key;
mod lex;

pub use datetime::chronologically_before;
pub use datetime::lemma_composite_build_equivalence;
pub use datetime::lemma_date_normalization;
pub use datetime::lemma_order_preservation;
pub use datetime::days_in_month;
pub use datetime::digit_byte;
pub use datetime::four_digits;
pub use datetime::is_leap_year;
pub use datetime::rfc3339_bytes;
pub use datetime::rfc3339_chunks;
pub use datetime::two_digits;
pub use datetime::utc_suffix;
pub use datetime::CalendarDate;
pub use datetime::Timestamp;

pub use lex::lex_lt;
pub use lex::lemma_concat_lex_lt;
pub use lex::lemma_lex_lt_append;
pub use lex::lemma_lex_lt_prepend;

pub use key::concat_bytes;
pub use key::lemma_build_empty;
pub use key::lemma_build_single;
pub use key::lemma_build_order_sensitive;
pub use key::lemma_extract_rewrap;
pub use key::lemma_join_associative;
pub use key::lemma_join_identity;
pub use key::Key;
pub use key::ToKey;
