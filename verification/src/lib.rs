//! Generation of short random tags over a restricted alphabet, backed by a
//! durable ledger of previously issued tags and a CSV interchange codec.

use vstd::prelude::*;
use vstd::string::StringExecFns;

mod chars;
mod codec;
mod generate;
mod ledger;
mod text;

pub use chars::Chars;
pub use chars::parse_chars;
pub use chars::length_conflicts;
pub use chars::first_occurrences;
pub use chars::is_alnum_char;
pub use chars::is_digit_char;
pub use chars::is_letter_char;
pub use chars::seq_all_alnum;
pub use chars::seq_has_digit;
pub use chars::seq_has_letter;
pub use codec::csv_header;
pub use codec::csv_parse_records;
pub use codec::csv_to_rows;
pub use codec::export_csv;
pub use codec::import_csv;
pub use codec::is_bare_char;
pub use codec::is_plain_datetime_char;
pub use codec::lemma_snapshot_reload;
pub use codec::load_records;
pub use codec::rfc3339_value;
pub use codec::rows_to_csv;
pub use codec::rows_view;
pub use codec::upsert_all;
pub use codec::MAX_RFC3339_TIMESTAMP;
pub use generate::attempt_spec;
pub use generate::attempt_step;
pub use generate::build_candidate;
pub use generate::candidate_ok;
pub use generate::chosen_tag_spec;
pub use generate::collect_candidates;
pub use generate::count_char;
pub use generate::finalize_generation;
pub use generate::generated_tag_ok;
pub use generate::max_repeats;
pub use generate::record_selection;
pub use generate::max_repeats_spec;
pub use generate::select_tag;
pub use generate::selection_spec;
pub use ledger::begin_ledger_read;
pub use ledger::empty_ledger;
pub use ledger::begin_ledger_write;
pub use ledger::check_ledger;
pub use ledger::clear_tags;
pub use ledger::commit_ledger;
pub use ledger::ensure_tags_table;
pub use ledger::lookup_tag;
pub use ledger::open_ledger;
pub use ledger::read_all_tags;
pub use ledger::record_tag;
pub use ledger::read_contents;
pub use ledger::rows_sorted;
pub use ledger::seq_char_lt;
pub use ledger::snapshot_rows;
pub use ledger::write_contents;

verus! {

/// Why a ledger or codec operation failed.
#[derive(Debug)]
pub enum TagError {
    /// The storage engine failed; the message names the operation.
    Storage(String),
    /// A CSV row or its datetime could not be read; the message holds the
    /// offending text.
    Encoding(String),
    /// The bounded generation effort ran out before enough unique tags were
    /// found.
    Exhausted,
}

impl TagError {
    /// The text `message` returns for each variant.
    pub open spec fn message_spec(self) -> Seq<char> {
        match self {
            TagError::Storage(m) => m@,
            TagError::Encoding(m) => m@,
            TagError::Exhausted => "tag generation exhausted its attempt budget"@,
        }
    }

    /// A human-readable description of the failure.
    pub fn message(&self) -> (r: String)
        ensures
            r@ == self.message_spec(),
    {
        match self {
            TagError::Storage(m) => m.clone(),
            TagError::Encoding(m) => m.clone(),
            TagError::Exhausted => String::from_str("tag generation exhausted its attempt budget"),
        }
    }
}

} // verus!
