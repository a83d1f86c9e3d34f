//! The result of a match: the file's name, its size rendered for a human
//! reader, and its full path.

use vstd::prelude::*;

use crate::entry::base_name;
use crate::entry::entry_matches;
use crate::entry::FsEntry;

verus! {

/// What `humansize` renders for a byte count: a decimal (1000-based)
/// quantity with a unit suffix, e.g. `104.86 MB`. The rendering is a
/// function of the byte count alone.
pub uninterp spec fn human_size_of(n: u64) -> Seq<char>;

/// Relies on `humansize::format_size` with the `DECIMAL` options: it
/// renders the byte count with 1000-based units and at most two decimal
/// places, from the number alone, and cannot fail.
#[verifier::external_body]
fn human_readable_size(n: u64) -> (r: String)
    ensures
        r@ == human_size_of(n),
{
    humansize::format_size(n, humansize::DECIMAL)
}

/// One row of the report: a matching file's name, formatted size, and
/// full path.
#[derive(Debug)]
pub struct MatchRecord {
    pub file_name: String,
    pub size_text: String,
    pub full_path: String,
}

/// The mathematical content of a record: its three fields as character
/// sequences, in column order.
pub type RecordView = (Seq<char>, Seq<char>, Seq<char>);

impl View for MatchRecord {
    type V = RecordView;

    open spec fn view(&self) -> RecordView {
        (self.file_name@, self.size_text@, self.full_path@)
    }
}

/// The record a matching entry gives rise to.
pub open spec fn record_view_of(e: FsEntry) -> RecordView {
    (base_name(e.path@), human_size_of(e.size->0), e.path@)
}

/// Builds the record for a match, and nothing for any other entry:
/// a non-file, a file of at most the threshold size, or an entry whose
/// metadata was unavailable.
pub fn build_record(e: &FsEntry) -> (r: Option<MatchRecord>)
    ensures
        r is Some <==> entry_matches(*e),
        entry_matches(*e) ==> r->0@ == record_view_of(*e),
{
    if crate::entry::is_large_file(e) {
        let n = match e.size {
            Some(n) => n,
            None => 0,
        };
        Some(
            MatchRecord {
                file_name: crate::entry::file_name_of(e.path.as_str()),
                size_text: human_readable_size(n),
                full_path: e.path.clone(),
            },
        )
    } else {
        None
    }
}

} // verus!
