//! The result sink: the single owner of the output, which holds one
//! header row followed by one CSV row per match. The sink builds the
//! report in memory; the caller writes the finished bytes out.

use vstd::prelude::*;

use crate::record::MatchRecord;
use crate::record::RecordView;

verus! {

/// What the `csv` writer emits for one three-field record: the fields
/// comma-separated, each quoted exactly when it needs to be, terminated
/// by a newline. The encoding is a function of the fields alone.
pub uninterp spec fn csv_row_of(a: Seq<char>, b: Seq<char>, c: Seq<char>) -> Seq<u8>;

/// Relies on `csv::Writer::write_record` over an in-memory buffer: it
/// joins the fields with commas, quotes a field that holds a comma, a
/// quote or a line break (doubling quotes), and ends the record with a
/// newline; writing to a `Vec` cannot fail.
#[verifier::external_body]
fn csv_encode_row(a: &str, b: &str, c: &str) -> (r: Vec<u8>)
    ensures
        r@ == csv_row_of(a@, b@, c@),
{
    let mut w = csv::Writer::from_writer(Vec::new());
    let _ = w.write_record(&[a, b, c]);
    w.into_inner().unwrap_or_default()
}

/// The header row: the three column names.
pub open spec fn header_row() -> Seq<u8> {
    csv_row_of("File Name"@, "Size"@, "Full Path"@)
}

/// The row a record renders to.
pub open spec fn row_of_view(v: RecordView) -> Seq<u8> {
    csv_row_of(v.0, v.1, v.2)
}

/// The whole report for a sequence of records: the header row first,
/// then one row per record, in order.
pub open spec fn output_bytes_of(rs: Seq<RecordView>) -> Seq<u8>
    decreases rs.len(),
{
    if rs.len() == 0 {
        header_row()
    } else {
        output_bytes_of(rs.drop_last()) + row_of_view(rs.last())
    }
}

/// Whatever records were written, the report begins with the header row.
pub proof fn lemma_header_first(rs: Seq<RecordView>)
    ensures
        output_bytes_of(rs).len() >= header_row().len(),
        output_bytes_of(rs).subrange(0, header_row().len() as int) == header_row(),
    decreases rs.len(),
{
    if rs.len() == 0 {
        assert(output_bytes_of(rs).subrange(0, header_row().len() as int) =~= header_row());
    } else {
        lemma_header_first(rs.drop_last());
        assert(output_bytes_of(rs).subrange(0, header_row().len() as int)
            =~= output_bytes_of(rs.drop_last()).subrange(0, header_row().len() as int));
    }
}

/// The sink owns the output while it is being built. Its invariant: once
/// the header has been written, the buffer is exactly the report of the
/// records written so far; the header comes first and is written once.
pub struct Sink {
    buf: Vec<u8>,
    header_done: bool,
    records: Ghost<Seq<RecordView>>,
}

impl Sink {
    /// Whether the header row has been written yet.
    pub closed spec fn header_written(self) -> bool {
        self.header_done
    }

    /// The records written so far, in the order they arrived.
    pub closed spec fn records(self) -> Seq<RecordView> {
        self.records@
    }

    /// The sink's invariant.
    pub closed spec fn wf(self) -> bool {
        if self.header_done {
            self.buf@ == output_bytes_of(self.records@)
        } else {
            self.buf@ == Seq::<u8>::empty() && self.records@ == Seq::<RecordView>::empty()
        }
    }

    /// A fresh sink: nothing written yet.
    pub fn new() -> (s: Sink)
        ensures
            s.wf(),
            !s.header_written(),
            s.records() == Seq::<RecordView>::empty(),
    {
        Sink { buf: Vec::new(), header_done: false, records: Ghost(Seq::empty()) }
    }

    /// Writes the header row; called exactly once, before any match.
    pub fn write_header(&mut self)
        requires
            old(self).wf(),
            !old(self).header_written(),
        ensures
            final(self).wf(),
            final(self).header_written(),
            final(self).records() == Seq::<RecordView>::empty(),
    {
        let mut row = csv_encode_row("File Name", "Size", "Full Path");
        self.buf.append(&mut row);
        self.header_done = true;
        proof {
            assert(self.buf@ =~= output_bytes_of(self.records@));
        }
    }

    /// Appends one match row; the header must already be in place.
    pub fn write_match(&mut self, rec: &MatchRecord)
        requires
            old(self).wf(),
            old(self).header_written(),
        ensures
            final(self).wf(),
            final(self).header_written(),
            final(self).records() == old(self).records().push(rec@),
    {
        let mut row = csv_encode_row(
            rec.file_name.as_str(),
            rec.size_text.as_str(),
            rec.full_path.as_str(),
        );
        self.buf.append(&mut row);
        proof {
            self.records@ = self.records@.push(rec@);
            assert(self.records@.drop_last() =~= old(self).records());
            assert(self.buf@ =~= output_bytes_of(self.records@));
        }
    }

    /// Hands the finished report over; the sink is consumed, so nothing
    /// can be appended after this point.
    pub fn finalize(self) -> (out: Vec<u8>)
        requires
            self.wf(),
            self.header_written(),
        ensures
            out@ == output_bytes_of(self.records()),
    {
        self.buf
    }
}

} // verus!
