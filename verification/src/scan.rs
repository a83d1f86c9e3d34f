//! The scan itself: root-path validation, the (parallel) filtering of
//! the traversal's entries, and the rendering of the report.

use vstd::prelude::*;

use rayon::iter::IntoParallelRefIterator;
use rayon::iter::ParallelIterator;

use crate::entry::entry_matches;
use crate::entry::FsEntry;
use crate::record::build_record;
use crate::record::record_view_of;
use crate::record::MatchRecord;
use crate::record::RecordView;
use crate::sink::output_bytes_of;
use crate::sink::Sink;

verus! {

/// Why a scan failed before it began. Per-entry failures during the
/// scan are skipped, never reported; only these setup failures (and, in
/// a caller that owns the destination, a write failure) are fatal.
#[derive(Clone, Copy, Debug, PartialEq, Eq, Structural)]
pub enum ScanError {
    /// The root path does not exist.
    RootNotFound,
    /// The root path exists but is not a directory.
    RootNotDirectory,
}

impl ScanError {
    /// The message the scan reports for this failure; the two variants
    /// report distinguishable messages.
    pub fn message(&self) -> (m: &'static str)
        ensures
            *self == ScanError::RootNotFound ==> m@ == "Start path does not exist."@,
            *self == ScanError::RootNotDirectory ==> m@ == "Start path is not a directory."@,
    {
        match self {
            ScanError::RootNotFound => "Start path does not exist.",
            ScanError::RootNotDirectory => "Start path is not a directory.",
        }
    }
}

/// The two failure messages are distinguishable.
pub proof fn lemma_messages_distinguishable()
    ensures
        "Start path does not exist."@ != "Start path is not a directory."@,
{
    reveal_strlit("Start path does not exist.");
    reveal_strlit("Start path is not a directory.");
    assert("Start path does not exist."@.len() != "Start path is not a directory."@.len());
}

/// What the caller found the root path to be, before any traversal.
#[derive(Clone, Copy, Debug, PartialEq, Eq, Structural)]
pub enum RootStatus {
    /// No object exists at the root path.
    Missing,
    /// The root path names a file or other non-directory object.
    NotDirectory,
    /// The root path names a directory.
    Directory,
}

/// The walker's precondition, checked before traversal begins: the root
/// must exist and must be a directory; each failure has its own error.
pub fn check_root(root: RootStatus) -> (r: Result<(), ScanError>)
    ensures
        root == RootStatus::Missing ==> (r is Err && r->Err_0 == ScanError::RootNotFound),
        root == RootStatus::NotDirectory ==> (r is Err && r->Err_0 == ScanError::RootNotDirectory),
        root == RootStatus::Directory ==> r is Ok,
{
    match root {
        RootStatus::Missing => Err(ScanError::RootNotFound),
        RootStatus::NotDirectory => Err(ScanError::RootNotDirectory),
        RootStatus::Directory => Ok(()),
    }
}

/// The entries that are matches, in traversal order.
pub open spec fn matching_entries(s: Seq<FsEntry>) -> Seq<FsEntry> {
    s.filter(|e: FsEntry| entry_matches(e))
}

/// The records of all matching entries, in traversal order.
pub open spec fn matches_of(s: Seq<FsEntry>) -> Seq<RecordView> {
    matching_entries(s).map_values(|e: FsEntry| record_view_of(e))
}

/// The views of a sequence of records.
pub open spec fn views_of(rs: Seq<MatchRecord>) -> Seq<RecordView> {
    rs.map_values(|m: MatchRecord| m@)
}

/// Appending one entry appends its record when it matches and changes
/// nothing otherwise.
pub proof fn lemma_matches_of_push(s: Seq<FsEntry>, e: FsEntry)
    ensures
        entry_matches(e) ==> matches_of(s.push(e)) == matches_of(s).push(record_view_of(e)),
        !entry_matches(e) ==> matches_of(s.push(e)) == matches_of(s),
{
    reveal(Seq::filter);
    assert(s.push(e).drop_last() =~= s);
    assert(s.push(e).last() == e);
    if entry_matches(e) {
        assert(matching_entries(s.push(e)) == matching_entries(s).push(e));
        assert(matches_of(s.push(e)) =~= matches_of(s).push(record_view_of(e)));
    } else {
        assert(matching_entries(s.push(e)) == matching_entries(s));
    }
}

/// Filters a traversal's entries one by one, in order: the result holds
/// exactly the records of the matching entries, in traversal order.
pub fn filter_entries(entries: &Vec<FsEntry>) -> (out: Vec<MatchRecord>)
    ensures
        views_of(out@) == matches_of(entries@),
{
    let mut out: Vec<MatchRecord> = Vec::new();
    let mut i: usize = 0;
    proof {
        reveal(Seq::filter);
        assert(views_of(out@) =~= matches_of(entries@.take(0)));
    }
    while i < entries.len()
        invariant
            i <= entries.len(),
            views_of(out@) == matches_of(entries@.take(i as int)),
        decreases entries.len() - i,
    {
        let ghost prev = entries@.take(i as int);
        proof {
            assert(entries@.take(i + 1) =~= prev.push(entries@[i as int]));
            lemma_matches_of_push(prev, entries@[i as int]);
        }
        match build_record(&entries[i]) {
            Some(m) => {
                out.push(m);
                proof {
                    assert(views_of(out@) =~= matches_of(entries@.take(i + 1)));
                }
            },
            None => {
                proof {
                    assert(views_of(out@) =~= matches_of(entries@.take(i + 1)));
                }
            },
        }
        i = i + 1;
    }
    proof {
        assert(entries@.take(entries@.len() as int) =~= entries@);
    }
    out
}

/// Relies on rayon's `par_iter`, `filter_map` and `collect`: the worker
/// pool hands every entry to the closure exactly once and collects every
/// record the closure returns; the order in which workers deliver them
/// is unspecified, so only the collection of records is stated.
#[verifier::external_body]
fn par_filter_entries(entries: &Vec<FsEntry>) -> (out: Vec<MatchRecord>)
    ensures
        views_of(out@).to_multiset() == matches_of(entries@).to_multiset(),
{
    entries.par_iter().filter_map(|e| build_record(e)).collect()
}

/// Renders the finished report: the header row first, then one CSV row
/// per record, in the records' order.
pub fn render_report(records: &Vec<MatchRecord>) -> (out: Vec<u8>)
    ensures
        out@ == output_bytes_of(views_of(records@)),
{
    let mut sink = Sink::new();
    sink.write_header();
    let mut i: usize = 0;
    proof {
        assert(sink.records() =~= views_of(records@.take(0)));
    }
    while i < records.len()
        invariant
            i <= records.len(),
            sink.wf(),
            sink.header_written(),
            sink.records() == views_of(records@.take(i as int)),
        decreases records.len() - i,
    {
        sink.write_match(&records[i]);
        proof {
            assert(sink.records() =~= views_of(records@.take(i + 1)));
        }
        i = i + 1;
    }
    proof {
        assert(records@.take(records@.len() as int) =~= records@);
    }
    sink.finalize()
}

/// The whole scan over an already-traversed tree, filtering in parallel:
/// fails exactly when the root was missing (`RootNotFound`) or not a
/// directory (`RootNotDirectory`); otherwise returns the report, whose
/// rows are the records of exactly the matching entries, in an order the
/// worker pool chose.
pub fn scan_large_files(root: RootStatus, entries: &Vec<FsEntry>) -> (r: Result<
    Vec<u8>,
    ScanError,
>)
    ensures
        root == RootStatus::Missing ==> (r is Err && r->Err_0 == ScanError::RootNotFound),
        root == RootStatus::NotDirectory ==> (r is Err && r->Err_0 == ScanError::RootNotDirectory),
        root == RootStatus::Directory ==> r is Ok && (exists|rs: Seq<RecordView>|
            rs.to_multiset() == matches_of(entries@).to_multiset() && r->Ok_0@ == output_bytes_of(
                rs,
            )),
{
    match check_root(root) {
        Err(e) => Err(e),
        Ok(()) => {
            let matches = par_filter_entries(entries);
            let out = render_report(&matches);
            proof {
                let rs = views_of(matches@);
                assert(rs.to_multiset() == matches_of(entries@).to_multiset() && out@
                    == output_bytes_of(rs));
            }
            Ok(out)
        },
    }
}

/// The same scan with a single worker, filtering in traversal order:
/// the report's rows are the matching entries' records in exactly the
/// order the entries arrived in.
pub fn scan_large_files_sequential(root: RootStatus, entries: &Vec<FsEntry>) -> (r: Result<
    Vec<u8>,
    ScanError,
>)
    ensures
        root == RootStatus::Missing ==> (r is Err && r->Err_0 == ScanError::RootNotFound),
        root == RootStatus::NotDirectory ==> (r is Err && r->Err_0 == ScanError::RootNotDirectory),
        root == RootStatus::Directory ==> r is Ok && r->Ok_0@ == output_bytes_of(
            matches_of(entries@),
        ),
{
    match check_root(root) {
        Err(e) => Err(e),
        Ok(()) => {
            let matches = filter_entries(entries);
            Ok(render_report(&matches))
        },
    }
}

/// How many of the records carry the given full path.
pub open spec fn records_with_path(rs: Seq<RecordView>, p: Seq<char>) -> nat
    decreases rs.len(),
{
    if rs.len() == 0 {
        0
    } else {
        records_with_path(rs.drop_last(), p) + if rs.last().2 == p {
            1nat
        } else {
            0nat
        }
    }
}

/// A path at which no entry is a match — a file of at most the
/// threshold size, a directory, or no entry at all — contributes no
/// record to the output.
pub proof fn lemma_no_match_no_record(s: Seq<FsEntry>, p: Seq<char>)
    requires
        forall|j: int| 0 <= j < s.len() && (#[trigger] s[j]).path@ == p ==> !entry_matches(s[j]),
    ensures
        records_with_path(matches_of(s), p) == 0,
    decreases s.len(),
{
    reveal(Seq::filter);
    if s.len() == 0 {
        assert(matches_of(s) =~= Seq::<RecordView>::empty());
    } else {
        let s0 = s.drop_last();
        let e = s.last();
        assert(s0.push(e) =~= s);
        assert forall|j: int|
            0 <= j < s0.len() && (#[trigger] s0[j]).path@ == p implies !entry_matches(
            s0[j],
        ) by {
            assert(s0[j] == s[j]);
        }
        lemma_no_match_no_record(s0, p);
        lemma_matches_of_push(s0, e);
        if entry_matches(e) {
            assert(e == s[s.len() - 1]);
            assert(e.path@ != p);
            let m = matches_of(s0).push(record_view_of(e));
            assert(m.drop_last() =~= matches_of(s0));
        }
    }
}

/// In a tree — entries with pairwise distinct paths — every matching
/// file appears in the output exactly once: exactly one record carries
/// its path.
pub proof fn lemma_match_appears_once(s: Seq<FsEntry>, i: int)
    requires
        0 <= i < s.len(),
        entry_matches(s[i]),
        forall|a: int, b: int| 0 <= a < b < s.len() ==> s[a].path@ != s[b].path@,
    ensures
        records_with_path(matches_of(s), s[i].path@) == 1,
    decreases s.len(),
{
    reveal(Seq::filter);
    let s0 = s.drop_last();
    let e = s.last();
    let p = s[i].path@;
    assert(s0.push(e) =~= s);
    lemma_matches_of_push(s0, e);
    if i == s.len() - 1 {
        assert forall|j: int|
            0 <= j < s0.len() && (#[trigger] s0[j]).path@ == p implies !entry_matches(
            s0[j],
        ) by {
            assert(s0[j] == s[j]);
            assert(s[j].path@ != s[i].path@);
        }
        lemma_no_match_no_record(s0, p);
        let m = matches_of(s0).push(record_view_of(e));
        assert(m.drop_last() =~= matches_of(s0));
        assert(record_view_of(e).2 == p);
    } else {
        assert(s0[i] == s[i]);
        assert forall|a: int, b: int| 0 <= a < b < s0.len() implies s0[a].path@ != s0[b].path@ by {
            assert(s0[a] == s[a] && s0[b] == s[b]);
        }
        lemma_match_appears_once(s0, i);
        if entry_matches(e) {
            assert(e == s[s.len() - 1]);
            assert(s[i].path@ != s[s.len() - 1].path@);
            let m = matches_of(s0).push(record_view_of(e));
            assert(m.drop_last() =~= matches_of(s0));
            assert(record_view_of(e).2 != p);
        }
    }
}

/// Whether some matching entry gives rise to this record.
pub open spec fn record_has_source(s: Seq<FsEntry>, v: RecordView) -> bool {
    exists|i: int| 0 <= i < s.len() && entry_matches(#[trigger] s[i]) && v == record_view_of(s[i])
}

/// Every record in the output is the record of some matching entry:
/// nothing but a regular file strictly over the threshold is reported.
pub proof fn lemma_records_from_matches(s: Seq<FsEntry>)
    ensures
        forall|j: int| 0 <= j < matches_of(s).len() ==> record_has_source(
            s,
            #[trigger] matches_of(s)[j],
        ),
    decreases s.len(),
{
    reveal(Seq::filter);
    if s.len() == 0 {
        assert(matches_of(s) =~= Seq::<RecordView>::empty());
    } else {
        let s0 = s.drop_last();
        let e = s.last();
        assert(s0.push(e) =~= s);
        lemma_records_from_matches(s0);
        lemma_matches_of_push(s0, e);
        assert forall|j: int| 0 <= j < matches_of(s).len() implies record_has_source(
            s,
            #[trigger] matches_of(s)[j],
        ) by {
            if j < matches_of(s0).len() {
                assert(matches_of(s)[j] == matches_of(s0)[j]);
                assert(record_has_source(s0, matches_of(s0)[j]));
                let i = choose|i: int|
                    0 <= i < s0.len() && entry_matches(#[trigger] s0[i]) && matches_of(s0)[j]
                        == record_view_of(s0[i]);
                assert(s0[i] == s[i]);
                assert(entry_matches(s[i]) && matches_of(s)[j] == record_view_of(s[i]));
            } else {
                assert(entry_matches(e));
                let i = s.len() - 1;
                assert(entry_matches(s[i]) && matches_of(s)[j] == record_view_of(s[i]));
            }
        }
    }
}

/// The output's size and contents do not depend on the worker pool, and
/// an unchanged tree scanned twice gives the same records: any two
/// results the filtering may deliver for the same entries hold exactly
/// the same records (as unordered collections, order may differ), and
/// exactly as many as there are matching entries.
pub proof fn lemma_scan_deterministic(s: Seq<FsEntry>, r1: Seq<RecordView>, r2: Seq<RecordView>)
    requires
        r1.to_multiset() == matches_of(s).to_multiset(),
        r2.to_multiset() == matches_of(s).to_multiset(),
    ensures
        r1.to_multiset() == r2.to_multiset(),
        r1.len() == r2.len(),
        r1.len() == matching_entries(s).len(),
{
    broadcast use vstd::seq_lib::group_to_multiset_ensures;

    assert(r1.len() == r1.to_multiset().len());
    assert(r2.len() == r2.to_multiset().len());
    assert(matches_of(s).len() == matches_of(s).to_multiset().len());
}

} // verus!

