use large_file_scanner::entry::{file_name_of, is_large_file, EntryKind, FsEntry, MIN_FILE_SIZE};
use large_file_scanner::record::build_record;
use large_file_scanner::scan::{
    check_root, filter_entries, render_report, scan_large_files, scan_large_files_sequential,
    RootStatus, ScanError,
};

fn file(path: &str, size: u64) -> FsEntry {
    FsEntry { path: path.to_string(), kind: EntryKind::File, size: Some(size) }
}

fn dir(path: &str) -> FsEntry {
    FsEntry { path: path.to_string(), kind: EntryKind::Directory, size: None }
}

fn output_lines(bytes: Vec<u8>) -> Vec<String> {
    String::from_utf8(bytes)
        .expect("report is valid UTF-8")
        .lines()
        .map(|l| l.to_string())
        .collect()
}

const HEADER: &str = "File Name,Size,Full Path";
const MIB_150: u64 = 150 * 1024 * 1024;

#[test]
fn threshold_is_strict() {
    assert!(!is_large_file(&file("/t/at.bin", MIN_FILE_SIZE)));
    assert!(is_large_file(&file("/t/over.bin", MIN_FILE_SIZE + 1)));
    assert!(!is_large_file(&file("/t/under.bin", MIN_FILE_SIZE - 1)));
}

#[test]
fn only_regular_files_match() {
    let huge = Some(MIN_FILE_SIZE + 42);
    let d = FsEntry { path: "/t/d".to_string(), kind: EntryKind::Directory, size: huge };
    let o = FsEntry { path: "/t/l".to_string(), kind: EntryKind::Other, size: huge };
    assert!(!is_large_file(&d));
    assert!(!is_large_file(&o));
    assert!(build_record(&d).is_none());
    assert!(build_record(&o).is_none());
}

#[test]
fn missing_metadata_is_skipped() {
    let vanished = FsEntry { path: "/t/gone.bin".to_string(), kind: EntryKind::File, size: None };
    assert!(!is_large_file(&vanished));
    assert!(build_record(&vanished).is_none());
}

#[test]
fn record_fields_are_name_size_path() {
    let rec = build_record(&file("/data/sub/big.bin", MIN_FILE_SIZE + 1)).expect("a match");
    assert_eq!(rec.file_name, "big.bin");
    assert_eq!(rec.size_text, "104.86 MB");
    assert_eq!(rec.full_path, "/data/sub/big.bin");
}

#[test]
fn file_name_is_last_component() {
    assert_eq!(file_name_of("/a/b/c.bin"), "c.bin");
    assert_eq!(file_name_of("plain.bin"), "plain.bin");
    assert_eq!(file_name_of(""), "");
}

#[test]
fn empty_root_gives_header_only() {
    let out = scan_large_files(RootStatus::Directory, &Vec::new()).expect("scan succeeds");
    assert_eq!(String::from_utf8(out).unwrap(), "File Name,Size,Full Path\n");
}

#[test]
fn header_comes_first_with_matches() {
    let entries = vec![file("/t/big.bin", MIN_FILE_SIZE + 1)];
    let out = scan_large_files_sequential(RootStatus::Directory, &entries).unwrap();
    let lines = output_lines(out);
    assert_eq!(lines[0], HEADER);
    assert_eq!(lines.len(), 2);
}

#[test]
fn big_small_and_unreadable_tree() {
    let entries = vec![
        dir("/t"),
        file("/t/big.bin", MIB_150),
        file("/t/small.bin", 50 * 1024 * 1024),
        dir("/t/locked"),
    ];
    let out = scan_large_files(RootStatus::Directory, &entries).expect("scan succeeds");
    let lines = output_lines(out);
    assert_eq!(lines.len(), 2);
    assert_eq!(lines[0], HEADER);
    assert_eq!(lines[1], "big.bin,157.29 MB,/t/big.bin");
}

#[test]
fn record_count_matches_large_file_count() {
    let entries = vec![
        dir("/t"),
        file("/t/a.bin", MIN_FILE_SIZE + 7),
        file("/t/b.bin", 12),
        file("/t/c.bin", MIN_FILE_SIZE * 3),
        file("/t/d.bin", MIN_FILE_SIZE),
    ];
    let matches = filter_entries(&entries);
    assert_eq!(matches.len(), 2);
    let out = render_report(&matches);
    assert_eq!(output_lines(out).len(), 3);
}

#[test]
fn parallel_and_sequential_agree_as_sets() {
    let mut entries = Vec::new();
    for i in 0..200u64 {
        entries.push(file(&format!("/t/f{}.bin", i), MIN_FILE_SIZE + i));
        entries.push(file(&format!("/t/g{}.bin", i), i));
    }
    let par = scan_large_files(RootStatus::Directory, &entries).unwrap();
    let seq = scan_large_files_sequential(RootStatus::Directory, &entries).unwrap();
    let mut par_lines = output_lines(par);
    let mut seq_lines = output_lines(seq);
    assert_eq!(par_lines[0], HEADER);
    assert_eq!(seq_lines[0], HEADER);
    par_lines.sort();
    seq_lines.sort();
    assert_eq!(par_lines, seq_lines);
}

#[test]
fn rescanning_unchanged_tree_gives_same_set() {
    let entries = vec![
        file("/t/x.bin", MIN_FILE_SIZE + 5),
        file("/t/y.bin", MIN_FILE_SIZE + 9),
        file("/t/z.bin", 3),
    ];
    let mut first = output_lines(scan_large_files(RootStatus::Directory, &entries).unwrap());
    let mut second = output_lines(scan_large_files(RootStatus::Directory, &entries).unwrap());
    first.sort();
    second.sort();
    assert_eq!(first, second);
}

#[test]
fn missing_root_fails_with_not_found() {
    let entries = vec![file("/t/big.bin", MIN_FILE_SIZE + 1)];
    let r = scan_large_files(RootStatus::Missing, &entries);
    assert_eq!(r.unwrap_err(), ScanError::RootNotFound);
    assert!(check_root(RootStatus::Missing).is_err());
}

#[test]
fn file_root_fails_distinguishably() {
    let r = scan_large_files(RootStatus::NotDirectory, &Vec::new());
    assert_eq!(r.unwrap_err(), ScanError::RootNotDirectory);
    let not_found = ScanError::RootNotFound.message();
    let not_dir = ScanError::RootNotDirectory.message();
    assert_eq!(not_found, "Start path does not exist.");
    assert_eq!(not_dir, "Start path is not a directory.");
    assert_ne!(not_found, not_dir);
}

#[test]
fn directory_root_passes_check() {
    assert!(check_root(RootStatus::Directory).is_ok());
    assert!(scan_large_files(RootStatus::Directory, &Vec::new()).is_ok());
}

#[test]
fn fields_with_commas_are_quoted() {
    let entries = vec![file("/t/we,ird.bin", MIB_150)];
    let out = scan_large_files_sequential(RootStatus::Directory, &entries).unwrap();
    let lines = output_lines(out);
    assert_eq!(lines.len(), 2);
    assert_eq!(lines[1], "\"we,ird.bin\",157.29 MB,\"/t/we,ird.bin\"");
}

#[test]
fn sequential_report_keeps_traversal_order() {
    let entries = vec![
        file("/t/first.bin", MIN_FILE_SIZE + 1),
        file("/t/second.bin", MIN_FILE_SIZE + 2),
    ];
    let out = scan_large_files_sequential(RootStatus::Directory, &entries).unwrap();
    let lines = output_lines(out);
    assert_eq!(lines[1], "first.bin,104.86 MB,/t/first.bin");
    assert_eq!(lines[2], "second.bin,104.86 MB,/t/second.bin");
}
