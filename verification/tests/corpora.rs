use std::path::PathBuf;

use logpushi::discovery::{
    is_excluded_name, sort_files, DiscoveryError, EntryAction, EntryKind,
    FileVerdict, LineCounter, LogFile, Walk,
};
use logpushi::inventory::{coverage_header, Coverage, Inventory};

fn file(rel: &str, size: u64) -> LogFile {
    LogFile {
        path: PathBuf::from("/root").join(rel),
        rel_path: rel.to_string(),
        size,
    }
}

#[test]
fn excluded_names() {
    for name in [".DS_Store", ".", "README.md", "ReadMe.MD", "anomaly_labels.txt", "_LABEL.TXT"] {
        assert!(is_excluded_name(name), "{name}");
    }
    for name in ["real.log", "README", "label.txt", "a.b", "labels.txt.log"] {
        assert!(!is_excluded_name(name), "{name}");
    }
}

/// A tree of directories: each entry has its directory, its name, its kind, its
/// size and whether it can be read.
fn walk(tree: &[(&str, &str, EntryKind, u64, bool)]) -> Vec<String> {
    let mut w = Walk::new(PathBuf::from("/root"));
    while let Some((dir, rel)) = w.next_dir() {
        for (parent, name, kind, size, readable) in tree {
            if *parent != rel {
                continue;
            }
            let path = dir.join(name);
            if w.entry(path.clone(), &rel, name, *kind) == EntryAction::Inspect {
                w.file(path, &rel, name, *size, *readable);
            }
        }
    }
    let files = w.finish();
    for f in &files {
        assert_eq!(f.path, PathBuf::from("/root").join(&f.rel_path));
    }
    files.iter().map(|f| f.rel_str()).collect()
}

#[test]
fn nested_files_come_sorted() {
    let names = walk(&[
        ("", "sub", EntryKind::Dir, 0, true),
        ("", "b.log", EntryKind::File, 2, true),
        ("sub", "deeper", EntryKind::Dir, 0, true),
        ("sub", "a.log", EntryKind::File, 2, true),
        ("sub/deeper", "c.log", EntryKind::File, 2, true),
    ]);
    assert_eq!(names, ["b.log", "sub/a.log", "sub/deeper/c.log"]);
}

#[test]
fn what_is_no_log_is_left_out() {
    let names = walk(&[
        ("", ".DS_Store", EntryKind::File, 4, true),
        ("", "README.md", EntryKind::File, 4, true),
        ("", "anomaly_labels.txt", EntryKind::File, 6, true),
        ("", "empty.log", EntryKind::File, 0, true),
        ("", "locked.log", EntryKind::File, 5, false),
        ("", "link.log", EntryKind::Other, 5, true),
        ("", "real.log", EntryKind::File, 5, true),
    ]);
    assert_eq!(names, ["real.log"]);
    assert!(walk(&[]).is_empty());
    let mut w = Walk::new(PathBuf::new());
    let p = PathBuf::new;
    assert_eq!(w.entry(p(), "", "x", EntryKind::Other), EntryAction::Skip);
    assert_eq!(w.file(p(), "", "x", 0, false), FileVerdict::Empty);
    assert_eq!(w.file(p(), "", "x", 1, false), FileVerdict::Unreadable);
    assert_eq!(w.file(p(), "", "x", 1, true), FileVerdict::Kept);
}

#[test]
fn paths_are_ordered_part_by_part() {
    let rels = ["a.log", "a/z", "a-b", "b", "a", "a/b/c", "é", "A", "a/b"];
    let mut want: Vec<PathBuf> = rels.iter().map(PathBuf::from).collect();
    want.sort();
    let got: Vec<PathBuf> = sort_files(rels.iter().map(|r| file(r, 1)).collect())
        .iter()
        .map(|f| PathBuf::from(f.rel_str()))
        .collect();
    assert_eq!(got, want);
}

#[test]
fn discovery_errors() {
    let e = DiscoveryError::MissingDir("d".to_string());
    assert_eq!(e.message(), "log directory d does not exist");
    let e = DiscoveryError::NotADirectory("d".to_string());
    assert_eq!(e.message(), "log directory d is not a directory");
    assert_eq!(DiscoveryError::Io("denied".to_string()).message(), "denied");
}

fn lines(chunks: &[&[u8]]) -> u64 {
    let mut c = LineCounter::new();
    for chunk in chunks {
        c.take(chunk);
    }
    c.lines()
}

#[test]
fn lines_are_counted_over_chunks() {
    assert_eq!(lines(&[b"l1\nl2\nl3\n"]), 3);
    assert_eq!(lines(&[b"l1\nl2"]), 2);
    assert_eq!(lines(&[b"l", b"1\nl2", b"\n", b"", b"l3\n"]), 3);
    assert_eq!(lines(&[]), 0);
    assert_eq!(lines(&[b"\n\n"]), 2);
    assert_eq!(lines(&[b"a\n", b"b"]), lines(&[b"a\nb"]));
}

#[test]
fn inventories() {
    let mut inv = Inventory::new(true);
    assert_eq!(inv.header(), "   LINES           BYTES  FILE");
    let line = inv.entry(&file("sub/a.log", 1234), Some(56));
    assert_eq!(line, "      56            1234  sub/a.log");
    inv.entry(&file("b.log", 6), Some(4));
    assert_eq!(inv.footer(), "files: 2, bytes: 1240, lines: 60");
    let mut inv = Inventory::new(false);
    let line = inv.entry(&file("b.log", 1_000_000_000_000_000_000), None);
    assert_eq!(line, "       - 1000000000000000000  b.log");
    assert_eq!(inv.footer(), "files: 1, bytes: 1000000000000000000, lines: n/a");
}

#[test]
fn detection_coverage() {
    let mut c = Coverage::new();
    for line in ["Dec 10 06:55:46 h x", "2015-10-17T15:37:56Z", "nothing"] {
        assert!(!c.complete(4));
        c.line(line);
    }
    c.unreadable_line();
    assert!(c.complete(4) && !c.complete(5));
    let want = Coverage {
        sampled: 3,
        detected: 2,
        year_inferred: 1,
        read_errors: 1,
    };
    assert_eq!(c, want);
    assert_eq!(coverage_header(), "COVERAGE   SAMPLED  FILE                ");
    assert_eq!(
        c.report("66.7", "a.log"),
        "     66.7%      3  a.log                (year inferred: 1, read errors: 1)"
    );
    assert_eq!(Coverage::unopened().read_errors, 1);
}
