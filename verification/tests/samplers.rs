use std::path::PathBuf;

use logpushi::discovery::LogFile;
use logpushi::sampling::{
    decode_line, pick_file, replay_offset, seed_of_time, EventSource, Place, ReplaySampler,
    Rng, SampleError, SyntheticSampler,
};
use logpushi::lines::{end_of_line, feeds_before, LineIndex, BLOCK};
use logpushi::event::RawEvent;

#[test]
fn decode_line_trims_cr_lf() {
    assert_eq!(decode_line(b"hello\r\n".to_vec()), "hello");
    assert_eq!(decode_line(b"hello\n".to_vec()), "hello");
}

#[test]
fn decode_line_keeps_the_rest() {
    assert_eq!(decode_line(b"".to_vec()), "");
    assert_eq!(decode_line(b"\n\r\n".to_vec()), "");
    assert_eq!(decode_line(b" a\rb ".to_vec()), " a\rb ");
    assert_eq!(decode_line("é\n".as_bytes().to_vec()), "é");
    assert_eq!(decode_line(b"a\xffb\n".to_vec()), "a\u{FFFD}b");
}

#[test]
fn split_mix_draws() {
    let mut rng = Rng::new(1234567);
    let drawn: Vec<u64> = (0..5).map(|_| rng.next_u64()).collect();
    assert_eq!(
        drawn,
        vec![
            6457827717110365317,
            3203168211198807973,
            9817491932198370423,
            4593380528125082431,
            16408922859458223821
        ]
    );
}

#[test]
fn draws_below_a_bound() {
    let mut a = Rng::new(7);
    let mut b = Rng::new(7);
    for n in 1..200 {
        let x = a.below(n);
        assert!(x < n);
        assert_eq!(x, b.next_u64() % n);
    }
    // Nothing is drawn below zero.
    assert_eq!(a.below(0), 0);
    assert_eq!(a.next_u64(), b.next_u64());
}

#[test]
fn seeds() {
    assert_eq!(
        Rng::from_seed_opt(Some(5)).next_u64(),
        Rng::new(5).next_u64()
    );
    let _ = Rng::from_seed_opt(None).next_u64();
    assert_eq!(seed_of_time(Some(17)), 17);
    assert_eq!(seed_of_time(Some((1u128 << 64) + 3)), 3);
    assert_eq!(seed_of_time(None), 0x9E37_79B9_7F4A_7C15);
}

#[test]
fn replay_picks_a_file_and_an_offset() {
    let mut rng = Rng::new(3);
    assert_eq!(pick_file(&mut rng, 0), None);
    for _ in 0..50 {
        assert!(pick_file(&mut rng, 3).unwrap() < 3);
    }
    assert_eq!(replay_offset(&mut rng, false, 10_000), None);
    assert_eq!(replay_offset(&mut rng, true, 4096), None);
    for _ in 0..50 {
        assert!(replay_offset(&mut rng, true, 4097).unwrap() < 4096);
    }
}

/// The lines of a file, replayed.
struct Lines {
    lines: Vec<&'static [u8]>,
    next: usize,
    sampler: ReplaySampler,
}

impl Lines {
    fn new(lines: Vec<&'static [u8]>, wrap: bool) -> Self {
        Lines {
            lines,
            next: 0,
            sampler: ReplaySampler::new("sub/Apache.log", wrap),
        }
    }
}

impl EventSource for Lines {
    fn next(&mut self) -> Result<Option<RawEvent>, SampleError> {
        if !self.sampler.wants_line() {
            return Ok(None);
        }
        let read = |i: usize| self.lines.get(i).map(|b| b.to_vec()).unwrap_or_default();
        let here = read(self.next);
        let over = self.sampler.starts_over(&here);
        let first = if over { read(0) } else { Vec::new() };
        self.next = if over { 1 } else { self.next + 1 };
        Ok(self.sampler.next(here, first))
    }
}

fn numbered(source: &mut dyn EventSource, n: usize) -> Vec<(String, u64)> {
    let mut out = Vec::new();
    for _ in 0..n {
        match source.next() {
            Ok(Some(e)) => out.push((e.line, e.line_no)),
            _ => break,
        }
    }
    out
}

#[test]
fn replay_wraps_around() {
    let mut s = Lines::new(vec![b"one\n", b"two\n"], true);
    let got = numbered(&mut s, 5);
    let want = [("one", 1), ("two", 2), ("one", 1), ("two", 2), ("one", 1)];
    assert_eq!(got.len(), 5);
    for (g, w) in got.iter().zip(want.iter()) {
        assert_eq!((g.0.as_str(), g.1), *w);
    }
}

#[test]
fn replay_from_within_the_file_keeps_the_numbers() {
    for wrap in [true, false] {
        let mut s = Lines::new(vec![b"one\n", b"two\n", b"three\n"], wrap);
        s.next = 2;
        s.sampler.start_behind(2);
        let got: Vec<u64> = numbered(&mut s, 5).iter().map(|g| g.1).collect();
        let want: &[u64] = if wrap { &[3, 1, 2, 3, 1] } else { &[3] };
        assert_eq!(got, want);
    }
}

#[test]
fn replay_stops_without_wrap() {
    let mut s = Lines::new(vec![b"one\n", b"two"], false);
    assert_eq!(numbered(&mut s, 5).len(), 2);
    assert!(!s.sampler.wants_line());
    assert!(s.sampler.next(b"more\n".to_vec(), b"one\n".to_vec()).is_none());
    let mut boxed: Box<dyn EventSource> = Box::new(Lines::new(vec![b"x"], false));
    assert!(matches!(boxed.next(), Ok(Some(_))));
    assert!(matches!(boxed.next(), Ok(None)));
}

#[test]
fn replay_of_nothing_is_exhausted() {
    let mut s = Lines::new(vec![], true);
    assert_eq!(numbered(&mut s, 5).len(), 0);
    assert!(!s.sampler.wants_line());
}

#[test]
fn replayed_events_name_their_source() {
    let mut s = Lines::new(vec![b"one\r\n"], true);
    let e = s.next().unwrap_or(None).unwrap();
    assert_eq!(e.line, "one");
    assert_eq!(e.source_file, "sub/Apache.log");
    assert_eq!(e.source_type, "apache");
}

fn file(rel: &str, size: u64) -> LogFile {
    LogFile {
        path: PathBuf::from(rel),
        rel_path: rel.to_string(),
        size,
    }
}

#[test]
fn synthetic_places_follow_the_seed() {
    let files = || vec![file("a.log", 100), file("BGL/b.log", 1)];
    let mut s = SyntheticSampler::new(files(), Rng::new(9), "logs").ok().unwrap();
    let mut rng = Rng::new(9);
    for _ in 0..20 {
        s.begin();
        for tried in 0..9 {
            let place = s.next_place().unwrap();
            let i = rng.below(2) as usize;
            let size = [100u64, 1][i];
            let offset = if tried < 8 { rng.below(size - 1) } else { 0 };
            assert_eq!(place, Place { file: i, offset });
            assert!(place.offset < size);
        }
        assert_eq!(s.next_place(), None);
    }
    let e = s.event(Place { file: 1, offset: 0 }, 4, b"x\n".to_vec());
    assert_eq!((e.line.as_str(), e.source_file.as_str()), ("x", "BGL/b.log"));
    assert_eq!((e.source_type, e.line_no), ("bgl", 4));
}

#[test]
fn the_first_full_line_at_or_after_a_place() {
    let s = SyntheticSampler::new(vec![file("a.log", 6)], Rng::new(1), "logs").ok().unwrap();
    let content = b"a\nb\nc\n".to_vec();
    let read = |offset: u64, from: u64, feeds: u64| {
        let window = content[from as usize..].to_vec();
        s.read_from(Place { file: 0, offset }, from, feeds, &window)
            .map(|e| (e.line, e.line_no))
    };
    let line = |text: &str, n: u64| Some((text.to_string(), n));
    assert_eq!(read(0, 0, 0), line("a", 1));
    assert_eq!(read(1, 0, 0), line("b", 2));
    assert_eq!(read(2, 0, 0), line("b", 2));
    assert_eq!(read(3, 0, 0), line("c", 3));
    assert_eq!(read(4, 0, 0), line("c", 3));
    assert_eq!(read(5, 0, 0), None);
    // The same from a window that starts further on.
    assert_eq!(read(3, 2, 1), line("c", 3));
    assert_eq!(read(4, 3, 1), line("c", 3));
    assert_eq!(read(5, 4, 2), None);
}

#[test]
fn equal_seeds_sample_equal_lines() {
    let contents: [&[u8]; 2] = [b"alpha one\nalpha two\nalpha three\n", b"beta"];
    let sample = |seed: u64| {
        let files = vec![file("a.log", 34), file("b.log", 4)];
        let mut s = SyntheticSampler::new(files, Rng::new(seed), "logs").ok().unwrap();
        let mut out = Vec::new();
        for _ in 0..20 {
            s.begin();
            let e = loop {
                let place = s.next_place().unwrap();
                let window = contents[place.file].to_vec();
                if let Some(e) = s.read_from(place, 0, 0, &window) {
                    break e;
                }
            };
            out.push((e.source_file, e.line, e.line_no));
        }
        out
    };
    assert_eq!(sample(9), sample(9));
    assert_ne!(sample(9), sample(10));
    for (source, line, n) in sample(9) {
        let content = contents[if source == "a.log" { 0 } else { 1 }];
        let all: Vec<&[u8]> = content.split(|b| *b == 10).collect();
        assert_eq!(all[n as usize - 1], line.as_bytes());
    }
}

#[test]
fn lines_end_behind_their_line_feeds() {
    let b = b"ab\n\nc".to_vec();
    let ends: Vec<usize> = (0..=5).map(|s| end_of_line(&b, s)).collect();
    assert_eq!(ends, [3, 3, 3, 4, 5, 5]);
    let feeds: Vec<u64> = (0..=5).map(|n| feeds_before(&b, n)).collect();
    assert_eq!(feeds, [0, 0, 0, 1, 2, 2]);
}

#[test]
fn line_feeds_are_indexed_by_block() {
    let block = BLOCK as usize;
    let mut content = vec![b'x'; 2 * block];
    content[3] = 10;
    content[block - 1] = 10;
    content[block] = 10;
    let mut index = LineIndex::new();
    assert_eq!((index.covered(), index.block_of(5), index.block_of(BLOCK)), (0, (0, 0), (0, 0)));
    index.extend(&content[..block].to_vec());
    assert_eq!((index.covered(), index.block_of(BLOCK + 1)), (BLOCK, (BLOCK, 2)));
    index.extend(&content[block..].to_vec());
    assert_eq!(index.block_of(BLOCK - 1), (0, 0));
    assert_eq!(index.block_of(2 * BLOCK - 1), (BLOCK, 2));
    assert_eq!(index.block_of(u64::MAX), (2 * BLOCK, 3));
}

#[test]
fn empty_files_have_no_place() {
    let mut s = SyntheticSampler::new(vec![file("a", 0)], Rng::new(1), "logs")
        .ok()
        .unwrap();
    s.begin();
    assert_eq!(s.next_place(), None);
}

#[test]
fn sampling_errors() {
    match SyntheticSampler::new(vec![], Rng::new(1), "logs") {
        Err(e) => assert_eq!(e.message(), "no eligible log files found under logs"),
        Ok(_) => panic!("no files"),
    }
    let e = SampleError::FileRead("a.log".to_string(), "denied".to_string());
    assert_eq!(e.message(), "file a.log is not readable: denied");
}
