use simd_grep::engine::{
    ByteSeq, GrepEngine, GrepFlags, GrepOptions, MatchSeq, MatchSink, SearchError, Source,
    VecSink, COUNT_ONLY, LINE_NUMBER,
};
use simd_grep::io::chunker::ConfigError;

fn options(chunk_bytes: usize) -> GrepOptions {
    GrepOptions { chunk_bytes, ..Default::default() }
}

fn offsets(stream: &[u8], needle: &[u8], chunk_bytes: usize) -> Vec<u64> {
    let mut src: &[u8] = stream;
    let mut sink = VecSink::default();
    GrepEngine::new_literal(needle, options(chunk_bytes)).search(&mut src, &mut sink).unwrap();
    sink.offs
}

/// Every place at which `needle` lies in `stream`, found one place at a time.
fn naive(stream: &[u8], needle: &[u8]) -> Vec<u64> {
    let mut out = Vec::new();
    if needle.is_empty() || needle.len() > stream.len() {
        return out;
    }
    for at in 0..=stream.len() - needle.len() {
        if &stream[at..at + needle.len()] == needle {
            out.push(at as u64);
        }
    }
    out
}

/// A stream that repeats itself often, from a small generator.
fn noisy(len: usize, seed: u32) -> Vec<u8> {
    let mut state = seed;
    let mut out = Vec::with_capacity(len);
    for _ in 0..len {
        state = state.wrapping_mul(1_103_515_245).wrapping_add(12_345);
        out.push(b"ab"[((state >> 16) & 1) as usize]);
    }
    out
}

/// Gives `data`, then fails in place of reporting the end.
struct BreaksOff {
    data: Vec<u8>,
    pos: usize,
}

impl Source for BreaksOff {
    // The two that follow describe a source to the verifier; nothing runs them.
    fn remaining(&self) -> ByteSeq {
        unreachable!()
    }

    fn reliable(&self) -> bool {
        unreachable!()
    }

    fn read(&mut self, buf: &mut [u8]) -> Result<usize, std::io::Error> {
        let n = (self.data.len() - self.pos).min(buf.len());
        if n == 0 {
            return Err(std::io::Error::new(std::io::ErrorKind::UnexpectedEof, "cut"));
        }
        buf[..n].copy_from_slice(&self.data[self.pos..self.pos + n]);
        self.pos += n;
        Ok(n)
    }
}

/// Counts its reads.
struct Counted {
    data: Vec<u8>,
    pos: usize,
    reads: usize,
}

impl Source for Counted {
    // The two that follow describe a source to the verifier; nothing runs them.
    fn remaining(&self) -> ByteSeq {
        unreachable!()
    }

    fn reliable(&self) -> bool {
        unreachable!()
    }

    fn read(&mut self, buf: &mut [u8]) -> Result<usize, std::io::Error> {
        self.reads += 1;
        let n = (self.data.len() - self.pos).min(buf.len());
        buf[..n].copy_from_slice(&self.data[self.pos..self.pos + n]);
        self.pos += n;
        Ok(n)
    }
}

/// Keeps everything it is handed, the line too.
#[derive(Default)]
struct Ledger {
    events: Vec<(u64, u32, u32, u32)>,
}

impl MatchSink for Ledger {
    // The two that follow describe a sink to the verifier; nothing runs them.
    fn received(&self) -> MatchSeq {
        unreachable!()
    }

    fn ready(&self) -> bool {
        unreachable!()
    }

    fn on_match(&mut self, off: u64, len: u32, line_no: u32, file_id: u32) {
        self.events.push((off, len, line_no, file_id));
    }
}

#[test]
fn overlapping_occurrences_whatever_the_chunk_size() {
    for chunk in [1usize, 2, 3, 8, 5, 100] {
        assert_eq!(offsets(b"aaaaa", b"aaa", chunk), vec![0, 1, 2], "chunk size {}", chunk);
    }
}

#[test]
fn match_across_a_window_end_is_found_once() {
    let stream = b"AAAAANEEDLEBBBBB";
    for chunk in 1..=stream.len() {
        let mut src: &[u8] = stream;
        let mut sink = VecSink::default();
        GrepEngine::new_literal(b"NEEDLE", options(chunk)).search(&mut src, &mut sink).unwrap();
        assert_eq!(sink.offs, vec![5], "chunk size {}", chunk);
        assert_eq!(sink.lens, vec![6], "chunk size {}", chunk);
    }
}

#[test]
fn needle_with_a_byte_too_many_is_not_found() {
    // "NEEEDLE" holds three E's: the pattern "NEEDLE" is not in it.
    let stream = b"AAAAANEEEDLEBBBBB";
    for chunk in 1..=stream.len() {
        assert_eq!(offsets(stream, b"NEEDLE", chunk), Vec::<u64>::new(), "chunk size {}", chunk);
    }
    assert_eq!(offsets(stream, b"NEEEDLE", 9), vec![5]);
}

#[test]
fn two_matches_with_windows_of_eight() {
    let mut src: &[u8] = b"xxx-NEEDLE-yyy-NEEDLE-zzz";
    let mut sink = VecSink::default();
    GrepEngine::new_literal(b"NEEDLE", options(8)).search(&mut src, &mut sink).unwrap();
    assert_eq!(sink.offs, vec![4, 15]);
    assert_eq!(sink.lens, vec![6, 6]);
    assert_eq!(sink.file_ids, vec![0, 0]);
    assert!(src.is_empty());
}

#[test]
fn same_matches_whatever_the_chunk_size() {
    let stream = noisy(600, 7);
    for needle in [&b"a"[..], b"ab", b"aba", b"abab", b"bbabb", b"aaaaaaa"] {
        let whole = offsets(&stream, needle, stream.len() + 10);
        assert_eq!(whole, naive(&stream, needle));
        assert!(!whole.is_empty() || needle.len() > 5);
        for chunk in [1usize, 2, 3, 4, 5, 7, 16, 64, 599, 600, 601] {
            assert_eq!(offsets(&stream, needle, chunk), whole, "chunk size {}", chunk);
        }
    }
}

#[test]
fn offsets_are_those_of_the_whole_stream_in_memory() {
    let mut stream = noisy(5000, 99);
    stream.extend_from_slice(b"ccc");
    stream.extend_from_slice(&noisy(5000, 3));
    for needle in [&b"c"[..], b"cc", b"ccc", b"acc", b"ccb", b"cccc"] {
        let expected = naive(&stream, needle);
        assert_eq!(offsets(&stream, needle, 4096), expected);
        assert_eq!(offsets(&stream, needle, 5001), expected);
        assert_eq!(offsets(&stream, needle, 13), expected);
    }
    assert_eq!(offsets(&stream, b"ccc", 4096), vec![5000]);
    assert_eq!(offsets(&stream, b"cc", 4096), vec![5000, 5001]);
}

#[test]
fn single_byte_needle_over_many_windows() {
    assert_eq!(offsets(b"aXa", b"a", 1), vec![0, 2]);
    assert_eq!(offsets(b"aaaa", b"a", 1), vec![0, 1, 2, 3]);
    assert_eq!(offsets(b"aaaa", b"a", 3), vec![0, 1, 2, 3]);
}

#[test]
fn empty_needle_is_reported_once_at_the_start() {
    for stream in [&b""[..], b"x", b"xyz"] {
        let mut src: &[u8] = stream;
        let mut sink = VecSink::default();
        let opts = GrepOptions { chunk_bytes: 2, file_id: 9, ..Default::default() };
        GrepEngine::new_literal(b"", opts).search(&mut src, &mut sink).unwrap();
        assert_eq!(sink.offs, vec![0]);
        assert_eq!(sink.lens, vec![0]);
        assert_eq!(sink.file_ids, vec![9]);
        // Nothing was read.
        assert_eq!(src, stream);
    }
}

#[test]
fn empty_stream_has_no_match() {
    assert_eq!(offsets(b"", b"a", 1), Vec::<u64>::new());
    assert_eq!(offsets(b"", b"abc", 8), Vec::<u64>::new());
}

#[test]
fn needle_longer_than_stream_has_no_match() {
    assert_eq!(offsets(b"ab", b"abc", 1), Vec::<u64>::new());
    assert_eq!(offsets(b"ab", b"abc", 64), Vec::<u64>::new());
}

#[test]
fn needle_that_is_the_whole_stream() {
    assert_eq!(offsets(b"abc", b"abc", 1), vec![0]);
    assert_eq!(offsets(b"abc", b"abc", 3), vec![0]);
}

#[test]
fn stream_identifier_goes_with_every_match() {
    let mut src: &[u8] = b"abcabc";
    let mut sink = VecSink::default();
    let opts = GrepOptions { chunk_bytes: 2, file_id: 42, ..Default::default() };
    GrepEngine::new_literal(b"bc", opts).search(&mut src, &mut sink).unwrap();
    assert_eq!(sink.offs, vec![1, 4]);
    assert_eq!(sink.lens, vec![2, 2]);
    assert_eq!(sink.file_ids, vec![42, 42]);
}

#[test]
fn line_is_handed_over_as_unknown() {
    let opts = GrepOptions { chunk_bytes: 2, file_id: 42, ..Default::default() };
    let mut src: &[u8] = b"abcabc";
    let mut ledger = Ledger::default();
    GrepEngine::new_literal(b"bc", opts).search(&mut src, &mut ledger).unwrap();
    assert_eq!(ledger.events, vec![(1, 2, 0, 42), (4, 2, 0, 42)]);

    let mut src: &[u8] = b"abcabc";
    let mut ledger = Ledger::default();
    GrepEngine::new_literal(b"", opts).search(&mut src, &mut ledger).unwrap();
    assert_eq!(ledger.events, vec![(0, 0, 0, 42)]);

    let mut ledger = Ledger::default();
    GrepEngine::new_literal(b"c", opts).scan_window(10, b"cc", &mut ledger);
    assert_eq!(ledger.events, vec![(10, 1, 0, 42), (11, 1, 0, 42)]);
}

#[test]
fn sink_keeps_what_it_had() {
    let mut sink = VecSink::default();
    sink.on_match(100, 1, 7, 3);
    let mut src: &[u8] = b"zz";
    GrepEngine::new_literal(b"z", options(1)).search(&mut src, &mut sink).unwrap();
    assert_eq!(sink.offs, vec![100, 0, 1]);
    assert_eq!(sink.lens, vec![1, 1, 1]);
    assert_eq!(sink.file_ids, vec![3, 0, 0]);
}

#[test]
fn flags_change_nothing() {
    let flags = GrepFlags::count_only().union(GrepFlags::line_number());
    let opts = GrepOptions { chunk_bytes: 3, flags, file_id: 0 };
    let mut src: &[u8] = b"aaaaa";
    let mut sink = VecSink::default();
    GrepEngine::new_literal(b"aaa", opts).search(&mut src, &mut sink).unwrap();
    assert_eq!(sink.offs, vec![0, 1, 2]);
}

#[test]
fn zero_chunk_size_is_refused_before_anything_is_read() {
    for needle in [&b"abc"[..], b""] {
        let mut src = Counted { data: b"abcabc".to_vec(), pos: 0, reads: 0 };
        let mut sink = VecSink::default();
        let done = GrepEngine::new_literal(needle, options(0)).search(&mut src, &mut sink);
        assert!(matches!(done, Err(SearchError::Config(ConfigError::ZeroChunkSize))));
        assert!(sink.offs.is_empty());
        assert_eq!(src.reads, 0);
    }
}

#[test]
fn chunk_size_beyond_any_buffer_is_refused() {
    let mut src: &[u8] = b"abcabc";
    let mut sink = VecSink::default();
    let done = GrepEngine::new_literal(b"abc", options(usize::MAX)).search(&mut src, &mut sink);
    assert!(matches!(done, Err(SearchError::Config(ConfigError::WindowTooLarge))));
    assert!(sink.offs.is_empty());
    assert_eq!(src, b"abcabc");
}

#[test]
fn read_error_ends_the_search_and_keeps_what_was_found() {
    let mut src = BreaksOff { data: b"ab-ab-ab".to_vec(), pos: 0 };
    let mut sink = VecSink::default();
    let done = GrepEngine::new_literal(b"ab", options(3)).search(&mut src, &mut sink);
    match done {
        Err(SearchError::Io(e)) => assert_eq!(e.kind(), std::io::ErrorKind::UnexpectedEof),
        _ => panic!("the search should have failed"),
    }
    // Windows "ab-" and "-ab-" were scanned; the last window was not filled.
    assert_eq!(sink.offs, vec![0, 3]);
    // The source was read to the byte at which it failed, and no further.
    assert_eq!(src.pos, 8);
}

#[test]
fn vec_sink_keeps_three_parts() {
    let mut sink = VecSink::default();
    sink.on_match(5, 6, 0, 1);
    sink.on_match(9, 6, 12, 2);
    assert_eq!(sink.offs, vec![5, 9]);
    assert_eq!(sink.lens, vec![6, 6]);
    assert_eq!(sink.file_ids, vec![1, 2]);
}

#[test]
fn empty_needle_reads_nothing() {
    let mut src = Counted { data: b"abc".to_vec(), pos: 0, reads: 0 };
    let mut sink = VecSink::default();
    GrepEngine::new_literal(b"", options(4)).search(&mut src, &mut sink).unwrap();
    assert_eq!(sink.offs, vec![0]);
    assert_eq!(src.reads, 0);
    assert_eq!(src.pos, 0);
}

#[test]
fn one_window_scan_reports_from_its_base() {
    let eng = GrepEngine::new_literal(b"aa", options(8));
    let mut sink = VecSink::default();
    eng.scan_window(1000, b"aaa-aa", &mut sink);
    assert_eq!(sink.offs, vec![1000, 1001, 1004]);
    assert_eq!(sink.lens, vec![2, 2, 2]);
    let mut none = VecSink::default();
    eng.scan_window(5, b"", &mut none);
    eng.scan_window(5, b"a", &mut none);
    eng.scan_window(5, b"bab", &mut none);
    assert!(none.offs.is_empty());
}

#[test]
fn one_window_scan_is_what_a_search_reports() {
    let stream = noisy(300, 21);
    let eng = GrepEngine::new_literal(b"abba", options(5));
    let mut whole = VecSink::default();
    eng.scan_window(0, &stream, &mut whole);
    assert_eq!(whole.offs, offsets(&stream, b"abba", 5));
    assert_eq!(whole.offs, naive(&stream, b"abba"));
}

#[test]
fn offsets_stop_at_the_largest() {
    let eng = GrepEngine::new_literal(b"a", options(8));
    let mut sink = VecSink::default();
    eng.scan_window(u64::MAX - 1, b"aXaa", &mut sink);
    assert_eq!(sink.offs, vec![u64::MAX - 1, u64::MAX, u64::MAX]);
}

#[test]
fn default_options() {
    let opts = GrepOptions::default();
    assert_eq!(opts.chunk_bytes, 8 * 1024 * 1024);
    assert_eq!(opts.file_id, 0);
    assert_eq!(opts.flags.bits(), 0);
}

#[test]
fn default_chunk_size_over_a_larger_stream() {
    // Twelve MiB with the pattern across the end of the first window.
    let mut stream = vec![b'.'; 12 * 1024 * 1024];
    let at = 8 * 1024 * 1024 - 3;
    stream[at..at + 6].copy_from_slice(b"NEEDLE");
    stream[0..6].copy_from_slice(b"NEEDLE");
    let last = stream.len() - 6;
    stream[last..].copy_from_slice(b"NEEDLE");
    let mut src: &[u8] = &stream;
    let mut sink = VecSink::default();
    GrepEngine::new_literal(b"NEEDLE", GrepOptions::default()).search(&mut src, &mut sink).unwrap();
    assert_eq!(sink.offs, vec![0, at as u64, last as u64]);
}

#[test]
fn flags_are_sets_of_switches() {
    let none = GrepFlags::empty();
    let count = GrepFlags::count_only();
    let lines = GrepFlags::line_number();
    let both = count.union(lines);
    assert_eq!(none.bits(), 0);
    assert_eq!(count.bits(), COUNT_ONLY);
    assert_eq!(lines.bits(), LINE_NUMBER);
    assert_eq!(both.bits(), 3);
    assert!(both.contains(count));
    assert!(both.contains(lines));
    assert!(both.contains(none));
    assert!(count.contains(count));
    assert!(!count.contains(lines));
    assert!(!count.contains(both));
    assert!(!none.contains(count));
    assert_eq!(GrepFlags::from_bits_truncate(0xFFFF_FFFF).bits(), 3);
    assert_eq!(GrepFlags::from_bits_truncate(6).bits(), 2);
    assert_eq!(GrepFlags::from_bits_truncate(1).bits(), 1);
}
