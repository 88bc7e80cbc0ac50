//! The scan driver: the pattern and its options, the source it reads from
//! and the sink it reports to.

use vstd::prelude::*;
use crate::io::chunker::{saturate, Chunker, ConfigError};
use crate::occurrence::{
    all_matches, lemma_all_matches_exact, lemma_matches_between_exact,
    lemma_matches_between_split, lemma_matches_between_stable, lemma_matches_complete,
    lemma_matches_in_window, lemma_occurs_in_subrange, matches_between, memmem_find, occurs_at,
};

verus! {

/// `std::io::Error`, carried through unopened: the library hands a failed
/// read back to its caller as the source gave it.
#[verifier::external_type_specification]
#[verifier::external_body]
pub struct ExIoError(std::io::Error);

/// One reported occurrence.
#[derive(Clone, Copy, Debug, PartialEq, Eq)]
pub struct Match {
    /// Offset of the first byte of the occurrence in the whole stream.
    pub offset: u64,
    /// Length of the occurrence in bytes.
    pub len: u32,
    /// Line of the occurrence, counted from 1; 0 where it is not known.
    pub line_no: u32,
    /// The stream identifier that the search was given.
    pub file_id: u32,
}

/// A run of reported occurrences, as contracts speak of it. The name is
/// here for sinks written outside verified code, which have to name the
/// type of `MatchSink::received`.
pub type MatchSeq = Seq<Match>;

/// A run of bytes, as contracts speak of it. The name is here for sources
/// written outside verified code, which have to name the type of
/// `Source::remaining`.
pub type ByteSeq = Seq<u8>;

/// Receives the occurrences that a search finds, one call for each.
///
/// A sink is described by the occurrences it has received. It need not keep
/// the line of an occurrence: it has received each with the line it was
/// handed or with an unknown line, so an occurrence handed over with an
/// unknown line is received with one. Nothing checks a sink written outside
/// verified code against this contract; what is proved of a search holds of
/// sinks that meet it.
pub trait MatchSink {
    /// Everything this sink has been handed so far, oldest first.
    spec fn received(&self) -> MatchSeq;

    /// The sink is in a state in which it can take another occurrence.
    spec fn ready(&self) -> bool;

    /// Takes one occurrence: its offset in the whole stream, its length, its
    /// line (0 for unknown) and the identifier of the stream.
    fn on_match(&mut self, off: u64, len: u32, line_no: u32, file_id: u32)
        requires
            old(self).ready(),
        ensures
            final(self).ready(),
            final(self).received().len() == old(self).received().len() + 1,
            final(self).received().drop_last() == old(self).received(),
            final(self).received().last().offset == off,
            final(self).received().last().len == len,
            final(self).received().last().file_id == file_id,
            final(self).received().last().line_no == line_no || final(self).received().last().line_no
                == 0,
    ;
}

/// A stream of bytes that is read front to back, a piece at a time.
///
/// A source is described by the bytes it has yet to hand out. For a source
/// that holds its bytes, that is what it holds; for one that is fed from
/// elsewhere, it is what will have come by the time the source reports its
/// end. Each successful read takes a piece off the front, a read that fails
/// takes nothing, and a read that returns no bytes into a buffer with room
/// reports the end of the stream. The library does not read a source again
/// after that. Nothing checks a source written outside verified code
/// against this contract; what is proved of a search holds of sources that
/// meet it.
pub trait Source {
    /// The bytes that this source has yet to hand out, in order, up to the
    /// point where it reports its end.
    spec fn remaining(&self) -> ByteSeq;

    /// Reads of this source cannot fail.
    spec fn reliable(&self) -> bool;

    /// Copies the next bytes of the stream to the front of `buf` and returns
    /// how many. It may hand out fewer than `buf` has room for; it hands out
    /// none only when `buf` has no room or the stream is at its end. A read
    /// that fails has taken no byte from the stream.
    fn read(&mut self, buf: &mut [u8]) -> (got: Result<usize, std::io::Error>)
        ensures
            final(buf)@.len() == old(buf)@.len(),
            old(self).reliable() ==> got is Ok && final(self).reliable(),
            got matches Ok(n) ==> {
                &&& n <= old(buf)@.len()
                &&& n <= old(self).remaining().len()
                &&& n == 0 ==> old(buf)@.len() == 0 || old(self).remaining().len() == 0
                &&& final(buf)@.take(n as int) == old(self).remaining().take(n as int)
                &&& final(self).remaining() == old(self).remaining().skip(n as int)
            },
            got is Err ==> final(self).remaining() == old(self).remaining(),
    ;
}

/// A byte slice is a source that hands out its bytes from the front and
/// shrinks to what is left.
impl<'a> Source for &'a [u8] {
    open spec fn remaining(&self) -> Seq<u8> {
        (*self)@
    }

    open spec fn reliable(&self) -> bool {
        true
    }

    fn read(&mut self, buf: &mut [u8]) -> (got: Result<usize, std::io::Error>) {
        let avail: usize = self.len();
        let room: usize = buf.len();
        let n: usize = if avail < room {
            avail
        } else {
            room
        };
        let mut i: usize = 0;
        while i < n
            invariant
                i <= n,
                n <= self@.len(),
                n <= buf@.len(),
                buf@.len() == old(buf)@.len(),
                *self == *old(self),
                buf@.take(i as int) == self@.take(i as int),
            decreases n - i,
        {
            buf[i] = self[i];
            i = i + 1;
            assert(buf@.take(i as int) =~= self@.take(i as int));
        }
        let ghost before = self@;
        *self = vstd::slice::slice_subrange(*self, n, avail);
        assert(self@ =~= before.skip(n as int));
        Ok(n)
    }
}

/// A sink that keeps the offset, the length and the stream identifier of
/// each occurrence it is handed, one vector for each, all three of one
/// length. It does not keep the line: what it has received, it has received
/// with an unknown line.
#[derive(Debug)]
pub struct VecSink {
    pub offs: Vec<u64>,
    pub lens: Vec<u32>,
    pub file_ids: Vec<u32>,
}

impl Default for VecSink {
    fn default() -> (sink: Self)
        ensures
            sink.ready(),
            sink.received() == Seq::<Match>::empty(),
            sink.offs@ == Seq::<u64>::empty(),
            sink.lens@ == Seq::<u32>::empty(),
            sink.file_ids@ == Seq::<u32>::empty(),
    {
        let sink = VecSink { offs: Vec::new(), lens: Vec::new(), file_ids: Vec::new() };
        assert(sink.received() =~= Seq::<Match>::empty());
        sink
    }
}

impl MatchSink for VecSink {
    open spec fn received(&self) -> MatchSeq {
        Seq::new(
            self.offs@.len(),
            |k: int|
                Match {
                    offset: self.offs@[k],
                    len: self.lens@[k],
                    line_no: 0,
                    file_id: self.file_ids@[k],
                },
        )
    }

    open spec fn ready(&self) -> bool {
        &&& self.lens@.len() == self.offs@.len()
        &&& self.file_ids@.len() == self.offs@.len()
    }

    fn on_match(&mut self, off: u64, len: u32, line_no: u32, file_id: u32)
        ensures
            final(self).offs@ == old(self).offs@.push(off),
            final(self).lens@ == old(self).lens@.push(len),
            final(self).file_ids@ == old(self).file_ids@.push(file_id),
    {
        self.offs.push(off);
        self.lens.push(len);
        self.file_ids.push(file_id);
        assert(self.received().drop_last() =~= old(self).received());
    }
}

/// Bit of [`GrepFlags`]: only count the occurrences.
pub const COUNT_ONLY: u32 = 1;

/// Bit of [`GrepFlags`]: report line numbers. Kept for later; it changes
/// nothing yet.
pub const LINE_NUMBER: u32 = 2;

/// A set of switches for a search, one bit each.
#[derive(Clone, Copy, Debug)]
pub struct GrepFlags {
    bits: u32,
}

impl GrepFlags {
    /// The bits of the switches that are on.
    pub closed spec fn view(&self) -> u32 {
        self.bits
    }

    /// No switch is on.
    pub fn empty() -> (flags: Self)
        ensures
            flags@ == 0,
    {
        GrepFlags { bits: 0 }
    }

    /// The switch that asks for a count only, and no other.
    pub fn count_only() -> (flags: Self)
        ensures
            flags@ == COUNT_ONLY,
    {
        GrepFlags { bits: COUNT_ONLY }
    }

    /// The switch that asks for line numbers, and no other.
    pub fn line_number() -> (flags: Self)
        ensures
            flags@ == LINE_NUMBER,
    {
        GrepFlags { bits: LINE_NUMBER }
    }

    /// The switches whose bits are set in `bits`; bits that name no switch
    /// are dropped.
    pub fn from_bits_truncate(bits: u32) -> (flags: Self)
        ensures
            flags@ == bits & (COUNT_ONLY | LINE_NUMBER),
    {
        GrepFlags { bits: bits & (COUNT_ONLY | LINE_NUMBER) }
    }

    /// The bits of the switches that are on.
    pub fn bits(&self) -> (bits: u32)
        ensures
            bits == self@,
    {
        self.bits
    }

    /// Every switch of `other` is on in `self`.
    pub fn contains(&self, other: GrepFlags) -> (yes: bool)
        ensures
            yes <==> self@ & other@ == other@,
    {
        self.bits & other.bits == other.bits
    }

    /// The switches that are on in `self` or in `other`.
    pub fn union(self, other: GrepFlags) -> (flags: Self)
        ensures
            flags@ == self@ | other@,
    {
        GrepFlags { bits: self.bits | other.bits }
    }
}

/// What a search is run with.
#[derive(Clone, Copy, Debug)]
pub struct GrepOptions {
    /// How many new bytes a window takes in at most. It changes how the
    /// stream is read, never what is found.
    pub chunk_bytes: usize,
    /// Switches. None of them changes what is reported.
    pub flags: GrepFlags,
    /// Identifier of the stream, handed on with every occurrence.
    pub file_id: u32,
}

impl Default for GrepOptions {
    fn default() -> (opts: Self)
        ensures
            opts.chunk_bytes == 8 * 1024 * 1024,
            opts.flags@ == 0,
            opts.file_id == 0,
    {
        GrepOptions { chunk_bytes: 8 * 1024 * 1024, flags: GrepFlags::empty(), file_id: 0 }
    }
}

/// Why a search ended early.
#[derive(Debug)]
pub enum SearchError {
    /// The options cannot be searched with.
    Config(ConfigError),
    /// The source failed; this is its error.
    Io(std::io::Error),
}

/// The occurrences at `starts`, counted from `base`, as they are reported:
/// each with the length and stream identifier given, the line unknown, and
/// the offset held at the largest `u64` where it would pass it.
pub open spec fn reports(starts: Seq<int>, base: int, len: u32, file_id: u32) -> Seq<Match> {
    Seq::new(
        starts.len(),
        |k: int| Match { offset: saturate(base + starts[k]), len, line_no: 0, file_id },
    )
}

/// Reporting two lists one after the other reports their concatenation.
pub proof fn lemma_reports_concat(
    first: Seq<int>,
    second: Seq<int>,
    base: int,
    len: u32,
    file_id: u32,
)
    ensures
        reports(first + second, base, len, file_id) == reports(first, base, len, file_id)
            + reports(second, base, len, file_id),
{
    assert(reports(first + second, base, len, file_id) =~= reports(first, base, len, file_id)
        + reports(second, base, len, file_id));
}

/// What a scan of the window `from..to` of a stream reports, with the
/// window's offset as its base, is what the stream has between `from` and
/// the last place at which an occurrence still ends inside the window.
pub proof fn lemma_window_reports(
    stream: Seq<u8>,
    needle: Seq<u8>,
    from: int,
    to: int,
    len: u32,
    file_id: u32,
)
    requires
        0 <= from <= to <= stream.len(),
    ensures
        reports(
            all_matches(stream.subrange(from, to), needle),
            saturate(from) as int,
            len,
            file_id,
        ) == reports(
            matches_between(stream, needle, from, to - needle.len() + 1),
            0,
            len,
            file_id,
        ),
{
    let window = stream.subrange(from, to);
    let top = to - from - needle.len() + 1;
    lemma_matches_in_window(stream, needle, from, to, top);
    lemma_matches_between_exact(window, needle, 0, top);
    let inside = matches_between(window, needle, 0, top);
    let across = matches_between(stream, needle, from, from + top);
    assert forall|k: int| 0 <= k < inside.len() implies saturate(saturate(from) + inside[k])
        == saturate(0 + across[k]) by {
        assert(inside[k] + from == across[k]);
        assert(inside[k] >= 0);
    }
    assert(reports(inside, saturate(from) as int, len, file_id) =~= reports(
        across,
        0,
        len,
        file_id,
    ));
}

/// A search for one literal pattern.
pub struct GrepEngine<'p> {
    needle: &'p [u8],
    opts: GrepOptions,
}

impl<'p> GrepEngine<'p> {
    /// The pattern.
    pub closed spec fn needle(&self) -> Seq<u8> {
        self.needle@
    }

    /// The options.
    pub closed spec fn options(&self) -> GrepOptions {
        self.opts
    }

    /// How many bytes of a window are carried into the next: one less than
    /// the pattern is long, so that an occurrence that does not fit in one
    /// window lies whole in the next.
    pub open spec fn overlap(&self) -> nat {
        if self.needle().len() == 0 {
            0
        } else {
            (self.needle().len() - 1) as nat
        }
    }

    /// The options can be searched with: a window takes in at least one new
    /// byte, and a window with its overlap fits a buffer.
    pub open spec fn usable(&self) -> bool {
        &&& self.options().chunk_bytes >= 1
        &&& self.options().chunk_bytes + self.overlap() <= usize::MAX
    }

    /// The length that is reported with each occurrence.
    pub open spec fn reported_len(&self) -> u32 {
        self.needle().len() as u32
    }

    /// What a search of `stream` has reported once it has scanned every
    /// window that ends at or before `upto` bytes into the stream.
    pub open spec fn found_before(&self, stream: Seq<u8>, upto: int) -> Seq<Match> {
        reports(
            matches_between(stream, self.needle(), 0, upto - self.needle().len() + 1),
            0,
            self.reported_len(),
            self.options().file_id,
        )
    }

    /// What a search of `stream` reports from beginning to end. An empty
    /// pattern is reported once, at offset 0 with length 0, whatever the
    /// stream holds; any other pattern once for each place where it occurs,
    /// in ascending order.
    pub open spec fn found(&self, stream: Seq<u8>) -> Seq<Match> {
        if self.needle().len() == 0 {
            seq![Match { offset: 0, len: 0, line_no: 0, file_id: self.options().file_id }]
        } else {
            reports(
                all_matches(stream, self.needle()),
                0,
                self.reported_len(),
                self.options().file_id,
            )
        }
    }

    /// Of a pattern that is not empty, and a stream short enough for a `u64`
    /// to count: each place at which the pattern occurs is reported once
    /// and no other place is; the reports come in ascending order; and each
    /// carries the place itself as its offset, the pattern's length, an
    /// unknown line and the stream identifier of the options.
    pub proof fn lemma_found_exact(&self, stream: Seq<u8>)
        requires
            self.needle().len() > 0,
            stream.len() <= u64::MAX,
        ensures
            self.found(stream).len() == all_matches(stream, self.needle()).len(),
            forall|k: int|
                0 <= k < self.found(stream).len() ==> {
                    &&& #[trigger] self.found(stream)[k] == (Match {
                        offset: all_matches(stream, self.needle())[k] as u64,
                        len: self.reported_len(),
                        line_no: 0,
                        file_id: self.options().file_id,
                    })
                    &&& self.found(stream)[k].offset == all_matches(stream, self.needle())[k]
                    &&& occurs_at(stream, self.needle(), self.found(stream)[k].offset as int)
                },
            forall|j: int, k: int|
                0 <= j < k < self.found(stream).len() ==> self.found(stream)[j].offset
                    < self.found(stream)[k].offset,
            forall|at: int|
                occurs_at(stream, self.needle(), at) ==> exists|k: int|
                    0 <= k < self.found(stream).len() && #[trigger] self.found(stream)[k].offset
                        == at,
    {
        let places = all_matches(stream, self.needle());
        let found = self.found(stream);
        lemma_all_matches_exact(stream, self.needle());
        assert forall|at: int| occurs_at(stream, self.needle(), at) implies exists|k: int|
            0 <= k < found.len() && #[trigger] found[k].offset == at by {
            assert(places.contains(at));
            let k = choose|k: int| 0 <= k < places.len() && places[k] == at;
            assert(found[k].offset == at);
        }
        assert forall|k: int| 0 <= k < found.len() implies occurs_at(
            stream,
            self.needle(),
            (#[trigger] found[k]).offset as int,
        ) by {
            assert(places.contains(places[k]));
        }
    }

    /// What is found does not depend on the size of the windows, nor on any
    /// other option but the stream identifier: two searches for one pattern
    /// with one identifier report the same of every stream.
    pub proof fn lemma_found_independent_of_chunk_size(&self, other: &GrepEngine, stream: Seq<u8>)
        requires
            self.needle() == other.needle(),
            self.options().file_id == other.options().file_id,
        ensures
            self.found(stream) == other.found(stream),
    {
    }

    /// An empty pattern is reported once of every stream, the empty one
    /// too: at offset 0, with length 0.
    pub proof fn lemma_found_empty_needle(&self, stream: Seq<u8>)
        requires
            self.needle().len() == 0,
        ensures
            self.found(stream).len() == 1,
            self.found(stream)[0] == (Match {
                offset: 0,
                len: 0,
                line_no: 0,
                file_id: self.options().file_id,
            }),
    {
    }

    /// In an empty stream, a pattern that is not empty is found nowhere.
    pub proof fn lemma_found_empty_stream(&self)
        requires
            self.needle().len() > 0,
        ensures
            self.found(Seq::<u8>::empty()) == Seq::<Match>::empty(),
    {
        let stream = Seq::<u8>::empty();
        assert(all_matches(stream, self.needle()) == Seq::<int>::empty());
        assert(self.found(stream) =~= Seq::<Match>::empty());
    }

    /// A search of a stream in windows reports what one scan of the whole
    /// stream as a single window at offset 0 reports.
    pub proof fn lemma_found_as_one_window(&self, stream: Seq<u8>)
        requires
            self.needle().len() > 0,
        ensures
            self.found(stream) == reports(
                all_matches(stream, self.needle()),
                0u64 as int,
                self.reported_len(),
                self.options().file_id,
            ),
    {
    }

    /// Makes a search for the literal `needle`.
    pub fn new_literal(needle: &'p [u8], opts: GrepOptions) -> (engine: Self)
        ensures
            engine.needle() == needle@,
            engine.options() == opts,
    {
        GrepEngine { needle, opts }
    }

    /// Reports every occurrence of the pattern in one window to `sink`,
    /// overlapping ones included, in ascending order. `base` is the offset
    /// of the window in the stream.
    pub fn scan_window<S: MatchSink>(&self, base: u64, chunk: &[u8], sink: &mut S)
        requires
            self.needle().len() > 0,
            old(sink).ready(),
        ensures
            final(sink).ready(),
            final(sink).received() == old(sink).received() + reports(
                all_matches(chunk@, self.needle()),
                base as int,
                self.reported_len(),
                self.options().file_id,
            ),
    {
        let nlen: u32 = #[verifier::truncate] (self.needle.len() as u32);
        let file_id: u32 = self.opts.file_id;
        let total: usize = chunk.len();
        let mut search_off: usize = 0;
        assert(old(sink).received() + reports(
            matches_between(chunk@, self.needle(), 0, 0),
            base as int,
            nlen,
            file_id,
        ) =~= old(sink).received());
        loop
            invariant_except_break
                search_off <= total,
                sink.received() == old(sink).received() + reports(
                    matches_between(chunk@, self.needle(), 0, search_off as int),
                    base as int,
                    nlen,
                    file_id,
                ),
            invariant
                total == chunk@.len(),
                self.needle().len() > 0,
                nlen == self.reported_len(),
                file_id == self.options().file_id,
                sink.ready(),
            ensures
                sink.received() == old(sink).received() + reports(
                    all_matches(chunk@, self.needle()),
                    base as int,
                    nlen,
                    file_id,
                ),
            decreases total - search_off,
        {
            let rest = vstd::slice::slice_subrange(chunk, search_off, total);
            let found = memmem_find(rest, self.needle);
            proof {
                assert forall|at: int| 0 <= at implies (occurs_at(rest@, self.needle(), at)
                    <==> occurs_at(chunk@, self.needle(), search_off + at)) by {
                    lemma_occurs_in_subrange(
                        chunk@,
                        self.needle(),
                        search_off as int,
                        total as int,
                        at,
                    );
                }
            }
            match found {
                None => {
                    proof {
                        assert forall|at: int| search_off <= at implies !occurs_at(
                            chunk@,
                            self.needle(),
                            at,
                        ) by {
                            assert(!occurs_at(rest@, self.needle(), at - search_off));
                        }
                        lemma_matches_complete(chunk@, self.needle(), search_off as int);
                    }
                    break ;
                },
                Some(rel) => {
                    let pos: usize = search_off + rel;
                    let global_off: u64 = base.saturating_add(pos as u64);
                    let ghost so_far = matches_between(
                        chunk@,
                        self.needle(),
                        0,
                        search_off as int,
                    );
                    proof {
                        assert(occurs_at(rest@, self.needle(), rel as int));
                        assert(occurs_at(chunk@, self.needle(), pos as int));
                        assert forall|at: int| search_off <= at < pos implies !occurs_at(
                            chunk@,
                            self.needle(),
                            at,
                        ) by {
                            assert(!occurs_at(rest@, self.needle(), at - search_off));
                        }
                        lemma_matches_between_stable(
                            chunk@,
                            self.needle(),
                            0,
                            search_off as int,
                            pos as int,
                        );
                        assert(matches_between(chunk@, self.needle(), 0, pos + 1) == so_far.push(
                            pos as int,
                        ));
                        assert(reports(so_far.push(pos as int), base as int, nlen, file_id)
                            =~= reports(so_far, base as int, nlen, file_id).push(
                            (Match { offset: global_off, len: nlen, line_no: 0, file_id }),
                        ));
                    }
                    let ghost had = sink.received();
                    sink.on_match(global_off, nlen, 0, file_id);
                    assert(sink.received() =~= had.push(
                        (Match { offset: global_off, len: nlen, line_no: 0, file_id }),
                    ));
                    search_off = pos + 1;
                    if search_off >= total {
                        proof {
                            lemma_matches_complete(chunk@, self.needle(), search_off as int);
                        }
                        break ;
                    }
                },
            }
        }
    }

    /// Searches everything that `reader` has yet to hand out and reports
    /// each occurrence of the pattern to `sink`, once, in ascending order of
    /// offset, as soon as it is found.
    ///
    /// Options that cannot be searched with are refused before anything is
    /// read or reported. An empty pattern is reported once, at offset 0, and
    /// nothing is read. Otherwise the stream is read to its end, window by
    /// window; a read that fails ends the search with the source's error.
    /// What was reported until then stays reported: the occurrences in the
    /// windows that were read whole. The source is left where the failed
    /// read found it, less than a chunk further than the last whole window.
    pub fn search<R: Source, S: MatchSink>(&self, reader: &mut R, sink: &mut S) -> (done: Result<
        (),
        SearchError,
    >)
        requires
            old(sink).ready(),
        ensures
            final(sink).ready(),
            match done {
                Ok(_) => {
                    &&& self.usable()
                    &&& final(sink).received() == old(sink).received() + self.found(
                        old(reader).remaining(),
                    )
                    &&& if self.needle().len() == 0 {
                        *final(reader) == *old(reader)
                    } else {
                        final(reader).remaining().len() == 0
                    }
                },
                Err(SearchError::Config(ConfigError::ZeroChunkSize)) => {
                    &&& self.options().chunk_bytes == 0
                    &&& final(sink).received() == old(sink).received()
                    &&& *final(reader) == *old(reader)
                },
                Err(SearchError::Config(ConfigError::WindowTooLarge)) => {
                    &&& self.options().chunk_bytes >= 1
                    &&& !self.usable()
                    &&& final(sink).received() == old(sink).received()
                    &&& *final(reader) == *old(reader)
                },
                Err(SearchError::Io(_)) => {
                    &&& self.usable()
                    &&& self.needle().len() > 0
                    &&& !old(reader).reliable()
                    &&& exists|upto: int, taken: int|
                        #![trigger
                            self.found_before(old(reader).remaining(), upto),
                            old(reader).remaining().skip(taken),
                        ]
                        {
                            &&& 0 <= upto <= taken <= old(reader).remaining().len()
                            &&& taken - upto < self.options().chunk_bytes
                            &&& final(reader).remaining() == old(reader).remaining().skip(taken)
                            &&& final(sink).received() == old(sink).received()
                                + self.found_before(old(reader).remaining(), upto)
                        }
                },
            },
    {
        let needle_len: usize = self.needle.len();
        let overlap: usize = if needle_len == 0 {
            0
        } else {
            needle_len - 1
        };
        let ghost stream = reader.remaining();
        let ghost start_reliable = reader.reliable();
        let ghost source_end = *final(reader);
        let ghost before = sink.received();
        let mut chunker = match Chunker::new(reader, self.opts.chunk_bytes, overlap) {
            Ok(chunker) => chunker,
            Err(e) => {
                return Err(SearchError::Config(e));
            },
        };
        if needle_len == 0 {
            // An empty pattern is reported once, at the start of the stream.
            sink.on_match(0, 0, 0, self.opts.file_id);
            proof {
                chunker.lemma_source_settled();
                assert(sink.received() =~= before.push(
                    (Match { offset: 0, len: 0, line_no: 0, file_id: self.options().file_id }),
                ));
                assert(before.push(
                    (Match { offset: 0, len: 0, line_no: 0, file_id: self.options().file_id }),
                ) =~= before + self.found(stream));
            }
            return Ok(());
        }
        proof {
            assert(before + self.found_before(stream, 0) =~= before);
        }
        #[verifier::loop_isolation(false)]
        loop
            invariant
                self.usable(),
                self.needle().len() == needle_len,
                needle_len > 0,
                overlap == needle_len - 1,
                chunker.inv(),
                chunker.stream() == stream,
                chunker.overlap() == overlap,
                chunker.chunk_size() == self.options().chunk_bytes,
                *final(chunker.source()) == source_end,
                start_reliable ==> chunker.source().reliable(),
                sink.ready(),
                sink.received() == before + self.found_before(stream, chunker.consumed() as int),
            decreases stream.len() - chunker.consumed(),
        {
            let ghost seen = chunker.consumed() as int;
            match chunker.next_chunk() {
                Err(e) => {
                    proof {
                        chunker.lemma_source_settled();
                        let taken = chunker.consumed() as int;
                        assert(source_end.remaining() == stream.skip(taken));
                        assert(sink.received() == before + self.found_before(stream, seen));
                        assert(0 <= seen <= taken <= stream.len());
                        assert(taken - seen < self.options().chunk_bytes);
                    }
                    return Err(SearchError::Io(e));
                },
                Ok(None) => {
                    proof {
                        chunker.lemma_source_settled();
                        assert(self.found_before(stream, seen) == self.found(stream));
                    }
                    return Ok(());
                },
                Ok(Some((base, chunk))) => {
                    let ghost reported = sink.received();
                    self.scan_window(base, chunk, sink);
                    proof {
                        let from = chunker.position();
                        let to = chunker.consumed() as int;
                        let top = to - needle_len + 1;
                        let len = self.reported_len();
                        let file_id = self.options().file_id;
                        lemma_window_reports(stream, self.needle(), from, to, len, file_id);
                        let earlier = matches_between(stream, self.needle(), 0, seen - needle_len + 1);
                        let later = matches_between(stream, self.needle(), from, top);
                        lemma_reports_concat(earlier, later, 0, len, file_id);
                        if seen - needle_len + 1 >= 0 {
                            lemma_matches_between_split(stream, self.needle(), 0, from, top);
                        } else {
                            assert(earlier + later =~= later);
                        }
                        assert(sink.received() == reported + reports(later, 0, len, file_id));
                        assert(sink.received() =~= before + self.found_before(stream, to));
                    }
                },
            }
        }
    }
}

} // verus!
