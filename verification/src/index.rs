//! Incremental newline-offset index.
//!
//! An [`Index`] turns an append-only byte stream into a line-addressable
//! structure: it records the absolute byte offset of every line terminator
//! (`\n`) discovered so far, and answers line-to-byte-range and
//! line-to-position lookups over the complete (terminated) lines.
//!
//! The caller owns the stream and hands new bytes to [`Index::update`];
//! the index itself performs no I/O.

use vstd::prelude::*;
use vstd::slice::slice_subrange;
use core::ops::Range;
use crate::source::Error;

verus! {

/// Where a logical line begins: a 1-based line number, the absolute byte
/// offset of the line's first byte, and a record counter. Record semantics
/// belong to a downstream parser, so the counter is fixed at zero here.
#[derive(Clone, Copy, Debug, PartialEq, Eq, Structural)]
pub struct Position {
    pub line: u64,
    pub byte: u64,
    pub record: u64,
}

/// Relies on `memchr::memchr`: it returns the index of the first occurrence
/// of `needle` in `haystack`, or `None` when no byte of `haystack` equals it.
pub assume_specification[ memchr::memchr ](needle: u8, haystack: &[u8]) -> (r: Option<
    usize,
>)
    ensures
        match r {
            Some(i) => {
                &&& i < haystack@.len()
                &&& haystack@[i as int] == needle
                &&& forall|j: int| 0 <= j < i ==> #[trigger] haystack@[j] != needle
            },
            None => forall|j: int| 0 <= j < haystack@.len() ==> #[trigger] haystack@[j] != needle,
        },
;

/// The line terminator this index looks for.
pub const NEWLINE: u8 = 10;

/// Upper bound on how many line terminators a single [`Index::update`] call
/// records. When an append holds more lines than this, `update` stops right
/// after the bound-th terminator and reports how many bytes it consumed, so
/// the caller can resume with the remaining bytes on the next call.
pub const MAX_LINES_PER_UPDATE: usize = 1000000;

/// The positions, in increasing order, of every `NEWLINE` byte in `s`.
pub open spec fn newline_positions(s: Seq<u8>) -> Seq<int>
    decreases s.len(),
{
    if s.len() == 0 {
        Seq::empty()
    } else {
        let prefix = newline_positions(s.drop_last());
        if s.last() == NEWLINE {
            prefix.push(s.len() - 1)
        } else {
            prefix
        }
    }
}

/// `ps` with every element moved up by `base`.
pub open spec fn shifted(ps: Seq<int>, base: int) -> Seq<int> {
    ps.map_values(|p: int| base + p)
}

/// The line catalog that results from scanning the bytes `data`, which begin
/// at absolute stream position `offset`, on top of the catalog `lines`.
pub open spec fn scanned_lines(lines: Seq<int>, offset: int, data: Seq<u8>) -> Seq<int> {
    lines + shifted(newline_positions(data), offset)
}

/// Newline positions are in bounds and strictly increasing.
pub proof fn lemma_newline_positions_bounds(s: Seq<u8>)
    ensures
        forall|i: int|
            0 <= i < newline_positions(s).len() ==> 0 <= #[trigger] newline_positions(s)[i]
                < s.len(),
        forall|i: int, j: int|
            0 <= i < j < newline_positions(s).len() ==> #[trigger] newline_positions(s)[i]
                < #[trigger] newline_positions(s)[j],
    decreases s.len(),
{
    if s.len() > 0 {
        lemma_newline_positions_bounds(s.drop_last());
        let pd = newline_positions(s.drop_last());
        let ps = newline_positions(s);
        assert forall|i: int| 0 <= i < ps.len() implies 0 <= #[trigger] ps[i] < s.len() by {
            if i < pd.len() {
                assert(ps[i] == pd[i]);
            }
        }
        assert forall|i: int, j: int| 0 <= i < j < ps.len() implies #[trigger] ps[i]
            < #[trigger] ps[j] by {
            if j < pd.len() {
                assert(ps[i] == pd[i] && ps[j] == pd[j]);
            } else if i < pd.len() {
                assert(ps[i] == pd[i]);
                assert(pd[i] < s.drop_last().len());
            }
        }
    }
}

/// A byte sequence without a newline has no newline positions.
pub proof fn lemma_newline_positions_none(s: Seq<u8>)
    requires
        forall|i: int| 0 <= i < s.len() ==> #[trigger] s[i] != NEWLINE,
    ensures
        newline_positions(s) == Seq::<int>::empty(),
    decreases s.len(),
{
    if s.len() > 0 {
        assert(forall|i: int|
            0 <= i < s.drop_last().len() ==> #[trigger] s.drop_last()[i] != NEWLINE);
        lemma_newline_positions_none(s.drop_last());
    }
}

/// Scanning a concatenation finds the first part's newlines, then the second
/// part's, the latter shifted by the first part's length.
pub proof fn lemma_newline_positions_append(a: Seq<u8>, b: Seq<u8>)
    ensures
        newline_positions(a + b) == newline_positions(a) + shifted(
            newline_positions(b),
            a.len() as int,
        ),
    decreases b.len(),
{
    if b.len() == 0 {
        assert(a + b =~= a);
        assert(newline_positions(a) + shifted(newline_positions(b), a.len() as int)
            =~= newline_positions(a));
    } else {
        lemma_newline_positions_append(a, b.drop_last());
        assert((a + b).drop_last() =~= a + b.drop_last());
        assert((a + b).last() == b.last());
        assert(newline_positions(a + b) =~= newline_positions(a) + shifted(
            newline_positions(b),
            a.len() as int,
        ));
    }
}

/// `newline_positions` holds exactly the indices of the `NEWLINE` bytes:
/// nothing is missed and nothing else is reported.
pub proof fn lemma_newline_positions_exact(s: Seq<u8>)
    ensures
        forall|p: int| #[trigger]
            newline_positions(s).contains(p) <==> (0 <= p < s.len() && s[p] == NEWLINE),
    decreases s.len(),
{
    if s.len() > 0 {
        lemma_newline_positions_exact(s.drop_last());
        let pd = newline_positions(s.drop_last());
        let ps = newline_positions(s);
        assert forall|p: int| ps.contains(p) implies (0 <= p < s.len() && s[p] == NEWLINE) by {
            let i = choose|i: int| 0 <= i < ps.len() && ps[i] == p;
            if i < pd.len() {
                assert(pd.contains(p));
                assert(s.drop_last()[p] == s[p]);
            }
        }
        assert forall|p: int| (0 <= p < s.len() && s[p] == NEWLINE) implies ps.contains(p) by {
            if p < s.len() - 1 {
                assert(s.drop_last()[p] == s[p]);
                assert(pd.contains(p));
                let i = choose|i: int| 0 <= i < pd.len() && pd[i] == p;
                assert(ps[i] == p);
            } else {
                assert(ps[pd.len() as int] == p);
            }
        }
    }
}

/// A well-formed index hands out well-formed ranges: every line's content
/// starts at or before its terminator.
pub proof fn lemma_range_well_formed(idx: &Index, i: int)
    requires
        idx.wf(),
        0 <= i < idx.lines().len(),
    ensures
        0 <= idx.line_start(i) <= idx.line_end(i),
{
}

/// Law: each line after the first starts exactly one byte past the previous
/// line's end, the byte holding that line's terminator.
pub proof fn lemma_ranges_adjacent(idx: &Index, i: int)
    requires
        idx.wf(),
        1 <= i < idx.lines().len(),
    ensures
        idx.line_start(i) == idx.line_end(i - 1) + 1,
{
}

/// Law (idempotence): scanning an empty append leaves the line catalog
/// unchanged, so an `update` with no new bytes is a no-op.
pub proof fn lemma_scan_empty(lines: Seq<int>, offset: int)
    ensures
        scanned_lines(lines, offset, Seq::<u8>::empty()) == lines,
{
    assert(scanned_lines(lines, offset, Seq::<u8>::empty()) =~= lines);
}

/// Law (incrementality): scanning an append in two steps yields the same
/// line catalog as scanning the fully grown data once.
pub proof fn lemma_scan_append(lines: Seq<int>, offset: int, a: Seq<u8>, b: Seq<u8>)
    ensures
        scanned_lines(scanned_lines(lines, offset, a), offset + a.len(), b) == scanned_lines(
            lines,
            offset,
            a + b,
        ),
{
    lemma_newline_positions_append(a, b);
    assert(shifted(shifted(newline_positions(b), a.len() as int), offset) =~= shifted(
        newline_positions(b),
        offset + a.len(),
    ));
    assert(shifted(newline_positions(a) + shifted(newline_positions(b), a.len() as int), offset)
        =~= shifted(newline_positions(a), offset) + shifted(
        newline_positions(b),
        offset + a.len(),
    ));
    assert(scanned_lines(scanned_lines(lines, offset, a), offset + a.len(), b) =~= scanned_lines(
        lines,
        offset,
        a + b,
    ));
}

/// The newlines of a prefix are the first newlines of the whole sequence.
pub proof fn lemma_newline_positions_prefix(s: Seq<u8>, p: int)
    requires
        0 <= p <= s.len(),
    ensures
        newline_positions(s.take(p)).len() <= newline_positions(s).len(),
        newline_positions(s.take(p)) == newline_positions(s).take(
            newline_positions(s.take(p)).len() as int,
        ),
{
    assert(s =~= s.take(p) + s.skip(p));
    lemma_newline_positions_append(s.take(p), s.skip(p));
    assert(newline_positions(s).take(newline_positions(s.take(p)).len() as int)
        =~= newline_positions(s.take(p)));
}

/// Extending the scanned prefix up to and including a first newline pushes
/// exactly that newline's position onto the catalog.
proof fn lemma_step_one_newline(s: Seq<u8>, pos: int, x: int)
    requires
        0 <= pos,
        0 <= x,
        pos + x < s.len(),
        s[pos + x] == NEWLINE,
        forall|j: int| pos <= j < pos + x ==> #[trigger] s[j] != NEWLINE,
    ensures
        newline_positions(s.take(pos + x + 1)) == newline_positions(s.take(pos)).push(pos + x),
{
    let a = s.take(pos);
    let c = s.subrange(pos, pos + x + 1);
    assert(s.take(pos + x + 1) =~= a + c);
    lemma_newline_positions_append(a, c);
    assert(c.drop_last() =~= s.subrange(pos, pos + x));
    assert(forall|i: int| 0 <= i < c.drop_last().len() ==> #[trigger] c.drop_last()[i] != NEWLINE);
    lemma_newline_positions_none(c.drop_last());
    assert(c.last() == NEWLINE);
    assert(newline_positions(c) =~= Seq::<int>::empty().push(x));
    assert(shifted(newline_positions(c), pos) =~= Seq::<int>::empty().push(pos + x));
    assert(newline_positions(s.take(pos + x + 1)) =~= newline_positions(s.take(pos)).push(
        pos + x,
    ));
}

/// When no newline follows position `pos`, scanning to the end finds
/// nothing new.
proof fn lemma_step_no_newline(s: Seq<u8>, pos: int)
    requires
        0 <= pos <= s.len(),
        forall|j: int| pos <= j < s.len() ==> #[trigger] s[j] != NEWLINE,
    ensures
        newline_positions(s) == newline_positions(s.take(pos)),
{
    assert(s =~= s.take(pos) + s.skip(pos));
    lemma_newline_positions_append(s.take(pos), s.skip(pos));
    assert(forall|i: int| 0 <= i < s.skip(pos).len() ==> #[trigger] s.skip(pos)[i] != NEWLINE);
    lemma_newline_positions_none(s.skip(pos));
    assert(newline_positions(s) =~= newline_positions(s.take(pos)));
}

/// Records the locations of all newlines seen so far in a byte stream.
pub struct Index {
    offset: u64,
    newlines: Vec<u64>,
    watch_for_updates: bool,
}

impl Index {
    /// The absolute byte offsets of the line terminators found so far,
    /// in discovery order (one per complete line).
    pub closed spec fn lines(&self) -> Seq<int> {
        self.newlines@.map_values(|v: u64| v as int)
    }

    /// The number of bytes scanned so far: the absolute position at which
    /// the next `update` resumes.
    pub closed spec fn scanned(&self) -> int {
        self.offset as int
    }

    /// Whether `update` still scans; cleared (for good) by `stop_watching`.
    pub closed spec fn watching(&self) -> bool {
        self.watch_for_updates
    }

    /// Well-formedness: terminator offsets are strictly increasing and all
    /// lie before the scan cursor.
    pub closed spec fn wf(&self) -> bool {
        &&& forall|i: int|
            0 <= i < self.lines().len() ==> 0 <= #[trigger] self.lines()[i] < self.scanned()
        &&& forall|i: int, j: int|
            0 <= i < j < self.lines().len() ==> #[trigger] self.lines()[i] < #[trigger] self.lines()[j]
    }

    /// Where the content of line `line` starts: `0` for the first line,
    /// otherwise one byte past the previous line's terminator.
    pub open spec fn line_start(&self, line: int) -> int {
        if line == 0 {
            0
        } else {
            self.lines()[line - 1] + 1
        }
    }

    /// Where the content of line `line` ends: at its own terminator.
    pub open spec fn line_end(&self, line: int) -> int {
        self.lines()[line]
    }

    /// Builds an index over the bytes seen so far of a stream, performing
    /// the initial scan. Scans all of `data`, subject to the same per-call
    /// line bound as [`Index::update`]; [`Index::scanned_bytes`] tells where
    /// a follow-up `update` resumes.
    pub fn new(data: &[u8]) -> (r: Index)
        requires
            data@.len() <= u64::MAX,
        ensures
            r.wf(),
            r.watching(),
            r.scanned() <= data@.len(),
            r.lines() == newline_positions(data@.take(r.scanned())),
            newline_positions(data@).len() < MAX_LINES_PER_UPDATE ==> r.scanned() == data@.len()
                && r.lines() == newline_positions(data@),
            newline_positions(data@).len() >= MAX_LINES_PER_UPDATE ==> r.scanned()
                == newline_positions(data@)[MAX_LINES_PER_UPDATE - 1] + 1,
    {
        let mut ret = Index { offset: 0, newlines: Vec::new(), watch_for_updates: true };
        proof {
            assert(ret.lines() =~= Seq::<int>::empty());
        }
        let consumed: usize = ret.update(data);
        proof {
            assert(ret.lines() =~= newline_positions(data@.take(consumed as int)));
        }
        ret
    }

    /// The half-open byte range `[start, end)` of the content of line
    /// `line`, excluding its terminator; a range error when `line` is not a
    /// complete line yet.
    pub fn line2range(&self, line: usize) -> (r: Result<Range<u64>, Error>)
        requires
            self.wf(),
        ensures
            r is Ok <==> line < self.lines().len(),
            r matches Ok(rg) ==> rg.start as int == self.line_start(line as int) && rg.end as int
                == self.line_end(line as int),
            r is Err ==> (r matches Err(e) && e == Error::Range),
    {
        if line >= self.newlines.len() {
            return Err(Error::Range);
        }
        let lhs: u64 = if line == 0 {
            0
        } else {
            proof {
                assert(self.lines()[line - 1] == self.newlines@[line - 1] as int);
                assert(self.lines()[line - 1] < self.scanned());
            }
            self.newlines[line - 1] + 1
        };
        let rhs: u64 = self.newlines[line];
        Ok(Range { start: lhs, end: rhs })
    }

    /// The position descriptor of line `line`: 1-based line number, the byte
    /// offset where the line's content starts, and a record counter fixed at
    /// zero; a range error when `line` is not a complete line yet.
    pub fn line2pos(&self, line: usize) -> (r: Result<Position, Error>)
        requires
            self.wf(),
        ensures
            r is Ok <==> line < self.lines().len(),
            r matches Ok(p) ==> p.line as int == line + 1 && p.byte as int == self.line_start(
                line as int,
            ) && p.record == 0,
            r is Err ==> (r matches Err(e) && e == Error::Range),
    {
        match self.line2range(line) {
            Ok(rg) => {
                proof {
                    assert(self.newlines.len() == self.newlines@.len());
                    assert(line < self.newlines@.len());
                }
                Ok(Position { line: (line as u64) + 1, byte: rg.start, record: 0 })
            }
            Err(e) => Err(e),
        }
    }

    /// The scan cursor is a 64-bit byte offset and the catalog a vector:
    /// bounds every caller may rely on, in particular to meet the overflow
    /// precondition of [`Index::update`].
    pub proof fn lemma_bounds(&self)
        ensures
            0 <= self.scanned() <= u64::MAX,
            self.lines().len() <= usize::MAX,
    {
        assert(self.newlines.len() == self.newlines@.len());
    }

    /// Count of complete, terminated lines indexed so far.
    pub fn len(&self) -> (r: usize)
        ensures
            r == self.lines().len(),
    {
        self.newlines.len()
    }

    /// The absolute position at which the next `update` call resumes
    /// scanning; equals the number of stream bytes consumed so far.
    pub fn scanned_bytes(&self) -> (r: u64)
        ensures
            r == self.scanned(),
    {
        self.offset
    }

    /// Scans the bytes `data`, which continue the stream right at the scan
    /// cursor, and records the absolute offset of every line terminator
    /// found. Returns how many bytes of `data` were consumed.
    ///
    /// All of `data` is consumed, unless it holds [`MAX_LINES_PER_UPDATE`]
    /// or more terminators: then the scan stops right after the bound-th
    /// one and the caller resumes with the remaining bytes on a later call.
    /// A no-op once watching has been stopped.
    pub fn update(&mut self, data: &[u8]) -> (consumed: usize)
        requires
            old(self).wf(),
            old(self).scanned() + data@.len() <= u64::MAX,
        ensures
            final(self).wf(),
            final(self).watching() == old(self).watching(),
            consumed <= data@.len(),
            !old(self).watching() ==> consumed == 0 && final(self).lines() == old(self).lines()
                && final(self).scanned() == old(self).scanned(),
            old(self).watching() ==> final(self).scanned() == old(self).scanned() + consumed,
            old(self).watching() ==> final(self).lines() == scanned_lines(
                old(self).lines(),
                old(self).scanned(),
                data@.take(consumed as int),
            ),
            old(self).watching() && newline_positions(data@).len() < MAX_LINES_PER_UPDATE
                ==> consumed == data@.len(),
            old(self).watching() && newline_positions(data@).len() >= MAX_LINES_PER_UPDATE
                ==> consumed == newline_positions(data@)[MAX_LINES_PER_UPDATE - 1] + 1,
            old(self).watching() && consumed == data@.len() ==> final(self).lines()
                == scanned_lines(old(self).lines(), old(self).scanned(), data@),
    {
        if !self.watch_for_updates {
            return 0;
        }
        let ghost off0 = self.scanned();
        let ghost lines0 = self.lines();
        let mut pos: usize = 0;
        let mut n_found: usize = 0;
        proof {
            assert(data@.take(0) =~= Seq::<u8>::empty());
            assert(newline_positions(data@).take(0) =~= Seq::<int>::empty());
            assert(self.lines() =~= scanned_lines(lines0, off0, data@.take(0)));
        }
        while pos < data.len()
            invariant
                self.wf(),
                self.watch_for_updates,
                self.watch_for_updates == old(self).watch_for_updates,
                off0 == old(self).scanned(),
                lines0 == old(self).lines(),
                pos <= data@.len(),
                off0 + data@.len() <= u64::MAX,
                self.scanned() == off0 + pos,
                n_found <= MAX_LINES_PER_UPDATE,
                n_found <= newline_positions(data@).len(),
                n_found == newline_positions(data@.take(pos as int)).len(),
                newline_positions(data@.take(pos as int)) == newline_positions(data@).take(
                    n_found as int,
                ),
                self.lines() == scanned_lines(lines0, off0, data@.take(pos as int)),
                n_found == MAX_LINES_PER_UPDATE ==> pos == newline_positions(
                    data@,
                )[MAX_LINES_PER_UPDATE - 1] + 1,
            decreases data@.len() - pos,
        {
            if n_found == MAX_LINES_PER_UPDATE {
                return pos;
            }
            let rest = slice_subrange(data, pos, data.len());
            let ghost prev = data@.take(pos as int);
            let ghost ps_prev = newline_positions(prev);
            match memchr::memchr(NEWLINE, rest) {
                Some(x) => {
                    proof {
                        assert(data@[pos + x] == rest@[x as int]);
                        assert forall|j: int| pos <= j < pos + x implies #[trigger] data@[j]
                            != NEWLINE by {
                            assert(data@[j] == rest@[j - pos]);
                        }
                        lemma_step_one_newline(data@, pos as int, x as int);
                        lemma_newline_positions_prefix(data@, pos + x + 1);
                    }
                    let ghost lines_before = self.lines();
                    self.newlines.push(self.offset + x as u64);
                    self.offset = self.offset + x as u64 + 1;
                    proof {
                        assert(self.lines() =~= lines_before.push(off0 + pos + x));
                        assert(self.lines() =~= scanned_lines(
                            lines0,
                            off0,
                            data@.take(pos + x + 1),
                        ));
                        assert(newline_positions(data@).take((n_found + 1) as int)
                            =~= newline_positions(data@.take(pos + x + 1)));
                        assert(newline_positions(data@.take(pos + x + 1))[n_found as int] == pos
                            + x);
                        assert(newline_positions(data@)[n_found as int] == pos + x);
                    }
                    pos = pos + x + 1;
                    n_found = n_found + 1;
                }
                None => {
                    proof {
                        assert forall|j: int| pos <= j < data@.len() implies #[trigger] data@[j]
                            != NEWLINE by {
                            assert(data@[j] == rest@[j - pos]);
                        }
                        lemma_step_no_newline(data@, pos as int);
                        assert(data@.take(data@.len() as int) =~= data@);
                        assert(newline_positions(data@).take(n_found as int)
                            =~= newline_positions(data@));
                    }
                    self.offset = self.offset + (data.len() - pos) as u64;
                    pos = data.len();
                }
            }
        }
        proof {
            assert(data@.take(data@.len() as int) =~= data@);
        }
        pos
    }

    /// One-way switch: after this call `update` is a no-op, even if the
    /// stream keeps growing. Idempotent.
    pub fn stop_watching(&mut self)
        ensures
            !final(self).watching(),
            final(self).lines() == old(self).lines(),
            final(self).scanned() == old(self).scanned(),
            old(self).wf() ==> final(self).wf(),
    {
        self.watch_for_updates = false;
    }
}

} // verus!
