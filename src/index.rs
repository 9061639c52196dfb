use crate::bytes::{as_i64, be_at, copy_all, copy_range, read_be, read_be_i64};
use crate::error::{fails_with, ErrorKind, Failure, TSMError};
use crate::text::at_offset;
use crate::id::InfluxID;
use crate::key::{parse_tsm_key, parsed_from, ParsedTSMKey};
use vstd::prelude::*;

verus! {

/// Bytes in one block record of the index.
pub const BLOCK_RECORD_LEN: u64 = 28;

/// Shortest series key accepted: two identifiers and at least one more byte.
pub const MIN_KEY_LEN: u64 = 17;

/// Where a block lies in the file and the time range that it covers.
#[derive(Clone, Copy, Debug, PartialEq, Eq, Structural)]
pub struct Block {
    pub min_time: i64,
    pub max_time: i64,
    pub offset: u64,
    pub size: u32,
}

/// The block record stored at `off`.
pub open spec fn block_at(d: Seq<u8>, off: int) -> Block {
    Block {
        min_time: as_i64(be_at(d, off, 8)) as i64,
        max_time: as_i64(be_at(d, off + 8, 8)) as i64,
        offset: be_at(d, off + 16, 8) as u64,
        size: be_at(d, off + 24, 4) as u32,
    }
}

/// A block record that is consistent: its time range is ordered and its
/// payload ends before the index starts.
pub open spec fn block_valid(b: Block, index_offset: u64) -> bool {
    b.min_time <= b.max_time && b.offset + b.size <= index_offset
}

/// One block of one series, with the series' key, value type and block count.
#[derive(Clone, Debug)]
pub struct IndexEntry {
    pub key: Vec<u8>,
    pub block_type: u8,
    pub count: u16,
    pub block: Block,
    /// Position of `block` among the series' blocks, from 1.
    pub curr_block: u16,
}

impl IndexEntry {
    /// The key holds both identifiers and the position lies within the count.
    pub open spec fn wf(&self) -> bool {
        self.key@.len() >= MIN_KEY_LEN && 1 <= self.curr_block <= self.count
    }

    /// The organisation that this entry belongs to.
    pub fn org_id(&self) -> (r: InfluxID)
        requires
            self.key@.len() >= 8,
        ensures
            r.0 as nat == be_at(self.key@, 0, 8),
    {
        IndexEntry::extract_id_from_slice(self.key.as_slice(), 0)
    }

    /// The bucket that this entry belongs to.
    pub fn bucket_id(&self) -> (r: InfluxID)
        requires
            self.key@.len() >= 16,
        ensures
            r.0 as nat == be_at(self.key@, 8, 8),
    {
        IndexEntry::extract_id_from_slice(self.key.as_slice(), 8)
    }

    fn extract_id_from_slice(data: &[u8], off: usize) -> (r: InfluxID)
        requires
            off + 8 <= data@.len(),
        ensures
            r.0 as nat == be_at(data@, off as int, 8),
    {
        let buf: [u8; 8] = [
            data[off],
            data[off + 1],
            data[off + 2],
            data[off + 3],
            data[off + 4],
            data[off + 5],
            data[off + 6],
            data[off + 7],
        ];
        assert(buf@ =~= data@.subrange(off as int, off + 8));
        InfluxID::from_be_bytes(buf)
    }

    /// Measurement, tags and field of this entry's series key.
    pub fn parse_key(&self) -> (r: Result<ParsedTSMKey, TSMError>)
        ensures
            parsed_from(self.key@, r),
    {
        parse_tsm_key(copy_all(&self.key))
    }
}

/// Whether two entries hold the same key, type, count, block and position.
pub open spec fn same_entry(a: IndexEntry, b: IndexEntry) -> bool {
    &&& a.key@ == b.key@
    &&& a.block_type == b.block_type
    &&& a.count == b.count
    &&& a.block == b.block
    &&& a.curr_block == b.curr_block
}

/// `e` is the entry that comes right after `prev` in a walk: the next block
/// of the same series, or the first block of a new series once `prev` was the
/// last of its own.
pub open spec fn follows(prev: IndexEntry, e: IndexEntry) -> bool {
    ||| prev.curr_block < prev.count && e.curr_block == prev.curr_block + 1 && e.count == prev.count
        && e.key@ == prev.key@ && e.block_type == prev.block_type
    ||| prev.curr_block == prev.count && e.curr_block == 1
}

/// Entries in walk order: each well formed, the first opening a series, and
/// each following the one before it.
pub open spec fn well_sequenced(es: Seq<IndexEntry>) -> bool {
    &&& forall|j: int| 0 <= j < es.len() ==> (#[trigger] es[j]).wf()
    &&& es.len() > 0 ==> es[0].curr_block == 1
    &&& forall|j: int| 1 <= j < es.len() ==> follows(es[j - 1], #[trigger] es[j])
}

/// The sum of the block counts that the series of `es` declare, taken at the
/// entry that opens each series.
pub open spec fn declared_blocks(es: Seq<IndexEntry>) -> int
    decreases es.len(),
{
    if es.len() == 0 {
        0
    } else {
        declared_blocks(es.drop_last()) + if es.last().curr_block == 1 {
            es.last().count as int
        } else {
            0
        }
    }
}

/// What the next read yields: key, block type, count, block, position and the
/// offset after it; or the kind of error.
pub type Step = Result<(Seq<u8>, u8, u16, Block, u16, int), Failure>;

/// A block record read at `off` from an index that ends at `end`, or why
/// none can be.
pub open spec fn block_step(d: Seq<u8>, off: int, end: int, index_offset: u64) -> Result<
    Block,
    Failure,
> {
    if off + BLOCK_RECORD_LEN > end {
        Err((ErrorKind::Io, at_offset("index ends inside a block record"@, off as nat)))
    } else if !block_valid(block_at(d, off), index_offset) {
        Err((ErrorKind::Decode, at_offset("block record is inconsistent"@, off as nat)))
    } else {
        Ok(block_at(d, off))
    }
}

/// A series header and its first block record read at `off` from an index
/// that ends at `end`.
pub open spec fn series_step(d: Seq<u8>, off: int, end: int, index_offset: u64) -> Step {
    if off + 2 > end {
        Err((ErrorKind::Io, at_offset("index ends inside a series header"@, off as nat)))
    } else {
        let kl = be_at(d, off, 2) as int;
        if off + 5 + kl > end {
            Err((ErrorKind::Io, at_offset("index ends inside a series header"@, off as nat)))
        } else {
            let count = be_at(d, off + 3 + kl, 2);
            if kl < MIN_KEY_LEN || count == 0 {
                Err((ErrorKind::Decode, at_offset("series header is malformed"@, off as nat)))
            } else {
                match block_step(d, off + 5 + kl, end, index_offset) {
                    Err(f) => Err(f),
                    Ok(b) => Ok(
                        (
                            d.subrange(off + 2, off + 2 + kl),
                            d[off + 2 + kl],
                            count as u16,
                            b,
                            1u16,
                            off + 5 + kl + BLOCK_RECORD_LEN,
                        ),
                    ),
                }
            }
        }
    }
}

/// Where a walk stands within a series: the last entry's key, block type,
/// count and position, or nothing before the first entry.
pub type Cursor = Option<(Seq<u8>, u8, u16, u16)>;

/// The cursor that the last entry produced leaves.
pub open spec fn cursor_of(s: Option<IndexEntry>) -> Cursor {
    match s {
        Some(e) => Some((e.key@, e.block_type, e.count, e.curr_block)),
        None => None,
    }
}

/// What is read at `off` from cursor `c`: the next block of the open series,
/// or a new series once that one has all its blocks.
pub open spec fn step_at(d: Seq<u8>, off: int, end: int, index_offset: u64, c: Cursor) -> Step {
    match c {
        Some((key, bt, count, cur)) => if cur < count {
            match block_step(d, off, end, index_offset) {
                Err(f) => Err(f),
                Ok(b) => Ok((key, bt, count, b, (cur + 1) as u16, off + BLOCK_RECORD_LEN)),
            }
        } else {
            series_step(d, off, end, index_offset)
        },
        None => series_step(d, off, end, index_offset),
    }
}

/// An entry as the walk sees it: key, block type, count, block and position.
pub type EntryModel = (Seq<u8>, u8, u16, Block, u16);

/// The entries as the walk sees them.
pub open spec fn models(es: Seq<IndexEntry>) -> Seq<EntryModel> {
    es.map_values(|e: IndexEntry| (e.key@, e.block_type, e.count, e.block, e.curr_block))
}

/// Every entry of the index from `off` to its end `end`, starting at cursor
/// `c`, or the first failure. An index that ends inside a series fails.
#[verifier::opaque]
pub open spec fn walk(d: Seq<u8>, end: int, index_offset: u64, off: int, c: Cursor) -> Result<
    Seq<EntryModel>,
    Failure,
>
    decreases
            (if off > end {
                1
            } else {
                end - off + 2
            }),
{
    if off == end {
        match c {
            Some((_, _, count, cur)) => if cur < count {
                Err((ErrorKind::Decode, at_offset("index ends inside a series"@, end as nat)))
            } else {
                Ok(seq![])
            },
            None => Ok(seq![]),
        }
    } else {
        match step_at(d, off, end, index_offset, c) {
            Err(f) => Err(f),
            Ok((key, bt, count, b, cur, noff)) => match walk(
                d,
                end,
                index_offset,
                noff,
                Some((key, bt, count, cur)),
            ) {
                Err(f) => Err(f),
                Ok(rest) => Ok(seq![(key, bt, count, b, cur)] + rest),
            },
        }
    }
}

/// `w` with the entries `pre` in front of what it yields.
pub open spec fn prepend(pre: Seq<EntryModel>, w: Result<Seq<EntryModel>, Failure>) -> Result<
    Seq<EntryModel>,
    Failure,
> {
    match w {
        Ok(rest) => Ok(pre + rest),
        Err(f) => Err(f),
    }
}

/// `r` is what a walk with outcome `w` returns: its entries, or its failure.
pub open spec fn walked(w: Result<Seq<EntryModel>, Failure>, r: Result<Vec<IndexEntry>, TSMError>) -> bool {
    match w {
        Ok(ms) => r matches Ok(v) && models(v@) == ms,
        Err(f) => fails_with(r, f),
    }
}

proof fn lemma_walk_step(d: Seq<u8>, end: int, index_offset: u64, off: int, c: Cursor)
    requires
        off != end,
        step_at(d, off, end, index_offset, c) is Ok,
    ensures
        ({
            let (key, bt, count, b, cur, noff) = step_at(d, off, end, index_offset, c)->Ok_0;
            walk(d, end, index_offset, off, c) == prepend(
                seq![(key, bt, count, b, cur)],
                walk(d, end, index_offset, noff, Some((key, bt, count, cur))),
            )
        }),
{
    reveal(walk);
}

proof fn lemma_walk_end(d: Seq<u8>, end: int, index_offset: u64, c: Cursor)
    ensures
        walk(d, end, index_offset, end, c) == if c matches Some((_, _, count, cur)) && cur < count {
            Err((ErrorKind::Decode, at_offset("index ends inside a series"@, end as nat)))
        } else {
            Ok::<Seq<EntryModel>, Failure>(seq![])
        },
{
    reveal(walk);
}

proof fn lemma_walk_fail(d: Seq<u8>, end: int, index_offset: u64, off: int, c: Cursor)
    requires
        off != end,
        step_at(d, off, end, index_offset, c) is Err,
    ensures
        walk(d, end, index_offset, off, c) == Err::<Seq<EntryModel>, Failure>(
            step_at(d, off, end, index_offset, c)->Err_0,
        ),
{
    reveal(walk);
}

proof fn lemma_prepend_push(pre: Seq<EntryModel>, m: EntryModel, w: Result<Seq<EntryModel>, Failure>)
    ensures
        prepend(pre, prepend(seq![m], w)) == prepend(pre.push(m), w),
{
    if w is Ok {
        assert(pre + (seq![m] + w->Ok_0) =~= pre.push(m) + w->Ok_0);
    }
}

proof fn lemma_sequenced_push(prev: Seq<IndexEntry>, e: IndexEntry)
    requires
        well_sequenced(prev),
        e.wf(),
        prev.len() == 0 ==> e.curr_block == 1,
        prev.len() > 0 ==> follows(prev.last(), e),
    ensures
        well_sequenced(prev.push(e)),
{
    let es = prev.push(e);
    assert forall|j: int| 1 <= j < es.len() implies follows(es[j - 1], #[trigger] es[j]) by {
        if j < prev.len() {
            assert(es[j - 1] == prev[j - 1]);
            assert(es[j] == prev[j]);
        }
    }
    assert forall|j: int| 0 <= j < es.len() implies (#[trigger] es[j]).wf() by {
        if j < prev.len() {
            assert(es[j] == prev[j]);
        }
    }
}

/// Reads the index of a TSM file held in memory, one block of one series at a
/// time, in the order in which the file stores them.
#[derive(Debug)]
pub struct TSMIndexReader {
    pub data: Vec<u8>,
    /// Where the index starts, as the file's last eight bytes give it.
    pub index_offset: u64,
    pub curr_offset: u64,
    /// Where the index ends: the start of the last eight bytes.
    pub end_offset: u64,
    /// The entry last produced.
    pub series: Option<IndexEntry>,
    /// Set once a read has failed.
    pub done: bool,
}

impl TSMIndexReader {
    /// Every entry that the reader holds is well formed.
    pub open spec fn wf(&self) -> bool {
        &&& self.end_offset <= self.data@.len()
        &&& self.series matches Some(e) ==> e.wf()
    }

    /// No more entries come.
    pub open spec fn is_exhausted(&self) -> bool {
        self.done || self.curr_offset == self.end_offset
    }

    /// What the next call of `next` reads, when the reader is not exhausted.
    pub open spec fn step(&self) -> Step {
        step_at(
            self.data@,
            self.curr_offset as int,
            self.end_offset as int,
            self.index_offset,
            cursor_of(self.series),
        )
    }

    /// A reader over `data`, a file of `len` bytes whose last eight bytes give
    /// the offset of the index.
    pub fn try_new(data: Vec<u8>, len: usize) -> (r: Result<Self, TSMError>)
        ensures
            r is Ok <==> 8 <= len <= data@.len(),
            r is Err ==> r->Err_0.kind == ErrorKind::Io && r->Err_0.description@
                == "file is too short to hold an index offset"@,
            r matches Ok(rd) ==> {
                &&& rd.wf()
                &&& rd.data@ == data@
                &&& rd.index_offset as nat == be_at(data@, len - 8, 8)
                &&& rd.curr_offset == rd.index_offset
                &&& rd.end_offset == len - 8
                &&& rd.series is None
                &&& !rd.done
                &&& rd.is_exhausted() <==> rd.index_offset == len - 8
            },
    {
        if len < 8 || len > data.len() {
            return Err(TSMError::new(ErrorKind::Io, "file is too short to hold an index offset"));
        }
        let index_offset = read_be(data.as_slice(), len - 8, 8);
        Ok(TSMIndexReader {
            data,
            index_offset,
            curr_offset: index_offset,
            end_offset: (len - 8) as u64,
            series: None,
            done: false,
        })
    }

    /// Reads the block record at the current offset and moves past it.
    fn next_block_entry(&mut self) -> (r: Result<Block, TSMError>)
        requires
            old(self).end_offset <= old(self).data@.len(),
        ensures
            final(self).data@ == old(self).data@,
            final(self).index_offset == old(self).index_offset,
            final(self).end_offset == old(self).end_offset,
            final(self).series == old(self).series,
            final(self).done == old(self).done,
            r is Ok ==> block_valid(r->Ok_0, old(self).index_offset),
            match block_step(
                old(self).data@,
                old(self).curr_offset as int,
                old(self).end_offset as int,
                old(self).index_offset,
            ) {
                Err(f) => fails_with(r, f),
                Ok(b) => r == Ok::<Block, TSMError>(b) && final(self).curr_offset == old(self).curr_offset
                    + BLOCK_RECORD_LEN,
            },
    {
        let len = self.end_offset;
        let off = self.curr_offset;
        let data_len: usize = self.data.len();
        assert(len <= data_len);
        if off > len || len - off < BLOCK_RECORD_LEN {
            return Err(TSMError::at(ErrorKind::Io, "index ends inside a block record", off));
        }
        let o = off as usize;
        let d = self.data.as_slice();
        let min_time = read_be_i64(d, o);
        let max_time = read_be_i64(d, o + 8);
        let offset = read_be(d, o + 16, 8);
        let size = read_be(d, o + 24, 4);
        proof {
            crate::bytes::lemma_be_uint_bound(d@.subrange(o + 24, o + 28));
            reveal_with_fuel(crate::bytes::pow256, 5);
        }
        let block = Block { min_time, max_time, offset, size: size as u32 };
        if min_time > max_time || offset > self.index_offset || self.index_offset - offset < size {
            return Err(TSMError::at(ErrorKind::Decode, "block record is inconsistent", off));
        }
        self.curr_offset = off + BLOCK_RECORD_LEN;
        Ok(block)
    }

    /// Reads a series header and its first block record.
    fn next_index_entry(&mut self) -> (r: Result<IndexEntry, TSMError>)
        requires
            old(self).end_offset <= old(self).data@.len(),
        ensures
            final(self).data@ == old(self).data@,
            final(self).index_offset == old(self).index_offset,
            final(self).end_offset == old(self).end_offset,
            final(self).series == old(self).series,
            final(self).done == old(self).done,
            match series_step(
                old(self).data@,
                old(self).curr_offset as int,
                old(self).end_offset as int,
                old(self).index_offset,
            ) {
                Err(f) => fails_with(r, f),
                Ok((key, bt, count, b, cur, noff)) => r matches Ok(e) && e.key@ == key && e.block_type
                    == bt && e.count == count && e.block == b && e.curr_block == cur
                    && final(self).curr_offset == noff,
            },
            r is Ok ==> r->Ok_0.wf(),
    {
        let len = self.end_offset;
        let off = self.curr_offset;
        let data_len: usize = self.data.len();
        assert(len <= data_len);
        if off > len || len - off < 2 {
            return Err(TSMError::at(ErrorKind::Io, "index ends inside a series header", off));
        }
        let o = off as usize;
        let key_len = read_be(self.data.as_slice(), o, 2);
        proof {
            crate::bytes::lemma_be_uint_bound(self.data@.subrange(o as int, o + 2));
            reveal_with_fuel(crate::bytes::pow256, 3);
        }
        if len - off < 5 || len - off - 5 < key_len {
            return Err(TSMError::at(ErrorKind::Io, "index ends inside a series header", off));
        }
        let k = key_len as usize;
        let count = read_be(self.data.as_slice(), o + 3 + k, 2);
        proof {
            crate::bytes::lemma_be_uint_bound(self.data@.subrange(o + 3 + k, o + 5 + k));
        }
        if key_len < MIN_KEY_LEN || count == 0 {
            return Err(TSMError::at(ErrorKind::Decode, "series header is malformed", off));
        }
        let key = copy_range(self.data.as_slice(), o + 2, o + 2 + k);
        let block_type = self.data[o + 2 + k];
        self.curr_offset = off + 5 + key_len;
        let block = match self.next_block_entry() {
            Ok(b) => b,
            Err(e) => {
                self.curr_offset = off;
                return Err(e);
            },
        };
        Ok(IndexEntry { key, block_type, count: count as u16, block, curr_block: 1 })
    }

    /// How much of the index is left to read; it falls with every entry read.
    pub open spec fn remaining(&self) -> int {
        if self.done {
            0
        } else if self.curr_offset > self.end_offset {
            1
        } else {
            self.end_offset - self.curr_offset + 2
        }
    }

    /// Reads every entry of a fresh reader: exactly what `walk` gives for the
    /// file, or its first failure. An index that ends inside a series is a
    /// decode error.
    ///
    /// A successful walk yields one entry per block record of the index, in
    /// order, and as many as the series declare blocks.
    #[verifier::rlimit(100)]
    pub fn read_all(&mut self) -> (r: Result<Vec<IndexEntry>, TSMError>)
        requires
            old(self).wf(),
            !old(self).done,
            old(self).series is None,
        ensures
            walked(
                walk(
                    old(self).data@,
                    old(self).end_offset as int,
                    old(self).index_offset,
                    old(self).curr_offset as int,
                    None,
                ),
                r,
            ),
            r matches Ok(v) ==> {
                &&& well_sequenced(v@)
                &&& v@.len() > 0 ==> v@.last().curr_block == v@.last().count
                &&& v@.len() == declared_blocks(v@)
            },
    {
        let ghost d0 = self.data@;
        let ghost end0 = self.end_offset as int;
        let ghost idx0 = self.index_offset;
        let ghost w0 = walk(d0, end0, idx0, self.curr_offset as int, None);
        let mut entries: Vec<IndexEntry> = Vec::new();
        assert(models(entries@) =~= seq![]);
        assert(prepend(seq![], w0) == w0) by {
            if w0 is Ok {
                assert(seq![] + w0->Ok_0 =~= w0->Ok_0);
            }
        }
        loop
            invariant
                w0 == walk(
                    old(self).data@,
                    old(self).end_offset as int,
                    old(self).index_offset,
                    old(self).curr_offset as int,
                    None,
                ),
                self.wf(),
                !self.done,
                self.data@ == d0,
                self.end_offset == end0,
                self.index_offset == idx0,
                w0 == prepend(
                    models(entries@),
                    walk(d0, end0, idx0, self.curr_offset as int, cursor_of(self.series)),
                ),
                well_sequenced(entries@),
                entries@.len() == 0 ==> self.series is None,
                entries@.len() > 0 ==> (self.series matches Some(s) && same_entry(s, entries@.last())),
                entries@.len() == 0 ==> declared_blocks(entries@) == 0,
                entries@.len() > 0 ==> entries@.len() + entries@.last().count
                    - entries@.last().curr_block == declared_blocks(entries@),
            decreases self.remaining(),
        {
            let ghost before = *self;
            let ghost prev = entries@;
            match self.next() {
                None => {
                    assert(self.curr_offset as int == end0);
                    proof {
                        lemma_walk_end(d0, end0, idx0, cursor_of(self.series));
                    }
                    let ends_inside = match &self.series {
                        Some(s) => s.curr_block < s.count,
                        None => false,
                    };
                    let ghost c = cursor_of(self.series);
                    assert(ends_inside <==> (c matches Some((_, _, count, cur)) && cur < count));
                    if ends_inside {
                        assert(w0 == Err::<Seq<EntryModel>, Failure>(
                            (ErrorKind::Decode, at_offset("index ends inside a series"@, self.end_offset as nat)),
                        ));
                        let r = Err(
                            TSMError::at(ErrorKind::Decode, "index ends inside a series", self.end_offset),
                        );
                        assert(walked(w0, r));
                        return r;
                    }
                    assert(models(prev) + seq![] =~= models(prev));
                    assert(w0 == Ok::<Seq<EntryModel>, Failure>(models(entries@)));
                    let r = Ok(entries);
                    assert(walked(w0, r));
                    return r;
                },
                Some(Err(e)) => {
                    proof {
                        lemma_walk_fail(
                            d0,
                            end0,
                            idx0,
                            before.curr_offset as int,
                            cursor_of(before.series),
                        );
                    }
                    let r = Err(e);
                    assert(walked(w0, r));
                    return r;
                },
                Some(Ok(e)) => {
                    let ghost m: EntryModel = (e.key@, e.block_type, e.count, e.block, e.curr_block);
                    proof {
                        assert(!before.is_exhausted());
                        assert(before.step() is Ok);
                        if prev.len() > 0 {
                            assert(follows(prev.last(), e));
                        }
                        assert(cursor_of(self.series) == Some(
                            (e.key@, e.block_type, e.count, e.curr_block),
                        ));
                        lemma_walk_step(
                            d0,
                            end0,
                            idx0,
                            before.curr_offset as int,
                            cursor_of(before.series),
                        );
                        lemma_prepend_push(
                            models(prev),
                            m,
                            walk(d0, end0, idx0, self.curr_offset as int, cursor_of(self.series)),
                        );
                        lemma_sequenced_push(prev, e);
                    }
                    entries.push(e);
                    assert(models(entries@) =~= models(prev).push(m));
                    assert(entries@.drop_last() =~= prev);
                    assert(entries@.last() == e);
                    assert(declared_blocks(entries@) == declared_blocks(prev) + if e.curr_block == 1 {
                        e.count as int
                    } else {
                        0
                    });
                },
            }
        }
    }

    /// The next block of the index, an error, or `None` once the index is done.
    /// After an error the reader produces nothing more.
    pub fn next(&mut self) -> (r: Option<Result<IndexEntry, TSMError>>)
        requires
            old(self).wf(),
        ensures
            final(self).wf(),
            final(self).data@ == old(self).data@,
            final(self).index_offset == old(self).index_offset,
            final(self).end_offset == old(self).end_offset,
            old(self).is_exhausted() ==> r is None && *final(self) == *old(self),
            !old(self).is_exhausted() ==> match old(self).step() {
                Err(f) => (r matches Some(Err(e)) && e.kind == f.0 && e.description@ == f.1)
                    && final(self).done,
                Ok((key, bt, count, b, cur, noff)) => r matches Some(Ok(e)) && e.key@ == key
                    && e.block_type == bt && e.count == count && e.block == b && e.curr_block == cur
                    && final(self).curr_offset == noff && !final(self).done
                    && (final(self).series matches Some(s) && same_entry(s, e)),
            },
            r matches Some(Ok(e)) ==> e.wf() && block_valid(e.block, old(self).index_offset),
    {
        if self.done || self.curr_offset == self.end_offset {
            return None;
        }
        let cont: Option<(Vec<u8>, u8, u16, u16)> = match &self.series {
            Some(e) => if e.curr_block < e.count {
                Some((copy_all(&e.key), e.block_type, e.count, e.curr_block))
            } else {
                None
            },
            None => None,
        };
        let res = match cont {
            Some((key, block_type, count, curr)) => match self.next_block_entry() {
                Ok(block) => {
                    assert(key@.len() >= MIN_KEY_LEN);
                    assert(block_valid(block, self.index_offset));
                    Ok(IndexEntry { key, block_type, count, block, curr_block: curr + 1 })
                },
                Err(e) => Err(e),
            },
            None => {
                let r = self.next_index_entry();
                if let Ok(e) = &r {
                    assert(e.wf());
                    assert(block_valid(e.block, self.index_offset));
                }
                r
            },
        };
        match res {
            Ok(e) => {
                let kept = IndexEntry {
                    key: copy_all(&e.key),
                    block_type: e.block_type,
                    count: e.count,
                    block: e.block,
                    curr_block: e.curr_block,
                };
                self.series = Some(kept);
                Some(Ok(e))
            },
            Err(e) => {
                self.done = true;
                Some(Err(e))
            },
        }
    }
}

} // verus!
