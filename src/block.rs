use crate::bytes::copy_range;
use crate::error::{fails_with, ErrorKind, Failure, TSMError};
use crate::index::Block;
use integer_encoding::VarInt;
use crate::text::{at_offset, decimal, decimal_string, describe_at};
use vstd::prelude::*;
use vstd::string::StringExecFns;

verus! {

pub const F64_BLOCKTYPE_MARKER: u8 = 0;

pub const I64_BLOCKTYPE_MARKER: u8 = 1;

pub const BOOL_BLOCKTYPE_MARKER: u8 = 2;

pub const STRING_BLOCKTYPE_MARKER: u8 = 3;

pub const U64_BLOCKTYPE_MARKER: u8 = 4;

/// The most values that one block holds.
pub const MAX_BLOCK_VALUES: usize = 1000;

/// Bytes before the length of the timestamp stream: checksum and block type.
pub const BLOCK_HEADER_LEN: u64 = 5;

/// The most bytes that a 64-bit varint takes.
pub const MAX_VARINT_LEN: usize = 10;

/// Bytes that a varint at the start of `s` takes: up to and including the
/// first byte without its high bit, or all of `s` if there is none.
pub open spec fn varint_len(s: Seq<u8>) -> int
    decreases s.len(),
{
    if s.len() == 0 {
        0
    } else if s[0] < 128 {
        1
    } else {
        1 + varint_len(s.drop_first())
    }
}

/// The number that base-128 digits encode, least significant first, taking
/// the low seven bits of each byte.
pub open spec fn varint_value(s: Seq<u8>) -> nat
    decreases s.len(),
{
    if s.len() == 0 {
        0
    } else {
        (s[0] % 128) as nat + 128 * varint_value(s.drop_first())
    }
}

/// Relies on integer_encoding's `u64::decode_var` on `src[from..to]`: it
/// reads bytes until one without its high bit or the end, and returns the
/// value, modulo 2^64, with the number of bytes read.
#[verifier::external_body]
fn decode_varint(src: &[u8], from: usize, to: usize) -> (r: (u64, usize))
    requires
        from <= to <= src@.len(),
        to - from <= MAX_VARINT_LEN,
    ensures
        r.1 as int == varint_len(src@.subrange(from as int, to as int)),
        r.0 as nat == varint_value(src@.subrange(from as int, from + r.1)) % 0x1_0000_0000_0000_0000,
{
    u64::decode_var(&src[from..to])
}

/// The type byte, timestamp stream and value stream of the block payload
/// that `b` locates in `d`, or the error, each naming the block's offset.
pub open spec fn payload_step(d: Seq<u8>, b: Block) -> Result<(u8, Seq<u8>, Seq<u8>), Failure> {
    let off = b.offset as int;
    let end = off + b.size;
    let fail = |t: Seq<char>| at_offset(t, b.offset as nat);
    if end > d.len() {
        Err((ErrorKind::Io, fail("block lies past the end of the file"@)))
    } else if b.size < BLOCK_HEADER_LEN {
        Err((ErrorKind::Decode, fail("block is too short for its header"@)))
    } else {
        let bt = d[off + 4];
        if bt == BOOL_BLOCKTYPE_MARKER {
            Err((ErrorKind::UnsupportedBlockType, fail("bool block type unsupported"@)))
        } else if bt == STRING_BLOCKTYPE_MARKER {
            Err((ErrorKind::UnsupportedBlockType, fail("string block type unsupported"@)))
        } else if bt == U64_BLOCKTYPE_MARKER {
            Err((ErrorKind::UnsupportedBlockType, fail("unsigned integer block type unsupported"@)))
        } else if bt != F64_BLOCKTYPE_MARKER && bt != I64_BLOCKTYPE_MARKER {
            Err((ErrorKind::UnsupportedBlockType, fail(unknown_marker_text(bt))))
        } else {
            let hdr = off + BLOCK_HEADER_LEN;
            let vend = if hdr + MAX_VARINT_LEN < end {
                hdr + MAX_VARINT_LEN
            } else {
                end
            };
            let vs = d.subrange(hdr, vend);
            let n = varint_len(vs);
            if n == 0 || vs[n - 1] >= 128 {
                Err((ErrorKind::Decode, fail("timestamp length is not a complete varint"@)))
            } else if n == MAX_VARINT_LEN && vs[n - 1] > 1 {
                Err((ErrorKind::Decode, fail("timestamp length overflows 64 bits"@)))
            } else {
                let tl = varint_value(vs.subrange(0, n)) % 0x1_0000_0000_0000_0000;
                if hdr + n + tl > end {
                    Err((ErrorKind::Decode, fail("timestamp stream runs past the block"@)))
                } else {
                    Ok((bt, d.subrange(hdr + n, hdr + n + tl), d.subrange(hdr + n + tl, end)))
                }
            }
        }
    }
}

/// The description of the error for a block type marker outside the five
/// known ones.
pub open spec fn unknown_marker_text(bt: u8) -> Seq<char> {
    "unsupported block type "@ + decimal(bt as nat)
}

proof fn lemma_varint_len(s: Seq<u8>)
    ensures
        0 <= varint_len(s) <= s.len(),
        s.len() > 0 ==> varint_len(s) >= 1,
    decreases s.len(),
{
    if s.len() > 0 && s[0] >= 128 {
        lemma_varint_len(s.drop_first());
    }
}

/// A readable block of bool, string or unsigned type is refused as
/// unsupported, whatever its streams hold.
pub proof fn lemma_unsupported_block_types(d: Seq<u8>, b: Block)
    requires
        b.offset + b.size <= d.len(),
        b.size >= BLOCK_HEADER_LEN,
        d[b.offset + 4] == BOOL_BLOCKTYPE_MARKER || d[b.offset + 4] == STRING_BLOCKTYPE_MARKER
            || d[b.offset + 4] == U64_BLOCKTYPE_MARKER,
    ensures
        payload_step(d, b) matches Err(f) && f.0 == ErrorKind::UnsupportedBlockType,
{
}

/// A block whose declared size runs past the end of the file is an I/O error.
pub proof fn lemma_truncated_block(d: Seq<u8>, b: Block)
    requires
        b.offset + b.size > d.len(),
    ensures
        payload_step(d, b) matches Err(f) && f.0 == ErrorKind::Io,
{
}

/// The streams of one block, before the column decoders run on them.
#[derive(Clone, Debug)]
pub struct BlockPayload {
    pub block_type: u8,
    pub ts: Vec<u8>,
    pub values: Vec<u8>,
}

/// Reads block payloads of a TSM file held in memory.
#[derive(Debug)]
pub struct TSMBlockReader {
    pub data: Vec<u8>,
}

impl TSMBlockReader {
    pub fn new(data: Vec<u8>) -> (r: Self)
        ensures
            r.data@ == data@,
    {
        Self { data }
    }

    /// Locates the block that `block` describes and splits its payload into
    /// the timestamp stream and the value stream. The 4-byte checksum is not
    /// checked. Block types other than float and integer are refused before
    /// any stream is read.
    pub fn read_block(&self, block: &Block) -> (r: Result<BlockPayload, TSMError>)
        ensures
            match payload_step(self.data@, *block) {
                Err(f) => fails_with(r, f),
                Ok((bt, ts, vals)) => r matches Ok(p) && p.block_type == bt && p.ts@ == ts
                    && p.values@ == vals,
            },
    {
        let d = self.data.as_slice();
        let len = self.data.len() as u64;
        let off = block.offset;
        let size = block.size as u64;
        if off > len || len - off < size {
            return Err(TSMError::at(ErrorKind::Io, "block lies past the end of the file", off));
        }
        if size < BLOCK_HEADER_LEN {
            return Err(TSMError::at(ErrorKind::Decode, "block is too short for its header", off));
        }
        let o = off as usize;
        let end = (off + size) as usize;
        let bt = d[o + 4];
        if bt == BOOL_BLOCKTYPE_MARKER {
            return Err(TSMError::at(ErrorKind::UnsupportedBlockType, "bool block type unsupported", off));
        } else if bt == STRING_BLOCKTYPE_MARKER {
            return Err(
                TSMError::at(ErrorKind::UnsupportedBlockType, "string block type unsupported", off),
            );
        } else if bt == U64_BLOCKTYPE_MARKER {
            return Err(
                TSMError::at(ErrorKind::UnsupportedBlockType, "unsigned integer block type unsupported", off),
            );
        } else if bt != F64_BLOCKTYPE_MARKER && bt != I64_BLOCKTYPE_MARKER {
            let mut description = String::from_str("unsupported block type ");
            let digits = decimal_string(bt as u64);
            description.append(digits.as_str());
            return Err(
                TSMError {
                    kind: ErrorKind::UnsupportedBlockType,
                    description: describe_at(description.as_str(), off),
                },
            );
        }
        let hdr = o + 5;
        let vend = if end - hdr > MAX_VARINT_LEN {
            hdr + MAX_VARINT_LEN
        } else {
            end
        };
        let (ts_len, n) = decode_varint(d, hdr, vend);
        let ghost vs = d@.subrange(hdr as int, vend as int);
        proof {
            lemma_varint_len(vs);
        }
        if n == 0 || d[hdr + n - 1] >= 128 {
            return Err(TSMError::at(ErrorKind::Decode, "timestamp length is not a complete varint", off));
        }
        if n == MAX_VARINT_LEN && d[hdr + n - 1] > 1 {
            return Err(TSMError::at(ErrorKind::Decode, "timestamp length overflows 64 bits", off));
        }
        assert(vs.subrange(0, n as int) =~= d@.subrange(hdr as int, hdr + n));
        let start = hdr + n;
        let room: u64 = (end - start) as u64;
        if room < ts_len {
            return Err(TSMError::at(ErrorKind::Decode, "timestamp stream runs past the block", off));
        }
        let mid = start + ts_len as usize;
        Ok(BlockPayload {
            block_type: bt,
            ts: copy_range(d, start, mid),
            values: copy_range(d, mid, end),
        })
    }
}

/// Checks that decoded columns are aligned and fit in a block: as many
/// timestamps as values, and no more than the largest block holds.
pub fn check_column_lengths(ts_len: usize, values_len: usize) -> (r: Result<(), TSMError>)
    ensures
        r is Ok <==> ts_len == values_len && ts_len <= MAX_BLOCK_VALUES,
        r is Err ==> r->Err_0.kind == ErrorKind::Decode,
        ts_len != values_len ==> r->Err_0.description@
            == "timestamp and value columns differ in length"@,
        ts_len == values_len && ts_len > MAX_BLOCK_VALUES ==> r->Err_0.description@
            == "block holds more values than allowed"@,
{
    if ts_len != values_len {
        return Err(TSMError::new(ErrorKind::Decode, "timestamp and value columns differ in length"));
    }
    if ts_len > MAX_BLOCK_VALUES {
        return Err(TSMError::new(ErrorKind::Decode, "block holds more values than allowed"));
    }
    Ok(())
}

} // verus!
