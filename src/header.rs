//! The file header, the block header and the two block payloads, with their
//! byte layouts and the builders that make them.
use vstd::prelude::*;
use vstd::bytes::*;
use vstd::utf8::*;
use crate::error::Error;
use crate::wire::{
    same_outcome, u64_at, u32_at, u64_field, u32_field, str_field, str_fits, parse_u64, parse_u32, parse_str,
    lemma_u64_round_trip, lemma_u32_round_trip, lemma_str_round_trip, read_u64, read_u32,
    read_str, write_bytes, write_u64, write_u32, write_str,
};

verus! {

/// The magic that opens a container: the ASCII text `tsbinfmt`.
pub open spec fn file_magic() -> Seq<u8> {
    seq![116u8, 115u8, 98u8, 105u8, 110u8, 102u8, 109u8, 116u8]
}

/// The magic that opens every block: the ASCII text `block` and three spaces.
pub open spec fn block_magic() -> Seq<u8> {
    seq![98u8, 108u8, 111u8, 99u8, 107u8, 32u8, 32u8, 32u8]
}

/// Encoded size of the file header in bytes.
pub const HEADER_SIZE: u64 = 56;

/// Encoded size of a float-series schema in bytes.
pub const F64TS_SCHEMA_SIZE: u64 = 24;

/// True when `input` agrees with `magic` on every position that both have.
pub open spec fn agrees_with_magic(magic: Seq<u8>, input: Seq<u8>) -> bool {
    forall|i: int| 0 <= i < magic.len() && i < input.len() ==> input[i] == magic[i]
}

fn agrees_with(magic: &[u8], input: &[u8]) -> (r: bool)
    ensures
        r == agrees_with_magic(magic@, input@),
{
    let mut i: usize = 0;
    while i < magic.len() && i < input.len()
        invariant
            i <= magic@.len(),
            forall|j: int| 0 <= j < i && j < input@.len() ==> input@[j] == magic@[j],
        decreases magic@.len() - i,
    {
        if input[i] != magic[i] {
            return false;
        }
        i = i + 1;
    }
    true
}

// ---------------------------------------------------------------------------
// File header

/// What a file header holds.
pub struct HeaderView {
    pub header_size: u64,
    pub major_version: u32,
    pub minor_version: u32,
    pub file_size: u64,
    pub reserved1: u64,
    pub reserved2: u64,
    pub reserved3: u64,
}

/// The header that opens a container. Its magic is fixed by the format and is
/// checked on reading rather than stored.
#[derive(Debug, Clone, Copy, PartialEq, Eq)]
pub struct Header {
    header_size: u64,
    major_version: u32,
    minor_version: u32,
    file_size: u64,
    reserved1: u64,
    reserved2: u64,
    reserved3: u64,
}

impl View for Header {
    type V = HeaderView;

    closed spec fn view(&self) -> HeaderView {
        HeaderView {
            header_size: self.header_size,
            major_version: self.major_version,
            minor_version: self.minor_version,
            file_size: self.file_size,
            reserved1: self.reserved1,
            reserved2: self.reserved2,
            reserved3: self.reserved3,
        }
    }
}

/// The bytes of a file header: magic, header size, major and minor version,
/// then four `u64` fields, the first of which records the file size.
pub open spec fn encode_header(h: HeaderView) -> Seq<u8> {
    file_magic() + u64_field(h.header_size) + u32_field(h.major_version) + u32_field(
        h.minor_version,
    ) + u64_field(h.file_size) + u64_field(h.reserved1) + u64_field(h.reserved2) + u64_field(
        h.reserved3,
    )
}

/// Decoding a file header at `p`: the header and the position after it, or
/// the error and the position where reading stopped.
pub open spec fn parse_header(d: Seq<u8>, p: int) -> (core::result::Result<HeaderView, Error>, int) {
    if p + 8 > d.len() {
        (Err(Error::EndOfFile), d.len() as int)
    } else if d.subrange(p, p + 8) != file_magic() {
        (Err(Error::Magic), p + 8)
    } else if p + 56 > d.len() {
        (Err(Error::EndOfFile), d.len() as int)
    } else {
        (
            Ok(
                HeaderView {
                    header_size: u64_at(d, p + 8),
                    major_version: u32_at(d, p + 16),
                    minor_version: u32_at(d, p + 20),
                    file_size: u64_at(d, p + 24),
                    reserved1: u64_at(d, p + 32),
                    reserved2: u64_at(d, p + 40),
                    reserved3: u64_at(d, p + 48),
                },
            ),
            p + 56,
        )
    }
}

/// Decoding an encoded file header gives back that header, wherever it
/// stands and whatever follows it.
pub proof fn lemma_header_round_trip(h: HeaderView, pre: Seq<u8>, tail: Seq<u8>)
    ensures
        encode_header(h).len() == HEADER_SIZE,
        parse_header(pre + encode_header(h) + tail, pre.len() as int) == (
        Ok::<HeaderView, Error>(h), pre.len() + 56int),
{
    lemma_auto_spec_u64_to_from_le_bytes();
    lemma_auto_spec_u32_to_from_le_bytes();
    let d = pre + encode_header(h) + tail;
    let p = pre.len() as int;
    assert(d.subrange(p, p + 8) =~= file_magic());
    assert(d.subrange(p + 8, p + 16) =~= u64_field(h.header_size));
    assert(d.subrange(p + 16, p + 20) =~= u32_field(h.major_version));
    assert(d.subrange(p + 20, p + 24) =~= u32_field(h.minor_version));
    assert(d.subrange(p + 24, p + 32) =~= u64_field(h.file_size));
    assert(d.subrange(p + 32, p + 40) =~= u64_field(h.reserved1));
    assert(d.subrange(p + 40, p + 48) =~= u64_field(h.reserved2));
    assert(d.subrange(p + 48, p + 56) =~= u64_field(h.reserved3));
}

/// The header of this format's version 0.1 for a file of `file_size` bytes.
pub open spec fn header_for(file_size: u64) -> HeaderView {
    HeaderView {
        header_size: HEADER_SIZE,
        major_version: 0,
        minor_version: 1,
        file_size,
        reserved1: 0,
        reserved2: 0,
        reserved3: 0,
    }
}

/// Changing any one of the eight magic bytes of a container makes reading
/// its header fail with `Magic`.
pub proof fn lemma_corrupt_magic(d: Seq<u8>, i: int, b: u8)
    requires
        d.len() >= 8,
        d.subrange(0, 8) == file_magic(),
        0 <= i < 8,
        b != d[i],
    ensures
        parse_header(d.update(i, b), 0) == (Err::<HeaderView, Error>(Error::Magic), 8int),
{
    let c = d.update(i, b);
    assert(c.subrange(0, 8)[i] != file_magic()[i]);
}

impl Header {
    /// A header of this format's version 0.1 for a file of `file_size` bytes.
    pub fn new(file_size: u64) -> (r: Header)
        ensures
            r@ == header_for(file_size),
    {
        Header {
            header_size: HEADER_SIZE,
            major_version: 0,
            minor_version: 1,
            file_size,
            reserved1: 0,
            reserved2: 0,
            reserved3: 0,
        }
    }

    /// The magic that opens a container.
    pub fn clone_magic() -> (r: [u8; 8])
        ensures
            r@ == file_magic(),
    {
        let r = [116u8, 115u8, 98u8, 105u8, 110u8, 102u8, 109u8, 116u8];
        assert(r@ =~= file_magic());
        r
    }

    /// Whether `input` agrees with the container magic on every position
    /// that both have.
    pub fn check_magic(input: &[u8]) -> (r: bool)
        ensures
            r == agrees_with_magic(file_magic(), input@),
    {
        let magic = Self::clone_magic();
        agrees_with(&magic, input)
    }

    /// Decodes the file header that starts at `pos` in `data`; see
    /// [`parse_header`]. The second result is the position after the read.
    pub fn read_from(data: &[u8], pos: usize) -> (r: (core::result::Result<Header, Error>, usize))
        requires
            pos <= data@.len(),
        ensures
            r.1 as int == parse_header(data@, pos as int).1,
            same_outcome(r.0, parse_header(data@, pos as int).0),
    {
        if data.len() - pos < 8 {
            return (Err(Error::EndOfFile), data.len());
        }
        let magic = &data[pos..pos + 8];
        if !Self::check_magic(magic) {
            return (Err(Error::Magic), pos + 8);
        }
        assert(data@.subrange(pos as int, pos + 8) =~= file_magic());
        let (header_size, q) = read_u64(data, pos + 8);
        let header_size = match header_size {
            Err(e) => return (Err(e), q),
            Ok(v) => v,
        };
        let (major_version, q) = read_u32(data, q);
        let major_version = match major_version {
            Err(e) => return (Err(e), q),
            Ok(v) => v,
        };
        let (minor_version, q) = read_u32(data, q);
        let minor_version = match minor_version {
            Err(e) => return (Err(e), q),
            Ok(v) => v,
        };
        let (file_size, q) = read_u64(data, q);
        let file_size = match file_size {
            Err(e) => return (Err(e), q),
            Ok(v) => v,
        };
        let (reserved1, q) = read_u64(data, q);
        let reserved1 = match reserved1 {
            Err(e) => return (Err(e), q),
            Ok(v) => v,
        };
        let (reserved2, q) = read_u64(data, q);
        let reserved2 = match reserved2 {
            Err(e) => return (Err(e), q),
            Ok(v) => v,
        };
        let (reserved3, q) = read_u64(data, q);
        let reserved3 = match reserved3 {
            Err(e) => return (Err(e), q),
            Ok(v) => v,
        };
        let h = Header {
            header_size,
            major_version,
            minor_version,
            file_size,
            reserved1,
            reserved2,
            reserved3,
        };
        (Ok(h), q)
    }

    /// Appends the encoded header to `sink`.
    pub fn write_into(&self, sink: &mut Vec<u8>)
        ensures
            final(sink)@ == old(sink)@ + encode_header(self@),
    {
        let magic = Self::clone_magic();
        write_bytes(sink, &magic);
        write_u64(sink, self.header_size);
        write_u32(sink, self.major_version);
        write_u32(sink, self.minor_version);
        write_u64(sink, self.file_size);
        write_u64(sink, self.reserved1);
        write_u64(sink, self.reserved2);
        write_u64(sink, self.reserved3);
        assert(sink@ =~= old(sink)@ + encode_header(self@));
    }
}

// ---------------------------------------------------------------------------
// Block header

/// What a block header holds: the block's kind, by name, and the declared
/// byte length of its payload.
pub struct BlockHeaderView {
    pub name: Seq<char>,
    pub size: u64,
}

/// The header that precedes every block.
#[derive(Debug, PartialEq, Eq)]
pub struct BlockHeader {
    name: String,
    size: u64,
}

impl View for BlockHeader {
    type V = BlockHeaderView;

    closed spec fn view(&self) -> BlockHeaderView {
        BlockHeaderView { name: self.name@, size: self.size }
    }
}

/// The block name of a log block.
pub open spec fn log_block_name() -> Seq<char> {
    "log"@
}

/// The block name of a float-series block.
pub open spec fn float_ts_block_name() -> Seq<char> {
    "float-ts"@
}

/// The block name that earlier versions of the format gave float-series
/// blocks; still read.
pub open spec fn f64ts_block_name() -> Seq<char> {
    "f64ts"@
}

/// The bytes of a block header: magic, length-prefixed name, declared size.
pub open spec fn encode_block_header(h: BlockHeaderView) -> Seq<u8> {
    block_magic() + str_field(h.name) + u64_field(h.size)
}

/// Decoding a block header at `p`: the header and the position after it, or
/// the error and the position where reading stopped.
pub open spec fn parse_block_header(d: Seq<u8>, p: int) -> (
    core::result::Result<BlockHeaderView, Error>,
    int,
) {
    if p + 8 > d.len() {
        (Err(Error::EndOfFile), d.len() as int)
    } else if d.subrange(p, p + 8) != block_magic() {
        (Err(Error::Magic), p + 8)
    } else {
        let (name, q) = parse_str(d, p + 8);
        match name {
            Err(e) => (Err(e), q),
            Ok(name) => {
                let (size, r) = parse_u64(d, q);
                match size {
                    Err(e) => (Err(e), r),
                    Ok(size) => (Ok(BlockHeaderView { name, size }), r),
                }
            },
        }
    }
}

/// Decoding an encoded block header gives back that header.
pub proof fn lemma_block_header_round_trip(h: BlockHeaderView, pre: Seq<u8>, tail: Seq<u8>)
    requires
        str_fits(h.name),
    ensures
        parse_block_header(pre + encode_block_header(h) + tail, pre.len() as int) == (
        Ok::<BlockHeaderView, Error>(h), pre.len() + encode_block_header(h).len() as int),
{
    let d = pre + encode_block_header(h) + tail;
    let p = pre.len() as int;
    assert(d.subrange(p, p + 8) =~= block_magic());
    assert(d =~= (pre + block_magic()) + str_field(h.name) + (u64_field(h.size) + tail));
    lemma_str_round_trip(h.name, pre + block_magic(), u64_field(h.size) + tail);
    assert(d =~= (pre + block_magic() + str_field(h.name)) + u64_field(h.size) + tail);
    lemma_u64_round_trip(h.size, pre + block_magic() + str_field(h.name), tail);
}

impl BlockHeader {
    /// A block header for a block of kind `name` whose payload is `size` bytes.
    pub fn new(name: &str, size: u64) -> (r: BlockHeader)
        ensures
            r@ == (BlockHeaderView { name: name@, size }),
    {
        BlockHeader { name: name.to_owned(), size }
    }

    /// The name of the block's kind.
    pub fn clone_name(&self) -> (r: String)
        ensures
            r@ == self@.name,
    {
        self.name.clone()
    }

    /// The magic that opens a block.
    pub fn clone_magic() -> (r: [u8; 8])
        ensures
            r@ == block_magic(),
    {
        let r = [98u8, 108u8, 111u8, 99u8, 107u8, 32u8, 32u8, 32u8];
        assert(r@ =~= block_magic());
        r
    }

    /// Whether `input` agrees with the block magic on every position that
    /// both have.
    pub fn check_magic(input: &[u8]) -> (r: bool)
        ensures
            r == agrees_with_magic(block_magic(), input@),
    {
        let magic = Self::clone_magic();
        agrees_with(&magic, input)
    }

    /// Decodes the block header that starts at `pos` in `data`; see
    /// [`parse_block_header`].
    pub fn read_from(data: &[u8], pos: usize) -> (r: (
        core::result::Result<BlockHeader, Error>,
        usize,
    ))
        requires
            pos <= data@.len(),
        ensures
            r.1 as int == parse_block_header(data@, pos as int).1,
            same_outcome(r.0, parse_block_header(data@, pos as int).0),
    {
        if data.len() - pos < 8 {
            return (Err(Error::EndOfFile), data.len());
        }
        let magic = &data[pos..pos + 8];
        if !Self::check_magic(magic) {
            return (Err(Error::Magic), pos + 8);
        }
        assert(data@.subrange(pos as int, pos + 8) =~= block_magic());
        let (name, q) = read_str(data, pos + 8);
        let name = match name {
            Err(e) => return (Err(e), q),
            Ok(v) => v,
        };
        let (size, q) = read_u64(data, q);
        let size = match size {
            Err(e) => return (Err(e), q),
            Ok(v) => v,
        };
        (Ok(BlockHeader { name, size }), q)
    }

    /// Appends the encoded block header to `sink`.
    pub fn write_into(&self, sink: &mut Vec<u8>)
        ensures
            final(sink)@ == old(sink)@ + encode_block_header(self@),
    {
        let magic = Self::clone_magic();
        write_bytes(sink, &magic);
        write_str(sink, self.name.as_str());
        write_u64(sink, self.size);
        assert(sink@ =~= old(sink)@ + encode_block_header(self@));
    }
}

// ---------------------------------------------------------------------------
// Float-series schema

/// What a float-series schema holds: index width, value width, and the record
/// count when it is known.
pub struct F64TSBlockView {
    pub index_len: u64,
    pub value_len: u64,
    pub length: Option<u64>,
}

/// The schema of a float-series block: each record holds `index_len`
/// index floats (only the first is kept) and `value_len` value floats, and the
/// block holds `length` records.
#[derive(Debug, Clone, Copy, PartialEq, Eq)]
pub struct F64TSBlock {
    index_len: u64,
    value_len: u64,
    length: Option<u64>,
}

impl View for F64TSBlock {
    type V = F64TSBlockView;

    closed spec fn view(&self) -> F64TSBlockView {
        F64TSBlockView { index_len: self.index_len, value_len: self.value_len, length: self.length }
    }
}

/// The record count that goes on the wire: an unknown count is written as 0.
pub open spec fn count_on_wire(length: Option<u64>) -> u64 {
    match length {
        Some(n) => n,
        None => 0,
    }
}

/// The bytes of a float-series schema: index width, value width, record count.
pub open spec fn encode_f64ts(b: F64TSBlockView) -> Seq<u8> {
    u64_field(b.index_len) + u64_field(b.value_len) + u64_field(count_on_wire(b.length))
}

/// The block header of a float-series block: its payload, the schema, is
/// 24 bytes.
pub open spec fn series_block_header() -> Seq<u8> {
    encode_block_header(BlockHeaderView { name: float_ts_block_name(), size: 24 })
}

/// Decoding a float-series schema at `p`. The widths are taken as they
/// stand: nothing here checks them.
pub open spec fn parse_f64ts(d: Seq<u8>, p: int) -> (core::result::Result<F64TSBlockView, Error>, int) {
    if p + 24 <= d.len() {
        (
            Ok(
                F64TSBlockView {
                    index_len: u64_at(d, p),
                    value_len: u64_at(d, p + 8),
                    length: Some(u64_at(d, p + 16)),
                },
            ),
            p + 24,
        )
    } else {
        (Err(Error::EndOfFile), d.len() as int)
    }
}

/// Decoding an encoded float-series schema with a known record count gives
/// back that schema. (An unknown count is written as 0 and reads back as 0.)
pub proof fn lemma_f64ts_round_trip(b: F64TSBlockView, pre: Seq<u8>, tail: Seq<u8>)
    requires
        b.length.is_some(),
    ensures
        encode_f64ts(b).len() == F64TS_SCHEMA_SIZE,
        parse_f64ts(pre + encode_f64ts(b) + tail, pre.len() as int) == (
        Ok::<F64TSBlockView, Error>(b), pre.len() + 24int),
{
    lemma_auto_spec_u64_to_from_le_bytes();
    let d = pre + encode_f64ts(b) + tail;
    let p = pre.len() as int;
    assert(d.subrange(p, p + 8) =~= u64_field(b.index_len));
    assert(d.subrange(p + 8, p + 16) =~= u64_field(b.value_len));
    assert(d.subrange(p + 16, p + 24) =~= u64_field(count_on_wire(b.length)));
}

/// A schema is 24 bytes on the wire.
pub proof fn lemma_f64ts_size(b: F64TSBlockView)
    ensures
        encode_f64ts(b).len() == F64TS_SCHEMA_SIZE,
{
    lemma_auto_spec_u64_to_from_le_bytes();
}

impl F64TSBlock {
    /// Index floats per record.
    pub fn index_len(&self) -> (r: u64)
        ensures
            r == self@.index_len,
    {
        self.index_len
    }

    /// Value floats per record.
    pub fn value_len(&self) -> (r: u64)
        ensures
            r == self@.value_len,
    {
        self.value_len
    }

    /// The record count, when known.
    pub fn length(&self) -> (r: Option<u64>)
        ensures
            r == self@.length,
    {
        self.length
    }

    /// Records that the block holds `len` records.
    pub fn set_length(&mut self, len: u64)
        ensures
            final(self)@ == (F64TSBlockView { length: Some(len), ..old(self)@ }),
    {
        self.length = Some(len);
    }

    /// Encoded size of the schema in bytes.
    pub fn size(&self) -> (r: usize)
        ensures
            r == F64TS_SCHEMA_SIZE,
            r == encode_f64ts(self@).len(),
    {
        proof {
            lemma_auto_spec_u64_to_from_le_bytes();
        }
        8 + 8 + 8
    }

    /// Decodes the schema that starts at `pos` in `data`; see [`parse_f64ts`].
    pub fn read_from(data: &[u8], pos: usize) -> (r: (core::result::Result<F64TSBlock, Error>, usize))
        requires
            pos <= data@.len(),
        ensures
            r.1 as int == parse_f64ts(data@, pos as int).1,
            same_outcome(r.0, parse_f64ts(data@, pos as int).0),
    {
        let (index_len, q) = read_u64(data, pos);
        let index_len = match index_len {
            Err(e) => return (Err(e), q),
            Ok(v) => v,
        };
        let (value_len, q) = read_u64(data, q);
        let value_len = match value_len {
            Err(e) => return (Err(e), q),
            Ok(v) => v,
        };
        let (length, q) = read_u64(data, q);
        let length = match length {
            Err(e) => return (Err(e), q),
            Ok(v) => v,
        };
        (Ok(F64TSBlock { index_len, value_len, length: Some(length) }), q)
    }

    /// Appends the encoded schema to `sink`.
    pub fn write_into(&self, sink: &mut Vec<u8>)
        ensures
            final(sink)@ == old(sink)@ + encode_f64ts(self@),
    {
        write_u64(sink, self.index_len);
        write_u64(sink, self.value_len);
        let count = match self.length {
            Some(n) => n,
            None => 0,
        };
        write_u64(sink, count);
        assert(sink@ =~= old(sink)@ + encode_f64ts(self@));
    }
}

/// Builds a [`F64TSBlock`]. The type parameters record whether the index and
/// value widths have been given: `()` until they are, `u64` after.
#[derive(Debug, PartialEq)]
pub struct F64TSBlockBuilder<IdxLenType, ValLenType> {
    index_len: IdxLenType,
    value_len: ValLenType,
    length: Option<u64>,
}

impl<IdxLenType, ValLenType> F64TSBlockBuilder<IdxLenType, ValLenType> {
    /// The index width given so far.
    pub closed spec fn spec_index_len(&self) -> IdxLenType {
        self.index_len
    }

    /// The value width given so far.
    pub closed spec fn spec_value_len(&self) -> ValLenType {
        self.value_len
    }

    /// The record count given so far.
    pub closed spec fn spec_length(&self) -> Option<u64> {
        self.length
    }

    /// Sets the index width.
    pub fn index_len(self, len: u64) -> (r: F64TSBlockBuilder<u64, ValLenType>)
        ensures
            r.spec_index_len() == len,
            r.spec_value_len() == self.spec_value_len(),
            r.spec_length() == self.spec_length(),
    {
        F64TSBlockBuilder { index_len: len, value_len: self.value_len, length: self.length }
    }

    /// Sets the value width.
    pub fn value_len(self, len: u64) -> (r: F64TSBlockBuilder<IdxLenType, u64>)
        ensures
            r.spec_index_len() == self.spec_index_len(),
            r.spec_value_len() == len,
            r.spec_length() == self.spec_length(),
    {
        F64TSBlockBuilder { index_len: self.index_len, value_len: len, length: self.length }
    }

    /// Sets the record count.
    pub fn length(self, len: u64) -> (r: Self)
        ensures
            r.spec_index_len() == self.spec_index_len(),
            r.spec_value_len() == self.spec_value_len(),
            r.spec_length() == Some(len),
    {
        F64TSBlockBuilder { index_len: self.index_len, value_len: self.value_len, length: Some(len) }
    }
}

impl F64TSBlockBuilder<(), ()> {
    /// A builder with no width and no record count given.
    pub fn new() -> (r: Self)
        ensures
            r.spec_length() == None::<u64>,
    {
        F64TSBlockBuilder { index_len: (), value_len: (), length: None }
    }
}

impl F64TSBlockBuilder<u64, u64> {
    /// The schema. A record has a single index float, so the index width
    /// must be 1.
    pub fn build(self) -> (r: F64TSBlock)
        requires
            self.spec_index_len() == 1,
        ensures
            r@ == (F64TSBlockView {
                index_len: 1,
                value_len: self.spec_value_len(),
                length: self.spec_length(),
            }),
    {
        F64TSBlock { index_len: self.index_len, value_len: self.value_len, length: self.length }
    }
}

// ---------------------------------------------------------------------------
// Log block

/// A moment as seconds and nanoseconds since the Unix epoch.
#[derive(Debug, Clone, Copy, PartialEq, Eq, Structural)]
pub struct Timestamp {
    pub secs: u64,
    pub nanos: u32,
}

#[verifier::external_type_specification]
#[verifier::external_body]
pub struct ExSystemTime(std::time::SystemTime);

/// Relies on `SystemTime::now`: the system clock. Nothing is promised of
/// the value.
#[verifier::external_body]
fn clock_now() -> (r: std::time::SystemTime) {
    std::time::SystemTime::now()
}

/// Relies on `SystemTime::duration_since(UNIX_EPOCH)`: the time elapsed since
/// the epoch, whose sub-second part is under one second; nothing when `t`
/// lies before the epoch.
#[verifier::external_body]
fn since_unix_epoch(t: &std::time::SystemTime) -> (r: Option<Timestamp>)
    ensures
        r matches Some(ts) ==> ts.nanos < 1_000_000_000,
{
    match t.duration_since(std::time::UNIX_EPOCH) {
        Ok(d) => Some(Timestamp { secs: d.as_secs(), nanos: d.subsec_nanos() }),
        Err(_) => None,
    }
}

/// What a log block holds.
pub struct LogBlockView {
    pub time: Timestamp,
    pub program: Seq<char>,
    pub info: Seq<char>,
}

/// A free-text log entry: when it was made, by which program, and what it says.
#[derive(Debug, PartialEq, Eq)]
pub struct LogBlock {
    time: Timestamp,
    program: String,
    info: String,
}

impl View for LogBlock {
    type V = LogBlockView;

    closed spec fn view(&self) -> LogBlockView {
        LogBlockView { time: self.time, program: self.program@, info: self.info@ }
    }
}

/// The bytes of a log payload: seconds, nanoseconds, program, info.
pub open spec fn encode_log(l: LogBlockView) -> Seq<u8> {
    u64_field(l.time.secs) + u32_field(l.time.nanos) + str_field(l.program) + str_field(l.info)
}

/// Byte length of the encoded log payload.
pub open spec fn log_size(l: LogBlockView) -> int {
    28 + encode_utf8(l.program).len() as int + encode_utf8(l.info).len() as int
}

/// A log entry whose encoded size fits in a `usize`.
pub open spec fn log_fits(l: LogBlockView) -> bool {
    log_size(l) <= usize::MAX
}

/// The bytes of a whole log block: its block header, whose declared size is
/// the payload's length, then the payload.
pub open spec fn encode_log_block(l: LogBlockView) -> Seq<u8> {
    encode_block_header(BlockHeaderView { name: log_block_name(), size: log_size(l) as u64 })
        + encode_log(l)
}

/// Decoding a log payload at `p`.
pub open spec fn parse_log(d: Seq<u8>, p: int) -> (core::result::Result<LogBlockView, Error>, int) {
    let (secs, q) = parse_u64(d, p);
    match secs {
        Err(e) => (Err(e), q),
        Ok(secs) => {
            let (nanos, q) = parse_u32(d, q);
            match nanos {
                Err(e) => (Err(e), q),
                Ok(nanos) => {
                    let (program, q) = parse_str(d, q);
                    match program {
                        Err(e) => (Err(e), q),
                        Ok(program) => {
                            let (info, q) = parse_str(d, q);
                            match info {
                                Err(e) => (Err(e), q),
                                Ok(info) => (
                                    Ok(
                                        LogBlockView {
                                            time: Timestamp { secs, nanos },
                                            program,
                                            info,
                                        },
                                    ),
                                    q,
                                ),
                            }
                        },
                    }
                },
            }
        },
    }
}

/// Decoding an encoded log payload gives back that log entry.
pub proof fn lemma_log_round_trip(l: LogBlockView, pre: Seq<u8>, tail: Seq<u8>)
    requires
        str_fits(l.program),
        str_fits(l.info),
    ensures
        encode_log(l).len() == log_size(l),
        parse_log(pre + encode_log(l) + tail, pre.len() as int) == (
        Ok::<LogBlockView, Error>(l), pre.len() + log_size(l)),
{
    let a = u64_field(l.time.secs);
    let b = u32_field(l.time.nanos);
    let c = str_field(l.program);
    let e = str_field(l.info);
    let d = pre + encode_log(l) + tail;
    assert(d =~= pre + a + (b + c + e + tail));
    lemma_u64_round_trip(l.time.secs, pre, b + c + e + tail);
    assert(d =~= (pre + a) + b + (c + e + tail));
    lemma_u32_round_trip(l.time.nanos, pre + a, c + e + tail);
    assert(d =~= (pre + a + b) + c + (e + tail));
    lemma_str_round_trip(l.program, pre + a + b, e + tail);
    assert(d =~= (pre + a + b + c) + e + tail);
    lemma_str_round_trip(l.info, pre + a + b + c, tail);
}

impl LogBlock {
    /// The program that made the entry.
    pub fn program(&self) -> (r: String)
        ensures
            r@ == self@.program,
    {
        self.program.clone()
    }

    /// The text of the entry.
    pub fn info(&self) -> (r: String)
        ensures
            r@ == self@.info,
    {
        self.info.clone()
    }

    /// When the entry was made.
    pub fn time(&self) -> (r: Timestamp)
        ensures
            r == self@.time,
    {
        self.time
    }

    /// Encoded size of the payload in bytes.
    pub fn size(&self) -> (r: usize)
        requires
            log_fits(self@),
        ensures
            r == log_size(self@),
    {
        8 + 4 + (8 + self.program.as_str().len()) + (8 + self.info.as_str().len())
    }

    /// Decodes the log payload that starts at `pos` in `data`; see
    /// [`parse_log`].
    pub fn read_from(data: &[u8], pos: usize) -> (r: (core::result::Result<LogBlock, Error>, usize))
        requires
            pos <= data@.len(),
        ensures
            r.1 as int == parse_log(data@, pos as int).1,
            same_outcome(r.0, parse_log(data@, pos as int).0),
    {
        let (secs, q) = read_u64(data, pos);
        let secs = match secs {
            Err(e) => return (Err(e), q),
            Ok(v) => v,
        };
        let (nanos, q) = read_u32(data, q);
        let nanos = match nanos {
            Err(e) => return (Err(e), q),
            Ok(v) => v,
        };
        let (program, q) = read_str(data, q);
        let program = match program {
            Err(e) => return (Err(e), q),
            Ok(v) => v,
        };
        let (info, q) = read_str(data, q);
        let info = match info {
            Err(e) => return (Err(e), q),
            Ok(v) => v,
        };
        (Ok(LogBlock { time: Timestamp { secs, nanos }, program, info }), q)
    }

    /// Appends the encoded payload to `sink`.
    pub fn write_into(&self, sink: &mut Vec<u8>)
        ensures
            final(sink)@ == old(sink)@ + encode_log(self@),
    {
        write_u64(sink, self.time.secs);
        write_u32(sink, self.time.nanos);
        write_str(sink, self.program.as_str());
        write_str(sink, self.info.as_str());
        assert(sink@ =~= old(sink)@ + encode_log(self@));
    }
}

/// Builds a [`LogBlock`]. The type parameters record whether the program and
/// the text have been given: `()` until they are, `String` after.
#[derive(Debug)]
pub struct LogBlockBuilder<ProgType, InfoType> {
    time: Option<Timestamp>,
    program: ProgType,
    info: InfoType,
}

impl<ProgType, InfoType> LogBlockBuilder<ProgType, InfoType> {
    /// The time given so far.
    pub closed spec fn spec_time(&self) -> Option<Timestamp> {
        self.time
    }

    /// The program given so far.
    pub closed spec fn spec_program(&self) -> ProgType {
        self.program
    }

    /// The text given so far.
    pub closed spec fn spec_info(&self) -> InfoType {
        self.info
    }

    /// Sets the program.
    pub fn program(self, program: &str) -> (r: LogBlockBuilder<String, InfoType>)
        ensures
            r.spec_time() == self.spec_time(),
            r.spec_program()@ == program@,
            r.spec_info() == self.spec_info(),
    {
        LogBlockBuilder { time: self.time, program: program.to_owned(), info: self.info }
    }

    /// Sets the text.
    pub fn info(self, info: &str) -> (r: LogBlockBuilder<ProgType, String>)
        ensures
            r.spec_time() == self.spec_time(),
            r.spec_program() == self.spec_program(),
            r.spec_info()@ == info@,
    {
        LogBlockBuilder { time: self.time, program: self.program, info: info.to_owned() }
    }

    /// Sets the time.
    pub fn time(self, time: Timestamp) -> (r: Self)
        ensures
            r.spec_time() == Some(time),
            r.spec_program() == self.spec_program(),
            r.spec_info() == self.spec_info(),
    {
        LogBlockBuilder { time: Some(time), program: self.program, info: self.info }
    }
}

impl LogBlockBuilder<(), ()> {
    /// A builder with nothing given.
    pub fn new() -> (r: Self)
        ensures
            r.spec_time() == None::<Timestamp>,
    {
        LogBlockBuilder { time: None, program: (), info: () }
    }
}

impl LogBlockBuilder<String, String> {
    /// The log entry. Without a time given it is stamped with the system
    /// clock; a clock set before the epoch gives the epoch itself.
    pub fn build(self) -> (r: LogBlock)
        ensures
            r@.program == self.spec_program()@,
            r@.info == self.spec_info()@,
            self.spec_time() matches Some(t) ==> r@.time == t,
            self.spec_time() is None ==> r@.time.nanos < 1_000_000_000,
    {
        let time = match self.time {
            Some(t) => t,
            None => match since_unix_epoch(&clock_now()) {
                Some(t) => t,
                None => Timestamp { secs: 0, nanos: 0 },
            },
        };
        LogBlock { time, program: self.program, info: self.info }
    }
}

} // verus!
