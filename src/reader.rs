//! The sequential reader: the file header, then one block at a time, and
//! the records of a float-series block one at a time.
use vstd::prelude::*;
use crate::error::Error;
use crate::header::{
    Header, HeaderView, BlockHeader, BlockHeaderView, encode_block_header,
    lemma_block_header_round_trip, LogBlock, LogBlockView, F64TSBlock, F64TSBlockView,
    parse_header, parse_block_header, parse_log, parse_f64ts, log_block_name,
    float_ts_block_name, f64ts_block_name,
};
use crate::series::{parse_record, read_record};
use crate::wire::{same_outcome, str_fits};

verus! {

/// A decoded block.
#[derive(Debug)]
pub enum Block {
    Log(LogBlock),
    FloatTS(F64TSBlock),
}

/// What a decoded block holds.
pub enum BlockView {
    Log(LogBlockView),
    FloatTS(F64TSBlockView),
}

impl View for Block {
    type V = BlockView;

    open spec fn view(&self) -> BlockView {
        match self {
            Block::Log(l) => BlockView::Log(l@),
            Block::FloatTS(b) => BlockView::FloatTS(b@),
        }
    }
}

/// Decoding a block at `p`: its header, then the payload that its name
/// selects. A name that selects no payload is `UndefinedBlock`, with the
/// payload left unread.
pub open spec fn parse_block(d: Seq<u8>, p: int) -> (core::result::Result<BlockView, Error>, int) {
    let (h, q) = parse_block_header(d, p);
    match h {
        Err(e) => (Err(e), q),
        Ok(h) => if h.name == log_block_name() {
            let (l, r) = parse_log(d, q);
            match l {
                Ok(l) => (Ok(BlockView::Log(l)), r),
                Err(e) => (Err(e), r),
            }
        } else if h.name == float_ts_block_name() || h.name == f64ts_block_name() {
            let (b, r) = parse_f64ts(d, q);
            match b {
                Ok(b) => (Ok(BlockView::FloatTS(b)), r),
                Err(e) => (Err(e), r),
            }
        } else {
            (Err(Error::UndefinedBlock), q)
        },
    }
}

/// A block whose name is none that the format defines reads as
/// `UndefinedBlock`, with the reader left after its header.
pub proof fn lemma_unknown_block(h: BlockHeaderView, pre: Seq<u8>, tail: Seq<u8>)
    requires
        str_fits(h.name),
        h.name != log_block_name(),
        h.name != float_ts_block_name(),
        h.name != f64ts_block_name(),
    ensures
        parse_block(pre + encode_block_header(h) + tail, pre.len() as int) == (
        Err::<BlockView, Error>(Error::UndefinedBlock), pre.len() + encode_block_header(h).len() as int),
{
    lemma_block_header_round_trip(h, pre, tail);
}

/// Where the bytes end at a block boundary, or inside the magic of the next
/// block header, reading a block gives `EndOfFile`: the end of the blocks.
pub proof fn lemma_end_of_blocks(d: Seq<u8>, p: int)
    requires
        0 <= p <= d.len() < p + 8,
    ensures
        parse_block(d, p) == (Err::<BlockView, Error>(Error::EndOfFile), d.len() as int),
{
}

/// What a reader holds: the bytes, how far it has read, and the file header
/// once it has read one.
pub struct ReaderView {
    pub data: Seq<u8>,
    pub pos: int,
    pub header: Option<HeaderView>,
}

/// Reads a container from bytes that it owns.
#[derive(Debug)]
pub struct Reader {
    stream: Vec<u8>,
    pos: usize,
    header: Option<Header>,
}

impl View for Reader {
    type V = ReaderView;

    closed spec fn view(&self) -> ReaderView {
        ReaderView {
            data: self.stream@,
            pos: self.pos as int,
            header: match self.header {
                Some(h) => Some(h@),
                None => None,
            },
        }
    }
}

impl Reader {
    #[verifier::type_invariant]
    spec fn inv(&self) -> bool {
        self.pos <= self.stream@.len()
    }

    /// A reader at the start of `stream`.
    pub fn new(stream: Vec<u8>) -> (r: Reader)
        ensures
            r@ == (ReaderView { data: stream@, pos: 0, header: None }),
    {
        Reader { stream, pos: 0, header: None }
    }

    /// Reads and checks the file header; see [`parse_header`].
    pub fn initialize(&mut self) -> (r: core::result::Result<(), Error>)
        ensures
            final(self)@.data == old(self)@.data,
            final(self)@.pos == parse_header(old(self)@.data, old(self)@.pos).1,
            match parse_header(old(self)@.data, old(self)@.pos).0 {
                Ok(h) => r is Ok && final(self)@.header == Some(h),
                Err(e) => r == Err::<(), Error>(e) && final(self)@.header == old(self)@.header,
            },
    {
        proof {
            use_type_invariant(&*self);
        }
        let (h, q) = Header::read_from(self.stream.as_slice(), self.pos);
        self.pos = q;
        match h {
            Ok(h) => {
                self.header = Some(h);
                Ok(())
            },
            Err(e) => Err(e),
        }
    }

    /// Reads the next block; see [`parse_block`]. `EndOfFile` when the bytes
    /// end at the block boundary is how the blocks end.
    pub fn next_block(&mut self) -> (r: core::result::Result<Block, Error>)
        ensures
            final(self)@.data == old(self)@.data,
            final(self)@.header == old(self)@.header,
            final(self)@.pos == parse_block(old(self)@.data, old(self)@.pos).1,
            same_outcome(r, parse_block(old(self)@.data, old(self)@.pos).0),
    {
        proof {
            use_type_invariant(&*self);
        }
        let (h, q) = BlockHeader::read_from(self.stream.as_slice(), self.pos);
        self.pos = q;
        let h = match h {
            Err(e) => return Err(e),
            Ok(h) => h,
        };
        let name = h.clone_name();
        if name == "log".to_owned() {
            let (l, q) = LogBlock::read_from(self.stream.as_slice(), self.pos);
            self.pos = q;
            match l {
                Ok(l) => Ok(Block::Log(l)),
                Err(e) => Err(e),
            }
        } else if name == "float-ts".to_owned() || name == "f64ts".to_owned() {
            let (b, q) = F64TSBlock::read_from(self.stream.as_slice(), self.pos);
            self.pos = q;
            match b {
                Ok(b) => Ok(Block::FloatTS(b)),
                Err(e) => Err(e),
            }
        } else {
            Err(Error::UndefinedBlock)
        }
    }

    /// Reads the records of the float-series block whose schema `data` the
    /// last [`Reader::next_block`] returned. The reader moves into the
    /// returned record reader and comes back through
    /// [`FloatTSReader::into_reader`].
    pub fn float_ts_entries(self, data: &F64TSBlock) -> (r: FloatTSReader)
        requires
            data@.length is Some,
        ensures
            r@ == (FloatTSReaderView {
                index_len: data@.index_len,
                value_len: data@.value_len,
                remaining: data@.length->0 as nat,
                reader: self@,
            }),
    {
        let remaining = match data.length() {
            Some(n) => n,
            None => 0,
        };
        FloatTSReader {
            index_len: data.index_len(),
            value_len: data.value_len(),
            remaining,
            reader: self,
        }
    }
}

/// What a record reader holds: the schema's widths, the records left, and
/// the reader it reads through.
pub struct FloatTSReaderView {
    pub index_len: u64,
    pub value_len: u64,
    pub remaining: nat,
    pub reader: ReaderView,
}

/// Reads the records of one float-series block, one per call, without
/// reading ahead.
#[derive(Debug)]
pub struct FloatTSReader {
    index_len: u64,
    value_len: u64,
    remaining: u64,
    reader: Reader,
}

impl View for FloatTSReader {
    type V = FloatTSReaderView;

    closed spec fn view(&self) -> FloatTSReaderView {
        FloatTSReaderView {
            index_len: self.index_len,
            value_len: self.value_len,
            remaining: self.remaining as nat,
            reader: self.reader@,
        }
    }
}

impl FloatTSReader {
    /// The next record: `None` when the block's records are all read;
    /// otherwise the record at the reader's position (see [`parse_record`]),
    /// or the error that cut it short, after which no record is left.
    pub fn next(&mut self) -> (r: Option<core::result::Result<(u64, Vec<u64>), Error>>)
        ensures
            old(self)@.remaining == 0 ==> r is None && final(self)@ == old(self)@,
            old(self)@.remaining > 0 ==> {
                let (x, q) = parse_record(
                    old(self)@.reader.data,
                    old(self)@.reader.pos,
                    old(self)@.index_len,
                    old(self)@.value_len,
                );
                &&& r matches Some(o) && same_outcome(o, x)
                &&& final(self)@ == (FloatTSReaderView {
                    remaining: if x is Ok {
                        (old(self)@.remaining - 1) as nat
                    } else {
                        0
                    },
                    reader: ReaderView { pos: q, ..old(self)@.reader },
                    ..old(self)@
                })
            },
    {
        if self.remaining == 0 {
            return None;
        }
        proof {
            use_type_invariant(&self.reader);
        }
        let (x, q) = read_record(
            self.reader.stream.as_slice(),
            self.reader.pos,
            self.index_len,
            self.value_len,
        );
        self.reader.pos = q;
        match x {
            Ok(rec) => {
                self.remaining = self.remaining - 1;
                Some(Ok(rec))
            },
            Err(e) => {
                self.remaining = 0;
                Some(Err(e))
            },
        }
    }

    /// Gives the reader back, positioned after the records read so far.
    pub fn into_reader(self) -> (r: Reader)
        ensures
            r@ == self@.reader,
    {
        self.reader
    }
}

} // verus!
