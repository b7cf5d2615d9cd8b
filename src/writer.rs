//! The sequential writer: a header, then blocks, appended to a byte stream.
use vstd::prelude::*;
use crate::header::{
    Header, BlockHeader, LogBlock, F64TSBlock, F64TSBlockView, header_for,
    encode_header, encode_log_block, encode_f64ts, series_block_header, log_fits,
};
use crate::series::{RecordView, encode_record, encode_records, all_of_width, write_record};
use crate::wire::overwrite;

verus! {

/// Writes a container into a byte stream that it owns. Each write appends.
#[derive(Debug)]
pub struct Writer {
    stream: Vec<u8>,
}

impl View for Writer {
    type V = Seq<u8>;

    closed spec fn view(&self) -> Seq<u8> {
        self.stream@
    }
}

impl Writer {
    /// A writer that appends to `stream`.
    pub fn new(stream: Vec<u8>) -> (r: Writer)
        ensures
            r@ == stream@,
    {
        Writer { stream }
    }

    /// Appends the file header of a file of `file_size` bytes.
    pub fn write_header(&mut self, file_size: u64)
        ensures
            final(self)@ == old(self)@ + encode_header(header_for(file_size)),
    {
        let header = Header::new(file_size);
        header.write_into(&mut self.stream);
    }

    /// Appends a log block: a block header named `log` that declares the
    /// payload's exact length, then the payload.
    pub fn write_log(&mut self, log: &LogBlock)
        requires
            log_fits(log@),
        ensures
            final(self)@ == old(self)@ + encode_log_block(log@),
    {
        let header = BlockHeader::new("log", log.size() as u64);
        header.write_into(&mut self.stream);
        log.write_into(&mut self.stream);
        assert(self.stream@ =~= old(self)@ + encode_log_block(log@));
    }

    /// The stream, to write into directly.
    pub fn stream_mut(&mut self) -> (r: &mut Vec<u8>)
        ensures
            r@ == old(self)@,
            final(self)@ == final(r)@,
    {
        &mut self.stream
    }

    /// Gives the stream back.
    pub fn into_stream(self) -> (r: Vec<u8>)
        ensures
            r@ == self@,
    {
        self.stream
    }

    /// Starts a float-series block whose record count is given in `block`:
    /// the block header and the schema are written at once, and the records
    /// follow through the returned series writer, which needs no finalizing.
    pub fn write_float_ts(self, block: F64TSBlock) -> (r: FloatTSWriter)
        requires
            block@.length is Some,
        ensures
            r.wf(),
            r@ == (FloatTSWriterView {
                base: self@,
                stream: self@ + series_block_header() + encode_f64ts(block@),
                schema: block@,
                seekable: false,
                finalized: true,
                records: Seq::empty(),
            }),
    {
        let mut w = self;
        let header = BlockHeader::new("float-ts", block.size() as u64);
        header.write_into(&mut w.stream);
        block.write_into(&mut w.stream);
        FloatTSWriter {
            value_len: block.value_len(),
            writer: w,
            block_header: block,
            block_pos: None,
            count: 0,
            finalized: true,
            base: Ghost(self@),
            records: Ghost(Seq::empty()),
        }
    }

    /// Starts a float-series block whose record count is settled later: the
    /// schema is written now with the count `block` gives (0 when it gives
    /// none), its position is kept, and [`FloatTSWriter::finalize`] writes the
    /// true count there.
    pub fn write_float_ts_with_seek(self, block: F64TSBlock) -> (r: FloatTSWriter)
        ensures
            r.wf(),
            r@ == (FloatTSWriterView {
                base: self@,
                stream: self@ + series_block_header() + encode_f64ts(block@),
                schema: block@,
                seekable: true,
                finalized: false,
                records: Seq::empty(),
            }),
    {
        let mut w = self;
        let header = BlockHeader::new("float-ts", block.size() as u64);
        header.write_into(&mut w.stream);
        let block_pos = w.stream.len();
        block.write_into(&mut w.stream);
        FloatTSWriter {
            value_len: block.value_len(),
            writer: w,
            block_header: block,
            block_pos: Some(block_pos),
            count: 0,
            finalized: false,
            base: Ghost(self@),
            records: Ghost(Seq::empty()),
        }
    }
}

/// What a series writer holds: the stream before the block began, the
/// stream now, the schema as it stands on the stream, whether the count is
/// patched later, whether it has been, and the records written so far.
pub struct FloatTSWriterView {
    pub base: Seq<u8>,
    pub stream: Seq<u8>,
    pub schema: F64TSBlockView,
    pub seekable: bool,
    pub finalized: bool,
    pub records: Seq<RecordView>,
}

/// Appends the records of one float-series block.
pub struct FloatTSWriter {
    value_len: u64,
    writer: Writer,
    block_header: F64TSBlock,
    block_pos: Option<usize>,
    count: u64,
    finalized: bool,
    base: Ghost<Seq<u8>>,
    records: Ghost<Seq<RecordView>>,
}

impl View for FloatTSWriter {
    type V = FloatTSWriterView;

    closed spec fn view(&self) -> FloatTSWriterView {
        FloatTSWriterView {
            base: self.base@,
            stream: self.writer@,
            schema: self.block_header@,
            seekable: self.block_pos is Some,
            finalized: self.finalized,
            records: self.records@,
        }
    }
}

impl FloatTSWriter {
    /// The stream is the block's start, its header, the schema and the
    /// records, each record of the schema's width.
    pub closed spec fn wf(&self) -> bool {
        &&& self.writer@ == self.base@ + series_block_header() + encode_f64ts(self.block_header@)
            + encode_records(self.records@)
        &&& self.block_pos matches Some(p) ==> p == self.base@.len()
            + series_block_header().len()
        &&& self.count == self.records@.len()
        &&& self.value_len == self.block_header@.value_len
        &&& all_of_width(self.records@, self.value_len as nat)
    }

    /// The stream, to write into directly.
    pub fn stream_mut(&mut self) -> (r: &mut Vec<u8>)
        ensures
            r@ == old(self)@.stream,
            final(self)@ == (FloatTSWriterView { stream: final(r)@, ..old(self)@ }),
    {
        self.writer.stream_mut()
    }

    /// Appends one record: the index, then the values, as little-endian
    /// 64-bit patterns. The record must have the schema's width.
    pub fn write_entry(&mut self, index: u64, values: &[u64])
        requires
            old(self).wf(),
            values@.len() == old(self)@.schema.value_len,
            old(self)@.records.len() < u64::MAX,
        ensures
            final(self).wf(),
            final(self)@ == (FloatTSWriterView {
                stream: old(self)@.stream + encode_record((index, values@)),
                records: old(self)@.records.push((index, values@)),
                ..old(self)@
            }),
    {
        write_record(&mut self.writer.stream, index, values);
        let ghost r: RecordView = (index, values@);
        proof {
            let rs = self.records@.push(r);
            assert(rs.drop_last() =~= self.records@);
            assert(encode_records(rs) == encode_records(self.records@) + encode_record(r));
            assert(all_of_width(rs, self.value_len as nat));
            self.records = Ghost(rs);
        }
        self.count = self.count + 1;
        assert(self.writer@ =~= self.base@ + series_block_header() + encode_f64ts(self.block_header@)
            + encode_records(self.records@));
    }

    /// Writes the true record count into the schema on the stream, at the
    /// position kept when the block began. The stream's length, and so its
    /// end, is unchanged.
    pub fn finalize(self) -> (r: FloatTSWriter)
        requires
            self.wf(),
            self@.seekable,
        ensures
            r.wf(),
            r@ == (FloatTSWriterView {
                stream: self@.base + series_block_header() + encode_f64ts(
                    F64TSBlockView { length: Some(self@.records.len() as u64), ..self@.schema },
                ) + encode_records(self@.records),
                schema: F64TSBlockView { length: Some(self@.records.len() as u64), ..self@.schema },
                finalized: true,
                ..self@
            }),
            r@.stream.len() == self@.stream.len(),
    {
        let mut w = self;
        let p = match w.block_pos {
            Some(p) => p,
            None => 0,
        };
        let mut block_header = w.block_header;
        block_header.set_length(w.count);
        let mut patch: Vec<u8> = Vec::new();
        block_header.write_into(&mut patch);
        let ghost pre = w.base@ + series_block_header();
        let ghost old_schema = encode_f64ts(w.block_header@);
        let ghost recs = encode_records(w.records@);
        assert(w.writer@ =~= pre + old_schema + recs);
        proof {
            crate::header::lemma_f64ts_size(w.block_header@);
            crate::header::lemma_f64ts_size(block_header@);
        }
        overwrite(&mut w.writer.stream, p, patch.as_slice());
        assert(w.writer@ =~= pre + patch@ + recs);
        w.block_header = block_header;
        w.finalized = true;
        w
    }

    /// Ends the block and gives the writer back. A block whose count is
    /// patched later must have been finalized.
    pub fn finish(self) -> (r: Writer)
        requires
            self@.finalized,
        ensures
            r@ == self@.stream,
    {
        self.writer
    }
}

} // verus!
