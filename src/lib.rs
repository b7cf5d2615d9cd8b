//! A self-describing binary container for time-indexed numeric series and
//! free-text log entries, with a small language naming record layouts.
//!
//! Every 64-bit float of a series is carried as its IEEE-754 bit pattern
//! (`f64::to_bits`), so the library moves floats byte for byte without
//! doing arithmetic on them.

pub mod error;
pub mod wire;
pub mod header;
pub mod series;
pub mod writer;
pub mod reader;
pub mod tupletype;

use vstd::prelude::*;
use crate::error::Error;
use crate::header::{
    LogBlock, LogBlockView, F64TSBlockBuilder, F64TSBlockView, header_for,
    encode_header, encode_log_block, series_block_header, encode_f64ts, log_fits, parse_header,
    count_on_wire,
};
use crate::series::{
    RecordView, encode_record, encode_records, parse_record, all_of_width, lemma_record_round_trip,
    record_size,
};
use crate::reader::{Block, BlockView, Reader, parse_block};
use crate::wire::lemma_utf8_len;
use crate::writer::Writer;

verus! {

/// The log entries of a container.
#[derive(Debug, PartialEq)]
pub struct Metadata {
    logs: Vec<LogBlock>,
}

/// The views of a sequence of log blocks.
pub open spec fn log_views(ls: Seq<LogBlock>) -> Seq<LogBlockView> {
    Seq::new(ls.len(), |i: int| ls[i]@)
}

impl View for Metadata {
    type V = Seq<LogBlockView>;

    closed spec fn view(&self) -> Seq<LogBlockView> {
        log_views(self.logs@)
    }
}

impl Metadata {
    /// No log entries.
    pub fn new() -> (r: Self)
        ensures
            r@ == Seq::<LogBlockView>::empty(),
    {
        Metadata { logs: Vec::new() }
    }

    /// The log entries.
    pub fn get_logs(&self) -> (r: &Vec<LogBlock>)
        ensures
            log_views(r@) == self@,
    {
        &self.logs
    }

    /// The log entries, to change them.
    pub fn get_logs_mut(&mut self) -> (r: &mut Vec<LogBlock>)
        ensures
            log_views(r@) == old(self)@,
            final(self)@ == log_views(final(r)@),
    {
        &mut self.logs
    }
}

/// The views of a sequence of records.
pub open spec fn record_views(es: Seq<(u64, Vec<u64>)>) -> Seq<RecordView> {
    Seq::new(es.len(), |i: int| (es[i].0, es[i].1@))
}

/// The bytes of consecutive log blocks.
pub open spec fn encode_log_blocks(ls: Seq<LogBlockView>) -> Seq<u8>
    decreases ls.len(),
{
    if ls.len() == 0 {
        Seq::empty()
    } else {
        encode_log_blocks(ls.drop_last()) + encode_log_block(ls.last())
    }
}

/// Reading `n` records from `p` under a schema of the given widths.
pub open spec fn parse_records(d: Seq<u8>, p: int, index_len: u64, value_len: u64, n: nat) -> (
    core::result::Result<Seq<RecordView>, Error>,
    int,
)
    decreases n,
{
    if n == 0 {
        (Ok(Seq::empty()), p)
    } else {
        let (r, q) = parse_record(d, p, index_len, value_len);
        match r {
            Err(e) => (Err(e), q),
            Ok(rec) => {
                let (rs, q2) = parse_records(d, q, index_len, value_len, (n - 1) as nat);
                match rs {
                    Ok(rs) => (Ok(seq![rec] + rs), q2),
                    Err(e) => (Err(e), q2),
                }
            },
        }
    }
}

/// The records `acc` followed by the outcome `r` of reading more.
pub open spec fn prepend_records(
    acc: Seq<RecordView>,
    r: (core::result::Result<Seq<RecordView>, Error>, int),
) -> (core::result::Result<Seq<RecordView>, Error>, int) {
    match r.0 {
        Ok(rs) => (Ok(acc + rs), r.1),
        Err(e) => (Err(e), r.1),
    }
}

/// A block that reads takes bytes, and no more than there are.
pub proof fn lemma_block_advances(d: Seq<u8>, p: int)
    requires
        0 <= p <= d.len(),
        parse_block(d, p).0 is Ok,
    ensures
        p < parse_block(d, p).1 <= d.len(),
{
}

/// Reading records never moves back nor past the end.
pub proof fn lemma_records_advance(d: Seq<u8>, p: int, index_len: u64, value_len: u64, n: nat)
    requires
        0 <= p <= d.len(),
    ensures
        p <= parse_records(d, p, index_len, value_len, n).1 <= d.len(),
    decreases n,
{
    if n > 0 {
        let (r, q) = parse_record(d, p, index_len, value_len);
        if r is Ok {
            lemma_records_advance(d, q, index_len, value_len, (n - 1) as nat);
        }
    }
}

/// Reading the blocks from `p` to the end: the records of every
/// float-series block, in order, and the log entries, in order. Reading ends
/// cleanly at `EndOfFile` at a block boundary; any other error ends it with
/// that error. Reading always moves forward, so the guards on positions
/// never decide.
#[verifier::opaque]
pub open spec fn load_spec(d: Seq<u8>, p: int) -> core::result::Result<
    (Seq<RecordView>, Seq<LogBlockView>),
    Error,
>
    decreases d.len() - p,
{
    if p < 0 || p > d.len() {
        Err(Error::EndOfFile)
    } else {
        let (b, q) = parse_block(d, p);
        match b {
            Err(e) => if e == Error::EndOfFile {
                Ok((Seq::empty(), Seq::empty()))
            } else {
                Err(e)
            },
            Ok(BlockView::Log(l)) => if q <= p || q > d.len() {
                Err(Error::EndOfFile)
            } else {
                match load_spec(d, q) {
                    Ok((rs, ls)) => Ok((rs, seq![l] + ls)),
                    Err(e) => Err(e),
                }
            },
            Ok(BlockView::FloatTS(s)) => {
                let (recs, q2) = parse_records(
                    d,
                    q,
                    s.index_len,
                    s.value_len,
                    count_on_wire(s.length) as nat,
                );
                match recs {
                    Err(e) => Err(e),
                    Ok(rs1) => if q2 <= p || q2 > d.len() {
                        Err(Error::EndOfFile)
                    } else {
                        match load_spec(d, q2) {
                            Ok((rs, ls)) => Ok((rs1 + rs, ls)),
                            Err(e) => Err(e),
                        }
                    },
                }
            },
        }
    }
}

/// The outcome of [`load_spec`] after reading the block at `p`.
pub proof fn lemma_load_step(d: Seq<u8>, p: int)
    requires
        0 <= p <= d.len(),
    ensures
        match parse_block(d, p).0 {
            Err(e) => load_spec(d, p) == if e == Error::EndOfFile {
                Ok::<(Seq<RecordView>, Seq<LogBlockView>), Error>((Seq::empty(), Seq::empty()))
            } else {
                Err(e)
            },
            Ok(BlockView::Log(l)) => load_spec(d, p) == match load_spec(d, parse_block(d, p).1) {
                Ok((rs, ls)) => Ok((rs, seq![l] + ls)),
                Err(e) => Err(e),
            },
            Ok(BlockView::FloatTS(s)) => {
                let (recs, q2) = parse_records(
                    d,
                    parse_block(d, p).1,
                    s.index_len,
                    s.value_len,
                    count_on_wire(s.length) as nat,
                );
                load_spec(d, p) == match recs {
                    Err(e) => Err(e),
                    Ok(rs1) => match load_spec(d, q2) {
                        Ok((rs, ls)) => Ok((rs1 + rs, ls)),
                        Err(e) => Err(e),
                    },
                }
            },
        },
{
    reveal(load_spec);
    if parse_block(d, p).0 is Ok {
        lemma_block_advances(d, p);
        let q = parse_block(d, p).1;
        match parse_block(d, p).0 {
            Ok(BlockView::FloatTS(s)) => {
                lemma_records_advance(
                    d,
                    q,
                    s.index_len,
                    s.value_len,
                    count_on_wire(s.length) as nat,
                );
            },
            _ => {},
        }
    }
}

/// A container whose bytes end at a block boundary loads cleanly: the
/// `EndOfFile` there ends the blocks and is no error.
pub proof fn lemma_load_ends_at_boundary(d: Seq<u8>, p: int)
    requires
        0 <= p <= d.len() < p + 8,
    ensures
        load_spec(d, p) == Ok::<(Seq<RecordView>, Seq<LogBlockView>), Error>(
            (Seq::empty(), Seq::empty()),
        ),
{
    crate::reader::lemma_end_of_blocks(d, p);
    lemma_load_step(d, p);
}

/// Consecutive records, seen from the front: the first record, then the
/// others.
pub proof fn lemma_encode_records_front(rs: Seq<RecordView>)
    requires
        rs.len() > 0,
    ensures
        encode_records(rs) == encode_record(rs[0]) + encode_records(rs.drop_first()),
    decreases rs.len(),
{
    if rs.len() == 1 {
        assert(rs.drop_last() =~= Seq::<RecordView>::empty());
        assert(rs.drop_first() =~= Seq::<RecordView>::empty());
        assert(encode_records(rs) =~= encode_record(rs[0]) + encode_records(rs.drop_first()));
    } else {
        let init = rs.drop_last();
        lemma_encode_records_front(init);
        assert(init.drop_first() =~= rs.drop_first().drop_last());
        assert(rs.drop_first().last() == rs.last());
        assert(encode_records(rs) =~= encode_record(rs[0]) + encode_records(rs.drop_first()));
    }
}

/// Records of one width, written one after another, read back as
/// themselves, in order, under a schema of index width 1 and that width.
pub proof fn lemma_records_round_trip(pre: Seq<u8>, rs: Seq<RecordView>, width: u64, tail: Seq<u8>)
    requires
        all_of_width(rs, width as nat),
    ensures
        parse_records(pre + encode_records(rs) + tail, pre.len() as int, 1, width, rs.len()) == (
        Ok::<Seq<RecordView>, Error>(rs), pre.len() + encode_records(rs).len() as int),
    decreases rs.len(),
{
    if rs.len() == 0 {
        assert(rs =~= Seq::<RecordView>::empty());
    } else {
        let r0 = rs[0];
        let rest = rs.drop_first();
        lemma_encode_records_front(rs);
        let d = pre + encode_records(rs) + tail;
        assert(d =~= pre + encode_record(r0) + (encode_records(rest) + tail));
        lemma_record_round_trip(r0, pre, encode_records(rest) + tail);
        assert(all_of_width(rest, width as nat)) by {
            assert forall|k: int| 0 <= k < rest.len() implies (#[trigger] rest[k]).1.len()
                == width as nat by {
                assert(rest[k] == rs[k + 1]);
            }
        }
        assert(d =~= (pre + encode_record(r0)) + encode_records(rest) + tail);
        lemma_records_round_trip(pre + encode_record(r0), rest, width, tail);
        assert(seq![r0] + rest =~= rs);
    }
}

/// Reading `n + m` records is reading `n`, then `m` more from where those
/// ended.
pub proof fn lemma_records_split(d: Seq<u8>, p: int, index_len: u64, value_len: u64, n: nat, m: nat)
    ensures
        parse_records(d, p, index_len, value_len, n + m) == match parse_records(
            d,
            p,
            index_len,
            value_len,
            n,
        ) {
            (Ok(a), q) => prepend_records(a, parse_records(d, q, index_len, value_len, m)),
            (Err(e), q) => (Err(e), q),
        },
    decreases n,
{
    if n == 0 {
        let r = parse_records(d, p, index_len, value_len, m);
        match r.0 {
            Ok(rs) => assert(Seq::<RecordView>::empty() + rs =~= rs),
            Err(_) => {},
        }
    } else {
        let (r, q) = parse_record(d, p, index_len, value_len);
        if r is Ok {
            lemma_records_split(d, q, index_len, value_len, (n - 1) as nat, m);
            assert((n + m - 1) as nat == (n - 1) as nat + m);
            let rec = r->Ok_0;
            match parse_records(d, q, index_len, value_len, (n - 1) as nat) {
                (Ok(a), q2) => {
                    match parse_records(d, q2, index_len, value_len, m).0 {
                        Ok(b) => assert(seq![rec] + (a + b) =~= (seq![rec] + a) + b),
                        Err(_) => {},
                    }
                },
                (Err(_), _) => {},
            }
        }
    }
}

/// A series whose last record is cut short reads its other records, in
/// order, and then fails with `EndOfFile` on the last: it never hands out a
/// short record.
pub proof fn lemma_truncated_series(
    pre: Seq<u8>,
    width: u64,
    rs: Seq<RecordView>,
    cut: int,
)
    requires
        all_of_width(rs, width as nat),
        rs.len() > 0,
        0 < cut <= record_size(1, width),
    ensures
        ({
            let full = pre + encode_records(rs);
            let d = full.subrange(0, full.len() - cut);
            let p = pre.len() as int;
            let n = (rs.len() - 1) as nat;
            let q = p + encode_records(rs.drop_last()).len();
            &&& parse_records(d, p, 1, width, n) == (Ok::<Seq<RecordView>, Error>(rs.drop_last()), q)
            &&& parse_record(d, q, 1, width) == (Err::<RecordView, Error>(Error::EndOfFile), d.len() as int)
            &&& parse_records(d, p, 1, width, rs.len()) == (Err::<Seq<RecordView>, Error>(
                Error::EndOfFile,
            ), d.len() as int)
        }),
{
    let init = rs.drop_last();
    let last = rs.last();
    let full = pre + encode_records(rs);
    let d = full.subrange(0, full.len() - cut);
    let p = pre.len() as int;
    let n = (rs.len() - 1) as nat;
    let q = p + encode_records(init).len();
    lemma_record_round_trip(last, Seq::empty(), Seq::empty());
    assert(last.1.len() == width);
    let partial = encode_record(last).subrange(0, encode_record(last).len() - cut);
    assert(d =~= pre + encode_records(init) + partial);
    assert(all_of_width(init, width as nat)) by {
        assert forall|k: int| 0 <= k < init.len() implies (#[trigger] init[k]).1.len()
            == width as nat by {
            assert(init[k] == rs[k]);
        }
    }
    lemma_records_round_trip(pre, init, width, partial);
    lemma_records_split(d, p, 1, width, n, 1);
    assert(n + 1 == rs.len());
}

/// The schema of a series block of `n` records of `width` values.
pub open spec fn series_schema(width: u64, n: nat) -> F64TSBlockView {
    F64TSBlockView { index_len: 1, value_len: width, length: Some(n as u64) }
}

/// A series block as the writer leaves it, once its count is final, reads
/// back as its schema followed by exactly its records, in order, whatever
/// precedes and follows it.
pub proof fn lemma_series_fidelity(pre: Seq<u8>, width: u64, rs: Seq<RecordView>, tail: Seq<u8>)
    requires
        all_of_width(rs, width as nat),
        rs.len() <= u64::MAX,
    ensures
        ({
            let s = series_schema(width, rs.len());
            let d = pre + series_block_header() + encode_f64ts(s) + encode_records(rs) + tail;
            let q = pre.len() + series_block_header().len() + 24int;
            &&& parse_block(d, pre.len() as int) == (Ok::<BlockView, Error>(BlockView::FloatTS(s)), q)
            &&& parse_records(d, q, 1, width, rs.len()) == (Ok::<Seq<RecordView>, Error>(rs), q
                + encode_records(rs).len() as int)
        }),
{
    let s = series_schema(width, rs.len());
    let d = pre + series_block_header() + encode_f64ts(s) + encode_records(rs) + tail;
    let h = crate::header::BlockHeaderView { name: crate::header::float_ts_block_name(), size: 24 };
    reveal_strlit("float-ts");
    reveal_strlit("log");
    lemma_utf8_len(h.name);
    assert(d =~= pre + crate::header::encode_block_header(h) + (encode_f64ts(s) + encode_records(
        rs,
    ) + tail));
    crate::header::lemma_block_header_round_trip(h, pre, encode_f64ts(s) + encode_records(rs) + tail);
    assert(h.name != crate::header::log_block_name());
    let p1 = pre + series_block_header();
    assert(d =~= p1 + encode_f64ts(s) + (encode_records(rs) + tail));
    crate::header::lemma_f64ts_round_trip(s, p1, encode_records(rs) + tail);
    assert(d =~= (p1 + encode_f64ts(s)) + encode_records(rs) + tail);
    lemma_records_round_trip(p1 + encode_f64ts(s), rs, width, tail);
}

/// Reading a whole container: the file header, then the blocks.
pub open spec fn load_container(d: Seq<u8>) -> core::result::Result<
    (Seq<RecordView>, Seq<LogBlockView>),
    Error,
> {
    let (h, q) = parse_header(d, 0);
    match h {
        Err(e) => Err(e),
        Ok(_) => load_spec(d, q),
    }
}

/// Reads a container: the records of all its float-series blocks, in order,
/// and its log entries, in order; see [`load_container`].
pub fn load_f64ts(stream: Vec<u8>) -> (r: core::result::Result<
    (Vec<(u64, Vec<u64>)>, Metadata),
    Error,
>)
    ensures
        match load_container(stream@) {
            Ok((rs, ls)) => r matches Ok((es, m)) && record_views(es@) == rs && m@ == ls,
            Err(e) => r == Err::<(Vec<(u64, Vec<u64>)>, Metadata), Error>(e),
        },
{
    let ghost d = stream@;
    let mut reader = Reader::new(stream);
    match reader.initialize() {
        Ok(()) => {},
        Err(e) => return Err(e),
    }
    let mut read_data: Vec<(u64, Vec<u64>)> = Vec::new();
    let mut logs: Vec<LogBlock> = Vec::new();
    loop
        invariant
            d == stream@,
            reader@.data == d,
            0 <= reader@.pos <= d.len(),
            load_container(d) == match load_spec(d, reader@.pos) {
                Ok((rs, ls)) => Ok((record_views(read_data@) + rs, log_views(logs@) + ls)),
                Err(e) => Err(e),
            },
        decreases d.len() - reader@.pos,
    {
        let ghost p = reader@.pos;
        proof {
            lemma_load_step(d, p);
        }
        let result = reader.next_block();
        let block = match result {
            Err(e) => {
                if e == Error::EndOfFile {
                    proof {
                        assert(record_views(read_data@) + Seq::empty() =~= record_views(read_data@));
                        assert(log_views(logs@) + Seq::empty() =~= log_views(logs@));
                    }
                    return Ok((read_data, Metadata { logs }));
                }
                return Err(e);
            },
            Ok(b) => b,
        };
        match block {
            Block::Log(log) => {
                let ghost before = logs@;
                logs.push(log);
                proof {
                    assert(parse_block(d, p).0 == Ok::<BlockView, Error>(BlockView::Log(log@)));
                    assert(reader@.pos == parse_block(d, p).1);
                    assert(log_views(logs@) =~= log_views(before) + seq![log@]);
                    match load_spec(d, reader@.pos) {
                        Ok((rs, ls)) => {
                            assert(log_views(before) + (seq![log@] + ls) =~= log_views(logs@)
                                + ls);
                        },
                        Err(_) => {},
                    }
                }
            },
            Block::FloatTS(fts) => {
                let ghost r0 = record_views(read_data@);
                let ghost q = reader@.pos;
                let ghost n0 = count_on_wire(fts@.length) as nat;
                let ghost lv = log_views(logs@);
                proof {
                    lemma_block_advances(d, p);
                    assert(parse_block(d, p).0 == Ok::<BlockView, Error>(BlockView::FloatTS(fts@)));
                    assert(q == parse_block(d, p).1);
                }
                let mut entries = reader.float_ts_entries(&fts);
                let ghost mut got: Seq<RecordView> = Seq::empty();
                loop
                    invariant
                        d == stream@,
                        entries@.reader.data == d,
                        p < q <= entries@.reader.pos <= d.len(),
                        entries@.index_len == fts@.index_len,
                        entries@.value_len == fts@.value_len,
                        record_views(read_data@) == r0 + got,
                        log_views(logs@) == lv,
                        load_spec(d, p) == match parse_records(
                            d,
                            q,
                            fts@.index_len,
                            fts@.value_len,
                            n0,
                        ).0 {
                            Err(e) => Err(e),
                            Ok(rs1) => match load_spec(
                                d,
                                parse_records(d, q, fts@.index_len, fts@.value_len, n0).1,
                            ) {
                                Ok((rs, ls)) => Ok((rs1 + rs, ls)),
                                Err(e) => Err(e),
                            },
                        },
                        load_container(d) == match load_spec(d, p) {
                            Ok((rs, ls)) => Ok((r0 + rs, lv + ls)),
                            Err(e) => Err(e),
                        },
                        parse_records(d, q, fts@.index_len, fts@.value_len, n0) == prepend_records(
                            got,
                            parse_records(
                                d,
                                entries@.reader.pos,
                                fts@.index_len,
                                fts@.value_len,
                                entries@.remaining,
                            ),
                        ),
                    ensures
                        entries@.remaining == 0,
                    decreases entries@.remaining,
                {
                    match entries.next() {
                        None => break,
                        Some(Err(e)) => return Err(e),
                        Some(Ok(rec)) => {
                            let ghost before = read_data@;
                            read_data.push(rec);
                            proof {
                                let rv = (rec.0, rec.1@);
                                assert(record_views(read_data@) =~= record_views(before) + seq![
                                    rv,
                                ]);
                                assert(r0 + got.push(rv) =~= r0 + got + seq![rv]);
                                let tail = parse_records(
                                    d,
                                    entries@.reader.pos,
                                    fts@.index_len,
                                    fts@.value_len,
                                    entries@.remaining,
                                );
                                match tail.0 {
                                    Ok(rs) => {
                                        assert(got + (seq![rv] + rs) =~= got.push(rv) + rs);
                                    },
                                    Err(_) => {},
                                }
                                got = got.push(rv);
                            }
                        },
                    }
                }
                proof {
                    assert(got + Seq::<RecordView>::empty() =~= got);
                    let q2 = entries@.reader.pos;
                    assert(parse_records(d, q, fts@.index_len, fts@.value_len, n0) == (
                    Ok::<Seq<RecordView>, Error>(got), q2));
                    match load_spec(d, entries@.reader.pos) {
                        Ok((rs, ls)) => {
                            assert(r0 + (got + rs) =~= record_views(read_data@) + rs);
                        },
                        Err(_) => {},
                    }
                }
                reader = entries.into_reader();
            },
        }
    }
}

/// Entries that can be saved together: at least one, each of the first's
/// width, and few enough to count in a `u64`.
pub open spec fn saveable(es: Seq<(u64, Vec<u64>)>) -> bool {
    &&& 0 < es.len() < u64::MAX
    &&& forall|i: int| 0 <= i < es.len() ==> (#[trigger] es[i]).1@.len() == es[0].1@.len()
}

/// The schema under which entries are saved: index width 1, the entries'
/// width, their count.
pub open spec fn saved_schema(es: Seq<(u64, Vec<u64>)>) -> F64TSBlockView {
    F64TSBlockView {
        index_len: 1,
        value_len: es[0].1@.len() as u64,
        length: Some(es.len() as u64),
    }
}

/// Writes a container after the bytes of `stream`: the file header, a log
/// block for each log entry of `metadata`, then one float-series block with
/// all the entries.
pub fn save_f64ts(stream: Vec<u8>, entries: &[(u64, Vec<u64>)], metadata: &Metadata) -> (r: Vec<
    u8,
>)
    requires
        saveable(entries@),
        forall|i: int| 0 <= i < metadata@.len() ==> log_fits(#[trigger] metadata@[i]),
    ensures
        r@ == stream@ + encode_header(header_for(0)) + encode_log_blocks(metadata@)
            + series_block_header() + encode_f64ts(saved_schema(entries@)) + encode_records(
            record_views(entries@),
        ),
{
    let mut writer = Writer::new(stream);
    writer.write_header(0);
    let ghost base = writer@;
    let mut i: usize = 0;
    while i < metadata.logs.len()
        invariant
            i <= metadata@.len(),
            metadata@ == log_views(metadata.logs@),
            forall|k: int| 0 <= k < metadata@.len() ==> log_fits(#[trigger] metadata@[k]),
            writer@ == base + encode_log_blocks(metadata@.subrange(0, i as int)),
        decreases metadata@.len() - i,
    {
        assert(log_fits(metadata@[i as int]));
        writer.write_log(&metadata.logs[i]);
        assert(metadata@.subrange(0, i + 1).drop_last() =~= metadata@.subrange(0, i as int));
        i = i + 1;
    }
    assert(metadata@.subrange(0, metadata@.len() as int) =~= metadata@);
    let width = entries[0].1.len() as u64;
    let count = entries.len() as u64;
    let fts = F64TSBlockBuilder::new().index_len(1).value_len(width).length(count).build();
    let mut w = writer.write_float_ts(fts);
    let ghost start = w@;
    assert(record_views(entries@).subrange(0, 0) =~= Seq::<RecordView>::empty());
    assert(start.stream + encode_records(Seq::<RecordView>::empty()) =~= start.stream);
    let mut j: usize = 0;
    while j < entries.len()
        invariant
            saveable(entries@),
            j <= entries@.len(),
            fts@ == saved_schema(entries@),
            fts@.value_len == entries@[0].1@.len(),
            w.wf(),
            w@ == (crate::writer::FloatTSWriterView {
                stream: start.stream + encode_records(record_views(entries@).subrange(0, j as int)),
                records: record_views(entries@).subrange(0, j as int),
                ..start
            }),
            start.records == Seq::<RecordView>::empty(),
            start.schema == fts@,
        decreases entries@.len() - j,
    {
        let entry = &entries[j];
        assert(entries@[j as int].1@.len() == entries@[0].1@.len());
        let values = entry.1.as_slice();
        assert(values@ == entries@[j as int].1@);
        assert(values@.len() == w@.schema.value_len);
        let ghost before = w@;
        w.write_entry(entry.0, values);
        proof {
            let rs = record_views(entries@).subrange(0, j + 1);
            let prev = record_views(entries@).subrange(0, j as int);
            assert(rs.drop_last() =~= prev);
            assert(rs.last() == (entry.0, values@));
            assert(encode_records(rs) == encode_records(prev) + crate::series::encode_record(
                (entry.0, values@),
            ));
            assert(w@.records =~= rs);
            assert(w@.stream =~= start.stream + encode_records(rs));
        }
        j = j + 1;
    }
    assert(record_views(entries@).subrange(0, entries@.len() as int) =~= record_views(entries@));
    let writer = w.finish();
    writer.into_stream()
}

} // verus!
