//! The records of a float-series block: an index float followed by a fixed
//! number of value floats, each float carried as its 64-bit pattern.
use vstd::prelude::*;
use crate::error::Error;
use crate::wire::{same_outcome, u64_at, u64_field, lemma_u64_round_trip, read_u64, write_u64};

verus! {

/// One record: the index and the values, as float bit patterns.
pub type RecordView = (u64, Seq<u64>);

/// The bytes of consecutive `u64` fields.
pub open spec fn u64s_field(vs: Seq<u64>) -> Seq<u8>
    decreases vs.len(),
{
    if vs.len() == 0 {
        Seq::empty()
    } else {
        u64s_field(vs.drop_last()) + u64_field(vs.last())
    }
}

/// The bytes of one record: the index, then the values.
pub open spec fn encode_record(r: RecordView) -> Seq<u8> {
    u64_field(r.0) + u64s_field(r.1)
}

/// The bytes of consecutive records, laid out with no padding.
pub open spec fn encode_records(rs: Seq<RecordView>) -> Seq<u8>
    decreases rs.len(),
{
    if rs.len() == 0 {
        Seq::empty()
    } else {
        encode_records(rs.drop_last()) + encode_record(rs.last())
    }
}

/// Every record holds `width` values.
pub open spec fn all_of_width(rs: Seq<RecordView>, width: nat) -> bool {
    forall|k: int| 0 <= k < rs.len() ==> (#[trigger] rs[k]).1.len() == width
}

/// Index floats that a record holds on the wire: the first is the index,
/// the others are skipped. A width of 0 still holds the index.
pub open spec fn index_floats(index_len: u64) -> int {
    if index_len == 0 {
        1
    } else {
        index_len as int
    }
}

/// Byte length of one record on the wire.
pub open spec fn record_size(index_len: u64, value_len: u64) -> int {
    8 * (index_floats(index_len) + value_len)
}

/// Decoding one record at `p`: the record and the position after it, or
/// `EndOfFile` (with the remaining bytes taken) when the record is cut short.
pub open spec fn parse_record(d: Seq<u8>, p: int, index_len: u64, value_len: u64) -> (
    core::result::Result<RecordView, Error>,
    int,
) {
    if p + record_size(index_len, value_len) <= d.len() {
        let vstart = p + 8 * index_floats(index_len);
        (
            Ok((u64_at(d, p), Seq::new(value_len as nat, |j: int| u64_at(d, vstart + 8 * j)))),
            p + record_size(index_len, value_len),
        )
    } else {
        (Err(Error::EndOfFile), d.len() as int)
    }
}

/// The fields of `u64s_field(vs)` stand eight bytes apart, in order.
pub proof fn lemma_u64s_field(vs: Seq<u64>)
    ensures
        u64s_field(vs).len() == 8 * vs.len(),
        forall|j: int|
            0 <= j < vs.len() ==> #[trigger] u64s_field(vs).subrange(8 * j, 8 * j + 8)
                == u64_field(vs[j]),
    decreases vs.len(),
{
    lemma_u64_round_trip(0, Seq::empty(), Seq::empty());
    if vs.len() > 0 {
        let init = vs.drop_last();
        lemma_u64s_field(init);
        lemma_u64_round_trip(vs.last(), Seq::empty(), Seq::empty());
        let b = u64s_field(vs);
        assert forall|j: int| 0 <= j < vs.len() implies #[trigger] b.subrange(8 * j, 8 * j + 8)
            == u64_field(vs[j]) by {
            if j < init.len() {
                assert(b.subrange(8 * j, 8 * j + 8) =~= u64s_field(init).subrange(8 * j, 8 * j + 8));
            } else {
                assert(b.subrange(8 * j, 8 * j + 8) =~= u64_field(vs.last()));
            }
        }
    }
}

/// A record reads back as itself under a schema of index width 1 and its
/// own number of values.
pub proof fn lemma_record_round_trip(r: RecordView, pre: Seq<u8>, tail: Seq<u8>)
    requires
        r.1.len() <= u64::MAX,
    ensures
        encode_record(r).len() == record_size(1, r.1.len() as u64),
        parse_record(pre + encode_record(r) + tail, pre.len() as int, 1, r.1.len() as u64) == (
        Ok::<RecordView, Error>(r), pre.len() + encode_record(r).len() as int),
{
    lemma_u64s_field(r.1);
    lemma_u64_round_trip(r.0, pre, u64s_field(r.1) + tail);
    let d = pre + encode_record(r) + tail;
    let p = pre.len() as int;
    assert(d =~= pre + u64_field(r.0) + (u64s_field(r.1) + tail));
    let vs = Seq::new(r.1.len() as u64 as nat, |j: int| u64_at(d, p + 8 + 8 * j));
    assert forall|j: int| 0 <= j < r.1.len() implies vs[j] == r.1[j] by {
        lemma_u64_round_trip(r.1[j], Seq::empty(), Seq::empty());
        assert(d.subrange(p + 8 + 8 * j, p + 8 + 8 * j + 8) =~= u64s_field(r.1).subrange(
            8 * j,
            8 * j + 8,
        ));
        assert(Seq::<u8>::empty() + u64_field(r.1[j]) + Seq::<u8>::empty() =~= u64_field(r.1[j]));
        assert(d.subrange(p + 8 + 8 * j, p + 8 + 8 * j + 8) =~= u64_field(r.1[j]).subrange(0, 8));
    }
    assert(vs =~= r.1);
}

/// Reads one record at `pos` under a schema of the given widths; see
/// [`parse_record`]. The second result is the position after the read.
pub fn read_record(data: &[u8], pos: usize, index_len: u64, value_len: u64) -> (r: (
    core::result::Result<(u64, Vec<u64>), Error>,
    usize,
))
    requires
        pos <= data@.len(),
    ensures
        r.1 as int == parse_record(data@, pos as int, index_len, value_len).1,
        same_outcome(r.0, parse_record(data@, pos as int, index_len, value_len).0),
{
    let rest: usize = data.len() - pos;
    let avail: usize = rest / 8;
    let idx: u64 = if index_len == 0 {
        1
    } else {
        index_len
    };
    assert(idx as int == index_floats(index_len));
    assert(8 * avail <= rest < 8 * avail + 8) by (nonlinear_arith)
        requires
            avail == rest / 8,
    ;
    if idx > avail as u64 || value_len > avail as u64 - idx {
        assert(8 * (idx + value_len) > rest) by (nonlinear_arith)
            requires
                idx + value_len > avail,
                rest < 8 * avail + 8,
        ;
        return (Err(Error::EndOfFile), data.len());
    }
    assert(8 * (idx + value_len) <= rest) by (nonlinear_arith)
        requires
            idx + value_len <= avail,
            8 * avail <= rest,
    ;
    let (index, _) = read_u64(data, pos);
    let index = match index {
        Ok(v) => v,
        Err(e) => return (Err(e), data.len()),
    };
    let vstart: usize = pos + 8 * (idx as usize);
    let ghost vs = Seq::new(value_len as nat, |j: int| u64_at(data@, vstart + 8 * j));
    let mut values: Vec<u64> = Vec::new();
    let mut j: u64 = 0;
    let mut at: usize = vstart;
    while j < value_len
        invariant
            j <= value_len,
            at == vstart + 8 * j,
            vstart + 8 * value_len <= data@.len(),
            vs == Seq::new(value_len as nat, |j: int| u64_at(data@, vstart + 8 * j)),
            values@ == vs.subrange(0, j as int),
        decreases value_len - j,
    {
        assert(at + 8 <= vstart + 8 * value_len) by (nonlinear_arith)
            requires
                at == vstart + 8 * j,
                j < value_len,
        ;
        let (v, _) = read_u64(data, at);
        let v = match v {
            Ok(v) => v,
            Err(e) => return (Err(e), data.len()),
        };
        values.push(v);
        j = j + 1;
        at = at + 8;
        assert(values@ =~= vs.subrange(0, j as int));
    }
    assert(values@ =~= vs);
    (Ok((index, values)), at)
}

/// Appends one record: the index, then the values.
pub fn write_record(sink: &mut Vec<u8>, index: u64, values: &[u64])
    ensures
        final(sink)@ == old(sink)@ + encode_record((index, values@)),
{
    write_u64(sink, index);
    let mut i: usize = 0;
    while i < values.len()
        invariant
            i <= values@.len(),
            sink@ == old(sink)@ + u64_field(index) + u64s_field(values@.subrange(0, i as int)),
        decreases values@.len() - i,
    {
        write_u64(sink, values[i]);
        assert(values@.subrange(0, i + 1).drop_last() =~= values@.subrange(0, i as int));
        i = i + 1;
    }
    assert(values@.subrange(0, values@.len() as int) =~= values@);
}

} // verus!
