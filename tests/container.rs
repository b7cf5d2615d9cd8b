use tsbin::error::Error;
use tsbin::header::{
    BlockHeader, F64TSBlock, F64TSBlockBuilder, Header, LogBlock, LogBlockBuilder, Timestamp,
    F64TS_SCHEMA_SIZE, HEADER_SIZE,
};
use tsbin::reader::{Block, Reader};
use tsbin::writer::Writer;

fn header_bytes() -> Vec<u8> {
    let mut v = Vec::new();
    Header::new(0).write_into(&mut v);
    v
}

fn series_file(rows: &[(u64, Vec<u64>)]) -> Vec<u8> {
    let mut writer = Writer::new(Vec::new());
    writer.write_header(0);
    let fts = F64TSBlockBuilder::new().index_len(1).value_len(rows[0].1.len() as u64).build();
    let mut w = writer.write_float_ts_with_seek(fts);
    for (i, v) in rows {
        w.write_entry(*i, v);
    }
    w.finalize().finish().into_stream()
}

fn rows(n: u64, width: u64) -> Vec<(u64, Vec<u64>)> {
    (0..n)
        .map(|i| {
            let x = i as f64;
            (x.to_bits(), (0..width).map(|k| (x * (k as f64 + 0.5)).to_bits()).collect())
        })
        .collect()
}

#[test]
fn header_layout_is_exact() {
    let v = header_bytes();
    assert_eq!(v.len() as u64, HEADER_SIZE);
    assert_eq!(&v[0..8], b"tsbinfmt");
    assert_eq!(&v[8..16], &[56, 0, 0, 0, 0, 0, 0, 0]);
    assert_eq!(&v[16..20], &[0, 0, 0, 0]);
    assert_eq!(&v[20..24], &[1, 0, 0, 0]);
    assert!(v[24..].iter().all(|b| *b == 0));
}

#[test]
fn header_round_trip() {
    let mut v = Vec::new();
    let h = Header::new(0x0102_0304_0506_0708);
    h.write_into(&mut v);
    assert_eq!(&v[24..32], &[8, 7, 6, 5, 4, 3, 2, 1]);
    v.extend_from_slice(b"tail");
    let (r, pos) = Header::read_from(&v, 0);
    assert_eq!(r.unwrap(), h);
    assert_eq!(pos, 56);
}

#[test]
fn block_header_round_trip() {
    let mut v = vec![9u8, 9];
    let h = BlockHeader::new("log", 300);
    h.write_into(&mut v);
    assert_eq!(&v[2..10], b"block   ");
    assert_eq!(&v[10..18], &[3, 0, 0, 0, 0, 0, 0, 0]);
    assert_eq!(&v[18..21], b"log");
    assert_eq!(&v[21..29], &[44, 1, 0, 0, 0, 0, 0, 0]);
    let (r, pos) = BlockHeader::read_from(&v, 2);
    let r = r.unwrap();
    assert_eq!(r, h);
    assert_eq!(r.clone_name(), "log");
    assert_eq!(pos, v.len());
}

#[test]
fn log_block_round_trip() {
    let log = LogBlockBuilder::new()
        .program("prog")
        .info("héllo wörld")
        .time(Timestamp { secs: 1_600_000_000, nanos: 123_456_789 })
        .build();
    let mut v = Vec::new();
    log.write_into(&mut v);
    assert_eq!(v.len(), log.size());
    assert_eq!(log.size(), 8 + 4 + 8 + 4 + 8 + "héllo wörld".len());
    let (r, pos) = LogBlock::read_from(&v, 0);
    let r = r.unwrap();
    assert_eq!(r, log);
    assert_eq!(r.program(), "prog");
    assert_eq!(r.info(), "héllo wörld");
    assert_eq!(r.time(), Timestamp { secs: 1_600_000_000, nanos: 123_456_789 });
    assert_eq!(pos, v.len());
}

#[test]
fn f64ts_round_trip() {
    let b = F64TSBlockBuilder::new().index_len(1).value_len(7).length(42).build();
    let mut v = Vec::new();
    b.write_into(&mut v);
    assert_eq!(v.len() as u64, F64TS_SCHEMA_SIZE);
    assert_eq!(b.size(), 24);
    let (r, pos) = F64TSBlock::read_from(&v, 0);
    assert_eq!(r.unwrap(), b);
    assert_eq!(pos, 24);
}

#[test]
fn f64ts_unknown_count_reads_as_zero() {
    let mut b = F64TSBlockBuilder::new().index_len(1).value_len(2).build();
    assert_eq!(b.length(), None);
    let mut v = Vec::new();
    b.write_into(&mut v);
    let (r, _) = F64TSBlock::read_from(&v, 0);
    assert_eq!(r.unwrap().length(), Some(0));
    b.set_length(5);
    assert_eq!(b.length(), Some(5));
}

#[test]
fn log_builder_without_time_uses_clock() {
    let log = LogBlockBuilder::new().program("a").info("b").build();
    assert!(log.time().secs > 1_500_000_000);
    assert!(log.time().nanos < 1_000_000_000);
}

#[test]
fn series_write_read_fidelity() {
    let data = rows(25, 4);
    let buf = series_file(&data);
    let mut reader = Reader::new(buf);
    reader.initialize().unwrap();
    let fts = match reader.next_block().unwrap() {
        Block::FloatTS(f) => f,
        Block::Log(_) => panic!("expected a series block"),
    };
    assert_eq!(fts.length(), Some(25));
    assert_eq!(fts.value_len(), 4);
    let mut entries = reader.float_ts_entries(&fts);
    let mut got = Vec::new();
    while let Some(e) = entries.next() {
        got.push(e.unwrap());
    }
    assert_eq!(got, data);
    let mut reader = entries.into_reader();
    assert_eq!(reader.next_block().unwrap_err(), Error::EndOfFile);
}

#[test]
fn series_known_count_without_finalize() {
    let data = rows(3, 2);
    let mut writer = Writer::new(Vec::new());
    writer.write_header(0);
    let fts = F64TSBlockBuilder::new().index_len(1).value_len(2).length(3).build();
    let mut w = writer.write_float_ts(fts);
    for (i, v) in &data {
        w.write_entry(*i, v);
    }
    let buf = w.finish().into_stream();
    let (entries, meta) = tsbin::load_f64ts(buf).unwrap();
    assert_eq!(entries, data);
    assert!(meta.get_logs().is_empty());
}

#[test]
fn finalize_keeps_stream_length() {
    let mut writer = Writer::new(Vec::new());
    writer.write_header(0);
    let fts = F64TSBlockBuilder::new().index_len(1).value_len(1).build();
    let mut w = writer.write_float_ts_with_seek(fts);
    w.write_entry(1, &[2]);
    w.write_entry(3, &[4]);
    let before = w.stream_mut().len();
    let w = w.finalize();
    let buf = w.finish().into_stream();
    assert_eq!(buf.len(), before);
    let count_at = 56 + 8 + 8 + 8 + 8 + 8 + 8;
    assert_eq!(&buf[count_at..count_at + 8], &[2, 0, 0, 0, 0, 0, 0, 0]);
}

#[test]
fn truncated_series_reports_error() {
    let data = rows(5, 3);
    let mut buf = series_file(&data);
    buf.truncate(buf.len() - 5);
    let mut reader = Reader::new(buf);
    reader.initialize().unwrap();
    let fts = match reader.next_block().unwrap() {
        Block::FloatTS(f) => f,
        Block::Log(_) => panic!("expected a series block"),
    };
    let mut entries = reader.float_ts_entries(&fts);
    for k in 0..4 {
        assert_eq!(entries.next().unwrap().unwrap(), data[k]);
    }
    assert_eq!(entries.next().unwrap().unwrap_err(), Error::EndOfFile);
    assert!(entries.next().is_none());
    let buf2 = {
        let mut b = series_file(&data);
        b.truncate(b.len() - 5);
        b
    };
    assert_eq!(tsbin::load_f64ts(buf2).unwrap_err(), Error::EndOfFile);
}

#[test]
fn unknown_block_name() {
    let mut v = header_bytes();
    BlockHeader::new("bogus", 0).write_into(&mut v);
    let mut reader = Reader::new(v.clone());
    reader.initialize().unwrap();
    assert_eq!(reader.next_block().unwrap_err(), Error::UndefinedBlock);
    assert_eq!(tsbin::load_f64ts(v).unwrap_err(), Error::UndefinedBlock);
}

#[test]
fn older_series_name_is_read() {
    let mut v = header_bytes();
    BlockHeader::new("f64ts", 24).write_into(&mut v);
    F64TSBlockBuilder::new().index_len(1).value_len(0).length(0).build().write_into(&mut v);
    let mut reader = Reader::new(v);
    reader.initialize().unwrap();
    match reader.next_block().unwrap() {
        Block::FloatTS(f) => assert_eq!(f.value_len(), 0),
        Block::Log(_) => panic!("expected a series block"),
    }
}

#[test]
fn end_of_stream_at_block_boundary() {
    let log = LogBlockBuilder::new().program("p").info("i").time(Timestamp { secs: 5, nanos: 6 }).build();
    let mut writer = Writer::new(Vec::new());
    writer.write_header(0);
    writer.write_log(&log);
    let buf = writer.into_stream();
    let mut reader = Reader::new(buf.clone());
    reader.initialize().unwrap();
    match reader.next_block().unwrap() {
        Block::Log(l) => assert_eq!(l, log),
        Block::FloatTS(_) => panic!("expected a log block"),
    }
    assert_eq!(reader.next_block().unwrap_err(), Error::EndOfFile);
    let (entries, meta) = tsbin::load_f64ts(buf).unwrap();
    assert!(entries.is_empty());
    assert_eq!(meta.get_logs().len(), 1);
    assert_eq!(meta.get_logs()[0], log);
}

#[test]
fn empty_input_is_end_of_file() {
    let mut reader = Reader::new(Vec::new());
    assert_eq!(reader.initialize().unwrap_err(), Error::EndOfFile);
    let mut reader = Reader::new(b"tsbinf".to_vec());
    assert_eq!(reader.initialize().unwrap_err(), Error::EndOfFile);
    let mut short = header_bytes();
    short.truncate(30);
    let mut reader = Reader::new(short);
    assert_eq!(reader.initialize().unwrap_err(), Error::EndOfFile);
}

#[test]
fn magic_mismatch() {
    let good = series_file(&rows(2, 1));
    for i in 0..8 {
        let mut bad = good.clone();
        bad[i] ^= 0x20;
        let mut reader = Reader::new(bad.clone());
        assert_eq!(reader.initialize().unwrap_err(), Error::Magic);
        assert_eq!(tsbin::load_f64ts(bad).unwrap_err(), Error::Magic);
    }
}

#[test]
fn block_magic_mismatch() {
    let mut v = header_bytes();
    v.extend_from_slice(b"blocc   ");
    v.extend_from_slice(&[0u8; 16]);
    let mut reader = Reader::new(v);
    reader.initialize().unwrap();
    assert_eq!(reader.next_block().unwrap_err(), Error::Magic);
}

#[test]
fn invalid_text_in_log() {
    let mut v = header_bytes();
    BlockHeader::new("log", 0).write_into(&mut v);
    v.extend_from_slice(&[0u8; 12]);
    v.extend_from_slice(&[2, 0, 0, 0, 0, 0, 0, 0, 0xff, 0xfe]);
    v.extend_from_slice(&[0u8; 8]);
    let mut reader = Reader::new(v);
    reader.initialize().unwrap();
    assert_eq!(reader.next_block().unwrap_err(), Error::InvalidText);
}

#[test]
fn check_magic_compares_common_prefix() {
    assert!(Header::check_magic(b"tsbinfmt"));
    assert!(Header::check_magic(b"tsb"));
    assert!(!Header::check_magic(b"brotofmt"));
    assert!(BlockHeader::check_magic(b"block   "));
    assert!(!BlockHeader::check_magic(b"blocks  "));
    assert_eq!(&Header::clone_magic(), b"tsbinfmt");
    assert_eq!(&BlockHeader::clone_magic(), b"block   ");
}

#[test]
fn error_descriptions() {
    assert_eq!(Error::EndOfFile.description(), "End of File");
    assert_eq!(Error::Magic.description(), "Magic number error");
    assert_eq!(Error::UndefinedBlock.description(), "Undefined Block");
    assert_eq!(Error::InvalidText.description(), "String error: invalid UTF-8");
}

#[test]
fn save_layout_matches_writer() {
    let data = rows(4, 2);
    let mut metadata = tsbin::Metadata::new();
    metadata
        .get_logs_mut()
        .push(LogBlockBuilder::new().program("x").info("y").time(Timestamp { secs: 1, nanos: 2 }).build());
    let saved = tsbin::save_f64ts(vec![7u8], &data, &metadata);
    let mut writer = Writer::new(vec![7u8]);
    writer.write_header(0);
    writer.write_log(&metadata.get_logs()[0]);
    let fts = F64TSBlockBuilder::new().index_len(1).value_len(2).length(4).build();
    let mut w = writer.write_float_ts(fts);
    for (i, v) in &data {
        w.write_entry(*i, v);
    }
    assert_eq!(saved, w.finish().into_stream());
}
