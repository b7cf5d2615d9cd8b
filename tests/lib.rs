use tsbin::error::Error;
use tsbin::header::{F64TSBlockBuilder, Header, LogBlockBuilder};
use tsbin::reader::{Block, Reader};
use tsbin::writer::Writer;

fn bits(v: &[f64]) -> Vec<u64> {
    v.iter().map(|x| x.to_bits()).collect()
}

fn floats(v: &[u64]) -> Vec<f64> {
    v.iter().map(|x| f64::from_bits(*x)).collect()
}

fn sample_rows(n: usize) -> Vec<Vec<f64>> {
    let mut data = Vec::new();
    for i in 0..n {
        let x = i as f64;
        data.push(vec![0.1 * x, 0.2 * x, 0.3 * x]);
    }
    data
}

#[test]
fn test_reader_writer_1() {
    let data = sample_rows(30);

    let hd = Header::new(0);
    println!("Header: {:?}", hd);

    let log = LogBlockBuilder::new().program("tsbin").info("creation").build();
    println!("Log block: {:?}", log);

    let mut writer = Writer::new(Vec::new());
    writer.write_header(0);
    writer.write_log(&log);

    let fts = F64TSBlockBuilder::new().index_len(1).value_len(3).build();
    println!("FloatTS block: {:?}", fts);

    let writer = {
        let mut w = writer.write_float_ts_with_seek(fts);
        for (i, v) in data.iter().enumerate() {
            w.write_entry((i as f64).to_bits(), &bits(v));
            println!("write {:?}", *v);
        }
        w.finalize().finish()
    };

    let buf = writer.into_stream();

    let mut reader = Reader::new(buf);
    reader.initialize().unwrap();

    let mut read_data = Vec::new();

    loop {
        let result = reader.next_block();
        if let Err(e) = result {
            match e {
                Error::EndOfFile => {}
                _ => {
                    println!("Error: {}", e.description());
                }
            };
            break;
        }
        let block = result.unwrap();
        match block {
            Block::Log(log) => {
                println!("Log block was found.");
                println!("    time   : {:?}", log.time());
                println!("    program: {}", log.program());
                println!("    info   : {}", log.info());
            }
            Block::FloatTS(fts) => {
                println!("FloatTS block was found.");
                println!("    index_len: {}", fts.index_len());
                println!("    value_len: {}", fts.value_len());
                println!("    length   : {}", fts.length().unwrap());
                let mut entries = reader.float_ts_entries(&fts);
                while let Some(ent) = entries.next() {
                    let ent = ent.unwrap();
                    let index = f64::from_bits(ent.0);
                    let value = floats(&ent.1);
                    let line: Vec<String> = value.iter().map(|x| format!(" {},", x)).collect();
                    println!("    {}:{}", index, line.concat());
                    read_data.push(value);
                }
                reader = entries.into_reader();
            }
        }
    }

    assert_eq!(data, read_data);
}

#[test]
fn test_reader_writer_2() {
    let data = sample_rows(30);

    let hd = Header::new(0);
    println!("Header: {:?}", hd);

    let log = LogBlockBuilder::new().program("tsbin").info("creation").build();
    println!("Log block: {:?}", log);

    let mut writer = Writer::new(Vec::new());
    writer.write_header(0);
    writer.write_log(&log);

    let fts = F64TSBlockBuilder::new().index_len(1).value_len(3).build();
    println!("FloatTS block: {:?}", fts);

    let writer = {
        let mut w = writer.write_float_ts_with_seek(fts);
        for (i, v) in data.iter().enumerate() {
            w.write_entry((i as f64).to_bits(), &bits(v));
            println!("write {:?}", *v);
        }
        w.finalize().finish()
    };

    let buf = writer.into_stream();

    let (entries, _) = tsbin::load_f64ts(buf).unwrap();
    let read_data: Vec<Vec<f64>> = entries.into_iter().map(|(_, v)| floats(&v)).collect();

    assert_eq!(data, read_data);
}

#[test]
fn test_reader_writer_3() {
    let buf: Vec<u8> = Vec::new();
    let mut data = Vec::new();

    for i in 0..1000 {
        let x = i as f64;
        data.push((x, vec![0.1 * x, 0.2 * x, 0.3 * x]));
    }

    let mut metadata = tsbin::Metadata::new();
    let log = LogBlockBuilder::new().program("tsbin").info("creation").build();
    metadata.get_logs_mut().push(log);
    let log = LogBlockBuilder::new().program("tsbin").info("comment").build();
    metadata.get_logs_mut().push(log);

    let stored: Vec<(u64, Vec<u64>)> = data.iter().map(|(x, v)| (x.to_bits(), bits(v))).collect();
    let cur = tsbin::save_f64ts(buf, &stored, &metadata);

    let (entries, read_meta) = tsbin::load_f64ts(cur).unwrap();
    let entries: Vec<(f64, Vec<f64>)> =
        entries.iter().map(|(x, v)| (f64::from_bits(*x), floats(v))).collect();

    assert_eq!(data, entries);
    assert_eq!(metadata, read_meta);
}
