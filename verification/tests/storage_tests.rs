use calvin_rs::name_map::NameMap;
use calvin_rs::storage::file::{read_span, write_span, FileHeader, FORMAT_VERSION, HEADER_SIZE, MAGIC};
use calvin_rs::storage::series::{SeriesReader, SeriesWriter};
use calvin_rs::storage::{stored_group_name, SeriesMetadata, StorageError, StorageGroup, StorageType};

#[test]
fn test_storage_type_fixed_size() {
    assert_eq!(StorageType::Int.fixed_size(), Some(4));
    assert_eq!(StorageType::Long.fixed_size(), Some(8));
    assert_eq!(StorageType::Bool.fixed_size(), Some(1));
    assert_eq!(StorageType::FixedArray(Box::new(StorageType::Int), 10).fixed_size(), Some(40));
    assert_eq!(StorageType::String.fixed_size(), None);
    assert_eq!(StorageType::Array(Box::new(StorageType::Int)).fixed_size(), None);
}

#[test]
fn record_sizes_sum_their_fields() {
    let mut fields = NameMap::new();
    fields.insert("a".to_string(), StorageType::Int);
    fields.insert("b".to_string(), StorageType::Double);
    fields.insert("c".to_string(), StorageType::FixedArray(Box::new(StorageType::Short), 3));
    let rec = StorageType::Record(fields);
    assert_eq!(rec.fixed_size(), Some(18));
    assert!(rec.is_fixed_size());
    let mut fields = NameMap::new();
    fields.insert("a".to_string(), StorageType::Int);
    fields.insert("s".to_string(), StorageType::String);
    let rec = StorageType::Record(fields);
    assert_eq!(rec.fixed_size(), None);
    assert!(!rec.is_fixed_size());
    assert!(!StorageType::Variant(NameMap::new()).is_fixed_size());
    assert_eq!(StorageType::Record(NameMap::new()).fixed_size(), Some(0));
}

#[test]
fn test_file_header_roundtrip() {
    let header = FileHeader::new();
    let bytes = header.to_bytes();
    let parsed = FileHeader::from_bytes(&bytes).unwrap();
    assert_eq!(parsed.version, FORMAT_VERSION);
    assert_eq!(&parsed.magic, &MAGIC);
}

#[test]
fn header_bytes_layout() {
    let mut header = FileHeader::new();
    header.region_count = 3;
    header.data_size = 0x0102;
    let bytes = header.to_bytes();
    assert_eq!(bytes.len(), HEADER_SIZE);
    assert_eq!(&bytes[0..8], b"CALVINDB");
    assert_eq!(&bytes[8..12], &[1, 0, 0, 0]);
    assert_eq!(&bytes[16..24], &[3, 0, 0, 0, 0, 0, 0, 0]);
    assert_eq!(&bytes[24..26], &[2, 1]);
    assert_eq!(&bytes[32..40], &[56, 0, 0, 0, 0, 0, 0, 0]);
    let parsed = FileHeader::from_bytes(&bytes).unwrap();
    assert_eq!(parsed.region_count, 3);
    assert_eq!(parsed.data_size, 0x0102);
    assert_eq!(parsed.metadata_offset, 56);
}

fn format_message(e: StorageError) -> String {
    match e {
        StorageError::Format(m) => m,
        other => panic!("unexpected {:?}", other),
    }
}

#[test]
fn header_errors() {
    let bytes = FileHeader::new().to_bytes();
    assert_eq!(format_message(FileHeader::from_bytes(&bytes[..55]).unwrap_err()), "Header too short");
    let mut bad = bytes.clone();
    bad[0] = b'X';
    assert_eq!(format_message(FileHeader::from_bytes(&bad).unwrap_err()), "Invalid magic number");
    let mut newer = bytes.clone();
    newer[8] = 2;
    assert_eq!(format_message(FileHeader::from_bytes(&newer).unwrap_err()), "Unsupported version: 2");
    let mut longer = bytes.clone();
    longer.extend_from_slice(&[9, 9, 9]);
    assert!(FileHeader::from_bytes(&longer).is_ok());
}

#[test]
fn spans_of_reads_and_writes() {
    assert_eq!(write_span(56, 14, 1080).unwrap(), (56, 70));
    assert!(matches!(write_span(1070, 14, 1080), Err(StorageError::StorageFull)));
    assert_eq!(read_span(0, 1080, 1080).unwrap(), (0, 1080));
    assert_eq!(format_message(read_span(1, 1080, 1080).unwrap_err()), "Read beyond file end");
}

#[test]
fn group_paths_and_errors() {
    let group = StorageGroup::new("test", "/tmp/data", 42);
    assert_eq!(group.name, "test");
    assert_eq!(group.metadata.version, 1);
    assert_eq!(group.metadata.created_at, 42);
    assert_eq!(group.data_file_path(), "/tmp/data/test.calvin");
    assert_eq!(group.metadata_file_path(), "/tmp/data/test.meta.json");
    assert!(group.list_series().is_empty());
    let g2 = StorageGroup::new("x", "dir/", 0);
    assert_eq!(g2.data_file_path(), "dir/x.calvin");
    assert_eq!(StorageError::StorageFull.to_string(), "Storage full");
    assert_eq!(StorageError::SeriesNotFound("s".to_string()).to_string(), "Series not found: s");
}

#[test]
fn test_write_and_read_ints() {
    let mut writer = SeriesWriter::new("test_ints", StorageType::Int);
    writer.write_int(1).unwrap();
    writer.write_int(2).unwrap();
    writer.write_int(3).unwrap();

    let (data, metadata) = writer.finalize(0);
    assert_eq!(metadata.count, 3);

    let mut reader = SeriesReader::new(&metadata, &data);
    assert_eq!(reader.read_int().unwrap(), 1);
    assert_eq!(reader.read_int().unwrap(), 2);
    assert_eq!(reader.read_int().unwrap(), 3);
    assert!(!reader.has_next());
}

#[test]
fn test_write_and_read_strings() {
    let mut writer = SeriesWriter::new("test_strings", StorageType::String);
    writer.write_string("hello").unwrap();
    writer.write_string("world").unwrap();

    let (data, metadata) = writer.finalize(0);
    assert_eq!(metadata.count, 2);

    let mut reader = SeriesReader::new(&metadata, &data);
    assert_eq!(reader.read_string().unwrap(), "hello");
    assert_eq!(reader.read_string().unwrap(), "world");
}

#[test]
fn test_write_and_read_doubles() {
    let mut writer = SeriesWriter::new("test_doubles", StorageType::Double);
    writer.write_double_bits(3.14f64.to_bits()).unwrap();
    writer.write_double_bits(2.718f64.to_bits()).unwrap();

    let (data, metadata) = writer.finalize(0);
    let mut reader = SeriesReader::new(&metadata, &data);
    assert!((f64::from_bits(reader.read_double_bits().unwrap()) - 3.14).abs() < 1e-10);
    assert!((f64::from_bits(reader.read_double_bits().unwrap()) - 2.718).abs() < 1e-10);
}

#[test]
fn mixed_series_and_read_errors() {
    let mut writer = SeriesWriter::new("mixed", StorageType::Unit);
    writer.write_long(-5).unwrap();
    writer.write_bool(true).unwrap();
    writer.write_byte(7).unwrap();
    writer.write_string("héllo").unwrap();
    writer.write_bytes(&[1, 2]).unwrap();
    assert_eq!(writer.count(), 4);
    assert_eq!(writer.buffer().len(), 8 + 1 + 1 + 8 + 6 + 2);
    let (data, metadata) = writer.finalize(100);
    assert_eq!(metadata.offset, 100);
    assert_eq!(metadata.length, 26);
    let mut reader = SeriesReader::new(&metadata, &data);
    assert_eq!(reader.read_long().unwrap(), -5);
    assert!(reader.read_bool().unwrap());
    assert!(reader.read_bool().unwrap());
    assert_eq!(reader.read_string().unwrap(), "héllo");
    assert_eq!(reader.read_count(), 4);
    assert_eq!(reader.total_count(), 4);
    assert!(!reader.has_next());
    assert!(matches!(reader.read_int(), Err(StorageError::Io(_))));
    assert!(matches!(reader.read_bool(), Err(StorageError::Io(_))));
}

#[test]
fn string_read_failures() {
    let meta = SeriesWriter::new("s", StorageType::String).finalize(0).1;
    let mut data = 10u64.to_le_bytes().to_vec();
    data.extend_from_slice(b"abc");
    let mut reader = SeriesReader::new(&meta, &data);
    assert_eq!(format_message(reader.read_string().unwrap_err()), "String extends beyond data");
    let mut data = 2u64.to_le_bytes().to_vec();
    data.extend_from_slice(&[0xff, 0xfe]);
    let mut reader = SeriesReader::new(&meta, &data);
    assert!(format_message(reader.read_string().unwrap_err()).contains("utf-8"));
}

#[test]
fn group_names_from_metadata_files() {
    assert_eq!(stored_group_name("trades.meta.json"), Some("trades".to_string()));
    assert_eq!(stored_group_name(".meta.json"), Some(String::new()));
    assert_eq!(stored_group_name("trades.calvin"), None);
    assert_eq!(stored_group_name("meta.json"), None);
    assert_eq!(stored_group_name("trades.meta.json.bak"), None);
}

#[test]
fn series_summary_line() {
    let s = SeriesMetadata {
        name: "prices".to_string(),
        element_type: StorageType::Double,
        count: 3,
        offset: 56,
        length: 24,
    };
    assert_eq!(s.summary(), "prices - 3 elements (24 bytes)");
}

#[test]
fn bool_series_reads_back_in_order() {
    let bools = [true, false, false, true, true];
    let mut w = SeriesWriter::new("flags", StorageType::Bool);
    for b in bools {
        w.write_bool(b).unwrap();
    }
    let (data, meta) = w.finalize(0);
    let mut r = SeriesReader::new(&meta, &data);
    for b in bools {
        assert!(r.has_next());
        assert_eq!(r.read_bool().unwrap(), b);
    }
    assert_eq!(r.read_count(), bools.len() as u64);
    assert!(!r.has_next());
    assert!(matches!(r.read_bool(), Err(StorageError::Io(_))));
    assert_eq!(r.read_count(), bools.len() as u64);
}
