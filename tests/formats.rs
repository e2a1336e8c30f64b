use lc3_isa::util::MemoryDump;
use obj_conv::error::LoadError;
use obj_conv::formats::{default_formats, load_object, try_format, ObjFile, ObjFileFormat};
use obj_conv::image::{build_image, OsStrategy};
use obj_conv::lc3tools::Lc3Tools;
use obj_conv::lumetta::Lumetta;
use obj_conv::Loadable;

const MAGIC: [u8; 5] = [0x1c, 0x30, 0x15, 0xc0, 0x01];

fn record(word: u16, orig: bool, line: &[u8]) -> Vec<u8> {
    let mut out = word.to_le_bytes().to_vec();
    out.push(if orig { 1 } else { 0 });
    out.extend_from_slice(&(line.len() as u32).to_le_bytes());
    out.extend_from_slice(line);
    out
}

fn lc3tools_file(version: [u8; 2], records: &[Vec<u8>]) -> Vec<u8> {
    let mut out = MAGIC.to_vec();
    out.extend_from_slice(&version);
    for r in records {
        out.extend_from_slice(r);
    }
    out
}

fn loadables_of(bytes: &[u8]) -> Vec<Loadable> {
    let (_, obj) = load_object(bytes, &default_formats()).expect("a recognised object file");
    obj.into_loadables()
}

#[test]
fn lc3tools_end_to_end_onto_blank_image() {
    let bytes = lc3tools_file([0x01, 0x01], &[record(0x3000, true, b""), record(0x1234, false, b"")]);
    let (format, obj) = load_object(&bytes, &default_formats()).unwrap();
    assert_eq!(format, ObjFileFormat::Lc3Tools);
    let stream = obj.into_loadables();
    assert_eq!(stream, vec![(0x3000, 0x1234)]);

    let image = build_image(None, &vec![stream]);
    assert_eq!(image[0x3000], 0x1234);
    for (addr, word) in image.iter().enumerate() {
        if addr != 0x3000 {
            assert_eq!(*word, 0, "address {:#06X}", addr);
        }
    }
}

#[test]
fn lumetta_end_to_end() {
    let bytes = [0x00, 0x10, 0xAB, 0xCD, 0xEF, 0x01];
    let (format, obj) = load_object(&bytes, &default_formats()).unwrap();
    assert_eq!(format, ObjFileFormat::Lumetta);
    assert_eq!(obj.into_loadables(), vec![(0x0010, 0xABCD), (0x0011, 0xEF01)]);

    let parsed = Lumetta::parse(&bytes).unwrap();
    assert_eq!(parsed.pairs(), &vec![(0x0010, 0xABCD), (0x0011, 0xEF01)]);
}

#[test]
fn lc3tools_data_after_origin_is_consecutive() {
    let bytes = lc3tools_file(
        [0x01, 0x01],
        &[
            record(0x4000, true, b".ORIG x4000"),
            record(0x1111, false, b"ADD R0, R0, R1"),
            record(0x2222, false, b""),
            record(0x3333, false, b"HALT"),
        ],
    );
    assert_eq!(loadables_of(&bytes), vec![(0x4000, 0x1111), (0x4001, 0x2222), (0x4002, 0x3333)]);
}

#[test]
fn lc3tools_second_origin_moves_cursor() {
    let bytes = lc3tools_file(
        [0x01, 0x01],
        &[
            record(0x3000, true, b""),
            record(0xAAAA, false, b""),
            record(0x5000, true, b""),
            record(0xBBBB, false, b""),
        ],
    );
    assert_eq!(loadables_of(&bytes), vec![(0x3000, 0xAAAA), (0x5000, 0xBBBB)]);
}

#[test]
fn lc3tools_data_before_any_origin_starts_at_zero() {
    let bytes = lc3tools_file([0x01, 0x01], &[record(0x7777, false, b"")]);
    assert_eq!(loadables_of(&bytes), vec![(0x0000, 0x7777)]);
}

#[test]
fn lumetta_pair_count_and_addresses() {
    let bytes = [0x12, 0x34, 0x00, 0x01, 0x00, 0x02, 0x00, 0x03];
    assert_eq!(loadables_of(&bytes), vec![(0x1234, 1), (0x1235, 2), (0x1236, 3)]);
}

#[test]
fn lc3tools_address_wraps() {
    let bytes = lc3tools_file(
        [0x01, 0x01],
        &[record(0xFFFF, true, b""), record(0xAAAA, false, b""), record(0xBBBB, false, b"")],
    );
    assert_eq!(loadables_of(&bytes), vec![(0xFFFF, 0xAAAA), (0x0000, 0xBBBB)]);
}

#[test]
fn lumetta_address_wraps() {
    let bytes = [0xFF, 0xFF, 0x00, 0x0A, 0x00, 0x0B];
    assert_eq!(loadables_of(&bytes), vec![(0xFFFF, 0x000A), (0x0000, 0x000B)]);
}

#[test]
fn later_layer_wins() {
    let base = MemoryDump::from([0x0707; 65536]);
    let image = build_image(Some(base), &vec![vec![(5, 0xAAAA)], vec![(5, 0xBBBB)]]);
    assert_eq!(image[5], 0xBBBB);
}

#[test]
fn later_write_in_one_stream_wins() {
    let image = build_image(None, &vec![vec![(9, 1), (9, 2)]]);
    assert_eq!(image[9], 2);
}

#[test]
fn untouched_addresses_keep_base() {
    let mut words = [0u16; 65536];
    for (i, w) in words.iter_mut().enumerate() {
        *w = (i as u16) ^ 0x5A5A;
    }
    let image = build_image(
        Some(MemoryDump::from(words)),
        &vec![vec![(0x3000, 1), (0x3001, 2)], vec![(0xFFFF, 3)]],
    );
    for addr in 0..65536usize {
        let expected = match addr {
            0x3000 => 1,
            0x3001 => 2,
            0xFFFF => 3,
            _ => (addr as u16) ^ 0x5A5A,
        };
        assert_eq!(image[addr], expected, "address {:#06X}", addr);
    }
}

#[test]
fn no_layers_gives_blank_image() {
    let image = build_image(None, &vec![]);
    assert!(image.iter().all(|w| *w == 0));
}

#[test]
fn magic_selects_lc3tools_for_odd_length() {
    let bytes = lc3tools_file([0x01, 0x01], &[record(0x3000, true, b"x")]);
    assert_eq!(bytes.len() % 2, 1);
    let (format, _) = load_object(&bytes, &default_formats()).unwrap();
    assert_eq!(format, ObjFileFormat::Lc3Tools);
}

#[test]
fn magic_selects_lc3tools_for_even_length() {
    let bytes = lc3tools_file([0x01, 0x01], &[record(0x3000, true, b"")]);
    assert_eq!(bytes.len() % 2, 0);
    let (format, obj) = load_object(&bytes, &default_formats()).unwrap();
    assert_eq!(format, ObjFileFormat::Lc3Tools);
    assert_eq!(obj.into_loadables(), vec![]);
}

#[test]
fn parse_failure_after_match_does_not_fall_back() {
    let mut bytes = lc3tools_file([0x01, 0x01], &[record(0x3000, true, b"")]);
    bytes[9] = 2;
    assert_eq!(bytes.len() % 2, 0);
    assert_eq!(load_object(&bytes, &default_formats()), Err(LoadError::InvalidOriginFlag(2)));
}

#[test]
fn unrecognized_format_lists_formats_tried() {
    let bytes = [1, 2, 3, 4, 5];
    assert_eq!(
        load_object(&bytes, &default_formats()),
        Err(LoadError::UnrecognizedFormat(vec![ObjFileFormat::Lc3Tools, ObjFileFormat::Lumetta]))
    );
}

#[test]
fn too_short_for_either_format() {
    let bytes = [0x30, 0x00];
    assert_eq!(
        load_object(&bytes, &default_formats()),
        Err(LoadError::UnrecognizedFormat(vec![ObjFileFormat::Lc3Tools, ObjFileFormat::Lumetta]))
    );
}

#[test]
fn only_the_given_candidates_are_tried() {
    let bytes = [0x30, 0x00, 0x12, 0x34];
    assert_eq!(
        load_object(&bytes, &vec![ObjFileFormat::Lc3Tools]),
        Err(LoadError::UnrecognizedFormat(vec![ObjFileFormat::Lc3Tools]))
    );
}

#[test]
fn try_format_rejects_non_matching() {
    let bytes = [0x30, 0x00, 0x12];
    assert_eq!(
        try_format(ObjFileFormat::Lumetta, &bytes),
        Err(LoadError::UnrecognizedFormat(vec![ObjFileFormat::Lumetta]))
    );
    let ok = try_format(ObjFileFormat::Lumetta, &[0x30, 0x00, 0x12, 0x34]).unwrap();
    assert_eq!(ok.into_loadables(), vec![(0x3000, 0x1234)]);
}

#[test]
fn lc3tools_parse_rejects_bad_header() {
    assert_eq!(Lc3Tools::parse(&[0x1c, 0x30, 0x15, 0xc0, 0x02, 1, 1]), Err(LoadError::MalformedHeader));
    assert_eq!(Lc3Tools::parse(&[0x1c, 0x30]), Err(LoadError::MalformedHeader));
}

#[test]
fn lc3tools_missing_version_is_truncated() {
    assert_eq!(Lc3Tools::parse(&[0x1c, 0x30, 0x15, 0xc0, 0x01, 1]), Err(LoadError::Truncated));
}

#[test]
fn lc3tools_partial_record_is_truncated() {
    let mut bytes = lc3tools_file([0x01, 0x01], &[record(0x3000, true, b"abcdef")]);
    bytes.pop();
    assert_eq!(Lc3Tools::parse(&bytes), Err(LoadError::Truncated));
    let short = lc3tools_file([0x01, 0x01], &[vec![0x00, 0x30]]);
    assert_eq!(Lc3Tools::parse(&short), Err(LoadError::Truncated));
    let no_length = lc3tools_file([0x01, 0x01], &[vec![0x00, 0x30, 0x01, 0x00]]);
    assert_eq!(Lc3Tools::parse(&no_length), Err(LoadError::Truncated));
}

#[test]
fn lc3tools_invalid_origin_flag() {
    let bytes = lc3tools_file([0x01, 0x01], &[vec![0x00, 0x30, 0x07]]);
    assert_eq!(Lc3Tools::parse(&bytes), Err(LoadError::InvalidOriginFlag(7)));
}

#[test]
fn lc3tools_empty_record_stream() {
    let parsed = Lc3Tools::parse(&lc3tools_file([0x01, 0x01], &[])).unwrap();
    assert!(parsed.entries().is_empty());
    assert!(parsed.to_loadables().is_empty());
}

#[test]
fn lc3tools_version_and_entries() {
    let bytes = lc3tools_file([0x02, 0x01], &[record(0x3000, true, b".ORIG"), record(0xF025, false, b"HALT")]);
    let parsed = Lc3Tools::parse(&bytes).unwrap();
    assert_eq!(parsed.get_version(), 0x0102);
    assert!(!parsed.is_tested_version());
    let entries = parsed.entries();
    assert_eq!(entries.len(), 2);
    assert_eq!(entries[0].word(), 0x3000);
    assert!(entries[0].is_origin());
    assert_eq!(entries[0].line(), &b".ORIG".to_vec());
    assert_eq!(entries[1].word(), 0xF025);
    assert!(!entries[1].is_origin());
    assert_eq!(entries[1].line(), &b"HALT".to_vec());

    let tested = Lc3Tools::parse(&lc3tools_file([0x01, 0x01], &[])).unwrap();
    assert_eq!(tested.get_version(), 0x0101);
    assert!(tested.is_tested_version());
}

#[test]
fn lc3tools_long_annotation_length() {
    let line = vec![b'z'; 300];
    let bytes = lc3tools_file([0x01, 0x01], &[record(0x3000, true, &line), record(0x0042, false, b"")]);
    let parsed = Lc3Tools::parse(&bytes).unwrap();
    assert_eq!(parsed.entries()[0].line(), &line);
    assert_eq!(parsed.to_loadables(), vec![(0x3000, 0x0042)]);
}

#[test]
fn lc3tools_file_matches_format() {
    assert!(Lc3Tools::file_matches_format(&MAGIC));
    assert!(!Lc3Tools::file_matches_format(&MAGIC[..4]));
    assert!(!Lc3Tools::file_matches_format(&[0x1c, 0x30, 0x15, 0xc0, 0x00, 0x01]));
}

#[test]
fn lumetta_file_matches_format() {
    assert!(Lumetta::file_matches_format(&[0, 0, 0, 0]));
    assert!(!Lumetta::file_matches_format(&[0, 0]));
    assert!(!Lumetta::file_matches_format(&[0, 0, 0, 0, 0]));
}

#[test]
fn lumetta_size_constraint() {
    assert_eq!(Lumetta::parse(&[0, 0, 0]), Err(LoadError::SizeConstraintViolation));
    assert_eq!(Lumetta::parse(&[0, 0, 0, 0, 0]), Err(LoadError::SizeConstraintViolation));
    assert_eq!(Lumetta::parse(&[]), Err(LoadError::SizeConstraintViolation));
}

#[test]
fn lumetta_big_endian_words() {
    let parsed = Lumetta::parse(&[0x30, 0x00, 0x12, 0x34]).unwrap();
    assert_eq!(parsed.into_loadables(), vec![(0x3000, 0x1234)]);
}

#[test]
fn parsed_object_kinds() {
    let a = ObjFileFormat::Lc3Tools.parse(&lc3tools_file([1, 1], &[])).unwrap();
    assert!(matches!(a, ObjFile::Lc3Tools(_)));
    let b = ObjFileFormat::Lumetta.parse(&[0, 0, 0, 0]).unwrap();
    assert!(matches!(b, ObjFile::Lumetta(_)));
    assert!(ObjFileFormat::Lumetta.matches(&[0, 0, 0, 0]));
    assert!(!ObjFileFormat::Lc3Tools.matches(&[0, 0, 0, 0]));
}

#[test]
fn format_names() {
    assert_eq!(ObjFileFormat::Lc3Tools.name(), "an LC3Tools Object File");
    assert_eq!(
        ObjFileFormat::Lumetta.name(),
        "an Object File for Steven S. Lumetta's simulator and assembler"
    );
}

#[test]
fn default_formats_order() {
    assert_eq!(default_formats(), vec![ObjFileFormat::Lc3Tools, ObjFileFormat::Lumetta]);
}

#[test]
fn os_strategy_choice() {
    assert_eq!(OsStrategy::new(false, None), OsStrategy::Blank);
    assert_eq!(OsStrategy::new(false, Some("os.mem")), OsStrategy::Blank);
    assert_eq!(OsStrategy::new(true, None), OsStrategy::Default);
    assert_eq!(OsStrategy::new(true, Some("os.mem")), OsStrategy::Custom("os.mem"));
}
