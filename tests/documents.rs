use intelhex::error::{ErrorCause, IHexError, IntelHexError};
use intelhex::file::IntelHexFile;

fn load_ok(text: &str) -> IntelHexFile {
    match IntelHexFile::load(text) {
        Ok(f) => f,
        Err(e) => panic!("unexpected error {:?}", e),
    }
}

fn nested(e: &IntelHexError) -> &IntelHexError {
    match &e.source {
        Some(ErrorCause::Nested(b)) => b,
        _ => panic!("expected a nested cause in {:?}", e),
    }
}

const SAMPLE: &str = ":020000040800F2\n:08A455002E2F5F6E6963655F45\n:00000001FF";

#[test]
fn empty_input_gives_empty_document() {
    let f = load_ok("");
    assert_eq!(f.records.len(), 0);
    assert_eq!(f.size, 0);
    assert_eq!(f.to_hex_str(), "");
    assert_eq!(f.binary_size(), 0);
    assert_eq!(f.to_bytes().len(), 0);
    assert!(f.path.is_none());
}

#[test]
fn document_round_trip() {
    let f = load_ok(SAMPLE);
    assert_eq!(f.records.len(), 3);
    assert_eq!(f.size, SAMPLE.len());
    let text = f.to_hex_str();
    assert_eq!(text, SAMPLE);
    let g = load_ok(&text);
    assert_eq!(g.to_hex_str(), text);
}

#[test]
fn lowercase_and_crlf_input_is_normalised() {
    let f = load_ok(":020000040800f2\r\n:08a455002e2f5f6e6963655f45\r\n:00000001ff\r\n");
    assert_eq!(f.to_hex_str(), SAMPLE);
}

#[test]
fn blank_and_unmarked_lines_are_skipped() {
    let f = load_ok("\n:020000040800F2\n\nnote\n   \n:08A455002E2F5F6E6963655F45\n:00000001FF\n");
    assert_eq!(f.records.len(), 3);
    assert_eq!(f.to_hex_str(), SAMPLE);
    let g = load_ok("only text\n\n");
    assert_eq!(g.records.len(), 0);
}

#[test]
fn document_binary_form() {
    let f = load_ok(SAMPLE);
    assert_eq!(f.binary_size(), 7 + 13 + 5);
    let b = f.to_bytes();
    assert_eq!(b.len(), 25);
    assert_eq!(&b[0..7], &[0x02, 0x00, 0x00, 0x04, 0x08, 0x00, 0xF2][..]);
    assert_eq!(&b[7..11], &[0x08, 0xA4, 0x55, 0x00][..]);
    assert_eq!(&b[20..25], &[0x00, 0x00, 0x00, 0x01, 0xFF][..]);
}

#[test]
fn first_bad_line_fails_the_load() {
    let text = ":00000001FF\n\n:00000001FE\n:00000003FD";
    match IntelHexFile::load(text) {
        Ok(_) => panic!("expected an error"),
        Err(e) => {
            assert_eq!(e.err_type, IHexError::FileErrorLoad);
            let line = nested(&e);
            assert_eq!(line.err_type, IHexError::FileBadRecord);
            assert_eq!(line.msg, "Error while parsing record on line 3");
            assert_eq!(nested(line).err_type, IHexError::RecordBadChecksum);
        },
    }
}

#[test]
fn bad_type_in_document_is_reported() {
    match IntelHexFile::load(":00000003FD") {
        Ok(_) => panic!("expected an error"),
        Err(e) => assert_eq!(nested(nested(&e)).err_type, IHexError::RecordInvalidType),
    }
}

#[test]
fn source_name_is_kept() {
    let f = load_ok(SAMPLE);
    assert_eq!(f.get_path(), "(none)");
    match IntelHexFile::from_source("firmware.hex", SAMPLE) {
        Ok(g) => {
            assert_eq!(g.get_path(), "firmware.hex");
            assert_eq!(g.records.len(), 3);
        },
        Err(e) => panic!("unexpected error {:?}", e),
    }
    assert!(IntelHexFile::from_source("x.hex", ":00000001FE").is_err());
}

#[test]
fn line_numbers_count_from_one() {
    match IntelHexFile::load(":0") {
        Ok(_) => panic!("expected an error"),
        Err(e) => {
            let line = nested(&e);
            assert_eq!(line.msg, "Error while parsing record on line 1");
            assert_eq!(nested(line).err_type, IHexError::RecordInvalidLength);
            assert_eq!(nested(line).msg, "Record length: 1, expected: 10");
        },
    }
    let mut text = String::new();
    for _ in 0..11 {
        text.push_str(":00000001FF\n");
    }
    text.push_str(":00000001FE");
    match IntelHexFile::load(&text) {
        Ok(_) => panic!("expected an error"),
        Err(e) => assert_eq!(nested(&e).msg, "Error while parsing record on line 12"),
    }
}

#[test]
fn load_error_keeps_the_whole_chain() {
    match IntelHexFile::load(":00000001FF\n:00GG0001FF") {
        Ok(_) => panic!("expected an error"),
        Err(e) => {
            assert_eq!(e.err_type, IHexError::FileErrorLoad);
            let line = nested(&e);
            assert_eq!(line.msg, "Error while parsing record on line 2");
            let record = nested(line);
            assert_eq!(record.err_type, IHexError::RecordBadEndcoding);
            assert_eq!(record.msg, "Error while decoding address");
            assert!(matches!(record.source, Some(ErrorCause::Hex(_))));
        },
    }
}

#[test]
fn unmarked_line_in_the_middle_changes_nothing() {
    let plain = load_ok(SAMPLE);
    let text = ":020000040800F2\nremark\n:08A455002E2F5F6E6963655F45\n:00000001FF";
    let with_note = load_ok(text);
    assert_eq!(with_note.records.len(), plain.records.len());
    assert_eq!(with_note.to_hex_str(), plain.to_hex_str());
    assert_eq!(with_note.size, plain.size + "remark\n".len());
}
