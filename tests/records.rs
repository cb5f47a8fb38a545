use intelhex::error::{ErrorCause, IHexError};
use intelhex::record::{Record, RecordType};
use intelhex::util::twos_comp;

fn parse_ok(line: &str) -> Record {
    match Record::parse(line) {
        Ok(Some(r)) => r,
        Ok(None) => panic!("no record in {}", line),
        Err(e) => panic!("unexpected error {:?}", e),
    }
}

fn parse_err(line: &str) -> IHexError {
    match Record::parse(line) {
        Err(e) => e.err_type,
        Ok(_) => panic!("expected an error for {}", line),
    }
}

#[test]
fn example_record_parses() {
    let r = parse_ok(":08A455002E2F5F6E6963655F45");
    assert_eq!(r.len, 8);
    assert_eq!(r.addr, 0xA455);
    assert_eq!(r.rtype, RecordType::Data);
    assert_eq!(&r.data[..], &[0x2E, 0x2F, 0x5F, 0x6E, 0x69, 0x63, 0x65, 0x5F][..]);
    assert_eq!(&r.data[..], b"./_nice_");
    assert_eq!(r.checksum, 0x45);
    assert_eq!(r.calculate_checksum(), 0x45);
}

#[test]
fn record_round_trips_to_uppercase_text() {
    let r = parse_ok(":08a455002e2f5f6e6963655f45");
    assert_eq!(r.to_hex_str(), ":08A455002E2F5F6E6963655F45");
    let again = parse_ok(&r.to_hex_str());
    assert_eq!(again.to_hex_str(), r.to_hex_str());
}

#[test]
fn record_to_bytes_layout() {
    let r = parse_ok(":020000040800F2");
    assert_eq!(&r.to_bytes()[..], &[0x02, 0x00, 0x00, 0x04, 0x08, 0x00, 0xF2][..]);
    assert_eq!(r.rtype, RecordType::ExtendedLinearAddress);
    assert_eq!(r.binary_size(), 7);
}

#[test]
fn zero_payload_binary_size_is_five() {
    let r = parse_ok(":00000001FF");
    assert_eq!(r.rtype, RecordType::EndOfFile);
    assert_eq!(r.binary_size(), 5);
    assert_eq!(r.to_bytes().len(), 5);
}

#[test]
fn marker_may_follow_other_text() {
    let r = parse_ok("  :00000001FF");
    assert_eq!(r.to_hex_str(), ":00000001FF");
}

#[test]
fn trailing_characters_are_ignored() {
    let r = parse_ok(":00000001FF\r");
    assert_eq!(r.to_hex_str(), ":00000001FF");
}

#[test]
fn lines_without_marker_give_no_record() {
    assert!(matches!(Record::parse(""), Ok(None)));
    assert!(matches!(Record::parse("   "), Ok(None)));
    assert!(matches!(Record::parse("00000001FF"), Ok(None)));
}

#[test]
fn short_line_is_invalid_length() {
    assert_eq!(parse_err(":08A455002E2F"), IHexError::RecordInvalidLength);
    assert_eq!(parse_err(":08A455002E2F5F6E6963655F4"), IHexError::RecordInvalidLength);
    assert_eq!(parse_err(":0"), IHexError::RecordInvalidLength);
    assert_eq!(parse_err(":"), IHexError::RecordInvalidLength);
}

#[test]
fn unknown_type_is_invalid_type() {
    assert_eq!(parse_err(":00000003FD"), IHexError::RecordInvalidType);
    assert_eq!(parse_err(":000000ZZFD"), IHexError::RecordInvalidType);
}

#[test]
fn corrupted_checksum_is_bad_checksum() {
    assert_eq!(parse_err(":08A455002E2F5F6E6963655F46"), IHexError::RecordBadChecksum);
    assert_eq!(parse_err(":00000001FE"), IHexError::RecordBadChecksum);
}

#[test]
fn non_hex_fields_are_bad_encoding() {
    assert_eq!(parse_err(":0G000001FF"), IHexError::RecordBadEndcoding);
    assert_eq!(parse_err(":00X00001FF"), IHexError::RecordBadEndcoding);
    assert_eq!(parse_err(":01000000QQFF"), IHexError::RecordBadEndcoding);
    assert_eq!(parse_err(":00000001FG"), IHexError::RecordBadEndcoding);
    match Record::parse(":0G000001FF") {
        Err(e) => assert!(matches!(e.source, Some(ErrorCause::Hex(_)))),
        Ok(_) => panic!("expected an error"),
    }
}

#[test]
fn record_type_codes() {
    assert_eq!(RecordType::Data.to_u8(), 0);
    assert_eq!(RecordType::EndOfFile.to_u8(), 1);
    assert_eq!(RecordType::ExtendedSegmentAddress.to_u8(), 2);
    assert_eq!(RecordType::ExtendedLinearAddress.to_u8(), 4);
    assert_eq!(RecordType::StartLinearAddress.to_u8(), 5);
    assert!(matches!(RecordType::parse(b"05"), Ok(RecordType::StartLinearAddress)));
    assert!(matches!(RecordType::parse(b"02"), Ok(RecordType::ExtendedSegmentAddress)));
    match RecordType::parse(b"03") {
        Err(e) => assert_eq!(e.err_type, IHexError::RecordInvalidType),
        Ok(_) => panic!("03 is not a record type"),
    }
}

#[test]
fn twos_comp_values() {
    assert_eq!(twos_comp(0), 0);
    assert_eq!(twos_comp(1), 0xFF);
    assert_eq!(twos_comp(0x1BB), 0x45);
    assert_eq!(twos_comp(256), 0);
    assert_eq!(twos_comp(u64::MAX), 1);
}

#[test]
fn error_constructors() {
    let e = IHexError::FileErrorOpen.new("cannot open");
    assert_eq!(e.err_type, IHexError::FileErrorOpen);
    assert_eq!(e.msg, "cannot open");
    assert!(e.source.is_none());
    let inner = IHexError::RecordBadChecksum.new("bad");
    let outer = IHexError::FileBadRecord.new("line 1").set_source(ErrorCause::Nested(Box::new(inner)));
    assert_eq!(outer.err_type, IHexError::FileBadRecord);
    assert_eq!(outer.msg, "line 1");
    match outer.source {
        Some(ErrorCause::Nested(b)) => assert_eq!(b.err_type, IHexError::RecordBadChecksum),
        _ => panic!("expected a nested cause"),
    }
}

#[test]
fn fault_messages_name_the_values() {
    match Record::parse(":08A455002E2F") {
        Err(e) => assert_eq!(e.msg, "Record length: 12, expected: 26"),
        Ok(_) => panic!("expected an error"),
    }
    match Record::parse(":08A455002E2F5F6E6963655F46") {
        Err(e) => assert_eq!(e.msg, "Bad checksum: 0x46, calculated: 0x45 (69)"),
        Ok(_) => panic!("expected an error"),
    }
    match Record::parse(":00000001FE") {
        Err(e) => assert_eq!(e.msg, "Bad checksum: 0xFE, calculated: 0xFF (255)"),
        Ok(_) => panic!("expected an error"),
    }
    match Record::parse(":00000003FD") {
        Err(e) => {
            assert_eq!(e.msg, "Invalid record type: 03");
            assert!(e.source.is_none());
        },
        Ok(_) => panic!("expected an error"),
    }
}

#[test]
fn encoding_faults_keep_the_hex_cause() {
    for line in [":0G000001FF", ":00GG0001FF", ":01000000QQFF", ":00000001FG"] {
        match Record::parse(line) {
            Err(e) => {
                assert_eq!(e.err_type, IHexError::RecordBadEndcoding);
                assert!(matches!(e.source, Some(ErrorCause::Hex(_))));
            },
            Ok(_) => panic!("expected an error for {}", line),
        }
    }
    match Record::parse(":08A455002E2F") {
        Err(e) => assert!(e.source.is_none()),
        Ok(_) => panic!("expected an error"),
    }
    match Record::parse(":00000001FE") {
        Err(e) => assert!(e.source.is_none()),
        Ok(_) => panic!("expected an error"),
    }
    match RecordType::parse(b"0Z") {
        Err(e) => assert_eq!(e.msg, "Invalid record type: 0Z"),
        Ok(_) => panic!("0Z is not a record type"),
    }
}
