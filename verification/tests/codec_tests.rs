//! Tests of the wire codec: opcodes, numbers, strings, option fields and
//! whole-packet building and parsing.

use tftpserver::codec::{
    check_datablock, parse_entries, parse_opcode, parse_opcode_raw, raw_to_num, Opcode,
    PacketBuilder, PacketParser,
};
use tftpserver::options::{
    blksize_name, exended_options_str, filter_extended_options, parse_u16_dec, u16_to_dec,
    windowsize_name, ExtendedOptions,
};
use tftpserver::ring::{ring_add, ring_diff};
use tftpserver::types::{bytes_eq, to_lower, ErrorNumber, ErrorResponse, TransferMode};

#[test]
fn opcode_numbers_roundtrip() {
    let all = [
        Opcode::Read,
        Opcode::Write,
        Opcode::Data,
        Opcode::Ack,
        Opcode::Error,
        Opcode::Oack,
    ];
    for (i, op) in all.iter().enumerate() {
        let num = (i + 1) as u16;
        assert_eq!(op.num(), num);
        assert_eq!(parse_opcode(num), Some(*op));
        assert_eq!(op.raw(), [0, num as u8]);
    }
    assert_eq!(parse_opcode(0), None);
    assert_eq!(parse_opcode(7), None);
}

#[test]
fn raw_to_num_reads_big_endian() {
    assert_eq!(raw_to_num(&[0x12, 0x34]), Some(0x1234));
    assert_eq!(raw_to_num(&[0x12, 0x34, 0x56]), Some(0x1234));
    assert_eq!(raw_to_num(&[0x12]), None);
    assert_eq!(raw_to_num(&[]), None);
}

#[test]
fn parse_opcode_raw_reads_prefix() {
    assert_eq!(parse_opcode_raw(&[0, 3, 9, 9]), Some(Opcode::Data));
    assert_eq!(parse_opcode_raw(&[0, 9, 0, 0]), None);
    assert_eq!(parse_opcode_raw(&[0]), None);
}

#[test]
fn builder_builds_exact_bytes() {
    let bytes = PacketBuilder::new()
        .opcode(Opcode::Data)
        .number16(0x0102)
        .raw_data(&[0xAA, 0xBB])
        .into_vec();
    assert_eq!(bytes, vec![0, 3, 1, 2, 0xAA, 0xBB]);

    let bytes = PacketBuilder::new()
        .opcode(Opcode::Read)
        .str(b"file.txt")
        .separator()
        .transfer_mode(TransferMode::Octet)
        .separator()
        .into_vec();
    assert_eq!(bytes, b"\x00\x01file.txt\x00octet\x00");
}

#[test]
fn parser_cursor_walks_packet() {
    let data = b"\x00\x01name\x00octet\x00";
    let mut pp = PacketParser::new(data);
    assert!(pp.has_bytes());
    assert!(pp.opcode_expect(Opcode::Read));
    assert_eq!(pp.string_with_separator(), Some(b"name".to_vec()));
    assert_eq!(pp.string_with_separator(), Some(b"octet".to_vec()));
    assert!(!pp.has_bytes());
    assert_eq!(pp.string_with_separator(), None);
}

#[test]
fn parser_number16_consumes_on_success() {
    let data = [0x01, 0x00, 0xFF];
    let mut pp = PacketParser::new(&data);
    assert_eq!(pp.number16(), Some(256));
    assert_eq!(pp.remaining_bytes(), &[0xFF]);
    assert_eq!(pp.number16(), None);
    assert_eq!(pp.remaining_bytes(), &[0xFF]);
    let mut pp2 = PacketParser::new(&data);
    assert!(pp2.number16_expected(256));
}

#[test]
fn parser_raw_expect_checks_prefix() {
    let data = b"abcdef";
    let mut pp = PacketParser::new(data);
    assert!(pp.raw_expect(b"abc", false));
    assert_eq!(pp.remaining_bytes(), b"abcdef");
    assert!(pp.raw_expect(b"abc", true));
    assert_eq!(pp.remaining_bytes(), b"def");
    assert!(!pp.raw_expect(b"xyz", true));
    assert_eq!(pp.remaining_bytes(), b"def");
}

#[test]
fn parser_separator_consumes_one_nul() {
    let data = [0u8, 7u8];
    let mut pp = PacketParser::new(&data);
    assert!(pp.separator());
    assert!(!pp.separator());
    assert_eq!(pp.remaining_bytes(), &[7]);
}

#[test]
fn extended_options_pairs_fields() {
    let data = b"blksize\x001024\x00windowsize\x004\x00";
    let mut pp = PacketParser::new(data);
    let pairs = pp.extended_options().unwrap();
    assert_eq!(pairs.len(), 2);
    assert_eq!(pairs[0].0, b"blksize".to_vec());
    assert_eq!(pairs[0].1, b"1024".to_vec());
    assert_eq!(pairs[1].0, b"windowsize".to_vec());
    assert_eq!(pairs[1].1, b"4".to_vec());
}

#[test]
fn extended_options_rejects_odd_or_unterminated() {
    let mut pp = PacketParser::new(b"blksize\x001024\x00stray\x00");
    assert!(pp.extended_options().is_err());
    let mut pp = PacketParser::new(b"blksize\x001024");
    assert!(pp.extended_options().is_err());
    let mut pp = PacketParser::new(b"");
    assert_eq!(pp.extended_options().unwrap(), vec![]);
}

#[test]
fn parse_entries_splits_after_opcode() {
    let data = b"\x00\x01file\x00octet\x00";
    let entries = parse_entries(data).unwrap();
    assert_eq!(entries, vec![b"file".to_vec(), b"octet".to_vec()]);
    assert_eq!(parse_entries(b"\x00\x01"), None);
    assert_eq!(parse_entries(b"\x00\x01file"), None);
}

#[test]
fn check_datablock_bounds_block_number() {
    let frame = [0, 3, 0, 5, 9, 9];
    assert!(check_datablock(&frame, 5, 1));
    assert!(check_datablock(&frame, 4, 2));
    assert!(!check_datablock(&frame, 6, 1));
    assert!(!check_datablock(&frame, 4, 1));
    let ack = [0, 4, 0, 5];
    assert!(!check_datablock(&ack, 5, 1));
}

#[test]
fn parse_error_decodes_error_packets() {
    let mut pp = PacketParser::new(b"\x00\x05\x00\x01oops\x00");
    let er = pp.parse_error().unwrap();
    assert!(matches!(er.number, ErrorNumber::FileNotFound));
    assert_eq!(er.msg, Some(b"oops".to_vec()));

    // An unknown code maps to NotDefined with the message preserved.
    let mut pp = PacketParser::new(b"\x00\x05\x00\x63what\x00");
    let er = pp.parse_error().unwrap();
    assert!(matches!(er.number, ErrorNumber::NotDefined));
    assert_eq!(er.msg, Some(b"what".to_vec()));

    // A non-ERROR packet is not an error response.
    let mut pp = PacketParser::new(b"\x00\x04\x00\x01");
    assert!(pp.parse_error().is_none());
}

#[test]
fn error_response_constructors() {
    let er = ErrorResponse::new_custom(b"file is locked".to_vec());
    assert!(matches!(er.number, ErrorNumber::NotDefined));
    assert_eq!(er.msg, Some(b"file is locked".to_vec()));
    let er = ErrorResponse::from(ErrorNumber::DiskFull);
    assert!(matches!(er.number, ErrorNumber::DiskFull));
    assert!(er.msg.is_none());
    assert_eq!(ErrorNumber::FileAlreadyExists.num(), 6);
    assert_eq!(ErrorNumber::from_u16(7), Some(ErrorNumber::NoSuchUser));
    assert_eq!(ErrorNumber::from_u16(8), None);
}

#[test]
fn transfer_mode_tokens() {
    assert_eq!(TransferMode::Octet.to_bytes(), b"octet".to_vec());
    assert_eq!(TransferMode::Netascii.to_bytes(), b"netascii".to_vec());
    assert_eq!(TransferMode::Mail.to_bytes(), b"mail".to_vec());
    assert_eq!(TransferMode::from_bytes(b"octet"), Some(TransferMode::Octet));
    // The token comparison ignores ASCII case.
    assert_eq!(TransferMode::from_bytes(b"NetASCII"), Some(TransferMode::Netascii));
    assert_eq!(TransferMode::from_bytes(b"MAIL"), Some(TransferMode::Mail));
    assert_eq!(TransferMode::from_bytes(b"carrier-pigeon"), None);
    assert_eq!(to_lower(b"AbC-9"), b"abc-9".to_vec());
    assert!(bytes_eq(b"same", b"same"));
    assert!(!bytes_eq(b"same", b"sane"));
}

#[test]
fn ring_arithmetic_wraps() {
    assert_eq!(ring_diff(0, 0), 0);
    assert_eq!(ring_diff(10, 15), 5);
    assert_eq!(ring_diff(65535, 0), 1);
    assert_eq!(ring_diff(65535, 4), 5);
    assert_eq!(ring_diff(5, 3), 65534);
    assert_eq!(ring_add(65535, 1), 0);
    assert_eq!(ring_add(65534, 3), 1);
}

#[test]
fn decimal_values_roundtrip() {
    assert_eq!(parse_u16_dec(b"0"), Some(0));
    assert_eq!(parse_u16_dec(b"512"), Some(512));
    assert_eq!(parse_u16_dec(b"065535"), Some(65535));
    assert_eq!(parse_u16_dec(b"+17"), Some(17));
    assert_eq!(parse_u16_dec(b"65536"), None);
    assert_eq!(parse_u16_dec(b""), None);
    assert_eq!(parse_u16_dec(b"+"), None);
    assert_eq!(parse_u16_dec(b"12a"), None);
    assert_eq!(u16_to_dec(0), b"0".to_vec());
    assert_eq!(u16_to_dec(1024), b"1024".to_vec());
    assert_eq!(u16_to_dec(65535), b"65535".to_vec());
    for n in [0u16, 1, 9, 10, 99, 512, 1024, 65535] {
        assert_eq!(parse_u16_dec(&u16_to_dec(n)), Some(n));
    }
}

#[test]
fn filter_extended_options_types_known_names() {
    let opts = vec![
        (b"blksize".to_vec(), b"1024".to_vec()),
        (b"tsize".to_vec(), b"999".to_vec()),
        (b"windowsize".to_vec(), b"8".to_vec()),
    ];
    let (known, unknown) = filter_extended_options(&opts).unwrap();
    assert_eq!(known.blksize, 1024);
    assert_eq!(known.windowsize, 8);
    assert_eq!(unknown, vec![(b"tsize".to_vec(), b"999".to_vec())]);

    let defaults = filter_extended_options(&vec![]).unwrap().0;
    assert_eq!(defaults.blksize, 512);
    assert_eq!(defaults.windowsize, 1);

    let bad = vec![(b"blksize".to_vec(), b"huge".to_vec())];
    assert!(filter_extended_options(&bad).is_err());
}

#[test]
fn recognized_option_names() {
    let names = exended_options_str();
    assert_eq!(names, vec![b"blksize".to_vec(), b"windowsize".to_vec()]);
    assert_eq!(blksize_name(), b"blksize".to_vec());
    assert_eq!(windowsize_name(), b"windowsize".to_vec());
    let d = ExtendedOptions::new();
    assert_eq!((d.blksize, d.windowsize), (512, 1));
}
