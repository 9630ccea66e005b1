//! Tests of the session decision logic: request parsing, the path
//! sandbox, write-mode admission and reply building.

use tftpserver::codec::Opcode;
use tftpserver::session::{
    accept_windowsize, build_ack_packet, build_error_packet, build_oack_packet,
    build_request_packet, clamp_blocksize, get_file_path, has_dotdot, open_upload_precheck,
    parse_oack_options, parsed_request, ServerSettings, WriteMode,
};
use tftpserver::types::{ErrorNumber, ErrorResponse};

fn settings() -> ServerSettings {
    ServerSettings {
        root_dir: b"/srv/tftp".to_vec(),
        write_mode: WriteMode::WriteNew,
        blocksize: 512,
        windowsize: 1,
    }
}

#[test]
fn parsed_request_reads_rrq() {
    let mut st = settings();
    let pkt = b"\x00\x01hello.txt\x00octet\x00";
    let pr = parsed_request(&mut st, pkt).unwrap();
    assert_eq!(pr.opcode, Opcode::Read);
    assert_eq!(pr.filename, b"hello.txt".to_vec());
    assert_eq!(st.blocksize, 512);
    assert_eq!(st.windowsize, 1);
}

#[test]
fn parsed_request_adopts_options() {
    let mut st = settings();
    let pkt = b"\x00\x02up.bin\x00octet\x00blksize\x001024\x00windowsize\x004\x00";
    let pr = parsed_request(&mut st, pkt).unwrap();
    assert_eq!(pr.opcode, Opcode::Write);
    assert_eq!(pr.filename, b"up.bin".to_vec());
    assert_eq!(st.blocksize, 1024);
    assert_eq!(st.windowsize, 4);
}

#[test]
fn parsed_request_clamps_blocksize() {
    let mut st = settings();
    // Too small and too large values are clamped to the accepted range.
    let pkt = b"\x00\x01f\x00octet\x00blksize\x002\x00";
    parsed_request(&mut st, pkt).unwrap();
    assert_eq!(st.blocksize, 8);

    let mut st = settings();
    let pkt = b"\x00\x01f\x00octet\x00blksize\x0065000\x00";
    parsed_request(&mut st, pkt).unwrap();
    assert_eq!(st.blocksize, 1024);

    assert_eq!(clamp_blocksize(2), 8);
    assert_eq!(clamp_blocksize(512), 512);
    assert_eq!(clamp_blocksize(65000), 1024);
    assert_eq!(accept_windowsize(0), 1);
    assert_eq!(accept_windowsize(7), 7);
}

#[test]
fn parsed_request_ignores_malformed_options() {
    let mut st = settings();
    // A recognized option with an unparsable value: the defaults stay.
    let pkt = b"\x00\x01f\x00octet\x00blksize\x00big\x00";
    let pr = parsed_request(&mut st, pkt).unwrap();
    assert_eq!(pr.filename, b"f".to_vec());
    assert_eq!(st.blocksize, 512);
    assert_eq!(st.windowsize, 1);
}

#[test]
fn parsed_request_rejects_malformed() {
    let mut st = settings();
    assert!(parsed_request(&mut st, b"\x00\x63xx").is_err());
    assert!(parsed_request(&mut st, b"\x00\x01no-terminator").is_err());
    assert!(parsed_request(&mut st, b"\x00\x01f\x00telepathy\x00").is_err());
    let er = parsed_request(&mut st, b"\x00").unwrap_err();
    assert!(matches!(er.number, ErrorNumber::NotDefined));
    assert_eq!(er.msg, Some(b"invalid opcode".to_vec()));
}

#[test]
fn parsed_request_accepts_mode_case_insensitively() {
    let mut st = settings();
    let pr = parsed_request(&mut st, b"\x00\x01f\x00OCTET\x00").unwrap();
    assert_eq!(pr.filename, b"f".to_vec());
    let pr = parsed_request(&mut st, b"\x00\x01f\x00NetAscii\x00").unwrap();
    assert_eq!(pr.filename, b"f".to_vec());
}

#[test]
fn file_path_stays_below_root() {
    let p = get_file_path(b"/srv/tftp", b"sub/file.bin").unwrap();
    assert_eq!(p, b"/srv/tftp/sub/file.bin".to_vec());
    // A root that already ends in a separator gets no second one.
    let p = get_file_path(b"/srv/tftp/", b"file.bin").unwrap();
    assert_eq!(p, b"/srv/tftp/file.bin".to_vec());
}

#[test]
fn file_path_rejects_escape_attempts() {
    // A path whose `..` components escape the root is refused with
    // FileNotFound.
    let er = get_file_path(b"/srv/tftp", b"../etc/passwd").unwrap_err();
    assert!(matches!(er.number, ErrorNumber::FileNotFound));
    let er = get_file_path(b"/srv/tftp", b"a/../../etc/passwd").unwrap_err();
    assert!(matches!(er.number, ErrorNumber::FileNotFound));
    // An absolute filename replaces the root and fails the prefix check.
    let er = get_file_path(b"/srv/tftp", b"/etc/passwd").unwrap_err();
    assert!(matches!(er.number, ErrorNumber::FileNotFound));

    assert!(has_dotdot(b".."));
    assert!(has_dotdot(b"a/../b"));
    assert!(!has_dotdot(b"a..b"));
    assert!(!has_dotdot(b"..."));
    assert!(has_dotdot(b"a/.."));
    assert!(!has_dotdot(b"a"));
}

#[test]
fn upload_precheck_enforces_write_mode() {
    assert!(open_upload_precheck(WriteMode::WriteNew, false).is_ok());
    assert!(open_upload_precheck(WriteMode::WriteOverwrite, false).is_ok());
    // Overwriting is allowed only in overwrite mode.
    assert!(open_upload_precheck(WriteMode::WriteOverwrite, true).is_ok());
    let er = open_upload_precheck(WriteMode::WriteNew, true).unwrap_err();
    assert!(matches!(er.number, ErrorNumber::FileAlreadyExists));
    let er = open_upload_precheck(WriteMode::Disabled, false).unwrap_err();
    assert!(matches!(er.number, ErrorNumber::AccessViolation));
    let er = open_upload_precheck(WriteMode::Disabled, true).unwrap_err();
    assert!(matches!(er.number, ErrorNumber::AccessViolation));
}

#[test]
fn oack_echoes_non_default_options() {
    assert_eq!(build_oack_packet(512, 1), None);
    let v = build_oack_packet(1024, 1).unwrap();
    assert_eq!(v, b"\x00\x06blksize\x001024\x00".to_vec());
    let v = build_oack_packet(512, 4).unwrap();
    assert_eq!(v, b"\x00\x06windowsize\x004\x00".to_vec());
    let v = build_oack_packet(1024, 2).unwrap();
    assert_eq!(v, b"\x00\x06blksize\x001024\x00windowsize\x002\x00".to_vec());
}

#[test]
fn client_adopts_oack_options() {
    let oack = build_oack_packet(1024, 2).unwrap();
    let opts = parse_oack_options(&oack).unwrap();
    assert_eq!(opts.blksize, 1024);
    assert_eq!(opts.windowsize, 2);
    // Anything that is not an OACK is the transfer's first packet.
    assert!(parse_oack_options(&[0, 3, 0, 1, 9]).is_none());
    assert!(parse_oack_options(b"\x00\x06blksize\x00broken").is_none());
}

#[test]
fn request_packet_layout() {
    let v = build_request_packet(Opcode::Read, b"a.txt", 512, 1);
    assert_eq!(v, b"\x00\x01a.txt\x00octet\x00".to_vec());
    let v = build_request_packet(Opcode::Write, b"b.bin", 1024, 1);
    assert_eq!(v, b"\x00\x02b.bin\x00octet\x00blksize\x001024\x00".to_vec());
    let v = build_request_packet(Opcode::Read, b"c", 1024, 8);
    assert_eq!(
        v,
        b"\x00\x01c\x00octet\x00blksize\x001024\x00windowsize\x008\x00".to_vec()
    );
}

#[test]
fn error_and_ack_packet_layout() {
    let v = build_error_packet(&ErrorResponse::new_custom(b"file is locked".to_vec()));
    assert_eq!(v, b"\x00\x05\x00\x00file is locked\x00".to_vec());
    let v = build_error_packet(&ErrorResponse::from(ErrorNumber::FileNotFound));
    assert_eq!(v, b"\x00\x05\x00\x01unknown\x00".to_vec());
    assert_eq!(build_ack_packet(0), vec![0, 4, 0, 0]);
    assert_eq!(build_ack_packet(0x1234), vec![0, 4, 0x12, 0x34]);
}
