use rak811::protocol::{EventCode, FirmwareInfo, LoraRegion, Response};
use rak811::parser::{ascii_to_digit, atoi_u8};
use rak811::Buffer;

fn feed(buffer: &mut Buffer, bytes: &[u8]) {
    for b in bytes {
        buffer.write(*b).unwrap();
    }
}

fn parse_line(bytes: &[u8]) -> Response {
    let mut buffer = Buffer::new();
    feed(&mut buffer, bytes);
    buffer.parse().unwrap()
}

#[test]
fn parser_it_works() {
    assert_eq!(2 + 2, 4);
}

#[test]
fn ascii_to_digit_cases() {
    assert_eq!(ascii_to_digit(b'0'), Some(0));
    assert_eq!(ascii_to_digit(b'9'), Some(9));
    assert_eq!(ascii_to_digit(b'a'), None);
    assert_eq!(ascii_to_digit(b'/'), None);
    assert_eq!(ascii_to_digit(b':'), None);
}

#[test]
fn atoi_u8_cases() {
    assert_eq!(atoi_u8(b"0"), Some(0));
    assert_eq!(atoi_u8(b"123"), Some(123));
    assert_eq!(atoi_u8(b"255"), Some(255));
    assert_eq!(atoi_u8(b"256"), None);
    assert_eq!(atoi_u8(b"300"), None);
    assert_eq!(atoi_u8(b"007"), Some(7));
    assert_eq!(atoi_u8(b"12a"), None);
    assert_eq!(atoi_u8(b""), Some(0));
}

#[test]
fn parse_ok_line() {
    assert_eq!(parse_line(b"OK\r\n"), Response::OK);
}

#[test]
fn parse_ok_with_leading_crlf() {
    assert_eq!(parse_line(b"\r\n\r\nOK\r\n"), Response::OK);
    assert_eq!(parse_line(b"\r\nOK\r\n"), Response::OK);
}

#[test]
fn parse_error_lines() {
    assert_eq!(parse_line(b"ERROR-5\r\n"), Response::Error(-5));
    assert_eq!(parse_line(b"ERROR2\r\n"), Response::Error(2));
    assert_eq!(parse_line(b"ERROR127\r\n"), Response::Error(127));
    assert_eq!(parse_line(b"ERROR-128\r\n"), Response::Error(-128));
    assert_eq!(parse_line(b"\r\nERROR-1\r\n"), Response::Error(-1));
}

#[test]
fn parse_firmware_line() {
    assert_eq!(
        parse_line(b"OK1.2.3.4\r\n"),
        Response::FirmwareInfo(FirmwareInfo { major: 1, minor: 2, patch: 3, build: 4 })
    );
    assert_eq!(
        parse_line(b"OK2.0.3.10\r\n"),
        Response::FirmwareInfo(FirmwareInfo { major: 2, minor: 0, patch: 3, build: 10 })
    );
}

#[test]
fn parse_band_line() {
    assert_eq!(parse_line(b"OKUS915\r\n"), Response::LoraBand(LoraRegion::US915));
    assert_eq!(parse_line(b"OKEU868\r\n"), Response::LoraBand(LoraRegion::EU868));
}

#[test]
fn parse_initialized_line() {
    assert_eq!(
        parse_line(b"Initialization OK,AU915\r\n"),
        Response::Initialized(LoraRegion::AU915)
    );
}

#[test]
fn parse_recv_event_without_payload() {
    assert_eq!(
        parse_line(b"at+recv=0,0,0\r\n"),
        Response::Recv(EventCode::JoinedSuccess, 0, 0, None)
    );
    assert_eq!(
        parse_line(b"at+recv=1,0,0\r\n"),
        Response::Recv(EventCode::TxUnconfirmed, 0, 0, None)
    );
    assert_eq!(
        parse_line(b"at+recv=2,0,0\r\n"),
        Response::Recv(EventCode::TxConfirmed, 0, 0, None)
    );
}

#[test]
fn parse_recv_event_with_payload() {
    assert_eq!(
        parse_line(b"at+recv=3,1,2,0aff\r\n"),
        Response::Recv(EventCode::RecvData, 1, 2, Some(vec![0x0a, 0xff]))
    );
}

#[test]
fn parse_consumes_only_the_matched_prefix() {
    let mut buffer = Buffer::new();
    feed(&mut buffer, b"OK\r\nER");
    assert_eq!(buffer.parse(), Ok(Response::OK));
    assert_eq!(buffer.len(), 2);
    feed(&mut buffer, b"ROR1\r\n");
    assert_eq!(buffer.parse(), Ok(Response::Error(1)));
    assert_eq!(buffer.len(), 0);
}

#[test]
fn parse_no_match_leaves_buffer_untouched() {
    let mut buffer = Buffer::new();
    feed(&mut buffer, b"OK");
    assert!(buffer.parse().is_err());
    assert_eq!(buffer.len(), 2);
    feed(&mut buffer, b"\r\n");
    assert_eq!(buffer.parse(), Ok(Response::OK));
}

#[test]
fn byte_at_a_time_equals_one_shot() {
    let line: &[u8] = b"OK\r\n";
    let mut one_shot = Buffer::new();
    feed(&mut one_shot, line);
    let expected = one_shot.parse().unwrap();

    let mut incremental = Buffer::new();
    let mut decoded = None;
    for b in line {
        incremental.write(*b).unwrap();
        if let Ok(response) = incremental.parse() {
            decoded = Some(response);
        }
    }
    assert_eq!(decoded, Some(expected));
    assert_eq!(decoded, Some(Response::OK));
    assert_eq!(incremental.len(), 0);
}

#[test]
fn malformed_digits_are_never_accepted() {
    let mut buffer = Buffer::new();
    feed(&mut buffer, b"OK999.1.1.1\r\n");
    assert!(buffer.parse().is_err());
    assert_eq!(buffer.len(), 13);

    let mut buffer = Buffer::new();
    feed(&mut buffer, b"ERROR300\r\n");
    assert!(buffer.parse().is_err());
}

#[test]
fn unknown_event_code_does_not_match() {
    let mut buffer = Buffer::new();
    feed(&mut buffer, b"at+recv=7,0,0\r\n");
    assert!(buffer.parse().is_err());
}

#[test]
fn buffer_overflow_is_reported() {
    let mut buffer = Buffer::new();
    for _ in 0..256 {
        buffer.write(b'X').unwrap();
    }
    assert!(buffer.write(b'X').is_err());
    assert_eq!(buffer.len(), 256);
}
