use rak811::mock::{FailingWriter, NoopReset, RecordingWriter, ScriptedReader};
use rak811::protocol::{
    Command, ConnectMode, EventCode, FirmwareInfo, LoraMode, LoraRegion, QoS, Response,
};
use rak811::transport::SerialWrite;
use rak811::{DriverError, Rak811Driver};

const INIT: &[u8] = b"Initialization OK,EU868\r\n";

fn driver_with(
    script: Vec<u8>,
) -> Rak811Driver<RecordingWriter, ScriptedReader, NoopReset> {
    Rak811Driver::new(RecordingWriter::new(), ScriptedReader::new(script), NoopReset).unwrap()
}

fn script(replies: &[&[u8]]) -> Vec<u8> {
    let mut all = INIT.to_vec();
    for r in replies {
        all.extend_from_slice(r);
    }
    all
}

#[test]
fn lib_it_works() {
    assert_eq!(2 + 2, 4);
}

#[test]
fn new_awaits_the_announcement() {
    let _driver = driver_with(INIT.to_vec());
}

#[test]
fn new_rejects_a_wrong_first_reply() {
    let r = Rak811Driver::new(
        RecordingWriter::new(),
        ScriptedReader::new(b"OK\r\n".to_vec()),
        NoopReset,
    );
    assert!(matches!(r, Err(DriverError::NotInitialized)));
}

#[test]
fn send_command_decodes_ok() {
    let mut driver = driver_with(script(&[b"\r\n\r\nOK\r\n"]));
    let reply = driver.send_command(Command::GetBand).unwrap();
    assert_eq!(reply, Response::OK);
}

#[test]
fn send_command_decodes_firmware_info() {
    let mut driver = driver_with(script(&[b"OK1.2.3.4\r\n"]));
    let reply = driver.send_command(Command::QueryFirmwareInfo).unwrap();
    assert_eq!(
        reply,
        Response::FirmwareInfo(FirmwareInfo { major: 1, minor: 2, patch: 3, build: 4 })
    );
}

#[test]
fn send_command_decodes_error() {
    let mut driver = driver_with(script(&[b"ERROR-5\r\n"]));
    let reply = driver.send_command(Command::GetBand).unwrap();
    assert_eq!(reply, Response::Error(-5));
}

#[test]
fn join_succeeds_on_ok_then_joined_event() {
    let mut driver = driver_with(script(&[b"OK\r\n", b"at+recv=0,0,0\r\n"]));
    assert_eq!(driver.join(ConnectMode::OTAA), Ok(()));
}

#[test]
fn join_succeeds_over_a_stuttering_link() {
    let mut all = INIT.to_vec();
    all.extend_from_slice(b"OK\r\n");
    all.extend_from_slice(b"at+recv=0,0,0\r\n");
    let mut driver = Rak811Driver::new(
        RecordingWriter::new(),
        ScriptedReader::new_stuttering(all),
        NoopReset,
    )
    .unwrap();
    assert_eq!(driver.join(ConnectMode::OTAA), Ok(()));
}

#[test]
fn join_reports_an_unexpected_second_reply() {
    let mut driver = driver_with(script(&[b"OK\r\n", b"ERROR1\r\n"]));
    assert_eq!(
        driver.join(ConnectMode::OTAA),
        Err(DriverError::UnexpectedResponse(Response::Error(1)))
    );
}

#[test]
fn send_confirmed_awaits_the_confirmed_event() {
    let mut driver = driver_with(script(&[b"OK\r\n", b"at+recv=2,0,0\r\n"]));
    assert_eq!(driver.send(QoS::Confirmed, 1, b"hi"), Ok(()));
}

#[test]
fn send_unconfirmed_awaits_the_unconfirmed_event() {
    let mut driver = driver_with(script(&[b"OK\r\n", b"at+recv=1,0,0\r\n"]));
    assert_eq!(driver.send(QoS::Unconfirmed, 2, b"hi"), Ok(()));
}

#[test]
fn send_rejects_the_wrong_confirmation() {
    let mut driver = driver_with(script(&[b"OK\r\n", b"at+recv=1,0,0\r\n"]));
    assert_eq!(
        driver.send(QoS::Confirmed, 1, b"hi"),
        Err(DriverError::UnexpectedResponse(Response::Recv(
            EventCode::TxUnconfirmed,
            0,
            0,
            None
        )))
    );
}

#[test]
fn set_mode_expects_ok() {
    let mut driver = driver_with(script(&[b"OK\r\n"]));
    assert_eq!(driver.set_mode(LoraMode::P2P), Ok(()));
}

#[test]
fn set_mode_reports_an_unexpected_reply() {
    let mut driver = driver_with(script(&[b"OK1.2.3.4\r\n"]));
    assert_eq!(
        driver.set_mode(LoraMode::WAN),
        Err(DriverError::UnexpectedResponse(Response::FirmwareInfo(FirmwareInfo {
            major: 1,
            minor: 2,
            patch: 3,
            build: 4,
        })))
    );
}

#[test]
fn set_band_skips_the_module_when_unchanged() {
    // The announcement seeded EU868; no reply is scripted, so this would
    // hang or fail if a command were sent.
    let mut driver = driver_with(INIT.to_vec());
    assert_eq!(driver.set_band(LoraRegion::EU868), Ok(()));
}

#[test]
fn set_band_sends_a_changed_band() {
    let mut driver = driver_with(script(&[b"OK\r\n"]));
    assert_eq!(driver.set_band(LoraRegion::US915), Ok(()));
}

#[test]
fn config_setters_expect_ok() {
    let mut driver = driver_with(script(&[b"OK\r\n", b"OK\r\n", b"OK\r\n", b"OK\r\n"]));
    assert_eq!(driver.set_device_address(&[0x01, 0x02, 0x03, 0x04]), Ok(()));
    assert_eq!(
        driver.set_device_eui(&[0x00, 0xbb, 0x7c, 0x95, 0xad, 0xb5, 0x30, 0xb9]),
        Ok(())
    );
    assert_eq!(
        driver.set_app_eui(&[0x70, 0xb3, 0xd5, 0x7e, 0xd0, 0x03, 0xb1, 0x84]),
        Ok(())
    );
    assert_eq!(driver.set_app_key(&[0x11; 16]), Ok(()));
}

#[test]
fn try_recv_returns_the_matching_port_and_keeps_the_rest() {
    let mut driver = driver_with(script(&[b"at+recv=3,1,2,aabb\r\n", b"at+recv=3,2,1,cc\r\n"]));
    driver.process().unwrap();
    driver.digest().unwrap();
    driver.digest().unwrap();

    let mut buf = vec![0u8; 8];
    assert_eq!(driver.try_recv(1, &mut buf), Ok(2));
    assert_eq!(&buf[..2], &[0xaa, 0xbb]);

    // Only the port-2 event is left on the queue.
    let mut buf2 = vec![0u8; 8];
    assert_eq!(driver.try_recv(2, &mut buf2), Ok(1));
    assert_eq!(&buf2[..1], &[0xcc]);

    assert_eq!(driver.try_recv(1, &mut buf), Ok(0));
}

#[test]
fn try_recv_without_data_returns_zero() {
    let mut driver = driver_with(INIT.to_vec());
    let mut buf = vec![0u8; 4];
    assert_eq!(driver.try_recv(1, &mut buf), Ok(0));
    assert_eq!(buf, vec![0u8; 4]);
}

#[test]
fn try_recv_puts_an_oversized_payload_back() {
    let mut driver = driver_with(script(&[b"at+recv=3,1,3,aabbcc\r\n"]));
    driver.process().unwrap();
    let mut small = vec![0u8; 2];
    assert_eq!(driver.try_recv(1, &mut small), Err(DriverError::ReadError));
    assert_eq!(small, vec![0u8; 2]);
    // The event was not lost: a large enough buffer still receives it.
    let mut big = vec![0u8; 4];
    assert_eq!(driver.try_recv(1, &mut big), Ok(3));
    assert_eq!(&big[..3], &[0xaa, 0xbb, 0xcc]);
}

#[test]
fn buffer_overflow_surfaces_as_read_error() {
    // 300 bytes of garbage overflow the 256-byte parse buffer while the
    // driver polls for the announcement.
    let r = Rak811Driver::new(
        RecordingWriter::new(),
        ScriptedReader::new(vec![b'X'; 300]),
        NoopReset,
    );
    assert!(matches!(r, Err(DriverError::ReadError)));
}

#[test]
fn digest_reports_a_full_queue_as_read_error() {
    let mut driver = driver_with(script(&[b"OK\r\n", b"OK\r\n", b"OK\r\n", b"OK\r\n", b"OK\r\n"]));
    driver.process().unwrap();
    for _ in 0..4 {
        driver.digest().unwrap();
    }
    assert_eq!(driver.digest(), Err(DriverError::ReadError));
}

#[test]
fn a_failing_transport_write_is_reported() {
    let reader = ScriptedReader::new(INIT.to_vec());
    let mut driver = Rak811Driver::new(FailingWriter, reader, NoopReset).unwrap();
    assert_eq!(driver.set_mode(LoraMode::WAN), Err(DriverError::WriteError));
}

#[test]
fn recording_writer_records_accepted_bytes() {
    let mut writer = RecordingWriter::new();
    writer.write_byte(65);
    writer.write_byte(66);
    assert_eq!(writer.bytes(), &vec![65, 66]);
}
