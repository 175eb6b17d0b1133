use rak811::{Command, ConfigKey, ConfigOption, ConnectMode, LoraMode, LoraRegion, QoS, ResetMode};

fn encoded(cmd: &Command) -> Vec<u8> {
    let mut buffer = Command::buffer();
    cmd.encode(&mut buffer);
    buffer.as_bytes().to_vec()
}

#[test]
fn protocol_it_works() {
    assert_eq!(2 + 2, 4);
}

#[test]
fn encode_query_firmware() {
    assert_eq!(encoded(&Command::QueryFirmwareInfo), b"at+version".to_vec());
}

#[test]
fn encode_get_band() {
    assert_eq!(encoded(&Command::GetBand), b"at+band".to_vec());
}

#[test]
fn encode_set_band_each_region() {
    assert_eq!(encoded(&Command::SetBand(LoraRegion::EU868)), b"at+band=EU868".to_vec());
    assert_eq!(encoded(&Command::SetBand(LoraRegion::US915)), b"at+band=US915".to_vec());
    assert_eq!(encoded(&Command::SetBand(LoraRegion::AU915)), b"at+band=AU915".to_vec());
    assert_eq!(encoded(&Command::SetBand(LoraRegion::KR920)), b"at+band=KR920".to_vec());
    assert_eq!(encoded(&Command::SetBand(LoraRegion::AS923)), b"at+band=AS923".to_vec());
    assert_eq!(encoded(&Command::SetBand(LoraRegion::IN865)), b"at+band=IN865".to_vec());
    assert_eq!(encoded(&Command::SetBand(LoraRegion::UNKNOWN)), b"at+band=UNKNOWN".to_vec());
}

#[test]
fn encode_set_mode() {
    assert_eq!(encoded(&Command::SetMode(LoraMode::WAN)), b"at+mode=0".to_vec());
    assert_eq!(encoded(&Command::SetMode(LoraMode::P2P)), b"at+mode=1".to_vec());
}

#[test]
fn encode_join() {
    assert_eq!(encoded(&Command::Join(ConnectMode::OTAA)), b"at+join=otaa".to_vec());
    assert_eq!(encoded(&Command::Join(ConnectMode::ABP)), b"at+join=abp".to_vec());
}

#[test]
fn encode_reset() {
    assert_eq!(encoded(&Command::Reset(ResetMode::Restart)), b"at+reset=0".to_vec());
    assert_eq!(encoded(&Command::Reset(ResetMode::Reload)), b"at+reset=1".to_vec());
}

#[test]
fn encode_get_config() {
    assert_eq!(encoded(&Command::GetConfig(ConfigKey::DevAddr)), b"at+get_config=dev_addr".to_vec());
    assert_eq!(encoded(&Command::GetConfig(ConfigKey::DevEui)), b"at+get_config=dev_eui".to_vec());
    assert_eq!(encoded(&Command::GetConfig(ConfigKey::AppEui)), b"at+get_config=app_eui".to_vec());
    assert_eq!(encoded(&Command::GetConfig(ConfigKey::AppKey)), b"at+get_config=app_key".to_vec());
    assert_eq!(encoded(&Command::GetConfig(ConfigKey::NwksKey)), b"at+get_config=nwks_key".to_vec());
    assert_eq!(encoded(&Command::GetConfig(ConfigKey::AppsKey)), b"at+get_config=apps_key".to_vec());
}

#[test]
fn encode_set_config_dev_addr_hex() {
    let addr: [u8; 4] = [0x01, 0xab, 0xcd, 0xef];
    assert_eq!(
        encoded(&Command::SetConfig(ConfigOption::DevAddr(&addr))),
        b"at+set_config=dev_addr:01abcdef".to_vec()
    );
}

#[test]
fn encode_set_config_eui_hex() {
    let eui: [u8; 8] = [0x00, 0xbb, 0x7c, 0x95, 0xad, 0xb5, 0x30, 0xb9];
    assert_eq!(
        encoded(&Command::SetConfig(ConfigOption::DevEui(&eui))),
        b"at+set_config=dev_eui:00bb7c95adb530b9".to_vec()
    );
    assert_eq!(
        encoded(&Command::SetConfig(ConfigOption::AppEui(&eui))),
        b"at+set_config=app_eui:00bb7c95adb530b9".to_vec()
    );
}

#[test]
fn encode_set_config_keys_hex() {
    let key: [u8; 16] = [
        0x00, 0x11, 0x22, 0x33, 0x44, 0x55, 0x66, 0x77, 0x88, 0x99, 0xaa, 0xbb, 0xcc, 0xdd, 0xee,
        0xff,
    ];
    assert_eq!(
        encoded(&Command::SetConfig(ConfigOption::AppKey(&key))),
        b"at+set_config=app_key:00112233445566778899aabbccddeeff".to_vec()
    );
    assert_eq!(
        encoded(&Command::SetConfig(ConfigOption::NwksKey(&key))),
        b"at+set_config=nwks_key:00112233445566778899aabbccddeeff".to_vec()
    );
    assert_eq!(
        encoded(&Command::SetConfig(ConfigOption::AppsKey(&key))),
        b"at+set_config=apps_key:00112233445566778899aabbccddeeff".to_vec()
    );
}

#[test]
fn encode_send_hex_payload() {
    assert_eq!(
        encoded(&Command::Send(QoS::Unconfirmed, 1, &[0xaa, 0xbb])),
        b"at+send=0,1,aabb".to_vec()
    );
    assert_eq!(
        encoded(&Command::Send(QoS::Confirmed, 255, &[])),
        b"at+send=1,255,".to_vec()
    );
    assert_eq!(
        encoded(&Command::Send(QoS::Confirmed, 42, &[0x00])),
        b"at+send=1,42,00".to_vec()
    );
}

#[test]
fn parse_region_tokens() {
    assert_eq!(LoraRegion::parse(b"EU868"), LoraRegion::EU868);
    assert_eq!(LoraRegion::parse(b"US915"), LoraRegion::US915);
    assert_eq!(LoraRegion::parse(b"AU915"), LoraRegion::AU915);
    assert_eq!(LoraRegion::parse(b"KR920"), LoraRegion::KR920);
    assert_eq!(LoraRegion::parse(b"AS923"), LoraRegion::AS923);
    assert_eq!(LoraRegion::parse(b"IN865"), LoraRegion::IN865);
    assert_eq!(LoraRegion::parse(b"ZZ999"), LoraRegion::UNKNOWN);
    assert_eq!(LoraRegion::parse(b""), LoraRegion::UNKNOWN);
}

#[test]
fn parse_connect_mode_tokens() {
    assert_eq!(ConnectMode::parse(b"abp"), ConnectMode::ABP);
    assert_eq!(ConnectMode::parse(b"otaa"), ConnectMode::OTAA);
    assert_eq!(ConnectMode::parse(b"anything"), ConnectMode::OTAA);
}

#[test]
fn parse_lora_mode_tokens() {
    assert_eq!(LoraMode::parse(b"1"), LoraMode::P2P);
    assert_eq!(LoraMode::parse(b"0"), LoraMode::WAN);
    assert_eq!(LoraMode::parse(b"x"), LoraMode::WAN);
}

#[test]
fn region_token_round_trip() {
    for region in [
        LoraRegion::EU868,
        LoraRegion::US915,
        LoraRegion::AU915,
        LoraRegion::KR920,
        LoraRegion::AS923,
        LoraRegion::IN865,
        LoraRegion::UNKNOWN,
    ] {
        let bytes = encoded(&Command::SetBand(region));
        assert_eq!(&bytes[..8], b"at+band=");
        assert_eq!(LoraRegion::parse(&bytes[8..]), region);
    }
}

#[test]
fn connect_mode_token_round_trip() {
    for mode in [ConnectMode::OTAA, ConnectMode::ABP] {
        let bytes = encoded(&Command::Join(mode));
        assert_eq!(&bytes[..8], b"at+join=");
        assert_eq!(ConnectMode::parse(&bytes[8..]), mode);
    }
}

#[test]
fn lora_mode_token_round_trip() {
    for mode in [LoraMode::WAN, LoraMode::P2P] {
        let bytes = encoded(&Command::SetMode(mode));
        assert_eq!(&bytes[..8], b"at+mode=");
        assert_eq!(LoraMode::parse(&bytes[8..]), mode);
    }
}
