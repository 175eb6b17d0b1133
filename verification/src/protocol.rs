//! The protocol types and the command encoder: typed commands, decoded
//! replies, and the exact textual encoding of each command body.

use vstd::prelude::*;

verus! {

/// Capacity of the bounded command string, in bytes.
pub const CMD_CAPACITY: usize = 128;

/// Application port number on the LoRaWAN link.
pub type Port = u8;

/// Device address: four bytes, most significant first on the wire.
pub type DevAddr = [u8; 4];

/// Extended unique identifier: eight bytes.
pub type EUI = [u8; 8];

/// Application key: sixteen bytes.
pub type AppKey = [u8; 16];

/// Network session key: sixteen bytes.
pub type NwksKey = [u8; 16];

/// Application session key: sixteen bytes.
pub type AppsKey = [u8; 16];

/// Reset scope requested from the module.
#[derive(Debug, Clone, Copy, PartialEq, Eq, Structural)]
pub enum ResetMode {
    /// Restart the module.
    Restart,
    /// Reload the configuration from EEPROM.
    Reload,
}

/// LoRaWAN join procedure.
#[derive(Debug, Clone, Copy, PartialEq, Eq, Structural)]
pub enum ConnectMode {
    OTAA,
    ABP,
}

/// Mode of operation: network mode or peer to peer.
#[derive(Debug, Clone, Copy, PartialEq, Eq, Structural)]
pub enum LoraMode {
    WAN,
    P2P,
}

/// Regulatory frequency plan.
#[derive(Debug, Clone, Copy, PartialEq, Eq, Structural)]
pub enum LoraRegion {
    EU868,
    US915,
    AU915,
    KR920,
    AS923,
    IN865,
    UNKNOWN,
}

/// Delivery quality of service for an uplink.
#[derive(Debug, Clone, Copy, PartialEq, Eq, Structural)]
pub enum QoS {
    Unconfirmed,
    Confirmed,
}

/// Tag on asynchronous module-originated notifications.
#[derive(Debug, Clone, Copy, PartialEq, Eq, Structural)]
pub enum EventCode {
    JoinedSuccess,
    TxUnconfirmed,
    TxConfirmed,
    RecvData,
}

/// Configuration key for a get-config request.
#[derive(Debug, Clone, Copy, PartialEq, Eq, Structural)]
pub enum ConfigKey {
    DevAddr,
    DevEui,
    AppEui,
    AppKey,
    NwksKey,
    AppsKey,
}

/// Configuration value for a set-config request. The byte arrays are
/// borrowed from the caller for the duration of encoding only.
#[derive(Debug)]
pub enum ConfigOption<'a> {
    DevAddr(&'a DevAddr),
    DevEui(&'a EUI),
    AppEui(&'a EUI),
    AppKey(&'a AppKey),
    NwksKey(&'a NwksKey),
    AppsKey(&'a AppsKey),
}

/// A typed command, consumed by the encoder.
#[derive(Debug)]
pub enum Command<'a> {
    QueryFirmwareInfo,
    SetBand(LoraRegion),
    SetMode(LoraMode),
    GetBand,
    Join(ConnectMode),
    SetConfig(ConfigOption<'a>),
    GetConfig(ConfigKey),
    Reset(ResetMode),
    Send(QoS, Port, &'a [u8]),
}

/// Version information reported by the module firmware.
#[derive(Debug, Clone, Copy, PartialEq, Eq, Structural)]
pub struct FirmwareInfo {
    pub major: u8,
    pub minor: u8,
    pub patch: u8,
    pub build: u8,
}

/// A decoded module reply. `NONE` is a sentinel meaning "buffer not yet a
/// complete message" and is never queued.
#[derive(Debug, PartialEq, Eq)]
pub enum Response {
    NONE,
    OK,
    Error(i8),
    FirmwareInfo(FirmwareInfo),
    LoraBand(LoraRegion),
    Initialized(LoraRegion),
    Recv(EventCode, Port, usize, Option<Vec<u8>>),
}

/// Mathematical model of a decoded reply; the payload of a data event is a
/// byte sequence rather than a vector.
pub enum ReplyModel {
    NONE,
    OK,
    Error(i8),
    FirmwareInfo(FirmwareInfo),
    LoraBand(LoraRegion),
    Initialized(LoraRegion),
    Recv(EventCode, Port, nat, Option<Seq<u8>>),
}

impl View for Response {
    type V = ReplyModel;

    open spec fn view(&self) -> ReplyModel {
        match self {
            Response::NONE => ReplyModel::NONE,
            Response::OK => ReplyModel::OK,
            Response::Error(code) => ReplyModel::Error(*code),
            Response::FirmwareInfo(info) => ReplyModel::FirmwareInfo(*info),
            Response::LoraBand(region) => ReplyModel::LoraBand(*region),
            Response::Initialized(region) => ReplyModel::Initialized(*region),
            Response::Recv(code, port, len, data) => ReplyModel::Recv(
                *code,
                *port,
                *len as nat,
                match data {
                    Option::Some(bytes) => Option::Some(bytes@),
                    Option::None => Option::None,
                },
            ),
        }
    }
}

/// A queued reply is well formed when the length field of a data event
/// agrees with its payload: a present payload has exactly that many bytes,
/// an absent payload means length zero.
pub open spec fn reply_wf(reply: ReplyModel) -> bool {
    reply matches ReplyModel::Recv(_code, _port, len, data) ==> match data {
        Option::Some(bytes) => bytes.len() == len && len > 0,
        Option::None => len == 0,
    }
}

// ---------------------------------------------------------------------------
// Wire tokens. Each spec function gives the exact ASCII bytes of one token.
// ---------------------------------------------------------------------------

/// The line terminator, "\r\n".
pub open spec fn tok_crlf() -> Seq<u8> {
    seq![13u8, 10u8]
}

/// "OK"
pub open spec fn tok_ok() -> Seq<u8> {
    seq![79u8, 75u8]
}

/// "ERROR"
pub open spec fn tok_error() -> Seq<u8> {
    seq![69u8, 82u8, 82u8, 79u8, 82u8]
}

/// "at+version"
pub open spec fn tok_at_version() -> Seq<u8> {
    seq![97u8, 116u8, 43u8, 118u8, 101u8, 114u8, 115u8, 105u8, 111u8, 110u8]
}

/// "at+band="
pub open spec fn tok_at_set_band() -> Seq<u8> {
    seq![97u8, 116u8, 43u8, 98u8, 97u8, 110u8, 100u8, 61u8]
}

/// "at+band"
pub open spec fn tok_at_get_band() -> Seq<u8> {
    seq![97u8, 116u8, 43u8, 98u8, 97u8, 110u8, 100u8]
}

/// "at+mode="
pub open spec fn tok_at_mode() -> Seq<u8> {
    seq![97u8, 116u8, 43u8, 109u8, 111u8, 100u8, 101u8, 61u8]
}

/// "at+join="
pub open spec fn tok_at_join() -> Seq<u8> {
    seq![97u8, 116u8, 43u8, 106u8, 111u8, 105u8, 110u8, 61u8]
}

/// "at+set_config="
pub open spec fn tok_at_set_config() -> Seq<u8> {
    seq![
        97u8, 116u8, 43u8, 115u8, 101u8, 116u8, 95u8, 99u8, 111u8, 110u8, 102u8, 105u8, 103u8,
        61u8,
    ]
}

/// "at+get_config="
pub open spec fn tok_at_get_config() -> Seq<u8> {
    seq![
        97u8, 116u8, 43u8, 103u8, 101u8, 116u8, 95u8, 99u8, 111u8, 110u8, 102u8, 105u8, 103u8,
        61u8,
    ]
}

/// "at+reset="
pub open spec fn tok_at_reset() -> Seq<u8> {
    seq![97u8, 116u8, 43u8, 114u8, 101u8, 115u8, 101u8, 116u8, 61u8]
}

/// "at+send="
pub open spec fn tok_at_send() -> Seq<u8> {
    seq![97u8, 116u8, 43u8, 115u8, 101u8, 110u8, 100u8, 61u8]
}

/// "at+recv="
pub open spec fn tok_at_recv() -> Seq<u8> {
    seq![97u8, 116u8, 43u8, 114u8, 101u8, 99u8, 118u8, 61u8]
}

/// "Initialization OK,"
pub open spec fn tok_initialized() -> Seq<u8> {
    seq![
        73u8, 110u8, 105u8, 116u8, 105u8, 97u8, 108u8, 105u8, 122u8, 97u8, 116u8, 105u8, 111u8,
        110u8, 32u8, 79u8, 75u8, 44u8,
    ]
}

/// "dev_addr"
pub open spec fn tok_key_dev_addr() -> Seq<u8> {
    seq![100u8, 101u8, 118u8, 95u8, 97u8, 100u8, 100u8, 114u8]
}

/// "dev_eui"
pub open spec fn tok_key_dev_eui() -> Seq<u8> {
    seq![100u8, 101u8, 118u8, 95u8, 101u8, 117u8, 105u8]
}

/// "app_eui"
pub open spec fn tok_key_app_eui() -> Seq<u8> {
    seq![97u8, 112u8, 112u8, 95u8, 101u8, 117u8, 105u8]
}

/// "app_key"
pub open spec fn tok_key_app_key() -> Seq<u8> {
    seq![97u8, 112u8, 112u8, 95u8, 107u8, 101u8, 121u8]
}

/// "nwks_key"
pub open spec fn tok_key_nwks_key() -> Seq<u8> {
    seq![110u8, 119u8, 107u8, 115u8, 95u8, 107u8, 101u8, 121u8]
}

/// "apps_key"
pub open spec fn tok_key_apps_key() -> Seq<u8> {
    seq![97u8, 112u8, 112u8, 115u8, 95u8, 107u8, 101u8, 121u8]
}

/// "otaa"
pub open spec fn tok_otaa() -> Seq<u8> {
    seq![111u8, 116u8, 97u8, 97u8]
}

/// "abp"
pub open spec fn tok_abp() -> Seq<u8> {
    seq![97u8, 98u8, 112u8]
}

/// "EU868"
pub open spec fn tok_eu868() -> Seq<u8> {
    seq![69u8, 85u8, 56u8, 54u8, 56u8]
}

/// "US915"
pub open spec fn tok_us915() -> Seq<u8> {
    seq![85u8, 83u8, 57u8, 49u8, 53u8]
}

/// "AU915"
pub open spec fn tok_au915() -> Seq<u8> {
    seq![65u8, 85u8, 57u8, 49u8, 53u8]
}

/// "KR920"
pub open spec fn tok_kr920() -> Seq<u8> {
    seq![75u8, 82u8, 57u8, 50u8, 48u8]
}

/// "AS923"
pub open spec fn tok_as923() -> Seq<u8> {
    seq![65u8, 83u8, 57u8, 50u8, 51u8]
}

/// "IN865"
pub open spec fn tok_in865() -> Seq<u8> {
    seq![73u8, 78u8, 56u8, 54u8, 53u8]
}

/// "UNKNOWN"
pub open spec fn tok_unknown() -> Seq<u8> {
    seq![85u8, 78u8, 75u8, 78u8, 79u8, 87u8, 78u8]
}

// ---------------------------------------------------------------------------
// Specification of the textual encodings.
// ---------------------------------------------------------------------------

/// ASCII byte of one hexadecimal digit, lowercase.
pub open spec fn spec_hex_digit(n: u8) -> u8
    recommends
        n < 16,
{
    if n < 10 {
        (48 + n) as u8
    } else {
        (87 + n) as u8
    }
}

/// Two-digit lowercase hexadecimal encoding of one byte.
pub open spec fn spec_hex_pair(b: u8) -> Seq<u8> {
    seq![spec_hex_digit(b / 16), spec_hex_digit(b % 16)]
}

/// Hexadecimal encoding of a byte sequence, most significant byte first,
/// two digits per byte.
pub open spec fn spec_hex_bytes(s: Seq<u8>) -> Seq<u8>
    decreases s.len(),
{
    if s.len() == 0 {
        Seq::empty()
    } else {
        spec_hex_pair(s[0]) + spec_hex_bytes(s.drop_first())
    }
}

/// Decimal encoding of a byte value, without leading zeros.
pub open spec fn spec_dec_u8(n: u8) -> Seq<u8> {
    if n < 10 {
        seq![(48 + n) as u8]
    } else if n < 100 {
        seq![(48 + n / 10) as u8, (48 + n % 10) as u8]
    } else {
        seq![(48 + n / 100) as u8, (48 + (n / 10) % 10) as u8, (48 + n % 10) as u8]
    }
}

/// Token for a join procedure.
pub open spec fn spec_encode_connect_mode(mode: ConnectMode) -> Seq<u8> {
    match mode {
        ConnectMode::OTAA => tok_otaa(),
        ConnectMode::ABP => tok_abp(),
    }
}

/// Token for a mode of operation: "0" for network mode, "1" for peer to peer.
pub open spec fn spec_encode_lora_mode(mode: LoraMode) -> Seq<u8> {
    match mode {
        LoraMode::WAN => seq![48u8],
        LoraMode::P2P => seq![49u8],
    }
}

/// Token for a region.
pub open spec fn spec_encode_region(region: LoraRegion) -> Seq<u8> {
    match region {
        LoraRegion::EU868 => tok_eu868(),
        LoraRegion::US915 => tok_us915(),
        LoraRegion::AU915 => tok_au915(),
        LoraRegion::KR920 => tok_kr920(),
        LoraRegion::AS923 => tok_as923(),
        LoraRegion::IN865 => tok_in865(),
        LoraRegion::UNKNOWN => tok_unknown(),
    }
}

/// Token for a configuration key.
pub open spec fn spec_encode_config_key(key: ConfigKey) -> Seq<u8> {
    match key {
        ConfigKey::DevAddr => tok_key_dev_addr(),
        ConfigKey::DevEui => tok_key_dev_eui(),
        ConfigKey::AppEui => tok_key_app_eui(),
        ConfigKey::AppKey => tok_key_app_key(),
        ConfigKey::NwksKey => tok_key_nwks_key(),
        ConfigKey::AppsKey => tok_key_apps_key(),
    }
}

/// Body of a set-config request: "<key>:<value hex>".
pub open spec fn spec_encode_config(opt: ConfigOption) -> Seq<u8> {
    match opt {
        ConfigOption::DevAddr(bytes) => tok_key_dev_addr() + seq![58u8] + spec_hex_bytes(bytes@),
        ConfigOption::DevEui(bytes) => tok_key_dev_eui() + seq![58u8] + spec_hex_bytes(bytes@),
        ConfigOption::AppEui(bytes) => tok_key_app_eui() + seq![58u8] + spec_hex_bytes(bytes@),
        ConfigOption::AppKey(bytes) => tok_key_app_key() + seq![58u8] + spec_hex_bytes(bytes@),
        ConfigOption::NwksKey(bytes) => tok_key_nwks_key() + seq![58u8] + spec_hex_bytes(bytes@),
        ConfigOption::AppsKey(bytes) => tok_key_apps_key() + seq![58u8] + spec_hex_bytes(bytes@),
    }
}

/// Token for a quality of service: "0" unconfirmed, "1" confirmed.
pub open spec fn spec_encode_qos(qos: QoS) -> Seq<u8> {
    match qos {
        QoS::Unconfirmed => seq![48u8],
        QoS::Confirmed => seq![49u8],
    }
}

/// The exact AT-command body for a command, without the trailing "\r\n".
pub open spec fn spec_encode_command(cmd: Command) -> Seq<u8> {
    match cmd {
        Command::QueryFirmwareInfo => tok_at_version(),
        Command::SetBand(region) => tok_at_set_band() + spec_encode_region(region),
        Command::SetMode(mode) => tok_at_mode() + spec_encode_lora_mode(mode),
        Command::GetBand => tok_at_get_band(),
        Command::Join(mode) => tok_at_join() + spec_encode_connect_mode(mode),
        Command::SetConfig(opt) => tok_at_set_config() + spec_encode_config(opt),
        Command::GetConfig(key) => tok_at_get_config() + spec_encode_config_key(key),
        Command::Reset(mode) => tok_at_reset() + match mode {
            ResetMode::Restart => seq![48u8],
            ResetMode::Reload => seq![49u8],
        },
        Command::Send(qos, port, data) => tok_at_send() + spec_encode_qos(qos) + seq![44u8]
            + spec_dec_u8(port) + seq![44u8] + spec_hex_bytes(data@),
    }
}

// ---------------------------------------------------------------------------
// Bounded command string and encoders.
// ---------------------------------------------------------------------------

/// Length of the hexadecimal encoding: two digits per byte.
pub proof fn lemma_hex_bytes_len(s: Seq<u8>)
    ensures
        spec_hex_bytes(s).len() == 2 * s.len(),
    decreases s.len(),
{
    if s.len() > 0 {
        lemma_hex_bytes_len(s.drop_first());
    }
}

/// Appending one byte to the input appends its two digits to the encoding.
pub proof fn lemma_hex_bytes_snoc(s: Seq<u8>, b: u8)
    ensures
        spec_hex_bytes(s.push(b)) == spec_hex_bytes(s) + spec_hex_pair(b),
    decreases s.len(),
{
    reveal_with_fuel(spec_hex_bytes, 3);
    if s.len() == 0 {
        assert(s.push(b)[0] == b);
        assert(s.push(b).drop_first() =~= Seq::<u8>::empty());
        assert(spec_hex_bytes(s.push(b)) =~= spec_hex_pair(b));
        assert(spec_hex_bytes(s) + spec_hex_pair(b) =~= spec_hex_pair(b));
    } else {
        lemma_hex_bytes_snoc(s.drop_first(), b);
        assert(s.push(b)[0] == s[0]);
        assert(s.push(b).drop_first() =~= s.drop_first().push(b));
        assert(spec_hex_bytes(s) + spec_hex_pair(b) =~= spec_hex_pair(s[0]) + (spec_hex_bytes(
            s.drop_first(),
        ) + spec_hex_pair(b)));
        assert(spec_hex_bytes(s.push(b)) =~= spec_hex_pair(s[0]) + spec_hex_bytes(
            s.drop_first().push(b),
        ));
    }
}

/// The bounded string that receives an encoded command: at most
/// `CMD_CAPACITY` bytes, appended at the end only.
pub struct CommandBuffer {
    bytes: Vec<u8>,
}

impl View for CommandBuffer {
    type V = Seq<u8>;

    closed spec fn view(&self) -> Seq<u8> {
        self.bytes@
    }
}

impl CommandBuffer {
    /// The buffer never holds more than its capacity.
    pub open spec fn wf(&self) -> bool {
        self@.len() <= CMD_CAPACITY
    }

    /// An empty command buffer.
    pub fn new() -> (r: CommandBuffer)
        ensures
            r.wf(),
            r@ == Seq::<u8>::empty(),
    {
        CommandBuffer { bytes: Vec::new() }
    }

    /// Number of bytes held.
    pub fn len(&self) -> (r: usize)
        ensures
            r == self@.len(),
    {
        self.bytes.len()
    }

    /// The encoded bytes.
    pub fn as_bytes(&self) -> (r: &[u8])
        ensures
            r@ == self@,
    {
        self.bytes.as_slice()
    }

    /// Append one byte.
    fn push_byte(&mut self, b: u8)
        requires
            old(self).wf(),
            old(self)@.len() < CMD_CAPACITY,
        ensures
            final(self).wf(),
            final(self)@ == old(self)@.push(b),
    {
        self.bytes.push(b);
    }

    /// Append a whole token.
    fn push_bytes(&mut self, t: &[u8])
        requires
            old(self).wf(),
            old(self)@.len() + t@.len() <= CMD_CAPACITY,
        ensures
            final(self).wf(),
            final(self)@ == old(self)@ + t@,
    {
        let ghost orig = self@;
        let n = t.len();
        let mut i: usize = 0;
        while i < n
            invariant
                i <= n,
                n == t@.len(),
                orig.len() + n <= CMD_CAPACITY,
                self@ == orig + t@.take(i as int),
            decreases n - i,
        {
            self.bytes.push(t[i]);
            i = i + 1;
            proof {
                assert(self@ =~= orig + t@.take(i as int));
            }
        }
        proof {
            assert(self@ =~= orig + t@);
        }
    }

    /// Append the two-digit lowercase hexadecimal encoding of each byte,
    /// most significant byte first.
    fn push_hex(&mut self, data: &[u8])
        requires
            old(self).wf(),
            old(self)@.len() + 2 * data@.len() <= CMD_CAPACITY,
        ensures
            final(self).wf(),
            final(self)@ == old(self)@ + spec_hex_bytes(data@),
    {
        let ghost orig = self@;
        let n = data.len();
        let mut i: usize = 0;
        while i < n
            invariant
                i <= n,
                n == data@.len(),
                orig.len() + 2 * n <= CMD_CAPACITY,
                self@ == orig + spec_hex_bytes(data@.take(i as int)),
            decreases n - i,
        {
            proof {
                lemma_hex_bytes_len(data@.take(i as int));
            }
            let b = data[i];
            self.bytes.push(hex_digit(b / 16));
            self.bytes.push(hex_digit(b % 16));
            i = i + 1;
            proof {
                assert(data@.take(i as int) =~= data@.take(i - 1).push(data@[i - 1]));
                lemma_hex_bytes_snoc(data@.take(i - 1), data@[i - 1]);
                assert(self@ =~= orig + spec_hex_bytes(data@.take(i as int)));
            }
        }
        proof {
            assert(data@.take(n as int) =~= data@);
            lemma_hex_bytes_len(data@);
        }
    }

    /// Append the decimal encoding of a byte value.
    fn push_dec(&mut self, n: u8)
        requires
            old(self).wf(),
            old(self)@.len() + spec_dec_u8(n).len() <= CMD_CAPACITY,
        ensures
            final(self).wf(),
            final(self)@ == old(self)@ + spec_dec_u8(n),
    {
        if n < 10 {
            self.push_byte(48 + n);
            proof {
                assert(self@ =~= old(self)@ + spec_dec_u8(n));
            }
        } else if n < 100 {
            self.push_byte(48 + n / 10);
            self.push_byte(48 + n % 10);
            proof {
                assert(self@ =~= old(self)@ + spec_dec_u8(n));
            }
        } else {
            self.push_byte(48 + n / 100);
            self.push_byte(48 + (n / 10) % 10);
            self.push_byte(48 + n % 10);
            proof {
                assert(self@ =~= old(self)@ + spec_dec_u8(n));
            }
        }
    }
}

/// ASCII byte of one hexadecimal digit, lowercase.
fn hex_digit(n: u8) -> (r: u8)
    requires
        n < 16,
    ensures
        r == spec_hex_digit(n),
{
    if n < 10 {
        48 + n
    } else {
        87 + n
    }
}

impl<'a> Command<'a> {
    /// A fresh buffer sized for one encoded command.
    pub fn buffer() -> (r: CommandBuffer)
        ensures
            r.wf(),
            r@ == Seq::<u8>::empty(),
    {
        CommandBuffer::new()
    }

    /// Append exactly the AT-command body for this command; the trailing
    /// "\r\n" is appended by the driver at write time.
    #[verifier::rlimit(60)]
    pub fn encode(&self, s: &mut CommandBuffer)
        requires
            old(s).wf(),
            old(s)@.len() + spec_encode_command(*self).len() <= CMD_CAPACITY,
        ensures
            final(s).wf(),
            final(s)@ == old(s)@ + spec_encode_command(*self),
    {
        match self {
            Command::QueryFirmwareInfo => {
                let t: [u8; 10] = [97, 116, 43, 118, 101, 114, 115, 105, 111, 110];
                proof {
                    assert(t@ =~= tok_at_version());
                }
                s.push_bytes(&t);
            },
            Command::SetBand(region) => {
                let t: [u8; 8] = [97, 116, 43, 98, 97, 110, 100, 61];
                proof {
                    assert(t@ =~= tok_at_set_band());
                }
                s.push_bytes(&t);
                region.encode(s);
                proof {
                    assert(s@ =~= old(s)@ + spec_encode_command(*self));
                }
            },
            Command::SetMode(mode) => {
                let t: [u8; 8] = [97, 116, 43, 109, 111, 100, 101, 61];
                proof {
                    assert(t@ =~= tok_at_mode());
                }
                s.push_bytes(&t);
                mode.encode(s);
                proof {
                    assert(s@ =~= old(s)@ + spec_encode_command(*self));
                }
            },
            Command::GetBand => {
                let t: [u8; 7] = [97, 116, 43, 98, 97, 110, 100];
                proof {
                    assert(t@ =~= tok_at_get_band());
                }
                s.push_bytes(&t);
            },
            Command::Join(mode) => {
                let t: [u8; 8] = [97, 116, 43, 106, 111, 105, 110, 61];
                proof {
                    assert(t@ =~= tok_at_join());
                }
                s.push_bytes(&t);
                mode.encode(s);
                proof {
                    assert(s@ =~= old(s)@ + spec_encode_command(*self));
                }
            },
            Command::SetConfig(opt) => {
                let t: [u8; 14] = [97, 116, 43, 115, 101, 116, 95, 99, 111, 110, 102, 105, 103, 61];
                proof {
                    assert(t@ =~= tok_at_set_config());
                }
                s.push_bytes(&t);
                opt.encode(s);
                proof {
                    assert(s@ =~= old(s)@ + spec_encode_command(*self));
                }
            },
            Command::GetConfig(key) => {
                let t: [u8; 14] = [97, 116, 43, 103, 101, 116, 95, 99, 111, 110, 102, 105, 103, 61];
                proof {
                    assert(t@ =~= tok_at_get_config());
                }
                s.push_bytes(&t);
                key.encode(s);
                proof {
                    assert(s@ =~= old(s)@ + spec_encode_command(*self));
                }
            },
            Command::Reset(mode) => {
                let t: [u8; 9] = [97, 116, 43, 114, 101, 115, 101, 116, 61];
                proof {
                    assert(t@ =~= tok_at_reset());
                }
                s.push_bytes(&t);
                match mode {
                    ResetMode::Restart => s.push_byte(48),
                    ResetMode::Reload => s.push_byte(49),
                }
                proof {
                    assert(s@ =~= old(s)@ + spec_encode_command(*self));
                }
            },
            Command::Send(qos, port, data) => {
                proof {
                    lemma_hex_bytes_len(data@);
                }
                let t: [u8; 8] = [97, 116, 43, 115, 101, 110, 100, 61];
                proof {
                    assert(t@ =~= tok_at_send());
                }
                s.push_bytes(&t);
                match qos {
                    QoS::Unconfirmed => s.push_byte(48),
                    QoS::Confirmed => s.push_byte(49),
                }
                s.push_byte(44);
                s.push_dec(*port);
                s.push_byte(44);
                s.push_hex(data);
                proof {
                    assert(s@ =~= old(s)@ + spec_encode_command(*self));
                }
            },
        }
    }
}

impl ConfigKey {
    /// Append the token naming this configuration key.
    pub fn encode(&self, s: &mut CommandBuffer)
        requires
            old(s).wf(),
            old(s)@.len() + spec_encode_config_key(*self).len() <= CMD_CAPACITY,
        ensures
            final(s).wf(),
            final(s)@ == old(s)@ + spec_encode_config_key(*self),
    {
        match self {
            ConfigKey::DevAddr => {
                let t: [u8; 8] = [100, 101, 118, 95, 97, 100, 100, 114];
                proof {
                    assert(t@ =~= tok_key_dev_addr());
                }
                s.push_bytes(&t);
            },
            ConfigKey::DevEui => {
                let t: [u8; 7] = [100, 101, 118, 95, 101, 117, 105];
                proof {
                    assert(t@ =~= tok_key_dev_eui());
                }
                s.push_bytes(&t);
            },
            ConfigKey::AppEui => {
                let t: [u8; 7] = [97, 112, 112, 95, 101, 117, 105];
                proof {
                    assert(t@ =~= tok_key_app_eui());
                }
                s.push_bytes(&t);
            },
            ConfigKey::AppKey => {
                let t: [u8; 7] = [97, 112, 112, 95, 107, 101, 121];
                proof {
                    assert(t@ =~= tok_key_app_key());
                }
                s.push_bytes(&t);
            },
            ConfigKey::NwksKey => {
                let t: [u8; 8] = [110, 119, 107, 115, 95, 107, 101, 121];
                proof {
                    assert(t@ =~= tok_key_nwks_key());
                }
                s.push_bytes(&t);
            },
            ConfigKey::AppsKey => {
                let t: [u8; 8] = [97, 112, 112, 115, 95, 107, 101, 121];
                proof {
                    assert(t@ =~= tok_key_apps_key());
                }
                s.push_bytes(&t);
            },
        }
    }
}

impl<'a> ConfigOption<'a> {
    /// Append "<key>:<value>", the value as two-digit lowercase hexadecimal
    /// per byte, most significant byte first.
    pub fn encode(&self, s: &mut CommandBuffer)
        requires
            old(s).wf(),
            old(s)@.len() + spec_encode_config(*self).len() <= CMD_CAPACITY,
        ensures
            final(s).wf(),
            final(s)@ == old(s)@ + spec_encode_config(*self),
    {
        match self {
            ConfigOption::DevAddr(bytes) => {
                proof {
                    lemma_hex_bytes_len(bytes@);
                }
                let t: [u8; 8] = [100, 101, 118, 95, 97, 100, 100, 114];
                proof {
                    assert(t@ =~= tok_key_dev_addr());
                }
                s.push_bytes(&t);
                s.push_byte(58);
                s.push_hex(*bytes);
                proof {
                    assert(s@ =~= old(s)@ + spec_encode_config(*self));
                }
            },
            ConfigOption::DevEui(bytes) => {
                proof {
                    lemma_hex_bytes_len(bytes@);
                }
                let t: [u8; 7] = [100, 101, 118, 95, 101, 117, 105];
                proof {
                    assert(t@ =~= tok_key_dev_eui());
                }
                s.push_bytes(&t);
                s.push_byte(58);
                s.push_hex(*bytes);
                proof {
                    assert(s@ =~= old(s)@ + spec_encode_config(*self));
                }
            },
            ConfigOption::AppEui(bytes) => {
                proof {
                    lemma_hex_bytes_len(bytes@);
                }
                let t: [u8; 7] = [97, 112, 112, 95, 101, 117, 105];
                proof {
                    assert(t@ =~= tok_key_app_eui());
                }
                s.push_bytes(&t);
                s.push_byte(58);
                s.push_hex(*bytes);
                proof {
                    assert(s@ =~= old(s)@ + spec_encode_config(*self));
                }
            },
            ConfigOption::AppKey(bytes) => {
                proof {
                    lemma_hex_bytes_len(bytes@);
                }
                let t: [u8; 7] = [97, 112, 112, 95, 107, 101, 121];
                proof {
                    assert(t@ =~= tok_key_app_key());
                }
                s.push_bytes(&t);
                s.push_byte(58);
                s.push_hex(*bytes);
                proof {
                    assert(s@ =~= old(s)@ + spec_encode_config(*self));
                }
            },
            ConfigOption::NwksKey(bytes) => {
                proof {
                    lemma_hex_bytes_len(bytes@);
                }
                let t: [u8; 8] = [110, 119, 107, 115, 95, 107, 101, 121];
                proof {
                    assert(t@ =~= tok_key_nwks_key());
                }
                s.push_bytes(&t);
                s.push_byte(58);
                s.push_hex(*bytes);
                proof {
                    assert(s@ =~= old(s)@ + spec_encode_config(*self));
                }
            },
            ConfigOption::AppsKey(bytes) => {
                proof {
                    lemma_hex_bytes_len(bytes@);
                }
                let t: [u8; 8] = [97, 112, 112, 115, 95, 107, 101, 121];
                proof {
                    assert(t@ =~= tok_key_apps_key());
                }
                s.push_bytes(&t);
                s.push_byte(58);
                s.push_hex(*bytes);
                proof {
                    assert(s@ =~= old(s)@ + spec_encode_config(*self));
                }
            },
        }
    }
}

impl ConnectMode {
    /// Append the token for this join procedure: "otaa" or "abp".
    pub fn encode(&self, s: &mut CommandBuffer)
        requires
            old(s).wf(),
            old(s)@.len() + spec_encode_connect_mode(*self).len() <= CMD_CAPACITY,
        ensures
            final(s).wf(),
            final(s)@ == old(s)@ + spec_encode_connect_mode(*self),
    {
        match self {
            ConnectMode::OTAA => {
                let t: [u8; 4] = [111, 116, 97, 97];
                proof {
                    assert(t@ =~= tok_otaa());
                }
                s.push_bytes(&t);
            },
            ConnectMode::ABP => {
                let t: [u8; 3] = [97, 98, 112];
                proof {
                    assert(t@ =~= tok_abp());
                }
                s.push_bytes(&t);
            },
        }
    }

    /// Decode a join-procedure token; anything but "abp" means OTAA.
    pub fn parse(d: &[u8]) -> (r: ConnectMode)
        ensures
            r == spec_parse_connect_mode(d@),
    {
        let t: [u8; 3] = [97, 98, 112];
        proof {
            assert(t@ =~= tok_abp());
        }
        if bytes_eq(d, &t) {
            ConnectMode::ABP
        } else {
            ConnectMode::OTAA
        }
    }
}

impl LoraMode {
    /// Append the token for this mode of operation: "0" or "1".
    pub fn encode(&self, s: &mut CommandBuffer)
        requires
            old(s).wf(),
            old(s)@.len() + spec_encode_lora_mode(*self).len() <= CMD_CAPACITY,
        ensures
            final(s).wf(),
            final(s)@ == old(s)@ + spec_encode_lora_mode(*self),
    {
        match self {
            LoraMode::WAN => {
                s.push_byte(48);
                proof {
                    assert(s@ =~= old(s)@ + spec_encode_lora_mode(*self));
                }
            },
            LoraMode::P2P => {
                s.push_byte(49);
                proof {
                    assert(s@ =~= old(s)@ + spec_encode_lora_mode(*self));
                }
            },
        }
    }

    /// Decode a mode token; anything but "1" means network mode.
    pub fn parse(d: &[u8]) -> (r: LoraMode)
        ensures
            r == spec_parse_lora_mode(d@),
    {
        let t: [u8; 1] = [49];
        proof {
            assert(t@ =~= seq![49u8]);
        }
        if bytes_eq(d, &t) {
            LoraMode::P2P
        } else {
            LoraMode::WAN
        }
    }
}

impl LoraRegion {
    /// Append the token naming this region.
    pub fn encode(&self, s: &mut CommandBuffer)
        requires
            old(s).wf(),
            old(s)@.len() + spec_encode_region(*self).len() <= CMD_CAPACITY,
        ensures
            final(s).wf(),
            final(s)@ == old(s)@ + spec_encode_region(*self),
    {
        match self {
            LoraRegion::EU868 => {
                let t: [u8; 5] = [69, 85, 56, 54, 56];
                proof {
                    assert(t@ =~= tok_eu868());
                }
                s.push_bytes(&t);
            },
            LoraRegion::US915 => {
                let t: [u8; 5] = [85, 83, 57, 49, 53];
                proof {
                    assert(t@ =~= tok_us915());
                }
                s.push_bytes(&t);
            },
            LoraRegion::AU915 => {
                let t: [u8; 5] = [65, 85, 57, 49, 53];
                proof {
                    assert(t@ =~= tok_au915());
                }
                s.push_bytes(&t);
            },
            LoraRegion::KR920 => {
                let t: [u8; 5] = [75, 82, 57, 50, 48];
                proof {
                    assert(t@ =~= tok_kr920());
                }
                s.push_bytes(&t);
            },
            LoraRegion::AS923 => {
                let t: [u8; 5] = [65, 83, 57, 50, 51];
                proof {
                    assert(t@ =~= tok_as923());
                }
                s.push_bytes(&t);
            },
            LoraRegion::IN865 => {
                let t: [u8; 5] = [73, 78, 56, 54, 53];
                proof {
                    assert(t@ =~= tok_in865());
                }
                s.push_bytes(&t);
            },
            LoraRegion::UNKNOWN => {
                let t: [u8; 7] = [85, 78, 75, 78, 79, 87, 78];
                proof {
                    assert(t@ =~= tok_unknown());
                }
                s.push_bytes(&t);
            },
        }
    }

    /// Decode a region token; a token not among the six known regions
    /// decodes to UNKNOWN rather than failing.
    pub fn parse(d: &[u8]) -> (r: LoraRegion)
        ensures
            r == spec_parse_region(d@),
    {
        let eu868: [u8; 5] = [69, 85, 56, 54, 56];
        let us915: [u8; 5] = [85, 83, 57, 49, 53];
        let au915: [u8; 5] = [65, 85, 57, 49, 53];
        let kr920: [u8; 5] = [75, 82, 57, 50, 48];
        let as923: [u8; 5] = [65, 83, 57, 50, 51];
        let in865: [u8; 5] = [73, 78, 56, 54, 53];
        proof {
            assert(eu868@ =~= tok_eu868());
            assert(us915@ =~= tok_us915());
            assert(au915@ =~= tok_au915());
            assert(kr920@ =~= tok_kr920());
            assert(as923@ =~= tok_as923());
            assert(in865@ =~= tok_in865());
        }
        if bytes_eq(d, &eu868) {
            LoraRegion::EU868
        } else if bytes_eq(d, &us915) {
            LoraRegion::US915
        } else if bytes_eq(d, &au915) {
            LoraRegion::AU915
        } else if bytes_eq(d, &kr920) {
            LoraRegion::KR920
        } else if bytes_eq(d, &as923) {
            LoraRegion::AS923
        } else if bytes_eq(d, &in865) {
            LoraRegion::IN865
        } else {
            LoraRegion::UNKNOWN
        }
    }
}

// ---------------------------------------------------------------------------
// Token decoding, as mathematics.
// ---------------------------------------------------------------------------

/// The join procedure named by a token; anything but "abp" means OTAA.
pub open spec fn spec_parse_connect_mode(s: Seq<u8>) -> ConnectMode {
    if s == tok_abp() {
        ConnectMode::ABP
    } else {
        ConnectMode::OTAA
    }
}

/// The mode of operation named by a token; anything but "1" means WAN.
pub open spec fn spec_parse_lora_mode(s: Seq<u8>) -> LoraMode {
    if s == seq![49u8] {
        LoraMode::P2P
    } else {
        LoraMode::WAN
    }
}

/// The region named by a token; an unknown token decodes to UNKNOWN.
pub open spec fn spec_parse_region(s: Seq<u8>) -> LoraRegion {
    if s == tok_eu868() {
        LoraRegion::EU868
    } else if s == tok_us915() {
        LoraRegion::US915
    } else if s == tok_au915() {
        LoraRegion::AU915
    } else if s == tok_kr920() {
        LoraRegion::KR920
    } else if s == tok_as923() {
        LoraRegion::AS923
    } else if s == tok_in865() {
        LoraRegion::IN865
    } else {
        LoraRegion::UNKNOWN
    }
}

/// Whether two byte slices hold the same bytes.
pub fn bytes_eq(a: &[u8], b: &[u8]) -> (r: bool)
    ensures
        r <==> a@ == b@,
{
    if a.len() != b.len() {
        return false;
    }
    let n = a.len();
    let mut i: usize = 0;
    while i < n
        invariant
            i <= n,
            n == a@.len(),
            n == b@.len(),
            forall|j: int| 0 <= j < i ==> a@[j] == b@[j],
        decreases n - i,
    {
        if a[i] != b[i] {
            return false;
        }
        i = i + 1;
    }
    proof {
        assert(a@ =~= b@);
    }
    true
}

// ---------------------------------------------------------------------------
// Laws: each wire token decodes back to the value that produced it.
// ---------------------------------------------------------------------------

/// Law: the join-procedure token round-trips through encode and parse.
pub proof fn lemma_connect_mode_round_trip(mode: ConnectMode)
    ensures
        spec_parse_connect_mode(spec_encode_connect_mode(mode)) == mode,
{
}

/// Law: the mode-of-operation token round-trips through encode and parse.
pub proof fn lemma_lora_mode_round_trip(mode: LoraMode)
    ensures
        spec_parse_lora_mode(spec_encode_lora_mode(mode)) == mode,
{
    match mode {
        LoraMode::WAN => {
            assert(spec_encode_lora_mode(mode)[0] != seq![49u8][0]);
        },
        LoraMode::P2P => {
        },
    }
}

/// Law: the region token round-trips through encode and parse, for the six
/// known regions and for UNKNOWN alike.
pub proof fn lemma_region_round_trip(region: LoraRegion)
    ensures
        spec_parse_region(spec_encode_region(region)) == region,
{
    match region {
        LoraRegion::EU868 => {
        },
        LoraRegion::US915 => {
            assert(tok_us915()[0] != tok_eu868()[0]);
        },
        LoraRegion::AU915 => {
            assert(tok_au915()[0] != tok_eu868()[0]);
            assert(tok_au915()[0] != tok_us915()[0]);
        },
        LoraRegion::KR920 => {
            assert(tok_kr920()[0] != tok_eu868()[0]);
            assert(tok_kr920()[0] != tok_us915()[0]);
            assert(tok_kr920()[0] != tok_au915()[0]);
        },
        LoraRegion::AS923 => {
            assert(tok_as923()[0] != tok_eu868()[0]);
            assert(tok_as923()[0] != tok_us915()[0]);
            assert(tok_as923()[1] != tok_au915()[1]);
            assert(tok_as923()[0] != tok_kr920()[0]);
        },
        LoraRegion::IN865 => {
            assert(tok_in865()[0] != tok_eu868()[0]);
            assert(tok_in865()[0] != tok_us915()[0]);
            assert(tok_in865()[0] != tok_au915()[0]);
            assert(tok_in865()[0] != tok_kr920()[0]);
            assert(tok_in865()[0] != tok_as923()[0]);
        },
        LoraRegion::UNKNOWN => {
        },
    }
}


} // verus!
