//! CH347 programmer options and device descriptions.
use vstd::prelude::*;
use vstd::string::StrSliceExecFns;
use crate::layout::fmap::decimal;
use crate::layout::toml::{format_decimal, format_message, parse_decimal_u32, push_str, spec_parse_u32};
use super::protocol::{
    spec_from_khz, Ch347Variant, ChipSelect, SpiConfig, SpiMode, SpiSpeed, CH347_CMD_SPI_CS_CTRL, CH347_CMD_SPI_IN,
    CH347_CMD_SPI_OUT, CH347_CS_ASSERT, CH347_CS_CHANGE, CH347_CS_DEASSERT, CH347_CS_IGNORE, CH347_MAX_DATA_LEN,
};

verus! {

/// Errors of the CH347 programmer.
#[derive(Debug, Clone, PartialEq, Eq)]
pub enum Ch347Error {
    /// No CH347 device was found
    DeviceNotFound,
    /// Opening the USB device failed
    OpenFailed(String),
    /// Claiming the USB interface failed
    ClaimFailed(String),
    /// A USB transfer failed
    TransferFailed(String),
    /// The device answered with a malformed response
    InvalidResponse(String),
    /// A programmer option is invalid
    ConfigError(String),
}

/// `str` equality: the same characters in the same order.
fn str_eq(a: &str, b: &str) -> (r: bool)
    ensures
        r == (a@ == b@),
{
    let n = a.unicode_len();
    if n != b.unicode_len() {
        return false;
    }
    let mut i: usize = 0;
    while i < n
        invariant
            n == a@.len(),
            n == b@.len(),
            i <= n,
            forall|k: int| 0 <= k < i ==> a@[k] == b@[k],
        decreases n - i,
    {
        if a.get_char(i) != b.get_char(i) {
            return false;
        }
        i = i + 1;
    }
    assert(a@ =~= b@);
    true
}

/// The configuration options start from.
pub open spec fn default_config() -> SpiConfig {
    SpiConfig { speed: SpiSpeed::Speed7_5M, mode: SpiMode::Mode0, cs: ChipSelect::CS0, lsb_first: false }
}

/// The SPI mode numbered `m` (0 to 3).
pub open spec fn mode_of(m: u32) -> SpiMode {
    if m == 0 {
        SpiMode::Mode0
    } else if m == 1 {
        SpiMode::Mode1
    } else if m == 2 {
        SpiMode::Mode2
    } else {
        SpiMode::Mode3
    }
}

/// One option applied to `config`: `spispeed` (kHz), `spimode` (0 to 3)
/// and `cs` (0 or 1) set their field; any other key is ignored. A value
/// that is not a number (of at most 255 for the mode and chip select), or
/// out of range, is an error with its message.
pub open spec fn option_result(config: SpiConfig, key: Seq<char>, value: Seq<char>) -> Result<SpiConfig, Seq<char>> {
    if key == "spispeed"@ {
        match spec_parse_u32(value, 10) {
            Some(khz) => Ok(SpiConfig { speed: spec_from_khz(khz), ..config }),
            None => Err("Invalid spispeed value: "@ + value),
        }
    } else if key == "spimode"@ {
        match spec_parse_u32(value, 10) {
            Some(m) => if m > 255 {
                Err("Invalid spimode value: "@ + value)
            } else if m <= 3 {
                Ok(SpiConfig { mode: mode_of(m), ..config })
            } else {
                Err("Invalid spimode: "@ + decimal(m as nat) + " (must be 0-3)"@)
            },
            None => Err("Invalid spimode value: "@ + value),
        }
    } else if key == "cs"@ {
        match spec_parse_u32(value, 10) {
            Some(c) => if c > 255 {
                Err("Invalid cs value: "@ + value)
            } else if c <= 1 {
                Ok(SpiConfig { cs: if c == 0 { ChipSelect::CS0 } else { ChipSelect::CS1 }, ..config })
            } else {
                Err("Invalid cs: "@ + decimal(c as nat) + " (must be 0 or 1)"@)
            },
            None => Err("Invalid cs value: "@ + value),
        }
    } else {
        Ok(config)
    }
}

/// The options as pairs of texts.
pub open spec fn option_texts(options: Seq<(&str, &str)>) -> Seq<(Seq<char>, Seq<char>)> {
    Seq::new(options.len(), |i: int| (options[i].0@, options[i].1@))
}

/// The first `n` options applied in order to the default configuration;
/// the first error stops.
pub open spec fn options_result(opts: Seq<(Seq<char>, Seq<char>)>, n: nat) -> Result<SpiConfig, Seq<char>>
    decreases n,
{
    if n == 0 {
        Ok(default_config())
    } else {
        match options_result(opts, (n - 1) as nat) {
            Ok(c) => option_result(c, opts[n - 1].0, opts[n - 1].1),
            Err(e) => Err(e),
        }
    }
}

/// The error of an option, formatted as the message of a config error.
fn config_error(prefix: &str, value: &str) -> (r: Ch347Error)
    ensures
        r matches Ch347Error::ConfigError(m) && m@ == prefix@ + value@,
{
    Ch347Error::ConfigError(format_message(prefix, value))
}

/// The error of an out-of-range number.
fn range_error(prefix: &str, n: u32, suffix: &str) -> (r: Ch347Error)
    ensures
        r matches Ch347Error::ConfigError(m) && m@ == prefix@ + decimal(n as nat) + suffix@,
{
    let digits = format_decimal(n);
    let mut m = format_message(prefix, digits.as_str());
    push_str(&mut m, suffix);
    Ch347Error::ConfigError(m)
}

/// Apply one option to `config`.
fn apply_option(config: SpiConfig, key: &str, value: &str) -> (r: Result<SpiConfig, Ch347Error>)
    ensures
        match option_result(config, key@, value@) {
            Ok(c) => r == Ok::<SpiConfig, Ch347Error>(c),
            Err(m) => r matches Err(Ch347Error::ConfigError(s)) && s@ == m,
        },
{
    if str_eq(key, "spispeed") {
        match parse_decimal_u32(value) {
            Some(khz) => Ok(SpiConfig { speed: SpiSpeed::from_khz(khz), ..config }),
            None => Err(config_error("Invalid spispeed value: ", value)),
        }
    } else if str_eq(key, "spimode") {
        match parse_decimal_u32(value) {
            Some(m) => {
                if m > 255 {
                    Err(config_error("Invalid spimode value: ", value))
                } else if m <= 3 {
                    let mode = if m == 0 {
                        SpiMode::Mode0
                    } else if m == 1 {
                        SpiMode::Mode1
                    } else if m == 2 {
                        SpiMode::Mode2
                    } else {
                        SpiMode::Mode3
                    };
                    Ok(SpiConfig { mode, ..config })
                } else {
                    Err(range_error("Invalid spimode: ", m, " (must be 0-3)"))
                }
            },
            None => Err(config_error("Invalid spimode value: ", value)),
        }
    } else if str_eq(key, "cs") {
        match parse_decimal_u32(value) {
            Some(c) => {
                if c > 255 {
                    Err(config_error("Invalid cs value: ", value))
                } else if c <= 1 {
                    let cs = if c == 0 { ChipSelect::CS0 } else { ChipSelect::CS1 };
                    Ok(SpiConfig { cs, ..config })
                } else {
                    Err(range_error("Invalid cs: ", c, " (must be 0 or 1)"))
                }
            },
            None => Err(config_error("Invalid cs value: ", value)),
        }
    } else {
        Ok(config)
    }
}

/// Parse programmer options for CH347
///
/// Supported options:
/// - `spispeed=<khz>`: SPI clock speed in kHz (default: 7500)
/// - `spimode=<0-3>`: SPI mode (default: 0)
/// - `cs=<0|1>`: Which chip select to use (default: 0)
///
/// Options apply in order; unknown options are ignored.
pub fn parse_options(options: &[(&str, &str)]) -> (r: Result<SpiConfig, Ch347Error>)
    ensures
        match options_result(option_texts(options@), options@.len()) {
            Ok(c) => r == Ok::<SpiConfig, Ch347Error>(c),
            Err(m) => r matches Err(Ch347Error::ConfigError(s)) && s@ == m,
        },
{
    let mut config = SpiConfig::default();
    let ghost opts = option_texts(options@);
    let n = options.len();
    let mut i: usize = 0;
    while i < n
        invariant
            n == options@.len(),
            opts == option_texts(options@),
            i <= n,
            options_result(opts, i as nat) == Ok::<SpiConfig, Seq<char>>(config),
        decreases n - i,
    {
        let (key, value) = options[i];
        assert(opts[i as int] == (key@, value@));
        match apply_option(config, key, value) {
            Ok(c) => {
                config = c;
            },
            Err(e) => {
                proof {
                    lemma_options_error_stays(opts, (i + 1) as nat, n as nat);
                }
                return Err(e);
            },
        }
        i += 1;
    }
    Ok(config)
}

/// Once an option fails, the options after it do not matter.
proof fn lemma_options_error_stays(opts: Seq<(Seq<char>, Seq<char>)>, k: nat, n: nat)
    requires
        k <= n,
        options_result(opts, k) is Err,
    ensures
        options_result(opts, n) == options_result(opts, k),
    decreases n - k,
{
    if k < n {
        lemma_options_error_stays(opts, k, (n - 1) as nat);
    }
}

/// Information about a connected CH347 device
#[derive(Debug, Clone)]
pub struct Ch347DeviceInfo {
    /// USB bus number
    pub bus: u8,
    /// USB device address
    pub address: u8,
    /// Device variant
    pub variant: Ch347Variant,
}

impl Ch347DeviceInfo {
    /// How the device is shown: `CH347T at bus <bus> address <address>`
    /// (or `CH347F`).
    pub open spec fn text(self) -> Seq<char> {
        "CH347"@ + (if self.variant == Ch347Variant::Ch347T { "T"@ } else { "F"@ }) + " at bus "@
            + decimal(self.bus as nat) + " address "@ + decimal(self.address as nat)
    }

    /// The device as text.
    pub fn to_string(&self) -> (r: String)
        ensures
            r@ == self.text(),
    {
        let letter = if self.variant == Ch347Variant::Ch347T { "T" } else { "F" };
        let mut s = format_message("CH347", letter);
        push_str(&mut s, " at bus ");
        let bus = format_decimal(self.bus as u32);
        push_str(&mut s, bus.as_str());
        push_str(&mut s, " address ");
        let address = format_decimal(self.address as u32);
        push_str(&mut s, address.as_str());
        s
    }
}

/// The chip select control packet: the command, a payload length of 10,
/// then the control byte of CS0 and of CS1, each followed by four zero
/// bytes. The line in use is asserted or deasserted (with the change flag);
/// the other is ignored.
pub open spec fn spec_cs_control_packet(cs: ChipSelect, assert: bool) -> Seq<u8> {
    let v: u8 = if assert { CH347_CS_ASSERT | CH347_CS_CHANGE } else { CH347_CS_DEASSERT | CH347_CS_CHANGE };
    let (cs0, cs1) = match cs {
        ChipSelect::CS0 => (v, CH347_CS_IGNORE),
        ChipSelect::CS1 => (CH347_CS_IGNORE, v),
    };
    seq![CH347_CMD_SPI_CS_CTRL, 10u8, 0u8, cs0, 0u8, 0u8, 0u8, 0u8, cs1, 0u8, 0u8, 0u8, 0u8]
}

/// Build the chip select control packet.
pub fn cs_control_packet(cs: ChipSelect, assert: bool) -> (r: [u8; 13])
    ensures
        r@ == spec_cs_control_packet(cs, assert),
{
    let v: u8 = if assert { CH347_CS_ASSERT | CH347_CS_CHANGE } else { CH347_CS_DEASSERT | CH347_CS_CHANGE };
    let mut cmd = [0u8; 13];
    cmd[0] = CH347_CMD_SPI_CS_CTRL;
    cmd[1] = 10;
    cmd[2] = 0;
    match cs {
        ChipSelect::CS0 => {
            cmd[3] = v;
            cmd[8] = CH347_CS_IGNORE;
        },
        ChipSelect::CS1 => {
            cmd[3] = CH347_CS_IGNORE;
            cmd[8] = v;
        },
    }
    assert(cmd@ =~= spec_cs_control_packet(cs, assert));
    cmd
}

/// The packet that writes `chunk` (at most `CH347_MAX_DATA_LEN` bytes):
/// the command, the length low byte first, then the data.
pub open spec fn spec_out_packet(chunk: Seq<u8>) -> Seq<u8> {
    seq![CH347_CMD_SPI_OUT, (chunk.len() % 256) as u8, (chunk.len() / 256) as u8] + chunk
}

/// The packets that write `data`: chunks of `CH347_MAX_DATA_LEN` bytes,
/// the last one shorter.
pub open spec fn spec_out_packets(data: Seq<u8>) -> Seq<Seq<u8>> {
    let m = CH347_MAX_DATA_LEN as int;
    Seq::new(((data.len() + m - 1) / m) as nat, |k: int| spec_out_packet(
        data.subrange(k * m, if (k + 1) * m < data.len() { (k + 1) * m } else { data.len() as int }),
    ))
}

/// Frame `data` into write packets.
pub fn out_packets(data: &[u8]) -> (r: Vec<Vec<u8>>)
    ensures
        r@.len() == spec_out_packets(data@).len(),
        forall|k: int| 0 <= k < r@.len() ==> #[trigger] r@[k]@ == spec_out_packets(data@)[k],
{
    let n = data.len();
    let m = CH347_MAX_DATA_LEN;
    let ghost want = spec_out_packets(data@);
    let mut packets: Vec<Vec<u8>> = Vec::new();
    let mut written: usize = 0;
    while written < n
        invariant
            n == data@.len(),
            m == CH347_MAX_DATA_LEN,
            written <= n,
            written < n ==> written == packets@.len() * m,
            written == n ==> packets@.len() == (n as int + m as int - 1) / (m as int),
            want == spec_out_packets(data@),
            want.len() == (n as int + m as int - 1) / (m as int),
            forall|k: int| 0 <= k < packets@.len() ==> #[trigger] packets@[k]@ == want[k],
        decreases n - written,
    {
        let chunk_len = if n - written < m { n - written } else { m };
        let mut packet: Vec<u8> = Vec::new();
        packet.push(CH347_CMD_SPI_OUT);
        packet.push((chunk_len % 256) as u8);
        packet.push((chunk_len / 256) as u8);
        let mut i: usize = 0;
        while i < chunk_len
            invariant
                n == data@.len(),
                written + chunk_len <= n,
                i <= chunk_len,
                packet@ == seq![CH347_CMD_SPI_OUT, (chunk_len % 256) as u8, (chunk_len / 256) as u8]
                    + data@.subrange(written as int, written + i),
            decreases chunk_len - i,
        {
            packet.push(data[written + i]);
            assert(data@.subrange(written as int, written + i + 1) =~= data@.subrange(written as int, written + i).push(
                data@[written + i],
            ));
            i += 1;
        }
        proof {
            let k = packets@.len() as int;
            let w = written as int;
            let c = chunk_len as int;
            let nn = n as int;
            let mm = m as int;
            assert((k + 1) * mm == w + mm) by (nonlinear_arith)
                requires
                    k * mm == w,
            ;
            assert(k < (nn + mm - 1) / mm) by (nonlinear_arith)
                requires
                    k * mm == w,
                    w < nn,
                    mm == 507,
            ;
            assert(packet@ =~= want[k]);
            if w + c == nn {
                assert((nn + mm - 1) / mm == k + 1) by (nonlinear_arith)
                    requires
                        k * mm == w,
                        nn == w + c,
                        1 <= c <= mm,
                        mm == 507,
                ;
            }
        }
        packets.push(packet);
        written += chunk_len;
    }
    packets
}

/// The command that reads `count` bytes: the command, a payload length
/// of 4, then the count, least significant byte first (its low 32 bits).
pub open spec fn spec_in_command(count: usize) -> Seq<u8> {
    seq![
        CH347_CMD_SPI_IN,
        4u8,
        0u8,
        (count as int % 0x100) as u8,
        ((count as int / 0x100) % 0x100) as u8,
        ((count as int / 0x1_0000) % 0x100) as u8,
        ((count as int / 0x100_0000) % 0x100) as u8,
    ]
}

/// Build the read command.
pub fn in_command(count: usize) -> (r: [u8; 7])
    ensures
        r@ == spec_in_command(count),
{
    let r = [
        CH347_CMD_SPI_IN,
        4,
        0,
        (count % 0x100) as u8,
        ((count / 0x100) % 0x100) as u8,
        ((count / 0x1_0000) % 0x100) as u8,
        ((count / 0x100_0000) % 0x100) as u8,
    ];
    assert(r@ =~= spec_in_command(count));
    r
}

/// How many bytes of a read response packet are data to keep: the
/// packet's stated length, limited to what is still to be read. A packet
/// shorter than its header, or than its stated length, is an invalid
/// response.
pub open spec fn spec_in_payload(packet: Seq<u8>, received: int, remaining: int) -> Result<int, Seq<char>> {
    if received < 3 {
        Err("Response too short"@)
    } else {
        let data_len = packet[1] as int + packet[2] as int * 256;
        if received < 3 + data_len {
            Err("Incomplete response: got "@ + decimal(received as nat) + " bytes, expected "@ + decimal((3 + data_len) as nat))
        } else if data_len < remaining {
            Ok(data_len)
        } else {
            Ok(remaining)
        }
    }
}

/// The data length of a read response packet of which `received` bytes
/// arrived, with `remaining` bytes still to read.
pub fn in_payload(packet: &[u8], received: usize, remaining: usize) -> (r: Result<usize, Ch347Error>)
    requires
        received < 3 || packet@.len() >= 3,
        received <= u32::MAX,
    ensures
        match spec_in_payload(packet@, received as int, remaining as int) {
            Ok(n) => r == Ok::<usize, Ch347Error>(n as usize),
            Err(m) => r matches Err(Ch347Error::InvalidResponse(s)) && s@ == m,
        },
{
    if received < 3 {
        let m = format_message("Response too short", "");
        proof {
            reveal_strlit("");
            assert("Response too short"@ + ""@ =~= "Response too short"@);
        }
        return Err(Ch347Error::InvalidResponse(m));
    }
    let data_len = packet[1] as usize + packet[2] as usize * 256;
    if received < 3 + data_len {
        let got = format_decimal(received as u32);
        let mut m = format_message("Incomplete response: got ", got.as_str());
        push_str(&mut m, " bytes, expected ");
        let expected = format_decimal((3 + data_len) as u32);
        push_str(&mut m, expected.as_str());
        return Err(Ch347Error::InvalidResponse(m));
    }
    Ok(if data_len < remaining { data_len } else { remaining })
}

} // verus!
