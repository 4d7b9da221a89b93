//! CH347 protocol constants and configuration.
use vstd::prelude::*;

verus! {

/// CH347T USB VID
pub const CH347_USB_VENDOR: u16 = 0x1A86;
/// CH347T USB PID (USB to UART+SPI+I2C)
pub const CH347T_USB_PRODUCT: u16 = 0x55DB;
/// CH347F USB PID (USB to UART+SPI+I2C+JTAG)
pub const CH347F_USB_PRODUCT: u16 = 0x55DE;
/// Bulk OUT endpoint for sending commands/data
pub const WRITE_EP: u8 = 0x06;
/// Bulk IN endpoint for receiving responses/data
pub const READ_EP: u8 = 0x86;
/// USB timeout in milliseconds
pub const USB_TIMEOUT_MS: u64 = 1000;
/// Maximum USB packet size (the vendor driver uses 510 of the 512 bytes)
pub const CH347_PACKET_SIZE: usize = 510;
/// Maximum data length per packet (packet size - 3 bytes for command header)
pub const CH347_MAX_DATA_LEN: usize = 507;
/// Set SPI configuration
pub const CH347_CMD_SPI_SET_CFG: u8 = 0xC0;
/// Control chip select lines
pub const CH347_CMD_SPI_CS_CTRL: u8 = 0xC1;
/// SPI bidirectional transfer (write then read)
pub const CH347_CMD_SPI_OUT_IN: u8 = 0xC2;
/// SPI read-only transfer
pub const CH347_CMD_SPI_IN: u8 = 0xC3;
/// SPI write-only transfer
pub const CH347_CMD_SPI_OUT: u8 = 0xC4;
/// Get current SPI configuration
pub const CH347_CMD_SPI_GET_CFG: u8 = 0xCA;
/// Assert (activate) chip select
pub const CH347_CS_ASSERT: u8 = 0x00;
/// Deassert (deactivate) chip select
pub const CH347_CS_DEASSERT: u8 = 0x40;
/// Actually change the CS state (required flag)
pub const CH347_CS_CHANGE: u8 = 0x80;
/// Ignore this CS line (for multi-chip configurations)
pub const CH347_CS_IGNORE: u8 = 0x00;

/// SPI clock divisor settings
///
/// The CH347 has a 120 MHz base clock, divided by powers of 2: setting `n`
/// divides it by 2^(n + 1), from 60 MHz (0) down to 468.75 kHz (7).
#[derive(Debug, Clone, Copy, PartialEq, Eq, Default, Structural)]
pub enum SpiSpeed {
    /// 60 MHz (divisor 0)
    Speed60M,
    /// 30 MHz (divisor 1)
    Speed30M,
    /// 15 MHz (divisor 2)
    Speed15M,
    /// 7.5 MHz (divisor 3, default - safe for most chips)
    #[default]
    Speed7_5M,
    /// 3.75 MHz (divisor 4)
    Speed3_75M,
    /// 1.875 MHz (divisor 5)
    Speed1_875M,
    /// 937.5 kHz (divisor 6)
    Speed937_5K,
    /// 468.75 kHz (divisor 7)
    Speed468_75K,
}

/// The base clock in kHz.
pub const CH347_BASE_KHZ: u32 = 120_000;

/// Power of two.
pub open spec fn pow2(n: nat) -> nat
    decreases n,
{
    if n == 0 { 1 } else { 2 * pow2((n - 1) as nat) }
}

/// The divisor setting of a speed.
pub open spec fn speed_setting(s: SpiSpeed) -> nat {
    match s {
        SpiSpeed::Speed60M => 0,
        SpiSpeed::Speed30M => 1,
        SpiSpeed::Speed15M => 2,
        SpiSpeed::Speed7_5M => 3,
        SpiSpeed::Speed3_75M => 4,
        SpiSpeed::Speed1_875M => 5,
        SpiSpeed::Speed937_5K => 6,
        SpiSpeed::Speed468_75K => 7,
    }
}

/// The speed of divisor setting `n` (0 to 7).
pub open spec fn speed_of_setting(n: nat) -> SpiSpeed {
    if n == 0 {
        SpiSpeed::Speed60M
    } else if n == 1 {
        SpiSpeed::Speed30M
    } else if n == 2 {
        SpiSpeed::Speed15M
    } else if n == 3 {
        SpiSpeed::Speed7_5M
    } else if n == 4 {
        SpiSpeed::Speed3_75M
    } else if n == 5 {
        SpiSpeed::Speed1_875M
    } else if n == 6 {
        SpiSpeed::Speed937_5K
    } else {
        SpiSpeed::Speed468_75K
    }
}

/// The clock in kHz at divisor setting `n` (0 to 7): 120 MHz divided by
/// 2^(n + 1), rounded down.
pub open spec fn setting_khz(n: nat) -> nat {
    if n == 0 {
        60_000
    } else if n == 1 {
        30_000
    } else if n == 2 {
        15_000
    } else if n == 3 {
        7_500
    } else if n == 4 {
        3_750
    } else if n == 5 {
        1_875
    } else if n == 6 {
        937
    } else {
        468
    }
}

/// The fastest speed that does not exceed `khz`, or the slowest speed when
/// every speed does.
pub open spec fn spec_from_khz(khz: u32) -> SpiSpeed {
    if setting_khz(0) <= khz {
        speed_of_setting(0)
    } else if setting_khz(1) <= khz {
        speed_of_setting(1)
    } else if setting_khz(2) <= khz {
        speed_of_setting(2)
    } else if setting_khz(3) <= khz {
        speed_of_setting(3)
    } else if setting_khz(4) <= khz {
        speed_of_setting(4)
    } else if setting_khz(5) <= khz {
        speed_of_setting(5)
    } else if setting_khz(6) <= khz {
        speed_of_setting(6)
    } else {
        speed_of_setting(7)
    }
}

/// The clock table is 120 MHz divided by 2^(n + 1).
proof fn lemma_setting_khz(n: nat, p: nat)
    requires
        n <= 7,
        p == pow2(n + 1),
    ensures
        setting_khz(n) == 120_000nat / p,
{
    reveal_with_fuel(pow2, 9);
    if n == 0 {
        assert(pow2(1) == 2);
        assert(120_000nat / p == 60_000) by (nonlinear_arith) requires p == 2;
    } else if n == 1 {
        assert(pow2(2) == 4);
        assert(120_000nat / p == 30_000) by (nonlinear_arith) requires p == 4;
    } else if n == 2 {
        assert(pow2(3) == 8);
        assert(120_000nat / p == 15_000) by (nonlinear_arith) requires p == 8;
    } else if n == 3 {
        assert(pow2(4) == 16);
        assert(120_000nat / p == 7_500) by (nonlinear_arith) requires p == 16;
    } else if n == 4 {
        assert(pow2(5) == 32);
        assert(120_000nat / p == 3_750) by (nonlinear_arith) requires p == 32;
    } else if n == 5 {
        assert(pow2(6) == 64);
        assert(120_000nat / p == 1_875) by (nonlinear_arith) requires p == 64;
    } else if n == 6 {
        assert(pow2(7) == 128);
        assert(120_000nat / p == 937) by (nonlinear_arith) requires p == 128;
    } else {
        assert(pow2(8) == 256);
        assert(120_000nat / p == 468) by (nonlinear_arith) requires p == 256;
    }
}

/// Converting a speed to kHz and back gives the same speed.
pub proof fn lemma_speed_khz_roundtrip(s: SpiSpeed)
    ensures
        setting_khz(speed_setting(s)) <= u32::MAX,
        spec_from_khz(setting_khz(speed_setting(s)) as u32) == s,
{
}

impl SpiSpeed {
    /// Convert a frequency in kHz to the closest divisor
    pub fn from_khz(khz: u32) -> (r: SpiSpeed)
        ensures
            r == spec_from_khz(khz),
    {
        let mut div: u32 = 0;
        while div <= 7
            invariant
                div <= 8,
                forall|d: nat| d < div ==> setting_khz(d) > khz,
            decreases 8 - div,
        {
            let p = shift_pow2(div + 1);
            let speed = CH347_BASE_KHZ / p;
            proof {
                lemma_setting_khz(div as nat, p as nat);
            }
            if speed <= khz {
                return speed_for_setting(div);
            }
            div += 1;
        }
        SpiSpeed::Speed468_75K
    }

    /// Get the actual speed in kHz for this divisor
    pub fn to_khz(self) -> (r: u32)
        ensures
            r == setting_khz(speed_setting(self)),
    {
        let d = self.divisor() as u32;
        let p = shift_pow2(d + 1);
        proof {
            lemma_setting_khz(d as nat, p as nat);
        }
        CH347_BASE_KHZ / p
    }

    /// Get the divisor value for the configuration register
    pub fn divisor(self) -> (r: u8)
        ensures
            r == speed_setting(self),
    {
        match self {
            SpiSpeed::Speed60M => 0,
            SpiSpeed::Speed30M => 1,
            SpiSpeed::Speed15M => 2,
            SpiSpeed::Speed7_5M => 3,
            SpiSpeed::Speed3_75M => 4,
            SpiSpeed::Speed1_875M => 5,
            SpiSpeed::Speed937_5K => 6,
            SpiSpeed::Speed468_75K => 7,
        }
    }
}

/// `1 << n` for `n` up to 8.
fn shift_pow2(n: u32) -> (r: u32)
    requires
        n <= 8,
    ensures
        r == pow2(n as nat),
        r > 0,
{
    proof {
        reveal_with_fuel(pow2, 9);
    }
    assert(1u32 << 0u32 == 1 && 1u32 << 1u32 == 2 && 1u32 << 2u32 == 4 && 1u32 << 3u32 == 8
        && 1u32 << 4u32 == 16 && 1u32 << 5u32 == 32 && 1u32 << 6u32 == 64 && 1u32 << 7u32 == 128
        && 1u32 << 8u32 == 256) by (bit_vector);
    1u32 << n
}

/// The speed of divisor setting `n`.
fn speed_for_setting(n: u32) -> (r: SpiSpeed)
    ensures
        r == speed_of_setting(n as nat),
{
    match n {
        0 => SpiSpeed::Speed60M,
        1 => SpiSpeed::Speed30M,
        2 => SpiSpeed::Speed15M,
        3 => SpiSpeed::Speed7_5M,
        4 => SpiSpeed::Speed3_75M,
        5 => SpiSpeed::Speed1_875M,
        6 => SpiSpeed::Speed937_5K,
        _ => SpiSpeed::Speed468_75K,
    }
}

/// SPI mode (clock polarity and phase)
#[derive(Debug, Clone, Copy, PartialEq, Eq, Default, Structural)]
pub enum SpiMode {
    /// Mode 0: CPOL=0, CPHA=0 (clock idle low, sample on rising edge)
    #[default]
    Mode0,
    /// Mode 1: CPOL=0, CPHA=1 (clock idle low, sample on falling edge)
    Mode1,
    /// Mode 2: CPOL=1, CPHA=0 (clock idle high, sample on falling edge)
    Mode2,
    /// Mode 3: CPOL=1, CPHA=1 (clock idle high, sample on rising edge)
    Mode3,
}

/// The number of a mode (0 to 3): CPOL in bit 1, CPHA in bit 0.
pub open spec fn mode_number(m: SpiMode) -> nat {
    match m {
        SpiMode::Mode0 => 0,
        SpiMode::Mode1 => 1,
        SpiMode::Mode2 => 2,
        SpiMode::Mode3 => 3,
    }
}

impl SpiMode {
    /// Get clock polarity (CPOL)
    pub fn cpol(self) -> (r: u8)
        ensures
            r == mode_number(self) / 2,
    {
        match self {
            SpiMode::Mode0 | SpiMode::Mode1 => 0,
            SpiMode::Mode2 | SpiMode::Mode3 => 1,
        }
    }

    /// Get clock phase (CPHA)
    pub fn cpha(self) -> (r: u8)
        ensures
            r == mode_number(self) % 2,
    {
        match self {
            SpiMode::Mode0 | SpiMode::Mode2 => 0,
            SpiMode::Mode1 | SpiMode::Mode3 => 1,
        }
    }
}

/// Which chip select line to use
#[derive(Debug, Clone, Copy, PartialEq, Eq, Default, Structural)]
pub enum ChipSelect {
    /// Use CS0 (default)
    #[default]
    CS0,
    /// Use CS1
    CS1,
}

/// SPI configuration for CH347
#[derive(Debug, Clone, Copy, PartialEq, Eq, Structural)]
pub struct SpiConfig {
    /// SPI clock speed
    pub speed: SpiSpeed,
    /// SPI mode (clock polarity and phase)
    pub mode: SpiMode,
    /// Which chip select to use
    pub cs: ChipSelect,
    /// Bit order: false = MSB first (standard), true = LSB first
    pub lsb_first: bool,
}

/// The 29-byte `CH347_CMD_SPI_SET_CFG` packet for a configuration: the
/// command, a 26-byte payload length, the vendor driver's fixed bytes, CPOL
/// at bit 1 of byte 9, CPHA at byte 11, the divisor at bits 5:3 of byte 15
/// and the bit order at bit 7 of byte 17.
pub open spec fn config_packet(c: SpiConfig) -> Seq<u8> {
    seq![
        0xC0u8, 26u8, 0u8, 0u8, 0u8, 4u8, 1u8, 0u8, 0u8,
        ((mode_number(c.mode) / 2) * 2) as u8, 0u8, (mode_number(c.mode) % 2) as u8, 0u8, 0u8, 2u8,
        (speed_setting(c.speed) * 8) as u8, 0u8, if c.lsb_first { 0x80u8 } else { 0u8 }, 0u8, 7u8,
        0u8, 0u8, 0u8, 0u8, 0u8, 0u8, 0u8, 0u8, 0u8,
    ]
}

impl Default for SpiConfig {
    fn default() -> (r: SpiConfig)
        ensures
            r.speed == SpiSpeed::Speed7_5M,
            r.mode == SpiMode::Mode0,
            r.cs == ChipSelect::CS0,
            !r.lsb_first,
    {
        SpiConfig { speed: SpiSpeed::Speed7_5M, mode: SpiMode::Mode0, cs: ChipSelect::CS0, lsb_first: false }
    }
}

impl SpiConfig {
    /// Create a new SPI configuration with default values
    pub fn new() -> (r: SpiConfig)
        ensures
            r.speed == SpiSpeed::Speed7_5M,
            r.mode == SpiMode::Mode0,
            r.cs == ChipSelect::CS0,
            !r.lsb_first,
    {
        SpiConfig { speed: SpiSpeed::Speed7_5M, mode: SpiMode::Mode0, cs: ChipSelect::CS0, lsb_first: false }
    }

    /// Set the SPI clock speed
    pub fn with_speed(self, speed: SpiSpeed) -> (r: SpiConfig)
        ensures
            r == (SpiConfig { speed, ..self }),
    {
        SpiConfig { speed, ..self }
    }

    /// Set the SPI clock speed from a frequency in kHz
    pub fn with_speed_khz(self, khz: u32) -> (r: SpiConfig)
        ensures
            r == (SpiConfig { speed: spec_from_khz(khz), ..self }),
    {
        SpiConfig { speed: SpiSpeed::from_khz(khz), ..self }
    }

    /// Set the SPI mode
    pub fn with_mode(self, mode: SpiMode) -> (r: SpiConfig)
        ensures
            r == (SpiConfig { mode, ..self }),
    {
        SpiConfig { mode, ..self }
    }

    /// Set which chip select to use
    pub fn with_cs(self, cs: ChipSelect) -> (r: SpiConfig)
        ensures
            r == (SpiConfig { cs, ..self }),
    {
        SpiConfig { cs, ..self }
    }

    /// Build the 29-byte configuration buffer for CH347_CMD_SPI_SET_CFG
    pub fn build_config_buffer(&self) -> (r: [u8; 29])
        ensures
            r@ == config_packet(*self),
    {
        let cpol = self.mode.cpol() * 2;
        let cpha = self.mode.cpha();
        let d = self.speed.divisor();
        assert(d & 7 == d) by (bit_vector)
            requires
                d < 8,
        ;
        let div = (d & 7) * 8;
        let order: u8 = if self.lsb_first { 0x80 } else { 0x00 };
        let r: [u8; 29] = [
            CH347_CMD_SPI_SET_CFG, 26, 0, 0, 0, 4, 1, 0, 0, cpol, 0, cpha, 0, 0, 2, div, 0, order, 0, 7,
            0, 0, 0, 0, 0, 0, 0, 0, 0,
        ];
        assert(r@ =~= config_packet(*self));
        r
    }
}

/// CH347 variant information
#[derive(Debug, Clone, Copy, PartialEq, Eq, Structural)]
pub enum Ch347Variant {
    /// CH347T: USB to UART+SPI+I2C
    Ch347T,
    /// CH347F: USB to UART+SPI+I2C+JTAG
    Ch347F,
}

/// The USB product ID of a variant.
pub open spec fn spec_product_id(v: Ch347Variant) -> u16 {
    match v {
        Ch347Variant::Ch347T => CH347T_USB_PRODUCT,
        Ch347Variant::Ch347F => CH347F_USB_PRODUCT,
    }
}

impl Ch347Variant {
    /// Get the USB product ID for this variant
    pub fn product_id(self) -> (r: u16)
        ensures
            r == spec_product_id(self),
    {
        match self {
            Ch347Variant::Ch347T => CH347T_USB_PRODUCT,
            Ch347Variant::Ch347F => CH347F_USB_PRODUCT,
        }
    }

    /// Detect variant from USB product ID
    pub fn from_product_id(pid: u16) -> (r: Option<Ch347Variant>)
        ensures
            match r {
                Some(v) => spec_product_id(v) == pid,
                None => pid != CH347T_USB_PRODUCT && pid != CH347F_USB_PRODUCT,
            },
    {
        if pid == CH347T_USB_PRODUCT {
            Some(Ch347Variant::Ch347T)
        } else if pid == CH347F_USB_PRODUCT {
            Some(Ch347Variant::Ch347F)
        } else {
            None
        }
    }
}

/// A variant is recognised again from its own product ID.
pub proof fn lemma_product_id_roundtrip(v: Ch347Variant)
    ensures
        spec_product_id(v) == CH347T_USB_PRODUCT || spec_product_id(v) == CH347F_USB_PRODUCT,
        spec_product_id(v) == CH347T_USB_PRODUCT ==> v == Ch347Variant::Ch347T,
        spec_product_id(v) == CH347F_USB_PRODUCT ==> v == Ch347Variant::Ch347F,
{
}

} // verus!
