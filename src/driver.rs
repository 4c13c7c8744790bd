//! What the colour panel's controller is sent: command codes, orientation
//! bytes, the argument bytes of an address window, and how a panel is told
//! apart by its identification registers.
use vstd::prelude::*;

verus! {

/// Commands of the panel controller.
#[derive(Clone, Copy, Debug, PartialEq, Eq, Structural)]
pub enum SpiCommand {
    SoftwareReset,
    SleepOut,
    DisplayOn,
    DisplayOff,
    ColumnAddressSet,
    PageAddressSet,
    MemoryWrite,
    MemoryAccessControl,
    PowerControl1,
    PowerControl2,
    PowerControlA,
    PowerControlB,
    PowerOnSeqControl,
    DriverTimingControlA,
    DriverTimingControlB,
    ColorSet,
    NormalModeOn,
    PixelFormatSet,
    PumpRatioControl,
    VCOMC1,
    VCOMC2,
    FrameRateControl,
    DisplayFunctionControl,
    Enable3G,
    GammaSet,
    PosGammaCorrection,
    NegGammaCorrection,
    WriteBrightness,
}

/// The byte that encodes each command.
pub open spec fn command_code(c: SpiCommand) -> u8 {
    match c {
        SpiCommand::SoftwareReset => 0x01,
        SpiCommand::SleepOut => 0x11,
        SpiCommand::DisplayOn => 0x29,
        SpiCommand::DisplayOff => 0x28,
        SpiCommand::ColumnAddressSet => 0x2A,
        SpiCommand::PageAddressSet => 0x2B,
        SpiCommand::MemoryWrite => 0x2C,
        SpiCommand::MemoryAccessControl => 0x36,
        SpiCommand::PowerControl1 => 0xC0,
        SpiCommand::PowerControl2 => 0xC1,
        SpiCommand::PowerControlA => 0xCB,
        SpiCommand::PowerControlB => 0xCF,
        SpiCommand::PowerOnSeqControl => 0xED,
        SpiCommand::DriverTimingControlA => 0xE8,
        SpiCommand::DriverTimingControlB => 0xEA,
        SpiCommand::ColorSet => 0x2D,
        SpiCommand::NormalModeOn => 0x13,
        SpiCommand::PixelFormatSet => 0x3A,
        SpiCommand::PumpRatioControl => 0xF7,
        SpiCommand::VCOMC1 => 0xC5,
        SpiCommand::VCOMC2 => 0xC7,
        SpiCommand::FrameRateControl => 0xB1,
        SpiCommand::DisplayFunctionControl => 0xB6,
        SpiCommand::Enable3G => 0xF2,
        SpiCommand::GammaSet => 0x26,
        SpiCommand::PosGammaCorrection => 0xE0,
        SpiCommand::NegGammaCorrection => 0xE1,
        SpiCommand::WriteBrightness => 0x51,
    }
}

impl SpiCommand {
    /// The byte that encodes the command.
    pub fn code(&self) -> (r: u8)
        ensures
            r == command_code(*self),
    {
        match self {
            SpiCommand::SoftwareReset => 0x01,
            SpiCommand::SleepOut => 0x11,
            SpiCommand::DisplayOn => 0x29,
            SpiCommand::DisplayOff => 0x28,
            SpiCommand::ColumnAddressSet => 0x2A,
            SpiCommand::PageAddressSet => 0x2B,
            SpiCommand::MemoryWrite => 0x2C,
            SpiCommand::MemoryAccessControl => 0x36,
            SpiCommand::PowerControl1 => 0xC0,
            SpiCommand::PowerControl2 => 0xC1,
            SpiCommand::PowerControlA => 0xCB,
            SpiCommand::PowerControlB => 0xCF,
            SpiCommand::PowerOnSeqControl => 0xED,
            SpiCommand::DriverTimingControlA => 0xE8,
            SpiCommand::DriverTimingControlB => 0xEA,
            SpiCommand::ColorSet => 0x2D,
            SpiCommand::NormalModeOn => 0x13,
            SpiCommand::PixelFormatSet => 0x3A,
            SpiCommand::PumpRatioControl => 0xF7,
            SpiCommand::VCOMC1 => 0xC5,
            SpiCommand::VCOMC2 => 0xC7,
            SpiCommand::FrameRateControl => 0xB1,
            SpiCommand::DisplayFunctionControl => 0xB6,
            SpiCommand::Enable3G => 0xF2,
            SpiCommand::GammaSet => 0x26,
            SpiCommand::PosGammaCorrection => 0xE0,
            SpiCommand::NegGammaCorrection => 0xE1,
            SpiCommand::WriteBrightness => 0x51,
        }
    }
}

/// How the colour panel scans its memory. The memory-access-control byte
/// holds BGR order (0x08) always, row/column exchange (0x20), column mirror
/// (0x40) and row mirror (0x80).
#[derive(Clone, Copy, Debug, PartialEq, Eq, Structural)]
pub enum Orientation {
    Portrait,
    PortraitFlipped,
    Landscape,
    LandscapeFlipped,
}

/// The memory-access-control byte of each orientation.
pub open spec fn orientation_byte(o: Orientation) -> u8 {
    match o {
        Orientation::Portrait => 0x48,
        Orientation::PortraitFlipped => 0x88,
        Orientation::Landscape => 0x28,
        Orientation::LandscapeFlipped => 0xE8,
    }
}

impl Orientation {
    /// The memory-access-control byte of the orientation.
    pub fn bits(&self) -> (r: u8)
        ensures
            r == orientation_byte(*self),
    {
        match self {
            Orientation::Portrait => 0x48,
            Orientation::PortraitFlipped => 0x88,
            Orientation::Landscape => 0x28,
            Orientation::LandscapeFlipped => 0xE8,
        }
    }
}

/// The four argument bytes of a column or page address set for the range
/// `start..=end`: each bound big-endian, the start first.
pub fn window_bytes(start: u16, end: u16) -> (r: [u8; 4])
    ensures
        r@.len() == 4,
        r@[0] * 256 + r@[1] == start,
        r@[2] * 256 + r@[3] == end,
{
    let r = [(start >> 8) as u8, (start & 0xff) as u8, (end >> 8) as u8, (end & 0xff) as u8];
    assert(((start >> 8) as u8) * 256 + ((start & 0xff) as u8) == start) by (bit_vector);
    assert(((end >> 8) as u8) * 256 + ((end & 0xff) as u8) == end) by (bit_vector);
    r
}

/// The panels the identification registers tell apart.
#[derive(Clone, Copy, Debug, PartialEq, Eq, Structural)]
pub enum DisplayKind {
    Ili9341,
    St7789v,
    Unknown,
}

/// Whether the three bytes read from register 0x04 name an ILI9341.
pub open spec fn is_ili9341_id(id: [u8; 3]) -> bool {
    id@ == seq![0x93u8, 0x41u8, 0x00u8]
}

/// Whether the first bytes read from registers 0xDA, 0xDB and 0xDC name an
/// ST7789V.
pub open spec fn is_st7789v_id(id1: u8, id2: u8, id3: u8) -> bool {
    id1 == 0x85 && id2 == 0x85 && id3 == 0x52
}

/// Whether the bytes read from register 0x04 name an ILI9341.
pub fn ili9341_matches(id: &[u8; 3]) -> (r: bool)
    ensures
        r == is_ili9341_id(*id),
{
    let r = id[0] == 0x93 && id[1] == 0x41 && id[2] == 0x00;
    assert(r ==> id@ =~= seq![0x93u8, 0x41u8, 0x00u8]);
    r
}

/// Which panel the identification registers name: an ILI9341 when register
/// 0x04 reads 93 41 00, else an ST7789V when registers 0xDA, 0xDB and 0xDC
/// start with 85, 85 and 52, else unknown.
pub fn classify_display(ili_id: &[u8; 3], st_id1: u8, st_id2: u8, st_id3: u8) -> (r: DisplayKind)
    ensures
        r == if is_ili9341_id(*ili_id) {
            DisplayKind::Ili9341
        } else if is_st7789v_id(st_id1, st_id2, st_id3) {
            DisplayKind::St7789v
        } else {
            DisplayKind::Unknown
        },
{
    if ili9341_matches(ili_id) {
        DisplayKind::Ili9341
    } else if st_id1 == 0x85 && st_id2 == 0x85 && st_id3 == 0x52 {
        DisplayKind::St7789v
    } else {
        DisplayKind::Unknown
    }
}

impl DisplayKind {
    /// The panel's name as its datasheet gives it.
    pub fn name(&self) -> (r: &'static str)
        ensures
            r@ == match *self {
                DisplayKind::Ili9341 => "ILI9341"@,
                DisplayKind::St7789v => "ST7789V"@,
                DisplayKind::Unknown => "Unknown"@,
            },
    {
        match self {
            DisplayKind::Ili9341 => "ILI9341",
            DisplayKind::St7789v => "ST7789V",
            DisplayKind::Unknown => "Unknown",
        }
    }
}

} // verus!
