use frugger::driver::{classify_display, ili9341_matches, window_bytes, DisplayKind, Orientation, SpiCommand};

#[test]
fn command_codes() {
    assert_eq!(SpiCommand::SoftwareReset.code(), 0x01);
    assert_eq!(SpiCommand::ColumnAddressSet.code(), 0x2A);
    assert_eq!(SpiCommand::PageAddressSet.code(), 0x2B);
    assert_eq!(SpiCommand::MemoryWrite.code(), 0x2C);
    assert_eq!(SpiCommand::MemoryAccessControl.code(), 0x36);
    assert_eq!(SpiCommand::PowerControlB.code(), 0xCF);
    assert_eq!(SpiCommand::WriteBrightness.code(), 0x51);
}

#[test]
fn orientation_bytes() {
    assert_eq!(Orientation::Portrait.bits(), 0x40 | 0x08);
    assert_eq!(Orientation::PortraitFlipped.bits(), 0x80 | 0x08);
    assert_eq!(Orientation::Landscape.bits(), 0x20 | 0x08);
    assert_eq!(Orientation::LandscapeFlipped.bits(), 0x40 | 0x80 | 0x20 | 0x08);
}

#[test]
fn window_bytes_are_big_endian() {
    assert_eq!(window_bytes(0, 319), [0x00, 0x00, 0x01, 0x3F]);
    assert_eq!(window_bytes(0, 239), [0x00, 0x00, 0x00, 0xEF]);
    assert_eq!(window_bytes(0x1234, 0xFFFF), [0x12, 0x34, 0xFF, 0xFF]);
}

#[test]
fn display_identification() {
    assert!(ili9341_matches(&[0x93, 0x41, 0x00]));
    assert!(!ili9341_matches(&[0x93, 0x41, 0x01]));
    assert_eq!(classify_display(&[0x93, 0x41, 0x00], 0x85, 0x85, 0x52), DisplayKind::Ili9341);
    assert_eq!(classify_display(&[0, 0, 0], 0x85, 0x85, 0x52), DisplayKind::St7789v);
    assert_eq!(classify_display(&[0, 0, 0], 0x85, 0x85, 0x53), DisplayKind::Unknown);
    assert_eq!(DisplayKind::Ili9341.name(), "ILI9341");
    assert_eq!(DisplayKind::St7789v.name(), "ST7789V");
    assert_eq!(DisplayKind::Unknown.name(), "Unknown");
}
