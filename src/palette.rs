//! The fixed sixteen-colour palette and its display colour values.
use vstd::prelude::*;

verus! {

/// The sixteen named colours a pixel of the four-bit buffer can hold.
#[derive(Copy, Clone, Debug, PartialEq, Eq, Structural, PartialOrd, Ord, Hash)]
pub enum Palette {
    Black,
    Purple,
    Red,
    Orange,
    Yellow,
    Lime,
    Green,
    Teal,
    NavyBlue,
    DarkBlue,
    Blue,
    LightBlue,
    White,
    LightGrey,
    DarkGrey,
    BlueGrey,
}

/// Number of palette entries.
pub const PALETTE_LEN: u8 = 16;

/// The index of a colour, in declaration order.
pub open spec fn index_of(p: Palette) -> u8 {
    match p {
        Palette::Black => 0,
        Palette::Purple => 1,
        Palette::Red => 2,
        Palette::Orange => 3,
        Palette::Yellow => 4,
        Palette::Lime => 5,
        Palette::Green => 6,
        Palette::Teal => 7,
        Palette::NavyBlue => 8,
        Palette::DarkBlue => 9,
        Palette::Blue => 10,
        Palette::LightBlue => 11,
        Palette::White => 12,
        Palette::LightGrey => 13,
        Palette::DarkGrey => 14,
        Palette::BlueGrey => 15,
    }
}

/// The colour with a given index, if the index is below sixteen.
pub open spec fn palette_at(i: int) -> Option<Palette> {
    if i == 0 {
        Some(Palette::Black)
    } else if i == 1 {
        Some(Palette::Purple)
    } else if i == 2 {
        Some(Palette::Red)
    } else if i == 3 {
        Some(Palette::Orange)
    } else if i == 4 {
        Some(Palette::Yellow)
    } else if i == 5 {
        Some(Palette::Lime)
    } else if i == 6 {
        Some(Palette::Green)
    } else if i == 7 {
        Some(Palette::Teal)
    } else if i == 8 {
        Some(Palette::NavyBlue)
    } else if i == 9 {
        Some(Palette::DarkBlue)
    } else if i == 10 {
        Some(Palette::Blue)
    } else if i == 11 {
        Some(Palette::LightBlue)
    } else if i == 12 {
        Some(Palette::White)
    } else if i == 13 {
        Some(Palette::LightGrey)
    } else if i == 14 {
        Some(Palette::DarkGrey)
    } else if i == 15 {
        Some(Palette::BlueGrey)
    } else {
        None
    }
}

/// The (red, green, blue) channels of each colour, five, six and five bits wide.
pub open spec fn channels_of(p: Palette) -> (u8, u8, u8) {
    match p {
        Palette::Black => (3, 7, 5),
        Palette::Purple => (11, 10, 11),
        Palette::Red => (22, 15, 10),
        Palette::Orange => (29, 31, 11),
        Palette::Yellow => (31, 51, 14),
        Palette::Lime => (20, 59, 14),
        Palette::Green => (7, 45, 12),
        Palette::Teal => (4, 28, 15),
        Palette::NavyBlue => (5, 13, 13),
        Palette::DarkBlue => (7, 23, 24),
        Palette::Blue => (8, 41, 30),
        Palette::LightBlue => (14, 59, 30),
        Palette::White => (30, 60, 30),
        Palette::LightGrey => (18, 43, 24),
        Palette::DarkGrey => (10, 27, 16),
        Palette::BlueGrey => (6, 15, 11),
    }
}

/// The 16-bit RGB565 word for red, green and blue channels: red in the top
/// five bits, green in the middle six, blue in the low five; excess high bits
/// of each channel are dropped.
pub open spec fn rgb565_word(r: u8, g: u8, b: u8) -> u16 {
    ((((r & 0x1f) as u16) << 11u16) | (((g & 0x3f) as u16) << 5u16) | ((b & 0x1f) as u16)) as u16
}

/// The display colour value of a palette colour.
pub open spec fn color_of(p: Palette) -> u16 {
    rgb565_word(channels_of(p).0, channels_of(p).1, channels_of(p).2)
}

/// Relies on embedded_graphics' `Rgb565::new` and `IntoStorage::into_storage`:
/// the colour is built by masking each channel and shifting it into place, and
/// its storage is that packed word.
#[verifier::external_body]
fn rgb565(r: u8, g: u8, b: u8) -> (w: u16)
    ensures
        w == rgb565_word(r, g, b),
{
    embedded_graphics::pixelcolor::IntoStorage::into_storage(
        embedded_graphics::pixelcolor::Rgb565::new(r, g, b),
    )
}

impl Palette {
    /// The colour with index `idx`, or `None` when `idx` is sixteen or more.
    pub fn from_index(idx: &u8) -> (r: Option<Palette>)
        ensures
            r == palette_at(*idx as int),
            r.is_some() <==> *idx < PALETTE_LEN,
            r.is_some() ==> index_of(r.unwrap()) == *idx,
    {
        match *idx {
            0 => Some(Palette::Black),
            1 => Some(Palette::Purple),
            2 => Some(Palette::Red),
            3 => Some(Palette::Orange),
            4 => Some(Palette::Yellow),
            5 => Some(Palette::Lime),
            6 => Some(Palette::Green),
            7 => Some(Palette::Teal),
            8 => Some(Palette::NavyBlue),
            9 => Some(Palette::DarkBlue),
            10 => Some(Palette::Blue),
            11 => Some(Palette::LightBlue),
            12 => Some(Palette::White),
            13 => Some(Palette::LightGrey),
            14 => Some(Palette::DarkGrey),
            15 => Some(Palette::BlueGrey),
            _ => None,
        }
    }

    /// The colour's index, as stored in a packed buffer.
    pub fn bits(&self) -> (r: u8)
        ensures
            r == index_of(*self),
            r < PALETTE_LEN,
    {
        match self {
            Palette::Black => 0,
            Palette::Purple => 1,
            Palette::Red => 2,
            Palette::Orange => 3,
            Palette::Yellow => 4,
            Palette::Lime => 5,
            Palette::Green => 6,
            Palette::Teal => 7,
            Palette::NavyBlue => 8,
            Palette::DarkBlue => 9,
            Palette::Blue => 10,
            Palette::LightBlue => 11,
            Palette::White => 12,
            Palette::LightGrey => 13,
            Palette::DarkGrey => 14,
            Palette::BlueGrey => 15,
        }
    }

    /// The red, green and blue channels of the colour.
    pub fn channels(&self) -> (r: (u8, u8, u8))
        ensures
            r == channels_of(*self),
    {
        match self {
            Palette::Black => (3, 7, 5),
            Palette::Purple => (11, 10, 11),
            Palette::Red => (22, 15, 10),
            Palette::Orange => (29, 31, 11),
            Palette::Yellow => (31, 51, 14),
            Palette::Lime => (20, 59, 14),
            Palette::Green => (7, 45, 12),
            Palette::Teal => (4, 28, 15),
            Palette::NavyBlue => (5, 13, 13),
            Palette::DarkBlue => (7, 23, 24),
            Palette::Blue => (8, 41, 30),
            Palette::LightBlue => (14, 59, 30),
            Palette::White => (30, 60, 30),
            Palette::LightGrey => (18, 43, 24),
            Palette::DarkGrey => (10, 27, 16),
            Palette::BlueGrey => (6, 15, 11),
        }
    }

    /// The display colour value (an RGB565 word) of the colour.
    pub fn color(&self) -> (r: u16)
        ensures
            r == color_of(*self),
    {
        let (red, green, blue) = self.channels();
        rgb565(red, green, blue)
    }
}

/// Every colour's index lies in `0..16` and leads back to the colour, and every
/// index in `0..16` names a colour whose index it is: the index mapping is a
/// bijection onto `0..16`.
pub proof fn lemma_index_bijection()
    ensures
        forall|p: Palette| #[trigger] index_of(p) < PALETTE_LEN && palette_at(index_of(p) as int) == Some(p),
        forall|i: int| 0 <= i < PALETTE_LEN ==> (#[trigger] palette_at(i)).is_some() && index_of(palette_at(i).unwrap()) == i,
        forall|i: int| !(0 <= i < PALETTE_LEN) ==> #[trigger] palette_at(i) is None,
{
}

} // verus!
