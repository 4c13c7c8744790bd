//! Frame-buffer and diff-render engine for small pixel displays.
//!
//! Drawing code writes into a pending frame; the engine compares it with the
//! frame last sent to the display and produces the minimal ordered list of
//! display writes, then commits the pending frame.

pub mod driver;
pub mod frugger;
pub mod input;
pub mod onebit;
pub mod palette;
pub mod span;
pub mod surface;
pub mod util;

pub use frugger::Frugger;
pub use input::{ButtonState, FrugInputs};
pub use onebit::{BinaryColor, OneBit, Orientation};
pub use palette::Palette;
pub use span::Span;
pub use surface::Pixel;
pub use util::{Bencher, FrugTimer, RollingAverage};
