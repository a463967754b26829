//! Driver logic for Avago HCMS-29xx/39xx dot-matrix LED displays (4 to 8
//! characters of 5x7 dots, daisy-chainable), with an infrared proximity
//! reading shown on the display.
//!
//! The library keeps the display's state (dot register, text, cursor) and
//! produces the exact sequence of pin levels and delays that the display must
//! receive, as a list of [`wire::Signal`]s; the program around it drives the
//! pins with that list.

pub mod font;
pub mod wire;
pub mod display;
pub mod reading;
pub mod laws;
