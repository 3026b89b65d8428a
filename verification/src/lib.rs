use vstd::prelude::*;

pub mod ansi;
pub mod compose;
pub mod controller;
pub mod draw;
pub mod logo;
pub mod payload;
pub mod probe;
pub mod qr;
pub mod state;
pub mod terminal;
pub mod surface;

verus! {

/// An RGB color as drawn into a pixel surface.
#[derive(Clone, Copy, Debug, PartialEq, Eq, Structural)]
pub struct Color {
    pub r: u8,
    pub g: u8,
    pub b: u8,
}

} // verus!
