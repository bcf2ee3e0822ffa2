//! Colours, pixels and the frame model shared by both renderers.

pub mod ffmpeg;
pub mod frame;
pub mod panel;

use vstd::prelude::*;

verus! {

/// One of the four colours that the LED panel can show.
#[derive(Clone, Copy, Debug, PartialEq, Eq, Structural)]
pub enum Color {
    Blank,
    Red,
    Orange,
    Green,
}

/// A true-colour pixel.
#[derive(Clone, Copy, Debug, PartialEq, Eq, Structural)]
pub struct Pixel {
    pub red: u8,
    pub green: u8,
    pub blue: u8,
}

/// What a caller may paint into a framebuffer: a named colour or a raw pixel.
#[derive(Clone, Copy, Debug, PartialEq, Eq, Structural)]
pub enum ColorTypes {
    Color(Color),
    Pixel(Pixel),
}

/// The true-colour value of a named colour.
pub open spec fn spec_rgb(c: Color) -> Pixel {
    match c {
        Color::Blank => Pixel { red: 0, green: 0, blue: 0 },
        Color::Red => Pixel { red: 255, green: 0, blue: 0 },
        Color::Orange => Pixel { red: 255, green: 200, blue: 0 },
        Color::Green => Pixel { red: 0, green: 255, blue: 0 },
    }
}

impl Color {
    /// The true-colour value of this colour.
    pub fn to_pixel(self) -> (p: Pixel)
        ensures
            p == spec_rgb(self),
    {
        match self {
            Color::Blank => Pixel { red: 0, green: 0, blue: 0 },
            Color::Red => Pixel { red: 255, green: 0, blue: 0 },
            Color::Orange => Pixel { red: 255, green: 200, blue: 0 },
            Color::Green => Pixel { red: 0, green: 255, blue: 0 },
        }
    }
}

impl Pixel {
    /// The bytes of the pixel in the order red, green, blue.
    pub fn into_bytes(self) -> (bytes: [u8; 3])
        ensures
            bytes@ == seq![self.red, self.green, self.blue],
    {
        let bytes = [self.red, self.green, self.blue];
        assert(bytes@ =~= seq![self.red, self.green, self.blue]);
        bytes
    }
}

/// The items of a grid of arrays, row after row and, within a row, array
/// after array.
pub open spec fn spec_flatten<T, const N: usize>(rows: Seq<Vec<[T; N]>>) -> Seq<T> {
    rows.map_values(|row: Vec<[T; N]>| flat_row(row@)).flatten()
}

/// The items of a row of arrays, array after array.
pub open spec fn flat_row<T, const N: usize>(row: Seq<[T; N]>) -> Seq<T> {
    row.map_values(|a: [T; N]| a@).flatten()
}

/// Moves the items of an array into a vector.
///
/// Trusted: calls std's `From<[T; N]> for Vec<T>`, which its documentation
/// describes as allocating a vector and moving the array's items into it;
/// the contract claims the vector holds those items in the array's order.
#[verifier::external_body]
pub(crate) fn array_into_vec<T, const N: usize>(a: [T; N]) -> (v: Vec<T>)
    ensures
        v@ == a@,
{
    Vec::from(a)
}

} // verus!
