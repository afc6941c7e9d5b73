//! Colours and the pictures made of them.

use vstd::prelude::*;
use crate::raster::Raster;

verus! {

/// A pixel whose colour channels are already multiplied by its alpha.
#[derive(Clone, Copy, Debug, PartialEq, Eq, Structural)]
pub struct Color {
    pub r: u8,
    pub g: u8,
    pub b: u8,
    pub a: u8,
}

/// An opaque colour.
#[derive(Clone, Copy, Debug, PartialEq, Eq, Structural)]
pub struct Rgb {
    pub r: u8,
    pub g: u8,
    pub b: u8,
}

/// A pixel as a file stores it: the colour channels are independent of the alpha.
#[derive(Clone, Copy, Debug, PartialEq, Eq, Structural)]
pub struct Rgba {
    pub r: u8,
    pub g: u8,
    pub b: u8,
    pub a: u8,
}

pub type ColorImage = Raster<Color>;

pub type GrayImage = Raster<u8>;

pub type RgbImage = Raster<Rgb>;

pub type RgbaImage = Raster<Rgba>;

/// What `egui::Color32::from_rgba_unmultiplied` makes of four channels.
pub uninterp spec fn premultiplied_channels(r: u8, g: u8, b: u8, a: u8) -> (u8, u8, u8, u8);

/// What `egui::Color32::to_srgba_unmultiplied` makes of the four channels of a colour.
pub uninterp spec fn unmultiplied_channels(r: u8, g: u8, b: u8, a: u8) -> (u8, u8, u8, u8);

/// Calls `egui::Color32::from_rgba_unmultiplied`.  The result is a function of the four channels;
/// the alpha is kept, a clear pixel has no colour left, and an opaque one keeps its colour.
#[verifier::external_body]
fn egui_premultiply(r: u8, g: u8, b: u8, a: u8) -> (c: (u8, u8, u8, u8))
    ensures
        c == premultiplied_channels(r, g, b, a),
        c.3 == a,
        a == 0 ==> c == (0u8, 0u8, 0u8, 0u8),
        a == 255 ==> c == (r, g, b, 255u8),
{
    egui::Color32::from_rgba_unmultiplied(r, g, b, a).to_tuple()
}

/// Calls `egui::Color32::to_srgba_unmultiplied`.  The result is a function of the four channels;
/// the alpha is kept, and a clear or opaque colour keeps its channels.
#[verifier::external_body]
fn egui_unmultiply(r: u8, g: u8, b: u8, a: u8) -> (c: (u8, u8, u8, u8))
    ensures
        c == unmultiplied_channels(r, g, b, a),
        c.3 == a,
        a == 0 || a == 255 ==> c == (r, g, b, a),
{
    let [r, g, b, a] = egui::Color32::from_rgba_premultiplied(r, g, b, a).to_srgba_unmultiplied();
    (r, g, b, a)
}

/// The pixel that shows nothing.
pub open spec fn clear() -> Color {
    Color { r: 0, g: 0, b: 0, a: 0 }
}

/// The pixel that a file pixel is shown as.
pub open spec fn premultiplied(c: Rgba) -> Color {
    let p = premultiplied_channels(c.r, c.g, c.b, c.a);
    Color { r: p.0, g: p.1, b: p.2, a: p.3 }
}

/// The file pixel that a shown pixel is stored as.
pub open spec fn unmultiplied(c: Color) -> Rgba {
    let p = unmultiplied_channels(c.r, c.g, c.b, c.a);
    Rgba { r: p.0, g: p.1, b: p.2, a: p.3 }
}

impl Color {
    pub fn transparent() -> (c: Color)
        ensures
            c == clear(),
    {
        Color { r: 0, g: 0, b: 0, a: 0 }
    }

    pub fn from_rgb(r: u8, g: u8, b: u8) -> (c: Color)
        ensures
            c == (Color { r, g, b, a: 255 }),
    {
        Color { r, g, b, a: 255 }
    }

    pub fn from_rgba_unmultiplied(r: u8, g: u8, b: u8, a: u8) -> (c: Color)
        ensures
            c == premultiplied(Rgba { r, g, b, a }),
            c.a == a,
            a == 0 ==> c == clear(),
            a == 255 ==> c == (Color { r, g, b, a }),
    {
        let p = egui_premultiply(r, g, b, a);
        Color { r: p.0, g: p.1, b: p.2, a: p.3 }
    }

    pub fn to_srgba_unmultiplied(self) -> (c: Rgba)
        ensures
            c == unmultiplied(self),
            c.a == self.a,
            self.a == 0 || self.a == 255 ==> c == (Rgba {
                r: self.r,
                g: self.g,
                b: self.b,
                a: self.a,
            }),
    {
        let p = egui_unmultiply(self.r, self.g, self.b, self.a);
        Rgba { r: p.0, g: p.1, b: p.2, a: p.3 }
    }
}

} // verus!
