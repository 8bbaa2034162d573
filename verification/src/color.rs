//! RGBA colours and the selector that names one of their four channels.

use vstd::prelude::*;
use crate::decimal::decimal;
use crate::decimal::push_decimal;

verus! {

/// What opens the text of a colour and names its red value.
pub const TEXT_RED: &'static str = "{ R: ";

/// What names the green value in the text of a colour.
pub const TEXT_GREEN: &'static str = ", G: ";

/// What names the blue value.
pub const TEXT_BLUE: &'static str = ", B: ";

/// What names the alpha value.
pub const TEXT_ALPHA: &'static str = ", A: ";

/// What closes the text of a colour.
pub const TEXT_END: &'static str = " }";

/// One of the four channels of an RGBA colour.
#[derive(Debug, Copy, Clone, PartialEq, Eq, Structural)]
pub enum ColorChannel {
    R,
    G,
    B,
    A,
}

/// A colour: red, green, blue and alpha, eight bits each.
#[derive(Debug, Copy, Clone, PartialEq, Eq, Structural)]
pub struct Color {
    pub r: u8,
    pub g: u8,
    pub b: u8,
    pub a: u8,
}

impl Color {
    /// The value that this colour holds on `channel`.
    pub open spec fn channel(self, channel: ColorChannel) -> u8 {
        match channel {
            ColorChannel::R => self.r,
            ColorChannel::G => self.g,
            ColorChannel::B => self.b,
            ColorChannel::A => self.a,
        }
    }

    /// The colour as text: its four values in decimal, each after its
    /// channel's letter, between braces.
    pub open spec fn text(self) -> Seq<char> {
        TEXT_RED@ + decimal(self.r as nat) + TEXT_GREEN@ + decimal(self.g as nat) + TEXT_BLUE@
            + decimal(self.b as nat) + TEXT_ALPHA@ + decimal(self.a as nat) + TEXT_END@
    }

    /// Returns the colour as text, for people to read: `{ R: 1, G: 2, B: 3,
    /// A: 4 }` for the colour with those values.
    pub fn to_string(&self) -> (text: String)
        ensures
            text@ == self.text(),
    {
        let mut text = String::new();
        text.append(TEXT_RED);
        push_decimal(&mut text, self.r);
        text.append(TEXT_GREEN);
        push_decimal(&mut text, self.g);
        text.append(TEXT_BLUE);
        push_decimal(&mut text, self.b);
        text.append(TEXT_ALPHA);
        push_decimal(&mut text, self.a);
        text.append(TEXT_END);
        assert(text@ =~= self.text());
        text
    }
}

impl vstd::std_specs::core::IndexSpecImpl<ColorChannel> for Color {
    open spec fn index_req(&self, index: &ColorChannel) -> bool {
        true
    }
}

impl std::ops::Index<ColorChannel> for Color {
    type Output = u8;

    /// Indexing by channel is total: every selector names a field.
    fn index(&self, index: ColorChannel) -> (value: &u8)
        ensures
            *value == self.channel(index),
    {
        match index {
            ColorChannel::R => &self.r,
            ColorChannel::G => &self.g,
            ColorChannel::B => &self.b,
            ColorChannel::A => &self.a,
        }
    }
}

} // verus!
