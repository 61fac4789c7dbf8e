//! A 5-bit color identity: one bit per color of the game's color wheel.

use vstd::prelude::*;

verus! {

pub const COLORLESS: u8 = 0b0000_0000;
pub const WHITE: u8 = 0b0000_0001;
pub const BLUE: u8 = 0b0000_0010;
pub const BLACK: u8 = 0b0000_0100;
pub const RED: u8 = 0b0000_1000;
pub const GREEN: u8 = 0b0001_0000;

#[derive(Debug, Clone, Copy, PartialEq, Eq, Structural)]
pub struct Color(pub u8);

impl Color {
    pub fn colorless() -> (r: Self)
        ensures
            r.0 == COLORLESS,
    {
        Self(COLORLESS)
    }

    pub fn white() -> (r: Self)
        ensures
            r.0 == WHITE,
    {
        Self(WHITE)
    }

    pub fn blue() -> (r: Self)
        ensures
            r.0 == BLUE,
    {
        Self(BLUE)
    }

    pub fn black() -> (r: Self)
        ensures
            r.0 == BLACK,
    {
        Self(BLACK)
    }

    pub fn red() -> (r: Self)
        ensures
            r.0 == RED,
    {
        Self(RED)
    }

    pub fn green() -> (r: Self)
        ensures
            r.0 == GREEN,
    {
        Self(GREEN)
    }

    pub fn selesnya() -> (r: Self)
        ensures
            r.0 == (GREEN | WHITE),
    {
        Self::green().and(Self::white())
    }

    pub fn golgari() -> (r: Self)
        ensures
            r.0 == (BLACK | GREEN),
    {
        Self::black().and(Self::green())
    }

    pub fn izzet() -> (r: Self)
        ensures
            r.0 == (RED | BLUE),
    {
        Self::red().and(Self::blue())
    }

    pub fn and(self, other: Self) -> (r: Self)
        ensures
            r.0 == (self.0 | other.0),
    {
        Self(self.0 | other.0)
    }

    pub fn is_white(&self) -> (r: bool)
        ensures
            r == ((self.0 & WHITE) > 0),
    {
        self.0 & WHITE > 0
    }

    pub fn is_blue(&self) -> (r: bool)
        ensures
            r == ((self.0 & BLUE) > 0),
    {
        self.0 & BLUE > 0
    }

    pub fn is_black(&self) -> (r: bool)
        ensures
            r == ((self.0 & BLACK) > 0),
    {
        self.0 & BLACK > 0
    }

    pub fn is_red(&self) -> (r: bool)
        ensures
            r == ((self.0 & RED) > 0),
    {
        self.0 & RED > 0
    }

    pub fn is_green(&self) -> (r: bool)
        ensures
            r == ((self.0 & GREEN) > 0),
    {
        self.0 & GREEN > 0
    }
}

} // verus!
