//! What a decode request can ask for.

use vstd::prelude::*;

verus! {

/// The width of an integer that a decode request asks for.
#[derive(Clone, Copy, Debug, PartialEq, Eq, Structural)]
pub enum Width {
    W8,
    W16,
    W32,
    W64,
}

impl Width {
    /// The number of values of an integer of this width.
    pub open spec fn modulus(self) -> int {
        match self {
            Width::W8 => 0x100,
            Width::W16 => 0x1_0000,
            Width::W32 => 0x1_0000_0000,
            Width::W64 => 0x1_0000_0000_0000_0000,
        }
    }

    /// The least signed integer of this width.
    pub open spec fn min(self) -> int {
        -(self.modulus() / 2)
    }

    /// The greatest signed integer of this width.
    pub open spec fn max(self) -> int {
        self.modulus() / 2 - 1
    }
}

/// The shape of a value that a decode request asks for.
#[derive(Clone, Copy, Debug, PartialEq, Eq, Structural)]
pub enum Shape {
    Bool,
    Unsigned(Width),
    Signed(Width),
    Str,
    Unit,
}

/// What a command carries after its name.
#[derive(Clone, Copy, Debug, PartialEq, Eq, Structural)]
pub enum Payload {
    /// No payload: the command stands alone on its line.
    Nothing,
    /// One value of the given shape.
    Required(Shape),
    /// One value of the given shape, or `null` in its place.
    Optional(Shape),
}

} // verus!
