//! The color model and the small value types of the interpreter: the
//! twenty-color palette with its hue/lightness coordinates, grid positions,
//! the direction pointer, the codel chooser, and the error kinds.

use vstd::prelude::*;

verus! {

/// One of the twenty colors a codel may have. Eighteen of them sit on a
/// cyclic hue axis (six hues) crossed with a lightness axis (light, normal,
/// dark); black and white are off-cycle and have no hue/lightness coordinate.
#[derive(Debug, Clone, Copy, PartialEq, Eq, Structural)]
pub enum PietColor {
    LightRed,
    LightYellow,
    LightGreen,
    LightCyan,
    LightBlue,
    LightMagenta,
    Red,
    Yellow,
    Green,
    Cyan,
    Blue,
    Magenta,
    DarkRed,
    DarkYellow,
    DarkGreen,
    DarkCyan,
    DarkBlue,
    DarkMagenta,
    Black,
    White,
}

/// The error kinds of the interpreter. `UnrecognizedColor` is fatal at load
/// time; `OutOfBounds` marks a grid lookup outside the image;
/// `StackUnderflow`, `InvalidCharacter` and `UnsupportedOperation` are
/// recoverable per-step execution faults.
#[derive(Debug, Clone, Copy, PartialEq, Eq, Structural)]
pub enum PietError {
    UnrecognizedColor,
    OutOfBounds,
    StackUnderflow,
    InvalidCharacter,
    UnsupportedOperation,
}

/// The canonical byte triplet (red, green, blue) of each palette color.
pub open spec fn color_bytes(c: PietColor) -> (u8, u8, u8) {
    match c {
        PietColor::LightRed => (0xFF, 0xC0, 0xC0),
        PietColor::LightYellow => (0xFF, 0xFF, 0xC0),
        PietColor::LightGreen => (0xC0, 0xFF, 0xC0),
        PietColor::LightCyan => (0xC0, 0xFF, 0xFF),
        PietColor::LightBlue => (0xC0, 0xC0, 0xFF),
        PietColor::LightMagenta => (0xFF, 0xC0, 0xFF),
        PietColor::Red => (0xFF, 0x00, 0x00),
        PietColor::Yellow => (0xFF, 0xFF, 0x00),
        PietColor::Green => (0x00, 0xFF, 0x00),
        PietColor::Cyan => (0x00, 0xFF, 0xFF),
        PietColor::Blue => (0x00, 0x00, 0xFF),
        PietColor::Magenta => (0xFF, 0x00, 0xFF),
        PietColor::DarkRed => (0xC0, 0x00, 0x00),
        PietColor::DarkYellow => (0xC0, 0xC0, 0x00),
        PietColor::DarkGreen => (0x00, 0xC0, 0x00),
        PietColor::DarkCyan => (0x00, 0xC0, 0xC0),
        PietColor::DarkBlue => (0x00, 0x00, 0xC0),
        PietColor::DarkMagenta => (0xC0, 0x00, 0xC0),
        PietColor::Black => (0x00, 0x00, 0x00),
        PietColor::White => (0xFF, 0xFF, 0xFF),
    }
}

/// Decoding of a byte triplet: `Some(c)` exactly when the triplet is the
/// canonical encoding of the palette color `c`, `None` otherwise.
pub open spec fn decode_spec(r: u8, g: u8, b: u8) -> Option<PietColor> {
    if r == 0xFF && g == 0xC0 && b == 0xC0 {
        Some(PietColor::LightRed)
    } else if r == 0xFF && g == 0xFF && b == 0xC0 {
        Some(PietColor::LightYellow)
    } else if r == 0xC0 && g == 0xFF && b == 0xC0 {
        Some(PietColor::LightGreen)
    } else if r == 0xC0 && g == 0xFF && b == 0xFF {
        Some(PietColor::LightCyan)
    } else if r == 0xC0 && g == 0xC0 && b == 0xFF {
        Some(PietColor::LightBlue)
    } else if r == 0xFF && g == 0xC0 && b == 0xFF {
        Some(PietColor::LightMagenta)
    } else if r == 0xFF && g == 0x00 && b == 0x00 {
        Some(PietColor::Red)
    } else if r == 0xFF && g == 0xFF && b == 0x00 {
        Some(PietColor::Yellow)
    } else if r == 0x00 && g == 0xFF && b == 0x00 {
        Some(PietColor::Green)
    } else if r == 0x00 && g == 0xFF && b == 0xFF {
        Some(PietColor::Cyan)
    } else if r == 0x00 && g == 0x00 && b == 0xFF {
        Some(PietColor::Blue)
    } else if r == 0xFF && g == 0x00 && b == 0xFF {
        Some(PietColor::Magenta)
    } else if r == 0xC0 && g == 0x00 && b == 0x00 {
        Some(PietColor::DarkRed)
    } else if r == 0xC0 && g == 0xC0 && b == 0x00 {
        Some(PietColor::DarkYellow)
    } else if r == 0x00 && g == 0xC0 && b == 0x00 {
        Some(PietColor::DarkGreen)
    } else if r == 0x00 && g == 0xC0 && b == 0xC0 {
        Some(PietColor::DarkCyan)
    } else if r == 0x00 && g == 0x00 && b == 0xC0 {
        Some(PietColor::DarkBlue)
    } else if r == 0xC0 && g == 0x00 && b == 0xC0 {
        Some(PietColor::DarkMagenta)
    } else if r == 0x00 && g == 0x00 && b == 0x00 {
        Some(PietColor::Black)
    } else if r == 0xFF && g == 0xFF && b == 0xFF {
        Some(PietColor::White)
    } else {
        None
    }
}

/// The (hue, lightness) coordinate of a color on the hue/lightness cycle:
/// hue in 0..6 (red, yellow, green, cyan, blue, magenta) and lightness in
/// 0..3 (light, normal, dark). `None` for black and white.
pub open spec fn color_scale(c: PietColor) -> Option<(u32, u32)> {
    match c {
        PietColor::LightRed => Some((0, 0)),
        PietColor::Red => Some((0, 1)),
        PietColor::DarkRed => Some((0, 2)),
        PietColor::LightYellow => Some((1, 0)),
        PietColor::Yellow => Some((1, 1)),
        PietColor::DarkYellow => Some((1, 2)),
        PietColor::LightGreen => Some((2, 0)),
        PietColor::Green => Some((2, 1)),
        PietColor::DarkGreen => Some((2, 2)),
        PietColor::LightCyan => Some((3, 0)),
        PietColor::Cyan => Some((3, 1)),
        PietColor::DarkCyan => Some((3, 2)),
        PietColor::LightBlue => Some((4, 0)),
        PietColor::Blue => Some((4, 1)),
        PietColor::DarkBlue => Some((4, 2)),
        PietColor::LightMagenta => Some((5, 0)),
        PietColor::Magenta => Some((5, 1)),
        PietColor::DarkMagenta => Some((5, 2)),
        PietColor::Black => None,
        PietColor::White => None,
    }
}

/// Whether a color sits on the hue/lightness cycle (all colors but black
/// and white).
pub open spec fn on_cycle(c: PietColor) -> bool {
    color_scale(c) is Some
}

impl PietColor {
    /// Decode one pixel's three raw samples into a palette color; fails with
    /// `UnrecognizedColor` if the triplet is not one of the twenty literals.
    pub fn decode(r: u8, g: u8, b: u8) -> (res: Result<PietColor, PietError>)
        ensures
            res == (match decode_spec(r, g, b) {
                Some(c) => Ok::<PietColor, PietError>(c),
                None => Err::<PietColor, PietError>(PietError::UnrecognizedColor),
            }),
    {
        if r == 0xFF && g == 0xC0 && b == 0xC0 {
            Ok(PietColor::LightRed)
        } else if r == 0xFF && g == 0xFF && b == 0xC0 {
            Ok(PietColor::LightYellow)
        } else if r == 0xC0 && g == 0xFF && b == 0xC0 {
            Ok(PietColor::LightGreen)
        } else if r == 0xC0 && g == 0xFF && b == 0xFF {
            Ok(PietColor::LightCyan)
        } else if r == 0xC0 && g == 0xC0 && b == 0xFF {
            Ok(PietColor::LightBlue)
        } else if r == 0xFF && g == 0xC0 && b == 0xFF {
            Ok(PietColor::LightMagenta)
        } else if r == 0xFF && g == 0x00 && b == 0x00 {
            Ok(PietColor::Red)
        } else if r == 0xFF && g == 0xFF && b == 0x00 {
            Ok(PietColor::Yellow)
        } else if r == 0x00 && g == 0xFF && b == 0x00 {
            Ok(PietColor::Green)
        } else if r == 0x00 && g == 0xFF && b == 0xFF {
            Ok(PietColor::Cyan)
        } else if r == 0x00 && g == 0x00 && b == 0xFF {
            Ok(PietColor::Blue)
        } else if r == 0xFF && g == 0x00 && b == 0xFF {
            Ok(PietColor::Magenta)
        } else if r == 0xC0 && g == 0x00 && b == 0x00 {
            Ok(PietColor::DarkRed)
        } else if r == 0xC0 && g == 0xC0 && b == 0x00 {
            Ok(PietColor::DarkYellow)
        } else if r == 0x00 && g == 0xC0 && b == 0x00 {
            Ok(PietColor::DarkGreen)
        } else if r == 0x00 && g == 0xC0 && b == 0xC0 {
            Ok(PietColor::DarkCyan)
        } else if r == 0x00 && g == 0x00 && b == 0xC0 {
            Ok(PietColor::DarkBlue)
        } else if r == 0xC0 && g == 0x00 && b == 0xC0 {
            Ok(PietColor::DarkMagenta)
        } else if r == 0x00 && g == 0x00 && b == 0x00 {
            Ok(PietColor::Black)
        } else if r == 0xFF && g == 0xFF && b == 0xFF {
            Ok(PietColor::White)
        } else {
            Err(PietError::UnrecognizedColor)
        }
    }

    /// The canonical byte triplet this color decodes from.
    pub fn to_bytes(&self) -> (res: (u8, u8, u8))
        ensures
            res == color_bytes(*self),
    {
        match self {
            PietColor::LightRed => (0xFF, 0xC0, 0xC0),
            PietColor::LightYellow => (0xFF, 0xFF, 0xC0),
            PietColor::LightGreen => (0xC0, 0xFF, 0xC0),
            PietColor::LightCyan => (0xC0, 0xFF, 0xFF),
            PietColor::LightBlue => (0xC0, 0xC0, 0xFF),
            PietColor::LightMagenta => (0xFF, 0xC0, 0xFF),
            PietColor::Red => (0xFF, 0x00, 0x00),
            PietColor::Yellow => (0xFF, 0xFF, 0x00),
            PietColor::Green => (0x00, 0xFF, 0x00),
            PietColor::Cyan => (0x00, 0xFF, 0xFF),
            PietColor::Blue => (0x00, 0x00, 0xFF),
            PietColor::Magenta => (0xFF, 0x00, 0xFF),
            PietColor::DarkRed => (0xC0, 0x00, 0x00),
            PietColor::DarkYellow => (0xC0, 0xC0, 0x00),
            PietColor::DarkGreen => (0x00, 0xC0, 0x00),
            PietColor::DarkCyan => (0x00, 0xC0, 0xC0),
            PietColor::DarkBlue => (0x00, 0x00, 0xC0),
            PietColor::DarkMagenta => (0xC0, 0x00, 0xC0),
            PietColor::Black => (0x00, 0x00, 0x00),
            PietColor::White => (0xFF, 0xFF, 0xFF),
        }
    }

    /// Whether this color sits on the hue/lightness cycle: every palette
    /// color but black and white.
    pub fn is_cyclic(&self) -> (res: bool)
        ensures
            res == on_cycle(*self),
    {
        match self {
            PietColor::Black => false,
            PietColor::White => false,
            _ => true,
        }
    }

    /// The (hue, lightness) coordinate of this color on the hue/lightness
    /// cycle. Black and white have no coordinate and are excluded by the
    /// precondition; callers branch on them before reaching this function.
    pub fn get_color_scale(&self) -> (res: (u32, u32))
        requires
            on_cycle(*self),
        ensures
            color_scale(*self) == Some(res),
    {
        match self {
            PietColor::LightRed => (0, 0),
            PietColor::Red => (0, 1),
            PietColor::DarkRed => (0, 2),
            PietColor::LightYellow => (1, 0),
            PietColor::Yellow => (1, 1),
            PietColor::DarkYellow => (1, 2),
            PietColor::LightGreen => (2, 0),
            PietColor::Green => (2, 1),
            PietColor::DarkGreen => (2, 2),
            PietColor::LightCyan => (3, 0),
            PietColor::Cyan => (3, 1),
            PietColor::DarkCyan => (3, 2),
            PietColor::LightBlue => (4, 0),
            PietColor::Blue => (4, 1),
            PietColor::DarkBlue => (4, 2),
            PietColor::LightMagenta => (5, 0),
            PietColor::Magenta => (5, 1),
            PietColor::DarkMagenta => (5, 2),
            PietColor::Black => (0, 0),
            PietColor::White => (0, 0),
        }
    }
}

/// Decoding the canonical bytes of any palette color yields that color back:
/// the encoding of the palette is injective and `decode` inverts it.
pub proof fn lemma_color_bytes_round_trip(c: PietColor)
    ensures
        decode_spec(color_bytes(c).0, color_bytes(c).1, color_bytes(c).2) == Some(c),
{
}

/// Conversely, a byte triplet that decodes to some color is that color's
/// canonical triplet: re-encoding returns the original three bytes.
pub proof fn lemma_decode_then_encode(r: u8, g: u8, b: u8)
    requires
        decode_spec(r, g, b) is Some,
    ensures
        color_bytes(decode_spec(r, g, b)->Some_0) == (r, g, b),
{
}

/// The lateral bias, relative to the direction pointer, used to break ties
/// among candidate exit pixels on the same region edge.
#[derive(Debug, Clone, Copy, PartialEq, Eq, Structural)]
pub enum CodelChoser {
    Left,
    Right,
}

/// The heading used both for movement and for selecting the bounding-box
/// edge of a region.
#[derive(Debug, Clone, Copy, PartialEq, Eq, Structural)]
pub enum DirectionPointer {
    Up,
    Down,
    Left,
    Right,
}

/// An (x, y) pair of non-negative grid coordinates; the atomic unit of code
/// of the language. No negative coordinates exist: moving off the low edge
/// is an absence, never a negative value.
#[derive(Debug, Clone, Copy, PartialEq, Eq, Structural)]
pub struct Codel {
    pub x: u32,
    pub y: u32,
}

/// The grid cell one step from `c` in direction `dp`, or `None` where the
/// move would leave the coordinate space.
pub open spec fn next_codel(c: Codel, dp: DirectionPointer) -> Option<Codel> {
    match dp {
        DirectionPointer::Right => if c.x == u32::MAX {
            None
        } else {
            Some(Codel { x: (c.x + 1) as u32, y: c.y })
        },
        DirectionPointer::Left => if c.x == 0 {
            None
        } else {
            Some(Codel { x: (c.x - 1) as u32, y: c.y })
        },
        DirectionPointer::Up => if c.y == 0 {
            None
        } else {
            Some(Codel { x: c.x, y: (c.y - 1) as u32 })
        },
        DirectionPointer::Down => if c.y == u32::MAX {
            None
        } else {
            Some(Codel { x: c.x, y: (c.y + 1) as u32 })
        },
    }
}

impl Codel {
    pub fn new(x: u32, y: u32) -> (c: Self)
        ensures
            c == (Codel { x, y }),
    {
        Codel { x, y }
    }

    /// The adjacent grid cell one step past `self` in direction `other`;
    /// absent where that would go below coordinate zero or past the largest
    /// representable coordinate.
    pub fn block_in_dir(self, other: DirectionPointer) -> (res: Option<Self>)
        ensures
            res == next_codel(self, other),
    {
        match other {
            DirectionPointer::Right => {
                if self.x == u32::MAX {
                    None
                } else {
                    Some(Codel { x: self.x + 1, y: self.y })
                }
            },
            DirectionPointer::Left => {
                if self.x == 0 {
                    None
                } else {
                    Some(Codel { x: self.x - 1, y: self.y })
                }
            },
            DirectionPointer::Up => {
                if self.y == 0 {
                    None
                } else {
                    Some(Codel { x: self.x, y: self.y - 1 })
                }
            },
            DirectionPointer::Down => {
                if self.y == u32::MAX {
                    None
                } else {
                    Some(Codel { x: self.x, y: self.y + 1 })
                }
            },
        }
    }
}

} // verus!
