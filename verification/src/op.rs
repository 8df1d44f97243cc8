//! The transition decoder: mapping an (outgoing color, incoming color) pair
//! to an operation via the hue/lightness delta between the two colors.

use vstd::prelude::*;

use crate::ty::{color_scale, on_cycle, PietColor};

verus! {

/// The operations of the language, one per entry of the 3x6
/// darkness-by-hue transition table.
#[derive(Debug, Clone, Copy, PartialEq, Eq, Structural)]
pub enum PietOp {
    NoOp,
    Push,
    Pop,
    Add,
    Subtract,
    Multiply,
    Divide,
    Mod,
    Not,
    Greater,
    Pointer,
    Switch,
    Duplicate,
    Roll,
    InNumber,
    InChar,
    OutNumber,
    OutChar,
}

/// The (hue, lightness) coordinate of a cyclic color.
pub open spec fn scale_of(c: PietColor) -> (u32, u32)
    recommends
        on_cycle(c),
{
    color_scale(c)->Some_0
}

/// Lightness steps from `exit` to `entry`, counted cyclically (0..3).
pub open spec fn transition_darkness(exit: PietColor, entry: PietColor) -> int
    recommends
        on_cycle(exit),
        on_cycle(entry),
{
    (scale_of(entry).1 + 3 - scale_of(exit).1) % 3
}

/// Hue steps from `exit` to `entry`, counted cyclically (0..6).
pub open spec fn transition_hue(exit: PietColor, entry: PietColor) -> int
    recommends
        on_cycle(exit),
        on_cycle(entry),
{
    (scale_of(entry).0 + 6 - scale_of(exit).0) % 6
}

/// The fixed 3x6 lookup table from a (darkness, hue) delta to an operation.
/// Any pair outside 0..3 x 0..6 is impossible by construction, so the table
/// is left unspecified there.
pub open spec fn op_for(darkness: int, hue: int) -> PietOp
    recommends
        0 <= darkness < 3,
        0 <= hue < 6,
{
    if darkness == 0 && hue == 0 {
        PietOp::NoOp
    } else if darkness == 1 && hue == 0 {
        PietOp::Push
    } else if darkness == 2 && hue == 0 {
        PietOp::Pop
    } else if darkness == 0 && hue == 1 {
        PietOp::Add
    } else if darkness == 1 && hue == 1 {
        PietOp::Subtract
    } else if darkness == 2 && hue == 1 {
        PietOp::Multiply
    } else if darkness == 0 && hue == 2 {
        PietOp::Divide
    } else if darkness == 1 && hue == 2 {
        PietOp::Mod
    } else if darkness == 2 && hue == 2 {
        PietOp::Not
    } else if darkness == 0 && hue == 3 {
        PietOp::Greater
    } else if darkness == 1 && hue == 3 {
        PietOp::Pointer
    } else if darkness == 2 && hue == 3 {
        PietOp::Switch
    } else if darkness == 0 && hue == 4 {
        PietOp::Duplicate
    } else if darkness == 1 && hue == 4 {
        PietOp::Roll
    } else if darkness == 2 && hue == 4 {
        PietOp::InNumber
    } else if darkness == 0 && hue == 5 {
        PietOp::InChar
    } else if darkness == 1 && hue == 5 {
        PietOp::OutNumber
    } else if darkness == 2 && hue == 5 {
        PietOp::OutChar
    } else {
        vstd::pervasive::arbitrary()
    }
}

/// The operation decoded from the transition between two cyclic colors.
pub open spec fn op_spec(exit: PietColor, entry: PietColor) -> PietOp
    recommends
        on_cycle(exit),
        on_cycle(entry),
{
    op_for(transition_darkness(exit, entry), transition_hue(exit, entry))
}

/// Every cyclic color's coordinate lies in the 6x3 hue-by-lightness box.
pub proof fn lemma_scale_bounds(c: PietColor)
    requires
        on_cycle(c),
    ensures
        scale_of(c).0 < 6,
        scale_of(c).1 < 3,
{
}

/// Decode the operation commanded by exiting a region of color `node` into a
/// codel of color `next_node`: the hue and lightness deltas are looked up in
/// the fixed 3x6 table.
pub fn get_op(node: PietColor, next_node: PietColor) -> (op: PietOp)
    requires
        on_cycle(node),
        on_cycle(next_node),
    ensures
        op == op_spec(node, next_node),
{
    proof {
        lemma_scale_bounds(node);
        lemma_scale_bounds(next_node);
    }
    let color = node.get_color_scale();
    let next_color = next_node.get_color_scale();
    let darkness: u32 = (next_color.1 + 3 - color.1) % 3;
    let hue: u32 = (next_color.0 + 6 - color.0) % 6;

    if darkness == 0 && hue == 0 {
        PietOp::NoOp
    } else if darkness == 1 && hue == 0 {
        PietOp::Push
    } else if darkness == 2 && hue == 0 {
        PietOp::Pop
    } else if darkness == 0 && hue == 1 {
        PietOp::Add
    } else if darkness == 1 && hue == 1 {
        PietOp::Subtract
    } else if darkness == 2 && hue == 1 {
        PietOp::Multiply
    } else if darkness == 0 && hue == 2 {
        PietOp::Divide
    } else if darkness == 1 && hue == 2 {
        PietOp::Mod
    } else if darkness == 2 && hue == 2 {
        PietOp::Not
    } else if darkness == 0 && hue == 3 {
        PietOp::Greater
    } else if darkness == 1 && hue == 3 {
        PietOp::Pointer
    } else if darkness == 2 && hue == 3 {
        PietOp::Switch
    } else if darkness == 0 && hue == 4 {
        PietOp::Duplicate
    } else if darkness == 1 && hue == 4 {
        PietOp::Roll
    } else if darkness == 2 && hue == 4 {
        PietOp::InNumber
    } else if darkness == 0 && hue == 5 {
        PietOp::InChar
    } else if darkness == 1 && hue == 5 {
        PietOp::OutNumber
    } else if darkness == 2 && hue == 5 {
        PietOp::OutChar
    } else {
        proof {
            assert(false);
        }
        PietOp::NoOp
    }
}

} // verus!
