use piet_core::op::{get_op, PietOp};
use piet_core::ty::PietColor;

#[test]
fn same_color_decodes_to_no_op() {
    assert_eq!(get_op(PietColor::Red, PietColor::Red), PietOp::NoOp);
    assert_eq!(get_op(PietColor::DarkCyan, PietColor::DarkCyan), PietOp::NoOp);
}

#[test]
fn one_step_darker_decodes_to_push() {
    assert_eq!(get_op(PietColor::Red, PietColor::DarkRed), PietOp::Push);
    assert_eq!(get_op(PietColor::LightBlue, PietColor::Blue), PietOp::Push);
    // the lightness axis is cyclic: dark wraps around to light
    assert_eq!(get_op(PietColor::DarkGreen, PietColor::LightGreen), PietOp::Push);
}

#[test]
fn full_table_is_reached_from_red() {
    // Exiting a Red region (hue 0, lightness 1), the entry color below is at
    // hue delta h and lightness delta d, covering all eighteen table cells.
    let t = [
        (PietColor::Red, PietOp::NoOp),            // d=0 h=0
        (PietColor::DarkRed, PietOp::Push),        // d=1 h=0
        (PietColor::LightRed, PietOp::Pop),        // d=2 h=0
        (PietColor::Yellow, PietOp::Add),          // d=0 h=1
        (PietColor::DarkYellow, PietOp::Subtract), // d=1 h=1
        (PietColor::LightYellow, PietOp::Multiply),// d=2 h=1
        (PietColor::Green, PietOp::Divide),        // d=0 h=2
        (PietColor::DarkGreen, PietOp::Mod),       // d=1 h=2
        (PietColor::LightGreen, PietOp::Not),      // d=2 h=2
        (PietColor::Cyan, PietOp::Greater),        // d=0 h=3
        (PietColor::DarkCyan, PietOp::Pointer),    // d=1 h=3
        (PietColor::LightCyan, PietOp::Switch),    // d=2 h=3
        (PietColor::Blue, PietOp::Duplicate),      // d=0 h=4
        (PietColor::DarkBlue, PietOp::Roll),       // d=1 h=4
        (PietColor::LightBlue, PietOp::InNumber),  // d=2 h=4
        (PietColor::Magenta, PietOp::InChar),      // d=0 h=5
        (PietColor::DarkMagenta, PietOp::OutNumber), // d=1 h=5
        (PietColor::LightMagenta, PietOp::OutChar),  // d=2 h=5
    ];
    for (entry, op) in t {
        assert_eq!(get_op(PietColor::Red, entry), op);
    }
}

#[test]
fn hue_axis_wraps_around() {
    // Magenta (hue 5) to Red (hue 0) is one hue step forward.
    assert_eq!(get_op(PietColor::Magenta, PietColor::Red), PietOp::Add);
    // Blue (hue 4, dark lightness 2) to LightGreen (hue 2, lightness 0):
    // hue delta 4, lightness delta 1.
    assert_eq!(get_op(PietColor::DarkBlue, PietColor::LightGreen), PietOp::Roll);
}
