use piet_core::env::{PietEnv, Stack};
use piet_core::image::PietImg;
use piet_core::ty::{Codel, CodelChoser, DirectionPointer, PietColor, PietError};

fn build_image(width: u32, height: u32, colors: &[PietColor]) -> PietImg {
    assert_eq!(colors.len() as u32, width * height);
    let mut bytes: Vec<u8> = Vec::new();
    for c in colors {
        let (r, g, b) = c.to_bytes();
        bytes.push(r);
        bytes.push(g);
        bytes.push(b);
    }
    PietImg::new(1, width, height, bytes).unwrap()
}

fn env_over(img: PietImg) -> PietEnv {
    PietEnv::new(img)
}

#[test]
fn new_interpreter_starts_in_the_initial_state() {
    let env = env_over(build_image(1, 1, &[PietColor::Red]));
    assert_eq!(env.dp, DirectionPointer::Right);
    assert_eq!(env.cc, CodelChoser::Left);
    assert_eq!(env.cp, Codel::new(0, 0));
    assert!(env.stack.0.is_empty());
    assert_eq!(env.flow_restricted_count, 0);
    assert!(env.output.is_empty());
}

#[test]
fn exit_pixel_follows_the_chooser_table() {
    // a 2x2 all-red block: every edge has two candidates
    let img = build_image(2, 2, &[PietColor::Red; 4]);
    let mut env = env_over(img);
    let cases = [
        (DirectionPointer::Right, CodelChoser::Left, Codel::new(1, 0)),
        (DirectionPointer::Right, CodelChoser::Right, Codel::new(1, 1)),
        (DirectionPointer::Down, CodelChoser::Right, Codel::new(0, 1)),
        (DirectionPointer::Down, CodelChoser::Left, Codel::new(1, 1)),
        (DirectionPointer::Left, CodelChoser::Left, Codel::new(0, 1)),
        (DirectionPointer::Left, CodelChoser::Right, Codel::new(0, 0)),
        (DirectionPointer::Up, CodelChoser::Left, Codel::new(0, 0)),
        (DirectionPointer::Up, CodelChoser::Right, Codel::new(1, 0)),
    ];
    for (dp, cc, expected) in cases {
        env.dp = dp;
        env.cc = cc;
        let (exit, size) = env.get_block_transition(Codel::new(0, 0), dp);
        assert_eq!(exit, expected);
        assert_eq!(size, 4);
        // determinism: the same query twice yields the same pixel
        let (exit2, _) = env.get_block_transition(Codel::new(0, 0), dp);
        assert_eq!(exit2, exit);
    }
}

#[test]
fn exit_pixel_on_a_disjoint_edge() {
    // R G R   non-convex red region: the top edge is disjoint
    // R R R
    let r = PietColor::Red;
    let g = PietColor::Green;
    let img = build_image(3, 2, &[r, g, r, r, r, r]);
    let mut env = env_over(img);
    env.dp = DirectionPointer::Up;
    env.cc = CodelChoser::Left;
    let (exit, size) = env.get_block_transition(Codel::new(0, 0), DirectionPointer::Up);
    assert_eq!(size, 5);
    assert_eq!(exit, Codel::new(0, 0));
    env.cc = CodelChoser::Right;
    let (exit, _) = env.get_block_transition(Codel::new(0, 0), DirectionPointer::Up);
    assert_eq!(exit, Codel::new(2, 0));
}

#[test]
fn one_codel_grid_obstructs_and_terminates() {
    // a 1x1 red grid obstructs in every direction; eight obstructed steps
    // flip the chooser on even counts and rotate the pointer on odd counts,
    // and the ninth leaves the state unchanged
    let mut env = env_over(build_image(1, 1, &[PietColor::Red]));
    let expected = [
        (DirectionPointer::Right, CodelChoser::Right),
        (DirectionPointer::Down, CodelChoser::Right),
        (DirectionPointer::Down, CodelChoser::Left),
        (DirectionPointer::Left, CodelChoser::Left),
        (DirectionPointer::Left, CodelChoser::Right),
        (DirectionPointer::Up, CodelChoser::Right),
        (DirectionPointer::Up, CodelChoser::Left),
        (DirectionPointer::Right, CodelChoser::Left),
    ];
    for (i, (dp, cc)) in expected.iter().enumerate() {
        assert_eq!(env.step(), Ok(()));
        assert_eq!(env.dp, *dp, "after step {}", i + 1);
        assert_eq!(env.cc, *cc, "after step {}", i + 1);
        assert_eq!(env.flow_restricted_count, i + 1);
        assert_eq!(env.cp, Codel::new(0, 0));
    }
    // terminated: the ninth obstructed step is a no-op
    assert_eq!(env.step(), Ok(()));
    assert_eq!(env.dp, DirectionPointer::Right);
    assert_eq!(env.cc, CodelChoser::Left);
    assert_eq!(env.flow_restricted_count, 8);
    assert!(env.stack.0.is_empty());
    assert!(env.output.is_empty());
}

#[test]
fn push_advances_and_pushes_the_region_size() {
    // [Red, DarkRed]: one step decodes push, pushes region size 1, and
    // advances to the DarkRed codel
    let img = build_image(2, 1, &[PietColor::Red, PietColor::DarkRed]);
    let mut env = env_over(img);
    assert_eq!(env.step(), Ok(()));
    assert_eq!(env.stack.0, vec![1]);
    assert_eq!(env.cp, Codel::new(1, 0));
    assert_eq!(env.flow_restricted_count, 0);
    assert!(env.output.is_empty());
}

#[test]
fn push_uses_the_whole_region_size() {
    // R R D   a three-codel red region, then a push into DarkRed
    let r = PietColor::Red;
    let d = PietColor::DarkRed;
    let img = build_image(3, 2, &[r, r, d, r, d, d]);
    let mut env = env_over(img);
    assert_eq!(env.step(), Ok(()));
    assert_eq!(env.stack.0, vec![3]);
    assert_eq!(env.cp, Codel::new(2, 0));
}

#[test]
fn add_is_reported_as_unsupported() {
    // Red -> Yellow decodes add, which this interpreter does not implement:
    // the step reports the fault and leaves stack, output and position alone
    let img = build_image(2, 1, &[PietColor::Red, PietColor::Yellow]);
    let mut env = env_over(img);
    assert_eq!(env.step(), Err(PietError::UnsupportedOperation));
    assert_eq!(env.cp, Codel::new(0, 0));
    assert!(env.stack.0.is_empty());
    assert_eq!(env.flow_restricted_count, 0);
}

#[test]
fn duplicate_underflows_on_an_empty_stack() {
    // Red -> Blue decodes duplicate; the stack is empty
    let img = build_image(2, 1, &[PietColor::Red, PietColor::Blue]);
    let mut env = env_over(img);
    assert_eq!(env.step(), Err(PietError::StackUnderflow));
    assert_eq!(env.cp, Codel::new(0, 0));
    assert!(env.stack.0.is_empty());
}

#[test]
fn duplicate_doubles_the_top_value() {
    let img = build_image(2, 1, &[PietColor::Red, PietColor::Blue]);
    let mut env = env_over(img);
    env.stack = Stack(vec![9, 7]);
    assert_eq!(env.step(), Ok(()));
    assert_eq!(env.stack.0, vec![9, 7, 7]);
    assert_eq!(env.cp, Codel::new(1, 0));
}

#[test]
fn multiply_pops_two_and_pushes_the_product() {
    // Red -> LightYellow decodes multiply
    let img = build_image(2, 1, &[PietColor::Red, PietColor::LightYellow]);
    let mut env = env_over(img);
    env.stack = Stack(vec![6, 7]);
    assert_eq!(env.step(), Ok(()));
    assert_eq!(env.stack.0, vec![42]);
    assert_eq!(env.cp, Codel::new(1, 0));
}

#[test]
fn multiply_wraps_on_overflow() {
    let img = build_image(2, 1, &[PietColor::Red, PietColor::LightYellow]);
    let mut env = env_over(img);
    env.stack = Stack(vec![0x8000_0000, 2]);
    assert_eq!(env.step(), Ok(()));
    assert_eq!(env.stack.0, vec![0]);
}

#[test]
fn multiply_underflows_below_two_operands() {
    let img = build_image(2, 1, &[PietColor::Red, PietColor::LightYellow]);
    let mut env = env_over(img);
    env.stack = Stack(vec![5]);
    assert_eq!(env.step(), Err(PietError::StackUnderflow));
    assert_eq!(env.stack.0, vec![5]);
    assert_eq!(env.cp, Codel::new(0, 0));
}

#[test]
fn out_char_appends_the_decoded_character() {
    // Red -> LightMagenta decodes write-char
    let img = build_image(2, 1, &[PietColor::Red, PietColor::LightMagenta]);
    let mut env = env_over(img);
    env.stack = Stack(vec![72]);
    assert_eq!(env.step(), Ok(()));
    assert_eq!(env.output, "H");
    assert!(env.stack.0.is_empty());
    assert_eq!(env.cp, Codel::new(1, 0));
}

#[test]
fn out_char_rejects_a_surrogate_value() {
    let img = build_image(2, 1, &[PietColor::Red, PietColor::LightMagenta]);
    let mut env = env_over(img);
    env.stack = Stack(vec![0xD800]);
    assert_eq!(env.step(), Err(PietError::InvalidCharacter));
    // the operation validated before mutating: the stack keeps its value
    assert_eq!(env.stack.0, vec![0xD800]);
    assert!(env.output.is_empty());
    assert_eq!(env.cp, Codel::new(0, 0));
}

#[test]
fn out_char_underflows_on_an_empty_stack() {
    let img = build_image(2, 1, &[PietColor::Red, PietColor::LightMagenta]);
    let mut env = env_over(img);
    assert_eq!(env.step(), Err(PietError::StackUnderflow));
    assert!(env.output.is_empty());
}

#[test]
fn a_black_neighbour_obstructs() {
    let img = build_image(2, 1, &[PietColor::Red, PietColor::Black]);
    let mut env = env_over(img);
    assert_eq!(env.step(), Ok(()));
    // first obstruction: the chooser flips, nothing else changes
    assert_eq!(env.cc, CodelChoser::Right);
    assert_eq!(env.dp, DirectionPointer::Right);
    assert_eq!(env.flow_restricted_count, 1);
    assert_eq!(env.cp, Codel::new(0, 0));
}

#[test]
fn a_white_entry_is_an_unsupported_transition() {
    let img = build_image(2, 1, &[PietColor::Red, PietColor::White]);
    let mut env = env_over(img);
    assert_eq!(env.step(), Err(PietError::UnsupportedOperation));
    assert_eq!(env.cp, Codel::new(0, 0));
    assert_eq!(env.flow_restricted_count, 0);
}

#[test]
fn stack_push_pop_and_top() {
    let mut s = Stack::new();
    assert_eq!(s.len(), 0);
    assert_eq!(s.top(), None);
    assert_eq!(s.pop(), None);
    s.push(3);
    s.push(4);
    assert_eq!(s.len(), 2);
    assert_eq!(s.top(), Some(4));
    assert_eq!(s.pop(), Some(4));
    assert_eq!(s.pop(), Some(3));
    assert_eq!(s.pop(), None);
}
