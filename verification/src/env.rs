//! The execution state machine: direction pointer, codel chooser, current
//! position, operand stack, obstruction counter and output accumulator. One
//! `step` performs a full region-exit/region-entry cycle, applying either an
//! obstruction-recovery rotation or the decoded operation's effect.

use vstd::prelude::*;

use crate::image::{in_region, region_card, PietImg};
use crate::op::{get_op, op_spec, PietOp};
use crate::ty::{
    next_codel, on_cycle, Codel, CodelChoser, DirectionPointer, PietColor, PietError,
};

verus! {

/// The operand stack: unsigned 32-bit values, top at the end.
#[derive(Debug, Clone, PartialEq)]
pub struct Stack(pub Vec<u32>);

impl View for Stack {
    type V = Seq<u32>;

    open spec fn view(&self) -> Seq<u32> {
        self.0@
    }
}

impl Stack {
    pub fn new() -> (s: Stack)
        ensures
            s@ == Seq::<u32>::empty(),
    {
        Stack(Vec::new())
    }

    pub fn len(&self) -> (n: usize)
        ensures
            n == self@.len(),
    {
        self.0.len()
    }

    pub fn push(&mut self, v: u32)
        ensures
            final(self)@ == old(self)@.push(v),
    {
        self.0.push(v);
    }

    pub fn pop(&mut self) -> (r: Option<u32>)
        ensures
            old(self)@.len() > 0 ==> r == Some(old(self)@.last()) && final(self)@ == old(
                self,
            )@.drop_last(),
            old(self)@.len() == 0 ==> r == None::<u32> && final(self)@ == old(self)@,
    {
        self.0.pop()
    }

    /// The most recently pushed value, without removing it.
    pub fn top(&self) -> (r: Option<u32>)
        ensures
            self@.len() > 0 ==> r == Some(self@.last()),
            self@.len() == 0 ==> r == None::<u32>,
    {
        let n: usize = self.0.len();
        if n == 0 {
            None
        } else {
            Some(self.0[n - 1])
        }
    }
}

/// The chooser's flip: the lateral bias swaps sides.
pub open spec fn flip_chooser(cc: CodelChoser) -> CodelChoser {
    match cc {
        CodelChoser::Left => CodelChoser::Right,
        CodelChoser::Right => CodelChoser::Left,
    }
}

/// The direction pointer's clockwise rotation.
pub open spec fn rotate_pointer(dp: DirectionPointer) -> DirectionPointer {
    match dp {
        DirectionPointer::Right => DirectionPointer::Down,
        DirectionPointer::Down => DirectionPointer::Left,
        DirectionPointer::Left => DirectionPointer::Up,
        DirectionPointer::Up => DirectionPointer::Right,
    }
}

/// The obstruction recovery policy: on an even obstruction count the chooser
/// flips, on an odd count the direction pointer rotates clockwise.
pub open spec fn recovery_spec(
    dp: DirectionPointer,
    cc: CodelChoser,
    count: nat,
) -> (DirectionPointer, CodelChoser) {
    if count % 2 == 0 {
        (dp, flip_chooser(cc))
    } else {
        (rotate_pointer(dp), cc)
    }
}

/// Obstruction recovery as a pure function of the counter and the current
/// state pair.
pub fn obstruction_recovery(dp: DirectionPointer, cc: CodelChoser, count: usize) -> (r: (
    DirectionPointer,
    CodelChoser,
))
    ensures
        r == recovery_spec(dp, cc, count as nat),
{
    if count % 2 == 0 {
        let cc2 = match cc {
            CodelChoser::Left => CodelChoser::Right,
            CodelChoser::Right => CodelChoser::Left,
        };
        (dp, cc2)
    } else {
        let dp2 = match dp {
            DirectionPointer::Right => DirectionPointer::Down,
            DirectionPointer::Down => DirectionPointer::Left,
            DirectionPointer::Left => DirectionPointer::Up,
            DirectionPointer::Up => DirectionPointer::Right,
        };
        (dp2, cc)
    }
}

/// Whether `e` lies on the region's boundary edge facing `dp`: no region
/// member lies further in that direction.
pub open spec fn on_dp_edge(img: PietImg, seed: Codel, dp: DirectionPointer, e: Codel) -> bool {
    match dp {
        DirectionPointer::Right => forall|p: Codel| #[trigger] in_region(img, seed, p) ==> p.x
            <= e.x,
        DirectionPointer::Left => forall|p: Codel| #[trigger] in_region(img, seed, p) ==> e.x
            <= p.x,
        DirectionPointer::Down => forall|p: Codel| #[trigger] in_region(img, seed, p) ==> p.y
            <= e.y,
        DirectionPointer::Up => forall|p: Codel| #[trigger] in_region(img, seed, p) ==> e.y
            <= p.y,
    }
}

/// Whether `e` wins the tie-break on that edge: standing facing `dp`, the
/// chooser picks the extreme member toward its hand side.
pub open spec fn chooser_picks(
    img: PietImg,
    seed: Codel,
    dp: DirectionPointer,
    cc: CodelChoser,
    e: Codel,
) -> bool {
    match (dp, cc) {
        (DirectionPointer::Right, CodelChoser::Left) => forall|p: Codel|
            #[trigger] in_region(img, seed, p) && p.x == e.x ==> e.y <= p.y,
        (DirectionPointer::Right, CodelChoser::Right) => forall|p: Codel|
            #[trigger] in_region(img, seed, p) && p.x == e.x ==> p.y <= e.y,
        (DirectionPointer::Down, CodelChoser::Right) => forall|p: Codel|
            #[trigger] in_region(img, seed, p) && p.y == e.y ==> e.x <= p.x,
        (DirectionPointer::Down, CodelChoser::Left) => forall|p: Codel|
            #[trigger] in_region(img, seed, p) && p.y == e.y ==> p.x <= e.x,
        (DirectionPointer::Left, CodelChoser::Left) => forall|p: Codel|
            #[trigger] in_region(img, seed, p) && p.x == e.x ==> p.y <= e.y,
        (DirectionPointer::Left, CodelChoser::Right) => forall|p: Codel|
            #[trigger] in_region(img, seed, p) && p.x == e.x ==> e.y <= p.y,
        (DirectionPointer::Up, CodelChoser::Left) => forall|p: Codel|
            #[trigger] in_region(img, seed, p) && p.y == e.y ==> e.x <= p.x,
        (DirectionPointer::Up, CodelChoser::Right) => forall|p: Codel|
            #[trigger] in_region(img, seed, p) && p.y == e.y ==> p.x <= e.x,
    }
}

/// The exit pixel of the region of `seed` under direction `dp` and chooser
/// `cc`: a region member on the facing edge that wins the tie-break.
pub open spec fn is_exit(
    img: PietImg,
    seed: Codel,
    dp: DirectionPointer,
    cc: CodelChoser,
    e: Codel,
) -> bool {
    &&& in_region(img, seed, e)
    &&& on_dp_edge(img, seed, dp, e)
    &&& chooser_picks(img, seed, dp, cc, e)
}

/// The exit pixel, as a value.
pub open spec fn exit_of(
    img: PietImg,
    seed: Codel,
    dp: DirectionPointer,
    cc: CodelChoser,
) -> Codel {
    choose|e: Codel| is_exit(img, seed, dp, cc, e)
}

/// The navigation rule is deterministic: the exit pixel of a region under a
/// given direction and chooser is unique, so querying the same region twice
/// yields the same pixel.
pub proof fn lemma_exit_unique(
    img: PietImg,
    seed: Codel,
    dp: DirectionPointer,
    cc: CodelChoser,
    e1: Codel,
    e2: Codel,
)
    requires
        is_exit(img, seed, dp, cc, e1),
        is_exit(img, seed, dp, cc, e2),
    ensures
        e1 == e2,
{
    assert(in_region(img, seed, e1));
    assert(in_region(img, seed, e2));
    match dp {
        DirectionPointer::Right => {
            assert(e1.x == e2.x);
        },
        DirectionPointer::Left => {
            assert(e1.x == e2.x);
        },
        DirectionPointer::Down => {
            assert(e1.y == e2.y);
        },
        DirectionPointer::Up => {
            assert(e1.y == e2.y);
        },
    }
    assert(e1.x == e2.x && e1.y == e2.y);
}

/// Select, among the member codels whose x equals `edge_x`, the one with the
/// least (or greatest) y.
fn edge_pick_vertical(codels: &Vec<Codel>, edge_x: u32, want_min: bool) -> (e: Codel)
    requires
        exists|i: int| 0 <= i < codels@.len() && (#[trigger] codels@[i]).x == edge_x,
    ensures
        codels@.contains(e),
        e.x == edge_x,
        forall|i: int|
            0 <= i < codels@.len() && (#[trigger] codels@[i]).x == edge_x ==> if want_min {
                e.y <= codels@[i].y
            } else {
                codels@[i].y <= e.y
            },
{
    let mut best: Option<Codel> = None;
    let mut i: usize = 0;
    while i < codels.len()
        invariant
            i <= codels@.len(),
            best is None ==> forall|j: int| 0 <= j < i ==> (#[trigger] codels@[j]).x != edge_x,
            best matches Some(b) ==> codels@.contains(b) && b.x == edge_x && (forall|j: int|
                0 <= j < i && (#[trigger] codels@[j]).x == edge_x ==> if want_min {
                    b.y <= codels@[j].y
                } else {
                    codels@[j].y <= b.y
                }),
        decreases codels@.len() - i,
    {
        let cand: Codel = codels[i];
        if cand.x == edge_x {
            let take: bool = match best {
                None => true,
                Some(b) => if want_min {
                    cand.y < b.y
                } else {
                    cand.y > b.y
                },
            };
            if take {
                best = Some(cand);
                proof {
                    assert(codels@[i as int] == cand);
                }
            }
        }
        i = i + 1;
    }
    match best {
        Some(e) => e,
        None => {
            proof {
                let j = choose|j: int| 0 <= j < codels@.len() && (#[trigger] codels@[j]).x
                    == edge_x;
                assert(false);
            }
            Codel { x: 0, y: 0 }
        },
    }
}

/// Select, among the member codels whose y equals `edge_y`, the one with the
/// least (or greatest) x.
fn edge_pick_horizontal(codels: &Vec<Codel>, edge_y: u32, want_min: bool) -> (e: Codel)
    requires
        exists|i: int| 0 <= i < codels@.len() && (#[trigger] codels@[i]).y == edge_y,
    ensures
        codels@.contains(e),
        e.y == edge_y,
        forall|i: int|
            0 <= i < codels@.len() && (#[trigger] codels@[i]).y == edge_y ==> if want_min {
                e.x <= codels@[i].x
            } else {
                codels@[i].x <= e.x
            },
{
    let mut best: Option<Codel> = None;
    let mut i: usize = 0;
    while i < codels.len()
        invariant
            i <= codels@.len(),
            best is None ==> forall|j: int| 0 <= j < i ==> (#[trigger] codels@[j]).y != edge_y,
            best matches Some(b) ==> codels@.contains(b) && b.y == edge_y && (forall|j: int|
                0 <= j < i && (#[trigger] codels@[j]).y == edge_y ==> if want_min {
                    b.x <= codels@[j].x
                } else {
                    codels@[j].x <= b.x
                }),
        decreases codels@.len() - i,
    {
        let cand: Codel = codels[i];
        if cand.y == edge_y {
            let take: bool = match best {
                None => true,
                Some(b) => if want_min {
                    cand.x < b.x
                } else {
                    cand.x > b.x
                },
            };
            if take {
                best = Some(cand);
                proof {
                    assert(codels@[i as int] == cand);
                }
            }
        }
        i = i + 1;
    }
    match best {
        Some(e) => e,
        None => {
            proof {
                let j = choose|j: int| 0 <= j < codels@.len() && (#[trigger] codels@[j]).y
                    == edge_y;
                assert(false);
            }
            Codel { x: 0, y: 0 }
        },
    }
}

/// Whether the move one step past the exit pixel `e` in direction `dp` is
/// obstructed: off the canvas, or onto a black codel.
pub open spec fn step_obstructed(img: PietImg, e: Codel, dp: DirectionPointer) -> bool {
    match next_codel(e, dp) {
        None => true,
        Some(p) => !img.in_bounds(p) || img.color_at_spec(p) == PietColor::Black,
    }
}

/// The interpreter: direction pointer, codel chooser, codel pointer, operand
/// stack, the immutable program image, the obstruction counter, and the
/// output accumulator.
pub struct PietEnv {
    /// Direction Pointer
    pub dp: DirectionPointer,
    /// Codel Choser
    pub cc: CodelChoser,
    /// Codel Pointer
    pub cp: Codel,
    /// Stores all data values
    pub stack: Stack,
    /// image
    pub image: PietImg,
    /// How many times we've hit a flow restriction (black blocks & edges)
    pub flow_restricted_count: usize,
    /// Output
    pub output: String,
}

/// What one step does to the interpreter, as a relation between the state
/// before, the state after, and the returned result. The exit pixel of the
/// current region is computed first; if the move past it is obstructed, the
/// state rotates (or, once the counter has reached eight, the machine is
/// terminated and nothing changes); otherwise the color transition is
/// decoded and the operation applied.
pub open spec fn step_spec(pre: PietEnv, post: PietEnv, r: Result<(), PietError>) -> bool {
    let img = pre.image;
    let e = exit_of(img, pre.cp, pre.dp, pre.cc);
    if step_obstructed(img, e, pre.dp) {
        if pre.flow_restricted_count >= 8 {
            // Terminated: absorbing, nothing changes.
            post == pre && r == Ok::<(), PietError>(())
        } else {
            let rec = recovery_spec(pre.dp, pre.cc, pre.flow_restricted_count as nat);
            &&& r == Ok::<(), PietError>(())
            &&& post.image == pre.image
            &&& post.cp == pre.cp
            &&& post.stack@ == pre.stack@
            &&& post.output@ == pre.output@
            &&& post.dp == rec.0
            &&& post.cc == rec.1
            &&& post.flow_restricted_count == pre.flow_restricted_count + 1
        }
    } else {
        let entry = next_codel(e, pre.dp)->Some_0;
        let c_exit = img.color_at_spec(pre.cp);
        let c_entry = img.color_at_spec(entry);
        if !on_cycle(c_exit) || !on_cycle(c_entry) {
            // A transition through an off-cycle color is not implemented.
            post == pre && r == Err::<(), PietError>(PietError::UnsupportedOperation)
        } else {
            step_op_spec(pre, post, r, entry, op_spec(c_exit, c_entry))
        }
    }
}

/// The effect of a decoded operation: the obstruction counter is reset, and
/// the stack, output and codel pointer change as the operation commands.
/// Operations validate their operands before mutating anything, so a failing
/// operation leaves stack, output and position untouched.
pub open spec fn step_op_spec(
    pre: PietEnv,
    post: PietEnv,
    r: Result<(), PietError>,
    entry: Codel,
    op: PietOp,
) -> bool {
    &&& post.image == pre.image
    &&& post.dp == pre.dp
    &&& post.cc == pre.cc
    &&& post.flow_restricted_count == 0
    &&& match op {
        PietOp::NoOp => r == Ok::<(), PietError>(()) && post.cp == entry && post.stack@
            == pre.stack@ && post.output@ == pre.output@,
        PietOp::Push => r == Ok::<(), PietError>(()) && post.cp == entry && post.stack@
            == pre.stack@.push(region_card(pre.image, pre.cp) as u32) && post.output@
            == pre.output@,
        PietOp::Duplicate => if pre.stack@.len() == 0 {
            r == Err::<(), PietError>(PietError::StackUnderflow) && post.cp == pre.cp
                && post.stack@ == pre.stack@ && post.output@ == pre.output@
        } else {
            r == Ok::<(), PietError>(()) && post.cp == entry && post.stack@ == pre.stack@.push(
                pre.stack@.last(),
            ) && post.output@ == pre.output@
        },
        PietOp::Multiply => if pre.stack@.len() < 2 {
            r == Err::<(), PietError>(PietError::StackUnderflow) && post.cp == pre.cp
                && post.stack@ == pre.stack@ && post.output@ == pre.output@
        } else {
            // Pops the top two values and pushes their wrapping product.
            r == Ok::<(), PietError>(()) && post.cp == entry && post.stack@
                == pre.stack@.subrange(0, pre.stack@.len() - 2).push(
                vstd::wrapping::u32_specs::wrapping_mul(
                    pre.stack@[pre.stack@.len() - 1],
                    pre.stack@[pre.stack@.len() - 2],
                ),
            ) && post.output@ == pre.output@
        },
        PietOp::OutChar => if pre.stack@.len() == 0 {
            r == Err::<(), PietError>(PietError::StackUnderflow) && post.cp == pre.cp
                && post.stack@ == pre.stack@ && post.output@ == pre.output@
        } else if !vstd::utf8::is_scalar(pre.stack@.last()) {
            r == Err::<(), PietError>(PietError::InvalidCharacter) && post.cp == pre.cp
                && post.stack@ == pre.stack@ && post.output@ == pre.output@
        } else {
            r == Ok::<(), PietError>(()) && post.cp == entry && post.stack@
                == pre.stack@.drop_last() && post.output@ == pre.output@.push(
                pre.stack@.last() as char,
            )
        },
        _ => r == Err::<(), PietError>(PietError::UnsupportedOperation) && post.cp == pre.cp
            && post.stack@ == pre.stack@ && post.output@ == pre.output@,
    }
}

/// Relies on char::from_u32: returns `Some` exactly when the value is a
/// Unicode scalar value, and the returned character has that scalar value.
#[verifier::external_body]
fn char_from_u32(v: u32) -> (r: Option<char>)
    ensures
        r is Some <==> vstd::utf8::is_scalar(v),
        r matches Some(c) ==> c as u32 == v,
{
    char::from_u32(v)
}

/// Relies on String::push: appends the given character to the end of the
/// string.
#[verifier::external_body]
fn push_char(s: &mut String, c: char)
    ensures
        final(s)@ == old(s)@.push(c),
{
    s.push(c);
}

impl PietEnv {
    /// The interpreter's structural invariant: a well-formed image, an
    /// in-bounds codel pointer, and an obstruction counter that never passes
    /// eight.
    pub open spec fn wf(&self) -> bool {
        &&& self.image.wf()
        &&& self.image.in_bounds(self.cp)
        &&& self.flow_restricted_count <= 8
    }

    /// A fresh interpreter over a validated image: direction right, chooser
    /// left, position at the origin, empty stack, zero obstruction counter,
    /// empty output.
    pub fn new(image: PietImg) -> (env: PietEnv)
        requires
            image.wf(),
            image.width > 0,
            image.height > 0,
        ensures
            env.wf(),
            env.image == image,
            env.dp == DirectionPointer::Right,
            env.cc == CodelChoser::Left,
            env.cp == (Codel { x: 0, y: 0 }),
            env.stack@ == Seq::<u32>::empty(),
            env.flow_restricted_count == 0,
            env.output@ == Seq::<char>::empty(),
    {
        PietEnv {
            dp: DirectionPointer::Right,
            cc: CodelChoser::Left,
            cp: Codel { x: 0, y: 0 },
            stack: Stack::new(),
            flow_restricted_count: 0,
            image,
            output: String::new(),
        }
    }

    /// The exit pixel of the region containing `loc` under direction `dp`
    /// and the current chooser, together with the region's codel count. The
    /// edge may be disjoint for a non-convex region; the chooser breaks the
    /// tie among its pixels.
    pub fn get_block_transition(&self, loc: Codel, dp: DirectionPointer) -> (res: (Codel, u32))
        requires
            self.image.wf(),
            self.image.in_bounds(loc),
        ensures
            is_exit(self.image, loc, dp, self.cc, res.0),
            res.0 == exit_of(self.image, loc, dp, self.cc),
            self.image.in_bounds(res.0),
            self.image.color_at_spec(res.0) == self.image.color_at_spec(loc),
            res.1 as nat == region_card(self.image, loc),
    {
        let flood_fill = self.image.get_codels_in_block(loc);
        let ghost img = self.image;
        let exit_node: Codel = match (dp, self.cc) {
            (DirectionPointer::Right, CodelChoser::Left) => edge_pick_vertical(
                &flood_fill.codels,
                flood_fill.max_x,
                true,
            ),
            (DirectionPointer::Right, CodelChoser::Right) => edge_pick_vertical(
                &flood_fill.codels,
                flood_fill.max_x,
                false,
            ),
            (DirectionPointer::Down, CodelChoser::Right) => edge_pick_horizontal(
                &flood_fill.codels,
                flood_fill.max_y,
                true,
            ),
            (DirectionPointer::Down, CodelChoser::Left) => edge_pick_horizontal(
                &flood_fill.codels,
                flood_fill.max_y,
                false,
            ),
            (DirectionPointer::Left, CodelChoser::Left) => edge_pick_vertical(
                &flood_fill.codels,
                flood_fill.min_x,
                false,
            ),
            (DirectionPointer::Left, CodelChoser::Right) => edge_pick_vertical(
                &flood_fill.codels,
                flood_fill.min_x,
                true,
            ),
            (DirectionPointer::Up, CodelChoser::Left) => edge_pick_horizontal(
                &flood_fill.codels,
                flood_fill.min_y,
                true,
            ),
            (DirectionPointer::Up, CodelChoser::Right) => edge_pick_horizontal(
                &flood_fill.codels,
                flood_fill.min_y,
                false,
            ),
        };
        proof {
            let members = flood_fill.codels@;
            let mi = choose|mi: int| 0 <= mi < members.len() && members[mi] == exit_node;
            assert(in_region(img, loc, exit_node));
            // Every region member is in the list and inside the bounding
            // box, so the picked codel is extreme in the facing direction,
            // and extreme laterally among the members sharing its edge.
            assert forall|p: Codel| #[trigger] in_region(img, loc, p)
                implies flood_fill.min_x <= p.x <= flood_fill.max_x && flood_fill.min_y <= p.y
                <= flood_fill.max_y by {
                assert(members.contains(p));
                let i = choose|i: int| 0 <= i < members.len() && members[i] == p;
                assert(members[i] == p);
            }
            assert(on_dp_edge(img, loc, dp, exit_node));
            match (dp, self.cc) {
                (DirectionPointer::Right, CodelChoser::Left) => {
                    assert forall|p: Codel| #[trigger] in_region(img, loc, p) && p.x
                        == exit_node.x implies exit_node.y <= p.y by {
                        assert(members.contains(p));
                        let i = choose|i: int| 0 <= i < members.len() && members[i] == p;
                        assert(members[i] == p);
                    }
                },
                (DirectionPointer::Right, CodelChoser::Right) => {
                    assert forall|p: Codel| #[trigger] in_region(img, loc, p) && p.x
                        == exit_node.x implies p.y <= exit_node.y by {
                        assert(members.contains(p));
                        let i = choose|i: int| 0 <= i < members.len() && members[i] == p;
                        assert(members[i] == p);
                    }
                },
                (DirectionPointer::Down, CodelChoser::Right) => {
                    assert forall|p: Codel| #[trigger] in_region(img, loc, p) && p.y
                        == exit_node.y implies exit_node.x <= p.x by {
                        assert(members.contains(p));
                        let i = choose|i: int| 0 <= i < members.len() && members[i] == p;
                        assert(members[i] == p);
                    }
                },
                (DirectionPointer::Down, CodelChoser::Left) => {
                    assert forall|p: Codel| #[trigger] in_region(img, loc, p) && p.y
                        == exit_node.y implies p.x <= exit_node.x by {
                        assert(members.contains(p));
                        let i = choose|i: int| 0 <= i < members.len() && members[i] == p;
                        assert(members[i] == p);
                    }
                },
                (DirectionPointer::Left, CodelChoser::Left) => {
                    assert forall|p: Codel| #[trigger] in_region(img, loc, p) && p.x
                        == exit_node.x implies p.y <= exit_node.y by {
                        assert(members.contains(p));
                        let i = choose|i: int| 0 <= i < members.len() && members[i] == p;
                        assert(members[i] == p);
                    }
                },
                (DirectionPointer::Left, CodelChoser::Right) => {
                    assert forall|p: Codel| #[trigger] in_region(img, loc, p) && p.x
                        == exit_node.x implies exit_node.y <= p.y by {
                        assert(members.contains(p));
                        let i = choose|i: int| 0 <= i < members.len() && members[i] == p;
                        assert(members[i] == p);
                    }
                },
                (DirectionPointer::Up, CodelChoser::Left) => {
                    assert forall|p: Codel| #[trigger] in_region(img, loc, p) && p.y
                        == exit_node.y implies exit_node.x <= p.x by {
                        assert(members.contains(p));
                        let i = choose|i: int| 0 <= i < members.len() && members[i] == p;
                        assert(members[i] == p);
                    }
                },
                (DirectionPointer::Up, CodelChoser::Right) => {
                    assert forall|p: Codel| #[trigger] in_region(img, loc, p) && p.y
                        == exit_node.y implies p.x <= exit_node.x by {
                        assert(members.contains(p));
                        let i = choose|i: int| 0 <= i < members.len() && members[i] == p;
                        assert(members[i] == p);
                    }
                },
            }
            assert(is_exit(img, loc, dp, self.cc, exit_node));
            lemma_exit_unique(img, loc, dp, self.cc, exit_node, exit_of(img, loc, dp, self.cc));
        }
        let size: u32 = flood_fill.codels.len() as u32;
        (exit_node, size)
    }

    /// One execution step: find the exit pixel of the current region, try to
    /// move one codel past it, and either recover from an obstruction or
    /// apply the operation decoded from the color transition. Returns the
    /// per-step execution faults; a terminated machine steps to itself.
    pub fn step(&mut self) -> (r: Result<(), PietError>)
        requires
            old(self).wf(),
        ensures
            final(self).wf(),
            step_spec(*old(self), *final(self), r),
    {
        let (exit_node, node_size) = self.get_block_transition(self.cp, self.dp);
        let next_node = exit_node.block_in_dir(self.dp);

        let mut obstructed: bool = true;
        let mut entry: Codel = exit_node;
        match next_node {
            None => {},
            Some(nn) => {
                if self.image.contains(nn) {
                    let c_nn = match self.image.color_at(nn) {
                        Ok(c) => c,
                        Err(_) => {
                            proof {
                                assert(false);
                            }
                            PietColor::Black
                        },
                    };
                    if c_nn != PietColor::Black {
                        obstructed = false;
                        entry = nn;
                    }
                }
            },
        }

        if obstructed {
            if self.flow_restricted_count >= 8 {
                return Ok(());
            }
            let rec = obstruction_recovery(self.dp, self.cc, self.flow_restricted_count);
            self.dp = rec.0;
            self.cc = rec.1;
            self.flow_restricted_count = self.flow_restricted_count + 1;
            return Ok(());
        }

        let c_exit = match self.image.color_at(self.cp) {
            Ok(c) => c,
            Err(_) => {
                proof {
                    assert(false);
                }
                PietColor::Black
            },
        };
        let c_entry = match self.image.color_at(entry) {
            Ok(c) => c,
            Err(_) => {
                proof {
                    assert(false);
                }
                PietColor::Black
            },
        };
        if !c_exit.is_cyclic() || !c_entry.is_cyclic() {
            return Err(PietError::UnsupportedOperation);
        }

        // decode the transition
        let op = get_op(c_exit, c_entry);
        self.flow_restricted_count = 0;
        let ghost pre_stack = self.stack@;

        match op {
            PietOp::NoOp => {
                self.cp = entry;
                Ok(())
            },
            PietOp::Push => {
                self.stack.push(node_size);
                self.cp = entry;
                Ok(())
            },
            PietOp::Duplicate => {
                if self.stack.len() == 0 {
                    return Err(PietError::StackUnderflow);
                }
                let v = match self.stack.pop() {
                    Some(v) => v,
                    None => {
                        proof {
                            assert(false);
                        }
                        0
                    },
                };
                self.stack.push(v);
                self.stack.push(v);
                proof {
                    assert(pre_stack.drop_last().push(pre_stack.last()) =~= pre_stack);
                }
                self.cp = entry;
                Ok(())
            },
            PietOp::Multiply => {
                if self.stack.len() < 2 {
                    return Err(PietError::StackUnderflow);
                }
                let a = match self.stack.pop() {
                    Some(v) => v,
                    None => {
                        proof {
                            assert(false);
                        }
                        0
                    },
                };
                let b = match self.stack.pop() {
                    Some(v) => v,
                    None => {
                        proof {
                            assert(false);
                        }
                        0
                    },
                };
                self.stack.push(a.wrapping_mul(b));
                proof {
                    assert(pre_stack.drop_last().drop_last() =~= pre_stack.subrange(
                        0,
                        pre_stack.len() - 2,
                    ));
                }
                self.cp = entry;
                Ok(())
            },
            PietOp::OutChar => {
                if self.stack.len() == 0 {
                    return Err(PietError::StackUnderflow);
                }
                let v = match self.stack.top() {
                    Some(v) => v,
                    None => {
                        proof {
                            assert(false);
                        }
                        0
                    },
                };
                match char_from_u32(v) {
                    None => Err(PietError::InvalidCharacter),
                    Some(ch) => {
                        self.stack.pop();
                        push_char(&mut self.output, ch);
                        proof {
                            vstd::utf8::char_u32_cast(ch, v);
                        }
                        self.cp = entry;
                        Ok(())
                    },
                }
            },
            _ => Err(PietError::UnsupportedOperation),
        }
    }
}

} // verus!
