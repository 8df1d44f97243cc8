//! The pixel grid: an immutable RGB byte buffer plus width and height, with
//! bounds-checked color lookup and the flood-fill algorithm that yields the
//! maximal same-color region around a seed codel together with its tight
//! bounding box.

use vstd::prelude::*;

use crate::ty::{decode_spec, Codel, PietColor, PietError};

verus! {

/// The program image: a row-major buffer of three raw samples (red, green,
/// blue) per codel. Constructed once from already-decoded image data and
/// read-only for the lifetime of the interpreter.
#[derive(Debug, Clone)]
pub struct PietImg {
    pub codel_size: u32,
    pub width: u32,
    pub height: u32,
    pub bytes: Vec<u8>,
}

/// The region descriptor produced by the flood fill: the member codels of
/// one maximal 4-connected same-color group, plus the minimum and maximum
/// x and y over the members.
#[derive(Debug)]
pub struct FloodFill {
    pub codels: Vec<Codel>,
    pub min_x: u32,
    pub min_y: u32,
    pub max_x: u32,
    pub max_y: u32,
}

impl PietImg {
    /// Whether a codel lies inside the image.
    pub open spec fn in_bounds(&self, p: Codel) -> bool {
        p.x < self.width && p.y < self.height
    }

    /// The byte offset of a codel's first raw sample in the row-major buffer.
    pub open spec fn byte_base(&self, p: Codel) -> int {
        3 * (p.y * self.width + p.x)
    }

    /// The decoding of the byte triplet stored at a codel.
    pub open spec fn decoded_at(&self, p: Codel) -> Option<PietColor>
        recommends
            self.in_bounds(p),
    {
        decode_spec(
            self.bytes@[self.byte_base(p)],
            self.bytes@[self.byte_base(p) + 1],
            self.bytes@[self.byte_base(p) + 2],
        )
    }

    /// The palette color of a codel inside a well-formed image.
    pub open spec fn color_at_spec(&self, p: Codel) -> PietColor
        recommends
            self.wf(),
            self.in_bounds(p),
    {
        self.decoded_at(p)->Some_0
    }

    /// Well-formedness: unit codel size, a buffer of exactly three bytes per
    /// codel whose every triplet is a palette color, and a codel count that
    /// fits the stack's cell type (region sizes are pushed as `u32`).
    pub open spec fn wf(&self) -> bool {
        &&& self.codel_size == 1
        &&& self.width * self.height <= u32::MAX
        &&& self.bytes@.len() == 3 * (self.width * self.height)
        &&& forall|p: Codel| #[trigger] self.in_bounds(p) ==> self.decoded_at(p) is Some
    }
}

/// Whether two codels are 4-connected neighbours.
pub open spec fn adjacent(a: Codel, b: Codel) -> bool {
    ||| (a.x == b.x && (a.y + 1 == b.y || b.y + 1 == a.y))
    ||| (a.y == b.y && (a.x + 1 == b.x || b.x + 1 == a.x))
}

/// A walk from `seed` to `p`: consecutive codels are 4-connected, and every
/// codel after the seed is in bounds and carries the seed's color.
pub open spec fn region_path(img: PietImg, seed: Codel, path: Seq<Codel>, p: Codel) -> bool {
    &&& path.len() > 0
    &&& path[0] == seed
    &&& path[path.len() - 1] == p
    &&& forall|i: int|
        1 <= i < path.len() ==> adjacent(path[i - 1], #[trigger] path[i]) && img.in_bounds(
            path[i],
        ) && img.color_at_spec(path[i]) == img.color_at_spec(seed)
}

/// Membership in the region of `seed`: the seed itself together with every
/// codel connected to it through 4-connected in-bounds codels of the seed's
/// color.
pub open spec fn in_region(img: PietImg, seed: Codel, p: Codel) -> bool {
    exists|path: Seq<Codel>| region_path(img, seed, path, p)
}

/// The region of `seed` as a set of codels.
pub open spec fn region_set(img: PietImg, seed: Codel) -> Set<Codel> {
    Set::new(|p: Codel| in_region(img, seed, p))
}

/// The number of codels in the region of `seed`.
pub open spec fn region_card(img: PietImg, seed: Codel) -> nat {
    region_set(img, seed).len()
}

/// The region of a seed codel contains the seed.
pub proof fn lemma_region_seed(img: PietImg, seed: Codel)
    ensures
        in_region(img, seed, seed),
{
    let path = seq![seed];
    assert(region_path(img, seed, path, seed));
}

/// The region of a seed is closed one step at a time: an in-bounds neighbour
/// of a member carrying the seed's color is a member as well.
pub proof fn lemma_region_extend(img: PietImg, seed: Codel, m: Codel, p: Codel)
    requires
        in_region(img, seed, m),
        adjacent(m, p),
        img.in_bounds(p),
        img.color_at_spec(p) == img.color_at_spec(seed),
    ensures
        in_region(img, seed, p),
{
    let path = choose|path: Seq<Codel>| region_path(img, seed, path, m);
    let path2 = path.push(p);
    assert(region_path(img, seed, path2, p)) by {
        assert(path2[0] == path[0]);
        assert(path2[path2.len() - 1] == p);
        assert forall|i: int|
            1 <= i < path2.len() implies adjacent(path2[i - 1], #[trigger] path2[i])
                && img.in_bounds(path2[i]) && img.color_at_spec(path2[i]) == img.color_at_spec(
            seed,
        ) by {
            if i < path.len() {
                assert(path2[i] == path[i]);
                assert(path2[i - 1] == path[i - 1]);
            } else {
                assert(path2[i] == p);
                assert(path2[i - 1] == path[path.len() - 1]);
            }
        }
    }
}

/// Every region member other than the seed is in bounds and carries the
/// seed's color.
pub proof fn lemma_region_member(img: PietImg, seed: Codel, p: Codel)
    requires
        in_region(img, seed, p),
    ensures
        p == seed || (img.in_bounds(p) && img.color_at_spec(p) == img.color_at_spec(seed)),
{
    let path = choose|path: Seq<Codel>| region_path(img, seed, path, p);
    if path.len() == 1 {
        assert(p == seed);
    } else {
        assert(adjacent(path[path.len() - 2], path[path.len() - 1]));
    }
}

/// A set of codels that contains the seed and is closed under same-color
/// in-bounds adjacency contains every region member.
proof fn lemma_closed_contains_region(img: PietImg, seed: Codel, members: Seq<Codel>, p: Codel)
    requires
        members.contains(seed),
        forall|a: Codel, b: Codel|
            #![trigger members.contains(a), adjacent(a, b)]
            members.contains(a) && adjacent(a, b) && img.in_bounds(b) && img.color_at_spec(b)
                == img.color_at_spec(seed) ==> members.contains(b),
        in_region(img, seed, p),
    ensures
        members.contains(p),
{
    let path = choose|path: Seq<Codel>| region_path(img, seed, path, p);
    lemma_closed_contains_path(img, seed, members, path, p);
}

proof fn lemma_closed_contains_path(
    img: PietImg,
    seed: Codel,
    members: Seq<Codel>,
    path: Seq<Codel>,
    p: Codel,
)
    requires
        members.contains(seed),
        forall|a: Codel, b: Codel|
            #![trigger members.contains(a), adjacent(a, b)]
            members.contains(a) && adjacent(a, b) && img.in_bounds(b) && img.color_at_spec(b)
                == img.color_at_spec(seed) ==> members.contains(b),
        region_path(img, seed, path, p),
    ensures
        members.contains(p),
    decreases path.len(),
{
    if path.len() == 1 {
        assert(p == seed);
    } else {
        let q = path[path.len() - 2];
        let path1 = path.subrange(0, path.len() - 1);
        assert(region_path(img, seed, path1, q)) by {
            assert(path1[0] == path[0]);
            assert(path1[path1.len() - 1] == path[path.len() - 2]);
            assert forall|i: int|
                1 <= i < path1.len() implies adjacent(path1[i - 1], #[trigger] path1[i])
                    && img.in_bounds(path1[i]) && img.color_at_spec(path1[i])
                    == img.color_at_spec(seed) by {
                assert(path1[i] == path[i]);
                assert(path1[i - 1] == path[i - 1]);
                assert(adjacent(path[i - 1], path[i]));
            }
        }
        lemma_closed_contains_path(img, seed, members, path1, q);
        assert(adjacent(path[path.len() - 2], path[path.len() - 1]));
        assert(members.contains(q) && adjacent(q, p));
    }
}

/// `push` keeps and adds sequence membership.
proof fn lemma_contains_push<A>(s: Seq<A>, x: A, p: A)
    requires
        s.contains(p) || p == x,
    ensures
        s.push(x).contains(p),
{
    if s.contains(p) {
        let i = choose|i: int| 0 <= i < s.len() && s[i] == p;
        assert(s.push(x)[i] == p);
    } else {
        assert(s.push(x)[s.len() as int] == p);
    }
}

/// Dropping the last element keeps membership of anything but that element.
proof fn lemma_contains_drop_last<A>(s: Seq<A>, p: A)
    requires
        s.contains(p),
        s.len() > 0,
        p != s[s.len() - 1],
    ensures
        s.subrange(0, s.len() - 1).contains(p),
{
    let i = choose|i: int| 0 <= i < s.len() && s[i] == p;
    assert(s.subrange(0, s.len() - 1)[i] == p);
}

/// What the flood fill returns for a well-formed image and an in-bounds
/// seed: exactly the member codels of the seed's region, each listed once,
/// all of the seed's color, and a bounding box that is tight on all four
/// edges.
pub open spec fn valid_flood_fill(img: PietImg, seed: Codel, r: FloodFill) -> bool {
    &&& r.codels@.contains(seed)
    &&& forall|i: int|
        0 <= i < r.codels@.len() ==> in_region(img, seed, #[trigger] r.codels@[i])
            && img.in_bounds(r.codels@[i]) && img.color_at_spec(r.codels@[i])
            == img.color_at_spec(seed)
    &&& forall|p: Codel| in_region(img, seed, p) ==> r.codels@.contains(p)
    &&& r.codels@.no_duplicates()
    &&& r.codels@.len() == region_card(img, seed)
    &&& r.codels@.len() <= img.width * img.height
    &&& forall|i: int|
        0 <= i < r.codels@.len() ==> r.min_x <= (#[trigger] r.codels@[i]).x <= r.max_x
            && r.min_y <= r.codels@[i].y <= r.max_y
    &&& exists|i: int| 0 <= i < r.codels@.len() && (#[trigger] r.codels@[i]).x == r.min_x
    &&& exists|i: int| 0 <= i < r.codels@.len() && (#[trigger] r.codels@[i]).x == r.max_x
    &&& exists|i: int| 0 <= i < r.codels@.len() && (#[trigger] r.codels@[i]).y == r.min_y
    &&& exists|i: int| 0 <= i < r.codels@.len() && (#[trigger] r.codels@[i]).y == r.max_y
}

/// The flat row-major index of a codel, used for the seen flags.
spec fn flat_index(img: PietImg, p: Codel) -> int {
    p.y * img.width + p.x
}

/// Whether the seen flag of a codel is set.
spec fn marked(img: PietImg, seen: Seq<bool>, p: Codel) -> bool {
    seen[flat_index(img, p)]
}

/// Whether a worklist entry is justified: in bounds, and the seed itself or
/// a neighbour of some member found so far.
spec fn queue_entry_ok(img: PietImg, seed: Codel, members: Seq<Codel>, q: Codel) -> bool {
    img.in_bounds(q) && (q == seed || exists|k: int|
        0 <= k < members.len() && adjacent(#[trigger] members[k], q))
}

proof fn lemma_entry_ok_more_members(
    img: PietImg,
    seed: Codel,
    members: Seq<Codel>,
    x: Codel,
    q: Codel,
)
    requires
        queue_entry_ok(img, seed, members, q),
    ensures
        queue_entry_ok(img, seed, members.push(x), q),
{
    if q != seed {
        let k = choose|k: int| 0 <= k < members.len() && adjacent(#[trigger] members[k], q);
        assert(adjacent(members.push(x)[k], q));
    }
}

/// The number of set flags in a seen vector.
spec fn count_true(s: Seq<bool>) -> nat
    decreases s.len(),
{
    if s.len() == 0 {
        0
    } else {
        count_true(s.drop_last()) + if s.last() {
            1nat
        } else {
            0nat
        }
    }
}

proof fn lemma_count_true_le(s: Seq<bool>)
    ensures
        count_true(s) <= s.len(),
    decreases s.len(),
{
    if s.len() != 0 {
        lemma_count_true_le(s.drop_last());
    }
}

proof fn lemma_count_true_all_false(s: Seq<bool>)
    requires
        forall|i: int| 0 <= i < s.len() ==> !s[i],
    ensures
        count_true(s) == 0,
    decreases s.len(),
{
    if s.len() != 0 {
        lemma_count_true_all_false(s.drop_last());
    }
}

proof fn lemma_count_true_set(s: Seq<bool>, i: int)
    requires
        0 <= i < s.len(),
        !s[i],
    ensures
        count_true(s.update(i, true)) == count_true(s) + 1,
    decreases s.len(),
{
    let t = s.update(i, true);
    if i == s.len() - 1 {
        assert(t.drop_last() =~= s.drop_last());
    } else {
        assert(t.drop_last() =~= s.drop_last().update(i, true));
        lemma_count_true_set(s.drop_last(), i);
    }
}

proof fn lemma_row_major_bounds(x: int, y: int, w: int, h: int)
    by (nonlinear_arith)
    requires
        0 <= x < w,
        0 <= y < h,
    ensures
        0 <= y * w + x < w * h,
{
}

proof fn lemma_row_major_injective(x1: int, y1: int, x2: int, y2: int, w: int)
    by (nonlinear_arith)
    requires
        0 <= x1 < w,
        0 <= x2 < w,
        0 <= y1,
        0 <= y2,
        y1 * w + x1 == y2 * w + x2,
    ensures
        x1 == x2,
        y1 == y2,
{
}

proof fn lemma_flat_in_range(img: PietImg, p: Codel)
    requires
        img.in_bounds(p),
    ensures
        0 <= flat_index(img, p) < img.width * img.height,
{
    lemma_row_major_bounds(p.x as int, p.y as int, img.width as int, img.height as int);
}

impl PietImg {
    /// Build an image from already-decoded raster data: three raw samples
    /// per codel, row-major. Validates the whole buffer up front and fails
    /// with `UnrecognizedColor` exactly when some triplet is not one of the
    /// twenty palette literals.
    pub fn new(codel_size: u32, width: u32, height: u32, bytes: Vec<u8>) -> (res: Result<
        PietImg,
        PietError,
    >)
        requires
            codel_size == 1,
            width * height <= u32::MAX,
            bytes@.len() == 3 * (width * height),
        ensures
            res matches Ok(img) ==> img.wf() && img.codel_size == codel_size && img.width == width
                && img.height == height && img.bytes@ == bytes@,
            res is Ok <==> (forall|k: int|
                0 <= k < width * height ==> (#[trigger] decode_spec(
                    bytes@[3 * k],
                    bytes@[3 * k + 1],
                    bytes@[3 * k + 2],
                )) is Some),
            res is Err ==> res == Err::<PietImg, PietError>(PietError::UnrecognizedColor),
    {
        let total: u32 = width * height;
        let buf_len: usize = bytes.len();
        let mut k: u32 = 0;
        while k < total
            invariant
                total == width * height,
                buf_len == bytes@.len(),
                bytes@.len() == 3 * (width * height),
                k <= total,
                forall|j: int|
                    0 <= j < k ==> (#[trigger] decode_spec(
                        bytes@[3 * j],
                        bytes@[3 * j + 1],
                        bytes@[3 * j + 2],
                    )) is Some,
            decreases total - k,
        {
            let base: usize = (k as usize) * 3;
            let r = bytes[base];
            let g = bytes[base + 1];
            let b = bytes[base + 2];
            match PietColor::decode(r, g, b) {
                Ok(_) => {},
                Err(e) => {
                    proof {
                        assert(base as int == 3 * (k as int));
                        assert(decode_spec(
                            bytes@[3 * (k as int)],
                            bytes@[3 * (k as int) + 1],
                            bytes@[3 * (k as int) + 2],
                        ) is None);
                    }
                    return Err(e);
                },
            }
            k = k + 1;
        }
        let img = PietImg { codel_size, width, height, bytes };
        proof {
            assert forall|p: Codel| #[trigger] img.in_bounds(p) implies img.decoded_at(
                p,
            ) is Some by {
                lemma_row_major_bounds(p.x as int, p.y as int, width as int, height as int);
            }
        }
        Ok(img)
    }

    /// Bounds test without fetching a color: used to tell "moved to a
    /// restricted pixel" from "moved off the canvas", which the rest of the
    /// system treats identically.
    pub fn contains(&self, loc: Codel) -> (res: bool)
        ensures
            res == self.in_bounds(loc),
    {
        loc.x < self.width && loc.y < self.height
    }

    /// The flat row-major index of an in-bounds codel.
    fn flat_of(&self, p: Codel) -> (i: usize)
        requires
            self.wf(),
            self.in_bounds(p),
        ensures
            i == flat_index(*self, p),
            i < self.width * self.height,
    {
        proof {
            lemma_row_major_bounds(p.x as int, p.y as int, self.width as int, self.height as int);
        }
        (p.y as usize) * (self.width as usize) + (p.x as usize)
    }

    /// The color stored at an in-bounds codel of a well-formed image.
    fn color_at_unchecked(&self, loc: Codel) -> (res: PietColor)
        requires
            self.wf(),
            self.in_bounds(loc),
        ensures
            res == self.color_at_spec(loc),
    {
        let buf_len: usize = self.bytes.len();
        let fi: usize = self.flat_of(loc);
        let base: usize = fi * 3;
        let r = self.bytes[base];
        let g = self.bytes[base + 1];
        let b = self.bytes[base + 2];
        match PietColor::decode(r, g, b) {
            Ok(c) => c,
            Err(_) => {
                proof {
                    assert(false);
                }
                PietColor::Black
            },
        }
    }

    /// Bounds-checked color lookup; fails with `OutOfBounds` exactly when
    /// the codel lies outside the image.
    pub fn color_at(&self, loc: Codel) -> (res: Result<PietColor, PietError>)
        requires
            self.wf(),
        ensures
            self.in_bounds(loc) ==> res == Ok::<PietColor, PietError>(self.color_at_spec(loc)),
            !self.in_bounds(loc) ==> res == Err::<PietColor, PietError>(PietError::OutOfBounds),
    {
        if self.contains(loc) {
            Ok(self.color_at_unchecked(loc))
        } else {
            Err(PietError::OutOfBounds)
        }
    }

    /// Offer a neighbour of a member to the worklist: queued unless its seen
    /// flag is already set.
    fn push_neighbor(
        &self,
        seen: &Vec<bool>,
        queue: &mut Vec<Codel>,
        p: Codel,
        Ghost(seed): Ghost<Codel>,
        Ghost(members): Ghost<Seq<Codel>>,
    )
        requires
            self.wf(),
            self.in_bounds(p),
            seen@.len() == self.width * self.height,
            exists|k: int| 0 <= k < members.len() && adjacent(#[trigger] members[k], p),
            forall|i: int|
                0 <= i < old(queue)@.len() ==> queue_entry_ok(
                    *self,
                    seed,
                    members,
                    #[trigger] old(queue)@[i],
                ),
        ensures
            marked(*self, seen@, p) || final(queue)@.contains(p),
            forall|q: Codel| old(queue)@.contains(q) ==> final(queue)@.contains(q),
            forall|i: int|
                0 <= i < final(queue)@.len() ==> queue_entry_ok(
                    *self,
                    seed,
                    members,
                    #[trigger] final(queue)@[i],
                ),
    {
        let pi: usize = self.flat_of(p);
        if !seen[pi] {
            let ghost pre = queue@;
            queue.push(p);
            proof {
                assert(queue@[queue@.len() - 1] == p);
                assert forall|q: Codel| pre.contains(q) implies queue@.contains(q) by {
                    lemma_contains_push(pre, p, q);
                }
                assert forall|i: int| 0 <= i < queue@.len() implies queue_entry_ok(
                    *self,
                    seed,
                    members,
                    queue@[i],
                ) by {
                    if i < pre.len() {
                        assert(queue@[i] == pre[i]);
                    }
                }
            }
        }
    }

    /// Offer all in-bounds neighbours of the newest member to the worklist.
    fn push_frontier(
        &self,
        n: Codel,
        seen: &Vec<bool>,
        queue: &mut Vec<Codel>,
        Ghost(seed): Ghost<Codel>,
        Ghost(members): Ghost<Seq<Codel>>,
    )
        requires
            self.wf(),
            self.in_bounds(n),
            seen@.len() == self.width * self.height,
            members.len() > 0,
            members[members.len() - 1] == n,
            forall|i: int|
                0 <= i < old(queue)@.len() ==> queue_entry_ok(
                    *self,
                    seed,
                    members,
                    #[trigger] old(queue)@[i],
                ),
        ensures
            forall|i: int|
                0 <= i < final(queue)@.len() ==> queue_entry_ok(
                    *self,
                    seed,
                    members,
                    #[trigger] final(queue)@[i],
                ),
            forall|q: Codel| old(queue)@.contains(q) ==> final(queue)@.contains(q),
            forall|p: Codel|
                #[trigger] adjacent(n, p) && self.in_bounds(p) ==> marked(*self, seen@, p)
                    || final(queue)@.contains(p),
    {
        let width: u32 = self.width;
        let height: u32 = self.height;
        let ghost k = members.len() - 1;
        if n.x > 0 {
            let left = Codel { x: n.x - 1, y: n.y };
            proof {
                assert(adjacent(members[k], left));
            }
            self.push_neighbor(seen, queue, left, Ghost(seed), Ghost(members));
        }
        if n.y > 0 {
            let up = Codel { x: n.x, y: n.y - 1 };
            proof {
                assert(adjacent(members[k], up));
            }
            self.push_neighbor(seen, queue, up, Ghost(seed), Ghost(members));
        }
        if n.x + 1 < width {
            let right = Codel { x: n.x + 1, y: n.y };
            proof {
                assert(adjacent(members[k], right));
            }
            self.push_neighbor(seen, queue, right, Ghost(seed), Ghost(members));
        }
        if n.y + 1 < height {
            let down = Codel { x: n.x, y: n.y + 1 };
            proof {
                assert(adjacent(members[k], down));
            }
            self.push_neighbor(seen, queue, down, Ghost(seed), Ghost(members));
        }
        proof {
            assert forall|p: Codel| #[trigger] adjacent(n, p) && self.in_bounds(p) implies marked(
                *self,
                seen@,
                p,
            ) || queue@.contains(p) by {
                if !marked(*self, seen@, p) {
                    if p.x == n.x {
                        if p.y == n.y + 1 {
                            assert(p == (Codel { x: n.x, y: (n.y + 1) as u32 }));
                            assert(queue@.contains(p));
                        } else {
                            assert(p.y + 1 == n.y);
                            assert(p == (Codel { x: n.x, y: (n.y - 1) as u32 }));
                            assert(queue@.contains(p));
                        }
                    } else {
                        assert(p.y == n.y);
                        if p.x == n.x + 1 {
                            assert(p == (Codel { x: (n.x + 1) as u32, y: n.y }));
                            assert(queue@.contains(p));
                        } else {
                            assert(p.x + 1 == n.x);
                            assert(p == (Codel { x: (n.x - 1) as u32, y: n.y }));
                            assert(queue@.contains(p));
                        }
                    }
                }
            }
        }
    }

    /// Record a newly discovered region member: mark it seen, append it to
    /// the member list, widen the bounding box, and offer its neighbours to
    /// the worklist. The contract carries the flood fill's loop invariants
    /// across the recording.
    #[verifier::rlimit(100)]
    fn record_member(
        &self,
        n: Codel,
        seen: &mut Vec<bool>,
        members: &mut Vec<Codel>,
        queue: &mut Vec<Codel>,
        min_x: &mut u32,
        max_x: &mut u32,
        min_y: &mut u32,
        max_y: &mut u32,
        Ghost(loc): Ghost<Codel>,
    )
        requires
            self.wf(),
            self.in_bounds(loc),
            self.in_bounds(n),
            self.color_at_spec(n) == self.color_at_spec(loc),
            in_region(*self, loc, n),
            old(seen)@.len() == self.width * self.height,
            !marked(*self, old(seen)@, n),
            count_true(old(seen)@) == old(members)@.len(),
            old(members)@.no_duplicates(),
            forall|i: int|
                0 <= i < old(members)@.len() ==> self.in_bounds(#[trigger] old(members)@[i])
                    && self.color_at_spec(old(members)@[i]) == self.color_at_spec(loc)
                    && in_region(*self, loc, old(members)@[i]),
            forall|i: int|
                0 <= i < old(members)@.len() ==> marked(
                    *self,
                    old(seen)@,
                    #[trigger] old(members)@[i],
                ),
            forall|p: Codel|
                self.in_bounds(p) && #[trigger] marked(*self, old(seen)@, p) ==> old(members)@.contains(p),
            forall|i: int|
                0 <= i < old(queue)@.len() ==> queue_entry_ok(
                    *self,
                    loc,
                    old(members)@,
                    #[trigger] old(queue)@[i],
                ),
            forall|k: int, p: Codel|
                0 <= k < old(members)@.len() && #[trigger] adjacent(old(members)@[k], p)
                    && self.in_bounds(p) && self.color_at_spec(p) == self.color_at_spec(loc)
                    ==> marked(*self, old(seen)@, p) || old(queue)@.contains(p) || p == n,
            old(members)@.contains(loc) || old(queue)@.contains(loc) || n == loc,
            forall|i: int|
                0 <= i < old(members)@.len() ==> *old(min_x) <= (#[trigger] old(members)@[i]).x
                    <= *old(max_x) && *old(min_y) <= old(members)@[i].y <= *old(max_y),
            old(members)@.len() == 0 ==> *old(min_x) == self.width && *old(max_x) == 0 && *old(min_y) == self.height && *old(max_y) == 0,
            old(members)@.len() > 0 ==> (exists|i: int|
                0 <= i < old(members)@.len() && (#[trigger] old(members)@[i]).x == *old(min_x)),
            old(members)@.len() > 0 ==> (exists|i: int|
                0 <= i < old(members)@.len() && (#[trigger] old(members)@[i]).x == *old(max_x)),
            old(members)@.len() > 0 ==> (exists|i: int|
                0 <= i < old(members)@.len() && (#[trigger] old(members)@[i]).y == *old(min_y)),
            old(members)@.len() > 0 ==> (exists|i: int|
                0 <= i < old(members)@.len() && (#[trigger] old(members)@[i]).y == *old(max_y)),
        ensures
            final(seen)@.len() == self.width * self.height,
            final(members)@ == old(members)@.push(n),
            count_true(final(seen)@) == count_true(old(seen)@) + 1,
            count_true(final(seen)@) == final(members)@.len(),
            final(members)@.no_duplicates(),
            forall|i: int|
                0 <= i < final(members)@.len() ==> self.in_bounds(#[trigger] final(members)@[i])
                    && self.color_at_spec(final(members)@[i]) == self.color_at_spec(loc)
                    && in_region(*self, loc, final(members)@[i]),
            forall|i: int|
                0 <= i < final(members)@.len() ==> marked(
                    *self,
                    final(seen)@,
                    #[trigger] final(members)@[i],
                ),
            forall|p: Codel|
                self.in_bounds(p) && #[trigger] marked(*self, final(seen)@, p) ==> final(members)@.contains(p),
            forall|i: int|
                0 <= i < final(queue)@.len() ==> queue_entry_ok(
                    *self,
                    loc,
                    final(members)@,
                    #[trigger] final(queue)@[i],
                ),
            forall|k: int, p: Codel|
                0 <= k < final(members)@.len() && #[trigger] adjacent(final(members)@[k], p)
                    && self.in_bounds(p) && self.color_at_spec(p) == self.color_at_spec(loc)
                    ==> marked(*self, final(seen)@, p) || final(queue)@.contains(p),
            final(members)@.contains(loc) || final(queue)@.contains(loc),
            forall|i: int|
                0 <= i < final(members)@.len() ==> *final(min_x) <= (#[trigger] final(members)@[i]).x <= *final(max_x) && *final(min_y) <= final(members)@[i].y <= *final(max_y),
            final(members)@.len() > 0,
            exists|i: int|
                0 <= i < final(members)@.len() && (#[trigger] final(members)@[i]).x == *final(min_x),
            exists|i: int|
                0 <= i < final(members)@.len() && (#[trigger] final(members)@[i]).x == *final(max_x),
            exists|i: int|
                0 <= i < final(members)@.len() && (#[trigger] final(members)@[i]).y == *final(min_y),
            exists|i: int|
                0 <= i < final(members)@.len() && (#[trigger] final(members)@[i]).y == *final(max_y),
    {
        let ghost c = self.color_at_spec(loc);
        let ghost old_members = members@;
        let ghost old_seen = seen@;
        let ghost old_queue = queue@;
        let ghost old_min_x = *min_x;
        let ghost old_max_x = *max_x;
        let ghost old_min_y = *min_y;
        let ghost old_max_y = *max_y;
        let ni: usize = self.flat_of(n);
        proof {
            lemma_count_true_set(seen@, ni as int);
            assert(!members@.contains(n)) by {
                if members@.contains(n) {
                    let i = choose|i: int| 0 <= i < members@.len() && members@[i] == n;
                    assert(marked(*self, seen@, members@[i]));
                }
            }
        }
        seen[ni] = true;
        members.push(n);
        if n.x > *max_x {
            *max_x = n.x;
        }
        if n.y > *max_y {
            *max_y = n.y;
        }
        if n.x < *min_x {
            *min_x = n.x;
        }
        if n.y < *min_y {
            *min_y = n.y;
        }
        proof {
            assert(members@ == old_members.push(n));
            assert(members@[members@.len() - 1] == n);
            assert(seen@ == old_seen.update(ni as int, true));
            assert(marked(*self, seen@, n)) by {
                lemma_flat_in_range(*self, n);
            }
            // No duplicates: the new member was unmarked.
            assert(members@.no_duplicates()) by {
                assert forall|i: int, j: int|
                    0 <= i < members@.len() && 0 <= j < members@.len() && i != j
                        implies members@[i] != members@[j] by {
                    if i < old_members.len() && j < old_members.len() {
                        assert(old_members[i] != old_members[j]);
                    } else if i < old_members.len() {
                        assert(members@[j] == n);
                        if old_members[i] == n {
                            assert(old_members.contains(n));
                        }
                    } else {
                        assert(members@[i] == n);
                        if old_members[j] == n {
                            assert(old_members.contains(n));
                        }
                    }
                }
            }
            // Every marked codel is a member.
            assert forall|p: Codel|
                self.in_bounds(p) && #[trigger] marked(*self, seen@, p)
                    implies members@.contains(p) by {
                lemma_flat_in_range(*self, p);
                if flat_index(*self, p) == ni as int {
                    lemma_row_major_injective(
                        p.x as int,
                        p.y as int,
                        n.x as int,
                        n.y as int,
                        self.width as int,
                    );
                    assert(p == n);
                    lemma_contains_push(old_members, n, p);
                } else {
                    assert(marked(*self, old_seen, p));
                    lemma_contains_push(old_members, n, p);
                }
            }
            // Every member is marked.
            assert forall|i: int| 0 <= i < members@.len() implies marked(
                *self,
                seen@,
                #[trigger] members@[i],
            ) by {
                lemma_flat_in_range(*self, members@[i]);
                if i < old_members.len() {
                    assert(marked(*self, old_seen, old_members[i]));
                }
            }
            // Worklist entries stay justified with one more member.
            assert forall|i: int| 0 <= i < queue@.len() implies queue_entry_ok(
                *self,
                loc,
                members@,
                #[trigger] queue@[i],
            ) by {
                lemma_entry_ok_more_members(*self, loc, old_members, n, queue@[i]);
            }
            // Bounding box stays exact.
            assert(exists|i: int|
                0 <= i < members@.len() && (#[trigger] members@[i]).x == *min_x) by {
                if n.x <= old_min_x {
                    assert(members@[members@.len() - 1].x == *min_x);
                } else {
                    let i = choose|i: int|
                        0 <= i < old_members.len() && (#[trigger] old_members[i]).x == old_min_x;
                    assert(members@[i].x == *min_x);
                }
            }
            assert(exists|i: int|
                0 <= i < members@.len() && (#[trigger] members@[i]).x == *max_x) by {
                if n.x >= old_max_x {
                    assert(members@[members@.len() - 1].x == *max_x);
                } else {
                    let i = choose|i: int|
                        0 <= i < old_members.len() && (#[trigger] old_members[i]).x == old_max_x;
                    assert(members@[i].x == *max_x);
                }
            }
            assert(exists|i: int|
                0 <= i < members@.len() && (#[trigger] members@[i]).y == *min_y) by {
                if n.y <= old_min_y {
                    assert(members@[members@.len() - 1].y == *min_y);
                } else {
                    let i = choose|i: int|
                        0 <= i < old_members.len() && (#[trigger] old_members[i]).y == old_min_y;
                    assert(members@[i].y == *min_y);
                }
            }
            assert(exists|i: int|
                0 <= i < members@.len() && (#[trigger] members@[i]).y == *max_y) by {
                if n.y >= old_max_y {
                    assert(members@[members@.len() - 1].y == *max_y);
                } else {
                    let i = choose|i: int|
                        0 <= i < old_members.len() && (#[trigger] old_members[i]).y == old_max_y;
                    assert(members@[i].y == *max_y);
                }
            }
        }
        let ghost q0 = queue@;
        self.push_frontier(n, seen, queue, Ghost(loc), Ghost(members@));
        proof {
            // Every same-color in-bounds neighbour of a member is now marked
            // or on the worklist.
            assert forall|k: int, p: Codel|
                0 <= k < members@.len() && #[trigger] adjacent(members@[k], p) && self.in_bounds(
                    p,
                ) && self.color_at_spec(p) == c implies marked(*self, seen@, p)
                || queue@.contains(p) by {
                lemma_flat_in_range(*self, p);
                if members@[k] == n {
                    assert(adjacent(n, p));
                } else {
                    let ko = choose|ko: int|
                        0 <= ko < old_members.len() && old_members[ko] == members@[k];
                    assert(adjacent(old_members[ko], p));
                    if marked(*self, old_seen, p) {
                        assert(marked(*self, seen@, p));
                    } else if p == n {
                        assert(marked(*self, seen@, p));
                    } else {
                        assert(old_queue.contains(p));
                        assert(q0.contains(p));
                        assert(queue@.contains(p));
                    }
                }
            }
            // The seed is accounted for.
            assert(members@.contains(loc) || queue@.contains(loc)) by {
                if old_members.contains(loc) || n == loc {
                    lemma_contains_push(old_members, n, loc);
                } else {
                    assert(old_queue.contains(loc));
                }
            }
        }
    }

    /// Flood fill: collect the maximal 4-connected group of codels carrying
    /// the seed's color that is reachable from the seed, together with its
    /// tight bounding box. A worklist-based traversal; a codel may be queued
    /// more than once, so entries are deduplicated when taken off the
    /// worklist, against a flat grid of seen flags.
    #[verifier::rlimit(100)]
    pub fn get_codels_in_block(&self, loc: Codel) -> (res: FloodFill)
        requires
            self.wf(),
            self.in_bounds(loc),
        ensures
            valid_flood_fill(*self, loc, res),
    {
        let width: u32 = self.width;
        let height: u32 = self.height;
        let total: u32 = width * height;
        let ghost c = self.color_at_spec(loc);

        let mut seen: Vec<bool> = Vec::new();
        while seen.len() < total as usize
            invariant
                seen@.len() <= total,
                forall|i: int| 0 <= i < seen@.len() ==> !seen@[i],
            decreases total - seen@.len(),
        {
            seen.push(false);
        }

        let block_color: PietColor = self.color_at_unchecked(loc);
        let mut queue: Vec<Codel> = Vec::new();
        queue.push(loc);
        let mut members: Vec<Codel> = Vec::new();
        let mut min_y: u32 = height;
        let mut max_y: u32 = 0;
        let mut min_x: u32 = width;
        let mut max_x: u32 = 0;

        proof {
            lemma_count_true_all_false(seen@);
            assert(queue@[0] == loc);
            assert forall|p: Codel| self.in_bounds(p) && #[trigger] marked(*self, seen@, p)
                implies members@.contains(p) by {
                lemma_flat_in_range(*self, p);
            }
        }

        while queue.len() > 0
            invariant
                self.wf(),
                self.in_bounds(loc),
                width == self.width,
                height == self.height,
                total == width * height,
                block_color == c,
                c == self.color_at_spec(loc),
                seen@.len() == width * height,
                count_true(seen@) == members@.len(),
                members@.no_duplicates(),
                forall|i: int|
                    0 <= i < members@.len() ==> self.in_bounds(#[trigger] members@[i])
                        && self.color_at_spec(members@[i]) == c && in_region(
                        *self,
                        loc,
                        members@[i],
                    ),
                forall|i: int|
                    0 <= i < members@.len() ==> marked(*self, seen@, #[trigger] members@[i]),
                forall|p: Codel|
                    self.in_bounds(p) && #[trigger] marked(*self, seen@, p)
                        ==> members@.contains(p),
                forall|i: int|
                    0 <= i < queue@.len() ==> queue_entry_ok(
                        *self,
                        loc,
                        members@,
                        #[trigger] queue@[i],
                    ),
                forall|k: int, p: Codel|
                    0 <= k < members@.len() && #[trigger] adjacent(members@[k], p)
                        && self.in_bounds(p) && self.color_at_spec(p) == c ==> marked(
                        *self,
                        seen@,
                        p,
                    ) || queue@.contains(p),
                members@.contains(loc) || queue@.contains(loc),
                forall|i: int|
                    0 <= i < members@.len() ==> min_x <= (#[trigger] members@[i]).x <= max_x
                        && min_y <= members@[i].y <= max_y,
                members@.len() == 0 ==> min_x == width && max_x == 0 && min_y == height && max_y
                    == 0,
                members@.len() > 0 ==> (exists|i: int|
                    0 <= i < members@.len() && (#[trigger] members@[i]).x == min_x),
                members@.len() > 0 ==> (exists|i: int|
                    0 <= i < members@.len() && (#[trigger] members@[i]).x == max_x),
                members@.len() > 0 ==> (exists|i: int|
                    0 <= i < members@.len() && (#[trigger] members@[i]).y == min_y),
                members@.len() > 0 ==> (exists|i: int|
                    0 <= i < members@.len() && (#[trigger] members@[i]).y == max_y),
            decreases width * height - count_true(seen@), queue@.len(),
        {
            let ghost old_queue = queue@;
            let n: Codel = match queue.pop() {
                Some(n) => n,
                None => {
                    proof {
                        assert(false);
                    }
                    loc
                },
            };
            proof {
                lemma_count_true_le(seen@);
                assert(n == old_queue[old_queue.len() - 1]);
                assert(queue_entry_ok(*self, loc, members@, n));
                // After the pop, every promise the worklist made still
                // stands, up to the popped entry itself.
                assert forall|k: int, p: Codel|
                    0 <= k < members@.len() && #[trigger] adjacent(members@[k], p)
                        && self.in_bounds(p) && self.color_at_spec(p) == c implies marked(
                    *self,
                    seen@,
                    p,
                ) || queue@.contains(p) || p == n by {
                    if !marked(*self, seen@, p) {
                        assert(old_queue.contains(p));
                        if p != n {
                            lemma_contains_drop_last(old_queue, p);
                        }
                    }
                }
                assert(members@.contains(loc) || queue@.contains(loc) || n == loc) by {
                    if !members@.contains(loc) && loc != n {
                        assert(old_queue.contains(loc));
                        lemma_contains_drop_last(old_queue, loc);
                    }
                }
            }
            let ni: usize = self.flat_of(n);
            if !seen[ni] {
                let codel_color: PietColor = self.color_at_unchecked(n);
                if codel_color == block_color {
                    proof {
                        // The dequeued codel really is a region member.
                        if n == loc {
                            lemma_region_seed(*self, loc);
                        } else {
                            let k = choose|k: int|
                                0 <= k < members@.len() && adjacent(#[trigger] members@[k], n);
                            lemma_region_extend(*self, loc, members@[k], n);
                        }
                    }
                    self.record_member(
                        n,
                        &mut seen,
                        &mut members,
                        &mut queue,
                        &mut min_x,
                        &mut max_x,
                        &mut min_y,
                        &mut max_y,
                        Ghost(loc),
                    );
                    proof {
                        lemma_count_true_le(seen@);
                    }
                } else {
                    proof {
                        // A wrong-colored entry: the worklist never promised
                        // it a place, since promises carry the block color.
                        assert forall|k: int, p: Codel|
                            0 <= k < members@.len() && #[trigger] adjacent(members@[k], p)
                                && self.in_bounds(p) && self.color_at_spec(p) == c implies marked(
                            *self,
                            seen@,
                            p,
                        ) || queue@.contains(p) by {
                            assert(p != n);
                        }
                        assert(members@.contains(loc) || queue@.contains(loc)) by {
                            assert(loc != n);
                        }
                    }
                }
            } else {
                proof {
                    // Already seen: the entry is a member, so dropping it
                    // breaks no promise the worklist made.
                    assert(members@.contains(n));
                    assert forall|k: int, p: Codel|
                        0 <= k < members@.len() && #[trigger] adjacent(members@[k], p)
                            && self.in_bounds(p) && self.color_at_spec(p) == c implies marked(
                        *self,
                        seen@,
                        p,
                    ) || queue@.contains(p) by {}
                    assert(members@.contains(loc) || queue@.contains(loc)) by {
                        if loc == n {
                            assert(marked(*self, seen@, loc));
                        }
                    }
                }
            }
        }

        proof {
            // The worklist is empty: the member list is closed under
            // same-color adjacency, hence contains the whole region.
            assert(members@.contains(loc));
            assert forall|a: Codel, b: Codel|
                #![trigger members@.contains(a), adjacent(a, b)]
                members@.contains(a) && adjacent(a, b) && self.in_bounds(b)
                    && self.color_at_spec(b) == self.color_at_spec(loc)
                    implies members@.contains(b) by {
                let k = choose|k: int| 0 <= k < members@.len() && members@[k] == a;
                assert(adjacent(members@[k], b));
            }
            assert forall|p: Codel| in_region(*self, loc, p) implies members@.contains(p) by {
                lemma_closed_contains_region(*self, loc, members@, p);
            }
            // The member count is the region's cardinality.
            members@.unique_seq_to_set();
            assert(members@.to_set() =~= region_set(*self, loc));
            lemma_count_true_le(seen@);
        }

        FloodFill { codels: members, max_x, min_x, max_y, min_y }
    }
}

} // verus!
