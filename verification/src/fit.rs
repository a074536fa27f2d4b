//! The fit of a light's view volume to what the light sees of the camera's
//! view volume.
//!
//! The camera's view volume is cut by the light's near plane. What lies
//! beyond the plane is projected onto it, and the bounds of this footprint
//! are intersected with the light's frame. The fit takes the frame to the
//! overlap.
//!
//! Corner `i` of the view volume has bit `0b001` set on its right side, bit
//! `0b010` on its top side and bit `0b100` on its far side, so two corners
//! share an edge when their numbers differ in one bit. A set of corners is a
//! mask with bit `i` set for corner `i`. Which corners are projected and
//! which edges are cut depends on the sets of corners behind and beyond the
//! plane alone, and so does the size of the footprint.

use vstd::prelude::*;
use crate::math::{Affine3, Scale2, Vector2, Vector3};
use crate::rect::Rect;
use crate::scalar::{is_exact, Fun, Model, Op, Rel, Scalars};

verus! {

/// Number of corners of the view volume.
pub const CORNER_COUNT: usize = 8;

/// A point of the footprint of the cut view volume on the near plane.
#[derive(Clone, Copy, Debug, PartialEq, Eq)]
pub enum CutCorner {
    /// `corner` is not behind the plane: it is projected onto the plane.
    Projected { corner: usize },
    /// `corner` is behind the plane and `neighbour` beyond it: the point
    /// where the edge between them passes through the plane.
    Cut { corner: usize, neighbour: usize },
}

/// Whether `corner` belongs to the set `mask`.
pub open spec fn has_corner(mask: u8, corner: usize) -> bool {
    mask & (1u8 << corner) != 0
}

/// The cut on the edge that leaves `corner` along `axis`, if its other end
/// is beyond the plane.
pub open spec fn edge_cut(beyond: u8, corner: usize, axis: usize) -> Seq<CutCorner> {
    if has_corner(beyond, corner ^ axis) {
        seq![CutCorner::Cut { corner, neighbour: corner ^ axis }]
    } else {
        Seq::empty()
    }
}

/// The points that `corner` contributes.
pub open spec fn corner_cuts(behind: u8, beyond: u8, corner: usize) -> Seq<CutCorner> {
    if has_corner(behind, corner) {
        edge_cut(beyond, corner, 0b100) + edge_cut(beyond, corner, 0b010) + edge_cut(
            beyond,
            corner,
            0b001,
        )
    } else {
        seq![CutCorner::Projected { corner }]
    }
}

/// The points that the corners below `upto` contribute, corner by corner.
pub open spec fn cuts_below(behind: u8, beyond: u8, upto: nat) -> Seq<CutCorner>
    decreases upto,
{
    if upto == 0 {
        Seq::empty()
    } else {
        cuts_below(behind, beyond, (upto - 1) as nat) + corner_cuts(
            behind,
            beyond,
            (upto - 1) as usize,
        )
    }
}

/// The footprint of a view volume whose corners in `behind` lie behind the
/// plane and whose corners in `beyond` lie strictly beyond it.
pub open spec fn footprint(behind: u8, beyond: u8) -> Seq<CutCorner> {
    cuts_below(behind, beyond, CORNER_COUNT as nat)
}

/// Lists the points of the footprint: each corner that is not behind the
/// plane as itself, each corner behind it by the cuts on its edges to the
/// corners beyond.
pub fn cut_corners(behind: u8, beyond: u8) -> (cut: Vec<CutCorner>)
    ensures
        cut@ == footprint(behind, beyond),
        cut@.len() <= 3 * CORNER_COUNT,
        behind & beyond == 0 ==> (cut@.len() == 0 <==> behind == 0xFF),
{
    proof {
        lemma_footprint_at_most_three_each(behind, beyond);
        if behind & beyond == 0 {
            lemma_footprint_empty_iff_all_behind(behind, beyond);
        }
    }
    let mut cut: Vec<CutCorner> = Vec::new();
    let mut i: usize = 0;
    while i < CORNER_COUNT
        invariant
            i <= CORNER_COUNT,
            cut@ == cuts_below(behind, beyond, i as nat),
        decreases CORNER_COUNT - i,
    {
        let ghost before = cut@;
        if behind & (1u8 << i) != 0 {
            let mut axis_mask: usize = 0b100;
            while axis_mask != 0b000
                invariant
                    i < CORNER_COUNT,
                    axis_mask == 0b100 || axis_mask == 0b010 || axis_mask == 0b001 || axis_mask
                        == 0b000,
                    cut@ == before + (if axis_mask == 0b100 {
                        Seq::empty()
                    } else if axis_mask == 0b010 {
                        edge_cut(beyond, i, 0b100)
                    } else if axis_mask == 0b001 {
                        edge_cut(beyond, i, 0b100) + edge_cut(beyond, i, 0b010)
                    } else {
                        edge_cut(beyond, i, 0b100) + edge_cut(beyond, i, 0b010) + edge_cut(
                            beyond,
                            i,
                            0b001,
                        )
                    }),
                decreases axis_mask,
            {
                let other: usize = i ^ axis_mask;
                assert(other < 8) by (bit_vector)
                    requires
                        other == i ^ axis_mask,
                        i < 8,
                        axis_mask == 4 || axis_mask == 2 || axis_mask == 1,
                ;
                if beyond & (1u8 << other) != 0 {
                    cut.push(CutCorner::Cut { corner: i, neighbour: other });
                }
                assert(axis_mask >> 1 == if axis_mask == 4 {
                    2usize
                } else if axis_mask == 2 {
                    1usize
                } else {
                    0usize
                }) by (bit_vector)
                    requires
                        axis_mask == 4 || axis_mask == 2 || axis_mask == 1,
                ;
                axis_mask >>= 1;
            }
        } else {
            cut.push(CutCorner::Projected { corner: i });
        }
        i += 1;
    }
    cut
}

/// The number of points that `corner` contributes.
pub open spec fn points_at(behind: u8, beyond: u8, corner: usize) -> int {
    if behind & (1u8 << corner) != 0 {
        (if beyond & (1u8 << (corner ^ 0b100)) != 0 {
            1int
        } else {
            0int
        }) + (if beyond & (1u8 << (corner ^ 0b010)) != 0 {
            1int
        } else {
            0int
        }) + (if beyond & (1u8 << (corner ^ 0b001)) != 0 {
            1int
        } else {
            0int
        })
    } else {
        1int
    }
}

/// The number of points of the footprint.
pub open spec fn point_count(behind: u8, beyond: u8) -> int {
    points_at(behind, beyond, 0) + points_at(behind, beyond, 1) + points_at(behind, beyond, 2)
        + points_at(behind, beyond, 3) + points_at(behind, beyond, 4) + points_at(
        behind,
        beyond,
        5,
    ) + points_at(behind, beyond, 6) + points_at(behind, beyond, 7)
}

/// The corners that share an edge with a corner of `set`.
pub open spec fn neighbours(set: u8) -> u8 {
    ((set & 0x55) << 1) | ((set & 0xAA) >> 1) | ((set & 0x33) << 2) | ((set & 0xCC) >> 2) | ((set
        & 0x0F) << 4) | ((set & 0xF0) >> 4)
}

/// `set` and the corners of `within` that share an edge with it.
pub open spec fn grow(set: u8, within: u8) -> u8 {
    (set | neighbours(set)) & within
}

/// The lowest corner of `set`, as a set of its own.
pub open spec fn first_corner(set: u8) -> u8 {
    if set & 0x01 != 0 {
        0x01
    } else if set & 0x02 != 0 {
        0x02
    } else if set & 0x04 != 0 {
        0x04
    } else if set & 0x08 != 0 {
        0x08
    } else if set & 0x10 != 0 {
        0x10
    } else if set & 0x20 != 0 {
        0x20
    } else if set & 0x40 != 0 {
        0x40
    } else {
        set & 0x80
    }
}

/// Every corner of `set` is reached from its lowest corner along edges
/// between corners of `set`.
pub open spec fn connected(set: u8) -> bool {
    grow(
        grow(grow(grow(grow(grow(grow(first_corner(set), set), set), set), set), set), set),
        set,
    ) == set
}

/// The number of points that the corners below `upto` contribute.
pub open spec fn points_below(behind: u8, beyond: u8, upto: nat) -> int
    decreases upto,
{
    if upto == 0 {
        0
    } else {
        points_below(behind, beyond, (upto - 1) as nat) + points_at(
            behind,
            beyond,
            (upto - 1) as usize,
        )
    }
}

/// The corners below `upto` contribute `points_below` points.
pub proof fn lemma_cuts_below_len(behind: u8, beyond: u8, upto: nat)
    ensures
        cuts_below(behind, beyond, upto).len() == points_below(behind, beyond, upto),
    decreases upto,
{
    if upto > 0 {
        lemma_cuts_below_len(behind, beyond, (upto - 1) as nat);
    }
}

/// The footprint has `point_count` points.
pub proof fn lemma_footprint_len(behind: u8, beyond: u8)
    ensures
        footprint(behind, beyond).len() == point_count(behind, beyond),
{
    lemma_cuts_below_len(behind, beyond, 8);
    assert(points_below(behind, beyond, 8) == point_count(behind, beyond)) by {
        reveal_with_fuel(points_below, 9);
    }
}

/// Whatever the sets, no corner contributes more than three points.
pub proof fn lemma_footprint_at_most_three_each(behind: u8, beyond: u8)
    ensures
        footprint(behind, beyond).len() <= 3 * CORNER_COUNT,
{
    lemma_footprint_len(behind, beyond);
}

/// When the corners behind the plane are connected along the edges of the
/// volume, as the corners on one side of a plane are, the footprint has at
/// most ten points.
pub proof fn lemma_footprint_of_connected_at_most_ten(behind: u8, beyond: u8)
    requires
        connected(behind),
        behind & beyond == 0,
    ensures
        footprint(behind, beyond).len() <= 10,
{
    lemma_footprint_len(behind, beyond);
    let r1 = grow(first_corner(behind), behind);
    let r2 = grow(r1, behind);
    let r3 = grow(r2, behind);
    let r4 = grow(r3, behind);
    let r5 = grow(r4, behind);
    let r6 = grow(r5, behind);
    let r7 = grow(r6, behind);
    assert(point_count(behind, beyond) <= 10) by (bit_vector)
        requires
            r1 == grow(first_corner(behind), behind),
            r2 == grow(r1, behind),
            r3 == grow(r2, behind),
            r4 == grow(r3, behind),
            r5 == grow(r4, behind),
            r6 == grow(r5, behind),
            r7 == grow(r6, behind),
            r7 == behind,
            behind & beyond == 0,
    ;
}

/// The footprint is empty exactly when the whole view volume lies behind
/// the plane.
pub proof fn lemma_footprint_empty_iff_all_behind(behind: u8, beyond: u8)
    requires
        behind & beyond == 0,
    ensures
        footprint(behind, beyond).len() == 0 <==> behind == 0xFF,
{
    lemma_footprint_len(behind, beyond);
    assert(point_count(behind, beyond) == 0 <==> behind == 0xFF) by (bit_vector)
        requires
            behind & beyond == 0,
    ;
}

/// The depth of `corner` before the cutting plane, up to a positive
/// factor: negative behind the plane, positive beyond it.
///
/// The depth of a point is affine in its coordinates. On the near face it
/// changes by `2 * a` from left to right and by `2 * b` from bottom to top
/// around `c` in the middle of the face, and the plane lies at depth `e`.
/// The far face is the near face scaled from the eye by `far_num /
/// far_den`.
pub open spec fn depth_before_plane(
    corner: usize,
    a: int,
    b: int,
    c: int,
    e: int,
    far_num: int,
    far_den: int,
) -> int {
    let on_near_face = (if corner % 2 == 1 {
        a
    } else {
        -a
    }) + (if (corner / 2) % 2 == 1 {
        b
    } else {
        -b
    }) + c;
    if corner / 4 == 1 {
        far_num * on_near_face - far_den * e
    } else {
        on_near_face - e
    }
}

/// `behind` and `beyond` are the corners of a view volume on the two
/// sides of a plane.
pub open spec fn cut_by_plane(
    behind: u8,
    beyond: u8,
    a: int,
    b: int,
    c: int,
    e: int,
    far_num: int,
    far_den: int,
) -> bool {
    &&& far_num > 0 && far_den > 0
    &&& forall|corner: usize|
        corner < CORNER_COUNT ==> (#[trigger] has_corner(behind, corner) <==> depth_before_plane(
            corner,
            a,
            b,
            c,
            e,
            far_num,
            far_den,
        ) < 0)
    &&& forall|corner: usize|
        corner < CORNER_COUNT ==> (#[trigger] has_corner(beyond, corner) <==> depth_before_plane(
            corner,
            a,
            b,
            c,
            e,
            far_num,
            far_den,
        ) > 0)
}

/// Of two corners of the near face, one does not lie behind the plane with
/// its far corner beyond while the other lies beyond with its far corner
/// behind.
proof fn lemma_deeper_is_behind_first(
    near_k: int,
    near_j: int,
    e: int,
    far_num: int,
    far_den: int,
)
    requires
        far_num > 0,
    ensures
        !(near_k < e && far_num * near_k >= far_den * e && far_num * near_j < far_den * e
            && near_j >= e),
{
    if near_k < near_j {
        assert(far_num * near_k <= far_num * near_j) by (nonlinear_arith)
            requires
                far_num > 0,
                near_k < near_j,
        ;
    }
}

/// The corners that a plane leaves behind it are connected along the
/// edges of the view volume, and none of them lies beyond it.
pub proof fn lemma_plane_cut_is_connected(
    behind: u8,
    beyond: u8,
    a: int,
    b: int,
    c: int,
    e: int,
    far_num: int,
    far_den: int,
)
    requires
        cut_by_plane(behind, beyond, a, b, c, e, far_num, far_den),
    ensures
        connected(behind),
        behind & beyond == 0,
{
    let near_0 = -a - b + c;
    let near_1 = a - b + c;
    let near_2 = -a + b + c;
    let near_3 = a + b + c;
    assert(far_num * near_0 + far_num * near_3 == far_num * near_1 + far_num * near_2)
        by (nonlinear_arith)
        requires
            near_0 + near_3 == near_1 + near_2,
    ;
    lemma_deeper_is_behind_first(near_0, near_1, e, far_num, far_den);
    lemma_deeper_is_behind_first(near_0, near_2, e, far_num, far_den);
    lemma_deeper_is_behind_first(near_0, near_3, e, far_num, far_den);
    lemma_deeper_is_behind_first(near_1, near_0, e, far_num, far_den);
    lemma_deeper_is_behind_first(near_1, near_2, e, far_num, far_den);
    lemma_deeper_is_behind_first(near_1, near_3, e, far_num, far_den);
    lemma_deeper_is_behind_first(near_2, near_0, e, far_num, far_den);
    lemma_deeper_is_behind_first(near_2, near_1, e, far_num, far_den);
    lemma_deeper_is_behind_first(near_2, near_3, e, far_num, far_den);
    lemma_deeper_is_behind_first(near_3, near_0, e, far_num, far_den);
    lemma_deeper_is_behind_first(near_3, near_1, e, far_num, far_den);
    lemma_deeper_is_behind_first(near_3, near_2, e, far_num, far_den);
    assert(has_corner(behind, 0) <==> near_0 < e);
    assert(has_corner(behind, 1) <==> near_1 < e);
    assert(has_corner(behind, 2) <==> near_2 < e);
    assert(has_corner(behind, 3) <==> near_3 < e);
    assert(has_corner(behind, 4) <==> far_num * near_0 < far_den * e);
    assert(has_corner(behind, 5) <==> far_num * near_1 < far_den * e);
    assert(has_corner(behind, 6) <==> far_num * near_2 < far_den * e);
    assert(has_corner(behind, 7) <==> far_num * near_3 < far_den * e);
    let r1 = grow(first_corner(behind), behind);
    let r2 = grow(r1, behind);
    let r3 = grow(r2, behind);
    let r4 = grow(r3, behind);
    let r5 = grow(r4, behind);
    let r6 = grow(r5, behind);
    let r7 = grow(r6, behind);
    assert(r7 == behind) by (bit_vector)
        requires
            r1 == grow(first_corner(behind), behind),
            r2 == grow(r1, behind),
            r3 == grow(r2, behind),
            r4 == grow(r3, behind),
            r5 == grow(r4, behind),
            r6 == grow(r5, behind),
            r7 == grow(r6, behind),
            has_corner(behind, 0) && has_corner(behind, 3) ==> has_corner(behind, 1)
                || has_corner(behind, 2),
            has_corner(behind, 1) && has_corner(behind, 2) ==> has_corner(behind, 0)
                || has_corner(behind, 3),
            has_corner(behind, 4) && has_corner(behind, 7) ==> has_corner(behind, 5)
                || has_corner(behind, 6),
            has_corner(behind, 5) && has_corner(behind, 6) ==> has_corner(behind, 4)
                || has_corner(behind, 7),
            !(has_corner(behind, 0) && !has_corner(behind, 4) && has_corner(behind, 5)
                && !has_corner(behind, 1)),
            !(has_corner(behind, 0) && !has_corner(behind, 4) && has_corner(behind, 6)
                && !has_corner(behind, 2)),
            !(has_corner(behind, 0) && !has_corner(behind, 4) && has_corner(behind, 7)
                && !has_corner(behind, 3)),
            !(has_corner(behind, 1) && !has_corner(behind, 5) && has_corner(behind, 4)
                && !has_corner(behind, 0)),
            !(has_corner(behind, 1) && !has_corner(behind, 5) && has_corner(behind, 6)
                && !has_corner(behind, 2)),
            !(has_corner(behind, 1) && !has_corner(behind, 5) && has_corner(behind, 7)
                && !has_corner(behind, 3)),
            !(has_corner(behind, 2) && !has_corner(behind, 6) && has_corner(behind, 4)
                && !has_corner(behind, 0)),
            !(has_corner(behind, 2) && !has_corner(behind, 6) && has_corner(behind, 5)
                && !has_corner(behind, 1)),
            !(has_corner(behind, 2) && !has_corner(behind, 6) && has_corner(behind, 7)
                && !has_corner(behind, 3)),
            !(has_corner(behind, 3) && !has_corner(behind, 7) && has_corner(behind, 4)
                && !has_corner(behind, 0)),
            !(has_corner(behind, 3) && !has_corner(behind, 7) && has_corner(behind, 5)
                && !has_corner(behind, 1)),
            !(has_corner(behind, 3) && !has_corner(behind, 7) && has_corner(behind, 6)
                && !has_corner(behind, 2)),
    ;
    assert(behind & beyond == 0) by (bit_vector)
        requires
            !(has_corner(behind, 0) && has_corner(beyond, 0)),
            !(has_corner(behind, 1) && has_corner(beyond, 1)),
            !(has_corner(behind, 2) && has_corner(beyond, 2)),
            !(has_corner(behind, 3) && has_corner(beyond, 3)),
            !(has_corner(behind, 4) && has_corner(beyond, 4)),
            !(has_corner(behind, 5) && has_corner(beyond, 5)),
            !(has_corner(behind, 6) && has_corner(beyond, 6)),
            !(has_corner(behind, 7) && has_corner(beyond, 7)),
    ;
}

/// The footprint of a view volume that a plane cuts has at most ten
/// points.
pub proof fn lemma_plane_cut_has_at_most_ten_points(
    behind: u8,
    beyond: u8,
    a: int,
    b: int,
    c: int,
    e: int,
    far_num: int,
    far_den: int,
)
    requires
        cut_by_plane(behind, beyond, a, b, c, e, far_num, far_den),
    ensures
        footprint(behind, beyond).len() <= 10,
{
    lemma_plane_cut_is_connected(behind, beyond, a, b, c, e, far_num, far_den);
    lemma_footprint_of_connected_at_most_ten(behind, beyond);
}

/// The corners of the view volume of a camera that looks along `z`, in the
/// camera's space: the near rectangle of `width` by `height` at `near_z`,
/// and the far rectangle, which is the near one scaled from the eye to
/// `far_z`.
pub open spec fn view_corners_of<T: Copy>(
    far_z: T,
    near_z: T,
    width: T,
    height: T,
    m: Model<T>,
) -> Seq<Vector3<T>> {
    let near_right = m.div(width, m.two());
    let near_top = m.div(height, m.two());
    let near_left = m.neg(near_right);
    let near_bottom = m.neg(near_top);
    let factor = m.div(far_z, near_z);
    let far_right = m.mul(near_right, factor);
    let far_bottom = m.mul(near_bottom, factor);
    let far_left = m.neg(far_right);
    let far_top = m.neg(far_bottom);
    seq![
        Vector3 { x: near_left, y: near_bottom, z: near_z },
        Vector3 { x: near_right, y: near_bottom, z: near_z },
        Vector3 { x: near_left, y: near_top, z: near_z },
        Vector3 { x: near_right, y: near_top, z: near_z },
        Vector3 { x: far_left, y: far_bottom, z: far_z },
        Vector3 { x: far_right, y: far_bottom, z: far_z },
        Vector3 { x: far_left, y: far_top, z: far_z },
        Vector3 { x: far_right, y: far_top, z: far_z },
    ]
}

/// Each corner of `corners` under the map `a`.
pub open spec fn images_of<T: Copy>(corners: Seq<Vector3<T>>, a: Affine3<T>, m: Model<T>) -> Seq<
    Vector3<T>,
> {
    Seq::new(corners.len(), |i: int| corners[i].apply_of(a, m))
}

/// The set of the first `upto` corners that lie behind the plane at depth
/// `plane`.
pub open spec fn behind_of<T: Copy>(
    corners: Seq<Vector3<T>>,
    plane: T,
    upto: nat,
    m: Model<T>,
) -> u8
    decreases upto,
{
    if upto == 0 {
        0
    } else {
        let below = behind_of(corners, plane, (upto - 1) as nat, m);
        if m.less(corners[upto - 1].z, plane) {
            below | (1u8 << ((upto - 1) as usize))
        } else {
            below
        }
    }
}

/// The set of the first `upto` corners that lie strictly beyond the plane
/// at depth `plane` among those that do not lie behind it.
pub open spec fn beyond_of<T: Copy>(
    corners: Seq<Vector3<T>>,
    plane: T,
    upto: nat,
    m: Model<T>,
) -> u8
    decreases upto,
{
    if upto == 0 {
        0
    } else {
        let below = beyond_of(corners, plane, (upto - 1) as nat, m);
        if m.less(plane, corners[upto - 1].z) {
            below | (1u8 << ((upto - 1) as usize))
        } else {
            below
        }
    }
}

/// The point of the plane at depth `plane` that `cut` stands for: a corner
/// projected from the eye, or the point where an edge passes through the
/// plane.
pub open spec fn cut_point_of<T: Copy>(
    corners: Seq<Vector3<T>>,
    plane: T,
    cut: CutCorner,
    m: Model<T>,
) -> Vector2<T> {
    match cut {
        CutCorner::Projected { corner } => {
            let corner = corners[corner as int];
            (Vector2 { x: corner.x, y: corner.y }).scaled_of(m.div(plane, corner.z), m)
        },
        CutCorner::Cut { corner, neighbour } => {
            let corner = corners[corner as int];
            let other = corners[neighbour as int];
            let t = m.div(m.sub(plane, corner.z), m.sub(other.z, corner.z));
            Vector2 {
                x: m.add(m.mul(m.sub(other.x, corner.x), t), corner.x),
                y: m.add(m.mul(m.sub(other.y, corner.y), t), corner.y),
            }
        },
    }
}

/// The frame of a light of `width` by `height`, centred on its axis.
pub open spec fn light_frame_of<T: Copy>(width: T, height: T, m: Model<T>) -> Rect<T> {
    let corner = Vector2 { x: m.div(width, m.two()), y: m.div(height, m.two()) };
    Rect { max: corner, min: corner.negated_of(m) }
}

/// The fit of the light to the footprint `points` of the view volume: no
/// fit where there is no footprint or where its bounds miss the light's
/// frame, else the translation that takes the low corner of the overlap to
/// the origin and the scale that takes the overlap to the size of the
/// frame.
pub open spec fn fit_to_points_of<T: Copy>(
    points: Seq<Vector2<T>>,
    light_width: T,
    light_height: T,
    m: Model<T>,
) -> Option<(Vector2<T>, Scale2<T>)> {
    if points.len() == 0 {
        None
    } else {
        match Rect::from_points_of(points, m).intersect_of(
            light_frame_of(light_width, light_height, m),
            m,
        ) {
            Some(rect) => Some(
                (
                    rect.min.negated_of(m),
                    Scale2 {
                        x: m.div(light_width, rect.width_of(m)),
                        y: m.div(light_height, rect.height_of(m)),
                    },
                ),
            ),
            None => None,
        }
    }
}

/// The fit of the light to what it sees of the camera's view volume.
pub open spec fn camera_fit_of<T: Copy>(
    camera_model: Affine3<T>,
    camera_far_z: T,
    camera_near_z: T,
    camera_width: T,
    camera_height: T,
    light_view: Affine3<T>,
    light_near_z: T,
    light_width: T,
    light_height: T,
    m: Model<T>,
) -> Option<(Vector2<T>, Scale2<T>)> {
    let corners = images_of(
        view_corners_of(camera_far_z, camera_near_z, camera_width, camera_height, m),
        camera_model.compose_of(light_view, m),
        m,
    );
    let behind = behind_of(corners, light_near_z, CORNER_COUNT as nat, m);
    let beyond = beyond_of(corners, light_near_z, CORNER_COUNT as nat, m);
    let points = footprint(behind, beyond).map_values(
        |cut: CutCorner| cut_point_of(corners, light_near_z, cut, m),
    );
    fit_to_points_of(points, light_width, light_height, m)
}

/// Every point of `cut` names corners that exist.
pub open spec fn corners_exist(cut: Seq<CutCorner>) -> bool {
    forall|k: int|
        0 <= k < cut.len() ==> match #[trigger] cut[k] {
            CutCorner::Projected { corner } => corner < CORNER_COUNT,
            CutCorner::Cut { corner, neighbour } => corner < CORNER_COUNT && neighbour
                < CORNER_COUNT,
        }
}

/// The footprint names corners that exist.
pub proof fn lemma_footprint_corners_exist(behind: u8, beyond: u8, upto: nat)
    requires
        upto <= CORNER_COUNT,
    ensures
        corners_exist(cuts_below(behind, beyond, upto)),
    decreases upto,
{
    if upto > 0 {
        lemma_footprint_corners_exist(behind, beyond, (upto - 1) as nat);
        let corner = (upto - 1) as usize;
        assert(corner ^ 0b100 < 8 && corner ^ 0b010 < 8 && corner ^ 0b001 < 8) by (bit_vector)
            requires
                corner < 8,
        ;
        let before = cuts_below(behind, beyond, (upto - 1) as nat);
        let added = corner_cuts(behind, beyond, corner);
        let all = cuts_below(behind, beyond, upto);
        assert forall|k: int| 0 <= k < all.len() implies match #[trigger] all[k] {
            CutCorner::Projected { corner } => corner < CORNER_COUNT,
            CutCorner::Cut { corner, neighbour } => corner < CORNER_COUNT && neighbour
                < CORNER_COUNT,
        } by {
            if k < before.len() {
                assert(all[k] == before[k]);
            } else {
                assert(all[k] == added[k - before.len()]);
            }
        }
    }
}

/// Cuts the camera's view volume by the light's near plane, projects what
/// is left onto that plane and intersects the projection with the light's
/// frame. Returns the translation and the scale that make the frame cover
/// the overlap, or `None` where the light sees nothing of the view volume.
pub fn compute_camera_fit_on_light_plane<T: Copy, A, U, C>(
    camera_model: &Affine3<T>,
    camera_far_z: T,
    camera_near_z: T,
    camera_width: T,
    camera_height: T,
    light_view: &Affine3<T>,
    light_near_z: T,
    light_width: T,
    light_height: T,
    s: &Scalars<T, A, U, C>,
) -> (fit: Option<(Vector2<T>, Scale2<T>)>) where
    A: Fn(Op, T, T) -> T,
    U: Fn(Fun, T) -> T,
    C: Fn(Rel, T, T) -> bool,

    requires
        s.askable(),
    ensures
        forall|m: Model<T>| #[trigger]
            s.answer_by(m) ==> fit == camera_fit_of(
                *camera_model,
                camera_far_z,
                camera_near_z,
                camera_width,
                camera_height,
                *light_view,
                light_near_z,
                light_width,
                light_height,
                m,
            ),
{
    let two = s.two();
    let near_right = s.quotient(camera_width, two);
    let near_top = s.quotient(camera_height, two);
    let near_left = s.negated(near_right);
    let near_bottom = s.negated(near_top);

    let factor = s.quotient(camera_far_z, camera_near_z);
    let far_right = s.product(near_right, factor);
    let far_bottom = s.product(near_bottom, factor);
    let far_left = s.negated(far_right);
    let far_top = s.negated(far_bottom);

    let affine = camera_model.compose(light_view, s);
    let mut corners: Vec<Vector3<T>> = Vec::new();
    corners.push(Vector3::new(near_left, near_bottom, camera_near_z).apply(&affine, s));
    corners.push(Vector3::new(near_right, near_bottom, camera_near_z).apply(&affine, s));
    corners.push(Vector3::new(near_left, near_top, camera_near_z).apply(&affine, s));
    corners.push(Vector3::new(near_right, near_top, camera_near_z).apply(&affine, s));
    corners.push(Vector3::new(far_left, far_bottom, camera_far_z).apply(&affine, s));
    corners.push(Vector3::new(far_right, far_bottom, camera_far_z).apply(&affine, s));
    corners.push(Vector3::new(far_left, far_top, camera_far_z).apply(&affine, s));
    corners.push(Vector3::new(far_right, far_top, camera_far_z).apply(&affine, s));
    proof {
        assert forall|m: Model<T>| #[trigger] s.answer_by(m) implies corners@ == images_of(
            view_corners_of(camera_far_z, camera_near_z, camera_width, camera_height, m),
            camera_model.compose_of(*light_view, m),
            m,
        ) by {
            let seen = view_corners_of(camera_far_z, camera_near_z, camera_width, camera_height, m);
            let images = images_of(seen, camera_model.compose_of(*light_view, m), m);
            assert(corners@.len() == images.len());
            assert forall|i: int| 0 <= i < 8 implies corners@[i] == images[i] by {}
        }
    }

    let mut behind: u8 = 0;
    let mut beyond: u8 = 0;
    let mut i: usize = 0;
    while i < CORNER_COUNT
        invariant
            s.askable(),
            i <= CORNER_COUNT,
            corners@.len() == CORNER_COUNT,
            forall|m: Model<T>| #[trigger]
                s.answer_by(m) ==> behind == behind_of(corners@, light_near_z, i as nat, m)
                    && beyond == beyond_of(corners@, light_near_z, i as nat, m),
        decreases CORNER_COUNT - i,
    {
        let z = corners[i].z;
        let is_behind = s.is_less(z, light_near_z);
        let is_beyond = s.is_less(light_near_z, z);
        if is_behind {
            behind = behind | (1u8 << i);
        }
        if is_beyond {
            beyond = beyond | (1u8 << i);
        }
        i += 1;
    }

    let cut = cut_corners(behind, beyond);
    proof {
        lemma_footprint_corners_exist(behind, beyond, CORNER_COUNT as nat);
    }
    let mut points: Vec<Vector2<T>> = Vec::new();
    let mut k: usize = 0;
    while k < cut.len()
        invariant
            s.askable(),
            k <= cut@.len(),
            corners@.len() == CORNER_COUNT,
            corners_exist(cut@),
            points@.len() == k,
            forall|m: Model<T>| #[trigger]
                s.answer_by(m) ==> forall|j: int|
                    0 <= j < k ==> points@[j] == cut_point_of(corners@, light_near_z, cut@[j], m),
        decreases cut@.len() - k,
    {
        let point = match cut[k] {
            CutCorner::Cut { corner, neighbour } => {
                let corner = corners[corner];
                let other_corner = corners[neighbour];
                let t = s.quotient(
                    s.difference(light_near_z, corner.z),
                    s.difference(other_corner.z, corner.z),
                );
                Vector2::new(
                    s.sum(s.product(s.difference(other_corner.x, corner.x), t), corner.x),
                    s.sum(s.product(s.difference(other_corner.y, corner.y), t), corner.y),
                )
            },
            CutCorner::Projected { corner } => {
                let corner = corners[corner];
                Vector2::new(corner.x, corner.y).scaled(s.quotient(light_near_z, corner.z), s)
            },
        };
        points.push(point);
        k += 1;
    }
    proof {
        assert forall|m: Model<T>| #[trigger] s.answer_by(m) implies points@ == cut@.map_values(
            |cut: CutCorner| cut_point_of(corners@, light_near_z, cut, m),
        ) by {
            let mapped = cut@.map_values(
                |cut: CutCorner| cut_point_of(corners@, light_near_z, cut, m),
            );
            assert(points@.len() == mapped.len());
            assert forall|j: int| 0 <= j < points@.len() implies points@[j] == mapped[j] by {}
        }
    }
    if points.len() == 0 {
        return None;
    }
    let light_right = s.quotient(light_width, two);
    let light_top = s.quotient(light_height, two);
    let light_corner = Vector2::new(light_right, light_top);
    let light_rect = Rect { max: light_corner, min: light_corner.negated(s) };

    let camera_rect = Rect::from_points(points.as_slice(), s);
    match camera_rect.intersect(&light_rect, s) {
        Some(rect) => Some(
            (
                rect.min.negated(s),
                Scale2::new(
                    s.quotient(light_width, rect.width(s)),
                    s.quotient(light_height, rect.height(s)),
                ),
            ),
        ),
        None => None,
    }
}

/// Corners that all lie behind the plane make up the full set, and none of
/// them lies beyond the plane.
proof fn lemma_all_behind(corners: Seq<Vector3<int>>, plane: int, m: Model<int>)
    requires
        is_exact(m),
        corners.len() == CORNER_COUNT,
        forall|i: int| 0 <= i < CORNER_COUNT ==> (#[trigger] corners[i]).z < plane,
    ensures
        behind_of(corners, plane, CORNER_COUNT as nat, m) == 0xFF,
        beyond_of(corners, plane, CORNER_COUNT as nat, m) == 0,
{
    reveal_with_fuel(behind_of, 9);
    reveal_with_fuel(beyond_of, 9);
    assert(corners[0].z < plane && corners[1].z < plane && corners[2].z < plane && corners[3].z
        < plane && corners[4].z < plane && corners[5].z < plane && corners[6].z < plane
        && corners[7].z < plane);
    assert(0u8 | (1u8 << 0usize) == 1u8) by (bit_vector);
    assert(1u8 | (1u8 << 1usize) == 3u8) by (bit_vector);
    assert(3u8 | (1u8 << 2usize) == 7u8) by (bit_vector);
    assert(7u8 | (1u8 << 3usize) == 15u8) by (bit_vector);
    assert(15u8 | (1u8 << 4usize) == 31u8) by (bit_vector);
    assert(31u8 | (1u8 << 5usize) == 63u8) by (bit_vector);
    assert(63u8 | (1u8 << 6usize) == 127u8) by (bit_vector);
    assert(127u8 | (1u8 << 7usize) == 255u8) by (bit_vector);
}

/// A view volume that lies behind the light's near plane with all its
/// corners has no fit.
pub proof fn lemma_view_volume_behind_has_no_fit(
    camera_model: Affine3<int>,
    camera_far_z: int,
    camera_near_z: int,
    camera_width: int,
    camera_height: int,
    light_view: Affine3<int>,
    light_near_z: int,
    light_width: int,
    light_height: int,
    m: Model<int>,
)
    requires
        is_exact(m),
        forall|i: int|
            0 <= i < CORNER_COUNT ==> (#[trigger] images_of(
                view_corners_of(camera_far_z, camera_near_z, camera_width, camera_height, m),
                camera_model.compose_of(light_view, m),
                m,
            )[i]).z < light_near_z,
    ensures
        camera_fit_of(
            camera_model,
            camera_far_z,
            camera_near_z,
            camera_width,
            camera_height,
            light_view,
            light_near_z,
            light_width,
            light_height,
            m,
        ) is None,
{
    let corners = images_of(
        view_corners_of(camera_far_z, camera_near_z, camera_width, camera_height, m),
        camera_model.compose_of(light_view, m),
        m,
    );
    lemma_all_behind(corners, light_near_z, m);
    assert(0xFFu8 & 0u8 == 0) by (bit_vector);
    lemma_footprint_empty_iff_all_behind(0xFF, 0);
    assert(footprint(0xFF, 0).map_values(
        |cut: CutCorner| cut_point_of(corners, light_near_z, cut, m),
    ).len() == 0);
}

} // verus!
