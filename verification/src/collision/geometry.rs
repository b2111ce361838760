//! When two rectangles touch, and how far they reach into each other.

use crate::animation::Animation;
use crate::types::{Rect, Vec2i};
use std::rc::Rc;
use vstd::prelude::*;

verus! {

/// How far two closed spans `[a_lo, a_hi]` and `[b_lo, b_hi]` reach into each
/// other: the length of their intersection, negative when they are apart.
pub open spec fn span_overlap(a_lo: int, a_hi: int, b_lo: int, b_hi: int) -> int {
    (if a_hi <= b_hi { a_hi } else { b_hi }) - (if a_lo >= b_lo { a_lo } else { b_lo })
}

/// The interpenetration of two rectangles along the x axis.
pub open spec fn overlap_x(r1: Rect, r2: Rect) -> int {
    span_overlap(r1.left(), r1.right(), r2.left(), r2.right())
}

/// The interpenetration of two rectangles along the y axis.
pub open spec fn overlap_y(r1: Rect, r2: Rect) -> int {
    span_overlap(r1.top(), r1.bottom(), r2.top(), r2.bottom())
}

/// Two rectangles touch when their closed spans meet on both axes.
pub open spec fn touching(r1: Rect, r2: Rect) -> bool {
    &&& r1.left() <= r2.right()
    &&& r2.left() <= r1.right()
    &&& r1.top() <= r2.bottom()
    &&& r2.top() <= r1.bottom()
}

/// The overlap magnitudes of two rectangles on each axis, if they touch.
///
/// The magnitudes carry no direction: they say how deep the rectangles reach
/// into each other, not which way to move to part them.
pub open spec fn displacement(r1: Rect, r2: Rect) -> Option<(i32, i32)> {
    if overlap_x(r1, r2) >= 0 && overlap_y(r1, r2) >= 0 {
        Some((overlap_x(r1, r2) as i32, overlap_y(r1, r2) as i32))
    } else {
        None
    }
}

/// The bounding box of an entity at `pos` with extent `size`. Each extent is
/// taken modulo 2^16, the range of a rectangle's width and height.
pub open spec fn entity_rect(pos: Vec2i, size: (usize, usize)) -> Rect {
    Rect { x: pos.0, y: pos.1, w: (size.0 % 0x1_0000) as u16, h: (size.1 % 0x1_0000) as u16 }
}

/// The lesser of two numbers.
fn min_i64(a: i64, b: i64) -> (m: i64)
    ensures
        m == if a <= b { a } else { b },
{
    if a <= b { a } else { b }
}

/// The greater of two numbers.
fn max_i64(a: i64, b: i64) -> (m: i64)
    ensures
        m == if a >= b { a } else { b },
{
    if a >= b { a } else { b }
}

/// Whether two rectangles touch.
pub fn rect_touching(r1: Rect, r2: Rect) -> (b: bool)
    ensures
        b == touching(r1, r2),
{
    let l1: i64 = r1.x as i64;
    let l2: i64 = r2.x as i64;
    let t1: i64 = r1.y as i64;
    let t2: i64 = r2.y as i64;
    l1 <= l2 + r2.w as i64 && l2 <= l1 + r1.w as i64 && t1 <= t2 + r2.h as i64 && t2 <= t1
        + r1.h as i64
}

/// The overlap magnitudes of two rectangles, or `None` when they do not touch.
pub fn rect_displacement(r1: Rect, r2: Rect) -> (d: Option<(i32, i32)>)
    ensures
        d == displacement(r1, r2),
{
    let l1: i64 = r1.x as i64;
    let l2: i64 = r2.x as i64;
    let t1: i64 = r1.y as i64;
    let t2: i64 = r2.y as i64;
    let x_overlap: i64 = min_i64(l1 + r1.w as i64, l2 + r2.w as i64) - max_i64(l1, l2);
    let y_overlap: i64 = min_i64(t1 + r1.h as i64, t2 + r2.h as i64) - max_i64(t1, t2);
    if x_overlap >= 0 && y_overlap >= 0 {
        Some((x_overlap as i32, y_overlap as i32))
    } else {
        None
    }
}

/// The bounding box of an entity at `pos` with extent `size`.
pub fn body_rect(pos: Vec2i, size: (usize, usize)) -> (r: Rect)
    ensures
        r == entity_rect(pos, size),
{
    Rect { x: pos.0, y: pos.1, w: (size.0 % 0x1_0000) as u16, h: (size.1 % 0x1_0000) as u16 }
}

/// Whether the first frames of two animations touch.
pub fn resources_touching(r1: Rc<Animation>, r2: Rc<Animation>) -> (b: bool)
    ensures
        b == touching(r1.frame_seq()[0].0, r2.frame_seq()[0].0),
{
    rect_touching(r1.frames()[0].0, r2.frames()[0].0)
}

/// The overlap magnitudes of the first frames of two animations, or `None`
/// when they do not touch.
pub fn resources_displacement(r1: Rc<Animation>, r2: Rc<Animation>) -> (d: Option<(i32, i32)>)
    ensures
        d == displacement(r1.frame_seq()[0].0, r2.frame_seq()[0].0),
{
    rect_displacement(r1.frames()[0].0, r2.frames()[0].0)
}

/// Whether the closed span `[a_lo, a_hi]` lies within `[b_lo, b_hi]`.
pub open spec fn span_within(a_lo: int, a_hi: int, b_lo: int, b_hi: int) -> bool {
    b_lo <= a_lo && a_hi <= b_hi
}

/// Whether one of two rectangles spans the other along the x axis.
pub open spec fn nested_x(r1: Rect, r2: Rect) -> bool {
    span_within(r1.left(), r1.right(), r2.left(), r2.right()) || span_within(
        r2.left(),
        r2.right(),
        r1.left(),
        r1.right(),
    )
}

/// Whether one of two rectangles spans the other along the y axis.
pub open spec fn nested_y(r1: Rect, r2: Rect) -> bool {
    span_within(r1.top(), r1.bottom(), r2.top(), r2.bottom()) || span_within(
        r2.top(),
        r2.bottom(),
        r1.top(),
        r1.bottom(),
    )
}

/// The smaller of two extents.
pub open spec fn lesser(a: u16, b: u16) -> int {
    if a <= b {
        a as int
    } else {
        b as int
    }
}

/// Rectangles have a displacement exactly when they touch: rectangles that
/// lie apart have none.
pub proof fn lemma_displacement_iff_touching(r1: Rect, r2: Rect)
    ensures
        displacement(r1, r2) is Some <==> touching(r1, r2),
{
}

/// The overlap of two touching rectangles on an axis is never negative and
/// never more than the smaller of their extents on that axis. It falls short
/// of the smaller extent exactly when neither rectangle spans the other on
/// that axis.
pub proof fn lemma_displacement_bounds(r1: Rect, r2: Rect)
    requires
        touching(r1, r2),
    ensures
        displacement(r1, r2) matches Some((dx, dy)) && {
            &&& dx == overlap_x(r1, r2)
            &&& dy == overlap_y(r1, r2)
            &&& 0 <= dx <= lesser(r1.w, r2.w)
            &&& 0 <= dy <= lesser(r1.h, r2.h)
            &&& dx < lesser(r1.w, r2.w) <==> !nested_x(r1, r2)
            &&& dy < lesser(r1.h, r2.h) <==> !nested_y(r1, r2)
        },
{
}

/// The displacement of two rectangles does not depend on their order.
pub proof fn lemma_displacement_symmetric(r1: Rect, r2: Rect)
    ensures
        displacement(r1, r2) == displacement(r2, r1),
        touching(r1, r2) == touching(r2, r1),
{
}

/// Every rectangle touches itself, over its whole extent.
pub proof fn lemma_touching_self(r: Rect)
    ensures
        touching(r, r),
        displacement(r, r) == Some((r.w as i32, r.h as i32)),
{
}

} // verus!
