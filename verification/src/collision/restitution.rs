//! Restitution: moving entities out of the solid tiles they overlap, the
//! deepest overlap first.

use crate::collision::contact::{entities_known, severity, Contact, TileContact};
use crate::collision::geometry::{
    body_rect, displacement, entity_rect, overlap_x, overlap_y, rect_displacement, touching,
};
use crate::error::EngineError;
use crate::types::{Rect, Vec2i};
use vstd::prelude::*;

verus! {

/// `sorted` with `c` placed behind every contact that is at least as severe.
pub open spec fn insert_by_severity<A, B>(sorted: Seq<Contact<A, B>>, c: Contact<A, B>) -> Seq<
    Contact<A, B>,
>
    decreases sorted.len(),
{
    if sorted.len() == 0 {
        seq![c]
    } else if severity(sorted.last().mtv) >= severity(c.mtv) {
        sorted.push(c)
    } else {
        insert_by_severity(sorted.drop_last(), c).push(sorted.last())
    }
}

/// The contacts from the most severe to the least; contacts of equal
/// severity keep the order in which they were gathered.
pub open spec fn by_severity<A, B>(contacts: Seq<Contact<A, B>>) -> Seq<Contact<A, B>>
    decreases contacts.len(),
{
    if contacts.len() == 0 {
        contacts
    } else {
        insert_by_severity(by_severity(contacts.drop_last()), contacts.last())
    }
}

/// The `i32` coordinate nearest to `v`.
pub open spec fn clamp_coord(v: int) -> i32 {
    if v < i32::MIN {
        i32::MIN
    } else if v > i32::MAX {
        i32::MAX
    } else {
        v as i32
    }
}

/// A coordinate moved by `depth` away from `other`: down where it lies below
/// `other`, up where it does not. The result stays within `i32`.
pub open spec fn moved_away(coord: i32, other: i32, depth: i32) -> i32 {
    clamp_coord(if coord < other { coord - depth } else { coord + depth })
}

/// Where an entity at `pos` with extent `size` stands after it has been pushed
/// out of `tile`.
///
/// The entity moves along the axis on which the two overlap less (the x axis
/// when they overlap equally), by the overlap on that axis, away from the
/// tile's origin. An entity that does not touch the tile stays where it is.
pub open spec fn pushed_out(pos: Vec2i, size: (usize, usize), tile: Rect) -> Vec2i {
    match displacement(entity_rect(pos, size), tile) {
        Some((dx, dy)) => if dx > dy {
            Vec2i(pos.0, moved_away(pos.1, tile.y, dy))
        } else {
            Vec2i(moved_away(pos.0, tile.x, dx), pos.1)
        },
        None => pos,
    }
}

/// The positions after the entities have been pushed out of the tiles of
/// `contacts`, one contact after the other.
pub open spec fn resolve_all(
    positions: Seq<Vec2i>,
    sizes: Seq<(usize, usize)>,
    contacts: Seq<Contact<usize, TileContact>>,
) -> Seq<Vec2i>
    decreases contacts.len(),
{
    if contacts.len() == 0 {
        positions
    } else {
        let before = resolve_all(positions, sizes, contacts.drop_last());
        let c = contacts.last();
        before.update(
            c.a as int,
            pushed_out(before[c.a as int], sizes[c.a as int], c.b.rect),
        )
    }
}

/// The severity of an overlap. It fits 64 bits for any two `i32` magnitudes.
fn severity_of(mtv: (i32, i32)) -> (s: u64)
    ensures
        s == severity(mtv),
{
    let x: i64 = mtv.0 as i64;
    let y: i64 = mtv.1 as i64;
    assert(0 <= x * x <= 0x4000_0000_0000_0000) by (nonlinear_arith)
        requires
            -0x8000_0000 <= x <= 0x8000_0000,
    ;
    assert(0 <= y * y <= 0x4000_0000_0000_0000) by (nonlinear_arith)
        requires
            -0x8000_0000 <= y <= 0x8000_0000,
    ;
    (x * x) as u64 + (y * y) as u64
}

/// The place of a new contact in an ordered list: behind the last contact
/// that is at least as severe.
proof fn lemma_insert_at<A, B>(sorted: Seq<Contact<A, B>>, c: Contact<A, B>, at: int)
    requires
        0 <= at <= sorted.len(),
        forall|k: int| at <= k < sorted.len() ==> severity(sorted[k].mtv) < severity(c.mtv),
        at > 0 ==> severity(sorted[at - 1].mtv) >= severity(c.mtv),
    ensures
        insert_by_severity(sorted, c) == sorted.insert(at, c),
    decreases sorted.len(),
{
    if sorted.len() == 0 {
        assert(sorted.insert(at, c) =~= seq![c]);
    } else if at == sorted.len() {
        assert(sorted.insert(at, c) =~= sorted.push(c));
    } else {
        lemma_insert_at(sorted.drop_last(), c, at);
        assert(sorted.drop_last().insert(at, c).push(sorted.last()) =~= sorted.insert(at, c));
    }
}

/// Orders the contacts by severity, the most severe first, keeping contacts
/// of equal severity in their order.
fn sort_by_severity(contacts: &mut Vec<Contact<usize, TileContact>>)
    ensures
        final(contacts)@ == by_severity(old(contacts)@),
{
    let mut sorted: Vec<Contact<usize, TileContact>> = Vec::new();
    let mut i: usize = 0;
    while i < contacts.len()
        invariant
            i <= contacts.len(),
            contacts@ == old(contacts)@,
            sorted@ == by_severity(contacts@.take(i as int)),
        decreases contacts.len() - i,
    {
        let c = contacts[i];
        let weight = severity_of(c.mtv);
        let mut at: usize = sorted.len();
        while at > 0 && severity_of(sorted[at - 1].mtv) < weight
            invariant
                at <= sorted.len(),
                weight == severity(c.mtv),
                forall|k: int| at <= k < sorted.len() ==> severity(sorted[k].mtv) < weight,
            decreases at,
        {
            at -= 1;
        }
        proof {
            lemma_insert_at(sorted@, c, at as int);
            assert(contacts@.take(i + 1).drop_last() =~= contacts@.take(i as int));
        }
        sorted.insert(at, c);
        i += 1;
    }
    assert(contacts@.take(contacts.len() as int) =~= contacts@);
    *contacts = sorted;
}

/// Moves a coordinate by `depth` away from `other`, as far as `i32` reaches.
fn move_away(coord: i32, other: i32, depth: i32) -> (moved: i32)
    ensures
        moved == moved_away(coord, other, depth),
{
    let target: i64 = if coord < other {
        coord as i64 - depth as i64
    } else {
        coord as i64 + depth as i64
    };
    if target < i32::MIN as i64 {
        i32::MIN
    } else if target > i32::MAX as i64 {
        i32::MAX
    } else {
        target as i32
    }
}

/// Pushes an entity at `pos` with extent `size` out of `tile`.
pub fn push_out(pos: Vec2i, size: (usize, usize), tile: Rect) -> (moved: Vec2i)
    ensures
        moved == pushed_out(pos, size, tile),
{
    match rect_displacement(body_rect(pos, size), tile) {
        Some((dx, dy)) => {
            if dx > dy {
                Vec2i(pos.0, move_away(pos.1, tile.y, dy))
            } else {
                Vec2i(move_away(pos.0, tile.x, dx), pos.1)
            }
        },
        None => pos,
    }
}

/// Moves entities out of the solid tiles they were found to touch.
///
/// The contacts are first put in order, the most severe first, and stay in
/// that order. Then each contact in turn pushes its entity out of its tile,
/// by the overlap that is left at that moment. Nothing is changed when the
/// arrays differ in length or a contact names an entity they do not hold;
/// the error then names the first such contact.
pub fn restitute(
    positions: &mut Vec<Vec2i>,
    sizes: &Vec<(usize, usize)>,
    contacts: &mut Vec<Contact<usize, TileContact>>,
) -> (r: Result<(), EngineError>)
    ensures
        match r {
            Ok(_) => {
                &&& old(positions).len() == sizes.len()
                &&& entities_known(old(contacts)@, sizes.len() as nat)
                &&& final(contacts)@ == by_severity(old(contacts)@)
                &&& descending(final(contacts)@)
                &&& final(contacts)@.to_multiset() == old(contacts)@.to_multiset()
                &&& final(positions)@ == resolve_all(old(positions)@, sizes@, final(contacts)@)
                &&& final(positions).len() == old(positions).len()
            },
            Err(e) => {
                &&& final(positions)@ == old(positions)@
                &&& final(contacts)@ == old(contacts)@
                &&& if old(positions).len() != sizes.len() {
                    e == EngineError::LengthMismatch
                } else {
                    &&& e matches EngineError::UnknownEntity { contact }
                    &&& contact < old(contacts).len()
                    &&& old(contacts)[contact as int].a >= sizes.len()
                    &&& entities_known(old(contacts)@.take(contact as int), sizes.len() as nat)
                }
            },
        },
{
    let n: usize = positions.len();
    if n != sizes.len() {
        return Err(EngineError::LengthMismatch);
    }
    let mut k: usize = 0;
    while k < contacts.len()
        invariant
            k <= contacts.len(),
            n == sizes.len(),
            n == positions.len(),
            positions@ == old(positions)@,
            contacts@ == old(contacts)@,
            entities_known(contacts@.take(k as int), n as nat),
        decreases contacts.len() - k,
    {
        if contacts[k].a >= n {
            return Err(EngineError::UnknownEntity { contact: k });
        }
        assert(contacts@.take(k + 1).drop_last() =~= contacts@.take(k as int));
        k += 1;
    }
    proof {
        assert(contacts@.take(contacts.len() as int) =~= contacts@);
        lemma_by_severity_keeps_entities(contacts@, n as nat);
        lemma_by_severity_permutes(contacts@);
        lemma_by_severity_descends(contacts@);
    }
    sort_by_severity(contacts);
    let mut k: usize = 0;
    while k < contacts.len()
        invariant
            k <= contacts.len(),
            n == sizes.len(),
            positions.len() == n,
            entities_known(contacts@, n as nat),
            positions@ == resolve_all(old(positions)@, sizes@, contacts@.take(k as int)),
        decreases contacts.len() - k,
    {
        let c = contacts[k];
        let moved = push_out(positions[c.a], sizes[c.a], c.b.rect);
        positions.set(c.a, moved);
        proof {
            assert(contacts@.take(k + 1).drop_last() =~= contacts@.take(k as int));
        }
        k += 1;
    }
    assert(contacts@.take(contacts.len() as int) =~= contacts@);
    Ok(())
}

/// Placing a contact adds that contact and changes nothing else.
pub proof fn lemma_insert_by_severity_adds<A, B>(sorted: Seq<Contact<A, B>>, c: Contact<A, B>)
    ensures
        insert_by_severity(sorted, c).to_multiset() == sorted.to_multiset().insert(c),
        insert_by_severity(sorted, c).len() == sorted.len() + 1,
    decreases sorted.len(),
{
    broadcast use vstd::seq_lib::to_multiset_build;

    if sorted.len() == 0 {
        assert(seq![c] =~= sorted.push(c));
    } else if severity(sorted.last().mtv) >= severity(c.mtv) {
    } else {
        let front = sorted.drop_last();
        lemma_insert_by_severity_adds(front, c);
        assert(sorted =~= front.push(sorted.last()));
        assert(front.to_multiset().insert(c).insert(sorted.last()) =~= front.to_multiset().insert(
            sorted.last(),
        ).insert(c));
    }
}

/// Ordering by severity rearranges the contacts: none is lost, added or
/// changed.
pub proof fn lemma_by_severity_permutes<A, B>(contacts: Seq<Contact<A, B>>)
    ensures
        by_severity(contacts).to_multiset() == contacts.to_multiset(),
        by_severity(contacts).len() == contacts.len(),
    decreases contacts.len(),
{
    broadcast use vstd::seq_lib::to_multiset_build;

    if contacts.len() > 0 {
        let front = contacts.drop_last();
        lemma_by_severity_permutes(front);
        lemma_insert_by_severity_adds(by_severity(front), contacts.last());
        assert(contacts =~= front.push(contacts.last()));
    }
}

/// Whether no contact is less severe than one that follows it.
pub open spec fn descending<A, B>(contacts: Seq<Contact<A, B>>) -> bool {
    forall|i: int, j: int|
        0 <= i < j < contacts.len() ==> severity(#[trigger] contacts[i].mtv) >= severity(
            #[trigger] contacts[j].mtv,
        )
}

/// Placing a contact into a descending list leaves the list descending.
pub proof fn lemma_insert_by_severity_descends<A, B>(sorted: Seq<Contact<A, B>>, c: Contact<A, B>)
    requires
        descending(sorted),
    ensures
        descending(insert_by_severity(sorted, c)),
    decreases sorted.len(),
{
    if sorted.len() == 0 {
    } else if severity(sorted.last().mtv) >= severity(c.mtv) {
    } else {
        let front = sorted.drop_last();
        lemma_insert_by_severity_descends(front, c);
        lemma_insert_by_severity_adds(front, c);
        let placed = insert_by_severity(front, c);
        let out = placed.push(sorted.last());
        assert forall|i: int, j: int| 0 <= i < j < out.len() implies severity(out[i].mtv)
            >= severity(out[j].mtv) by {
            if j == out.len() - 1 {
                broadcast use vstd::multiset::group_multiset_axioms;

                front.to_multiset_ensures();
                placed.to_multiset_ensures();
                assert(placed.contains(placed[i]));
                assert(placed.to_multiset().count(placed[i]) > 0);
                if placed[i] != c {
                    assert(front.to_multiset().count(placed[i]) > 0);
                    assert(front.contains(placed[i]));
                    let k = choose|k: int| 0 <= k < front.len() && front[k] == placed[i];
                    assert(sorted[k] == placed[i]);
                }
            }
        }
    }
}

/// Ordering by severity puts the most severe contact first.
pub proof fn lemma_by_severity_descends<A, B>(contacts: Seq<Contact<A, B>>)
    ensures
        descending(by_severity(contacts)),
    decreases contacts.len(),
{
    if contacts.len() > 0 {
        lemma_by_severity_descends(contacts.drop_last());
        lemma_insert_by_severity_descends(by_severity(contacts.drop_last()), contacts.last());
    }
}

/// The test that picks the contacts of severity `weight`.
pub open spec fn of_severity<A, B>(weight: int) -> spec_fn(Contact<A, B>) -> bool {
    |c: Contact<A, B>| severity(c.mtv) == weight
}

/// Placing a contact puts it behind the contacts of its own severity and
/// leaves the contacts of any one severity in the order they had.
pub proof fn lemma_insert_by_severity_stable<A, B>(
    sorted: Seq<Contact<A, B>>,
    c: Contact<A, B>,
    weight: int,
)
    ensures
        insert_by_severity(sorted, c).filter(of_severity(weight)) == if severity(c.mtv) == weight {
            sorted.filter(of_severity(weight)).push(c)
        } else {
            sorted.filter(of_severity(weight))
        },
    decreases sorted.len(),
{
    reveal_with_fuel(Seq::filter, 2);
    let same = of_severity::<A, B>(weight);
    if sorted.len() == 0 {
        assert(seq![c].drop_last() =~= sorted);
    } else if severity(sorted.last().mtv) >= severity(c.mtv) {
        assert(sorted.push(c).drop_last() =~= sorted);
    } else {
        let front = sorted.drop_last();
        lemma_insert_by_severity_stable(front, c, weight);
        let placed = insert_by_severity(front, c);
        assert(placed.push(sorted.last()).drop_last() =~= placed);
    }
}

/// Ordering by severity is stable: the contacts of any one severity keep the
/// order in which they were gathered.
pub proof fn lemma_by_severity_stable<A, B>(contacts: Seq<Contact<A, B>>, weight: int)
    ensures
        by_severity(contacts).filter(of_severity(weight)) == contacts.filter(of_severity(weight)),
    decreases contacts.len(),
{
    reveal_with_fuel(Seq::filter, 2);
    if contacts.len() > 0 {
        lemma_by_severity_stable(contacts.drop_last(), weight);
        lemma_insert_by_severity_stable(
            by_severity(contacts.drop_last()),
            contacts.last(),
            weight,
        );
    }
}

/// Ordering by severity keeps every contact on an entity that is known.
pub proof fn lemma_by_severity_keeps_entities<B>(contacts: Seq<Contact<usize, B>>, count: nat)
    requires
        entities_known(contacts, count),
    ensures
        entities_known(by_severity(contacts), count),
{
    let sorted = by_severity(contacts);
    lemma_by_severity_permutes(contacts);
    assert forall|k: int| 0 <= k < sorted.len() implies (#[trigger] sorted[k]).a < count by {
        sorted.to_multiset_ensures();
        contacts.to_multiset_ensures();
        assert(sorted.contains(sorted[k]));
        assert(sorted.to_multiset().count(sorted[k]) > 0);
        assert(contacts.to_multiset().count(sorted[k]) > 0);
        assert(contacts.contains(sorted[k]));
        let j = choose|j: int| 0 <= j < contacts.len() && contacts[j] == sorted[k];
        assert(contacts[j].a < count);
    }
}

/// Whether two rectangles reach into each other on both axes, by more than a
/// shared edge.
pub open spec fn penetrating(r1: Rect, r2: Rect) -> bool {
    overlap_x(r1, r2) > 0 && overlap_y(r1, r2) > 0
}

/// Whether the span `[e_lo, e_hi]` of an entity ends inside the span
/// `[t_lo, t_hi]` of a tile on the side that it is pushed away from: it
/// starts below the tile and does not reach past its far end, or it starts
/// inside the tile and reaches its far end.
pub open spec fn overhangs(e_lo: int, e_hi: int, t_lo: int, t_hi: int) -> bool {
    if e_lo < t_lo {
        e_hi <= t_hi
    } else {
        e_hi >= t_hi
    }
}

/// Whether one push parts `body` from `tile`: on the axis of the push the two
/// only share an edge, or `body` overhangs `tile`.
pub open spec fn parts_in_one_push(body: Rect, tile: Rect) -> bool {
    if overlap_x(body, tile) > overlap_y(body, tile) {
        overlap_y(body, tile) == 0 || overhangs(body.top(), body.bottom(), tile.top(), tile.bottom())
    } else {
        overlap_x(body, tile) == 0 || overhangs(
            body.left(),
            body.right(),
            tile.left(),
            tile.right(),
        )
    }
}

/// Whether a coordinate moved by `depth` away from `other` is an `i32`.
pub open spec fn move_fits(coord: i32, other: i32, depth: int) -> bool {
    if coord < other {
        i32::MIN <= coord - depth
    } else {
        coord + depth <= i32::MAX
    }
}

/// Whether pushing an entity at `pos` out of `tile` keeps it in the world.
pub open spec fn push_fits(pos: Vec2i, size: (usize, usize), tile: Rect) -> bool {
    let body = entity_rect(pos, size);
    if overlap_x(body, tile) > overlap_y(body, tile) {
        move_fits(pos.1, tile.y, overlap_y(body, tile))
    } else {
        move_fits(pos.0, tile.x, overlap_x(body, tile))
    }
}

/// A push parts an entity from a tile that it touches exactly when the entity
/// overhangs the tile on the axis of the push: the two then share an edge and
/// no more. A second push then moves nothing, and it moves the entity again
/// where the first did not part the two. The position must stay within the
/// world.
pub proof fn lemma_push_out_parts(pos: Vec2i, size: (usize, usize), tile: Rect)
    requires
        touching(entity_rect(pos, size), tile),
        push_fits(pos, size, tile),
    ensures
        ({
            let moved = pushed_out(pos, size, tile);
            let after = entity_rect(moved, size);
            &&& touching(after, tile)
            &&& !penetrating(after, tile) <==> parts_in_one_push(entity_rect(pos, size), tile)
            &&& parts_in_one_push(entity_rect(pos, size), tile) ==> pushed_out(moved, size, tile)
                == moved
            &&& push_fits(moved, size, tile) && pushed_out(moved, size, tile) == moved
                ==> parts_in_one_push(entity_rect(pos, size), tile)
        }),
{
}

/// A pass over a single contact moves the entity of that contact and no
/// other. Where one push parts the entity from the tile, the entity no longer
/// reaches into the tile after the pass, and a second pass changes nothing.
pub proof fn lemma_single_contact_pass(
    positions: Seq<Vec2i>,
    sizes: Seq<(usize, usize)>,
    c: Contact<usize, TileContact>,
)
    requires
        c.a < positions.len(),
        touching(entity_rect(positions[c.a as int], sizes[c.a as int]), c.b.rect),
        parts_in_one_push(entity_rect(positions[c.a as int], sizes[c.a as int]), c.b.rect),
        push_fits(positions[c.a as int], sizes[c.a as int], c.b.rect),
    ensures
        by_severity(seq![c]) == seq![c],
        ({
            let after = resolve_all(positions, sizes, seq![c]);
            &&& after == positions.update(
                c.a as int,
                pushed_out(positions[c.a as int], sizes[c.a as int], c.b.rect),
            )
            &&& !penetrating(entity_rect(after[c.a as int], sizes[c.a as int]), c.b.rect)
            &&& resolve_all(after, sizes, seq![c]) == after
        }),
{
    let one = seq![c];
    assert(one.drop_last() =~= Seq::<Contact<usize, TileContact>>::empty());
    assert(by_severity(one) =~= one) by {
        reveal_with_fuel(by_severity, 2);
    }
    lemma_push_out_parts(positions[c.a as int], sizes[c.a as int], c.b.rect);
    let after = resolve_all(positions, sizes, one);
    assert(after == positions.update(
        c.a as int,
        pushed_out(positions[c.a as int], sizes[c.a as int], c.b.rect),
    )) by {
        reveal_with_fuel(resolve_all, 2);
    }
    assert(resolve_all(after, sizes, one) =~= after) by {
        reveal_with_fuel(resolve_all, 2);
    }
}

} // verus!
