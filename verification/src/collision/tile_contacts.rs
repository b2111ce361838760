//! Contacts between entities and the solid tiles under their corners.

use crate::collision::contact::{entities_known, Contact, TileContact};
use crate::collision::geometry::{body_rect, displacement, entity_rect, rect_displacement};
use crate::error::EngineError;
use crate::tiles::{lemma_tile_under_holds_point, Tilemap};
use crate::types::{Rect, Vec2i};
use vstd::prelude::*;

verus! {

/// Whether every contact records the overlap of its entity with its tile.
pub open spec fn overlaps_recorded(
    positions: Seq<Vec2i>,
    sizes: Seq<(usize, usize)>,
    contacts: Seq<Contact<usize, TileContact>>,
) -> bool {
    forall|k: int|
        0 <= k < contacts.len() ==> {
            let c = #[trigger] contacts[k];
            displacement(entity_rect(positions[c.a as int], sizes[c.a as int]), c.b.rect) == Some(
                c.mtv,
            )
        }
}

/// Corner `k` of a rectangle: top-left, top-right, bottom-left and
/// bottom-right for `k` from 0 to 3.
pub open spec fn corner(r: Rect, k: int) -> (int, int) {
    (if k == 0 || k == 2 { r.left() } else { r.right() }, if k == 0 || k == 1 { r.top() } else { r.bottom() })
}

/// Whether a point lies in the world, whose coordinates are `i32` values.
pub open spec fn in_world(p: (int, int)) -> bool {
    i32::MIN <= p.0 <= i32::MAX && i32::MIN <= p.1 <= i32::MAX
}

/// The contact that the entity with bounding box `body` reports for the tile
/// of `layer` under its corner `k`: none where the corner lies outside the
/// world or the layer, or where the tile is not solid.
pub open spec fn corner_contact<T>(entity: usize, body: Rect, layer: Tilemap<T>, k: int) -> Option<
    Contact<usize, TileContact>,
> {
    let p = corner(body, k);
    if in_world(p) {
        match layer.tile_under(Vec2i(p.0 as i32, p.1 as i32)) {
            Some((tile, rect)) => if tile.solid {
                match displacement(body, rect) {
                    Some(mtv) => Some(Contact { a: entity, b: TileContact { tile, rect }, mtv }),
                    None => None,
                }
            } else {
                None
            },
            None => None,
        }
    } else {
        None
    }
}

/// The contacts of one entity with one layer from its corners below `upto`.
pub open spec fn layer_contacts<T>(entity: usize, body: Rect, layer: Tilemap<T>, upto: int) -> Seq<
    Contact<usize, TileContact>,
>
    decreases upto,
{
    if upto <= 0 {
        Seq::empty()
    } else {
        let before = layer_contacts(entity, body, layer, upto - 1);
        match corner_contact(entity, body, layer, upto - 1) {
            Some(c) => before.push(c),
            None => before,
        }
    }
}

/// The contacts of one entity with the layers below index `upto`, layer by
/// layer, four corners each.
pub open spec fn entity_tile_contacts<T>(
    entity: usize,
    body: Rect,
    layers: Seq<Tilemap<T>>,
    upto: int,
) -> Seq<Contact<usize, TileContact>>
    decreases upto,
{
    if upto <= 0 {
        Seq::empty()
    } else {
        entity_tile_contacts(entity, body, layers, upto - 1) + layer_contacts(
            entity,
            body,
            layers[upto - 1],
            4,
        )
    }
}

/// The tile contacts of the entities below index `rows`, entity by entity.
pub open spec fn tile_contacts_before<T>(
    positions: Seq<Vec2i>,
    sizes: Seq<(usize, usize)>,
    layers: Seq<Tilemap<T>>,
    rows: int,
) -> Seq<Contact<usize, TileContact>>
    decreases rows,
{
    if rows <= 0 {
        Seq::empty()
    } else {
        tile_contacts_before(positions, sizes, layers, rows - 1) + entity_tile_contacts(
            (rows - 1) as usize,
            entity_rect(positions[rows - 1], sizes[rows - 1]),
            layers,
            layers.len() as int,
        )
    }
}

/// Every contact between an entity and a solid tile under one of its four
/// corners: by entity, then by layer, then by corner. A tile under several
/// corners is reported once per corner.
pub open spec fn all_tile_contacts<T>(
    positions: Seq<Vec2i>,
    sizes: Seq<(usize, usize)>,
    layers: Seq<Tilemap<T>>,
) -> Seq<Contact<usize, TileContact>> {
    tile_contacts_before(positions, sizes, layers, positions.len() as int)
}

/// The contact that entity `i` has from its corner `k` on layer `t`, if it
/// has one.
pub open spec fn probe<T>(
    positions: Seq<Vec2i>,
    sizes: Seq<(usize, usize)>,
    layers: Seq<Tilemap<T>>,
    i: int,
    t: int,
    k: int,
) -> Option<Contact<usize, TileContact>> {
    corner_contact(i as usize, entity_rect(positions[i], sizes[i]), layers[t], k)
}

/// Whether `c` is the contact of a corner of an entity on a layer.
pub open spec fn from_a_corner<T>(
    positions: Seq<Vec2i>,
    sizes: Seq<(usize, usize)>,
    layers: Seq<Tilemap<T>>,
    c: Contact<usize, TileContact>,
) -> bool {
    exists|i: int, t: int, k: int|
        0 <= i < positions.len() && 0 <= t < layers.len() && 0 <= k < 4 && #[trigger] probe(
            positions,
            sizes,
            layers,
            i,
            t,
            k,
        ) == Some(c)
}

/// Looks up the tile under corner `k` of an entity and makes the contact
/// with it, if the tile is solid.
fn probe_corner<T>(entity: usize, body: Rect, layer: &Tilemap<T>, k: u8) -> (c: Option<
    Contact<usize, TileContact>,
>)
    requires
        k < 4,
    ensures
        c == corner_contact(entity, body, *layer, k as int),
{
    let px: i64 = if k == 0 || k == 2 { body.x as i64 } else { body.x as i64 + body.w as i64 };
    let py: i64 = if k == 0 || k == 1 { body.y as i64 } else { body.y as i64 + body.h as i64 };
    if px > i32::MAX as i64 || py > i32::MAX as i64 {
        return None;
    }
    match layer.tile_at(Vec2i(px as i32, py as i32)) {
        Some((tile, rect)) => {
            if tile.solid {
                match rect_displacement(body, rect) {
                    Some(mtv) => Some(Contact { a: entity, b: TileContact { tile, rect }, mtv }),
                    None => None,
                }
            } else {
                None
            }
        },
        None => None,
    }
}

/// Gathers the contacts between entities and the solid tiles under their
/// corners, over every layer of a tilemap.
///
/// Only the four corners of an entity are sampled, so an entity wider than a
/// tile can pass over a solid tile that lies between its corners. Arrays of
/// different lengths are turned down before any entity is read.
pub fn gather_contacts_tilemap<T>(
    positions: &Vec<Vec2i>,
    sizes: &Vec<(usize, usize)>,
    tilemaps: &Vec<Tilemap<T>>,
) -> (r: Result<Vec<Contact<usize, TileContact>>, EngineError>)
    ensures
        match r {
            Ok(found) => {
                &&& positions.len() == sizes.len()
                &&& found@ == all_tile_contacts(positions@, sizes@, tilemaps@)
                &&& forall|k: int| 0 <= k < found.len() ==> (#[trigger] found[k]).b.tile.solid
                &&& entities_known(found@, positions.len() as nat)
                &&& overlaps_recorded(positions@, sizes@, found@)
                &&& forall|at: int|
                    0 <= at < found.len() ==> from_a_corner(
                        positions@,
                        sizes@,
                        tilemaps@,
                        #[trigger] found[at],
                    )
            },
            Err(e) => positions.len() != sizes.len() && e == EngineError::LengthMismatch,
        },
{
    if positions.len() != sizes.len() {
        return Err(EngineError::LengthMismatch);
    }
    let n: usize = positions.len();
    let layers: usize = tilemaps.len();
    let mut into: Vec<Contact<usize, TileContact>> = Vec::new();
    let mut i: usize = 0;
    while i < n
        invariant
            n == positions.len(),
            n == sizes.len(),
            layers == tilemaps.len(),
            i <= n,
            into@ == tile_contacts_before(positions@, sizes@, tilemaps@, i as int),
            forall|k: int| 0 <= k < into.len() ==> (#[trigger] into[k]).b.tile.solid,
            entities_known(into@, n as nat),
            overlaps_recorded(positions@, sizes@, into@),
        decreases n - i,
    {
        let body = body_rect(positions[i], sizes[i]);
        let ghost earlier = into@;
        let mut t: usize = 0;
        while t < layers
            invariant
                layers == tilemaps.len(),
                t <= layers,
                i < n,
                body == entity_rect(positions@[i as int], sizes@[i as int]),
                into@ == earlier + entity_tile_contacts(i, body, tilemaps@, t as int),
                forall|k: int| 0 <= k < into.len() ==> (#[trigger] into[k]).b.tile.solid,
                entities_known(into@, n as nat),
                overlaps_recorded(positions@, sizes@, into@),
            decreases layers - t,
        {
            let ghost lower = into@;
            let mut k: u8 = 0;
            while k < 4
                invariant
                    t < tilemaps.len(),
                    k <= 4,
                    i < n,
                    body == entity_rect(positions@[i as int], sizes@[i as int]),
                    into@ == lower + layer_contacts(i, body, tilemaps@[t as int], k as int),
                    forall|k: int| 0 <= k < into.len() ==> (#[trigger] into[k]).b.tile.solid,
                    entities_known(into@, n as nat),
                    overlaps_recorded(positions@, sizes@, into@),
                decreases 4 - k,
            {
                if let Some(c) = probe_corner(i, body, &tilemaps[t], k) {
                    into.push(c);
                }
                k += 1;
            }
            t += 1;
        }
        i += 1;
    }
    proof {
        assert forall|at: int| 0 <= at < into.len() implies from_a_corner(
            positions@,
            sizes@,
            tilemaps@,
            #[trigger] into[at],
        ) by {
            lemma_tile_contacts_sound(positions@, sizes@, tilemaps@, at);
        }
    }
    Ok(into)
}

/// A solid tile under a corner of an entity is always reported: the corner
/// lies on both, so the two touch.
pub proof fn lemma_solid_corner_reported<T>(entity: usize, body: Rect, layer: Tilemap<T>, k: int)
    requires
        0 <= k < 4,
        in_world(corner(body, k)),
    ensures
        ({
            let p = corner(body, k);
            match layer.tile_under(Vec2i(p.0 as i32, p.1 as i32)) {
                Some((tile, rect)) => if tile.solid {
                    &&& displacement(body, rect) matches Some(mtv)
                    &&& corner_contact(entity, body, layer, k) == Some(
                        Contact { a: entity, b: TileContact { tile, rect }, mtv },
                    )
                } else {
                    corner_contact(entity, body, layer, k) is None
                },
                None => corner_contact(entity, body, layer, k) is None,
            }
        }),
{
    let p = corner(body, k);
    lemma_tile_under_holds_point(layer, Vec2i(p.0 as i32, p.1 as i32));
}

/// The contacts of an entity with a layer hold the contact of each corner.
proof fn lemma_layer_holds<T>(entity: usize, body: Rect, layer: Tilemap<T>, k: int, upto: int)
    requires
        0 <= k < upto,
        corner_contact(entity, body, layer, k) is Some,
    ensures
        layer_contacts(entity, body, layer, upto).contains(
            corner_contact(entity, body, layer, k).unwrap(),
        ),
    decreases upto,
{
    let c = corner_contact(entity, body, layer, k).unwrap();
    let all = layer_contacts(entity, body, layer, upto);
    if k == upto - 1 {
        assert(all[all.len() - 1] == c);
    } else {
        lemma_layer_holds(entity, body, layer, k, upto - 1);
        let before = layer_contacts(entity, body, layer, upto - 1);
        let at = choose|at: int| 0 <= at < before.len() && before[at] == c;
        assert(all[at] == c);
    }
}

/// The contacts of an entity hold the contact of each corner on each layer.
proof fn lemma_entity_holds<T>(
    entity: usize,
    body: Rect,
    layers: Seq<Tilemap<T>>,
    t: int,
    k: int,
    upto: int,
)
    requires
        0 <= t < upto <= layers.len(),
        0 <= k < 4,
        corner_contact(entity, body, layers[t], k) is Some,
    ensures
        entity_tile_contacts(entity, body, layers, upto).contains(
            corner_contact(entity, body, layers[t], k).unwrap(),
        ),
    decreases upto,
{
    let c = corner_contact(entity, body, layers[t], k).unwrap();
    let before = entity_tile_contacts(entity, body, layers, upto - 1);
    let last = layer_contacts(entity, body, layers[upto - 1], 4);
    let all = entity_tile_contacts(entity, body, layers, upto);
    assert(all =~= before + last);
    if t == upto - 1 {
        lemma_layer_holds(entity, body, layers[t], k, 4);
        let at = choose|at: int| 0 <= at < last.len() && last[at] == c;
        assert(all[before.len() + at] == c);
    } else {
        lemma_entity_holds(entity, body, layers, t, k, upto - 1);
        let at = choose|at: int| 0 <= at < before.len() && before[at] == c;
        assert(all[at] == c);
    }
}

/// The contacts of the first `rows` entities hold the contact of each corner
/// of each of them on each layer.
proof fn lemma_rows_hold<T>(
    positions: Seq<Vec2i>,
    sizes: Seq<(usize, usize)>,
    layers: Seq<Tilemap<T>>,
    i: int,
    t: int,
    k: int,
    rows: int,
)
    requires
        0 <= i < rows <= positions.len() <= usize::MAX,
        0 <= t < layers.len(),
        0 <= k < 4,
        corner_contact(i as usize, entity_rect(positions[i], sizes[i]), layers[t], k) is Some,
    ensures
        tile_contacts_before(positions, sizes, layers, rows).contains(
            corner_contact(i as usize, entity_rect(positions[i], sizes[i]), layers[t], k).unwrap(),
        ),
    decreases rows,
{
    let c = corner_contact(i as usize, entity_rect(positions[i], sizes[i]), layers[t], k).unwrap();
    let before = tile_contacts_before(positions, sizes, layers, rows - 1);
    let last = entity_tile_contacts(
        (rows - 1) as usize,
        entity_rect(positions[rows - 1], sizes[rows - 1]),
        layers,
        layers.len() as int,
    );
    let all = tile_contacts_before(positions, sizes, layers, rows);
    assert(all =~= before + last);
    if i == rows - 1 {
        lemma_entity_holds(
            i as usize,
            entity_rect(positions[i], sizes[i]),
            layers,
            t,
            k,
            layers.len() as int,
        );
        let at = choose|at: int| 0 <= at < last.len() && last[at] == c;
        assert(all[before.len() + at] == c);
    } else {
        lemma_rows_hold(positions, sizes, layers, i, t, k, rows - 1);
        let at = choose|at: int| 0 <= at < before.len() && before[at] == c;
        assert(all[at] == c);
    }
}

/// The corner that a contact of an entity with a layer comes from.
proof fn lemma_layer_source<T>(
    entity: usize,
    body: Rect,
    layer: Tilemap<T>,
    upto: int,
    at: int,
) -> (k: int)
    requires
        0 <= at < layer_contacts(entity, body, layer, upto).len(),
    ensures
        0 <= k < upto,
        corner_contact(entity, body, layer, k) == Some(
            layer_contacts(entity, body, layer, upto)[at],
        ),
    decreases upto,
{
    let before = layer_contacts(entity, body, layer, upto - 1);
    if at < before.len() {
        lemma_layer_source(entity, body, layer, upto - 1, at)
    } else {
        upto - 1
    }
}

/// The layer and the corner that a contact of an entity comes from.
proof fn lemma_entity_source<T>(
    entity: usize,
    body: Rect,
    layers: Seq<Tilemap<T>>,
    upto: int,
    at: int,
) -> (source: (int, int))
    requires
        upto <= layers.len(),
        0 <= at < entity_tile_contacts(entity, body, layers, upto).len(),
    ensures
        0 <= source.0 < upto,
        0 <= source.1 < 4,
        corner_contact(entity, body, layers[source.0], source.1) == Some(
            entity_tile_contacts(entity, body, layers, upto)[at],
        ),
    decreases upto,
{
    let before = entity_tile_contacts(entity, body, layers, upto - 1);
    if at < before.len() {
        lemma_entity_source(entity, body, layers, upto - 1, at)
    } else {
        let k = lemma_layer_source(entity, body, layers[upto - 1], 4, at - before.len());
        (upto - 1, k)
    }
}

/// The entity, the layer and the corner that a contact among those of the
/// first `rows` entities comes from.
proof fn lemma_rows_source<T>(
    positions: Seq<Vec2i>,
    sizes: Seq<(usize, usize)>,
    layers: Seq<Tilemap<T>>,
    rows: int,
    at: int,
) -> (source: (int, int, int))
    requires
        rows <= positions.len() <= usize::MAX,
        0 <= at < tile_contacts_before(positions, sizes, layers, rows).len(),
    ensures
        0 <= source.0 < rows,
        0 <= source.1 < layers.len(),
        0 <= source.2 < 4,
        probe(positions, sizes, layers, source.0, source.1, source.2) == Some(
            tile_contacts_before(positions, sizes, layers, rows)[at],
        ),
    decreases rows,
{
    let before = tile_contacts_before(positions, sizes, layers, rows - 1);
    if at < before.len() {
        lemma_rows_source(positions, sizes, layers, rows - 1, at)
    } else {
        let (t, k) = lemma_entity_source(
            (rows - 1) as usize,
            entity_rect(positions[rows - 1], sizes[rows - 1]),
            layers,
            layers.len() as int,
            at - before.len(),
        );
        (rows - 1, t, k)
    }
}

/// Every solid tile under a corner of an entity is among the gathered
/// contacts: no layer, entity or corner is passed over.
pub proof fn lemma_tile_contacts_complete<T>(
    positions: Seq<Vec2i>,
    sizes: Seq<(usize, usize)>,
    layers: Seq<Tilemap<T>>,
    i: int,
    t: int,
    k: int,
)
    requires
        0 <= i < positions.len() <= usize::MAX,
        0 <= t < layers.len(),
        0 <= k < 4,
        probe(positions, sizes, layers, i, t, k) is Some,
    ensures
        all_tile_contacts(positions, sizes, layers).contains(
            probe(positions, sizes, layers, i, t, k).unwrap(),
        ),
{
    lemma_rows_hold(positions, sizes, layers, i, t, k, positions.len() as int);
}

/// Every gathered contact is the contact of a corner of an entity on a
/// layer: nothing is reported that no corner lies on.
pub proof fn lemma_tile_contacts_sound<T>(
    positions: Seq<Vec2i>,
    sizes: Seq<(usize, usize)>,
    layers: Seq<Tilemap<T>>,
    at: int,
)
    requires
        positions.len() <= usize::MAX,
        0 <= at < all_tile_contacts(positions, sizes, layers).len(),
    ensures
        from_a_corner(positions, sizes, layers, all_tile_contacts(positions, sizes, layers)[at]),
{
    let (i, t, k) = lemma_rows_source(positions, sizes, layers, positions.len() as int, at);
    assert(probe(positions, sizes, layers, i, t, k) == Some(
        all_tile_contacts(positions, sizes, layers)[at],
    ));
}

} // verus!
