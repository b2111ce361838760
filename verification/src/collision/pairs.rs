//! Contacts between entities: every ordered pair of entities that touch.

use crate::collision::contact::Contact;
use crate::collision::geometry::{
    body_rect, displacement, entity_rect, lemma_displacement_symmetric, rect_displacement, touching,
};
use crate::error::EngineError;
use crate::types::Vec2i;
use vstd::prelude::*;

verus! {

/// The contact that entity `i` reports against entity `j`, if it has one.
pub open spec fn pair_contact(
    positions: Seq<Vec2i>,
    sizes: Seq<(usize, usize)>,
    i: int,
    j: int,
) -> Option<Contact<usize, usize>> {
    if i == j {
        None
    } else {
        match displacement(entity_rect(positions[i], sizes[i]), entity_rect(positions[j], sizes[j])) {
            Some(mtv) => Some(Contact { a: i as usize, b: j as usize, mtv }),
            None => None,
        }
    }
}

/// The contacts of entity `i` against the entities below index `upto`, by
/// rising index of the other entity.
pub open spec fn row_contacts(
    positions: Seq<Vec2i>,
    sizes: Seq<(usize, usize)>,
    i: int,
    upto: int,
) -> Seq<Contact<usize, usize>>
    decreases upto,
{
    if upto <= 0 {
        Seq::empty()
    } else {
        let before = row_contacts(positions, sizes, i, upto - 1);
        match pair_contact(positions, sizes, i, upto - 1) {
            Some(c) => before.push(c),
            None => before,
        }
    }
}

/// The contacts of the entities below index `rows` against all entities, by
/// rising index of the reporting entity.
pub open spec fn contacts_before(
    positions: Seq<Vec2i>,
    sizes: Seq<(usize, usize)>,
    rows: int,
) -> Seq<Contact<usize, usize>>
    decreases rows,
{
    if rows <= 0 {
        Seq::empty()
    } else {
        contacts_before(positions, sizes, rows - 1) + row_contacts(
            positions,
            sizes,
            rows - 1,
            positions.len() as int,
        )
    }
}

/// Every contact between two distinct entities, one per ordered pair that
/// touches, ordered by reporting entity and then by the entity it touches.
pub open spec fn all_contacts(positions: Seq<Vec2i>, sizes: Seq<(usize, usize)>) -> Seq<
    Contact<usize, usize>,
> {
    contacts_before(positions, sizes, positions.len() as int)
}

/// Gathers the contacts between every ordered pair of distinct entities.
///
/// A pair that touches is reported twice, once from each side, with the same
/// magnitudes, and no ordered pair twice. Arrays of different lengths are
/// turned down before any entity is read.
pub fn gather_contacts(positions: &Vec<Vec2i>, sizes: &Vec<(usize, usize)>) -> (r: Result<
    Vec<Contact<usize, usize>>,
    EngineError,
>)
    ensures
        match r {
            Ok(found) => {
                &&& positions.len() == sizes.len()
                &&& found@ == all_contacts(positions@, sizes@)
                &&& pairs_sound(positions@, sizes@, found@, positions.len() as int)
                &&& pairs_complete(positions@, sizes@, found@, positions.len() as int)
                &&& pairs_rising(found@)
            },
            Err(e) => positions.len() != sizes.len() && e == EngineError::LengthMismatch,
        },
{
    if positions.len() != sizes.len() {
        return Err(EngineError::LengthMismatch);
    }
    let n: usize = positions.len();
    let mut into: Vec<Contact<usize, usize>> = Vec::new();
    let mut i: usize = 0;
    while i < n
        invariant
            n == positions.len(),
            n == sizes.len(),
            i <= n,
            into@ == contacts_before(positions@, sizes@, i as int),
        decreases n - i,
    {
        let rect1 = body_rect(positions[i], sizes[i]);
        let ghost done = into@;
        let mut j: usize = 0;
        while j < n
            invariant
                n == positions.len(),
                n == sizes.len(),
                i < n,
                j <= n,
                rect1 == entity_rect(positions@[i as int], sizes@[i as int]),
                into@ == done + row_contacts(positions@, sizes@, i as int, j as int),
            decreases n - j,
        {
            if j != i {
                let rect2 = body_rect(positions[j], sizes[j]);
                if let Some(disp) = rect_displacement(rect1, rect2) {
                    into.push(Contact { a: i, b: j, mtv: disp });
                }
            }
            j += 1;
        }
        i += 1;
    }
    proof {
        lemma_contacts_exact(positions@, sizes@);
    }
    Ok(into)
}

/// Whether the bounding boxes of entities `i` and `j` touch.
pub open spec fn entities_touch(
    positions: Seq<Vec2i>,
    sizes: Seq<(usize, usize)>,
    i: int,
    j: int,
) -> bool {
    touching(entity_rect(positions[i], sizes[i]), entity_rect(positions[j], sizes[j]))
}

/// Whether entity `i` touches none of the entities below index `upto`, but
/// for itself and for `spared`.
pub open spec fn row_clear(
    positions: Seq<Vec2i>,
    sizes: Seq<(usize, usize)>,
    i: int,
    spared: int,
    upto: int,
) -> bool {
    forall|j: int|
        0 <= j < upto && j != i && j != spared ==> !#[trigger] entities_touch(
            positions,
            sizes,
            i,
            j,
        )
}

/// An entity that touches no other has no contacts.
proof fn lemma_row_clear(
    positions: Seq<Vec2i>,
    sizes: Seq<(usize, usize)>,
    i: int,
    upto: int,
)
    requires
        row_clear(positions, sizes, i, i, upto),
    ensures
        row_contacts(positions, sizes, i, upto) == Seq::<Contact<usize, usize>>::empty(),
    decreases upto,
{
    if upto > 0 {
        lemma_row_clear(positions, sizes, i, upto - 1);
        assert(upto - 1 != i ==> !entities_touch(positions, sizes, i, upto - 1));
    }
}

/// An entity that touches one other has the contact with that one and no
/// more.
proof fn lemma_row_single(
    positions: Seq<Vec2i>,
    sizes: Seq<(usize, usize)>,
    i: int,
    other: int,
    upto: int,
)
    requires
        0 <= other,
        other != i,
        entities_touch(positions, sizes, i, other),
        row_clear(positions, sizes, i, other, upto),
    ensures
        row_contacts(positions, sizes, i, upto) == if other < upto {
            seq![pair_contact(positions, sizes, i, other).unwrap()]
        } else {
            Seq::empty()
        },
    decreases upto,
{
    if upto > 0 {
        lemma_row_single(positions, sizes, i, other, upto - 1);
        if upto - 1 == other {
            assert(Seq::<Contact<usize, usize>>::empty().push(
                pair_contact(positions, sizes, i, other).unwrap(),
            ) =~= seq![pair_contact(positions, sizes, i, other).unwrap()]);
        } else {
            assert(upto - 1 != i ==> !entities_touch(positions, sizes, i, upto - 1));
        }
    }
}

/// Whether `i` and `j` are the only two entities that touch: any two
/// distinct entities that touch are these two.
pub open spec fn only_touch(
    positions: Seq<Vec2i>,
    sizes: Seq<(usize, usize)>,
    i: int,
    j: int,
) -> bool {
    forall|p: int, q: int|
        0 <= p < positions.len() && 0 <= q < positions.len() && p != q && #[trigger] entities_touch(
            positions,
            sizes,
            p,
            q,
        ) ==> (p == i && q == j) || (p == j && q == i)
}

/// Whether no two distinct entities touch.
pub open spec fn none_touch(positions: Seq<Vec2i>, sizes: Seq<(usize, usize)>) -> bool {
    forall|p: int, q: int|
        0 <= p < positions.len() && 0 <= q < positions.len() && p != q ==> !#[trigger] entities_touch(
            positions,
            sizes,
            p,
            q,
        )
}

/// Where no two entities touch, no row holds a contact.
proof fn lemma_rows_clear(positions: Seq<Vec2i>, sizes: Seq<(usize, usize)>, rows: int)
    requires
        rows <= positions.len(),
        none_touch(positions, sizes),
    ensures
        contacts_before(positions, sizes, rows) == Seq::<Contact<usize, usize>>::empty(),
    decreases rows,
{
    if rows > 0 {
        lemma_rows_clear(positions, sizes, rows - 1);
        lemma_row_clear(positions, sizes, rows - 1, positions.len() as int);
    }
}

/// Where no two entities touch, no contact is gathered.
pub proof fn lemma_no_touch_no_contacts(positions: Seq<Vec2i>, sizes: Seq<(usize, usize)>)
    requires
        none_touch(positions, sizes),
    ensures
        all_contacts(positions, sizes) == Seq::<Contact<usize, usize>>::empty(),
{
    lemma_rows_clear(positions, sizes, positions.len() as int);
}

/// Where only `i` and `j` touch, the contacts gathered row by row are first
/// none, then that of `i`, then those of both.
proof fn lemma_rows_single(
    positions: Seq<Vec2i>,
    sizes: Seq<(usize, usize)>,
    i: int,
    j: int,
    rows: int,
)
    requires
        0 <= i < j < positions.len(),
        rows <= positions.len(),
        entities_touch(positions, sizes, i, j),
        only_touch(positions, sizes, i, j),
    ensures
        contacts_before(positions, sizes, rows) == if rows <= i {
            Seq::empty()
        } else if rows <= j {
            seq![pair_contact(positions, sizes, i, j).unwrap()]
        } else {
            seq![
                pair_contact(positions, sizes, i, j).unwrap(),
                pair_contact(positions, sizes, j, i).unwrap(),
            ]
        },
    decreases rows,
{
    if rows > 0 {
        let n = positions.len() as int;
        let row = rows - 1;
        lemma_rows_single(positions, sizes, i, j, row);
        lemma_displacement_symmetric(
            entity_rect(positions[i], sizes[i]),
            entity_rect(positions[j], sizes[j]),
        );
        if row == i {
            lemma_row_single(positions, sizes, i, j, n);
        } else if row == j {
            lemma_row_single(positions, sizes, j, i, n);
        } else {
            lemma_row_clear(positions, sizes, row, n);
        }
        let before = contacts_before(positions, sizes, row);
        let last = row_contacts(positions, sizes, row, n);
        assert(contacts_before(positions, sizes, rows) =~= before + last);
    }
}

/// Where exactly one pair of entities touches, exactly two contacts are
/// gathered: one from each side, the lower entity's first, both with the same
/// magnitudes.
pub proof fn lemma_single_touch_two_contacts(
    positions: Seq<Vec2i>,
    sizes: Seq<(usize, usize)>,
    i: int,
    j: int,
)
    requires
        0 <= i < j < positions.len(),
        entities_touch(positions, sizes, i, j),
        only_touch(positions, sizes, i, j),
    ensures
        displacement(
            entity_rect(positions[i], sizes[i]),
            entity_rect(positions[j], sizes[j]),
        ) matches Some(mtv) && all_contacts(positions, sizes) == seq![
            Contact { a: i as usize, b: j as usize, mtv },
            Contact { a: j as usize, b: i as usize, mtv },
        ],
{
    lemma_rows_single(positions, sizes, i, j, positions.len() as int);
    lemma_displacement_symmetric(
        entity_rect(positions[i], sizes[i]),
        entity_rect(positions[j], sizes[j]),
    );
}

/// Whether the contacts come in rising order of their pair of entities, by
/// the reporting entity first. No pair then comes twice.
pub open spec fn pairs_rising(contacts: Seq<Contact<usize, usize>>) -> bool {
    forall|k: int, l: int|
        0 <= k < l < contacts.len() ==> {
            let c = #[trigger] contacts[k];
            let d = #[trigger] contacts[l];
            c.a < d.a || (c.a == d.a && c.b < d.b)
        }
}

/// Whether every contact is the contact of a pair of distinct entities below
/// `count` that touch, with the displacement of the two as its magnitudes.
pub open spec fn pairs_sound(
    positions: Seq<Vec2i>,
    sizes: Seq<(usize, usize)>,
    contacts: Seq<Contact<usize, usize>>,
    count: int,
) -> bool {
    forall|k: int|
        0 <= k < contacts.len() ==> {
            let c = #[trigger] contacts[k];
            c.a < count && c.b < positions.len() && pair_contact(
                positions,
                sizes,
                c.a as int,
                c.b as int,
            ) == Some(c)
        }
}

/// Whether the contacts hold the contact of every pair of distinct entities
/// that touch and whose reporting entity lies below `count`.
pub open spec fn pairs_complete(
    positions: Seq<Vec2i>,
    sizes: Seq<(usize, usize)>,
    contacts: Seq<Contact<usize, usize>>,
    count: int,
) -> bool {
    forall|i: int, j: int|
        0 <= i < count && 0 <= j < positions.len() && i != j && #[trigger] entities_touch(
            positions,
            sizes,
            i,
            j,
        ) ==> contacts.contains(pair_contact(positions, sizes, i, j).unwrap())
}

/// The contacts of one entity are sound, complete and in rising order.
proof fn lemma_row_exact(positions: Seq<Vec2i>, sizes: Seq<(usize, usize)>, i: int, upto: int)
    requires
        0 <= i < positions.len() <= usize::MAX,
        upto <= positions.len(),
    ensures
        ({
            let row = row_contacts(positions, sizes, i, upto);
            &&& forall|k: int|
                0 <= k < row.len() ==> {
                    let c = #[trigger] row[k];
                    c.a == i && c.b < upto && pair_contact(positions, sizes, i, c.b as int) == Some(
                        c,
                    )
                }
            &&& forall|k: int, l: int|
                0 <= k < l < row.len() ==> (#[trigger] row[k]).b < (#[trigger] row[l]).b
            &&& forall|j: int|
                0 <= j < upto && j != i && #[trigger] entities_touch(positions, sizes, i, j)
                    ==> row.contains(pair_contact(positions, sizes, i, j).unwrap())
        }),
    decreases upto,
{
    if upto > 0 {
        lemma_row_exact(positions, sizes, i, upto - 1);
        let before = row_contacts(positions, sizes, i, upto - 1);
        let row = row_contacts(positions, sizes, i, upto);
        assert forall|j: int|
            0 <= j < upto && j != i && #[trigger] entities_touch(
                positions,
                sizes,
                i,
                j,
            ) implies row.contains(pair_contact(positions, sizes, i, j).unwrap()) by {
            let c = pair_contact(positions, sizes, i, j).unwrap();
            if j < upto - 1 {
                assert(before.contains(c));
                let k = choose|k: int| 0 <= k < before.len() && before[k] == c;
                assert(row[k] == c);
            } else {
                assert(row[row.len() - 1] == c);
            }
        }
    }
}

/// The contacts of the first `rows` entities are sound, complete and in
/// rising order.
proof fn lemma_rows_exact(positions: Seq<Vec2i>, sizes: Seq<(usize, usize)>, rows: int)
    requires
        rows <= positions.len() <= usize::MAX,
    ensures
        pairs_sound(positions, sizes, contacts_before(positions, sizes, rows), rows),
        pairs_complete(positions, sizes, contacts_before(positions, sizes, rows), rows),
        pairs_rising(contacts_before(positions, sizes, rows)),
    decreases rows,
{
    if rows > 0 {
        let n = positions.len() as int;
        lemma_rows_exact(positions, sizes, rows - 1);
        lemma_row_exact(positions, sizes, rows - 1, n);
        let before = contacts_before(positions, sizes, rows - 1);
        let row = row_contacts(positions, sizes, rows - 1, n);
        let all = contacts_before(positions, sizes, rows);
        assert(all =~= before + row);
        assert forall|k: int| 0 <= k < all.len() implies ({
            let c = #[trigger] all[k];
            c.a < rows && c.b < positions.len() && pair_contact(
                positions,
                sizes,
                c.a as int,
                c.b as int,
            ) == Some(c)
        }) by {
            if k < before.len() {
                assert(all[k] == before[k]);
            } else {
                assert(all[k] == row[k - before.len()]);
            }
        }
        assert forall|k: int, l: int| 0 <= k < l < all.len() implies ({
            let c = #[trigger] all[k];
            let d = #[trigger] all[l];
            c.a < d.a || (c.a == d.a && c.b < d.b)
        }) by {
            if l < before.len() {
                assert(all[k] == before[k] && all[l] == before[l]);
            } else if k < before.len() {
                assert(all[k] == before[k] && all[l] == row[l - before.len()]);
            } else {
                assert(all[k] == row[k - before.len()] && all[l] == row[l - before.len()]);
            }
        }
        assert forall|i: int, j: int|
            0 <= i < rows && 0 <= j < positions.len() && i != j && #[trigger] entities_touch(
                positions,
                sizes,
                i,
                j,
            ) implies all.contains(pair_contact(positions, sizes, i, j).unwrap()) by {
            let c = pair_contact(positions, sizes, i, j).unwrap();
            if i < rows - 1 {
                assert(before.contains(c));
                let k = choose|k: int| 0 <= k < before.len() && before[k] == c;
                assert(all[k] == c);
            } else {
                assert(row.contains(c));
                let k = choose|k: int| 0 <= k < row.len() && row[k] == c;
                assert(all[before.len() + k] == c);
            }
        }
    }
}

/// The gathered contacts are exactly the ordered pairs of distinct entities
/// that touch: each contact is such a pair with its displacement, every such
/// pair has its contact, and the pairs come in rising order, so none comes
/// twice.
pub proof fn lemma_contacts_exact(positions: Seq<Vec2i>, sizes: Seq<(usize, usize)>)
    requires
        positions.len() <= usize::MAX,
    ensures
        pairs_sound(positions, sizes, all_contacts(positions, sizes), positions.len() as int),
        pairs_complete(positions, sizes, all_contacts(positions, sizes), positions.len() as int),
        pairs_rising(all_contacts(positions, sizes)),
{
    lemma_rows_exact(positions, sizes, positions.len() as int);
}

/// Every contact has its mirror image among the gathered contacts: the same
/// pair reported from the other side, with the same magnitudes.
pub proof fn lemma_contacts_mirrored(positions: Seq<Vec2i>, sizes: Seq<(usize, usize)>, k: int)
    requires
        positions.len() <= usize::MAX,
        0 <= k < all_contacts(positions, sizes).len(),
    ensures
        ({
            let c = all_contacts(positions, sizes)[k];
            all_contacts(positions, sizes).contains(Contact { a: c.b, b: c.a, mtv: c.mtv })
        }),
{
    let c = all_contacts(positions, sizes)[k];
    lemma_contacts_exact(positions, sizes);
    lemma_displacement_symmetric(
        entity_rect(positions[c.a as int], sizes[c.a as int]),
        entity_rect(positions[c.b as int], sizes[c.b as int]),
    );
    assert(entities_touch(positions, sizes, c.b as int, c.a as int));
}

} // verus!
