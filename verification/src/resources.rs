//! The animations, images and font that a game starts with.

use crate::animation::Animation;
use crate::text::{code_of, glyph_table, Text};
use crate::tiles::sheet_cell;
use crate::types::Rect;
use std::rc::Rc;
use vstd::prelude::*;

verus! {

/// The side of a glyph of the built-in font.
pub const CHAR_SIZE: u16 = 8;

/// The number of glyph cells in one row of the font image.
pub const SHEET_COLUMNS: u32 = 12;

/// The cell of the font image that holds the space.
pub const SPACE_CELL: u32 = 163;

/// The cell of the font image that holds the letter `a`; the other
/// lower-case letters follow it in order.
pub const FIRST_LETTER_CELL: u32 = 41;

/// The rectangle of cell `n` of the font image, cells counted row by row.
pub open spec fn font_cell(n: int) -> Rect {
    Rect {
        x: sheet_cell(n, SHEET_COLUMNS as int, CHAR_SIZE as int).0 as i32,
        y: sheet_cell(n, SHEET_COLUMNS as int, CHAR_SIZE as int).1 as i32,
        w: CHAR_SIZE,
        h: CHAR_SIZE,
    }
}

/// The glyph that the built-in font has for `c`: one for the space, one for
/// each lower-case letter from `a` to `z`, and no other.
pub open spec fn font_glyph(c: char) -> Option<Rect> {
    if c == ' ' {
        Some(font_cell(SPACE_CELL as int))
    } else if code_of('a') <= code_of(c) <= code_of('z') {
        Some(font_cell(FIRST_LETTER_CELL + (code_of(c) - code_of('a'))))
    } else {
        None
    }
}

/// The rectangle of the player image that the built-in animation shows.
pub open spec fn player_frame() -> Rect {
    Rect { x: 0, y: 0, w: 16, h: 32 }
}

/// What a game draws with: its animations, its images and its font.
pub struct Resources<T> {
    pub animation: Vec<Rc<Animation>>,
    pub textures: Vec<Rc<T>>,
    pub text: Text<T>,
}

/// The rectangle of cell `n` of the font image.
fn cell_rect(n: u32) -> (r: Rect)
    requires
        n < 0x1000,
    ensures
        r == font_cell(n as int),
{
    let column: u32 = n % SHEET_COLUMNS;
    let row: u32 = n / SHEET_COLUMNS;
    let side: u32 = CHAR_SIZE as u32;
    assert(column * side <= 0x8000 && row * side <= 0x8000) by (nonlinear_arith)
        requires
            column < 0x1000,
            row < 0x1000,
            side == 8,
    ;
    Rect { x: (column * side) as i32, y: (row * side) as i32, w: CHAR_SIZE, h: CHAR_SIZE }
}

/// The glyph that a table has for `c`, if it has one.
spec fn lookup(table: Map<u32, Rect>, c: char) -> Option<Rect> {
    if table.contains_key(code_of(c)) {
        Some(table[code_of(c)])
    } else {
        None
    }
}

/// The glyph that the built-in font has for `c` once the space and the first
/// `letters` lower-case letters have been listed.
spec fn listed_glyph(c: char, letters: int) -> Option<Rect> {
    if c == ' ' {
        Some(font_cell(SPACE_CELL as int))
    } else if code_of('a') <= code_of(c) < code_of('a') + letters {
        Some(font_cell(FIRST_LETTER_CELL + (code_of(c) - code_of('a'))))
    } else {
        None
    }
}

/// Whether `entries` list the space and the first `letters` letters, each
/// with its cell, and nothing else.
spec fn lists(entries: Seq<(char, Rect)>, letters: int) -> bool {
    forall|c: char| #[trigger] lookup(glyph_table(entries), c) == listed_glyph(c, letters)
}

/// Listing one more glyph changes the glyph of that character alone.
proof fn lemma_listed_one_more(entries: Seq<(char, Rect)>, letter: char, rect: Rect, c: char)
    ensures
        lookup(glyph_table(entries.push((letter, rect))), c) == if c == letter {
            Some(rect)
        } else {
            lookup(glyph_table(entries), c)
        },
{
    assert(entries.push((letter, rect)).drop_last() =~= entries);
    assert(code_of(c) == code_of(letter) <==> c == letter);
}

impl<T> Resources<T> {
    /// The resources that every game starts with: an animation that shows
    /// the player standing still, the player image, and the built-in font
    /// cut from the font image.
    pub fn new(player: &Rc<T>, font: &Rc<T>) -> (rsrc: Self)
        ensures
            rsrc.animation@.len() == 1,
            rsrc.animation@[0].frame_seq() == seq![(player_frame(), 0usize)],
            !rsrc.animation@[0].is_looping(),
            rsrc.textures@.len() == 1,
            *rsrc.textures@[0] == **player,
            rsrc.text.sheet() == **font,
            forall|c: char| #[trigger] rsrc.text.glyph_of(c) == font_glyph(c),
    {
        let mut glyphs: Vec<(char, Rect)> = Vec::new();
        let space: Rect = cell_rect(SPACE_CELL);
        glyphs.push((' ', space));
        proof {
            let none = Seq::<(char, Rect)>::empty();
            assert(glyphs@ =~= none.push((' ', space)));
            assert forall|c: char| #[trigger]
                lookup(glyph_table(glyphs@), c) == listed_glyph(c, 0) by {
                lemma_listed_one_more(none, ' ', space, c);
            }
        }
        let mut k: u8 = 0;
        while k < 26
            invariant
                k <= 26,
                lists(glyphs@, k as int),
            decreases 26 - k,
        {
            let letter: char = (97u8 + k) as char;
            let rect: Rect = cell_rect(FIRST_LETTER_CELL + k as u32);
            let ghost before = glyphs@;
            glyphs.push((letter, rect));
            proof {
                assert forall|c: char| #[trigger]
                    lookup(glyph_table(glyphs@), c) == listed_glyph(c, k + 1) by {
                    lemma_listed_one_more(before, letter, rect, c);
                    assert(lookup(glyph_table(before), c) == listed_glyph(c, k as int));
                }
            }
            k += 1;
        }
        let text = Text::new(font, glyphs.as_slice());
        let mut animation: Vec<Rc<Animation>> = Vec::new();
        animation.push(Rc::new(Animation::freeze(Rect { x: 0, y: 0, w: 16, h: 32 })));
        let mut textures: Vec<Rc<T>> = Vec::new();
        textures.push(Rc::clone(player));
        assert forall|c: char| #[trigger] text.glyph_of(c) == font_glyph(c) by {
            assert(lookup(glyph_table(glyphs@), c) == listed_glyph(c, 26));
        }
        Resources { animation, textures, text }
    }
}

/// The square of `x`.
pub fn square(x: i32) -> (r: i32)
    requires
        x * x <= i32::MAX,
    ensures
        r == x * x,
{
    assert(0 <= x * x) by (nonlinear_arith);
    x * x
}

} // verus!
