//! Bitmap fonts and the setting of lines of text.

use crate::types::{Rect, Vec2i};
use std::collections::BTreeMap;
use std::rc::Rc;
use vstd::prelude::*;

verus! {

/// The number by which a glyph table finds a character: its code point.
pub open spec fn code_of(c: char) -> u32 {
    c as u32
}

/// The glyph table that `entries` describe. A character listed more than once
/// keeps its last rectangle.
pub open spec fn glyph_table(entries: Seq<(char, Rect)>) -> Map<u32, Rect>
    decreases entries.len(),
{
    if entries.len() == 0 {
        Map::empty()
    } else {
        glyph_table(entries.drop_last()).insert(code_of(entries.last().0), entries.last().1)
    }
}

/// Where the pen stands after the first `count` characters of `text`, having
/// started at `start`: each character with a glyph moves it right by the
/// width of that glyph.
pub open spec fn pen_after(glyphs: Map<u32, Rect>, text: Seq<char>, start: int, count: int) -> int
    decreases count,
{
    if count <= 0 {
        start
    } else {
        let before = pen_after(glyphs, text, start, count - 1);
        if glyphs.contains_key(code_of(text[count - 1])) {
            before + glyphs[code_of(text[count - 1])].w
        } else {
            before
        }
    }
}

/// The glyphs of the first `count` characters of `text`, each with the place
/// of its top-left corner, for a pen that starts at `pos`. Characters without
/// a glyph are left out and take no room.
pub open spec fn placed(glyphs: Map<u32, Rect>, text: Seq<char>, pos: Vec2i, count: int) -> Seq<
    (Rect, Vec2i),
>
    decreases count,
{
    if count <= 0 {
        Seq::empty()
    } else {
        let before = placed(glyphs, text, pos, count - 1);
        if glyphs.contains_key(code_of(text[count - 1])) {
            before.push(
                (
                    glyphs[code_of(text[count - 1])],
                    Vec2i(pen_after(glyphs, text, pos.0 as int, count - 1) as i32, pos.1),
                ),
            )
        } else {
            before
        }
    }
}

/// Whether every glyph of `text` is placed within the world: the pen stands
/// at an `i32` coordinate wherever a glyph is drawn.
pub open spec fn line_fits(glyphs: Map<u32, Rect>, text: Seq<char>, start: int) -> bool {
    forall|k: int|
        0 <= k < text.len() && glyphs.contains_key(code_of(#[trigger] text[k])) ==> pen_after(
            glyphs,
            text,
            start,
            k,
        ) <= i32::MAX
}

/// A bitmap font: an image and, for each character it can draw, the rectangle
/// of the image that holds the glyph.
pub struct Text<T> {
    data: BTreeMap<u32, Rect>,
    image: Rc<T>,
}

/// The code point of `c`.
fn code(c: char) -> (n: u32)
    ensures
        n == code_of(c),
{
    c as u32
}

impl<T> Text<T> {
    /// The image that holds the glyphs.
    pub closed spec fn sheet(self) -> T {
        *self.image
    }

    /// The glyph of each character that the font can draw, by code point.
    pub closed spec fn glyphs(self) -> Map<u32, Rect> {
        self.data@
    }

    /// The glyph of `c`, if the font has one.
    pub open spec fn glyph_of(self, c: char) -> Option<Rect> {
        if self.glyphs().contains_key(code_of(c)) {
            Some(self.glyphs()[code_of(c)])
        } else {
            None
        }
    }

    /// Makes a font of `image` and of the glyphs that `char_data` lists.
    pub fn new(image: &Rc<T>, char_data: &[(char, Rect)]) -> (font: Self)
        ensures
            font.glyphs() == glyph_table(char_data@),
            font.sheet() == **image,
    {
        let mut data: BTreeMap<u32, Rect> = BTreeMap::new();
        let mut i: usize = 0;
        while i < char_data.len()
            invariant
                i <= char_data.len(),
                data@ == glyph_table(char_data@.take(i as int)),
            decreases char_data.len() - i,
        {
            let (c, rect) = char_data[i];
            data.insert(code(c), rect);
            proof {
                assert(char_data@.take(i + 1).drop_last() =~= char_data@.take(i as int));
            }
            i += 1;
        }
        assert(char_data@.take(char_data.len() as int) =~= char_data@);
        Text { data, image: Rc::clone(image) }
    }

    /// The image that holds the glyphs.
    pub fn image(&self) -> (image: &Rc<T>)
        ensures
            **image == self.sheet(),
    {
        &self.image
    }

    /// Sets `string` in a line whose first glyph has its top-left corner at
    /// `pos`: the glyphs to draw, from left to right, each with its place.
    ///
    /// A character without a glyph is skipped. The line cannot be set, and
    /// the result is `None`, when a glyph would be placed beyond the world.
    pub fn layout(&self, string: &str, pos: Vec2i) -> (line: Option<Vec<(Rect, Vec2i)>>)
        ensures
            match line {
                Some(out) => line_fits(self.glyphs(), string@, pos.0 as int) && out@ == placed(
                    self.glyphs(),
                    string@,
                    pos,
                    string@.len() as int,
                ),
                None => !line_fits(self.glyphs(), string@, pos.0 as int),
            },
    {
        let mut out: Vec<(Rect, Vec2i)> = Vec::new();
        let mut pen: i64 = pos.0 as i64;
        for c in it: string.chars()
            invariant
                it.seq() == string@,
                pen == pen_after(self.glyphs(), string@, pos.0 as int, it.index() as int),
                pos.0 <= pen <= i32::MAX + 0xffff,
                out@ == placed(self.glyphs(), string@, pos, it.index() as int),
                forall|k: int|
                    0 <= k < it.index() && self.glyphs().contains_key(code_of(#[trigger] string@[k]))
                        ==> pen_after(self.glyphs(), string@, pos.0 as int, k) <= i32::MAX,
        {
            if let Some(rect) = self.glyph(c) {
                if pen > i32::MAX as i64 {
                    return None;
                }
                out.push((rect, Vec2i(pen as i32, pos.1)));
                pen = pen + rect.w as i64;
            }
        }
        Some(out)
    }

    /// The glyph of `c`, if the font has one.
    pub fn glyph(&self, c: char) -> (g: Option<Rect>)
        ensures
            g == self.glyph_of(c),
    {
        let key: u32 = code(c);
        match self.data.get(&key) {
            Some(rect) => Some(*rect),
            None => None,
        }
    }
}

} // verus!
