use engine2d::resources::{square, Resources, CHAR_SIZE};
use engine2d::text::Text;
use engine2d::types::{Rect, Vec2i};
use std::rc::Rc;

fn glyph(x: i32, w: u16) -> Rect {
    Rect { x, y: 0, w, h: 8 }
}

fn font() -> Text<&'static str> {
    let image = Rc::new("font image");
    Text::new(&image, &[('a', glyph(0, 8)), ('b', glyph(8, 6)), ('i', glyph(14, 2))])
}

#[test]
fn a_font_finds_the_glyphs_it_was_given() {
    let font = font();
    assert_eq!(font.glyph('a'), Some(glyph(0, 8)));
    assert_eq!(font.glyph('b'), Some(glyph(8, 6)));
    assert_eq!(font.glyph('i'), Some(glyph(14, 2)));
    assert_eq!(font.glyph('c'), None);
    assert_eq!(font.glyph('A'), None);
    assert_eq!(font.glyph('\u{10FFFF}'), None);
}

#[test]
fn a_font_keeps_its_image() {
    let image = Rc::new(7u32);
    let font = Text::new(&image, &[]);
    assert!(Rc::ptr_eq(font.image(), &image));
    assert_eq!(font.glyph('a'), None);
}

#[test]
fn the_last_glyph_listed_for_a_character_counts() {
    let image = Rc::new(());
    let font = Text::new(&image, &[('a', glyph(0, 8)), ('b', glyph(8, 6)), ('a', glyph(30, 3))]);
    assert_eq!(font.glyph('a'), Some(glyph(30, 3)));
    assert_eq!(font.glyph('b'), Some(glyph(8, 6)));
}

#[test]
fn a_line_places_each_glyph_after_the_one_before() {
    let line = font().layout("abia", Vec2i(100, -5));
    assert_eq!(
        line,
        Some(vec![
            (glyph(0, 8), Vec2i(100, -5)),
            (glyph(8, 6), Vec2i(108, -5)),
            (glyph(14, 2), Vec2i(114, -5)),
            (glyph(0, 8), Vec2i(116, -5)),
        ])
    );
}

#[test]
fn a_character_without_a_glyph_takes_no_room() {
    let line = font().layout("a?b i", Vec2i(0, 0));
    assert_eq!(
        line,
        Some(vec![
            (glyph(0, 8), Vec2i(0, 0)),
            (glyph(8, 6), Vec2i(8, 0)),
            (glyph(14, 2), Vec2i(14, 0)),
        ])
    );
    assert_eq!(font().layout("XYZ", Vec2i(3, 4)), Some(vec![]));
    assert_eq!(font().layout("", Vec2i(3, 4)), Some(vec![]));
}

#[test]
fn a_line_counts_characters_not_bytes() {
    let image = Rc::new(());
    let font = Text::new(&image, &[('é', glyph(0, 5)), ('a', glyph(8, 8))]);
    assert_eq!(
        font.layout("éaé", Vec2i(0, 0)),
        Some(vec![
            (glyph(0, 5), Vec2i(0, 0)),
            (glyph(8, 8), Vec2i(5, 0)),
            (glyph(0, 5), Vec2i(13, 0)),
        ])
    );
}

#[test]
fn a_line_that_leaves_the_world_cannot_be_set() {
    let font = font();
    // the second glyph would stand at i32::MAX + 4
    assert_eq!(font.layout("ab", Vec2i(i32::MAX - 4, 0)), None);
    // the pen may pass the rim as long as no glyph is placed there
    assert_eq!(
        font.layout("a", Vec2i(i32::MAX - 4, 0)),
        Some(vec![(glyph(0, 8), Vec2i(i32::MAX - 4, 0))])
    );
    assert_eq!(
        font.layout("a??", Vec2i(i32::MAX, 0)),
        Some(vec![(glyph(0, 8), Vec2i(i32::MAX, 0))])
    );
    assert_eq!(
        font.layout("ii", Vec2i(i32::MAX - 2, 9)),
        Some(vec![(glyph(14, 2), Vec2i(i32::MAX - 2, 9)), (glyph(14, 2), Vec2i(i32::MAX, 9))])
    );
    assert_eq!(font.layout("iii", Vec2i(i32::MAX - 2, 9)), None);
}

#[test]
fn the_built_in_resources_hold_the_player_and_the_font() {
    let player = Rc::new("player image");
    let sheet = Rc::new("font image");
    let rsrc = Resources::new(&player, &sheet);
    assert_eq!(rsrc.animation.len(), 1);
    assert_eq!(rsrc.animation[0].frames(), &vec![(Rect { x: 0, y: 0, w: 16, h: 32 }, 0)]);
    assert!(!rsrc.animation[0].looping());
    assert_eq!(rsrc.textures.len(), 1);
    assert!(Rc::ptr_eq(&rsrc.textures[0], &player));
    assert!(Rc::ptr_eq(rsrc.text.image(), &sheet));
}

#[test]
fn the_built_in_font_has_the_space_and_the_lower_case_letters() {
    assert_eq!(CHAR_SIZE, 8);
    let image = Rc::new(());
    let rsrc = Resources::new(&image, &image);
    let table = [
        (' ', 56, 104),
        ('a', 40, 24),
        ('b', 48, 24),
        ('c', 56, 24),
        ('d', 64, 24),
        ('e', 72, 24),
        ('f', 80, 24),
        ('g', 88, 24),
        ('h', 0, 32),
        ('i', 8, 32),
        ('j', 16, 32),
        ('k', 24, 32),
        ('l', 32, 32),
        ('m', 40, 32),
        ('n', 48, 32),
        ('o', 56, 32),
        ('p', 64, 32),
        ('q', 72, 32),
        ('r', 80, 32),
        ('s', 88, 32),
        ('t', 0, 40),
        ('u', 8, 40),
        ('v', 16, 40),
        ('w', 24, 40),
        ('x', 32, 40),
        ('y', 40, 40),
        ('z', 48, 40),
    ];
    for (c, x, y) in table {
        assert_eq!(rsrc.text.glyph(c), Some(Rect { x, y, w: 8, h: 8 }));
    }
    for c in ['A', 'Z', '0', '`', '{', '!', '\n', 'é'] {
        assert_eq!(rsrc.text.glyph(c), None);
    }
}

#[test]
fn the_built_in_font_sets_a_line() {
    let image = Rc::new(());
    let rsrc = Resources::new(&image, &image);
    assert_eq!(
        rsrc.text.layout("hi You", Vec2i(10, 20)),
        Some(vec![
            (Rect { x: 0, y: 32, w: 8, h: 8 }, Vec2i(10, 20)),
            (Rect { x: 8, y: 32, w: 8, h: 8 }, Vec2i(18, 20)),
            (Rect { x: 56, y: 104, w: 8, h: 8 }, Vec2i(26, 20)),
            (Rect { x: 56, y: 32, w: 8, h: 8 }, Vec2i(34, 20)),
            (Rect { x: 8, y: 40, w: 8, h: 8 }, Vec2i(42, 20)),
        ])
    );
}

#[test]
fn square_multiplies_a_number_by_itself() {
    assert_eq!(square(0), 0);
    assert_eq!(square(7), 49);
    assert_eq!(square(-12), 144);
    assert_eq!(square(46340), 2147395600);
    assert_eq!(square(-46340), 2147395600);
}
