use engine2d::animation::Animation;
use engine2d::error::EngineError;
use engine2d::sprite::{sheet_row, Direction, Sprite};
use engine2d::types::{Rect, Vec2i};
use std::rc::Rc;

const R0: Rect = Rect { x: 0, y: 0, w: 16, h: 16 };
const R1: Rect = Rect { x: 16, y: 0, w: 16, h: 16 };

#[test]
fn each_direction_has_its_row_of_the_sheet() {
    assert_eq!(sheet_row(Direction::Up), 3);
    assert_eq!(sheet_row(Direction::Down), 0);
    assert_eq!(sheet_row(Direction::Left), 1);
    assert_eq!(sheet_row(Direction::Right), 2);
}

#[test]
fn a_sprite_keeps_what_it_was_made_of() {
    let image = Rc::new("sheet");
    let anim = Rc::new(Animation::freeze(R0));
    let sprite = Sprite::new(&image, &anim, Vec2i(3, -4), Direction::Left, 9);
    assert!(Rc::ptr_eq(sprite.image(), &image));
    assert!(Rc::ptr_eq(sprite.animation(), &anim));
    assert_eq!(sprite.position(), Vec2i(3, -4));
    assert_eq!(sprite.direction(), Direction::Left);
    assert_eq!(sprite.elapsed_time(), 9);
}

#[test]
fn a_sprite_can_be_moved_and_turned() {
    let image = Rc::new(());
    let anim = Rc::new(Animation::freeze(R0));
    let mut sprite = Sprite::new(&image, &anim, Vec2i(0, 0), Direction::Down, 0);
    sprite.set_position(Vec2i(8, 9));
    sprite.set_direction(Direction::Up);
    assert_eq!(sprite.position(), Vec2i(8, 9));
    assert_eq!(sprite.direction(), Direction::Up);
    assert_eq!(sprite.elapsed_time(), 0);
}

#[test]
fn a_tick_adds_one_to_the_age_of_a_sprite() {
    let image = Rc::new(());
    let anim = Rc::new(Animation::freeze(R0));
    let mut sprite = Sprite::new(&image, &anim, Vec2i(1, 2), Direction::Right, 41);
    sprite.tick();
    assert_eq!(sprite.elapsed_time(), 42);
    sprite.tick();
    assert_eq!(sprite.elapsed_time(), 43);
    assert_eq!(sprite.position(), Vec2i(1, 2));
    assert_eq!(sprite.direction(), Direction::Right);
}

#[test]
fn a_sprite_shows_the_frame_of_its_age() {
    let image = Rc::new(());
    let anim = Rc::new(Animation::new(vec![(R0, 2), (R1, 2)], false).unwrap());
    let mut sprite = Sprite::new(&image, &anim, Vec2i(0, 0), Direction::Down, 0);
    let mut shown = vec![];
    for _ in 0..6 {
        shown.push(sprite.frame());
        sprite.tick();
    }
    assert_eq!(
        shown,
        vec![Ok(R0), Ok(R0), Ok(R0), Ok(R1), Ok(R1), Err(EngineError::FrameNotFound)]
    );
}
