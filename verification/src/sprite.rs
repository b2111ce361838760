//! Sprites: an image, an animation and a place in the world.

use crate::animation::{frame_index_at, total_duration, Animation};
use crate::error::EngineError;
use crate::types::{Rect, Vec2i};
use std::rc::Rc;
use vstd::prelude::*;

verus! {

/// The way a sprite faces.
#[derive(PartialEq, Eq, Structural, Clone, Copy, Debug)]
pub enum Direction {
    Up,
    Down,
    Left,
    Right,
}

/// An image that plays an animation at a place in the world.
pub struct Sprite<T> {
    image: Rc<T>,
    animation: Rc<Animation>,
    position: Vec2i,
    direction: Direction,
    elapsed_time: usize,
}

impl<T> Sprite<T> {
    /// The image that the sprite is cut from.
    pub closed spec fn sheet(self) -> T {
        *self.image
    }

    /// The animation that the sprite plays.
    pub closed spec fn played(self) -> Animation {
        *self.animation
    }

    /// Where the sprite stands.
    pub closed spec fn place(self) -> Vec2i {
        self.position
    }

    /// The way the sprite faces.
    pub closed spec fn facing(self) -> Direction {
        self.direction
    }

    /// The ticks that the sprite has lived through.
    pub closed spec fn age(self) -> nat {
        self.elapsed_time as nat
    }

    /// A sprite cut from `image` that plays `animation` at `position`, facing
    /// `direction`, `elapsed_time` ticks old.
    pub fn new(
        image: &Rc<T>,
        animation: &Rc<Animation>,
        position: Vec2i,
        direction: Direction,
        elapsed_time: usize,
    ) -> (sprite: Self)
        ensures
            sprite.sheet() == **image,
            sprite.played() == **animation,
            sprite.place() == position,
            sprite.facing() == direction,
            sprite.age() == elapsed_time,
    {
        Self {
            image: Rc::clone(image),
            animation: Rc::clone(animation),
            position,
            direction,
            elapsed_time,
        }
    }

    /// Lets one unit of time pass.
    pub fn tick(&mut self)
        requires
            old(self).age() < usize::MAX,
        ensures
            final(self).age() == old(self).age() + 1,
            final(self).sheet() == old(self).sheet(),
            final(self).played() == old(self).played(),
            final(self).place() == old(self).place(),
            final(self).facing() == old(self).facing(),
    {
        self.elapsed_time += 1;
    }

    /// The image that the sprite is cut from.
    pub fn image(&self) -> (image: &Rc<T>)
        ensures
            **image == self.sheet(),
    {
        &self.image
    }

    /// The animation that the sprite plays.
    pub fn animation(&self) -> (animation: &Rc<Animation>)
        ensures
            **animation == self.played(),
    {
        &self.animation
    }

    /// Where the sprite stands.
    pub fn position(&self) -> (position: Vec2i)
        ensures
            position == self.place(),
    {
        self.position
    }

    /// Puts the sprite at `position`.
    pub fn set_position(&mut self, position: Vec2i)
        ensures
            final(self).place() == position,
            final(self).age() == old(self).age(),
            final(self).sheet() == old(self).sheet(),
            final(self).played() == old(self).played(),
            final(self).facing() == old(self).facing(),
    {
        self.position = position;
    }

    /// The way the sprite faces.
    pub fn direction(&self) -> (direction: Direction)
        ensures
            direction == self.facing(),
    {
        self.direction
    }

    /// Turns the sprite to face `direction`.
    pub fn set_direction(&mut self, direction: Direction)
        ensures
            final(self).facing() == direction,
            final(self).age() == old(self).age(),
            final(self).sheet() == old(self).sheet(),
            final(self).played() == old(self).played(),
            final(self).place() == old(self).place(),
    {
        self.direction = direction;
    }

    /// The ticks that the sprite has lived through.
    pub fn elapsed_time(&self) -> (elapsed: usize)
        ensures
            elapsed == self.age(),
    {
        self.elapsed_time
    }

    /// The rectangle of the image to draw now: the frame that the animation
    /// shows at the sprite's age.
    pub fn frame(&self) -> (r: Result<Rect, EngineError>)
        ensures
            match r {
                Ok(rect) => frame_index_at(self.played().frame_seq(), self.age()) matches Some(i)
                    && rect == self.played().frame_seq()[i].0,
                Err(e) => frame_index_at(self.played().frame_seq(), self.age()) is None && e
                    == EngineError::FrameNotFound,
            },
            r is Ok <==> self.age() <= total_duration(self.played().frame_seq()),
    {
        self.animation.frame_at(self.elapsed_time)
    }
}

/// The row of a sprite sheet that holds the frames for `direction`.
pub fn sheet_row(direction: Direction) -> (row: i32)
    ensures
        row == match direction {
            Direction::Up => 3i32,
            Direction::Down => 0i32,
            Direction::Left => 1i32,
            Direction::Right => 2i32,
        },
{
    match direction {
        Direction::Up => 3,
        Direction::Down => 0,
        Direction::Left => 1,
        Direction::Right => 2,
    }
}

} // verus!
