use engine2d::animation::{Animation, AnimationState};
use engine2d::error::EngineError;
use engine2d::types::Rect;
use std::rc::Rc;

const R0: Rect = Rect { x: 0, y: 0, w: 16, h: 16 };
const R1: Rect = Rect { x: 16, y: 0, w: 16, h: 16 };
const R2: Rect = Rect { x: 32, y: 0, w: 16, h: 16 };

fn two_frames(looping: bool) -> Rc<Animation> {
    Rc::new(Animation::new(vec![(R0, 1), (R1, 1)], looping).unwrap())
}

fn three_frames(looping: bool) -> Rc<Animation> {
    Rc::new(Animation::new(vec![(R0, 2), (R1, 3), (R2, 1)], looping).unwrap())
}

fn ticked(anim: &Rc<Animation>, ticks: usize) -> AnimationState {
    let mut state = anim.start();
    for _ in 0..ticks {
        state.tick();
    }
    state
}

#[test]
fn an_animation_without_frames_is_turned_down() {
    assert_eq!(Animation::new(vec![], false).err(), Some(EngineError::EmptyAnimation));
    assert_eq!(Animation::new(vec![], true).err(), Some(EngineError::EmptyAnimation));
}

#[test]
fn an_animation_longer_than_usize_is_turned_down() {
    let r = Animation::new(vec![(R0, usize::MAX), (R1, 1)], false);
    assert_eq!(r.err(), Some(EngineError::DurationOverflow));
    let r = Animation::new(vec![(R0, 1), (R1, usize::MAX / 2), (R2, usize::MAX / 2 + 1)], true);
    assert_eq!(r.err(), Some(EngineError::DurationOverflow));
    let longest = Animation::new(vec![(R0, usize::MAX - 1), (R1, 1)], false).unwrap();
    assert_eq!(longest.duration(), usize::MAX);
}

#[test]
fn an_animation_keeps_its_frames_and_its_flag() {
    let anim = Animation::new(vec![(R0, 2), (R1, 3), (R2, 1)], true).unwrap();
    assert_eq!(anim.frames(), &vec![(R0, 2), (R1, 3), (R2, 1)]);
    assert!(anim.looping());
    assert!(!two_frames(false).looping());
}

#[test]
fn the_duration_is_the_sum_of_the_frame_durations() {
    assert_eq!(two_frames(false).duration(), 2);
    assert_eq!(three_frames(true).duration(), 6);
    assert_eq!(Animation::new(vec![(R0, 0), (R1, 0)], false).unwrap().duration(), 0);
}

#[test]
fn a_frozen_animation_shows_one_rectangle_for_no_time() {
    let anim = Animation::freeze(R1);
    assert_eq!(anim.frames(), &vec![(R1, 0)]);
    assert!(!anim.looping());
    assert_eq!(anim.duration(), 0);
    let mut state = Rc::new(anim).start();
    assert_eq!(state.frame(), Ok(R1));
    assert!(state.done());
    state.tick();
    assert_eq!(state.time(), 0);
    assert_eq!(state.frame(), Ok(R1));
}

#[test]
fn a_fresh_playhead_stands_at_time_zero() {
    let anim = three_frames(true);
    let state = anim.start();
    assert_eq!(state.time(), 0);
    assert_eq!(state.current_frame(), (0, 0));
    assert!(!state.done());
}

#[test]
fn playheads_share_their_animation() {
    let anim = three_frames(true);
    let a = anim.start();
    let b = anim.start();
    assert!(Rc::ptr_eq(a.animation(), &anim));
    assert!(Rc::ptr_eq(a.animation(), b.animation()));
    assert_eq!(Rc::strong_count(&anim), 3);
    drop(a);
    drop(b);
    assert_eq!(Rc::strong_count(&anim), 1);
}

#[test]
fn at_time_zero_the_first_frame_shows() {
    assert_eq!(two_frames(false).start().frame(), Ok(R0));
    assert_eq!(two_frames(true).start().frame(), Ok(R0));
    assert_eq!(three_frames(true).start().frame(), Ok(R0));
    let zero_first = Rc::new(Animation::new(vec![(R2, 0), (R1, 5)], false).unwrap());
    assert_eq!(zero_first.start().frame(), Ok(R2));
    assert_eq!(zero_first.frame_at(0), Ok(R2));
}

#[test]
fn a_frame_shows_until_its_end_is_passed() {
    // frames of 2, 3 and 1: their ends lie at 2, 5 and 6
    let anim = three_frames(false);
    let shown: Vec<Result<Rect, EngineError>> = (0..=6).map(|t| anim.frame_at(t)).collect();
    assert_eq!(shown, vec![Ok(R0), Ok(R0), Ok(R0), Ok(R1), Ok(R1), Ok(R1), Ok(R2)]);
}

#[test]
fn two_frames_of_one_tick_each_play_once() {
    let anim = two_frames(false);
    assert_eq!(anim.duration(), 2);
    let mut state = anim.start();
    assert_eq!(state.time(), 0);
    assert_eq!(state.frame(), Ok(R0));
    assert!(!state.done());
    state.tick();
    // the first frame shows up to and at its end, time 1
    assert_eq!(state.time(), 1);
    assert_eq!(state.frame(), Ok(R0));
    assert!(!state.done());
    state.tick();
    assert_eq!(state.time(), 2);
    assert_eq!(state.frame(), Ok(R1));
    assert!(state.done());
}

#[test]
fn a_playhead_past_the_duration_has_no_frame() {
    let anim = two_frames(false);
    let mut state = anim.start();
    state.change_time(2);
    assert_eq!(state.frame(), Ok(R1));
    state.change_time(3);
    assert_eq!(state.frame(), Err(EngineError::FrameNotFound));
    state.change_time(usize::MAX);
    assert_eq!(state.frame(), Err(EngineError::FrameNotFound));
    assert_eq!(anim.frame_at(3), Err(EngineError::FrameNotFound));
    assert_eq!(Animation::freeze(R0).frame_at(1), Err(EngineError::FrameNotFound));
}

#[test]
fn change_time_moves_the_playhead_only() {
    let anim = three_frames(true);
    let mut state = anim.start();
    state.animate();
    let cursor = state.current_frame();
    state.change_time(4);
    assert_eq!(state.time(), 4);
    assert_eq!(state.current_frame(), cursor);
    assert_eq!(state.frame(), Ok(R1));
    assert!(Rc::ptr_eq(state.animation(), &anim));
}

#[test]
fn a_looping_playhead_wraps_around_the_duration() {
    let anim = three_frames(true);
    let mut state = anim.start();
    let mut times = vec![];
    for _ in 0..14 {
        state.tick();
        times.push(state.time());
    }
    assert_eq!(times, vec![1, 2, 3, 4, 5, 0, 1, 2, 3, 4, 5, 0, 1, 2]);
    assert!(!state.done());
}

#[test]
fn a_looping_playhead_counts_ticks_modulo_the_duration() {
    let anim = three_frames(true);
    for ticks in [0usize, 1, 5, 6, 7, 12, 13, 100] {
        let state = ticked(&anim, ticks);
        assert_eq!(state.time(), ticks % 6);
        assert_eq!(state.frame(), anim.frame_at(ticks % 6));
    }
}

#[test]
fn a_looping_playhead_set_past_the_duration_wraps_on_the_next_tick() {
    let anim = three_frames(true);
    let mut state = anim.start();
    state.change_time(20);
    state.tick();
    assert_eq!(state.time(), 3);
    state.change_time(usize::MAX);
    state.tick();
    assert_eq!(state.time(), ((usize::MAX % 6) + 1) % 6);
}

#[test]
fn a_looping_animation_of_no_duration_stays_at_zero() {
    let anim = Rc::new(Animation::new(vec![(R0, 0), (R1, 0)], true).unwrap());
    let mut state = anim.start();
    state.tick();
    assert_eq!(state.time(), 0);
    state.change_time(9);
    state.tick();
    assert_eq!(state.time(), 0);
    assert_eq!(state.frame(), Ok(R0));
}

#[test]
fn a_playhead_that_plays_once_stops_at_the_duration() {
    let anim = three_frames(false);
    let mut state = anim.start();
    let mut seen = vec![];
    for _ in 0..9 {
        state.tick();
        seen.push((state.time(), state.done()));
    }
    assert_eq!(
        seen,
        vec![
            (1, false),
            (2, false),
            (3, false),
            (4, false),
            (5, false),
            (6, true),
            (6, true),
            (6, true),
            (6, true),
        ]
    );
    assert_eq!(state.frame(), Ok(R2));
}

#[test]
fn a_playhead_set_past_the_duration_comes_back_to_it() {
    let anim = three_frames(false);
    let mut state = anim.start();
    state.change_time(usize::MAX);
    assert!(state.done());
    state.tick();
    assert_eq!(state.time(), 6);
    assert!(state.done());
}

#[test]
fn done_means_the_playhead_has_reached_the_duration() {
    let anim = three_frames(false);
    let mut state = anim.start();
    for (t, done) in [(0, false), (5, false), (6, true), (7, true), (usize::MAX, true)] {
        state.change_time(t);
        assert_eq!(state.done(), done);
    }
}

#[test]
fn play_does_nothing_while_the_animation_runs() {
    let anim = three_frames(false);
    let other = two_frames(true);
    let mut state = anim.start();
    state.tick();
    state.animate();
    state.play(&other, false);
    assert!(Rc::ptr_eq(state.animation(), &anim));
    assert_eq!(state.time(), 1);
    assert_eq!(state.current_frame(), (0, 1));
}

#[test]
fn play_starts_over_when_forced() {
    let anim = three_frames(false);
    let other = two_frames(true);
    let mut state = anim.start();
    state.tick();
    state.animate();
    state.animate();
    state.play(&other, true);
    assert!(Rc::ptr_eq(state.animation(), &other));
    assert_eq!(state.time(), 0);
    assert_eq!(state.current_frame(), (0, 0));
    assert_eq!(state.frame(), Ok(R0));
}

#[test]
fn play_starts_over_when_the_animation_is_done() {
    let anim = two_frames(false);
    let other = three_frames(true);
    let mut state = ticked(&anim, 2);
    assert!(state.done());
    state.play(&other, false);
    assert!(Rc::ptr_eq(state.animation(), &other));
    assert_eq!(state.time(), 0);
    assert!(!state.done());
    // the same animation again
    let mut state = ticked(&anim, 5);
    state.play(&anim, false);
    assert_eq!(state.time(), 0);
    assert!(!state.done());
}

#[test]
fn a_done_animation_stays_done_until_it_is_played_again() {
    let anim = two_frames(false);
    let mut state = ticked(&anim, 2);
    for _ in 0..5 {
        assert!(state.done());
        state.tick();
    }
    assert!(state.done());
    state.play(&anim, true);
    assert!(!state.done());
}

#[test]
fn the_cursor_steps_through_the_frames_of_a_loop() {
    // frames held for 2, 3 and 1 steps
    let anim = three_frames(true);
    let mut state = anim.start();
    let mut seen = vec![];
    for _ in 0..8 {
        state.animate();
        seen.push(state.current_frame());
    }
    assert_eq!(seen, vec![(0, 1), (1, 0), (1, 1), (1, 2), (2, 0), (0, 0), (0, 1), (1, 0)]);
    assert_eq!(state.time(), 0);
}

#[test]
fn the_cursor_stays_on_the_last_frame_of_an_animation_that_plays_once() {
    let anim = three_frames(false);
    let mut state = anim.start();
    let mut seen = vec![];
    for _ in 0..8 {
        state.animate();
        seen.push(state.current_frame());
    }
    assert_eq!(seen, vec![(0, 1), (1, 0), (1, 1), (1, 2), (2, 0), (2, 0), (2, 0), (2, 0)]);
}

#[test]
fn the_cursor_never_leaves_a_frame_of_no_duration() {
    // the count is stepped before it is held against the duration, so on a
    // frame of duration 0 it never equals the duration again: it only grows
    let anim = Rc::new(Animation::new(vec![(R0, 1), (R1, 0), (R2, 1)], true).unwrap());
    let mut state = anim.start();
    state.animate();
    assert_eq!(state.current_frame(), (1, 0));
    let mut seen = vec![];
    for _ in 0..5 {
        state.animate();
        seen.push(state.current_frame());
    }
    assert_eq!(seen, vec![(1, 1), (1, 2), (1, 3), (1, 4), (1, 5)]);
    assert_eq!(state.time(), 0);
}

#[test]
fn the_cursor_counts_up_on_a_frozen_animation() {
    let mut frozen = Rc::new(Animation::freeze(R0)).start();
    assert_eq!(frozen.current_frame(), (0, 0));
    frozen.animate();
    assert_eq!(frozen.current_frame(), (0, 1));
    frozen.animate();
    assert_eq!(frozen.current_frame(), (0, 2));
    frozen.animate();
    assert_eq!(frozen.current_frame(), (0, 3));
    assert_eq!(frozen.frame(), Ok(R0));
}

#[test]
fn the_count_on_a_frame_of_no_duration_starts_at_zero() {
    // a fresh start puts the count back to 0, and so does reaching the frame
    let anim = Rc::new(Animation::new(vec![(R0, 0), (R1, 2)], true).unwrap());
    let mut state = anim.start();
    state.animate();
    assert_eq!(state.current_frame(), (0, 1));
    state.play(&anim, true);
    assert_eq!(state.current_frame(), (0, 0));
    let other = Rc::new(Animation::new(vec![(R1, 2), (R0, 0)], false).unwrap());
    let mut state = other.start();
    let mut seen = vec![];
    for _ in 0..5 {
        state.animate();
        seen.push(state.current_frame());
    }
    assert_eq!(seen, vec![(0, 1), (1, 0), (1, 1), (1, 2), (1, 3)]);
}
