//! Sprite animations and the playheads that run on them.
//!
//! An [`Animation`] is a fixed run of frames. An [`AnimationState`] counts the
//! time that has passed on one animation and says which frame shows.

use crate::error::EngineError;
use crate::types::Rect;
use std::rc::Rc;
use vstd::arithmetic::div_mod::{lemma_add_mod_noop_right, lemma_mod_self_0, lemma_small_mod};
use vstd::prelude::*;

verus! {

/// The time at which the first `count` frames have all been shown: the sum of
/// their durations.
pub open spec fn elapsed_through(frames: Seq<(Rect, usize)>, count: int) -> nat
    decreases count,
{
    if count <= 0 {
        0
    } else {
        elapsed_through(frames, count - 1) + frames[count - 1].1 as nat
    }
}

/// The time at which frame `index` has been shown in full.
pub open spec fn frame_end(frames: Seq<(Rect, usize)>, index: int) -> nat {
    elapsed_through(frames, index + 1)
}

/// The time that all frames together take.
pub open spec fn total_duration(frames: Seq<(Rect, usize)>) -> nat {
    elapsed_through(frames, frames.len() as int)
}

/// The first frame at or after index `from` whose end lies at or after `time`.
pub open spec fn first_reaching(frames: Seq<(Rect, usize)>, time: nat, from: int) -> Option<int>
    decreases frames.len() - from,
{
    if from >= frames.len() {
        None
    } else if frame_end(frames, from) >= time {
        Some(from)
    } else {
        first_reaching(frames, time, from + 1)
    }
}

/// The frame on display at `time`: the first one whose end lies at or after
/// `time`. There is none once `time` has passed the total duration.
pub open spec fn frame_index_at(frames: Seq<(Rect, usize)>, time: nat) -> Option<int> {
    first_reaching(frames, time, 0)
}

/// The playhead one tick after `time`.
///
/// A looping animation wraps around its total duration, and stays at 0 when
/// that duration is 0. Any other animation stops at its total duration.
pub open spec fn next_playhead(frames: Seq<(Rect, usize)>, looping: bool, time: nat) -> nat {
    let total = total_duration(frames);
    if looping {
        if total == 0 {
            0
        } else {
            (time + 1) % total
        }
    } else if time + 1 <= total {
        time + 1
    } else {
        total
    }
}

/// The playhead `ticks` ticks after `time`.
pub open spec fn playhead_after(
    frames: Seq<(Rect, usize)>,
    looping: bool,
    time: nat,
    ticks: nat,
) -> nat
    decreases ticks,
{
    if ticks == 0 {
        time
    } else {
        next_playhead(frames, looping, playhead_after(frames, looping, time, (ticks - 1) as nat))
    }
}

/// The frame that follows frame `index`: a looping animation goes back to its
/// first frame after the last, any other stays on the last.
pub open spec fn next_frame(frames: Seq<(Rect, usize)>, looping: bool, index: int) -> int {
    if index + 1 < frames.len() {
        index + 1
    } else if looping {
        0
    } else {
        index
    }
}

/// The frame cursor one step after `cursor`, a pair of a frame's index and the
/// steps spent on that frame.
///
/// The step is counted first. A frame is left when the count then equals its
/// duration, and the count starts over at 0 on the frame that follows. A
/// frame of duration 0 is never left: the count on it only grows.
pub open spec fn next_cursor(frames: Seq<(Rect, usize)>, looping: bool, cursor: (usize, usize)) -> (
    usize,
    usize,
) {
    if cursor.1 + 1 == frames[cursor.0 as int].1 {
        (next_frame(frames, looping, cursor.0 as int) as usize, 0)
    } else {
        (cursor.0, (cursor.1 + 1) as usize)
    }
}

/// Whether `cursor` points at a frame and, where that frame has a duration
/// above 0, has spent less than the duration on it.
pub open spec fn cursor_valid(frames: Seq<(Rect, usize)>, cursor: (usize, usize)) -> bool {
    &&& cursor.0 < frames.len()
    &&& frames[cursor.0 as int].1 > 0 ==> cursor.1 < frames[cursor.0 as int].1
}

/// An ordered, non-empty run of frames, each a rectangle of a sprite sheet
/// and the time for which it is shown, that plays once or in a loop.
///
/// An animation does not change once it is made. Playheads share it through
/// an `Rc`.
#[derive(Debug)]
pub struct Animation {
    frames: Vec<(Rect, usize)>,
    looping: bool,
}

impl Animation {
    /// An animation has a frame, and its durations add up within `usize`.
    #[verifier::type_invariant]
    spec fn well_formed(self) -> bool {
        &&& self.frames@.len() > 0
        &&& total_duration(self.frames@) <= usize::MAX
    }

    /// The frames, in the order in which they are shown.
    pub closed spec fn frame_seq(self) -> Seq<(Rect, usize)> {
        self.frames@
    }

    /// Whether the animation starts over when it has run through.
    pub closed spec fn is_looping(self) -> bool {
        self.looping
    }

    /// Whether the animation has a frame and a total duration within `usize`,
    /// as every animation made by `new` or `freeze` has.
    pub open spec fn valid(self) -> bool {
        &&& self.frame_seq().len() > 0
        &&& total_duration(self.frame_seq()) <= usize::MAX
    }

    /// Makes an animation of `frames`.
    ///
    /// An empty list of frames is turned down, and so is one whose durations
    /// do not add up within `usize`.
    pub fn new(frames: Vec<(Rect, usize)>, looping: bool) -> (r: Result<Animation, EngineError>)
        ensures
            match r {
                Ok(a) => {
                    &&& a.valid()
                    &&& a.frame_seq() == frames@
                    &&& a.is_looping() == looping
                },
                Err(e) => if frames.len() == 0 {
                    e == EngineError::EmptyAnimation
                } else {
                    total_duration(frames@) > usize::MAX && e == EngineError::DurationOverflow
                },
            },
    {
        if frames.len() == 0 {
            return Err(EngineError::EmptyAnimation);
        }
        let mut total: usize = 0;
        let mut i: usize = 0;
        while i < frames.len()
            invariant
                i <= frames.len(),
                total == elapsed_through(frames@, i as int),
            decreases frames.len() - i,
        {
            match total.checked_add(frames[i].1) {
                Some(sum) => {
                    total = sum;
                },
                None => {
                    proof {
                        lemma_elapsed_monotone(frames@, i + 1, frames.len() as int);
                    }
                    return Err(EngineError::DurationOverflow);
                },
            }
            i += 1;
        }
        Ok(Animation { frames, looping })
    }

    /// An animation that shows `r` and nothing else.
    pub fn freeze(r: Rect) -> (a: Animation)
        ensures
            a.valid(),
            a.frame_seq() == seq![(r, 0usize)],
            !a.is_looping(),
    {
        let mut frames: Vec<(Rect, usize)> = Vec::new();
        frames.push((r, 0));
        assert(frames@ =~= seq![(r, 0usize)]);
        assert(total_duration(frames@) == 0) by {
            reveal_with_fuel(elapsed_through, 2);
        }
        Animation { frames, looping: false }
    }

    /// The frames, in the order in which they are shown.
    pub fn frames(&self) -> (frames: &Vec<(Rect, usize)>)
        ensures
            frames@ == self.frame_seq(),
            self.valid(),
    {
        proof {
            use_type_invariant(self);
        }
        &self.frames
    }

    /// Whether the animation starts over when it has run through.
    pub fn looping(&self) -> (looping: bool)
        ensures
            looping == self.is_looping(),
    {
        self.looping
    }

    /// Puts a fresh playhead at the start of this animation.
    pub fn start(self: &Rc<Animation>) -> (state: AnimationState)
        ensures
            state.played() == **self,
            state.playhead() == 0,
            state.cursor() == (0usize, 0usize),
    {
        proof {
            use_type_invariant(&**self);
        }
        AnimationState { animation: Rc::clone(self), current_frame: (0, 0), time: 0 }
    }

    /// The time that all frames together take.
    pub fn duration(&self) -> (total: usize)
        ensures
            total == total_duration(self.frame_seq()),
    {
        proof {
            use_type_invariant(self);
        }
        let mut total: usize = 0;
        let mut i: usize = 0;
        while i < self.frames.len()
            invariant
                i <= self.frames.len(),
                total == elapsed_through(self.frames@, i as int),
                total_duration(self.frames@) <= usize::MAX,
            decreases self.frames.len() - i,
        {
            proof {
                lemma_elapsed_monotone(self.frames@, i + 1, self.frames.len() as int);
            }
            total = total + self.frames[i].1;
            i += 1;
        }
        total
    }

    /// The rectangle on display at `time`, or `FrameNotFound` where `time`
    /// lies past the total duration.
    pub fn frame_at(&self, time: usize) -> (r: Result<Rect, EngineError>)
        ensures
            match r {
                Ok(rect) => frame_index_at(self.frame_seq(), time as nat) matches Some(i)
                    && rect == self.frame_seq()[i].0,
                Err(e) => frame_index_at(self.frame_seq(), time as nat) is None && e
                    == EngineError::FrameNotFound,
            },
            r is Ok <==> time <= total_duration(self.frame_seq()),
            time == 0 ==> r == Ok::<Rect, EngineError>(self.frame_seq()[0].0),
    {
        proof {
            use_type_invariant(self);
            lemma_frame_index_at(self.frames@, time as nat);
        }
        let mut end: usize = 0;
        let mut i: usize = 0;
        while i < self.frames.len()
            invariant
                i <= self.frames.len(),
                end == elapsed_through(self.frames@, i as int),
                total_duration(self.frames@) <= usize::MAX,
                frame_index_at(self.frames@, time as nat) == first_reaching(
                    self.frames@,
                    time as nat,
                    i as int,
                ),
            decreases self.frames.len() - i,
        {
            proof {
                lemma_elapsed_monotone(self.frames@, i + 1, self.frames.len() as int);
            }
            end = end + self.frames[i].1;
            if end >= time {
                return Ok(self.frames[i].0);
            }
            i += 1;
        }
        Err(EngineError::FrameNotFound)
    }
}

/// A playhead on a shared animation: the time that has passed since the
/// animation was started, and a cursor that steps from frame to frame.
#[derive(Debug)]
pub struct AnimationState {
    animation: Rc<Animation>,
    current_frame: (usize, usize),
    time: usize,
}

impl AnimationState {
    /// The cursor of a playhead always points at a frame of its animation.
    #[verifier::type_invariant]
    spec fn well_formed(self) -> bool {
        &&& self.animation.well_formed()
        &&& cursor_valid(self.animation.frames@, self.current_frame)
    }

    /// The animation that is playing.
    pub closed spec fn played(self) -> Animation {
        *self.animation
    }

    /// The time that has passed on this playhead.
    pub closed spec fn playhead(self) -> nat {
        self.time as nat
    }

    /// The frame that the cursor is on, and the steps it has spent there.
    pub closed spec fn cursor(self) -> (usize, usize) {
        self.current_frame
    }

    /// Whether the playhead belongs to a valid animation and its cursor to a
    /// frame of it, as holds of every playhead made by `start`.
    pub open spec fn valid(self) -> bool {
        &&& self.played().valid()
        &&& cursor_valid(self.played().frame_seq(), self.cursor())
    }

    /// The animation that is playing, shared with every other playhead on it.
    pub fn animation(&self) -> (animation: &Rc<Animation>)
        ensures
            **animation == self.played(),
    {
        &self.animation
    }

    /// The time that has passed on this playhead.
    pub fn time(&self) -> (time: usize)
        ensures
            time == self.playhead(),
    {
        self.time
    }

    /// The frame that the cursor is on, and the steps it has spent there.
    pub fn current_frame(&self) -> (cursor: (usize, usize))
        ensures
            cursor == self.cursor(),
            self.valid(),
    {
        proof {
            use_type_invariant(self);
        }
        self.current_frame
    }

    /// Steps the frame cursor once. The playhead stays where it is.
    ///
    /// The count of steps on the frame must be below `usize::MAX`; only on a
    /// frame of duration 0 can it get that far.
    pub fn animate(&mut self)
        requires
            old(self).cursor().1 < usize::MAX,
        ensures
            final(self).played() == old(self).played(),
            final(self).playhead() == old(self).playhead(),
            final(self).cursor() == next_cursor(
                old(self).played().frame_seq(),
                old(self).played().is_looping(),
                old(self).cursor(),
            ),
    {
        proof {
            use_type_invariant(&*self);
        }
        let (index, spent) = self.current_frame;
        let held: usize = self.animation.frames[index].1;
        if spent + 1 == held {
            let count: usize = self.animation.frames.len();
            let next: usize = if index + 1 < count {
                index + 1
            } else if self.animation.looping {
                0
            } else {
                index
            };
            self.current_frame = (next, 0);
        } else {
            self.current_frame = (index, spent + 1);
        }
    }

    /// The rectangle on display at the playhead, or `FrameNotFound` where the
    /// playhead lies past the total duration of the animation.
    pub fn frame(&self) -> (r: Result<Rect, EngineError>)
        ensures
            match r {
                Ok(rect) => frame_index_at(self.played().frame_seq(), self.playhead())
                    matches Some(i) && rect == self.played().frame_seq()[i].0,
                Err(e) => frame_index_at(self.played().frame_seq(), self.playhead()) is None
                    && e == EngineError::FrameNotFound,
            },
            r is Ok <==> self.playhead() <= total_duration(self.played().frame_seq()),
            self.playhead() == 0 ==> r == Ok::<Rect, EngineError>(
                self.played().frame_seq()[0].0,
            ),
    {
        self.animation.frame_at(self.time)
    }

    /// Puts the playhead at `t`.
    pub fn change_time(&mut self, t: usize)
        ensures
            final(self).played() == old(self).played(),
            final(self).cursor() == old(self).cursor(),
            final(self).playhead() == t,
    {
        proof {
            use_type_invariant(&*self);
        }
        self.time = t;
    }

    /// Whether the playhead has reached the total duration of the animation.
    pub fn done(&self) -> (done: bool)
        ensures
            done <==> self.playhead() >= total_duration(self.played().frame_seq()),
    {
        self.time >= self.animation.duration()
    }

    /// Moves the playhead on by one unit of time.
    pub fn tick(&mut self)
        ensures
            final(self).played() == old(self).played(),
            final(self).cursor() == old(self).cursor(),
            final(self).playhead() == next_playhead(
                old(self).played().frame_seq(),
                old(self).played().is_looping(),
                old(self).playhead(),
            ),
    {
        proof {
            use_type_invariant(&*self);
        }
        let total: usize = self.animation.duration();
        let next: usize = if self.animation.looping {
            if total == 0 {
                0
            } else {
                let within: usize = self.time % total;
                proof {
                    lemma_add_mod_noop_right(1, self.time as int, total as int);
                    if within + 1 == total {
                        lemma_mod_self_0(total as int);
                    } else {
                        lemma_small_mod((within + 1) as nat, total as nat);
                    }
                }
                if within + 1 == total {
                    0
                } else {
                    within + 1
                }
            }
        } else if self.time < total {
            self.time + 1
        } else {
            total
        };
        self.time = next;
    }

    /// Starts `anim` from its beginning if this playhead is done or `force` is
    /// set, and does nothing otherwise.
    pub fn play(&mut self, anim: &Rc<Animation>, force: bool)
        ensures
            old(self).playhead() >= total_duration(old(self).played().frame_seq()) || force ==> {
                &&& final(self).played() == **anim
                &&& final(self).playhead() == 0
                &&& final(self).cursor() == (0usize, 0usize)
            },
            !(old(self).playhead() >= total_duration(old(self).played().frame_seq()) || force)
                ==> *final(self) == *old(self),
    {
        if self.done() || force {
            *self = anim.start();
        }
    }
}

/// The end of a frame never lies before the end of an earlier frame.
pub proof fn lemma_elapsed_monotone(frames: Seq<(Rect, usize)>, i: int, j: int)
    requires
        i <= j,
    ensures
        elapsed_through(frames, i) <= elapsed_through(frames, j),
    decreases j - i,
{
    if i < j {
        lemma_elapsed_monotone(frames, i, j - 1);
    }
}

/// The frame on display at a time is the first whose end reaches that time,
/// and a time has no frame exactly when it lies past the total duration.
pub proof fn lemma_frame_index_at(frames: Seq<(Rect, usize)>, time: nat)
    ensures
        match frame_index_at(frames, time) {
            Some(i) => {
                &&& 0 <= i < frames.len()
                &&& time <= frame_end(frames, i)
                &&& forall|j: int| 0 <= j < i ==> frame_end(frames, j) < time
            },
            None => frames.len() == 0 || time > total_duration(frames),
        },
        frame_index_at(frames, time) is Some <==> frames.len() > 0 && time <= total_duration(frames),
{
    lemma_first_reaching(frames, time, 0);
    match frame_index_at(frames, time) {
        Some(i) => lemma_elapsed_monotone(frames, i + 1, frames.len() as int),
        None => {},
    }
}

/// The search from `from` finds the first frame whose end reaches `time`,
/// given that no frame before `from` does.
proof fn lemma_first_reaching(frames: Seq<(Rect, usize)>, time: nat, from: int)
    requires
        0 <= from,
        forall|j: int| 0 <= j < from ==> frame_end(frames, j) < time,
    ensures
        match first_reaching(frames, time, from) {
            Some(i) => {
                &&& from <= i < frames.len()
                &&& time <= frame_end(frames, i)
                &&& forall|j: int| 0 <= j < i ==> frame_end(frames, j) < time
            },
            None => frames.len() == 0 || time > total_duration(frames),
        },
    decreases frames.len() - from,
{
    if from >= frames.len() {
        if frames.len() > 0 {
            assert(frame_end(frames, frames.len() - 1) < time);
        }
    } else if frame_end(frames, from) >= time {
    } else {
        lemma_first_reaching(frames, time, from + 1);
    }
}

/// At time 0 an animation shows its first frame.
pub proof fn lemma_first_frame_at_start(frames: Seq<(Rect, usize)>)
    requires
        frames.len() > 0,
    ensures
        frame_index_at(frames, 0) == Some(0int),
{
}

/// The playhead of a looping animation counts time modulo the total
/// duration: `ticks` ticks after `time` it stands at `(time + ticks) % total`.
/// Counted from the start, the frame on display after `ticks` ticks is the
/// frame of time `ticks % total`.
pub proof fn lemma_looping_playhead(frames: Seq<(Rect, usize)>, time: nat, ticks: nat)
    requires
        total_duration(frames) > 0,
        ticks > 0 || time < total_duration(frames),
    ensures
        playhead_after(frames, true, time, ticks) == (time + ticks) % total_duration(frames),
        time == 0 ==> frame_index_at(frames, playhead_after(frames, true, 0, ticks))
            == frame_index_at(frames, ticks % total_duration(frames)),
    decreases ticks,
{
    let total = total_duration(frames) as int;
    if ticks == 0 {
        lemma_small_mod(time, total as nat);
    } else {
        let before = playhead_after(frames, true, time, (ticks - 1) as nat);
        assert(playhead_after(frames, true, time, ticks) == (before + 1) as int % total);
        if ticks > 1 {
            lemma_looping_playhead(frames, time, (ticks - 1) as nat);
            lemma_add_mod_noop_right(1, time + ticks - 1, total);
            assert((1 + (time + ticks - 1) % total) % total == (1 + (time + ticks - 1)) % total);
        }
    }
}

/// Looking a time up modulo the total duration finds the same frame as
/// looking up the time itself exactly for the times below the total
/// duration, and for the total duration itself where the first frame lasts
/// that long. A later time has no frame, and the total duration otherwise
/// shows a later frame than time 0 does.
pub proof fn lemma_frame_at_wrapped_time(frames: Seq<(Rect, usize)>, time: nat)
    requires
        total_duration(frames) > 0,
    ensures
        frame_index_at(frames, time % total_duration(frames)) == frame_index_at(frames, time)
            <==> time < total_duration(frames) || (time == total_duration(frames) && frame_end(
            frames,
            0,
        ) >= total_duration(frames)),
{
    let total = total_duration(frames);
    lemma_frame_index_at(frames, time);
    lemma_frame_index_at(frames, time % total);
    if time < total {
        lemma_small_mod(time, total);
    } else if time == total {
        lemma_mod_self_0(total as int);
        assert(frames.len() > 0);
        assert(frame_index_at(frames, 0) == Some(0int));
    } else {
        assert(time % total < total) by (nonlinear_arith)
            requires
                total > 0,
        ;
    }
}

/// The playhead of an animation that plays once counts ticks up to the total
/// duration and then stays: `ticks` ticks after the start it stands at the
/// lesser of `ticks` and the total duration. So it reaches the total duration,
/// and the animation is done, exactly from tick `total` on.
pub proof fn lemma_one_shot_playhead(frames: Seq<(Rect, usize)>, ticks: nat)
    ensures
        playhead_after(frames, false, 0, ticks) == if ticks <= total_duration(frames) {
            ticks
        } else {
            total_duration(frames)
        },
        playhead_after(frames, false, 0, ticks) >= total_duration(frames) <==> ticks
            >= total_duration(frames),
    decreases ticks,
{
    if ticks > 0 {
        lemma_one_shot_playhead(frames, (ticks - 1) as nat);
    }
}

/// An animation that plays once and is done stays done however often it is
/// ticked: its playhead stays at or past the total duration.
pub proof fn lemma_done_stays_done(frames: Seq<(Rect, usize)>, time: nat, ticks: nat)
    requires
        time >= total_duration(frames),
    ensures
        playhead_after(frames, false, time, ticks) >= total_duration(frames),
        ticks > 0 ==> playhead_after(frames, false, time, ticks) == total_duration(frames),
    decreases ticks,
{
    if ticks > 0 {
        lemma_done_stays_done(frames, time, (ticks - 1) as nat);
    }
}

} // verus!
