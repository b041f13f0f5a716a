//! How far a light path is followed.
//!
//! A path starts with a depth: the number of surfaces it may still meet. At
//! each surface the scene and the material produce an event, and the path
//! either ends, in black or in the background's color, or goes on with one
//! less.

use vstd::prelude::*;

verus! {

/// What happens to a ray that is sent into the scene.
#[derive(Clone, Copy, Debug, PartialEq, Eq, Structural)]
pub enum Event {
    /// The ray hits nothing.
    Miss,
    /// The ray hits a surface whose material absorbs it.
    Absorbed,
    /// The ray hits a surface whose material scatters it.
    Scattered,
}

/// The color that a finished path carries, before the attenuations along
/// it are applied.
#[derive(Clone, Copy, Debug, PartialEq, Eq, Structural)]
pub enum Ending {
    Black,
    Background,
}

/// Where a path stands.
#[derive(Clone, Copy, Debug, PartialEq, Eq, Structural)]
pub enum Stage {
    /// The next ray is to be sent, with this depth, which is not zero.
    Trace { depth: u32 },
    /// The path has ended.
    Done(Ending),
}

/// The stage of a path that has `depth` left and has not sent its next ray.
pub open spec fn stage_at(depth: u32) -> Stage {
    if depth == 0 {
        Stage::Done(Ending::Black)
    } else {
        Stage::Trace { depth }
    }
}

/// The stage after a ray sent with `depth` left has met `event`.
pub open spec fn stage_after(depth: u32, event: Event) -> Stage {
    if depth == 0 {
        Stage::Done(Ending::Black)
    } else {
        match event {
            Event::Miss => Stage::Done(Ending::Background),
            Event::Absorbed => Stage::Done(Ending::Black),
            Event::Scattered => stage_at((depth - 1) as u32),
        }
    }
}

/// The color in which a path with `depth` left ends when its rays meet
/// `events` in turn, or nothing if it has not ended when they run out.
pub open spec fn ends_in(depth: u32, events: Seq<Event>) -> Option<Ending>
    decreases events.len(),
{
    match stage_at(depth) {
        Stage::Done(ending) => Some(ending),
        Stage::Trace { depth } => if events.len() == 0 {
            None
        } else {
            match stage_after(depth, events[0]) {
                Stage::Done(ending) => Some(ending),
                Stage::Trace { depth: rest } => ends_in(rest, events.drop_first()),
            }
        },
    }
}

/// The number of rays that a path with `depth` left sends while its rays
/// meet `events` in turn.
pub open spec fn rays_sent(depth: u32, events: Seq<Event>) -> nat
    decreases events.len(),
{
    if depth == 0 || events.len() == 0 {
        0
    } else {
        match events[0] {
            Event::Scattered => 1 + rays_sent((depth - 1) as u32, events.drop_first()),
            _ => 1,
        }
    }
}

/// Begins a path. With no depth it ends at once, in black, and no ray is
/// sent.
pub fn start(depth: u32) -> (stage: Stage)
    ensures
        stage == stage_at(depth),
        depth == 0 ==> stage == Stage::Done(Ending::Black),
{
    if depth == 0 {
        Stage::Done(Ending::Black)
    } else {
        Stage::Trace { depth }
    }
}

/// Takes a path one ray further: a miss ends it in the background's color,
/// an absorption in black, and a scattering leaves it with one less depth,
/// which ends it in black once none is left.
pub fn advance(depth: u32, event: Event) -> (stage: Stage)
    ensures
        stage == stage_after(depth, event),
        depth == 0 ==> stage == Stage::Done(Ending::Black),
        stage matches Stage::Trace { depth: rest } ==> 0 < rest < depth,
{
    if depth == 0 {
        return Stage::Done(Ending::Black);
    }
    match event {
        Event::Miss => Stage::Done(Ending::Background),
        Event::Absorbed => Stage::Done(Ending::Black),
        Event::Scattered => start(depth - 1),
    }
}

/// A path with no depth ends in black, whatever its rays would meet.
pub proof fn lemma_no_depth_is_black(events: Seq<Event>)
    ensures
        ends_in(0, events) == Some(Ending::Black),
        rays_sent(0, events) == 0,
{
}

/// A path ends before its events run out if there are as many as its depth,
/// and it never sends more rays than its depth.
pub proof fn lemma_path_ends_within_depth(depth: u32, events: Seq<Event>)
    ensures
        events.len() >= depth ==> ends_in(depth, events).is_some(),
        rays_sent(depth, events) <= depth,
    decreases events.len(),
{
    if depth != 0 && events.len() != 0 {
        lemma_path_ends_within_depth((depth - 1) as u32, events.drop_first());
    }
}

/// A path ends in the background's color only through a ray that misses:
/// one whose rays are all scattered or absorbed ends in black or not at all.
pub proof fn lemma_background_needs_a_miss(depth: u32, events: Seq<Event>)
    requires
        forall|i: int| 0 <= i < events.len() ==> events[i] != Event::Miss,
    ensures
        ends_in(depth, events) != Some(Ending::Background),
    decreases events.len(),
{
    if depth != 0 && events.len() != 0 {
        let rest = events.drop_first();
        assert forall|i: int| 0 <= i < rest.len() implies rest[i] != Event::Miss by {
            assert(rest[i] == events[i + 1]);
        }
        assert(events[0] != Event::Miss);
        lemma_background_needs_a_miss((depth - 1) as u32, rest);
    }
}

} // verus!
