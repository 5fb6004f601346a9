//! Terminating a child process politely.
//!
//! The child is asked to exit first, so that it runs its own shutdown, and is
//! killed only if it overstays: a killed server can leave its registry file
//! behind, which then misleads the next launch's discovery.
use vstd::prelude::*;

use crate::web::Platform;

verus! {

/// How long is paused between two looks at the child, in milliseconds.
pub const LOOK_PAUSE_MS: u64 = 150;

/// What a termination does next.
#[derive(Clone, Copy, PartialEq, Eq, Structural, Debug)]
pub enum Step {
    /// Ask the child to exit.
    Ask,
    /// Look whether it has exited, or its grace is over.
    Look,
    /// Wait a moment, then look again.
    Pause,
    /// Kill it and wait for it.
    Kill,
    Gone,
}

/// What came of a step.
#[derive(Clone, Copy, PartialEq, Eq, Structural, Debug)]
pub enum Event {
    /// It is done.
    Done,
    /// The child's grace is over.
    Expired,
    /// Whether the child has exited.
    Exited(bool),
}

/// The begin of a termination: where a child cannot be asked, it is killed.
pub open spec fn first_step(p: Platform) -> Step {
    if p == Platform::Windows {
        Step::Kill
    } else {
        Step::Ask
    }
}

/// The step after `step`, for what came of it. An event that does not answer
/// the step changes nothing.
pub open spec fn step_after(step: Step, event: Event) -> Step {
    match (step, event) {
        (Step::Ask, Event::Done) => Step::Look,
        (Step::Look, Event::Expired) => Step::Kill,
        (Step::Look, Event::Exited(true)) => Step::Gone,
        (Step::Look, Event::Exited(false)) => Step::Pause,
        (Step::Pause, Event::Done) => Step::Look,
        (Step::Kill, Event::Done) => Step::Gone,
        _ => step,
    }
}

/// Begins to terminate a child.
pub fn terminate_child(p: Platform) -> (r: Step)
    ensures
        r == first_step(p),
{
    match p {
        Platform::Windows => Step::Kill,
        _ => Step::Ask,
    }
}

/// Takes the next step of a termination.
pub fn terminate_next(step: Step, event: Event) -> (r: Step)
    ensures
        r == step_after(step, event),
{
    match (step, event) {
        (Step::Ask, Event::Done) => Step::Look,
        (Step::Look, Event::Expired) => Step::Kill,
        (Step::Look, Event::Exited(exited)) => if exited {
            Step::Gone
        } else {
            Step::Pause
        },
        (Step::Pause, Event::Done) => Step::Look,
        (Step::Kill, Event::Done) => Step::Gone,
        _ => step,
    }
}

/// The step that a termination reaches with a list of events.
pub open spec fn reached(p: Platform, events: Seq<Event>) -> Step
    decreases events.len(),
{
    if events.len() == 0 {
        first_step(p)
    } else {
        step_after(reached(p, events.drop_last()), events.last())
    }
}

/// A termination ends only with a child that was seen to exit or was killed,
/// and where the child can be asked it is killed only once its grace is over.
pub proof fn child_is_gone_in_the_end(p: Platform, events: Seq<Event>)
    ensures
        reached(p, events) == Step::Gone ==> exists|m: int|
            0 <= m < events.len() && ((events[m] == Event::Exited(true) && #[trigger] reached(
                p,
                events.take(m),
            ) == Step::Look) || (events[m] == Event::Done && reached(p, events.take(m))
                == Step::Kill)),
        reached(p, events) == Step::Kill && p != Platform::Windows ==> exists|m: int|
            0 <= m < events.len() && events[m] == Event::Expired && #[trigger] reached(
                p,
                events.take(m),
            ) == Step::Look,
    decreases events.len(),
{
    if events.len() > 0 {
        let rest = events.drop_last();
        let n = events.len() - 1;
        child_is_gone_in_the_end(p, rest);
        assert(events.take(n) =~= rest);
        assert(reached(p, events.take(n)) == reached(p, rest));
        if reached(p, events) == Step::Gone && reached(p, rest) == Step::Gone {
            let m = choose|m: int|
                0 <= m < rest.len() && ((rest[m] == Event::Exited(true) && #[trigger] reached(
                    p,
                    rest.take(m),
                ) == Step::Look) || (rest[m] == Event::Done && reached(p, rest.take(m))
                    == Step::Kill));
            assert(rest.take(m) =~= events.take(m));
            assert(events[m] == rest[m]);
        }
        if reached(p, events) == Step::Kill && p != Platform::Windows && reached(p, rest)
            == Step::Kill {
            let m = choose|m: int|
                0 <= m < rest.len() && rest[m] == Event::Expired && #[trigger] reached(
                    p,
                    rest.take(m),
                ) == Step::Look;
            assert(rest.take(m) =~= events.take(m));
            assert(events[m] == rest[m]);
        }
    }
}

/// A child is asked before anything else where it can be, and killed where it
/// cannot; asked, it is looked at again and again while it runs, and is gone once
/// it is seen to have exited.
pub proof fn children_are_asked_first(p: Platform)
    ensures
        p != Platform::Windows ==> reached(p, seq![]) == Step::Ask,
        p == Platform::Windows ==> reached(p, seq![]) == Step::Kill,
        step_after(Step::Ask, Event::Done) == Step::Look,
        step_after(step_after(Step::Look, Event::Exited(false)), Event::Done) == Step::Look,
        step_after(Step::Look, Event::Exited(false)) == Step::Pause,
        step_after(Step::Look, Event::Exited(true)) == Step::Gone,
        step_after(Step::Look, Event::Expired) == Step::Kill,
        step_after(Step::Kill, Event::Done) == Step::Gone,
{
}

/// A child that is gone stays so, and a look comes several times a second.
pub proof fn gone_children_stay_gone(event: Event)
    ensures
        step_after(Step::Gone, event) == Step::Gone,
        LOOK_PAUSE_MS == 150,
{
}

} // verus!
