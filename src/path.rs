//! The life cycle of one light path.
//!
//! A path starts with a recursion budget (its depth). While it is alive, each
//! query of the scene yields a [`Bounce`]: the ray missed everything, a
//! material absorbed it, or a material scattered it into a new ray. A scatter
//! spends one unit of the budget; the path ends when the budget runs out,
//! when it is absorbed, or when it escapes to the sky.

use vstd::prelude::*;

verus! {

/// What the scene did with a ray of a path that was still alive.
#[derive(Clone, Copy, Debug, PartialEq, Eq, Structural)]
pub enum Bounce {
    /// The ray hit nothing: it sees the background.
    Miss,
    /// The ray hit a surface whose material absorbed it.
    Absorbed,
    /// The ray hit a surface and its material sent out a new ray.
    Scattered,
}

/// Why a path stopped.
#[derive(Clone, Copy, Debug, PartialEq, Eq, Structural)]
pub enum PathEnd {
    /// The recursion budget ran out: the path contributes black.
    DepthExhausted,
    /// A material absorbed the ray: the path contributes black.
    Absorbed,
    /// The ray escaped the scene: the path contributes the sky gradient.
    Background,
}

/// The state of one path.
#[derive(Clone, Copy, Debug, PartialEq, Eq, Structural)]
pub enum PathState {
    /// Still being traced, with `depth` scene queries left.
    Alive { depth: i32 },
    /// Finished.
    Ended { end: PathEnd },
}

/// The state of a path started with budget `depth`.
pub open spec fn begin_spec(depth: i32) -> PathState {
    if depth <= 0 {
        PathState::Ended { end: PathEnd::DepthExhausted }
    } else {
        PathState::Alive { depth }
    }
}

/// The state after one query of the scene; an ended path stays as it is.
pub open spec fn advance_spec(s: PathState, b: Bounce) -> PathState {
    match s {
        PathState::Alive { depth } => match b {
            Bounce::Miss => PathState::Ended { end: PathEnd::Background },
            Bounce::Absorbed => PathState::Ended { end: PathEnd::Absorbed },
            Bounce::Scattered => begin_spec((depth - 1) as i32),
        },
        PathState::Ended { .. } => s,
    }
}

/// The state reached from `s` after the scene answers with `events`, in order.
pub open spec fn walk(s: PathState, events: Seq<Bounce>) -> PathState
    decreases events.len(),
{
    if events.len() == 0 {
        s
    } else {
        walk(advance_spec(s, events[0]), events.drop_first())
    }
}

/// The first `n` answers of the scene all scattered the ray.
pub open spec fn scatters_first(events: Seq<Bounce>, n: int) -> bool {
    forall|i: int| 0 <= i < n ==> events[i] == Bounce::Scattered
}

impl PathState {
    /// An alive path always has budget left.
    pub open spec fn wf(self) -> bool {
        self matches PathState::Alive { depth } ==> depth > 0
    }

    /// Starts a path with the given recursion budget; a budget of zero or less
    /// ends it at once.
    pub fn begin(depth: i32) -> (s: PathState)
        ensures
            s == begin_spec(depth),
            s.wf(),
    {
        if depth <= 0 {
            PathState::Ended { end: PathEnd::DepthExhausted }
        } else {
            PathState::Alive { depth }
        }
    }

    /// Takes the scene's answer to the current ray of an alive path: a miss
    /// ends it on the background, an absorption ends it dark, and a scatter
    /// spends one unit of budget on the new ray. An ended path stays as it is.
    pub fn advance(self, b: Bounce) -> (s: PathState)
        requires
            self.wf(),
        ensures
            s == advance_spec(self, b),
            s.wf(),
    {
        match self {
            PathState::Alive { depth } => match b {
                Bounce::Miss => PathState::Ended { end: PathEnd::Background },
                Bounce::Absorbed => PathState::Ended { end: PathEnd::Absorbed },
                Bounce::Scattered => PathState::begin(depth - 1),
            },
            PathState::Ended { .. } => self,
        }
    }
}

/// An ended path stays ended, with the same reason, whatever the scene does.
pub proof fn lemma_ended_stays(end: PathEnd, events: Seq<Bounce>)
    ensures
        walk(PathState::Ended { end }, events) == (PathState::Ended { end }),
    decreases events.len(),
{
    if events.len() > 0 {
        lemma_ended_stays(end, events.drop_first());
    }
}

/// A path started with a budget of zero or less ends at once, dark, whatever
/// the scene holds.
pub proof fn lemma_no_budget_is_dark(depth: i32, events: Seq<Bounce>)
    requires
        depth <= 0,
    ensures
        walk(begin_spec(depth), events) == (PathState::Ended { end: PathEnd::DepthExhausted }),
{
    lemma_ended_stays(PathEnd::DepthExhausted, events);
}

/// If the scene scatters the ray `k` times and then answers otherwise, and the
/// budget covers those `k + 1` queries, the path ends on that answer: on the
/// background after a miss, dark after an absorption.
pub proof fn lemma_first_stop_decides(depth: i32, events: Seq<Bounce>, k: int)
    requires
        0 <= k < events.len(),
        k < depth,
        scatters_first(events, k),
        events[k] != Bounce::Scattered,
    ensures
        walk(begin_spec(depth), events) == (PathState::Ended {
            end: if events[k] == Bounce::Miss {
                PathEnd::Background
            } else {
                PathEnd::Absorbed
            },
        }),
    decreases k,
{
    let rest = events.drop_first();
    if k == 0 {
        let end = if events[0] == Bounce::Miss {
            PathEnd::Background
        } else {
            PathEnd::Absorbed
        };
        lemma_ended_stays(end, rest);
    } else {
        assert(scatters_first(rest, k - 1));
        lemma_first_stop_decides((depth - 1) as i32, rest, k - 1);
    }
}

/// If the scene scatters the ray at every one of the first `depth` queries,
/// the budget runs out and the path ends dark.
pub proof fn lemma_budget_runs_out(depth: i32, events: Seq<Bounce>)
    requires
        depth <= events.len(),
        scatters_first(events, depth as int),
    ensures
        walk(begin_spec(depth), events) == (PathState::Ended { end: PathEnd::DepthExhausted }),
    decreases events.len(),
{
    if depth <= 0 {
        lemma_no_budget_is_dark(depth, events);
    } else {
        let rest = events.drop_first();
        assert(scatters_first(rest, depth - 1));
        lemma_budget_runs_out((depth - 1) as i32, rest);
    }
}

/// Every path ends within `depth` queries of the scene, whatever it answers.
pub proof fn lemma_path_ends(depth: i32, events: Seq<Bounce>)
    requires
        depth <= events.len(),
    ensures
        walk(begin_spec(depth), events) is Ended,
    decreases events.len(),
{
    if depth <= 0 {
        lemma_no_budget_is_dark(depth, events);
    } else {
        let rest = events.drop_first();
        match events[0] {
            Bounce::Miss => lemma_ended_stays(PathEnd::Background, rest),
            Bounce::Absorbed => lemma_ended_stays(PathEnd::Absorbed, rest),
            Bounce::Scattered => lemma_path_ends((depth - 1) as i32, rest),
        }
    }
}

} // verus!
