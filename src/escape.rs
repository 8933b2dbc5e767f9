use vstd::prelude::*;

verus! {

/// The outcome of the escape-time test for one point of the complex plane.
#[derive(PartialEq, Eq, Structural, Clone, Copy, Debug)]
pub enum EscapeTime {
    /// The orbit left the disk of radius two at this zero-based iteration.
    Escaped(u32),
    /// The orbit stayed inside the disk for every iteration allowed.
    Bounded,
}

/// What the escape-time loop does next.
#[derive(PartialEq, Eq, Structural, Clone, Copy, Debug)]
pub enum EscapeStep {
    /// The outcome is known.
    Stop(EscapeTime),
    /// Perform iteration `i` (`z = z * z + c`) and test the squared magnitude of `z`.
    Continue(u32),
}

/// The first step of the loop for an iteration limit.
pub open spec fn start_spec(limit: u32) -> EscapeStep {
    if limit == 0 {
        EscapeStep::Stop(EscapeTime::Bounded)
    } else {
        EscapeStep::Continue(0)
    }
}

/// The step after iteration `i` found the orbit outside (`outside`) or inside the disk.
pub open spec fn step_spec(i: u32, limit: u32, outside: bool) -> EscapeStep {
    if outside {
        EscapeStep::Stop(EscapeTime::Escaped(i))
    } else if i + 1 < limit {
        EscapeStep::Continue((i + 1) as u32)
    } else {
        EscapeStep::Stop(EscapeTime::Bounded)
    }
}

/// Starts the escape-time loop for a point: with no iteration allowed the point counts as bounded.
pub fn escape_start(limit: u32) -> (r: EscapeStep)
    ensures
        r == start_spec(limit),
{
    if limit == 0 {
        EscapeStep::Stop(EscapeTime::Bounded)
    } else {
        EscapeStep::Continue(0)
    }
}

/// Decides the next step once iteration `i` has tested whether `|z|^2 > 4`.
pub fn escape_step(i: u32, limit: u32, outside: bool) -> (r: EscapeStep)
    requires
        i < limit,
    ensures
        r == step_spec(i, limit, outside),
{
    if outside {
        EscapeStep::Stop(EscapeTime::Escaped(i))
    } else if i + 1 < limit {
        EscapeStep::Continue(i + 1)
    } else {
        EscapeStep::Stop(EscapeTime::Bounded)
    }
}

/// Whether `i` is the first iteration below `limit` whose test found the orbit outside the disk;
/// `outside[j]` is the result of the test made at iteration `j`.
pub open spec fn first_escape_at(outside: Seq<bool>, limit: u32, i: u32) -> bool {
    &&& i < limit
    &&& outside[i as int]
    &&& forall|j: int| 0 <= j < i ==> !outside[j]
}

/// The outcome reached by driving the loop from `step`, feeding it the tests `outside`,
/// for at most `fuel` iterations.
pub open spec fn run_steps(outside: Seq<bool>, limit: u32, step: EscapeStep, fuel: nat) -> EscapeTime
    decreases fuel,
{
    match step {
        EscapeStep::Stop(e) => e,
        EscapeStep::Continue(i) => if fuel == 0 {
            EscapeTime::Bounded
        } else {
            run_steps(outside, limit, step_spec(i, limit, outside[i as int]), (fuel - 1) as nat)
        },
    }
}

/// The outcome of the whole loop for an orbit whose tests are `outside`.
pub open spec fn escape_outcome(outside: Seq<bool>, limit: u32) -> EscapeTime {
    run_steps(outside, limit, start_spec(limit), limit as nat)
}

proof fn lemma_run_from(outside: Seq<bool>, limit: u32, i: u32)
    requires
        i < limit,
        outside.len() >= limit,
        forall|j: int| 0 <= j < i ==> !outside[j],
    ensures
        forall|k: u32|
            run_steps(outside, limit, EscapeStep::Continue(i), (limit - i) as nat)
                == EscapeTime::Escaped(k) <==> #[trigger] first_escape_at(outside, limit, k),
        run_steps(outside, limit, EscapeStep::Continue(i), (limit - i) as nat)
            == EscapeTime::Bounded <==> forall|j: int| 0 <= j < limit ==> !outside[j],
    decreases limit - i,
{
    let fuel = (limit - i) as nat;
    // Unfold one step of the loop.
    assert(run_steps(outside, limit, EscapeStep::Continue(i), fuel) == run_steps(
        outside,
        limit,
        step_spec(i, limit, outside[i as int]),
        (fuel - 1) as nat,
    ));
    if outside[i as int] {
        assert(first_escape_at(outside, limit, i));
        assert forall|k: u32| first_escape_at(outside, limit, k) implies k == i by {
            if k < i {
                assert(!outside[k as int]);
            } else if k > i {
                // A first escape after `i` would need the test at `i` to find the orbit inside.
                assert(!outside[i as int]);
            }
        }
    } else if i + 1 < limit {
        lemma_run_from(outside, limit, (i + 1) as u32);
        assert((limit - (i + 1)) as nat == (fuel - 1) as nat);
    } else {
        assert forall|k: u32| !first_escape_at(outside, limit, k) by {
            if k < limit && outside[k as int] {
                assert(k <= i);
                if k < i {
                    assert(!outside[k as int]);
                }
            }
        }
    }
}

/// Driving the loop from its start with the tests of an orbit ends in `Escaped(i)` exactly when
/// `i` is the first iteration below the limit at which the orbit was found outside the disk, and
/// in `Bounded` exactly when no test below the limit found it outside.
pub proof fn lemma_loop_finds_first_escape(outside: Seq<bool>, limit: u32)
    requires
        outside.len() >= limit,
    ensures
        forall|i: u32|
            escape_outcome(outside, limit) == EscapeTime::Escaped(i) <==> #[trigger] first_escape_at(
                outside,
                limit,
                i,
            ),
        escape_outcome(outside, limit) == EscapeTime::Bounded <==> forall|j: int|
            0 <= j < limit ==> !outside[j],
{
    if limit == 0 {
        assert forall|i: u32| !first_escape_at(outside, limit, i) by {}
    } else {
        lemma_run_from(outside, limit, 0);
    }
}

/// An orbit whose first test already finds it outside the disk escapes at iteration zero,
/// whatever the limit, as long as one iteration is allowed.
pub proof fn lemma_outside_at_first_test(outside: Seq<bool>, limit: u32)
    requires
        limit >= 1,
        outside.len() >= limit,
        outside[0],
    ensures
        escape_outcome(outside, limit) == EscapeTime::Escaped(0),
{
    lemma_loop_finds_first_escape(outside, limit);
    assert(first_escape_at(outside, limit, 0));
}

/// An orbit that no test finds outside the disk (such as the orbit of the origin, which stays
/// at zero) is bounded, whatever the limit.
pub proof fn lemma_never_outside_is_bounded(outside: Seq<bool>, limit: u32)
    requires
        outside.len() >= limit,
        forall|j: int| 0 <= j < limit ==> !outside[j],
    ensures
        escape_outcome(outside, limit) == EscapeTime::Bounded,
{
    lemma_loop_finds_first_escape(outside, limit);
}

} // verus!
