//! The bike's control-derived state and its clock.
//!
//! Simulated time is counted in micro-steps. Every call of [`Moto::advance`]
//! that is still short of its target performs the bookkeeping of exactly one
//! micro-step and hands back what the numerical side has to do for it.

use vstd::prelude::*;
use crate::control::Control;

verus! {

/// Micro-steps that must pass after an accepted trick before the next one
/// is accepted.
pub const ROTATION_PERIOD: u64 = 40_000;

/// Micro-steps between the acceptance of a trick and its settling kick: a
/// quarter of the rotation period.
pub const ROTATION_DELAY: u64 = 10_000;

/// Tricks accepted in one micro-step, in the order in which they are
/// announced.
#[derive(Debug, Copy, Clone, PartialEq, Eq, Structural)]
pub enum Tricks {
    Nothing,
    Right,
    Left,
    RightThenLeft,
}

/// Where the torque on a wheel comes from in one micro-step.
#[derive(Debug, Copy, Clone, PartialEq, Eq, Structural)]
pub enum Torque {
    /// No torque; the wheel rolls freely.
    Free,
    /// The throttle drives this wheel, as long as it is below its speed cap.
    Drive,
    /// The brake pulls the wheel towards its angle at the start of braking.
    Brake,
}

/// What one micro-step asks of the numerical side.
#[derive(Debug, Copy, Clone, PartialEq, Eq, Structural)]
pub struct MicroStep {
    /// The clock after this micro-step.
    pub time: u64,
    /// Tricks accepted now: each is announced, snapshots the frame's angular
    /// velocity and kicks it at once.
    pub tricks: Tricks,
    /// The brake went from released to held: the wheels' angles relative to
    /// the frame are to be captured.
    pub brake_started: bool,
    /// Torque source of the rear wheel.
    pub rear: Torque,
    /// Torque source of the front wheel.
    pub front: Torque,
    /// The settling kick of a pending right trick is due.
    pub settle_right: bool,
    /// The settling kick of a pending left trick is due.
    pub settle_left: bool,
}

/// Mathematical model of [`Moto`].
pub struct MotoState {
    /// Micro-steps performed so far.
    pub time: nat,
    /// Facing flag: selects the driven wheel.
    pub direction: bool,
    /// Whether the brake was held in the last micro-step.
    pub braking: bool,
    /// A left trick was accepted and has not settled yet.
    pub pending_left: bool,
    /// A right trick was accepted and has not settled yet.
    pub pending_right: bool,
    /// Clock value at which the last trick was accepted, if there was one.
    pub last_trick: Option<nat>,
}

impl MotoState {
    /// The state of a bike that has just been placed.
    pub open spec fn initial() -> MotoState {
        MotoState {
            time: 0,
            direction: false,
            braking: false,
            pending_left: false,
            pending_right: false,
            last_trick: None,
        }
    }

    /// What every reachable state satisfies: the last trick lies in the
    /// past, and a trick is pending only until its delay has run out.
    pub open spec fn valid(self) -> bool {
        &&& self.last_trick matches Some(at) ==> at <= self.time
        &&& (self.pending_left || self.pending_right) ==> (self.last_trick matches Some(at)
            && self.time <= at + ROTATION_DELAY)
    }

    /// Whether a trick asked for at clock value `now` is accepted.
    pub open spec fn gate_open(self, now: nat) -> bool {
        self.last_trick matches Some(at) ==> at + ROTATION_PERIOD < now
    }

    /// Tricks accepted in the next micro-step under `control`.
    pub open spec fn accepted(self, control: Control) -> Tricks {
        if !self.gate_open(self.time + 1) {
            Tricks::Nothing
        } else if control.rotate_right && control.rotate_left {
            Tricks::RightThenLeft
        } else if control.rotate_right {
            Tricks::Right
        } else if control.rotate_left {
            Tricks::Left
        } else {
            Tricks::Nothing
        }
    }

    /// Clock value of the last accepted trick once the next micro-step under
    /// `control` is done.
    pub open spec fn stamp(self, control: Control) -> Option<nat> {
        if self.accepted(control) == Tricks::Nothing {
            self.last_trick
        } else {
            Some(self.time + 1)
        }
    }

    /// Whether the settling kick falls into the next micro-step under
    /// `control`.
    pub open spec fn due(self, control: Control) -> bool {
        self.stamp(control) matches Some(at) && at + ROTATION_DELAY < self.time + 1
    }

    /// What the next micro-step under `control` asks of the numerical side.
    pub open spec fn micro_step(self, control: Control) -> MicroStep {
        MicroStep {
            time: (self.time + 1) as u64,
            tricks: self.accepted(control),
            brake_started: control.brake && !self.braking,
            rear: if control.brake {
                Torque::Brake
            } else if control.throttle && self.direction {
                Torque::Drive
            } else {
                Torque::Free
            },
            front: if control.brake {
                Torque::Brake
            } else if control.throttle && !self.direction {
                Torque::Drive
            } else {
                Torque::Free
            },
            settle_right: self.pending_right && self.due(control),
            settle_left: self.pending_left && self.due(control),
        }
    }

    /// The state after the next micro-step under `control`.
    pub open spec fn after_step(self, control: Control) -> MotoState {
        let tricks = self.accepted(control);
        MotoState {
            time: self.time + 1,
            direction: self.direction,
            braking: control.brake,
            pending_left: tricks == Tricks::Left || tricks == Tricks::RightThenLeft || (
            self.pending_left && !self.due(control)),
            pending_right: tricks == Tricks::Right || tricks == Tricks::RightThenLeft || (
            self.pending_right && !self.due(control)),
            last_trick: self.stamp(control),
        }
    }

    /// The state reached by stepping under a constant `control` until the
    /// clock shows `target`; a state that is already there stays as it is.
    pub open spec fn run(self, control: Control, target: nat) -> MotoState
        decreases target - self.time,
    {
        if self.time < target {
            self.after_step(control).run(control, target)
        } else {
            self
        }
    }

    /// The micro-steps performed on the way of [`MotoState::run`], in order.
    pub open spec fn steps(self, control: Control, target: nat) -> Seq<MicroStep>
        decreases target - self.time,
    {
        if self.time < target {
            seq![self.micro_step(control)] + self.after_step(control).steps(control, target)
        } else {
            Seq::empty()
        }
    }
}

/// The bike's control-derived state: clock, facing, brake and pending
/// tricks.
pub struct Moto {
    time: u64,
    direction: bool,
    braking: bool,
    rotation_left: bool,
    rotation_right: bool,
    rotation_time: Option<u64>,
}

impl View for Moto {
    type V = MotoState;

    closed spec fn view(&self) -> MotoState {
        MotoState {
            time: self.time as nat,
            direction: self.direction,
            braking: self.braking,
            pending_left: self.rotation_left,
            pending_right: self.rotation_right,
            last_trick: match self.rotation_time {
                Some(at) => Some(at as nat),
                None => None,
            },
        }
    }
}

impl Moto {
    #[verifier::type_invariant]
    spec fn well_formed(self) -> bool {
        self@.valid()
    }

    /// A bike that has just been placed: clock at zero, facing flag
    /// cleared, nothing held or pending, so that a first trick is accepted
    /// whenever it comes.
    pub fn new() -> (moto: Moto)
        ensures
            moto@ == MotoState::initial(),
    {
        Moto {
            time: 0,
            direction: false,
            braking: false,
            rotation_left: false,
            rotation_right: false,
            rotation_time: None,
        }
    }

    /// Performs the next micro-step if the clock is below `t`.
    ///
    /// Returns what the numerical side has to do for that micro-step, or
    /// `None`, with the state untouched, once the clock has reached `t`.
    pub fn advance(&mut self, control: Control, t: u64) -> (step: Option<MicroStep>)
        ensures
            old(self)@.valid(),
            final(self)@.valid(),
            old(self)@.time < t ==> final(self)@ == old(self)@.after_step(control) && step == Some(
                old(self)@.micro_step(control),
            ),
            old(self)@.time >= t ==> final(self)@ == old(self)@ && step is None,
    {
        proof {
            use_type_invariant(&*self);
        }
        if self.time >= t {
            return None;
        }
        let now: u64 = self.time + 1;
        let open = match self.rotation_time {
            Some(at) => now - at > ROTATION_PERIOD,
            None => true,
        };
        let tricks = if !open {
            Tricks::Nothing
        } else if control.rotate_right && control.rotate_left {
            Tricks::RightThenLeft
        } else if control.rotate_right {
            Tricks::Right
        } else if control.rotate_left {
            Tricks::Left
        } else {
            Tricks::Nothing
        };
        let accepted_right = open && control.rotate_right;
        let accepted_left = open && control.rotate_left;
        let rotation_time = if accepted_right || accepted_left {
            Some(now)
        } else {
            self.rotation_time
        };
        let due = match rotation_time {
            Some(at) => now - at > ROTATION_DELAY,
            None => false,
        };
        let step = MicroStep {
            time: now,
            tricks,
            brake_started: control.brake && !self.braking,
            rear: if control.brake {
                Torque::Brake
            } else if control.throttle && self.direction {
                Torque::Drive
            } else {
                Torque::Free
            },
            front: if control.brake {
                Torque::Brake
            } else if control.throttle && !self.direction {
                Torque::Drive
            } else {
                Torque::Free
            },
            settle_right: self.rotation_right && due,
            settle_left: self.rotation_left && due,
        };
        *self = Moto {
            time: now,
            direction: self.direction,
            braking: control.brake,
            rotation_left: accepted_left || (self.rotation_left && !due),
            rotation_right: accepted_right || (self.rotation_right && !due),
            rotation_time,
        };
        Some(step)
    }
}

impl Moto {
    /// Micro-steps performed so far.
    pub fn time(&self) -> (time: u64)
        ensures
            time == self@.time,
    {
        self.time
    }

    /// The facing flag.
    pub fn direction(&self) -> (direction: bool)
        ensures
            direction == self@.direction,
    {
        self.direction
    }

    /// Sets the facing flag; nothing else changes.
    pub fn set_direction(&mut self, direction: bool)
        ensures
            final(self)@ == (MotoState { direction, ..old(self)@ }),
    {
        proof {
            use_type_invariant(&*self);
        }
        self.direction = direction;
    }
}

/// Every micro-step leads from a valid state to a valid state.
pub proof fn lemma_step_keeps_valid(state: MotoState, control: Control)
    requires
        state.valid(),
    ensures
        state.after_step(control).valid(),
{
}

/// A trick is never accepted while another one is pending, so the settling
/// kick of one trick and the acceptance of the next never share a
/// micro-step.
pub proof fn lemma_no_trick_while_pending(state: MotoState, control: Control)
    requires
        state.valid(),
        state.pending_left || state.pending_right,
    ensures
        state.accepted(control) == Tricks::Nothing,
{
}

/// The throttle drives at most one wheel, the one that the facing flag
/// selects, and the brake takes both wheels or none.
pub proof fn lemma_torque_sources(state: MotoState, control: Control)
    ensures
        !(state.micro_step(control).rear == Torque::Drive && state.micro_step(control).front
            == Torque::Drive),
        state.micro_step(control).rear == Torque::Drive ==> state.direction,
        state.micro_step(control).front == Torque::Drive ==> !state.direction,
        state.micro_step(control).rear == Torque::Brake <==> control.brake,
        state.micro_step(control).front == Torque::Brake <==> control.brake,
{
}

/// The clock never runs backwards and moves by exactly one micro-step at a
/// time: a run ends at its target, or where it began if that is later, and
/// its micro-steps carry consecutive clock values.
pub proof fn lemma_clock_advances(state: MotoState, control: Control, target: nat)
    requires
        target <= u64::MAX,
    ensures
        state.after_step(control).time == state.time + 1,
        state.run(control, target).time == if state.time < target {
            target
        } else {
            state.time
        },
        state.steps(control, target).len() == if state.time < target {
            target - state.time
        } else {
            0
        },
        forall|i: int|
            0 <= i < state.steps(control, target).len() ==> (#[trigger] state.steps(
                control,
                target,
            )[i]).time == state.time + i + 1,
    decreases target - state.time,
{
    if state.time < target {
        let next = state.after_step(control);
        lemma_clock_advances(next, control, target);
        assert forall|i: int| 0 <= i < state.steps(control, target).len() implies (
        #[trigger] state.steps(control, target)[i]).time == state.time + i + 1 by {
            if i > 0 {
                assert(state.steps(control, target)[i] == next.steps(control, target)[i - 1]);
            }
        }
    }
}

/// Advancing to an intermediate target and then to the final one gives the
/// state, and the micro-steps, of advancing to the final target at once.
pub proof fn lemma_advance_splits(state: MotoState, control: Control, middle: nat, target: nat)
    requires
        middle <= target,
    ensures
        state.run(control, middle).run(control, target) == state.run(control, target),
        state.steps(control, middle) + state.run(control, middle).steps(control, target)
            == state.steps(control, target),
    decreases middle - state.time,
{
    if state.time < middle {
        let next = state.after_step(control);
        lemma_advance_splits(next, control, middle, target);
        assert(state.steps(control, middle) + state.run(control, middle).steps(control, target)
            =~= seq![state.micro_step(control)] + (next.steps(control, middle) + next.run(
            control,
            middle,
        ).steps(control, target)));
    } else {
        assert(state.steps(control, middle) + state.steps(control, target) =~= state.steps(
            control,
            target,
        ));
    }
}

/// Valid states stay valid along a run.
pub proof fn lemma_run_keeps_valid(state: MotoState, control: Control, target: nat)
    requires
        state.valid(),
    ensures
        state.run(control, target).valid(),
    decreases target - state.time,
{
    if state.time < target {
        lemma_run_keeps_valid(state.after_step(control), control, target);
    }
}

/// After a trick accepted at clock value `at`, every micro-step of a run
/// that accepts a trick lies more than a rotation period later.
proof fn lemma_gate_closed_for_a_period(
    state: MotoState,
    control: Control,
    target: nat,
    at: nat,
    k: int,
)
    requires
        state.valid(),
        target <= u64::MAX,
        state.last_trick == Some(at),
        0 <= k < state.steps(control, target).len(),
        state.steps(control, target)[k].tricks != Tricks::Nothing,
    ensures
        state.steps(control, target)[k].time > at + ROTATION_PERIOD,
    decreases k,
{
    if k > 0 {
        let next = state.after_step(control);
        assert(state.steps(control, target)[k] == next.steps(control, target)[k - 1]);
        let stamp = next.last_trick->0;
        lemma_gate_closed_for_a_period(next, control, target, stamp, k - 1);
    }
}

/// However long the rotate inputs are held, two accepted tricks of a run
/// lie more than a rotation period apart.
pub proof fn lemma_tricks_are_spaced(
    state: MotoState,
    control: Control,
    target: nat,
    i: int,
    j: int,
)
    requires
        state.valid(),
        target <= u64::MAX,
        0 <= i < j < state.steps(control, target).len(),
        state.steps(control, target)[i].tricks != Tricks::Nothing,
        state.steps(control, target)[j].tricks != Tricks::Nothing,
    ensures
        state.steps(control, target)[j].time > state.steps(control, target)[i].time
            + ROTATION_PERIOD,
    decreases i,
{
    let next = state.after_step(control);
    assert(state.steps(control, target)[j] == next.steps(control, target)[j - 1]);
    if i == 0 {
        lemma_gate_closed_for_a_period(next, control, target, state.time + 1, j - 1);
    } else {
        assert(state.steps(control, target)[i] == next.steps(control, target)[i - 1]);
        lemma_tricks_are_spaced(next, control, target, i - 1, j - 1);
    }
}

} // verus!
