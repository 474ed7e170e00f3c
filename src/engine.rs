use vstd::prelude::*;

verus! {

/// Where a run stands. Each batch call returns only once all of its tasks
/// have finished, so the barrier after a batch is the step out of
/// `Moving` or `Colliding`.
#[derive(Debug, Clone, Copy, PartialEq, Eq, Structural)]
pub enum Phase {
    /// Not started, or every cycle done.
    Idle,
    /// One move task per slice.
    Moving,
    /// The orchestrator copies the moved store.
    Snapshotting,
    /// One counting task per slice, against the snapshot.
    Colliding,
    /// The cycle's counts are in the accumulator and may be read.
    Aggregated,
}

/// The cycle state machine of a run of a fixed number of cycles.
#[derive(Debug, Clone, Copy, PartialEq, Eq, Structural)]
pub struct Engine {
    pub phase: Phase,
    pub cycles_done: u64,
    pub cycles: u64,
}

impl Engine {
    /// Never more cycles done than asked for; idle only when all are done,
    /// and inside a cycle only while one is left.
    pub open spec fn wf(&self) -> bool {
        &&& self.cycles_done <= self.cycles
        &&& self.phase == Phase::Idle ==> self.cycles_done == self.cycles
        &&& (self.phase == Phase::Moving || self.phase == Phase::Snapshotting || self.phase
            == Phase::Colliding) ==> self.cycles_done < self.cycles
        &&& self.phase == Phase::Aggregated ==> self.cycles_done > 0
    }

    /// The state after one step.
    pub open spec fn next_spec(self) -> Engine {
        match self.phase {
            Phase::Idle => self,
            Phase::Moving => Engine { phase: Phase::Snapshotting, ..self },
            Phase::Snapshotting => Engine { phase: Phase::Colliding, ..self },
            Phase::Colliding => Engine {
                phase: Phase::Aggregated,
                cycles_done: (self.cycles_done + 1) as u64,
                ..self
            },
            Phase::Aggregated => if self.cycles_done < self.cycles {
                Engine { phase: Phase::Moving, ..self }
            } else {
                Engine { phase: Phase::Idle, ..self }
            },
        }
    }

    /// A run of `cycles` cycles, at its first move phase (idle at once when
    /// `cycles` is zero).
    pub fn new(cycles: u64) -> (r: Engine)
        ensures
            r.cycles == cycles,
            r.cycles_done == 0,
            r.phase == (if cycles == 0 {
                Phase::Idle
            } else {
                Phase::Moving
            }),
            r.wf(),
    {
        let phase = if cycles == 0 {
            Phase::Idle
        } else {
            Phase::Moving
        };
        Engine { phase, cycles_done: 0, cycles }
    }

    /// Moves to the next phase: after the collision phase the cycle counts as
    /// done, and after the aggregate the next cycle starts or the run ends.
    pub fn advance(&mut self)
        requires
            old(self).wf(),
        ensures
            *final(self) == old(self).next_spec(),
            final(self).wf(),
    {
        match self.phase {
            Phase::Idle => {},
            Phase::Moving => {
                self.phase = Phase::Snapshotting;
            },
            Phase::Snapshotting => {
                self.phase = Phase::Colliding;
            },
            Phase::Colliding => {
                self.phase = Phase::Aggregated;
                self.cycles_done = self.cycles_done + 1;
            },
            Phase::Aggregated => {
                if self.cycles_done < self.cycles {
                    self.phase = Phase::Moving;
                } else {
                    self.phase = Phase::Idle;
                }
            },
        }
    }

    /// Whether the run has ended.
    pub fn is_done(&self) -> (r: bool)
        ensures
            r == (self.phase == Phase::Idle),
    {
        match self.phase {
            Phase::Idle => true,
            _ => false,
        }
    }
}

} // verus!
