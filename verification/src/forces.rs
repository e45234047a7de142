use vstd::prelude::*;

use crate::vector::Vector;

verus! {

/// The mathematical value of a `Force`: the force vector's components, the
/// tick budget, and the continuous flag.
pub ghost struct ForceView {
    pub force: Seq<i64>,
    pub time: u64,
    pub enabled: bool,
}

/// A directed, scaled push on a body: a force vector together with a
/// duration in discrete ticks and an `enabled` flag for forces meant to act
/// every tick until explicitly disabled. The tick integrator reads only the
/// vector; counting `time` down and dropping expired forces is the owning
/// body's responsibility, not the world's.
pub struct Force {
    pub force: Vector,
    /// Duration, in ticks.
    pub time: u64,
    /// Whether the force persists until disabled, independent of `time`.
    pub enabled: bool,
}

impl View for Force {
    type V = ForceView;

    open spec fn view(&self) -> ForceView {
        ForceView { force: self.force@, time: self.time, enabled: self.enabled }
    }
}

impl Clone for Force {
    fn clone(&self) -> (r: Force)
        ensures
            r@ == self@,
    {
        Force { force: self.force.clone(), time: self.time, enabled: self.enabled }
    }
}

impl Force {
    /// A one-shot force: applied for exactly one tick, not continuous.
    pub fn impulse(force: Vector) -> (r: Force)
        ensures
            r@.force == force@,
            r@.time == 1,
            r@.enabled == false,
    {
        Force { force, time: 1, enabled: false }
    }

    /// A force active for the given number of ticks, not continuous.
    pub fn uniform(force: Vector, time: u64) -> (r: Force)
        ensures
            r@.force == force@,
            r@.time == time,
            r@.enabled == false,
    {
        Force { force, time, enabled: false }
    }
}

} // verus!
