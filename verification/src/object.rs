use vstd::prelude::*;

use crate::errors::PhysicsError;
use crate::forces::{Force, ForceView};
use crate::vector::Vector;

verus! {

/// The mathematical state of a body, as the world's integrator sees it.
pub ghost struct BodyView {
    pub id: i64,
    pub mass: i64,
    pub velocity: Seq<i64>,
    pub acceleration: Seq<i64>,
    pub forces: Seq<ForceView>,
}

/// The values of a force list, element by element.
pub open spec fn forces_view(fs: Seq<Force>) -> Seq<ForceView> {
    fs.map_values(|f: Force| f@)
}

/// The capability interface the integrator needs from any simulated entity:
/// identity, mass, velocity, acceleration, and a mutable list of active
/// forces. `model` is the body's mathematical state; every operation says
/// exactly how it reads or changes that state, so the world's contracts hold
/// for any implementation that meets these.
pub trait Object: Sized {
    /// The body's mathematical state.
    spec fn model(&self) -> BodyView;

    /// Writes the identity. Only a world assigns identities.
    fn set_id(&mut self, id: i64)
        ensures
            final(self).model() == (BodyView { id: id, ..old(self).model() }),
    ;

    /// Reads the identity.
    fn get_id(&self) -> (r: i64)
        ensures
            r == self.model().id,
    ;

    /// Reads the velocity.
    fn get_velocity(&self) -> (r: Vector)
        ensures
            r@ == self.model().velocity,
    ;

    /// Writes the velocity.
    fn set_velocity(&mut self, velocity: Vector)
        ensures
            final(self).model() == (BodyView { velocity: velocity@, ..old(self).model() }),
    ;

    /// Reads the mass.
    fn get_mass(&self) -> (r: i64)
        ensures
            r == self.model().mass,
    ;

    /// Writes the mass.
    fn set_mass(&mut self, mass: i64)
        ensures
            final(self).model() == (BodyView { mass: mass, ..old(self).model() }),
    ;

    /// Reads the acceleration.
    fn get_acceleration(&self) -> (r: Vector)
        ensures
            r@ == self.model().acceleration,
    ;

    /// Writes the acceleration.
    fn set_acceleration(&mut self, acceleration: Vector)
        ensures
            final(self).model() == (BodyView {
                acceleration: acceleration@,
                ..old(self).model()
            }),
    ;

    /// Reads the active forces, in order.
    fn get_forces(&self) -> (r: Vec<Force>)
        ensures
            forces_view(r@) == self.model().forces,
    ;

    /// Removes the force at the given index. `IndexOutOfRange` exactly when
    /// the index is at or beyond the force list's length; the body is
    /// unchanged then.
    fn remove_force(&mut self, force_idx: usize) -> (r: Result<(), PhysicsError>)
        ensures
            match r {
                Ok(()) => {
                    &&& force_idx < old(self).model().forces.len()
                    &&& final(self).model() == (BodyView {
                        forces: old(self).model().forces.remove(force_idx as int),
                        ..old(self).model()
                    })
                },
                Err(e) => {
                    &&& e == PhysicsError::IndexOutOfRange
                    &&& force_idx >= old(self).model().forces.len()
                    &&& final(self).model() == old(self).model()
                },
            },
    ;

    /// Appends a force at the end of the force list.
    fn add_force(&mut self, force: Force)
        ensures
            final(self).model() == (BodyView {
                forces: old(self).model().forces.push(force@),
                ..old(self).model()
            }),
    ;
}

/// A plain record body: the direct implementation of the `Object` capability
/// interface.
pub struct Body {
    pub id: i64,
    pub mass: i64,
    pub velocity: Vector,
    pub acceleration: Vector,
    pub forces: Vec<Force>,
}

impl Body {
    /// A body with the given mass and velocity, no acceleration derived yet,
    /// no forces attached yet, and the identity a world will assign later.
    pub fn new(mass: i64, velocity: Vector) -> (r: Body)
        ensures
            r.model() == (BodyView {
                id: 0,
                mass: mass,
                velocity: velocity@,
                acceleration: Seq::<i64>::empty(),
                forces: Seq::<ForceView>::empty(),
            }),
    {
        let r = Body {
            id: 0,
            mass,
            velocity,
            acceleration: Vector { components: Vec::new() },
            forces: Vec::new(),
        };
        proof {
            assert(forces_view(r.forces@) =~= Seq::<ForceView>::empty());
        }
        r
    }
}

impl Object for Body {
    open spec fn model(&self) -> BodyView {
        BodyView {
            id: self.id,
            mass: self.mass,
            velocity: self.velocity@,
            acceleration: self.acceleration@,
            forces: forces_view(self.forces@),
        }
    }

    fn set_id(&mut self, id: i64) {
        self.id = id;
    }

    fn get_id(&self) -> (r: i64) {
        self.id
    }

    fn get_velocity(&self) -> (r: Vector) {
        self.velocity.clone()
    }

    fn set_velocity(&mut self, velocity: Vector) {
        self.velocity = velocity;
    }

    fn get_mass(&self) -> (r: i64) {
        self.mass
    }

    fn set_mass(&mut self, mass: i64) {
        self.mass = mass;
    }

    fn get_acceleration(&self) -> (r: Vector) {
        self.acceleration.clone()
    }

    fn set_acceleration(&mut self, acceleration: Vector) {
        self.acceleration = acceleration;
    }

    fn get_forces(&self) -> (r: Vec<Force>) {
        let mut out: Vec<Force> = Vec::new();
        let mut i: usize = 0;
        while i < self.forces.len()
            invariant
                i <= self.forces@.len(),
                out@.len() == i,
                forall|k: int| 0 <= k < i ==> (#[trigger] out@[k])@ == self.forces@[k]@,
            decreases self.forces@.len() - i,
        {
            out.push(self.forces[i].clone());
            i += 1;
        }
        proof {
            assert(forces_view(out@) =~= forces_view(self.forces@));
        }
        out
    }

    fn remove_force(&mut self, force_idx: usize) -> (r: Result<(), PhysicsError>) {
        if force_idx >= self.forces.len() {
            return Err(PhysicsError::IndexOutOfRange);
        }
        self.forces.remove(force_idx);
        proof {
            assert(forces_view(self.forces@) =~= forces_view(old(self).forces@).remove(
                force_idx as int,
            ));
        }
        Ok(())
    }

    fn add_force(&mut self, force: Force) {
        self.forces.push(force);
        proof {
            assert(forces_view(self.forces@) =~= forces_view(old(self).forces@).push(
                self.forces@.last()@,
            ));
        }
    }
}

} // verus!
