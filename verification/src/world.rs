use vstd::prelude::*;

use crate::errors::PhysicsError;
use crate::forces::ForceView;
use crate::object::{BodyView, Object};
use crate::vector::{Vector, fits_i64, tdiv};

verus! {

/// Component `j` of the sum of the first `k` force vectors of a body.
pub open spec fn force_sum(fs: Seq<ForceView>, k: int, j: int) -> int
    decreases k,
{
    if k <= 0 {
        0
    } else {
        force_sum(fs, k - 1, j) + fs[k - 1].force[j]
    }
}

/// Every force vector of the list has the given dimensionality.
pub open spec fn forces_sized(fs: Seq<ForceView>, dim: nat) -> bool {
    forall|k: int| 0 <= k < fs.len() ==> (#[trigger] fs[k]).force.len() == dim
}

/// A body the tick integrator can process: its force vectors match the
/// world's dimensionality and its mass is not zero.
pub open spec fn body_ready(b: BodyView, dim: nat) -> bool {
    forces_sized(b.forces, dim) && b.mass != 0
}

/// Component `j` of the acceleration a tick derives for a body: the sum of
/// its force vectors plus gravity, divided by its mass (truncating toward
/// zero).
pub open spec fn tick_accel(b: BodyView, gravity: Seq<i64>, j: int) -> int {
    tdiv(force_sum(b.forces, b.forces.len() as int, j) + gravity[j], b.mass as int)
}

/// The acceleration a tick derives for a body, as one vector of the world's
/// dimensionality.
pub open spec fn accel_view(b: BodyView, gravity: Seq<i64>) -> Seq<i64> {
    Seq::new(gravity.len(), |j: int| tick_accel(b, gravity, j) as i64)
}

/// The machine-limit conditions under which one body's tick arithmetic stays
/// representable: every partial force sum, the total with gravity, and the
/// division by the mass fit in `i64`.
pub open spec fn body_fits(b: BodyView, gravity: Seq<i64>) -> bool {
    &&& forall|k: int, j: int|
        0 <= k <= b.forces.len() && 0 <= j < gravity.len() ==> fits_i64(
            #[trigger] force_sum(b.forces, k, j),
        )
    &&& forall|j: int|
        0 <= j < gravity.len() ==> fits_i64(
            force_sum(b.forces, b.forces.len() as int, j) + #[trigger] gravity[j],
        )
    &&& forall|j: int|
        0 <= j < gravity.len() ==> !(force_sum(b.forces, b.forces.len() as int, j)
            + #[trigger] gravity[j] == i64::MIN && b.mass == -1)
}

/// The machine-limit conditions under which a whole tick stays
/// representable, asked only of the bodies the tick processes.
pub open spec fn tick_fits(objs: Seq<BodyView>, gravity: Seq<i64>) -> bool {
    forall|i: int|
        0 <= i < objs.len() && body_ready(#[trigger] objs[i], gravity.len()) ==> body_fits(
            objs[i],
            gravity,
        )
}

/// The error a tick reports, and where: body `i` is the first (in storage
/// order) that the integrator cannot process, and the error is
/// `LengthMismatch` when one of its force vectors has the wrong
/// dimensionality, else `ZeroMass`.
pub open spec fn tick_error_at(objs: Seq<BodyView>, dim: nat, i: int, e: PhysicsError) -> bool {
    &&& 0 <= i < objs.len()
    &&& !body_ready(objs[i], dim)
    &&& forall|q: int| 0 <= q < i ==> body_ready(#[trigger] objs[q], dim)
    &&& e == (if !forces_sized(objs[i].forces, dim) {
        PhysicsError::LengthMismatch
    } else {
        PhysicsError::ZeroMass
    })
}

/// A physics space: a collection of bodies, a counter that hands out
/// identities in increasing order, and one global force field (gravity)
/// applied uniformly to every body every tick.
pub struct World<T: Object> {
    pub objects: Vec<T>,
    id: i64,
    gravity: Vector,
}

impl<T: Object> World<T> {
    /// The identity the next added body will receive.
    pub closed spec fn next_id(&self) -> i64 {
        self.id
    }

    /// The global force field.
    pub closed spec fn gravity_view(&self) -> Seq<i64> {
        self.gravity@
    }

    /// The mathematical states of the bodies, in storage order.
    pub closed spec fn models(&self) -> Seq<BodyView> {
        self.objects@.map_values(|o: T| o.model())
    }

    /// The world's invariant: identities are assigned in increasing order,
    /// so they are strictly increasing in storage order, non-negative, and
    /// all below the counter.
    pub open spec fn wf(&self) -> bool {
        &&& 0 <= self.next_id()
        &&& forall|i: int, j: int|
            0 <= i < j < self.models().len() ==> (#[trigger] self.models()[i]).id < (
            #[trigger] self.models()[j]).id
        &&& forall|i: int|
            0 <= i < self.models().len() ==> 0 <= (#[trigger] self.models()[i]).id
                < self.next_id()
    }

    /// An empty world under the given gravity.
    pub fn new(gravity: Vector) -> (r: World<T>)
        ensures
            r.wf(),
            r.models().len() == 0,
            r.next_id() == 0,
            r.gravity_view() == gravity@,
    {
        World { id: 0, objects: Vec::new(), gravity }
    }

    /// Moves a body into the world, assigning it the next identity in call
    /// order (0, 1, 2, ...). Everything else about the body is kept.
    pub fn add_object(&mut self, object: T)
        requires
            old(self).wf(),
            old(self).next_id() < i64::MAX,
        ensures
            final(self).wf(),
            final(self).next_id() == old(self).next_id() + 1,
            final(self).gravity_view() == old(self).gravity_view(),
            final(self).models().len() == old(self).models().len() + 1,
            forall|i: int|
                0 <= i < old(self).models().len() ==> final(self).models()[i] == old(
                    self,
                ).models()[i],
            final(self).models().last() == (BodyView { id: old(self).next_id(), ..object.model() }),
    {
        let mut object = object;
        object.set_id(self.id);
        self.id = self.id + 1;
        self.objects.push(object);
        proof {
            assert(self.models() =~= old(self).models().push(self.objects@.last().model()));
        }
    }

    /// Removes the body that carries the same identity as the given one.
    /// `NotFound` exactly when no body in the world has that identity; the
    /// world is unchanged then. Bodies compare by identity: value equality
    /// would be fragile once velocities or forces differ transiently.
    pub fn remove_object(&mut self, object: T) -> (r: Result<(), PhysicsError>)
        requires
            old(self).wf(),
        ensures
            final(self).wf(),
            final(self).next_id() == old(self).next_id(),
            final(self).gravity_view() == old(self).gravity_view(),
            match r {
                Ok(()) => exists|i: int|
                    0 <= i < old(self).models().len() && (#[trigger] old(self).models()[i]).id
                        == object.model().id && final(self).models() == old(self).models().remove(
                        i,
                    ),
                Err(e) => {
                    &&& e == PhysicsError::NotFound
                    &&& forall|i: int|
                        0 <= i < old(self).models().len() ==> (#[trigger] old(
                            self,
                        ).models()[i]).id != object.model().id
                    &&& final(self).models() == old(self).models()
                },
            },
    {
        let oid = object.get_id();
        let n = self.objects.len();
        let mut i: usize = 0;
        while i < n
            invariant
                old(self).wf(),
                n == self.objects@.len(),
                i <= n,
                self == old(self),
                oid == object.model().id,
                forall|q: int| 0 <= q < i ==> (#[trigger] self.models()[q]).id != oid,
            decreases n - i,
        {
            if self.objects[i].get_id() == oid {
                self.objects.remove(i);
                proof {
                    assert(self.models() =~= old(self).models().remove(i as int));
                    assert((old(self).models()[i as int]).id == oid);
                    assert forall|p: int, q: int|
                        0 <= p < q < self.models().len() implies (
                    #[trigger] self.models()[p]).id < (#[trigger] self.models()[q]).id by {
                        if q < i as int {
                            assert(old(self).models()[p].id < old(self).models()[q].id);
                        } else if p < i as int {
                            assert(old(self).models()[p].id < old(self).models()[q + 1].id);
                        } else {
                            assert(old(self).models()[p + 1].id < old(self).models()[q + 1].id);
                        }
                    }
                    assert forall|p: int|
                        0 <= p < self.models().len() implies 0 <= (#[trigger] self.models()[p]).id
                        < self.next_id() by {
                        if p < i as int {
                            assert(self.models()[p] == old(self).models()[p]);
                        } else {
                            assert(self.models()[p] == old(self).models()[p + 1]);
                        }
                    }
                }
                return Ok(());
            }
            i += 1;
        }
        Err(PhysicsError::NotFound)
    }

    /// One discrete simulation step: derives every body's acceleration as
    /// (sum of its force vectors + gravity) / mass, with truncating integer
    /// division. Nothing else changes: no velocity or position update, no
    /// force expiry or removal; repeating `tick` without other mutation
    /// derives the same accelerations again. On an error the world is
    /// unchanged: `LengthMismatch` when the first unprocessable body (in
    /// storage order) has a force vector of the wrong dimensionality, and
    /// `ZeroMass` when its forces are sized but its mass is zero.
    pub fn tick(&mut self) -> (r: Result<(), PhysicsError>)
        requires
            tick_fits(old(self).models(), old(self).gravity_view()),
        ensures
            final(self).next_id() == old(self).next_id(),
            final(self).gravity_view() == old(self).gravity_view(),
            final(self).models().len() == old(self).models().len(),
            old(self).wf() ==> final(self).wf(),
            match r {
                Ok(()) => {
                    &&& forall|i: int|
                        0 <= i < old(self).models().len() ==> body_ready(
                            #[trigger] old(self).models()[i],
                            old(self).gravity_view().len(),
                        )
                    &&& forall|i: int|
                        0 <= i < old(self).models().len() ==> final(self).models()[i] == (BodyView {
                            acceleration: accel_view(
                                #[trigger] old(self).models()[i],
                                old(self).gravity_view(),
                            ),
                            ..old(self).models()[i]
                        })
                },
                Err(e) => {
                    &&& final(self).models() == old(self).models()
                    &&& exists|i: int|
                        #[trigger] tick_error_at(
                            old(self).models(),
                            old(self).gravity_view().len(),
                            i,
                            e,
                        )
                },
            },
    {
        let n = self.gravity.components.len();
        let count = self.objects.len();
        // First pass: find the first body, if any, that the integrator
        // cannot process, and report it before anything is changed.
        let mut i: usize = 0;
        while i < count
            invariant
                count == self.objects@.len(),
                n == self.gravity_view().len(),
                i <= count,
                self == old(self),
                forall|q: int|
                    0 <= q < i ==> body_ready(#[trigger] self.models()[q], self.gravity_view().len()),
            decreases count - i,
        {
            let forces = self.objects[i].get_forces();
            let mut k: usize = 0;
            while k < forces.len()
                invariant
                    count == self.objects@.len(),
                    n == self.gravity_view().len(),
                    i < count,
                    self == old(self),
                    crate::object::forces_view(forces@) == self.models()[i as int].forces,
                    k <= forces@.len(),
                    forall|q: int|
                        0 <= q < i ==> body_ready(
                            #[trigger] self.models()[q],
                            self.gravity_view().len(),
                        ),
                    forall|q: int|
                        0 <= q < k ==> (#[trigger] self.models()[i as int].forces[q]).force.len()
                            == n,
                decreases forces@.len() - k,
            {
                if forces[k].force.components.len() != n {
                    proof {
                        assert(self.models()[i as int].forces[k as int].force.len() != n);
                        assert(!forces_sized(self.models()[i as int].forces, n as nat));
                        assert(!body_ready(self.models()[i as int], n as nat));
                        assert(tick_error_at(
                            old(self).models(),
                            old(self).gravity_view().len(),
                            i as int,
                            PhysicsError::LengthMismatch,
                        ));
                    }
                    return Err(PhysicsError::LengthMismatch);
                }
                proof {
                    assert(self.models()[i as int].forces[k as int] == forces@[k as int]@);
                }
                k += 1;
            }
            if self.objects[i].get_mass() == 0 {
                proof {
                    assert(forces_sized(self.models()[i as int].forces, n as nat));
                    assert(!body_ready(self.models()[i as int], n as nat));
                    assert(tick_error_at(
                        old(self).models(),
                        old(self).gravity_view().len(),
                        i as int,
                        PhysicsError::ZeroMass,
                    ));
                }
                return Err(PhysicsError::ZeroMass);
            }
            proof {
                assert(forces_sized(self.models()[i as int].forces, n as nat));
                assert(body_ready(self.models()[i as int], n as nat));
            }
            i += 1;
        }
        // Second pass: every body is processable; derive the accelerations.
        let mut i: usize = 0;
        while i < count
            invariant
                count == self.objects@.len(),
                n == self.gravity_view().len(),
                i <= count,
                self.next_id() == old(self).next_id(),
                self.gravity_view() == old(self).gravity_view(),
                self.models().len() == old(self).models().len(),
                tick_fits(old(self).models(), old(self).gravity_view()),
                forall|q: int|
                    0 <= q < count ==> body_ready(
                        #[trigger] old(self).models()[q],
                        old(self).gravity_view().len(),
                    ),
                forall|q: int|
                    i <= q < count ==> self.models()[q] == old(self).models()[q],
                forall|q: int|
                    0 <= q < i ==> self.models()[q] == (BodyView {
                        acceleration: accel_view(
                            #[trigger] old(self).models()[q],
                            old(self).gravity_view(),
                        ),
                        ..old(self).models()[q]
                    }),
            decreases count - i,
        {
            let ghost b = self.models()[i as int];
            let forces = self.objects[i].get_forces();
            let mut acc: Vec<i64> = Vec::new();
            let mut j: usize = 0;
            while j < n
                invariant
                    j <= n,
                    acc@.len() == j,
                    forall|c: int| 0 <= c < j ==> acc@[c] == 0,
                decreases n - j,
            {
                acc.push(0);
                j += 1;
            }
            proof {
                assert(forall|c: int| 0 <= c < n ==> acc@[c] == force_sum(b.forces, 0, c));
            }
            let mut k: usize = 0;
            while k < forces.len()
                invariant
                    count == self.objects@.len(),
                    n == self.gravity_view().len(),
                    i < count,
                    b == self.models()[i as int],
                    crate::object::forces_view(forces@) == b.forces,
                    body_ready(b, n as nat),
                    body_fits(b, self.gravity_view()),
                    k <= forces@.len(),
                    acc@.len() == n,
                    forall|c: int| 0 <= c < n ==> acc@[c] == force_sum(b.forces, k as int, c),
                decreases forces@.len() - k,
            {
                proof {
                    assert(b.forces[k as int] == forces@[k as int]@);
                    assert(b.forces[k as int].force.len() == n);
                }
                let mut c: usize = 0;
                while c < n
                    invariant
                        n == self.gravity_view().len(),
                        b == self.models()[i as int],
                        body_fits(b, self.gravity_view()),
                        k < b.forces.len(),
                        b.forces[k as int] == forces@[k as int]@,
                        b.forces[k as int].force.len() == n,
                        k < forces@.len(),
                        c <= n,
                        acc@.len() == n,
                        forall|q: int| c <= q < n ==> acc@[q] == force_sum(b.forces, k as int, q),
                        forall|q: int| 0 <= q < c ==> acc@[q] == force_sum(b.forces, k + 1, q),
                    decreases n - c,
                {
                    proof {
                        assert(fits_i64(force_sum(b.forces, k + 1, c as int)));
                        assert(force_sum(b.forces, k + 1, c as int) == force_sum(
                            b.forces,
                            k as int,
                            c as int,
                        ) + b.forces[k as int].force[c as int]);
                    }
                    acc[c] = acc[c] + forces[k].force.components[c];
                    c += 1;
                }
                k += 1;
            }
            proof {
                assert(forall|c: int|
                    0 <= c < n ==> acc@[c] == force_sum(
                        b.forces,
                        b.forces.len() as int,
                        c,
                    ));
            }
            let acc_v = Vector { components: acc };
            let sum_v = match acc_v.add(&self.gravity) {
                Ok(v) => v,
                Err(_) => {
                    proof {
                        assert(false);
                    }
                    return Err(PhysicsError::LengthMismatch);
                },
            };
            let mass = self.objects[i].get_mass();
            let accel = match sum_v.div_scalar(mass) {
                Ok(v) => v,
                Err(_) => {
                    proof {
                        assert(false);
                    }
                    return Err(PhysicsError::ZeroMass);
                },
            };
            proof {
                assert(accel@ =~= accel_view(b, self.gravity_view()));
            }
            let ghost pre = self.models();
            self.objects[i].set_acceleration(accel);
            proof {
                assert(self.models().len() == pre.len());
                assert(forall|q: int|
                    0 <= q < pre.len() && q != i as int ==> #[trigger] self.models()[q] == pre[q]);
                assert(self.models()[i as int] == (BodyView {
                    acceleration: accel@,
                    ..pre[i as int]
                }));
            }
            i += 1;
        }
        proof {
            if old(self).wf() {
                assert forall|p: int|
                    0 <= p < self.models().len() implies (#[trigger] self.models()[p]).id == old(
                    self,
                ).models()[p].id by {
                    assert(self.models()[p] == (BodyView {
                        acceleration: accel_view(old(self).models()[p], old(self).gravity_view()),
                        ..old(self).models()[p]
                    }));
                }
            }
        }
        Ok(())
    }
}

/// No two bodies in a well-formed world share an identity: identities are
/// assigned once, in increasing order, so they are pairwise distinct.
pub proof fn lemma_world_ids_unique<T: Object>(w: &World<T>)
    requires
        w.wf(),
    ensures
        forall|i: int, j: int|
            0 <= i < w.models().len() && 0 <= j < w.models().len() && i != j ==> (
            #[trigger] w.models()[i]).id != (#[trigger] w.models()[j]).id,
{
}

} // verus!
