use physics::errors::PhysicsError;
use physics::forces::Force;
use physics::object::{Body, Object};
use physics::vector::Vector;
use physics::world::World;

fn v(components: Vec<i64>) -> Vector {
    Vector::new(components)
}

fn body(mass: i64) -> Body {
    Body::new(mass, v(vec![0, 0]))
}

#[test]
fn impulse_lasts_one_tick() {
    let f = Force::impulse(v(vec![4, 0]));
    assert_eq!(f.force.components, vec![4, 0]);
    assert_eq!(f.time, 1);
    assert!(!f.enabled);
}

#[test]
fn uniform_takes_tick_count() {
    let f = Force::uniform(v(vec![1, 2]), 10);
    assert_eq!(f.force.components, vec![1, 2]);
    assert_eq!(f.time, 10);
    assert!(!f.enabled);
}

#[test]
fn body_accessors_roundtrip() {
    let mut b = body(3);
    assert_eq!(b.get_mass(), 3);
    b.set_mass(5);
    assert_eq!(b.get_mass(), 5);
    b.set_velocity(v(vec![1, 2]));
    assert_eq!(b.get_velocity().components, vec![1, 2]);
    b.set_acceleration(v(vec![7, 8]));
    assert_eq!(b.get_acceleration().components, vec![7, 8]);
    b.set_id(42);
    assert_eq!(b.get_id(), 42);
}

#[test]
fn body_force_list_append_and_remove() {
    let mut b = body(1);
    b.add_force(Force::impulse(v(vec![1, 0])));
    b.add_force(Force::uniform(v(vec![0, 1]), 3));
    assert_eq!(b.get_forces().len(), 2);
    b.remove_force(0).unwrap();
    let forces = b.get_forces();
    assert_eq!(forces.len(), 1);
    assert_eq!(forces[0].force.components, vec![0, 1]);
    assert_eq!(
        b.remove_force(1).unwrap_err(),
        PhysicsError::IndexOutOfRange
    );
}

#[test]
fn add_object_assigns_sequential_ids() {
    let mut w: World<Body> = World::new(v(vec![0, 0]));
    w.add_object(body(1));
    w.add_object(body(2));
    w.add_object(body(3));
    let ids: Vec<i64> = w.objects.iter().map(|o| o.get_id()).collect();
    assert_eq!(ids, vec![0, 1, 2]);
}

#[test]
fn ids_stay_unique_after_removal() {
    let mut w: World<Body> = World::new(v(vec![0, 0]));
    w.add_object(body(1));
    w.add_object(body(2));
    let mut gone = body(1);
    gone.set_id(0);
    w.remove_object(gone).unwrap();
    w.add_object(body(3));
    let ids: Vec<i64> = w.objects.iter().map(|o| o.get_id()).collect();
    assert_eq!(ids, vec![1, 2]);
}

#[test]
fn remove_object_not_found() {
    let mut w: World<Body> = World::new(v(vec![0, 0]));
    w.add_object(body(1));
    let mut stranger = body(1);
    stranger.set_id(99);
    assert_eq!(w.remove_object(stranger).unwrap_err(), PhysicsError::NotFound);
    assert_eq!(w.objects.len(), 1);
}

#[test]
fn tick_sums_forces_gravity_and_divides_by_mass() {
    // body mass 2, impulse [4, 0], gravity [0, -10]:
    // acceleration = ([4, 0] + [0, -10]) / 2 = [2, -5].
    let mut w: World<Body> = World::new(v(vec![0, -10]));
    let mut b = body(2);
    b.add_force(Force::impulse(v(vec![4, 0])));
    w.add_object(b);
    w.tick().unwrap();
    assert_eq!(w.objects[0].get_acceleration().components, vec![2, -5]);
}

#[test]
fn tick_with_two_forces() {
    // acceleration = (f1 + f2 + g) / m, componentwise.
    let mut w: World<Body> = World::new(v(vec![0, -9]));
    let mut b = body(3);
    b.add_force(Force::impulse(v(vec![4, 1])));
    b.add_force(Force::uniform(v(vec![2, -4]), 7));
    w.add_object(b);
    w.tick().unwrap();
    // ([4,1] + [2,-4] + [0,-9]) / 3 == [2, -4]
    assert_eq!(w.objects[0].get_acceleration().components, vec![2, -4]);
}

#[test]
fn tick_without_forces_gives_gravity_over_mass() {
    let mut w: World<Body> = World::new(v(vec![0, -10]));
    w.add_object(body(2));
    w.tick().unwrap();
    assert_eq!(w.objects[0].get_acceleration().components, vec![0, -5]);
}

#[test]
fn tick_is_idempotent_without_other_mutation() {
    let mut w: World<Body> = World::new(v(vec![0, -10]));
    let mut b = body(2);
    b.add_force(Force::uniform(v(vec![4, 0]), 5));
    w.add_object(b);
    w.tick().unwrap();
    let first = w.objects[0].get_acceleration().components.clone();
    w.tick().unwrap();
    assert_eq!(w.objects[0].get_acceleration().components, first);
}

#[test]
fn tick_zero_mass_is_an_error() {
    let mut w: World<Body> = World::new(v(vec![0, 0]));
    w.add_object(body(0));
    assert_eq!(w.tick().unwrap_err(), PhysicsError::ZeroMass);
}

#[test]
fn tick_force_dimension_mismatch_is_an_error() {
    let mut w: World<Body> = World::new(v(vec![0, 0]));
    let mut b = body(1);
    b.add_force(Force::impulse(v(vec![1, 2, 3])));
    w.add_object(b);
    assert_eq!(w.tick().unwrap_err(), PhysicsError::LengthMismatch);
    // The world is unchanged on error.
    assert_eq!(w.objects[0].get_acceleration().components, Vec::<i64>::new());
}

#[test]
fn tick_mismatch_reported_before_zero_mass_in_storage_order() {
    let mut w: World<Body> = World::new(v(vec![0, 0]));
    let mut first = body(1);
    first.add_force(Force::impulse(v(vec![1])));
    w.add_object(first);
    w.add_object(body(0));
    assert_eq!(w.tick().unwrap_err(), PhysicsError::LengthMismatch);
}
