//! A projectile simulation step: the update rule a driving program runs in a
//! loop to trace a trajectory.

use crate::tuple::{storable, Point, Vector};
use vstd::prelude::*;

verus! {

/// A body in flight: where it is and where it is headed.
#[derive(Clone, Copy, Debug)]
pub struct Projectile {
    pub position: Point,
    pub velocity: Vector,
}

/// The constant influences acting on the body during each tick.
#[derive(Clone, Copy, Debug)]
pub struct Environment {
    pub gravity: Vector,
    pub wind: Vector,
}

/// One simulation step: the position moves by the velocity, and the velocity
/// picks up gravity and wind.
pub fn tick(env: Environment, proj: Projectile) -> (r: Projectile)
    requires
        proj.position.wf(),
        proj.velocity.wf(),
        env.gravity.wf(),
        env.wind.wf(),
        storable(proj.position@.add(proj.velocity@)),
        storable(proj.velocity@.add(env.gravity@)),
        storable(proj.velocity@.add(env.gravity@).add(env.wind@)),
    ensures
        r.position.wf(),
        r.velocity.wf(),
        r.position@ == proj.position@.add(proj.velocity@),
        r.velocity@ == proj.velocity@.add(env.gravity@).add(env.wind@),
{
    let pos = proj.position.add_vector(proj.velocity);
    let vel = proj.velocity.add_vector(env.gravity).add_vector(env.wind);
    Projectile { position: pos, velocity: vel }
}

} // verus!
