use tracer_core::motion::{tick, Environment, Projectile};
use tracer_core::scalar::Scalar;
use tracer_core::tuple::{point, vector};

fn sc(num: i64, den: i64) -> Scalar {
    Scalar::new(num, den)
}

fn si(value: i64) -> Scalar {
    Scalar::from_int(value)
}

#[test]
fn one_tick_moves_the_position_and_bends_the_velocity() {
    let proj = Projectile {
        position: point(si(0), si(1), si(0)),
        velocity: vector(si(1), si(1), si(0)),
    };
    let env = Environment {
        gravity: vector(si(0), sc(-1, 10), si(0)),
        wind: vector(sc(-1, 100), si(0), si(0)),
    };
    let next = tick(env, proj);
    assert_eq!(next.position, point(si(1), si(2), si(0)));
    assert_eq!(next.velocity, vector(sc(99, 100), sc(9, 10), si(0)));
}

#[test]
fn ticks_accumulate_gravity_and_wind() {
    let mut proj = Projectile {
        position: point(si(0), si(0), si(0)),
        velocity: vector(si(0), si(0), si(0)),
    };
    let env = Environment {
        gravity: vector(si(0), si(-1), si(0)),
        wind: vector(si(1), si(0), si(0)),
    };
    proj = tick(env, proj);
    proj = tick(env, proj);
    proj = tick(env, proj);
    assert_eq!(proj.position, point(si(3), si(-3), si(0)));
    assert_eq!(proj.velocity, vector(si(3), si(-3), si(0)));
}
