use bouncing_points::{
    bounce_axis, floor_sqrt, particle_from_samples, random_particle, signed_from_sample,
    unit_from_sample, velocity_from_direction, Particle, Point, Simulator, Velocity, POINT_COUNT,
    SPEED, UNIT,
};

fn particle(px: i64, py: i64, vx: i64, vy: i64) -> Particle {
    Particle { position: Point { x: px, y: py }, velocity: Velocity { x: vx, y: vy } }
}

fn sample_state() -> ([Point; POINT_COUNT], [Velocity; POINT_COUNT]) {
    let mut positions = [Point { x: 0, y: 0 }; POINT_COUNT];
    let mut velocities = [Velocity { x: 0, y: 0 }; POINT_COUNT];
    for i in 0..POINT_COUNT {
        let k = i as i64;
        positions[i] = Point { x: (k * 9_973) % (UNIT + 1), y: (k * 31_337) % (UNIT + 1) };
        velocities[i] = Velocity { x: (k % 7 - 3) * 700, y: (k % 5 - 2) * 900 };
    }
    (positions, velocities)
}

fn in_square(p: Point) -> bool {
    0 <= p.x && p.x <= UNIT && 0 <= p.y && p.y <= UNIT
}

#[test]
fn clamps_at_low_edge_and_reflects() {
    let mut q = particle(500, 500_000, -2000, 0);
    q.step();
    assert_eq!(q, particle(0, 500_000, 2000, 0));
}

#[test]
fn clamps_at_high_corner_and_reflects_both_axes() {
    let mut q = particle(999_000, 999_000, 2000, 2000);
    q.step();
    assert_eq!(q, particle(UNIT, UNIT, -2000, -2000));
}

#[test]
fn examples_through_the_simulator() {
    let (mut positions, mut velocities) = sample_state();
    positions[0] = Point { x: 500, y: 500_000 };
    velocities[0] = Velocity { x: -2000, y: 0 };
    positions[1] = Point { x: 999_000, y: 999_000 };
    velocities[1] = Velocity { x: 2000, y: 2000 };
    let mut s = Simulator::from_state(positions, velocities).unwrap();
    s.step();
    assert_eq!(s.particle(0), Some(particle(0, 500_000, 2000, 0)));
    assert_eq!(s.particle(1), Some(particle(UNIT, UNIT, -2000, -2000)));
}

#[test]
fn interior_move_keeps_velocity() {
    assert_eq!(bounce_axis(400_000, 2000), (402_000, 2000));
    assert_eq!(bounce_axis(400_000, -2000), (398_000, -2000));
    assert_eq!(bounce_axis(2000, -2000), (0, -2000));
    assert_eq!(bounce_axis(998_000, 2000), (UNIT, 2000));
    assert_eq!(bounce_axis(1999, -2000), (0, 2000));
    assert_eq!(bounce_axis(998_001, 2000), (UNIT, -2000));
}

#[test]
fn x_axis_is_handled_before_y_axis() {
    let mut q = particle(0, UNIT, -5, 5);
    q.step();
    assert_eq!(q, particle(0, UNIT, 5, -5));
}

#[test]
fn points_stay_in_square() {
    let (positions, velocities) = sample_state();
    let mut s = Simulator::from_state(positions, velocities).unwrap();
    for _ in 0..2000 {
        s.step();
        for p in s.positions().iter() {
            assert!(in_square(*p));
        }
    }
}

#[test]
fn speed_is_conserved() {
    let (positions, velocities) = sample_state();
    let mut s = Simulator::from_state(positions, velocities).unwrap();
    for _ in 0..1500 {
        s.step();
    }
    let after = s.velocities();
    for i in 0..POINT_COUNT {
        assert_eq!(after[i].x.abs(), velocities[i].x.abs());
        assert_eq!(after[i].y.abs(), velocities[i].y.abs());
    }
}

#[test]
fn perturbing_one_point_leaves_the_others() {
    let (positions, velocities) = sample_state();
    let mut changed = velocities;
    changed[7] = Velocity { x: -1900, y: 600 };
    let mut a = Simulator::from_state(positions, velocities).unwrap();
    let mut b = Simulator::from_state(positions, changed).unwrap();
    for _ in 0..800 {
        a.step();
        b.step();
        for i in 0..POINT_COUNT {
            if i != 7 {
                assert_eq!(a.particle(i), b.particle(i));
            }
        }
    }
    assert_ne!(a.particle(7), b.particle(7));
}

#[test]
fn stepping_is_deterministic() {
    let (positions, velocities) = sample_state();
    let mut a = Simulator::from_state(positions, velocities).unwrap();
    let mut b = Simulator::from_state(positions, velocities).unwrap();
    for _ in 0..500 {
        a.step();
        b.step();
    }
    assert_eq!(a.positions(), b.positions());
    assert_eq!(a.velocities(), b.velocities());
}

#[test]
fn rejects_point_outside_square() {
    let (mut positions, velocities) = sample_state();
    positions[3] = Point { x: UNIT + 1, y: 0 };
    assert!(Simulator::from_state(positions, velocities).is_none());
    positions[3] = Point { x: 0, y: -1 };
    assert!(Simulator::from_state(positions, velocities).is_none());
}

#[test]
fn rejects_unnegatable_velocity() {
    let (positions, mut velocities) = sample_state();
    velocities[99] = Velocity { x: 0, y: i64::MIN };
    assert!(Simulator::from_state(positions, velocities).is_none());
}

#[test]
fn accepts_square_corners() {
    let mut positions = [Point { x: 0, y: 0 }; POINT_COUNT];
    positions[1] = Point { x: UNIT, y: UNIT };
    let velocities = [Velocity { x: i64::MAX, y: -i64::MAX }; POINT_COUNT];
    let mut s = Simulator::from_state(positions, velocities).unwrap();
    s.step();
    assert_eq!(s.particle(0), Some(particle(UNIT, 0, -i64::MAX, i64::MAX)));
}

#[test]
fn particle_index_past_end() {
    let (positions, velocities) = sample_state();
    let s = Simulator::from_state(positions, velocities).unwrap();
    assert_eq!(s.particle(POINT_COUNT), None);
    assert_eq!(s.particle(5), Some(Particle { position: positions[5], velocity: velocities[5] }));
}

#[test]
fn samples_scale_to_unit_interval() {
    assert_eq!(unit_from_sample(0), 0);
    assert_eq!(unit_from_sample(u32::MAX), UNIT);
    assert_eq!(unit_from_sample(0x8000_0000), 500_000);
    assert_eq!(signed_from_sample(0), -UNIT);
    assert_eq!(signed_from_sample(u32::MAX), UNIT);
    assert_eq!(signed_from_sample(0x8000_0000), 0);
}

#[test]
fn rounded_down_square_roots() {
    assert_eq!(floor_sqrt(0), 0);
    assert_eq!(floor_sqrt(1), 1);
    assert_eq!(floor_sqrt(10), 3);
    assert_eq!(floor_sqrt(16), 4);
    assert_eq!(floor_sqrt(17), 4);
    assert_eq!(floor_sqrt(2_000_000_000_000), 1_414_213);
    assert_eq!(floor_sqrt(u64::MAX), 0xFFFF_FFFF);
    assert_eq!(floor_sqrt(0xFFFF_FFFE_0000_0001), 0xFFFF_FFFF);
    assert_eq!(floor_sqrt(0xFFFF_FFFE_0000_0000), 0xFFFF_FFFE);
}

#[test]
fn directions_scale_to_speed() {
    assert_eq!(velocity_from_direction(3, 4), Velocity { x: 1200, y: 1600 });
    assert_eq!(velocity_from_direction(-3, 4), Velocity { x: -1200, y: 1600 });
    assert_eq!(velocity_from_direction(3, 1), Velocity { x: 1897, y: 632 });
    assert_eq!(velocity_from_direction(0, -UNIT), Velocity { x: 0, y: -SPEED });
    assert_eq!(velocity_from_direction(0, 0), Velocity { x: SPEED, y: 0 });
}

#[test]
fn short_directions_keep_full_speed() {
    assert_eq!(velocity_from_direction(2, 2), Velocity { x: 1414, y: 1414 });
    assert_eq!(velocity_from_direction(4, 2), Velocity { x: 1788, y: 894 });
    assert_eq!(velocity_from_direction(-2, 0), Velocity { x: -SPEED, y: 0 });
    for dx in -6..=6i64 {
        for dy in -6..=6i64 {
            let v = velocity_from_direction(dx * 2, dy * 2);
            let len2 = v.x * v.x + v.y * v.y;
            assert!(len2 <= SPEED * SPEED);
            assert!(len2 >= (SPEED - 2) * (SPEED - 2));
        }
    }
}

#[test]
fn particle_from_fixed_samples() {
    let q = particle_from_samples([0, u32::MAX, u32::MAX, 0x8000_0000]);
    assert_eq!(q, particle(0, UNIT, SPEED, 0));
    let q = particle_from_samples([0x8000_0000, 0, 0, 0]);
    assert_eq!(q.position, Point { x: 500_000, y: 0 });
    assert_eq!(q.velocity, Velocity { x: -1414, y: -1414 });
}

#[test]
fn random_state_is_well_formed() {
    for _ in 0..50 {
        let q = random_particle();
        assert!(in_square(q.position));
        let v = q.velocity;
        assert!(v.x * v.x + v.y * v.y <= SPEED * SPEED);
        assert!(v.x * v.x + v.y * v.y >= (SPEED - 2) * (SPEED - 2));
    }
    let mut s = Simulator::initialize();
    for v in s.velocities().iter() {
        assert!(v.x * v.x + v.y * v.y >= (SPEED - 2) * (SPEED - 2));
    }
    for _ in 0..100 {
        s.step();
    }
    for p in s.positions().iter() {
        assert!(in_square(*p));
    }
}
