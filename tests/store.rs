use particles::{
    accumulate, check_collisions, move_slice, move_slice_by, random_below, random_coord,
    random_delta, split_ranges, Engine, Particle, ParticleSystem, Phase, DOMAIN_SIZE, HALF_STEP,
    NUM_OF_CYCLES, NUM_OF_PARTICLES,
};

fn scenario() -> Vec<Particle> {
    vec![
        Particle::new(0, 0),
        Particle::new(0, 50),
        Particle::new(5000, 5000),
        Particle::new(9000, 9000),
    ]
}

#[test]
fn split_ranges_even() {
    assert_eq!(split_ranges(10, 5), vec![(0, 2), (2, 4), (4, 6), (6, 8), (8, 10)]);
    let r = split_ranges(NUM_OF_PARTICLES, 5);
    assert_eq!(r.len(), 5);
    assert!(r.iter().all(|&(s, e)| e - s == NUM_OF_PARTICLES / 5));
}

#[test]
fn split_ranges_remainder_is_processed() {
    assert_eq!(split_ranges(12, 5), vec![(0, 3), (3, 6), (6, 8), (8, 10), (10, 12)]);
}

#[test]
fn split_ranges_fewer_items_than_slices() {
    assert_eq!(split_ranges(3, 5), vec![(0, 1), (1, 2), (2, 3), (3, 3), (3, 3)]);
    assert_eq!(split_ranges(0, 2), vec![(0, 0), (0, 0)]);
}

#[test]
fn split_ranges_cover_every_index_once() {
    for n in 0..40usize {
        for p in 1..9usize {
            let r = split_ranges(n, p);
            assert_eq!(r.len(), p);
            let mut seen = vec![0u32; n];
            for &(s, e) in &r {
                for i in s..e {
                    seen[i] += 1;
                }
            }
            assert!(seen.iter().all(|&c| c == 1));
        }
    }
}

#[test]
fn deterministic_scenario_counts_pair_twice() {
    let mut sys = ParticleSystem::from_particles(scenario());
    let zeros = vec![0i64; 4];
    move_slice_by(&mut sys.particles, &zeros, &zeros);
    assert_eq!(sys.snapshot(), scenario());
    assert_eq!(sys.collision_phase(2), 2);
    assert_eq!(sys.collisions, 2);
}

#[test]
fn collision_total_same_for_any_worker_count() {
    for p in 1..7usize {
        let mut sys = ParticleSystem::from_particles(scenario());
        assert_eq!(sys.collision_phase(p), 2);
    }
    let base = ParticleSystem::with_random(300);
    let mut one = ParticleSystem::from_particles(base.snapshot());
    let mut five = ParticleSystem::from_particles(base.snapshot());
    assert_eq!(one.collision_phase(1), five.collision_phase(5));
    assert_eq!(one.collisions, five.collisions);
}

#[test]
fn slice_counts_sum_to_whole_count() {
    let whole = scenario();
    let mut total = 0i64;
    for (s, e) in split_ranges(whole.len(), 3) {
        accumulate(&mut total, check_collisions(&whole[s..e], &whole));
    }
    assert_eq!(total, check_collisions(&whole, &whole));
    assert_eq!(total, 2);
}

#[test]
fn check_collisions_one_slice() {
    let whole = scenario();
    assert_eq!(check_collisions(&whole[0..1], &whole), 1);
    assert_eq!(check_collisions(&whole[2..4], &whole), 0);
    assert_eq!(check_collisions(&whole[0..0], &whole), 0);
}

#[test]
fn isolated_store_has_no_collisions() {
    let ps: Vec<Particle> = (0..10).map(|i| Particle::new(i * 1000, i * 1000)).collect();
    let mut sys = ParticleSystem::from_particles(ps);
    assert_eq!(sys.collision_phase(3), 0);
}

#[test]
fn empty_store_has_no_collisions() {
    let mut sys = ParticleSystem::from_particles(Vec::new());
    assert_eq!(sys.collision_phase(4), 0);
    assert_eq!(sys.snapshot(), Vec::new());
}

#[test]
fn snapshot_sees_completed_moves() {
    let mut sys = ParticleSystem::from_particles(scenario());
    move_slice_by(&mut sys.particles[0..2], &[100, -100], &[200, 0]);
    move_slice_by(&mut sys.particles[2..4], &[0, 2000], &[-5000, 0]);
    let snap = sys.snapshot();
    assert_eq!(
        snap,
        vec![
            Particle::new(100, 200),
            Particle::new(0, 50),
            Particle::new(5000, 0),
            Particle::new(DOMAIN_SIZE, 9000),
        ]
    );
    let mut again = ParticleSystem::from_particles(snap);
    assert_eq!(again.collision_phase(2), 0);
}

#[test]
fn accumulator_adds_counts() {
    let mut total = 5i64;
    accumulate(&mut total, -7);
    assert_eq!(total, -2);
    let mut sys = ParticleSystem::from_particles(scenario());
    sys.add_collisions(4);
    sys.add_collisions(3);
    assert_eq!(sys.collisions, 7);
}

#[test]
fn random_values_in_range() {
    for _ in 0..1000 {
        let d = random_delta();
        assert!(-HALF_STEP <= d && d < HALF_STEP);
        let c = random_coord();
        assert!(0 <= c && c < DOMAIN_SIZE);
        assert!(random_below(7) < 7);
    }
    assert_eq!(random_below(1), 0);
}

#[test]
fn random_store_in_domain() {
    let sys = ParticleSystem::new();
    assert_eq!(sys.particles.len(), NUM_OF_PARTICLES);
    assert_eq!(sys.collisions, 0);
    assert!(sys.particles.iter().all(|p| (0..DOMAIN_SIZE).contains(&p.x) && (0..DOMAIN_SIZE).contains(&p.y)));
}

#[test]
fn random_moves_stay_within_one_step_and_domain() {
    let mut sys = ParticleSystem::with_random(200);
    let before = sys.snapshot();
    let n = sys.particles.len();
    move_slice(&mut sys.particles[0..n / 2]);
    sys.move_particles();
    sys.move_steps(3);
    assert_eq!(sys.particles.len(), 200);
    for p in &sys.particles {
        assert!((0..=DOMAIN_SIZE).contains(&p.x) && (0..=DOMAIN_SIZE).contains(&p.y));
    }
    let mut one = ParticleSystem::from_particles(before.clone());
    one.move_particles();
    for (a, b) in before.iter().zip(one.particles.iter()) {
        assert!((b.x - a.x).abs() <= HALF_STEP && (b.y - a.y).abs() <= HALF_STEP);
    }
}

#[test]
fn engine_runs_fixed_cycles() {
    let mut e = Engine::new(NUM_OF_CYCLES);
    let mut phases = Vec::new();
    while !e.is_done() {
        phases.push(e.phase);
        e.advance();
    }
    assert_eq!(e.cycles_done, NUM_OF_CYCLES);
    assert_eq!(phases.len(), 4 * NUM_OF_CYCLES as usize);
    assert_eq!(
        &phases[0..5],
        &[Phase::Moving, Phase::Snapshotting, Phase::Colliding, Phase::Aggregated, Phase::Moving]
    );
    assert_eq!(phases.iter().filter(|&&p| p == Phase::Colliding).count(), NUM_OF_CYCLES as usize);
}

#[test]
fn engine_with_no_cycles_is_idle() {
    let mut e = Engine::new(0);
    assert!(e.is_done());
    e.advance();
    assert_eq!(e.phase, Phase::Idle);
    assert_eq!(e.cycles_done, 0);
}

#[test]
fn isolated_store_slices_have_no_collisions() {
    let ps: Vec<Particle> = (0..10).map(|i| Particle::new(i * 1000, 9000 - i * 1000)).collect();
    for (s, e) in split_ranges(ps.len(), 4) {
        assert_eq!(check_collisions(&ps[s..e], &ps), 0);
    }
}

#[test]
fn slice_count_is_distinct_ordered_pairs() {
    // three particles within reach of each other, one far away
    let ps = vec![
        Particle::new(100, 100),
        Particle::new(100, 150),
        Particle::new(140, 100),
        Particle::new(7000, 7000),
    ];
    assert_eq!(check_collisions(&ps[0..1], &ps), 2);
    assert_eq!(check_collisions(&ps[0..3], &ps), 6);
    assert_eq!(check_collisions(&ps[3..4], &ps), 0);
    assert_eq!(check_collisions(&ps, &ps), 6);
}

#[test]
fn cycle_with_fixed_deltas_same_for_any_worker_count() {
    let base = ParticleSystem::with_random(200);
    let dx: Vec<i64> = (0..200).map(|i| (i % 7) * 37 - 100).collect();
    let dy: Vec<i64> = (0..200).map(|i| 150 - (i % 5) * 61).collect();
    let mut one = ParticleSystem::from_particles(base.snapshot());
    let mut five = ParticleSystem::from_particles(base.snapshot());
    for _ in 0..NUM_OF_CYCLES {
        let a = one.cycle_by(1, &dx, &dy);
        let b = five.cycle_by(5, &dx, &dy);
        assert_eq!(a, b);
        assert!(a >= 0);
    }
    assert_eq!(one.particles, five.particles);
    assert_eq!(one.collisions, five.collisions);
}

#[test]
fn scenario_three_cycles_with_zero_moves() {
    let zeros = vec![0i64; 4];
    for p in [1usize, 2, 4] {
        let mut sys = ParticleSystem::from_particles(scenario());
        for _ in 0..NUM_OF_CYCLES {
            assert_eq!(sys.cycle_by(p, &zeros, &zeros), 2);
        }
        assert_eq!(sys.particles, scenario());
        assert_eq!(sys.collisions, 6);
    }
}

#[test]
fn zero_move_steps_leave_store_unchanged() {
    let mut sys = ParticleSystem::from_particles(scenario());
    sys.move_steps(0);
    assert_eq!(sys.particles, scenario());
}
