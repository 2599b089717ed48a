use nomboids::population::{batch, maintain_boid_population, PopulationAction};

fn apply(live: usize, action: PopulationAction) -> usize {
    match action {
        PopulationAction::Spawn(n) => live + n,
        PopulationAction::Despawn(n) => live - n,
        PopulationAction::Hold => live,
    }
}

#[test]
fn batch_is_a_tenth_rounded_up() {
    assert_eq!(batch(0), 0);
    assert_eq!(batch(1), 1);
    assert_eq!(batch(9), 1);
    assert_eq!(batch(10), 1);
    assert_eq!(batch(11), 2);
    assert_eq!(batch(100), 10);
    assert_eq!(batch(101), 11);
    assert_eq!(batch(5000), 500);
}

#[test]
fn batch_of_the_largest_gap_does_not_overflow() {
    assert_eq!(batch(usize::MAX), usize::MAX / 10 + 1);
}

#[test]
fn deficit_spawns_a_tenth_of_it() {
    assert_eq!(maintain_boid_population(0, 100, true), PopulationAction::Spawn(10));
    assert_eq!(maintain_boid_population(1, 12, true), PopulationAction::Spawn(2));
    assert_eq!(maintain_boid_population(95, 100, true), PopulationAction::Spawn(1));
    assert_eq!(maintain_boid_population(99, 100, true), PopulationAction::Spawn(1));
    assert_eq!(maintain_boid_population(0, 5000, true), PopulationAction::Spawn(500));
}

#[test]
fn excess_despawns_a_tenth_of_it() {
    assert_eq!(maintain_boid_population(101, 100, true), PopulationAction::Despawn(1));
    assert_eq!(maintain_boid_population(200, 100, true), PopulationAction::Despawn(10));
    assert_eq!(maintain_boid_population(133, 100, true), PopulationAction::Despawn(4));
    assert_eq!(maintain_boid_population(7, 0, true), PopulationAction::Despawn(1));
}

#[test]
fn count_at_target_holds() {
    assert_eq!(maintain_boid_population(100, 100, true), PopulationAction::Hold);
    assert_eq!(maintain_boid_population(0, 0, true), PopulationAction::Hold);
    assert_eq!(maintain_boid_population(100, 100, false), PopulationAction::Hold);
}

#[test]
fn missing_zone_holds_growth_and_shrinking() {
    assert_eq!(maintain_boid_population(0, 100, false), PopulationAction::Hold);
    assert_eq!(maintain_boid_population(99, 100, false), PopulationAction::Hold);
    assert_eq!(maintain_boid_population(120, 100, false), PopulationAction::Hold);
    assert_eq!(maintain_boid_population(101, 100, false), PopulationAction::Hold);
    assert_eq!(maintain_boid_population(usize::MAX, 0, false), PopulationAction::Hold);
}

#[test]
fn population_without_a_zone_never_changes() {
    for target in [0usize, 40, 100] {
        let mut live = 70;
        for _ in 0..20 {
            live = apply(live, maintain_boid_population(live, target, false));
        }
        assert_eq!(live, 70);
    }
}

#[test]
fn zone_coming_into_being_resumes_the_step() {
    assert_eq!(maintain_boid_population(120, 100, false), PopulationAction::Hold);
    assert_eq!(maintain_boid_population(120, 100, true), PopulationAction::Despawn(2));
    assert_eq!(maintain_boid_population(80, 100, false), PopulationAction::Hold);
    assert_eq!(maintain_boid_population(80, 100, true), PopulationAction::Spawn(2));
}

#[test]
fn growth_from_zero_to_hundred_converges_without_overshoot() {
    let target = 100;
    let mut live = 0;
    let mut ticks = 0;
    while live != target {
        let action = maintain_boid_population(live, target, true);
        let next = apply(live, action);
        let spawned = next - live;
        assert!(spawned >= 1);
        assert_eq!(spawned, (target - live + 9) / 10);
        assert!(next <= target);
        live = next;
        ticks += 1;
        assert!(ticks <= 49);
    }
    assert_eq!(live, 100);
    assert_eq!(ticks, 28);
    assert_eq!(maintain_boid_population(live, target, true), PopulationAction::Hold);
}

#[test]
fn first_ticks_of_growth_from_zero_to_hundred() {
    let mut live = 0;
    let mut seen = Vec::new();
    for _ in 0..6 {
        live = apply(live, maintain_boid_population(live, 100, true));
        seen.push(live);
    }
    assert_eq!(seen, vec![10, 19, 28, 36, 43, 49]);
}

#[test]
fn shrinking_converges_without_undershoot() {
    let target = 40;
    let mut live = 1000;
    let mut ticks = 0;
    while live != target {
        let next = apply(live, maintain_boid_population(live, target, true));
        assert!(next < live);
        assert!(next >= target);
        live = next;
        ticks += 1;
        assert!(ticks <= 70);
    }
    assert_eq!(live, 40);
}

#[test]
fn seven_ticks_halve_the_gap() {
    for start in [1usize, 2, 9, 10, 11, 99, 100, 1000, 12345] {
        let target = 20000;
        let mut live = target - start;
        for _ in 0..7 {
            live = apply(live, maintain_boid_population(live, target, true));
        }
        assert!(2 * (target - live) <= start);
    }
}
