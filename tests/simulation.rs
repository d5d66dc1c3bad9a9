use natural_selection::bf::Instruction::{IncPtr, IncVal, JumpRight, Read, Write};
use natural_selection::component::Creature;
use natural_selection::dna::DNA;
use natural_selection::simulation::{histogram, live_turn, SimulationState, World, CREATURE_SIZE, FOOD_SIZE};
use natural_selection::units::{convert_to_unit, is_out_of_box, Arena, Position};

fn genomes(n: usize) -> Vec<DNA> {
    (0..n).map(|_| DNA::generate()).collect()
}

fn overlaps(a: Position, a_size: usize, b: Position, b_size: usize) -> bool {
    let ra = (a_size as i64) * 500;
    let rb = (b_size as i64) * 500;
    (a.x - b.x).abs() < ra + rb && (a.y - b.y).abs() < ra + rb
}

#[test]
fn state_switches_once_to_running() {
    let mut s = SimulationState::prepare(3, 4);
    assert_eq!(s, SimulationState::Prepare { daily_creature_count: 3, daily_food_count: 4 });
    assert!(!s.next_turn());
    assert!(s.start());
    assert_eq!(s, SimulationState::running(3, 4));
    assert!(!s.start());
    assert!(s.next_turn());
    assert_eq!(
        s,
        SimulationState::Running { daily_creature_count: 3, daily_food_count: 4, turn_count: 1 }
    );
}

#[test]
fn live_turn_culls_inactive_creatures() {
    let mut c = Creature::new(DNA::generate());
    let (alive, child) = live_turn(&mut c, false);
    assert!(!alive);
    assert!(child.is_none());
    assert_eq!(c.age(), 1);
}

#[test]
fn live_turn_culls_creatures_outside() {
    let mut c = Creature::new(DNA::generate());
    c.has_moved(1, -5000);
    let (alive, child) = live_turn(&mut c, true);
    assert!(!alive);
    assert!(child.is_none());
}

#[test]
fn live_turn_reproduces_then_ages() {
    let mut c = Creature::new(DNA::generate());
    c.has_moved(1, -5000);
    let (alive, child) = live_turn(&mut c, false);
    assert!(alive);
    assert_eq!(child.map(|ch| ch.generation()), Some(1));
    assert_eq!(c.life(), 5000 - 1000 - 500);
    assert_eq!(c.age(), 1);
}

#[test]
fn histogram_counts_each_bucket() {
    assert_eq!(histogram(&vec![0, 1, 1, 3, 12], 4), vec![1, 2, 0, 2]);
    assert_eq!(histogram(&vec![], 2), vec![0, 0]);
    assert_eq!(histogram(&vec![10], 10), vec![0, 0, 0, 0, 0, 0, 0, 0, 0, 1]);
    assert_eq!(histogram(&vec![5, 7], 0), Vec::<usize>::new());
}

#[test]
fn world_start_places_without_overlap() {
    let mut world = World::new(Arena { width: 400, height: 400 }, 0, 0);
    assert!(world.start(genomes(10), 10));
    assert!(!world.start(genomes(1), 1));
    assert_eq!(world.creature_count(), 10);
    assert_eq!(world.food_count(), 10);
    for i in 0..world.creature_count() {
        assert!(!is_out_of_box(world.arena_size(), world.creature_position(i)));
    }
    for i in 0..world.food_count() {
        for j in 0..world.creature_count() {
            let f = world.food_position(i);
            let c = world.creature_position(j);
            assert!(f != c);
        }
    }
    assert_eq!(
        world.simulation_state(),
        SimulationState::Running { daily_creature_count: 0, daily_food_count: 0, turn_count: 0 }
    );
}

#[test]
fn turn_in_preparation_does_nothing() {
    let mut world = World::new(Arena { width: 100, height: 100 }, 5, 5);
    assert!(!world.turn(genomes(5)));
    assert_eq!(world.creature_count(), 0);
    assert_eq!(world.food_count(), 0);
}

#[test]
fn end_to_end_fifty_turns() {
    let arena = Arena { width: 100, height: 100 };
    let mut world = World::new(arena, 0, 10);
    assert!(world.start(genomes(10), 10));
    let mut eaten = 0usize;
    let mut spawned_food = world.food_count();
    for _ in 0..50 {
        world.decide_moves(100);
        for i in 0..world.creature_count() {
            let v = world.creature(i).velocity();
            let dist = ((v.x as f64 / 10.0).powi(2) + (v.y as f64 / 10.0).powi(2)).sqrt() / 1000.0;
            let cost = (dist.powf(1.2) / 80.0 * 1000.0) as i64;
            world.move_creature(i, 100, cost);
        }
        let mut i = 0;
        while i < world.food_count() {
            let f = world.food_position(i);
            let eater = (0..world.creature_count())
                .find(|&c| overlaps(world.creature_position(c), CREATURE_SIZE, f, FOOD_SIZE));
            match eater {
                Some(c) => {
                    world.feed(c, i);
                    eaten += 1;
                }
                None => i += 1,
            }
        }
        let before = world.creature_count();
        let foods_before = world.food_count();
        assert!(world.turn(Vec::new()));
        assert!(world.creature_count() <= 2 * before);
        assert!(world.food_count() <= foods_before + 10);
        spawned_food += world.food_count() - foods_before;
        for c in 0..world.creature_count() {
            assert!(!is_out_of_box(arena, world.creature_position(c)));
        }
    }
    assert_eq!(eaten + world.food_count(), spawned_food);
    match world.simulation_state() {
        SimulationState::Running { turn_count, .. } => assert_eq!(turn_count, 50),
        SimulationState::Prepare { .. } => panic!("still preparing"),
    }
}

#[test]
fn movement_follows_velocity_and_activates() {
    let mut world = World::new(Arena { width: 400, height: 400 }, 0, 0);
    assert!(world.start(vec![DNA::from_code(vec![Read, Write, IncPtr, Read, Write])], 0));
    let p = world.creature_position(0);
    world.decide_moves(100);
    assert_eq!(world.creature_count(), 1);
    let v = world.creature(0).velocity();
    assert_eq!(v.x, convert_to_unit(p.x) as i128 * 500);
    assert_eq!(v.y, convert_to_unit(p.y) as i128 * 500);
    world.move_creature(0, 1000, 7);
    let q = world.creature_position(0);
    // a step covers at most 200 ms
    assert_eq!(q.x as i128, p.x as i128 + v.x * 200 / 1000);
    assert_eq!(q.y as i128, p.y as i128 + v.y * 200 / 1000);
    assert_eq!(world.creature(0).life(), -7);
    assert_eq!(world.creature(0).is_activated(), v.x != 0 || v.y != 0);
}

#[test]
fn non_viable_genomes_are_removed_when_consulted() {
    let mut world = World::new(Arena { width: 400, height: 400 }, 0, 0);
    assert!(world.start(vec![DNA::from_code(vec![IncVal, JumpRight])], 0));
    world.decide_moves(50);
    assert_eq!(world.creature_count(), 1);
    world.decide_moves(50);
    assert_eq!(world.creature_count(), 0);
}

#[test]
fn feeding_removes_food_and_adds_life() {
    let mut world = World::new(Arena { width: 400, height: 400 }, 0, 0);
    assert!(world.start(genomes(2), 3));
    let second_food = world.food_position(1);
    let third_food = world.food_position(2);
    world.feed(1, 0);
    assert_eq!(world.food_count(), 2);
    assert_eq!(world.food_position(0), second_food);
    assert_eq!(world.food_position(1), third_food);
    assert_eq!(world.creature(1).life(), 2000);
    assert_eq!(world.creature(0).life(), 0);
}

#[test]
fn turn_spawns_daily_quota_on_free_cells() {
    let arena = Arena { width: 400, height: 400 };
    let mut world = World::new(arena, 3, 5);
    assert!(world.start(Vec::new(), 0));
    assert!(world.turn(genomes(3)));
    assert_eq!(world.creature_count(), 3);
    assert_eq!(world.food_count(), 5);
    assert_eq!(world.generations(), vec![0, 0, 0]);
    assert_eq!(world.ages(), vec![0, 0, 0]);
    // newborns never moved, so the next turn culls them all
    assert!(world.turn(Vec::new()));
    assert_eq!(world.creature_count(), 0);
    assert_eq!(world.food_count(), 10);
}
