use natural_selection::bf::Instruction;
use natural_selection::component::{
    Creature, Food, MoveTimer, SimulationUi, Wall, FOOD_ENERGY, LIFE_UNIT, MOVE_INTERVAL_MS,
};
use natural_selection::dna::DNA;
use natural_selection::units::{Position, Velocity};

use Instruction::{IncPtr, IncVal, JumpRight, Read, Write};

fn fed(times: usize) -> Creature {
    let mut c = Creature::new(DNA::generate());
    for _ in 0..times {
        let mut food = Food::new();
        assert!(c.try_eat_food(&mut food));
    }
    c
}

#[test]
fn food_is_eaten_at_most_once() {
    let mut food = Food::new();
    assert!(!food.is_eaten());
    assert!(food.try_ate());
    assert!(food.is_eaten());
    assert!(!food.try_ate());
}

#[test]
fn second_creature_cannot_eat_same_food() {
    let mut food = Food::new();
    let mut a = Creature::new(DNA::generate());
    let mut b = Creature::new(DNA::generate());
    assert!(a.try_eat_food(&mut food));
    assert!(!b.try_eat_food(&mut food));
    assert_eq!(a.life(), FOOD_ENERGY);
    assert_eq!(b.life(), 0);
}

#[test]
fn newborn_state() {
    let c = Creature::new(DNA::generate());
    assert_eq!(c.life(), 0);
    assert_eq!(c.age(), 0);
    assert_eq!(c.generation(), 0);
    assert!(!c.is_activated());
    assert_eq!(c.velocity(), Velocity { x: 0, y: 0 });
    assert!(c.will_die());
}

#[test]
fn ageing_costs_time_cost() {
    let mut c = fed(1);
    c.time_pass();
    assert_eq!(c.age(), 1);
    assert_eq!(c.life(), FOOD_ENERGY - 500);
}

#[test]
fn moving_activates_and_costs_life() {
    let mut c = fed(1);
    c.has_moved(0, 10);
    assert!(!c.is_activated());
    assert_eq!(c.life(), FOOD_ENERGY - 10);
    c.has_moved(250, 40);
    assert!(c.is_activated());
    assert_eq!(c.life(), FOOD_ENERGY - 50);
    assert!(!c.will_die());
}

#[test]
fn dies_when_life_below_time_cost() {
    let mut c = Creature::new(DNA::generate());
    c.has_moved(1, 0);
    assert!(c.will_die());
    let mut food = Food::new();
    c.try_eat_food(&mut food);
    assert!(!c.will_die());
}

#[test]
fn reproduction_costs_one_unit_and_yields_one_child() {
    let mut parent = fed(1);
    parent.has_moved(1, 0);
    let life_before = parent.life();
    assert!(life_before > LIFE_UNIT + 500);
    let child = parent.try_duplicate().expect("enough life to reproduce");
    assert_eq!(parent.life(), life_before - LIFE_UNIT);
    assert_eq!(child.generation(), parent.generation() + 1);
    assert_eq!(child.life(), 0);
    assert_eq!(child.age(), 0);
    assert!(!child.is_activated());
}

#[test]
fn no_reproduction_without_enough_life() {
    let mut c = Creature::new(DNA::generate());
    assert!(c.try_duplicate().is_none());
    assert_eq!(c.life(), 0);
    // exactly one unit plus the time cost is not enough
    let mut c = fed(1);
    c.has_moved(0, FOOD_ENERGY - LIFE_UNIT - 500);
    assert_eq!(c.life(), LIFE_UNIT + 500);
    assert!(c.try_duplicate().is_none());
}

#[test]
fn child_heads_the_other_way() {
    let dna = DNA::from_code(vec![Read, Write, IncPtr, Read, Write]);
    let mut parent = Creature::new(dna);
    assert_eq!(parent.tick(Position { x: 3000, y: 1000 }, MOVE_INTERVAL_MS), Ok(()));
    assert_eq!(parent.velocity(), Velocity { x: 3000, y: 1000 });
    let mut food = Food::new();
    parent.try_eat_food(&mut food);
    let child = parent.try_duplicate().expect("enough life");
    assert_eq!(child.velocity(), Velocity { x: -3000, y: -1000 });
}

#[test]
fn tick_decides_only_when_timer_fires() {
    let dna = DNA::from_code(vec![Read, Write, IncPtr, Read, Write]);
    let mut c = Creature::new(dna);
    assert_eq!(c.tick(Position { x: 1000, y: 2000 }, 60), Ok(()));
    assert_eq!(c.velocity(), Velocity { x: 0, y: 0 });
    assert_eq!(c.tick(Position { x: 1000, y: 2000 }, 60), Ok(()));
    assert_eq!(c.velocity(), Velocity { x: 1000, y: 2000 });
}

#[test]
fn tick_reports_non_viable_genome() {
    let mut c = Creature::new(DNA::from_code(vec![IncVal, JumpRight]));
    assert!(c.tick(Position { x: 0, y: 0 }, 50).is_ok());
    assert!(c.tick(Position { x: 0, y: 0 }, 50).is_err());
    assert_eq!(c.velocity(), Velocity { x: 0, y: 0 });
}

#[test]
fn timer_repeats_with_overshoot() {
    let mut t = MoveTimer::new(100);
    assert!(!t.tick(60));
    assert!(t.tick(60));
    assert!(!t.tick(79));
    assert!(t.tick(1));
    assert!(t.tick(250));
    assert!(!t.tick(49));
    assert!(t.tick(1));
}

#[test]
fn marker_components_exist() {
    let _ui = SimulationUi;
    let _wall = Wall;
}
