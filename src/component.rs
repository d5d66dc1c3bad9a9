//! Creatures and food: energy, ageing, feeding, movement decisions and
//! reproduction.

use crate::bf::NonTerminating;
use crate::dna::{is_mutant, lemma_mutant_same_length, move_of, Instruction, DNA, TIME_COST};
use crate::units::{Position, Velocity};
use vstd::prelude::*;

verus! {

/// Marks the on-screen text that shows the simulation's statistics.
pub struct SimulationUi;

/// Marks one of the arena's walls.
pub struct Wall;

/// Life, in thousandths, of one whole unit.
pub const LIFE_UNIT: i64 = 1000;

/// Life, in thousandths, that one food item gives.
pub const FOOD_ENERGY: i64 = 2000;

/// No velocity component a genome can ask for exceeds this, in fixed-point
/// steps per second.
pub const MAX_SPEED: i128 = 0x1_0000_0000_0000_0000 * 500;

/// Milliseconds between two movement decisions of a creature.
pub const MOVE_INTERVAL_MS: u64 = 100;

/// `v` clamped into the range of `i64`.
pub open spec fn clamp_life(v: int) -> i64 {
    if v > i64::MAX {
        i64::MAX
    } else if v < i64::MIN {
        i64::MIN
    } else {
        v as i64
    }
}

/// `v + 1`, staying at the top of the range of `usize`.
pub open spec fn succ_sat(v: nat) -> nat {
    if v >= usize::MAX {
        usize::MAX as nat
    } else {
        v + 1
    }
}

/// `life + delta`, clamped into the range of `i64`.
fn add_clamped(life: i64, delta: i128) -> (r: i64)
    requires
        -0x1_0000_0000_0000_0000 <= delta <= 0x1_0000_0000_0000_0000,
    ensures
        r == clamp_life(life + delta),
{
    let sum: i128 = life as i128 + delta;
    if sum > i64::MAX as i128 {
        i64::MAX
    } else if sum < i64::MIN as i128 {
        i64::MIN
    } else {
        sum as i64
    }
}

/// The opposite heading.
pub open spec fn reversed(v: Velocity) -> Velocity {
    Velocity { x: (-v.x) as i128, y: (-v.y) as i128 }
}

/// A repeating timer counted in milliseconds.
#[derive(Clone, Copy, Debug, PartialEq, Eq, Structural)]
pub struct MoveTimer {
    elapsed_ms: u64,
    period_ms: u64,
}

impl MoveTimer {
    pub closed spec fn elapsed(&self) -> nat {
        self.elapsed_ms as nat
    }

    pub closed spec fn period(&self) -> nat {
        self.period_ms as nat
    }

    pub closed spec fn wf(&self) -> bool {
        self.elapsed_ms < self.period_ms
    }

    /// Whether the elapsed time is below the period.
    pub fn is_running(&self) -> (r: bool)
        ensures
            r == self.wf(),
    {
        self.elapsed_ms < self.period_ms
    }

    pub fn new(period_ms: u64) -> (r: MoveTimer)
        requires
            period_ms > 0,
        ensures
            r.wf(),
            r.elapsed() == 0,
            r.period() == period_ms,
    {
        MoveTimer { elapsed_ms: 0, period_ms }
    }

    /// Advances the timer by `delta_ms` and tells whether it went off; when it
    /// does, it starts over with what overshot the period.
    pub fn tick(&mut self, delta_ms: u64) -> (fired: bool)
        requires
            old(self).wf(),
        ensures
            final(self).wf(),
            final(self).period() == old(self).period(),
            fired == (old(self).elapsed() + delta_ms >= old(self).period()),
            final(self).elapsed() == (old(self).elapsed() + delta_ms) % (old(self).period() as int),
    {
        let total: u128 = self.elapsed_ms as u128 + delta_ms as u128;
        let period: u128 = self.period_ms as u128;
        let rest: u128 = total % period;
        self.elapsed_ms = rest as u64;
        total >= period
    }
}

pub struct Food {
    is_ate: bool,
}

impl Food {
    pub closed spec fn eaten(&self) -> bool {
        self.is_ate
    }

    pub fn new() -> (r: Food)
        ensures
            !r.eaten(),
    {
        Food { is_ate: false }
    }

    /// Marks the food eaten; only the first call succeeds.
    pub fn try_ate(&mut self) -> (r: bool)
        ensures
            r == !old(self).eaten(),
            final(self).eaten(),
    {
        if !self.is_ate {
            self.is_ate = true;
            true
        } else {
            false
        }
    }

    pub fn is_eaten(&self) -> (r: bool)
        ensures
            r == self.eaten(),
    {
        self.is_ate
    }
}

/// What a creature is, seen from outside.
pub struct CreatureView {
    pub life: int,
    pub age: nat,
    pub generation: nat,
    pub activated: bool,
    pub velocity: Velocity,
    pub timer: MoveTimer,
    pub code: Seq<Instruction>,
}

pub struct Creature {
    life: i64,
    old: usize,
    generation: usize,
    activated: bool,
    velocity: Velocity,
    tick_timer: MoveTimer,
    dna: DNA,
}

impl View for Creature {
    type V = CreatureView;

    closed spec fn view(&self) -> CreatureView {
        CreatureView {
            life: self.life as int,
            age: self.old as nat,
            generation: self.generation as nat,
            activated: self.activated,
            velocity: self.velocity,
            timer: self.tick_timer,
            code: self.dna.code(),
        }
    }
}

/// A creature's death condition: it never moved, or it cannot pay for the
/// coming turn.
pub open spec fn dying(c: CreatureView) -> bool {
    !c.activated || c.life < TIME_COST
}

/// Enough life to pay for a child and still for the coming turn.
pub open spec fn can_reproduce(c: CreatureView) -> bool {
    c.life > LIFE_UNIT + TIME_COST
}

impl Creature {
    /// The velocity is within the speed bound and the timer runs.
    pub closed spec fn wf(&self) -> bool {
        &&& -MAX_SPEED <= self.velocity.x <= MAX_SPEED
        &&& -MAX_SPEED <= self.velocity.y <= MAX_SPEED
        &&& self.tick_timer.wf()
    }

    /// Whether the velocity is within the speed bound and the timer runs.
    pub fn is_valid(&self) -> (r: bool)
        ensures
            r == self.wf(),
    {
        -MAX_SPEED <= self.velocity.x && self.velocity.x <= MAX_SPEED && -MAX_SPEED <= self.velocity.y
            && self.velocity.y <= MAX_SPEED && self.tick_timer.is_running()
    }

    /// A newborn of the first generation with the given genome.
    pub fn new(dna: DNA) -> (r: Creature)
        ensures
            r.wf(),
            r@.life == 0,
            r@.age == 0,
            r@.generation == 0,
            !r@.activated,
            r@.velocity == (Velocity { x: 0, y: 0 }),
            r@.timer.elapsed() == 0,
            r@.timer.period() == MOVE_INTERVAL_MS,
            r@.code == dna.code(),
    {
        Creature {
            life: 0,
            old: 0,
            generation: 0,
            activated: false,
            velocity: Velocity { x: 0, y: 0 },
            tick_timer: MoveTimer::new(MOVE_INTERVAL_MS),
            dna,
        }
    }

    /// The offspring of `parent`: no life yet, one generation later, heading
    /// the opposite way, with a mutated copy of the genome.
    fn child(parent: &Self) -> (r: Creature)
        requires
            parent.wf(),
        ensures
            r.wf(),
            r@.life == 0,
            r@.age == 0,
            r@.generation == succ_sat(parent@.generation),
            !r@.activated,
            r@.velocity == reversed(parent@.velocity),
            r@.timer == parent@.timer,
            is_mutant(parent@.code, r@.code),
    {
        let generation = if parent.generation == usize::MAX {
            usize::MAX
        } else {
            parent.generation + 1
        };
        Creature {
            life: 0,
            old: 0,
            generation,
            activated: false,
            velocity: Velocity { x: -parent.velocity.x, y: -parent.velocity.y },
            tick_timer: parent.tick_timer,
            dna: parent.dna.duplicate(),
        }
    }

    /// Eats `food` unless another creature already did.
    pub fn try_eat_food(&mut self, food: &mut Food) -> (r: bool)
        ensures
            r == !old(food).eaten(),
            final(food).eaten(),
            final(self)@ == (CreatureView {
                life: if r {
                    clamp_life(old(self)@.life + FOOD_ENERGY) as int
                } else {
                    old(self)@.life
                },
                ..old(self)@
            }),
            old(self).wf() ==> final(self).wf(),
    {
        if food.try_ate() {
            self.life = add_clamped(self.life, FOOD_ENERGY as i128);
            true
        } else {
            false
        }
    }

    /// One turn goes by: the creature ages and pays for its genome.
    pub fn time_pass(&mut self)
        ensures
            final(self)@ == (CreatureView {
                life: clamp_life(old(self)@.life - TIME_COST) as int,
                age: succ_sat(old(self)@.age),
                ..old(self)@
            }),
            old(self).wf() ==> final(self).wf(),
    {
        if self.old < usize::MAX {
            self.old = self.old + 1;
        }
        self.life = add_clamped(self.life, -(self.dna.time_cost() as i128));
    }

    pub fn will_die(&self) -> (r: bool)
        ensures
            r == dying(self@),
    {
        !self.activated || self.life < self.dna.time_cost()
    }

    /// The creature moved `distance` (fixed point) at a cost of `cost`
    /// thousandths of life; a move of nonzero length activates it.
    pub fn has_moved(&mut self, distance: u64, cost: i64)
        ensures
            final(self)@ == (CreatureView {
                life: clamp_life(old(self)@.life - cost) as int,
                activated: old(self)@.activated || distance > 0,
                ..old(self)@
            }),
            old(self).wf() ==> final(self).wf(),
    {
        if distance > 0 {
            self.activated = true;
        }
        self.life = add_clamped(self.life, -(cost as i128));
    }

    pub fn velocity(&self) -> (r: Velocity)
        ensures
            r == self@.velocity,
            self.wf() ==> -MAX_SPEED <= r.x <= MAX_SPEED && -MAX_SPEED <= r.y <= MAX_SPEED,
    {
        self.velocity
    }

    pub fn generation(&self) -> (r: usize)
        ensures
            r == self@.generation,
    {
        self.generation
    }

    /// Turns lived so far.
    pub fn age(&self) -> (r: usize)
        ensures
            r == self@.age,
    {
        self.old
    }

    pub fn life(&self) -> (r: i64)
        ensures
            r == self@.life,
    {
        self.life
    }

    pub fn is_activated(&self) -> (r: bool)
        ensures
            r == self@.activated,
    {
        self.activated
    }

    /// Lets `delta_ms` go by on the movement timer; when it goes off, the
    /// genome decides the new velocity from `position`. A genome that
    /// does not terminate is reported, and the velocity is left as it was.
    pub fn tick(&mut self, position: Position, delta_ms: u64) -> (r: Result<(), NonTerminating>)
        requires
            old(self).wf(),
        ensures
            final(self).wf(),
            final(self)@.timer.period() == old(self)@.timer.period(),
            final(self)@.timer.elapsed() == (old(self)@.timer.elapsed() + delta_ms) % (old(
                self,
            )@.timer.period() as int),
            final(self)@ == (CreatureView {
                velocity: final(self)@.velocity,
                timer: final(self)@.timer,
                ..old(self)@
            }),
            if old(self)@.timer.elapsed() + delta_ms >= old(self)@.timer.period() {
                match move_of(old(self)@.code, position) {
                    Some(v) => r is Ok && final(self)@.velocity == v,
                    None => r is Err && final(self)@.velocity == old(self)@.velocity,
                }
            } else {
                r is Ok && final(self)@.velocity == old(self)@.velocity
            },
    {
        let fired = self.tick_timer.tick(delta_ms);
        if fired {
            match self.dna.move_behaivor(position) {
                Ok(v) => {
                    self.velocity = v;
                    Ok(())
                },
                Err(e) => Err(e),
            }
        } else {
            Ok(())
        }
    }

    /// Reproduces when life exceeds one unit plus the cost of a turn: pays
    /// one unit and returns the child.
    pub fn try_duplicate(&mut self) -> (r: Option<Creature>)
        requires
            old(self).wf(),
        ensures
            final(self).wf(),
            can_reproduce(old(self)@) ==> {
                &&& r is Some
                &&& final(self)@ == (CreatureView { life: old(self)@.life - LIFE_UNIT, ..old(self)@ })
            },
            !can_reproduce(old(self)@) ==> r is None && final(self)@ == old(self)@,
            r matches Some(child) ==> {
                &&& child.wf()
                &&& child@.life == 0
                &&& child@.age == 0
                &&& child@.generation == succ_sat(old(self)@.generation)
                &&& !child@.activated
                &&& child@.velocity == reversed(old(self)@.velocity)
                &&& child@.timer == old(self)@.timer
                &&& is_mutant(old(self)@.code, child@.code)
                &&& child@.code.len() == old(self)@.code.len()
                &&& old(self)@.generation < usize::MAX ==> child@.generation == old(self)@.generation + 1
            },
    {
        if self.life > LIFE_UNIT + self.dna.time_cost() {
            self.life = self.life - LIFE_UNIT;
            let child = Self::child(self);
            proof {
                lemma_mutant_same_length(self@.code, child@.code);
            }
            Some(child)
        } else {
            None
        }
    }
}

} // verus!
