//! The turn scheduler: a one-shot switch from preparation to running, and the
//! per-turn pass that ages, reproduces, culls and repopulates.

use crate::component::{
    MAX_SPEED, FOOD_ENERGY, can_reproduce, clamp_life, dying, reversed, succ_sat, Creature, CreatureView, Food, LIFE_UNIT,
};
use crate::dna::{is_mutant, move_of, DNA, TIME_COST};
use crate::placement::{
    calculate_random_objects, can_place, cell_index, cell_position, fits, free_of, free_upto, grid_columns, grid_rows,
    lemma_free_below, lemma_grid_dims, occupancy, placed_from,
};
use crate::units::{is_out_of_box, out_of_box, Arena, Position, Velocity, SCALE};
use vstd::prelude::*;

verus! {

/// Side, in arena units, of the square a creature takes up.
pub const CREATURE_SIZE: usize = 40;

/// Side, in arena units, of the square a food item takes up.
pub const FOOD_SIZE: usize = 20;

#[derive(Clone, Copy, Debug, PartialEq, Eq, Structural)]
pub enum SimulationState {
    Prepare { daily_creature_count: usize, daily_food_count: usize },
    Running { daily_creature_count: usize, daily_food_count: usize, turn_count: usize },
}

impl SimulationState {
    pub fn prepare(daily_creature_count: usize, daily_food_count: usize) -> (r: SimulationState)
        ensures
            r == (SimulationState::Prepare { daily_creature_count, daily_food_count }),
    {
        SimulationState::Prepare { daily_creature_count, daily_food_count }
    }

    pub fn running(daily_creature_count: usize, daily_food_count: usize) -> (r: SimulationState)
        ensures
            r == (SimulationState::Running { daily_creature_count, daily_food_count, turn_count: 0 }),
    {
        SimulationState::Running { daily_creature_count, daily_food_count, turn_count: 0 }
    }

    /// The one-shot switch to running, keeping the daily quotas; a running
    /// simulation is left as it is. Tells whether the switch happened.
    pub fn start(&mut self) -> (r: bool)
        ensures
            r == (*old(self) is Prepare),
            *final(self) == match *old(self) {
                SimulationState::Prepare { daily_creature_count, daily_food_count } => {
                    SimulationState::Running { daily_creature_count, daily_food_count, turn_count: 0 }
                },
                SimulationState::Running { .. } => *old(self),
            },
    {
        match *self {
            SimulationState::Prepare { daily_creature_count, daily_food_count } => {
                *self = SimulationState::running(daily_creature_count, daily_food_count);
                true
            },
            SimulationState::Running { .. } => false,
        }
    }

    /// Counts one more turn of a running simulation; one in preparation is
    /// left as it is. Tells whether a turn was counted.
    pub fn next_turn(&mut self) -> (r: bool)
        ensures
            r == (*old(self) is Running),
            *final(self) == match *old(self) {
                SimulationState::Running { daily_creature_count, daily_food_count, turn_count } => {
                    SimulationState::Running {
                        daily_creature_count,
                        daily_food_count,
                        turn_count: succ_sat(turn_count as nat) as usize,
                    }
                },
                SimulationState::Prepare { .. } => *old(self),
            },
    {
        match *self {
            SimulationState::Running { daily_creature_count, daily_food_count, turn_count } => {
                let next = if turn_count == usize::MAX {
                    usize::MAX
                } else {
                    turn_count + 1
                };
                *self = SimulationState::Running { daily_creature_count, daily_food_count, turn_count: next };
                true
            },
            SimulationState::Prepare { .. } => false,
        }
    }
}

/// What one turn does to a creature standing inside (`outside == false`) or
/// outside the arena: it dies if it is dying or outside; otherwise it has a
/// child when it can afford one; either way it ages and pays for the turn.
pub fn live_turn(c: &mut Creature, outside: bool) -> (r: (bool, Option<Creature>))
    requires
        old(c).wf(),
    ensures
        final(c).wf(),
        r.0 == !(dying(old(c)@) || outside),
        (r.1 is Some) == (r.0 && can_reproduce(old(c)@)),
        final(c)@ == aged(old(c)@, r.1 is Some),
        r.1 matches Some(child) ==> child.wf() && child_of(old(c)@, child@),
{
    let dies = c.will_die() || outside;
    let child = if dies {
        None
    } else {
        c.try_duplicate()
    };
    c.time_pass();
    (!dies, child)
}

/// A creature after a turn it survives: one turn older, having paid for the
/// turn and, if `paid_child`, for a child.
pub open spec fn aged(c: CreatureView, paid_child: bool) -> CreatureView {
    CreatureView {
        life: clamp_life(
            c.life - (if paid_child {
                LIFE_UNIT as int
            } else {
                0
            }) - TIME_COST,
        ) as int,
        age: succ_sat(c.age),
        ..c
    }
}

/// `k` is a newborn child of `parent`.
pub open spec fn child_of(parent: CreatureView, k: CreatureView) -> bool {
    &&& k.life == 0
    &&& k.age == 0
    &&& k.generation == succ_sat(parent.generation)
    &&& !k.activated
    &&& k.velocity == reversed(parent.velocity)
    &&& k.timer == parent.timer
    &&& is_mutant(parent.code, k.code)
}

/// A creature of the first generation that has not lived a turn yet.
pub open spec fn newborn(c: CreatureView) -> bool {
    &&& c.life == 0
    &&& c.age == 0
    &&& c.generation == 0
    &&& !c.activated
    &&& c.velocity == (Velocity { x: 0, y: 0 })
}

/// What each creature looks like from outside.
pub open spec fn views(cs: Seq<Creature>) -> Seq<CreatureView> {
    cs.map_values(|c: Creature| c@)
}

/// One turn's pass over creatures `cs` standing at `ps` leaves `survivors`
/// standing at `sps` and their children `kids` beside them at `kps`, both in
/// the order of `cs`: a creature dying or outside the arena is dropped, any
/// other one survives aged, and has one child when it can afford it.
pub open spec fn pass_result(
    arena: Arena,
    cs: Seq<CreatureView>,
    ps: Seq<Position>,
    survivors: Seq<CreatureView>,
    sps: Seq<Position>,
    kids: Seq<CreatureView>,
    kps: Seq<Position>,
) -> bool
    decreases cs.len(),
{
    if cs.len() == 0 {
        survivors.len() == 0 && sps.len() == 0 && kids.len() == 0 && kps.len() == 0
    } else {
        let c = cs.last();
        let p = ps.last();
        if dying(c) || out_of_box(arena, p) {
            pass_result(arena, cs.drop_last(), ps.drop_last(), survivors, sps, kids, kps)
        } else if can_reproduce(c) {
            &&& survivors.len() > 0 && sps.len() > 0 && kids.len() > 0 && kps.len() > 0
            &&& survivors.last() == aged(c, true)
            &&& sps.last() == p
            &&& child_of(c, kids.last())
            &&& kps.last() == p
            &&& pass_result(
                arena,
                cs.drop_last(),
                ps.drop_last(),
                survivors.drop_last(),
                sps.drop_last(),
                kids.drop_last(),
                kps.drop_last(),
            )
        } else {
            &&& survivors.len() > 0 && sps.len() > 0
            &&& survivors.last() == aged(c, false)
            &&& sps.last() == p
            &&& pass_result(arena, cs.drop_last(), ps.drop_last(), survivors.drop_last(), sps.drop_last(), kids, kps)
        }
    }
}

/// The movement timer of `c` goes off within the next `dt` milliseconds.
pub open spec fn fires(c: CreatureView, dt: int) -> bool {
    c.timer.elapsed() + dt >= c.timer.period()
}

/// `c` at `p` survives `dt` milliseconds: its timer stays silent or its
/// genome terminates.
pub open spec fn viable(c: CreatureView, p: Position, dt: int) -> bool {
    fires(c, dt) ==> move_of(c.code, p).is_some()
}

/// `next` is what `dt` milliseconds make of `c` at `p`: its timer advanced
/// and, if it went off, the velocity its genome asks for.
pub open spec fn ticked(c: CreatureView, p: Position, dt: int, next: CreatureView) -> bool {
    &&& next.timer.period() == c.timer.period()
    &&& next.timer.elapsed() == (c.timer.elapsed() + dt) % (c.timer.period() as int)
    &&& next == (CreatureView { velocity: next.velocity, timer: next.timer, ..c })
    &&& if fires(c, dt) {
        move_of(c.code, p) == Some(next.velocity)
    } else {
        next.velocity == c.velocity
    }
}

/// After `dt` milliseconds, of the creatures `cs` at `ps` the viable ones
/// remain, in order, as `kept` at `kept_ps`.
pub open spec fn decided(
    cs: Seq<CreatureView>,
    ps: Seq<Position>,
    dt: int,
    kept: Seq<CreatureView>,
    kept_ps: Seq<Position>,
) -> bool
    decreases cs.len(),
{
    if cs.len() == 0 {
        kept.len() == 0 && kept_ps.len() == 0
    } else if !viable(cs.last(), ps.last(), dt) {
        decided(cs.drop_last(), ps.drop_last(), dt, kept, kept_ps)
    } else {
        &&& kept.len() > 0 && kept_ps.len() > 0
        &&& ticked(cs.last(), ps.last(), dt, kept.last())
        &&& kept_ps.last() == ps.last()
        &&& decided(cs.drop_last(), ps.drop_last(), dt, kept.drop_last(), kept_ps.drop_last())
    }
}

/// After a turn, the creatures `cs` that stood at `ps` have become
/// `survivors` at `sps` and `kids` at `kps`, which head the new creatures
/// `next` at `next_ps`; after them come `quota` newborns, fewer when cells
/// run out, on distinct cells free of those and of the food at `food_ps`.
pub open spec fn turn_outcome(
    arena: Arena,
    cs: Seq<CreatureView>,
    ps: Seq<Position>,
    next: Seq<CreatureView>,
    next_ps: Seq<Position>,
    survivors: Seq<CreatureView>,
    sps: Seq<Position>,
    kids: Seq<CreatureView>,
    kps: Seq<Position>,
    food_ps: Seq<Position>,
    quota: int,
) -> bool {
    &&& pass_result(arena, cs, ps, survivors, sps, kids, kps)
    &&& next.len() == next_ps.len()
    &&& placed_among(
        arena,
        CREATURE_SIZE,
        (sps + kps) + food_ps,
        quota,
        next_ps.subrange((sps.len() + kps.len()) as int, next_ps.len() as int),
    )
    &&& survivors.len() + kids.len() <= next.len()
    &&& sps.len() + kps.len() <= next_ps.len()
    &&& next.subrange(0, (survivors.len() + kids.len()) as int) == survivors + kids
    &&& next_ps.subrange(0, (sps.len() + kps.len()) as int) == sps + kps
    &&& forall|i: int| survivors.len() + kids.len() <= i < next.len() ==> newborn(#[trigger] next[i])
}

/// The per-creature part of a turn over `creatures` standing at `positions`:
/// the survivors with their positions, and their children with theirs.
pub fn lifecycle_pass(arena: Arena, creatures: Vec<Creature>, positions: Vec<Position>) -> (r: (
    Vec<Creature>,
    Vec<Position>,
    Vec<Creature>,
    Vec<Position>,
))
    requires
        arena.wf(),
        creatures@.len() == positions@.len(),
        forall|i: int| 0 <= i < creatures@.len() ==> #[trigger] creatures@[i].wf(),
    ensures
        pass_result(arena, views(creatures@), positions@, views(r.0@), r.1@, views(r.2@), r.3@),
        r.0@.len() == r.1@.len(),
        r.2@.len() == r.3@.len(),
        r.0@.len() + r.2@.len() <= 2 * creatures@.len(),
        forall|i: int| 0 <= i < r.0@.len() ==> #[trigger] r.0@[i].wf(),
        forall|i: int| 0 <= i < r.2@.len() ==> #[trigger] r.2@[i].wf(),
        forall|i: int| 0 <= i < r.1@.len() ==> !out_of_box(arena, #[trigger] r.1@[i]),
        forall|i: int| 0 <= i < r.3@.len() ==> !out_of_box(arena, #[trigger] r.3@[i]),
{
    let ghost cs0 = creatures@;
    let ghost ps0 = positions@;
    let ghost n = cs0.len();
    let mut pending = creatures;
    let mut pending_pos = positions;
    let mut survivors: Vec<Creature> = Vec::new();
    let mut sps: Vec<Position> = Vec::new();
    let mut kids: Vec<Creature> = Vec::new();
    let mut kps: Vec<Position> = Vec::new();
    let ghost mut k: int = 0;
    assert(views(cs0.subrange(0, 0)) =~= Seq::<CreatureView>::empty());
    assert(ps0.subrange(0, 0) =~= Seq::<Position>::empty());
    assert(views(survivors@) =~= Seq::<CreatureView>::empty());
    assert(views(kids@) =~= Seq::<CreatureView>::empty());
    while pending.len() > 0
        invariant
            arena.wf(),
            cs0.len() == n,
            ps0.len() == n,
            0 <= k <= n,
            pending@ == cs0.subrange(k, n as int),
            pending_pos@ == ps0.subrange(k, n as int),
            forall|i: int| 0 <= i < cs0.len() ==> #[trigger] cs0[i].wf(),
            pass_result(
                arena,
                views(cs0.subrange(0, k)),
                ps0.subrange(0, k),
                views(survivors@),
                sps@,
                views(kids@),
                kps@,
            ),
            survivors@.len() == sps@.len(),
            kids@.len() == kps@.len(),
            survivors@.len() + kids@.len() <= 2 * k,
            forall|i: int| 0 <= i < survivors@.len() ==> #[trigger] survivors@[i].wf(),
            forall|i: int| 0 <= i < kids@.len() ==> #[trigger] kids@[i].wf(),
            forall|i: int| 0 <= i < sps@.len() ==> !out_of_box(arena, #[trigger] sps@[i]),
            forall|i: int| 0 <= i < kps@.len() ==> !out_of_box(arena, #[trigger] kps@[i]),
        decreases pending@.len(),
    {
        let mut c = pending.remove(0);
        let p = pending_pos.remove(0);
        assert(c == cs0[k] && p == ps0[k]);
        let ghost prev_s = survivors@;
        let ghost prev_sps = sps@;
        let ghost prev_k = kids@;
        let ghost prev_kps = kps@;
        let ghost cv = c@;
        let outside = is_out_of_box(arena, p);
        let (alive, child) = live_turn(&mut c, outside);
        if alive {
            survivors.push(c);
            sps.push(p);
            match child {
                Some(ch) => {
                    kids.push(ch);
                    kps.push(p);
                },
                None => {},
            }
        }
        proof {
            let pre = views(cs0.subrange(0, k + 1));
            assert(pre.drop_last() =~= views(cs0.subrange(0, k)));
            assert(pre.last() == cv);
            assert(ps0.subrange(0, k + 1).drop_last() =~= ps0.subrange(0, k));
            assert(ps0.subrange(0, k + 1).last() == p);
            if alive {
                assert(views(survivors@).drop_last() =~= views(prev_s));
                assert(sps@.drop_last() =~= prev_sps);
                assert(views(survivors@).last() == aged(cv, child is Some));
            } else {
                assert(survivors@ == prev_s);
            }
            if alive && child is Some {
                assert(views(kids@).drop_last() =~= views(prev_k));
                assert(kps@.drop_last() =~= prev_kps);
            } else {
                assert(kids@ == prev_k);
            }
            k = k + 1;
        }
    }
    assert(cs0.subrange(0, n as int) =~= cs0);
    assert(ps0.subrange(0, n as int) =~= ps0);
    (survivors, sps, kids, kps)
}

/// The smaller of `a` and `b`.
pub open spec fn at_most(a: int, b: int) -> int {
    if a < b {
        a
    } else {
        b
    }
}

/// `new_ps` are the spots of `count` new objects of `size` placed on
/// distinct cells that nothing at `occupied` occupies, fewer when fewer cells
/// are free.
pub open spec fn placed_among(
    arena: Arena,
    size: usize,
    occupied: Seq<Position>,
    count: int,
    new_ps: Seq<Position>,
) -> bool {
    let free = free_of(arena, size, size, occupied);
    &&& new_ps.len() == at_most(count, free.len() as int)
    &&& exists|picks: Seq<usize>| #[trigger] placed_from(arena, size, size, free, picks, new_ps)
    &&& forall|i: int, j: int|
        0 <= i < new_ps.len() && 0 <= j < occupied.len() ==> cell_index(arena, size, size, #[trigger] new_ps[i])
            != cell_index(arena, size, size, #[trigger] occupied[j])
    &&& forall|i: int, k: int|
        0 <= i < k < new_ps.len() ==> cell_index(arena, size, size, #[trigger] new_ps[i]) != cell_index(
            arena,
            size,
            size,
            #[trigger] new_ps[k],
        )
}

/// The arena holds a grid of creatures and a grid of food, and objects
/// placed on either lie strictly inside it.
pub open spec fn arena_ok(arena: Arena) -> bool {
    &&& fits(arena, CREATURE_SIZE, CREATURE_SIZE)
    &&& fits(arena, FOOD_SIZE, FOOD_SIZE)
}

/// An object placed on a cell lies strictly inside the arena.
pub proof fn lemma_cell_inside(arena: Arena, size: usize, idx: int)
    requires
        fits(arena, size, size),
        size >= 3,
        0 <= idx < grid_rows(arena, size) * grid_columns(arena, size),
    ensures
        !out_of_box(arena, cell_position(arena, size, size, idx)),
{
    lemma_grid_dims(arena, size, size);
    let cols = grid_columns(arena, size);
    let rows = grid_rows(arena, size);
    let col = idx % cols;
    let row = idx / cols;
    assert(0 <= col < cols && 0 <= row < rows) by (nonlinear_arith)
        requires
            0 <= idx < rows * cols,
            cols >= 1,
            col == idx % cols,
            row == idx / cols,
    ;
    assert(col * size + size <= arena.width) by (nonlinear_arith)
        requires
            0 <= col < cols,
            cols == arena.width as int / size as int,
            size > 0,
    ;
    assert(row * size + size <= arena.height) by (nonlinear_arith)
        requires
            0 <= row < rows,
            rows == arena.height as int / size as int,
            size > 0,
    ;
    assert(col * size * SCALE == (col * size) * SCALE) by (nonlinear_arith);
    assert(row * size * SCALE == (row * size) * SCALE) by (nonlinear_arith);
    assert(2 * (arena.width / 2) >= arena.width - 1);
    assert(2 * (arena.height / 2) >= arena.height - 1);
    assert(col * size >= 0 && row * size >= 0) by (nonlinear_arith)
        requires
            col >= 0,
            row >= 0,
    ;
}

/// Objects placed by `calculate_random_objects` lie strictly inside the arena.
pub proof fn lemma_placed_inside(
    arena: Arena,
    size: usize,
    ts: Seq<Position>,
    picks: Seq<usize>,
    r: Seq<Position>,
)
    requires
        fits(arena, size, size),
        size >= 3,
        placed_from(arena, size, size, free_of(arena, size, size, ts), picks, r),
    ensures
        forall|i: int| 0 <= i < r.len() ==> !out_of_box(arena, #[trigger] r[i]),
{
    lemma_grid_dims(arena, size, size);
    let cells = occupancy(arena, size, size, ts);
    lemma_free_below(cells, cells.len() as int);
    let free = free_of(arena, size, size, ts);
    assert forall|i: int| 0 <= i < r.len() implies !out_of_box(arena, #[trigger] r[i]) by {
        let k = picks[i] as int;
        assert(free_upto(cells, cells.len() as int)[k] < cells.len());
        lemma_cell_inside(arena, size, free[k] as int);
    }
}

/// The bucket of `v` among `buckets`: its own, or the last one for values at
/// or above it.
pub open spec fn bucket_of(v: int, buckets: int) -> int {
    if v >= buckets - 1 {
        buckets - 1
    } else {
        v
    }
}

/// How many of `values` fall in bucket `k` of `buckets`.
pub open spec fn count_in(values: Seq<usize>, k: int, buckets: int) -> nat
    decreases values.len(),
{
    if values.len() == 0 {
        0
    } else {
        count_in(values.drop_last(), k, buckets) + if bucket_of(values.last() as int, buckets) == k {
            1nat
        } else {
            0nat
        }
    }
}

/// The sum of the counts.
pub open spec fn total(counts: Seq<usize>) -> int
    decreases counts.len(),
{
    if counts.len() == 0 {
        0
    } else {
        total(counts.drop_last()) + counts.last()
    }
}

proof fn lemma_count_bounded(values: Seq<usize>, k: int, buckets: int)
    ensures
        count_in(values, k, buckets) <= values.len(),
    decreases values.len(),
{
    if values.len() > 0 {
        lemma_count_bounded(values.drop_last(), k, buckets);
    }
}

proof fn lemma_total_bump(counts: Seq<usize>, b: int, v: usize)
    requires
        0 <= b < counts.len(),
        v == counts[b] + 1,
    ensures
        total(counts.update(b, v)) == total(counts) + 1,
    decreases counts.len(),
{
    let up = counts.update(b, v);
    if b == counts.len() - 1 {
        assert(up.drop_last() =~= counts.drop_last());
    } else {
        assert(up.drop_last() =~= counts.drop_last().update(b, v));
        lemma_total_bump(counts.drop_last(), b, v);
    }
}

/// Counts how many of `values` fall in each of `buckets` buckets: bucket
/// `k` holds the values equal to `k`, and the last bucket also every larger
/// value, so that every value is counted once.
pub fn histogram(values: &Vec<usize>, buckets: usize) -> (r: Vec<usize>)
    ensures
        r@.len() == buckets,
        forall|k: int| 0 <= k < buckets ==> #[trigger] r@[k] == count_in(values@, k, buckets as int),
        buckets > 0 ==> total(r@) == values@.len(),
{
    let mut r: Vec<usize> = Vec::new();
    let mut k: usize = 0;
    while k < buckets
        invariant
            k <= buckets,
            r@.len() == k,
            forall|m: int| 0 <= m < k ==> #[trigger] r@[m] == 0,
            total(r@) == 0,
        decreases buckets - k,
    {
        let ghost before = r@;
        r.push(0);
        assert(r@.drop_last() =~= before);
        k = k + 1;
    }
    if buckets == 0 {
        return r;
    }
    let mut i: usize = 0;
    while i < values.len()
        invariant
            buckets > 0,
            i <= values@.len(),
            r@.len() == buckets,
            forall|m: int|
                0 <= m < buckets ==> #[trigger] r@[m] == count_in(
                    values@.subrange(0, i as int),
                    m,
                    buckets as int,
                ),
            total(r@) == i,
        decreases values@.len() - i,
    {
        let ghost before = values@.subrange(0, i as int);
        let ghost after = values@.subrange(0, i as int + 1);
        assert(after.drop_last() == before);
        assert(after.last() == values@[i as int]);
        let v = values[i];
        let b = if v >= buckets - 1 {
            buckets - 1
        } else {
            v
        };
        proof {
            lemma_count_bounded(before, b as int, buckets as int);
        }
        let old_count = r[b];
        let ghost counts = r@;
        r.set(b, old_count + 1);
        proof {
            lemma_total_bump(counts, b as int, (old_count + 1) as usize);
        }
        i = i + 1;
    }
    assert(values@.subrange(0, values@.len() as int) == values@);
    r
}

/// The simulation's creatures and food, each with its position, in dense
/// arrays, and the state of the turn scheduler.
pub struct World {
    arena: Arena,
    creatures: Vec<Creature>,
    positions: Vec<Position>,
    foods: Vec<Food>,
    food_positions: Vec<Position>,
    state: SimulationState,
}

impl World {
    pub closed spec fn arena(&self) -> Arena {
        self.arena
    }

    pub closed spec fn creatures(&self) -> Seq<Creature> {
        self.creatures@
    }

    pub closed spec fn positions(&self) -> Seq<Position> {
        self.positions@
    }

    pub closed spec fn foods(&self) -> Seq<Food> {
        self.foods@
    }

    pub closed spec fn food_positions(&self) -> Seq<Position> {
        self.food_positions@
    }

    pub closed spec fn state(&self) -> SimulationState {
        self.state
    }

    /// Each creature and food item has a position, every creature is well
    /// formed, and no food item still held has been eaten.
    pub closed spec fn wf(&self) -> bool {
        &&& arena_ok(self.arena)
        &&& self.creatures@.len() == self.positions@.len()
        &&& self.foods@.len() == self.food_positions@.len()
        &&& forall|i: int| 0 <= i < self.creatures@.len() ==> #[trigger] self.creatures@[i].wf()
        &&& forall|i: int| 0 <= i < self.foods@.len() ==> !#[trigger] self.foods@[i].eaten()
    }

    /// Whether the world is well formed: positions for every creature and
    /// food item, creatures within bounds, no eaten food still held.
    pub fn is_consistent(&self) -> (r: bool)
        ensures
            r == self.wf(),
    {
        if !can_place(self.arena, CREATURE_SIZE, CREATURE_SIZE) || !can_place(self.arena, FOOD_SIZE, FOOD_SIZE)
            || self.creatures.len() != self.positions.len() || self.foods.len()
            != self.food_positions.len() {
            return false;
        }
        let mut i: usize = 0;
        while i < self.creatures.len()
            invariant
                i <= self.creatures@.len(),
                forall|k: int| 0 <= k < i ==> #[trigger] self.creatures@[k].wf(),
            decreases self.creatures@.len() - i,
        {
            if !self.creatures[i].is_valid() {
                return false;
            }
            i = i + 1;
        }
        let mut j: usize = 0;
        while j < self.foods.len()
            invariant
                j <= self.foods@.len(),
                forall|k: int| 0 <= k < j ==> !#[trigger] self.foods@[k].eaten(),
            decreases self.foods@.len() - j,
        {
            if self.foods[j].is_eaten() {
                return false;
            }
            j = j + 1;
        }
        true
    }

    /// An empty world in preparation, with the daily quotas of new creatures
    /// and food.
    pub fn new(arena: Arena, daily_creature_count: usize, daily_food_count: usize) -> (r: World)
        requires
            arena_ok(arena),
        ensures
            r.wf(),
            r.arena() == arena,
            r.creatures().len() == 0,
            r.foods().len() == 0,
            r.state() == (SimulationState::Prepare { daily_creature_count, daily_food_count }),
    {
        World {
            arena,
            creatures: Vec::new(),
            positions: Vec::new(),
            foods: Vec::new(),
            food_positions: Vec::new(),
            state: SimulationState::prepare(daily_creature_count, daily_food_count),
        }
    }

    /// The positions of every creature and then every food item.
    fn tracked_positions(&self) -> (r: Vec<Position>)
        ensures
            r@ == self.positions@ + self.food_positions@,
    {
        let mut r: Vec<Position> = Vec::new();
        let mut i: usize = 0;
        while i < self.positions.len()
            invariant
                i <= self.positions@.len(),
                r@ == self.positions@.subrange(0, i as int),
            decreases self.positions@.len() - i,
        {
            r.push(self.positions[i]);
            i = i + 1;
        }
        let mut j: usize = 0;
        while j < self.food_positions.len()
            invariant
                j <= self.food_positions@.len(),
                r@ == self.positions@ + self.food_positions@.subrange(0, j as int),
            decreases self.food_positions@.len() - j,
        {
            r.push(self.food_positions[j]);
            j = j + 1;
        }
        r
    }

    /// Puts creatures with the given genomes on free cells, as many as there
    /// are genomes, at most `count`, and fewer when cells run out.
    fn spawn_creatures(&mut self, genomes: Vec<DNA>, count: usize)
        requires
            old(self).wf(),
        ensures
            final(self).wf(),
            final(self).arena() == old(self).arena(),
            final(self).state() == old(self).state(),
            final(self).foods() == old(self).foods(),
            final(self).food_positions() == old(self).food_positions(),
            old(self).creatures().len() <= final(self).creatures().len(),
            final(self).creatures().len() == final(self).positions().len(),
            final(self).creatures().subrange(0, old(self).creatures().len() as int) == old(
                self,
            ).creatures(),
            final(self).positions().subrange(0, old(self).positions().len() as int) == old(
                self,
            ).positions(),
            placed_among(
                old(self).arena(),
                CREATURE_SIZE,
                old(self).positions() + old(self).food_positions(),
                at_most(count as int, genomes@.len() as int),
                final(self).positions().subrange(
                    old(self).positions().len() as int,
                    final(self).positions().len() as int,
                ),
            ),
            forall|i: int|
                old(self).positions().len() <= i < final(self).positions().len() ==> !out_of_box(
                    final(self).arena(),
                    #[trigger] final(self).positions()[i],
                ),
            forall|i: int|
                old(self).creatures().len() <= i < final(self).creatures().len() ==> newborn(
                    #[trigger] final(self).creatures()[i]@,
                ),
    {
        let tracked_now = self.tracked_positions();
        let wanted = if count < genomes.len() {
            count
        } else {
            genomes.len()
        };
        let spots = calculate_random_objects(self.arena, CREATURE_SIZE, CREATURE_SIZE, wanted, &tracked_now);
        let ghost free = free_of(self.arena, CREATURE_SIZE, CREATURE_SIZE, tracked_now@);
        proof {
            let picks = choose|picks: Seq<usize>|
                #[trigger] placed_from(self.arena, CREATURE_SIZE, CREATURE_SIZE, free, picks, spots@);
            lemma_placed_inside(self.arena, CREATURE_SIZE, tracked_now@, picks, spots@);
        }
        let ghost start = self.creatures@.len();
        let ghost g0 = genomes@.len();
        let mut genomes = genomes;
        let mut i: usize = 0;
        while i < spots.len()
            invariant
                self.wf(),
                self.arena == old(self).arena(),
                self.state == old(self).state(),
                self.foods@ == old(self).foods(),
                self.food_positions@ == old(self).food_positions(),
                start == old(self).creatures().len(),
                i <= spots@.len() <= g0,
                genomes@.len() + i == g0,
                self.creatures@.len() == start + i,
                self.creatures@.subrange(0, start as int) == old(self).creatures(),
                self.positions@.subrange(0, start as int) == old(self).positions(),
                forall|k: int| 0 <= k < spots@.len() ==> !out_of_box(self.arena, #[trigger] spots@[k]),
                forall|k: int|
                    start <= k < self.positions@.len() ==> self.positions@[k] == spots@[k - start],
                forall|k: int| start <= k < self.creatures@.len() ==> newborn(#[trigger] self.creatures@[k]@),
            decreases spots@.len() - i,
        {
            let dna = genomes.pop().unwrap();
            self.creatures.push(Creature::new(dna));
            self.positions.push(spots[i]);
            proof {
                assert(self.creatures@.subrange(0, start as int) =~= old(self).creatures());
                assert(self.positions@.subrange(0, start as int) =~= old(self).positions());
            }
            i = i + 1;
        }
        proof {
            assert(self.positions@.subrange(start as int, self.positions@.len() as int) =~= spots@);
            assert forall|k: int|
                old(self).positions().len() <= k < self.positions@.len() implies !out_of_box(
                self.arena,
                #[trigger] self.positions@[k],
            ) by {
                assert(self.positions@[k] == spots@[k - start]);
            }
        }
    }

    /// Puts `count` new food items on distinct free cells, fewer when cells
    /// run out.
    fn spawn_food(&mut self, count: usize)
        requires
            old(self).wf(),
        ensures
            final(self).wf(),
            final(self).arena() == old(self).arena(),
            final(self).state() == old(self).state(),
            final(self).creatures() == old(self).creatures(),
            final(self).positions() == old(self).positions(),
            old(self).foods().len() <= final(self).foods().len(),
            final(self).foods().len() == final(self).food_positions().len(),
            final(self).foods().subrange(0, old(self).foods().len() as int) == old(self).foods(),
            final(self).food_positions().subrange(0, old(self).food_positions().len() as int) == old(
                self,
            ).food_positions(),
            placed_among(
                old(self).arena(),
                FOOD_SIZE,
                old(self).positions() + old(self).food_positions(),
                count as int,
                final(self).food_positions().subrange(
                    old(self).food_positions().len() as int,
                    final(self).food_positions().len() as int,
                ),
            ),
    {
        let tracked_now = self.tracked_positions();
        let spots = calculate_random_objects(self.arena, FOOD_SIZE, FOOD_SIZE, count, &tracked_now);
        let mut i: usize = 0;
        let ghost start = self.foods@.len();
        while i < spots.len()
            invariant
                self.wf(),
                self.arena == old(self).arena(),
                self.state == old(self).state(),
                self.creatures@ == old(self).creatures(),
                self.positions@ == old(self).positions(),
                start == old(self).foods().len(),
                i <= spots@.len(),
                self.foods@.len() == start + i,
                self.foods@.subrange(0, start as int) == old(self).foods(),
                self.food_positions@.subrange(0, start as int) == old(self).food_positions(),
                forall|k: int|
                    start <= k < self.food_positions@.len() ==> self.food_positions@[k] == spots@[k
                        - start],
            decreases spots@.len() - i,
        {
            let food = Food::new();
            self.foods.push(food);
            self.food_positions.push(spots[i]);
            proof {
                assert(self.foods@.subrange(0, start as int) =~= old(self).foods());
                assert(self.food_positions@.subrange(0, start as int) =~= old(self).food_positions());
            }
            i = i + 1;
        }
        assert(self.food_positions@.subrange(start as int, self.food_positions@.len() as int) =~= spots@);
    }

}

/// The daily quota of new creatures of a running or preparing simulation.
pub open spec fn daily_creatures(s: SimulationState) -> int {
    match s {
        SimulationState::Prepare { daily_creature_count, .. } => daily_creature_count as int,
        SimulationState::Running { daily_creature_count, .. } => daily_creature_count as int,
    }
}

/// The daily quota of new food of a running or preparing simulation.
pub open spec fn daily_food(s: SimulationState) -> int {
    match s {
        SimulationState::Prepare { daily_food_count, .. } => daily_food_count as int,
        SimulationState::Running { daily_food_count, .. } => daily_food_count as int,
    }
}

/// The longest step, in milliseconds, one movement covers.
pub const MAX_STEP_MS: u64 = 200;

/// How far `v` carries a coordinate in `dt` milliseconds, rounded toward zero.
pub open spec fn travel(v: int, dt: int) -> int {
    if v >= 0 {
        v * dt / 1000
    } else {
        -((-v) * dt / 1000)
    }
}

/// A coordinate clamped into the range of `i64`.
pub open spec fn clamp_coord(v: int) -> i64 {
    if v > i64::MAX {
        i64::MAX
    } else if v < i64::MIN {
        i64::MIN
    } else {
        v as i64
    }
}

fn travel_exec(v: i128, dt: u64) -> (r: i128)
    requires
        -MAX_SPEED <= v <= MAX_SPEED,
        dt <= MAX_STEP_MS,
    ensures
        r == travel(v as int, dt as int),
        -MAX_SPEED <= r <= MAX_SPEED,
{
    assert(0 <= (if v >= 0 { v as int } else { -v }) * dt <= MAX_SPEED * 200) by (nonlinear_arith)
        requires
            -MAX_SPEED <= v <= MAX_SPEED,
            dt <= 200,
    ;
    if v >= 0 {
        let r = (v * dt as i128) / 1000;
        assert(r <= MAX_SPEED) by (nonlinear_arith)
            requires
                r == v * dt / 1000,
                0 <= v * dt <= MAX_SPEED * 200,
        ;
        r
    } else {
        let r = ((-v) * dt as i128) / 1000;
        assert(r <= MAX_SPEED) by (nonlinear_arith)
            requires
                r == (-v) * dt / 1000,
                0 <= (-v) * dt <= MAX_SPEED * 200,
        ;
        -r
    }
}

fn clamp_coord_exec(v: i128) -> (r: i64)
    ensures
        r == clamp_coord(v as int),
{
    if v > i64::MAX as i128 {
        i64::MAX
    } else if v < i64::MIN as i128 {
        i64::MIN
    } else {
        v as i64
    }
}

impl World {
    /// The one-shot switch from preparation to running: places a creature for
    /// each genome and `food_count` food items on distinct free cells, fewer
    /// when cells run out. A running world is left as it is.
    pub fn start(&mut self, genomes: Vec<DNA>, food_count: usize) -> (r: bool)
        requires
            old(self).wf(),
        ensures
            final(self).wf(),
            final(self).arena() == old(self).arena(),
            r == (old(self).state() is Prepare),
            !r ==> final(self).creatures() == old(self).creatures() && final(self).foods() == old(
                self,
            ).foods() && final(self).positions() == old(self).positions() && final(self).food_positions()
                == old(self).food_positions() && final(self).state() == old(self).state(),
            r ==> final(self).state() == (SimulationState::Running {
                daily_creature_count: daily_creatures(old(self).state()) as usize,
                daily_food_count: daily_food(old(self).state()) as usize,
                turn_count: 0,
            }),
            r ==> final(self).creatures().len() == final(self).positions().len(),
            r ==> final(self).foods().len() == final(self).food_positions().len(),
            r ==> final(self).creatures().subrange(0, old(self).creatures().len() as int) == old(
                self,
            ).creatures(),
            r ==> final(self).positions().subrange(0, old(self).positions().len() as int) == old(
                self,
            ).positions(),
            r ==> final(self).foods().subrange(0, old(self).foods().len() as int) == old(self).foods(),
            r ==> final(self).food_positions().subrange(0, old(self).food_positions().len() as int)
                == old(self).food_positions(),
            r ==> placed_among(
                old(self).arena(),
                CREATURE_SIZE,
                old(self).positions() + old(self).food_positions(),
                genomes@.len() as int,
                final(self).positions().subrange(
                    old(self).positions().len() as int,
                    final(self).positions().len() as int,
                ),
            ),
            r ==> placed_among(
                old(self).arena(),
                FOOD_SIZE,
                final(self).positions() + old(self).food_positions(),
                food_count as int,
                final(self).food_positions().subrange(
                    old(self).food_positions().len() as int,
                    final(self).food_positions().len() as int,
                ),
            ),
            r ==> forall|i: int|
                old(self).creatures().len() <= i < final(self).creatures().len() ==> {
                    &&& newborn(#[trigger] final(self).creatures()[i]@)
                    &&& !out_of_box(final(self).arena(), final(self).positions()[i])
                },
    {
        if !self.state.start() {
            return false;
        }
        let n = genomes.len();
        self.spawn_creatures(genomes, n);
        self.spawn_food(food_count);
        true
    }

    /// One turn of a running world: every creature that is dying or outside
    /// the arena is removed; every other one has a child beside it when it
    /// can afford one; all age and pay for the turn. Then new creatures, with
    /// the given genomes, and new food are placed on free cells up to the
    /// daily quotas. A world in preparation is left as it is.
    pub fn turn(&mut self, genomes: Vec<DNA>) -> (r: bool)
        requires
            old(self).wf(),
        ensures
            final(self).wf(),
            final(self).arena() == old(self).arena(),
            r == (old(self).state() is Running),
            !r ==> final(self).creatures() == old(self).creatures() && final(self).foods() == old(
                self,
            ).foods() && final(self).positions() == old(self).positions() && final(self).food_positions()
                == old(self).food_positions() && final(self).state() == old(self).state(),
            r ==> final(self).state() == match old(self).state() {
                SimulationState::Running { daily_creature_count, daily_food_count, turn_count } => {
                    SimulationState::Running {
                        daily_creature_count,
                        daily_food_count,
                        turn_count: succ_sat(turn_count as nat) as usize,
                    }
                },
                SimulationState::Prepare { .. } => old(self).state(),
            },
            r ==> final(self).creatures().len() <= 2 * old(self).creatures().len() + daily_creatures(
                old(self).state(),
            ),
            r ==> final(self).foods().len() == final(self).food_positions().len(),
            r ==> final(self).foods().subrange(0, old(self).foods().len() as int) == old(self).foods(),
            r ==> final(self).food_positions().subrange(0, old(self).food_positions().len() as int)
                == old(self).food_positions(),
            r ==> placed_among(
                old(self).arena(),
                FOOD_SIZE,
                final(self).positions() + old(self).food_positions(),
                daily_food(old(self).state()),
                final(self).food_positions().subrange(
                    old(self).food_positions().len() as int,
                    final(self).food_positions().len() as int,
                ),
            ),
            r ==> forall|i: int|
                0 <= i < final(self).positions().len() ==> !out_of_box(
                    final(self).arena(),
                    #[trigger] final(self).positions()[i],
                ),
            r ==> exists|
                survivors: Seq<CreatureView>,
                sps: Seq<Position>,
                kids: Seq<CreatureView>,
                kps: Seq<Position>,
            |
                #[trigger] turn_outcome(
                    old(self).arena(),
                    views(old(self).creatures()),
                    old(self).positions(),
                    views(final(self).creatures()),
                    final(self).positions(),
                    survivors,
                    sps,
                    kids,
                    kps,
                    old(self).food_positions(),
                    at_most(daily_creatures(old(self).state()), genomes@.len() as int),
                ),
    {
        let daily = match self.state {
            SimulationState::Running { daily_creature_count, daily_food_count, .. } => (
                daily_creature_count,
                daily_food_count,
            ),
            SimulationState::Prepare { .. } => {
                return false;
            },
        };
        self.state.next_turn();
        let mut pending: Vec<Creature> = Vec::new();
        let mut pending_pos: Vec<Position> = Vec::new();
        std::mem::swap(&mut pending, &mut self.creatures);
        std::mem::swap(&mut pending_pos, &mut self.positions);
        let (survivors, sps, mut kids, mut kps) = lifecycle_pass(self.arena, pending, pending_pos);
        let ghost pass_views = (views(survivors@), sps@, views(kids@), kps@);
        let ghost kid_cs = kids@;
        self.creatures = survivors;
        self.positions = sps;
        self.creatures.append(&mut kids);
        self.positions.append(&mut kps);
        proof {
            assert(views(self.creatures@) =~= pass_views.0 + pass_views.2);
            assert forall|i: int| 0 <= i < self.creatures@.len() implies #[trigger] self.creatures@[i].wf() by {
                if i >= pass_views.0.len() {
                    assert(self.creatures@[i] == kid_cs[i - pass_views.0.len()]);
                }
            }
            assert(self.positions@ =~= pass_views.1 + pass_views.3);
            assert forall|i: int| 0 <= i < self.positions@.len() implies !out_of_box(
                self.arena,
                #[trigger] self.positions@[i],
            ) by {
                if i >= pass_views.1.len() {
                    assert(self.positions@[i] == pass_views.3[i - pass_views.1.len()]);
                } else {
                    assert(self.positions@[i] == pass_views.1[i]);
                }
            }
        }
        let ghost kept_positions = self.positions@;
        let ghost appended = self.creatures@;
        let ghost genomes_len = genomes@.len();
        self.spawn_creatures(genomes, daily.0);
        proof {
            assert forall|i: int| 0 <= i < self.positions@.len() implies !out_of_box(
                self.arena,
                #[trigger] self.positions@[i],
            ) by {
                if i < kept_positions.len() {
                    assert(self.positions@.subrange(0, kept_positions.len() as int)[i] == self.positions@[i]);
                }
            }
        }
        self.spawn_food(daily.1);
        proof {
            let m = (pass_views.0.len() + pass_views.2.len()) as int;
            assert(self.creatures@.subrange(0, m) == appended);
            assert(views(self.creatures@).subrange(0, m) =~= views(appended));
            assert(turn_outcome(
                old(self).arena(),
                views(old(self).creatures()),
                old(self).positions(),
                views(self.creatures()),
                self.positions(),
                pass_views.0,
                pass_views.1,
                pass_views.2,
                pass_views.3,
                old(self).food_positions(),
                at_most(daily_creatures(old(self).state()), genomes_len as int),
            ));
        }
        true
    }

    /// Lets `delta_ms` go by on every creature's movement timer; a creature
    /// whose genome does not terminate when consulted is removed.
    pub fn decide_moves(&mut self, delta_ms: u64)
        requires
            old(self).wf(),
        ensures
            final(self).wf(),
            final(self).arena() == old(self).arena(),
            final(self).state() == old(self).state(),
            final(self).foods() == old(self).foods(),
            final(self).food_positions() == old(self).food_positions(),
            decided(
                views(old(self).creatures()),
                old(self).positions(),
                delta_ms as int,
                views(final(self).creatures()),
                final(self).positions(),
            ),
    {
        let mut pending: Vec<Creature> = Vec::new();
        let mut pending_pos: Vec<Position> = Vec::new();
        std::mem::swap(&mut pending, &mut self.creatures);
        std::mem::swap(&mut pending_pos, &mut self.positions);
        let ghost cs0 = pending@;
        let ghost ps0 = pending_pos@;
        let ghost n = cs0.len();
        let ghost mut k: int = 0;
        assert(views(cs0.subrange(0, 0)) =~= Seq::<CreatureView>::empty());
        assert(ps0.subrange(0, 0) =~= Seq::<Position>::empty());
        assert(views(self.creatures@) =~= Seq::<CreatureView>::empty());
        while pending.len() > 0
            invariant
                arena_ok(self.arena),
                self.arena == old(self).arena(),
                self.state == old(self).state(),
                self.foods@ == old(self).foods(),
                self.food_positions@ == old(self).food_positions(),
                self.foods@.len() == self.food_positions@.len(),
                forall|i: int| 0 <= i < self.foods@.len() ==> !#[trigger] self.foods@[i].eaten(),
                cs0 == old(self).creatures(),
                ps0 == old(self).positions(),
                cs0.len() == n,
                ps0.len() == n,
                0 <= k <= n,
                pending@ == cs0.subrange(k, n as int),
                pending_pos@ == ps0.subrange(k, n as int),
                forall|i: int| 0 <= i < cs0.len() ==> #[trigger] cs0[i].wf(),
                self.creatures@.len() == self.positions@.len(),
                forall|i: int| 0 <= i < self.creatures@.len() ==> #[trigger] self.creatures@[i].wf(),
                decided(
                    views(cs0.subrange(0, k)),
                    ps0.subrange(0, k),
                    delta_ms as int,
                    views(self.creatures@),
                    self.positions@,
                ),
            decreases pending@.len(),
        {
            let mut c = pending.remove(0);
            let p = pending_pos.remove(0);
            assert(c == cs0[k] && p == ps0[k]);
            let ghost cv = c@;
            let ghost prev = self.creatures@;
            let ghost prev_ps = self.positions@;
            let outcome = c.tick(p, delta_ms);
            let ok = outcome.is_ok();
            if ok {
                self.creatures.push(c);
                self.positions.push(p);
            }
            proof {
                let pre = views(cs0.subrange(0, k + 1));
                assert(pre.drop_last() =~= views(cs0.subrange(0, k)));
                assert(pre.last() == cv);
                assert(ps0.subrange(0, k + 1).drop_last() =~= ps0.subrange(0, k));
                assert(ps0.subrange(0, k + 1).last() == p);
                if ok {
                    assert(views(self.creatures@).drop_last() =~= views(prev));
                    assert(self.positions@.drop_last() =~= prev_ps);
                }
                k = k + 1;
            }
        }
        assert(cs0.subrange(0, n as int) =~= cs0);
        assert(ps0.subrange(0, n as int) =~= ps0);
    }

    /// Moves creature `i` along its velocity for `delta_ms`, at most
    /// `MAX_STEP_MS`, and charges it `cost` thousandths of life for the move.
    pub fn move_creature(&mut self, i: usize, delta_ms: u64, cost: i64)
        requires
            old(self).wf(),
            i < old(self).creatures().len(),
        ensures
            final(self).wf(),
            final(self).arena() == old(self).arena(),
            final(self).state() == old(self).state(),
            final(self).foods() == old(self).foods(),
            final(self).food_positions() == old(self).food_positions(),
            final(self).creatures().len() == old(self).creatures().len(),
            ({
                let dt = if delta_ms > MAX_STEP_MS {
                    MAX_STEP_MS as int
                } else {
                    delta_ms as int
                };
                let c = old(self).creatures()[i as int]@;
                let p = old(self).positions()[i as int];
                let dx = travel(c.velocity.x as int, dt);
                let dy = travel(c.velocity.y as int, dt);
                &&& final(self).positions() == old(self).positions().update(
                    i as int,
                    Position { x: clamp_coord(p.x + dx), y: clamp_coord(p.y + dy) },
                )
                &&& final(self).creatures()[i as int]@ == (CreatureView {
                    life: clamp_life(c.life - cost) as int,
                    activated: c.activated || dx != 0 || dy != 0,
                    ..c
                })
            }),
            forall|k: int|
                0 <= k < old(self).creatures().len() && k != i ==> #[trigger] final(self).creatures()[k]
                    == old(self).creatures()[k],
    {
        let dt = if delta_ms > MAX_STEP_MS {
            MAX_STEP_MS
        } else {
            delta_ms
        };
        let v = self.creatures[i].velocity();
        let dx = travel_exec(v.x, dt);
        let dy = travel_exec(v.y, dt);
        let p = self.positions[i];
        let moved = Position {
            x: clamp_coord_exec(p.x as i128 + dx),
            y: clamp_coord_exec(p.y as i128 + dy),
        };
        self.positions.set(i, moved);
        let distance: u64 = if dx != 0 || dy != 0 {
            1
        } else {
            0
        };
        self.creatures[i].has_moved(distance, cost);
    }

    /// Creature `ci` eats food item `fi`, which leaves the world.
    pub fn feed(&mut self, ci: usize, fi: usize)
        requires
            old(self).wf(),
            ci < old(self).creatures().len(),
            fi < old(self).foods().len(),
        ensures
            final(self).wf(),
            final(self).arena() == old(self).arena(),
            final(self).state() == old(self).state(),
            final(self).positions() == old(self).positions(),
            final(self).foods() == old(self).foods().remove(fi as int),
            final(self).food_positions() == old(self).food_positions().remove(fi as int),
            final(self).creatures().len() == old(self).creatures().len(),
            final(self).creatures()[ci as int]@ == (CreatureView {
                life: clamp_life(old(self).creatures()[ci as int]@.life + FOOD_ENERGY) as int,
                ..old(self).creatures()[ci as int]@
            }),
            forall|k: int|
                0 <= k < old(self).creatures().len() && k != ci ==> #[trigger] final(self).creatures()[k]
                    == old(self).creatures()[k],
    {
        let mut food = self.foods.remove(fi);
        self.food_positions.remove(fi);
        let eaten = self.creatures[ci].try_eat_food(&mut food);
        assert(eaten);
    }

    pub fn creature_count(&self) -> (r: usize)
        ensures
            r == self.creatures().len(),
    {
        self.creatures.len()
    }

    pub fn food_count(&self) -> (r: usize)
        ensures
            r == self.foods().len(),
    {
        self.foods.len()
    }

    pub fn creature(&self, i: usize) -> (r: &Creature)
        requires
            i < self.creatures().len(),
        ensures
            *r == self.creatures()[i as int],
    {
        &self.creatures[i]
    }

    pub fn creature_position(&self, i: usize) -> (r: Position)
        requires
            i < self.positions().len(),
        ensures
            r == self.positions()[i as int],
    {
        self.positions[i]
    }

    pub fn food_position(&self, i: usize) -> (r: Position)
        requires
            i < self.food_positions().len(),
        ensures
            r == self.food_positions()[i as int],
    {
        self.food_positions[i]
    }

    pub fn simulation_state(&self) -> (r: SimulationState)
        ensures
            r == self.state(),
    {
        self.state
    }

    pub fn arena_size(&self) -> (r: Arena)
        ensures
            r == self.arena(),
    {
        self.arena
    }

    /// The generation of every creature, in order.
    pub fn generations(&self) -> (r: Vec<usize>)
        ensures
            r@.len() == self.creatures().len(),
            forall|i: int| 0 <= i < r@.len() ==> r@[i] == #[trigger] self.creatures()[i]@.generation,
    {
        let mut r: Vec<usize> = Vec::new();
        let mut i: usize = 0;
        while i < self.creatures.len()
            invariant
                i <= self.creatures@.len(),
                r@.len() == i,
                forall|k: int| 0 <= k < i ==> r@[k] == #[trigger] self.creatures@[k]@.generation,
            decreases self.creatures@.len() - i,
        {
            r.push(self.creatures[i].generation());
            i = i + 1;
        }
        r
    }

    /// The age of every creature, in order.
    pub fn ages(&self) -> (r: Vec<usize>)
        ensures
            r@.len() == self.creatures().len(),
            forall|i: int| 0 <= i < r@.len() ==> r@[i] == #[trigger] self.creatures()[i]@.age,
    {
        let mut r: Vec<usize> = Vec::new();
        let mut i: usize = 0;
        while i < self.creatures.len()
            invariant
                i <= self.creatures@.len(),
                r@.len() == i,
                forall|k: int| 0 <= k < i ==> r@[k] == #[trigger] self.creatures@[k]@.age,
            decreases self.creatures@.len() - i,
        {
            r.push(self.creatures[i].age());
            i = i + 1;
        }
        r
    }
}

} // verus!
