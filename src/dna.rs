//! Genomes: fixed-length instruction sequences, made at random and copied
//! with point mutations.

use crate::bf::{instruction_of, outcome, run, NonTerminating};
pub use crate::bf::Instruction;
use crate::random::random_below;
use crate::units::{convert_from_unit, convert_vec2_to_unit, unit_of, Position, Velocity, BASE_UNIT};
use vstd::prelude::*;

verus! {

/// Length of a freshly generated genome.
pub const GENOME_LEN: usize = 2048;

/// The number of point mutations of one copy is drawn from `1..MUTATION_BOUND`.
pub const MUTATION_BOUND: usize = 5;

/// Life, in thousandths, that carrying a genome costs per turn.
pub const TIME_COST: i64 = 500;

#[derive(Clone)]
pub struct DNA {
    code: Vec<Instruction>,
}

/// The `i`-th written value, or 0 where fewer were written.
pub open spec fn output_or_zero(out: Seq<usize>, i: int) -> int {
    if i < out.len() {
        out[i] as int
    } else {
        0
    }
}

/// The velocity a genome asks for at `p`: the first two values it writes
/// when fed the quantised coordinates, or `None` when it does not terminate.
pub open spec fn move_of(code: Seq<Instruction>, p: Position) -> Option<Velocity> {
    let o = outcome(code, seq![unit_of(p.x as int) as usize, unit_of(p.y as int) as usize]);
    if o.0 {
        Some(
            Velocity {
                x: (output_or_zero(o.1.output, 0) * BASE_UNIT) as i128,
                y: (output_or_zero(o.1.output, 1) * BASE_UNIT) as i128,
            },
        )
    } else {
        None
    }
}

/// The opcode a tag stands for; a tag past the last opcode counts as `Halt`.
pub open spec fn tag_instruction(tag: int) -> Instruction {
    match instruction_of(tag) {
        Some(inst) => inst,
        None => Instruction::Halt,
    }
}

/// `code` with each `(position, tag)` of `picks` written in turn.
pub open spec fn mutated(code: Seq<Instruction>, picks: Seq<(usize, usize)>) -> Seq<Instruction>
    decreases picks.len(),
{
    if picks.len() == 0 {
        code
    } else {
        mutated(code, picks.drop_last()).update(
            picks.last().0 as int,
            tag_instruction(picks.last().1 as int),
        )
    }
}

/// Every pick names a position of a genome of length `len` and an opcode tag.
pub open spec fn picks_fit(picks: Seq<(usize, usize)>, len: int) -> bool {
    forall|i: int|
        0 <= i < picks.len() ==> (#[trigger] picks[i]).0 < len && picks[i].1 < Instruction::COUNT
}

/// `b` arises from `a` by one to `MUTATION_BOUND - 1` point mutations; an
/// empty genome has no position to mutate and stays as it is.
pub open spec fn is_mutant(a: Seq<Instruction>, b: Seq<Instruction>) -> bool {
    if a.len() == 0 {
        b == a
    } else {
        exists|picks: Seq<(usize, usize)>|
            0 < picks.len() < MUTATION_BOUND && picks_fit(picks, a.len() as int) && #[trigger] mutated(
                a,
                picks,
            ) == b
    }
}

/// The opcode with the given tag, `Halt` past the last one.
fn instruction_for_tag(tag: usize) -> (r: Instruction)
    ensures
        r == tag_instruction(tag as int),
{
    match Instruction::from_tag(tag) {
        Some(inst) => inst,
        None => Instruction::Halt,
    }
}

/// Point mutations keep the length of a genome.
pub proof fn lemma_mutated_len(code: Seq<Instruction>, picks: Seq<(usize, usize)>)
    requires
        picks_fit(picks, code.len() as int),
    ensures
        mutated(code, picks).len() == code.len(),
    decreases picks.len(),
{
    if picks.len() > 0 {
        let rest = picks.drop_last();
        assert forall|i: int| 0 <= i < rest.len() implies (#[trigger] rest[i]).0 < code.len() && rest[i].1
            < Instruction::COUNT by {
            assert(rest[i] == picks[i]);
        }
        lemma_mutated_len(code, rest);
    }
}

/// A mutant has the length of the genome it came from.
pub proof fn lemma_mutant_same_length(a: Seq<Instruction>, b: Seq<Instruction>)
    requires
        is_mutant(a, b),
    ensures
        a.len() == b.len(),
{
    if a.len() > 0 {
        let picks = choose|picks: Seq<(usize, usize)>|
            0 < picks.len() < MUTATION_BOUND && picks_fit(picks, a.len() as int) && #[trigger] mutated(
                a,
                picks,
            ) == b;
        lemma_mutated_len(a, picks);
    }
}

impl DNA {
    pub closed spec fn code(&self) -> Seq<Instruction> {
        self.code@
    }

    /// A genome of `GENOME_LEN` uniformly drawn opcodes.
    pub fn generate() -> (r: DNA)
        ensures
            r.code().len() == GENOME_LEN,
    {
        let mut tags: Vec<usize> = Vec::new();
        let mut i: usize = 0;
        while i < GENOME_LEN
            invariant
                i <= GENOME_LEN,
                tags@.len() == i,
                forall|k: int| 0 <= k < i ==> tags@[k] < Instruction::COUNT,
            decreases GENOME_LEN - i,
        {
            tags.push(random_below(Instruction::COUNT));
            i = i + 1;
        }
        Self::from_tags(&tags)
    }

    /// The genome whose opcodes have the given tags, in order.
    pub fn from_tags(tags: &Vec<usize>) -> (r: DNA)
        requires
            forall|i: int| 0 <= i < tags@.len() ==> tags@[i] < Instruction::COUNT,
        ensures
            r.code().len() == tags@.len(),
            forall|i: int|
                0 <= i < tags@.len() ==> Some(#[trigger] r.code()[i]) == instruction_of(tags@[i] as int),
    {
        let mut code: Vec<Instruction> = Vec::new();
        let mut i: usize = 0;
        while i < tags.len()
            invariant
                i <= tags@.len(),
                code@.len() == i,
                forall|k: int| 0 <= k < tags@.len() ==> tags@[k] < Instruction::COUNT,
                forall|k: int|
                    0 <= k < i ==> Some(#[trigger] code@[k]) == instruction_of(tags@[k] as int),
            decreases tags@.len() - i,
        {
            code.push(instruction_for_tag(tags[i]));
            i = i + 1;
        }
        DNA { code }
    }

    /// A genome with the given instructions.
    pub fn from_code(code: Vec<Instruction>) -> (r: DNA)
        ensures
            r.code() == code@,
    {
        DNA { code }
    }

    /// The genome's instructions.
    pub fn instructions(&self) -> (r: &[Instruction])
        ensures
            r@ == self.code(),
    {
        self.code.as_slice()
    }

    /// Runs the genome on the quantised position and reads the velocity off
    /// its first two outputs; `NonTerminating` marks a non-viable genome.
    pub fn move_behaivor(&self, position: Position) -> (r: Result<Velocity, NonTerminating>)
        ensures
            match r {
                Ok(v) => move_of(self.code(), position) == Some(v),
                Err(_) => move_of(self.code(), position).is_none(),
            },
    {
        let (x, y) = convert_vec2_to_unit(position);
        let input: Vec<usize> = vec![x, y];
        assert(input@ == seq![x, y]);
        match run(self.code.as_slice(), input.as_slice()) {
            Ok(output) => {
                let vx = if output.len() > 0 {
                    convert_from_unit(output[0])
                } else {
                    0
                };
                let vy = if output.len() > 1 {
                    convert_from_unit(output[1])
                } else {
                    0
                };
                Ok(Velocity { x: vx, y: vy })
            },
            Err(e) => Err(e),
        }
    }

    /// Life, in thousandths, that carrying this genome costs per turn.
    pub fn time_cost(&self) -> (r: i64)
        ensures
            r == TIME_COST,
    {
        TIME_COST
    }

    /// Writes each `(position, tag)` of `picks` in turn: the opcode with
    /// that tag goes to that position.
    pub fn apply_mutations(&mut self, picks: &Vec<(usize, usize)>)
        requires
            picks_fit(picks@, old(self).code().len() as int),
        ensures
            final(self).code() == mutated(old(self).code(), picks@),
    {
        let mut i: usize = 0;
        assert(picks@.subrange(0, 0) =~= Seq::<(usize, usize)>::empty());
        while i < picks.len()
            invariant
                i <= picks@.len(),
                picks_fit(picks@, old(self).code().len() as int),
                self.code@.len() == old(self).code().len(),
                self.code@ == mutated(old(self).code(), picks@.subrange(0, i as int)),
            decreases picks@.len() - i,
        {
            let (idx, tag) = picks[i];
            assert(picks@[i as int].0 < old(self).code().len());
            let inst = instruction_for_tag(tag);
            self.code.set(idx, inst);
            proof {
                let pre = picks@.subrange(0, i as int + 1);
                assert(pre.drop_last() =~= picks@.subrange(0, i as int));
                assert(pre.last() == picks@[i as int]);
            }
            i = i + 1;
        }
        assert(picks@.subrange(0, picks@.len() as int) =~= picks@);
    }

    /// Overwrites one to `MUTATION_BOUND - 1` random positions, the number
    /// drawn uniformly, with uniformly drawn opcodes.
    pub fn mutate(&mut self)
        ensures
            is_mutant(old(self).code(), final(self).code()),
            final(self).code().len() == old(self).code().len(),
    {
        let len = self.code.len();
        if len == 0 {
            return;
        }
        let count = 1 + random_below(MUTATION_BOUND - 1);
        let mut picks: Vec<(usize, usize)> = Vec::new();
        let mut n: usize = 0;
        while n < count
            invariant
                n <= count < MUTATION_BOUND,
                0 < len,
                len == old(self).code().len(),
                picks@.len() == n,
                picks_fit(picks@, len as int),
            decreases count - n,
        {
            let idx = random_below(len);
            let tag = random_below(Instruction::COUNT);
            picks.push((idx, tag));
            n = n + 1;
        }
        self.apply_mutations(&picks);
        proof {
            lemma_mutated_len(old(self).code(), picks@);
            assert(mutated(old(self).code(), picks@) == self.code());
        }
    }

    /// A copy of this genome with point mutations: the only way a genome with
    /// a lineage arises.
    pub fn duplicate(&self) -> (r: DNA)
        ensures
            is_mutant(self.code(), r.code()),
            r.code().len() == self.code().len(),
    {
        let mut code: Vec<Instruction> = Vec::new();
        let mut i: usize = 0;
        while i < self.code.len()
            invariant
                i <= self.code@.len(),
                code@ == self.code@.subrange(0, i as int),
            decreases self.code@.len() - i,
        {
            code.push(self.code[i]);
            i = i + 1;
        }
        assert(code@ == self.code@);
        let mut new_dna = DNA { code };
        new_dna.mutate();
        new_dna
    }
}

} // verus!
