use natural_selection::bf::Instruction;
use natural_selection::dna::{DNA, GENOME_LEN, MUTATION_BOUND, TIME_COST};
use natural_selection::units::{Position, Velocity};

use Instruction::{IncPtr, IncVal, JumpRight, Read, Write};

fn differences(a: &[Instruction], b: &[Instruction]) -> usize {
    a.iter().zip(b.iter()).filter(|(x, y)| x != y).count()
}

#[test]
fn generated_genome_has_standard_length() {
    let dna = DNA::generate();
    assert_eq!(dna.instructions().len(), GENOME_LEN);
}

#[test]
fn duplicate_keeps_length_and_mutates_few_positions() {
    let parent = DNA::generate();
    let mut changed = 0;
    let trials = 2000;
    for _ in 0..trials {
        let child = parent.duplicate();
        assert_eq!(child.instructions().len(), parent.instructions().len());
        let d = differences(parent.instructions(), child.instructions());
        assert!(d < MUTATION_BOUND);
        assert!(d <= 4);
        if d > 0 {
            changed += 1;
        }
    }
    // every copy draws at least one mutation; only when each fresh opcode
    // equals the one it replaces does a copy match its parent
    assert!(changed > trials * 9 / 10, "{} of {} copies differ", changed, trials);
}

#[test]
fn mutate_keeps_length() {
    let mut dna = DNA::from_code(vec![IncVal; 5]);
    for _ in 0..100 {
        dna.mutate();
        assert_eq!(dna.instructions().len(), 5);
    }
}

#[test]
fn move_behaviour_reads_quantised_position() {
    let dna = DNA::from_code(vec![Read, Write, IncPtr, Read, Write]);
    let v = dna.move_behaivor(Position { x: 1000, y: 2499 });
    assert_eq!(v, Ok(Velocity { x: 1000, y: 2000 }));
    let v = dna.move_behaivor(Position { x: -3000, y: 499 });
    assert_eq!(v, Ok(Velocity { x: 0, y: 0 }));
}

#[test]
fn move_behaviour_defaults_missing_outputs() {
    let dna = DNA::from_code(vec![IncVal, Write]);
    assert_eq!(dna.move_behaivor(Position { x: 0, y: 0 }), Ok(Velocity { x: 500, y: 0 }));
}

#[test]
fn non_terminating_genome_is_reported() {
    let dna = DNA::from_code(vec![IncVal, JumpRight]);
    assert!(dna.move_behaivor(Position { x: 0, y: 0 }).is_err());
}

#[test]
fn time_cost_is_half_a_unit() {
    assert_eq!(DNA::generate().time_cost(), TIME_COST);
    assert_eq!(TIME_COST, 500);
}

#[test]
fn tags_map_to_opcodes_in_order() {
    let dna = DNA::from_tags(&vec![3, 4, 0, 8, 6, 7]);
    assert_eq!(
        dna.instructions(),
        &[IncVal, Write, Instruction::DecPtr, Instruction::Halt, Instruction::JumpLeft, JumpRight]
    );
}

#[test]
fn mutations_are_written_in_order() {
    let mut dna = DNA::from_code(vec![IncVal; 5]);
    dna.apply_mutations(&vec![(1, 4), (3, 5), (1, 7)]);
    assert_eq!(dna.instructions(), &[IncVal, JumpRight, IncVal, Read, IncVal]);
    dna.apply_mutations(&vec![]);
    assert_eq!(dna.instructions(), &[IncVal, JumpRight, IncVal, Read, IncVal]);
}

#[test]
fn mutating_an_empty_genome_keeps_it_empty() {
    let mut dna = DNA::from_code(vec![]);
    dna.mutate();
    assert_eq!(dna.instructions().len(), 0);
}
