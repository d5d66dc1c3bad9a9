use natural_selection::bf::{run, Instruction, Interpreter, NonTerminating, Tape};
use natural_selection::bf::{FUEL, TAPE_LEN};
use natural_selection::dna::DNA;

use Instruction::{DecPtr, DecVal, Halt, IncPtr, IncVal, JumpLeft, JumpRight, Read, Write};

#[test]
fn run_test() {
    assert_eq!(run(&[Instruction::IncVal, Instruction::Write], &[]), Ok(vec![1]));
}

#[test]
fn increments_are_written() {
    assert_eq!(run(&[IncVal, Write], &[]), Ok(vec![1]));
    assert_eq!(run(&[IncVal, IncVal, Write], &[]), Ok(vec![2]));
}

#[test]
fn zero_cell_skips_loop_body() {
    assert_eq!(run(&[JumpLeft, IncVal, JumpRight], &[]), Ok(vec![]));
    let code = [JumpLeft, IncVal, JumpRight];
    let input: [usize; 0] = [];
    let mut interpreter = Interpreter::new(&code, &input);
    assert!(interpreter.run());
    assert_eq!(interpreter.current_value(), 0);
    assert_eq!(interpreter.remaining_fuel(), FUEL - 1);
}

#[test]
fn unconditional_loop_spends_whole_budget() {
    let code = [IncVal, JumpRight, IncVal, JumpLeft];
    let input: [usize; 0] = [];
    for fuel in [1usize, 7, 1000] {
        let mut interpreter = Interpreter::with_limits(&code, &input, fuel, 16);
        assert!(!interpreter.run());
        assert_eq!(interpreter.remaining_fuel(), 0);
    }
    assert_eq!(run(&code, &[]), Err(NonTerminating));
}

#[test]
fn loop_counts_down() {
    let code = [IncVal, IncVal, IncVal, JumpLeft, DecVal, Write, JumpRight];
    assert_eq!(run(&code, &[]), Ok(vec![2, 1, 0]));
}

#[test]
fn nested_loops_match_their_own_brackets() {
    // cell0 = 2; for each: cell1 += 2 via an inner loop over cell2
    let code = [
        IncVal, IncVal, JumpLeft, IncPtr, IncPtr, IncVal, IncVal, JumpLeft, DecPtr, IncVal,
        IncPtr, DecVal, JumpRight, DecPtr, DecPtr, DecVal, JumpRight, IncPtr, Write,
    ];
    assert_eq!(run(&code, &[]), Ok(vec![4]));
}

#[test]
fn unmatched_open_bracket_ends_program() {
    assert_eq!(run(&[JumpLeft, IncVal, Write], &[]), Ok(vec![]));
}

#[test]
fn unmatched_close_bracket_restarts_program() {
    assert_eq!(run(&[IncVal, Write, JumpRight], &[]), Err(NonTerminating));
}

#[test]
fn read_takes_input_then_zero() {
    let code = [Read, Write, Read, Write, Read, Write];
    assert_eq!(run(&code, &[7, 9]), Ok(vec![7, 9, 0]));
}

#[test]
fn halt_stops_execution() {
    assert_eq!(run(&[IncVal, Write, Halt, Write], &[]), Ok(vec![1]));
}

#[test]
fn cell_values_wrap() {
    assert_eq!(run(&[DecVal, Write], &[]), Ok(vec![usize::MAX]));
    assert_eq!(run(&[DecVal, IncVal, Write], &[]), Ok(vec![0]));
}

#[test]
fn pointer_wraps_around_tape() {
    // moving left from cell 0 lands on the last cell, distinct from cell 0
    let code = [DecPtr, IncVal, IncPtr, Write, DecPtr, Write];
    assert_eq!(run(&code, &[]), Ok(vec![0, 1]));
    assert!(TAPE_LEN > 1);
}

#[test]
fn tape_operations() {
    let mut tape = Tape::new(3);
    assert_eq!(tape.val(), 0);
    tape.dec_ptr();
    tape.set_val(5);
    assert_eq!(tape.val(), 5);
    tape.inc_ptr();
    assert_eq!(tape.val(), 0);
    tape.dec_val();
    assert_eq!(tape.val(), usize::MAX);
    tape.inc_val();
    tape.inc_val();
    assert_eq!(tape.val(), 1);
    tape.dec_ptr();
    assert_eq!(tape.val(), 5);
}

#[test]
fn interpreter_runs_instruction_by_instruction() {
    let code = [IncVal];
    let input = [3usize];
    let mut interpreter = Interpreter::new(&code, &input);
    interpreter.run_inst(IncVal);
    interpreter.run_inst(Write);
    interpreter.run_inst(Read);
    interpreter.run_inst(Write);
    assert_eq!(interpreter.into_output(), vec![1, 3]);
}

#[test]
fn random_genomes_always_finish() {
    for _ in 0..5 {
        let dna = DNA::generate();
        match run(dna.instructions(), &[3, 4]) {
            Ok(out) => assert!(out.len() <= FUEL),
            Err(e) => assert_eq!(e, NonTerminating),
        }
    }
}

#[test]
fn opcode_tags() {
    assert_eq!(Instruction::from_tag(0), Some(DecPtr));
    assert_eq!(Instruction::from_tag(8), Some(Halt));
    assert_eq!(Instruction::from_tag(9), None);
}
