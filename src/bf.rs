//! The genetic virtual machine: a circular tape of cells, an instruction set of
//! nine opcodes and an interpreter that runs under a fixed execution budget.

use vstd::prelude::*;

verus! {

/// Number of cells on the tape of every run.
pub const TAPE_LEN: usize = 8196;

/// Number of instructions a run may execute before it is declared non-terminating.
pub const FUEL: usize = 100000;

#[derive(Clone, Copy, Debug, PartialEq, Eq, Structural)]
pub enum Instruction {
    /// `<`
    DecPtr,
    /// `>`
    IncPtr,
    /// `-`
    DecVal,
    /// `+`
    IncVal,
    /// `.`
    Write,
    /// `,`
    Read,
    /// `[`
    JumpLeft,
    /// `]`
    JumpRight,
    /// `@`
    Halt,
}

/// The run used up its whole budget without reaching the end of the code.
#[derive(Clone, Copy, Debug, PartialEq, Eq, Structural)]
pub struct NonTerminating;

/// The opcode with the given tag, tags numbering the opcodes in declaration order.
pub open spec fn instruction_of(tag: int) -> Option<Instruction> {
    if tag == 0 {
        Some(Instruction::DecPtr)
    } else if tag == 1 {
        Some(Instruction::IncPtr)
    } else if tag == 2 {
        Some(Instruction::DecVal)
    } else if tag == 3 {
        Some(Instruction::IncVal)
    } else if tag == 4 {
        Some(Instruction::Write)
    } else if tag == 5 {
        Some(Instruction::Read)
    } else if tag == 6 {
        Some(Instruction::JumpLeft)
    } else if tag == 7 {
        Some(Instruction::JumpRight)
    } else if tag == 8 {
        Some(Instruction::Halt)
    } else {
        None
    }
}

impl Instruction {
    /// Number of distinct opcodes.
    pub const COUNT: usize = 9;

    pub fn from_tag(tag: usize) -> (r: Option<Instruction>)
        ensures
            r == instruction_of(tag as int),
    {
        match tag {
            0 => Some(Instruction::DecPtr),
            1 => Some(Instruction::IncPtr),
            2 => Some(Instruction::DecVal),
            3 => Some(Instruction::IncVal),
            4 => Some(Instruction::Write),
            5 => Some(Instruction::Read),
            6 => Some(Instruction::JumpLeft),
            7 => Some(Instruction::JumpRight),
            8 => Some(Instruction::Halt),
            _ => None,
        }
    }
}

/// How an instruction changes the bracket nesting depth.
pub open spec fn nesting(i: Instruction) -> int {
    match i {
        Instruction::JumpLeft => 1,
        Instruction::JumpRight => -1,
        _ => 0,
    }
}

/// Opening brackets minus closing brackets in `code[lo..hi]`.
pub open spec fn net(code: Seq<Instruction>, lo: int, hi: int) -> int
    decreases hi - lo,
{
    if hi <= lo {
        0
    } else {
        net(code, lo, hi - 1) + nesting(code[hi - 1])
    }
}

/// `j` holds the `]` that closes a bracket opened just before `from`.
pub open spec fn closes(code: Seq<Instruction>, from: int, j: int) -> bool {
    &&& from <= j < code.len()
    &&& net(code, from, j + 1) == -1
    &&& forall|k: int| from <= k <= j ==> #[trigger] net(code, from, k) >= 0
}

/// `j` holds the `[` that opens a bracket closed at `to`.
pub open spec fn opens(code: Seq<Instruction>, to: int, j: int) -> bool {
    &&& 0 <= j < to
    &&& net(code, j, to) == 1
    &&& forall|k: int| j < k < to ==> net(code, k, to) <= 0
}

/// Where a `[` whose cell is zero sends the program counter, given the counter
/// already past the `[`: just after its matching `]`, or the end of the code.
pub open spec fn skip_target(code: Seq<Instruction>, pc: int) -> int {
    if exists|j: int| #[trigger] closes(code, pc, j) {
        (choose|j: int| #[trigger] closes(code, pc, j)) + 1
    } else {
        code.len() as int
    }
}

/// Where a `]` whose cell is nonzero sends the program counter, given the
/// counter already past the `]`: just after its matching `[`, or position 0.
pub open spec fn loop_target(code: Seq<Instruction>, pc: int) -> int {
    if pc >= 1 && exists|j: int| #[trigger] opens(code, pc - 1, j) {
        (choose|j: int| #[trigger] opens(code, pc - 1, j)) + 1
    } else {
        0
    }
}

proof fn lemma_net_step(code: Seq<Instruction>, lo: int, hi: int)
    requires
        lo < hi,
    ensures
        net(code, lo, hi) == nesting(code[lo]) + net(code, lo + 1, hi),
    decreases hi - lo,
{
    if hi - 1 > lo {
        assert(net(code, lo + 1, hi) == net(code, lo + 1, hi - 1) + nesting(code[hi - 1]));
        lemma_net_step(code, lo, hi - 1);
    } else {
        assert(net(code, lo, hi - 1) == 0);
    }
}

proof fn lemma_closes_unique(code: Seq<Instruction>, from: int, a: int, b: int)
    requires
        closes(code, from, a),
        closes(code, from, b),
    ensures
        a == b,
{
    if a < b {
        assert(net(code, from, a + 1) >= 0);
    } else if b < a {
        assert(net(code, from, b + 1) >= 0);
    }
}

proof fn lemma_opens_unique(code: Seq<Instruction>, to: int, a: int, b: int)
    requires
        opens(code, to, a),
        opens(code, to, b),
    ensures
        a == b,
{
    if a < b {
        assert(net(code, b, to) <= 0);
    } else if b < a {
        assert(net(code, a, to) <= 0);
    }
}

/// Finds the `]` that closes a bracket opened just before `from`.
fn find_closing(code: &[Instruction], from: usize) -> (r: Option<usize>)
    requires
        from <= code@.len(),
    ensures
        match r {
            Some(j) => closes(code@, from as int, j as int),
            None => !exists|j: int| #[trigger] closes(code@, from as int, j),
        },
{
    let mut k: usize = from;
    let mut depth: usize = 0;
    while k < code.len()
        invariant
            from <= k <= code@.len(),
            depth as int == net(code@, from as int, k as int),
            depth <= k - from,
            forall|m: int| from <= m <= k ==> #[trigger] net(code@, from as int, m) >= 0,
        decreases code@.len() - k,
    {
        match code[k] {
            Instruction::JumpLeft => {
                depth = depth + 1;
            },
            Instruction::JumpRight => {
                if depth == 0 {
                    return Some(k);
                }
                depth = depth - 1;
            },
            _ => {},
        }
        k = k + 1;
    }
    proof {
        assert forall|j: int| !closes(code@, from as int, j) by {
            if closes(code@, from as int, j) {
                assert(net(code@, from as int, j + 1) >= 0);
            }
        }
    }
    None
}

/// Finds the `[` that opens the bracket closed at `to`.
fn find_opening(code: &[Instruction], to: usize) -> (r: Option<usize>)
    requires
        to <= code@.len(),
    ensures
        match r {
            Some(j) => opens(code@, to as int, j as int),
            None => !exists|j: int| #[trigger] opens(code@, to as int, j),
        },
{
    let mut k: usize = to;
    let mut depth: usize = 0;
    while k > 0
        invariant
            k <= to <= code@.len(),
            -(depth as int) == net(code@, k as int, to as int),
            depth <= to - k,
            forall|m: int| k <= m < to ==> net(code@, m, to as int) <= 0,
        decreases k,
    {
        proof {
            lemma_net_step(code@, k - 1, to as int);
        }
        match code[k - 1] {
            Instruction::JumpRight => {
                depth = depth + 1;
            },
            Instruction::JumpLeft => {
                if depth == 0 {
                    return Some(k - 1);
                }
                depth = depth - 1;
            },
            _ => {},
        }
        k = k - 1;
    }
    proof {
        assert forall|j: int| !opens(code@, to as int, j) by {
            if opens(code@, to as int, j) {
                assert(net(code@, j, to as int) <= 0);
            }
        }
    }
    None
}

/// Successor of a cell value, wrapping at the top of the range.
pub open spec fn wrap_inc(v: usize) -> usize {
    if v == usize::MAX {
        0
    } else {
        (v + 1) as usize
    }
}

/// Predecessor of a cell value, wrapping at zero.
pub open spec fn wrap_dec(v: usize) -> usize {
    if v == 0 {
        usize::MAX
    } else {
        (v - 1) as usize
    }
}

/// A circular row of cells with one read/write head.
pub struct Tape {
    ptr: usize,
    bytes: Vec<usize>,
}

impl Tape {
    pub closed spec fn cells(&self) -> Seq<usize> {
        self.bytes@
    }

    pub closed spec fn ptr(&self) -> int {
        self.ptr as int
    }

    /// The head stands on a cell.
    pub closed spec fn wf(&self) -> bool {
        self.ptr < self.bytes@.len()
    }

    pub fn new(size: usize) -> (r: Tape)
        requires
            size > 0,
        ensures
            r.wf(),
            r.ptr() == 0,
            r.cells() == Seq::new(size as nat, |_i: int| 0usize),
    {
        let mut bytes: Vec<usize> = Vec::new();
        let mut i: usize = 0;
        while i < size
            invariant
                i <= size,
                bytes@ == Seq::new(i as nat, |_i: int| 0usize),
            decreases size - i,
        {
            bytes.push(0);
            i = i + 1;
        }
        Tape { ptr: 0, bytes }
    }

    pub fn inc_ptr(&mut self)
        requires
            old(self).wf(),
        ensures
            final(self).wf(),
            final(self).cells() == old(self).cells(),
            final(self).ptr() == if old(self).ptr() + 1 == old(self).cells().len() {
                0
            } else {
                old(self).ptr() + 1
            },
    {
        if self.ptr == self.bytes.len() - 1 {
            self.ptr = 0;
        } else {
            self.ptr = self.ptr + 1;
        }
    }

    pub fn dec_ptr(&mut self)
        requires
            old(self).wf(),
        ensures
            final(self).wf(),
            final(self).cells() == old(self).cells(),
            final(self).ptr() == if old(self).ptr() == 0 {
                old(self).cells().len() - 1
            } else {
                old(self).ptr() - 1
            },
    {
        if self.ptr == 0 {
            self.ptr = self.bytes.len() - 1;
        } else {
            self.ptr = self.ptr - 1;
        }
    }

    pub fn inc_val(&mut self)
        requires
            old(self).wf(),
        ensures
            final(self).wf(),
            final(self).ptr() == old(self).ptr(),
            final(self).cells() == old(self).cells().update(
                old(self).ptr(),
                wrap_inc(old(self).cells()[old(self).ptr()]),
            ),
    {
        let v = self.bytes[self.ptr];
        let w = if v == usize::MAX {
            0
        } else {
            v + 1
        };
        self.bytes.set(self.ptr, w);
    }

    pub fn dec_val(&mut self)
        requires
            old(self).wf(),
        ensures
            final(self).wf(),
            final(self).ptr() == old(self).ptr(),
            final(self).cells() == old(self).cells().update(
                old(self).ptr(),
                wrap_dec(old(self).cells()[old(self).ptr()]),
            ),
    {
        let v = self.bytes[self.ptr];
        let w = if v == 0 {
            usize::MAX
        } else {
            v - 1
        };
        self.bytes.set(self.ptr, w);
    }

    pub fn set_val(&mut self, val: usize)
        requires
            old(self).wf(),
        ensures
            final(self).wf(),
            final(self).ptr() == old(self).ptr(),
            final(self).cells() == old(self).cells().update(old(self).ptr(), val),
    {
        self.bytes.set(self.ptr, val);
    }

    pub fn val(&self) -> (r: usize)
        requires
            self.wf(),
        ensures
            r == self.cells()[self.ptr()],
    {
        self.bytes[self.ptr]
    }
}

/// Everything a run can change: program counter, remaining fuel, tape, how
/// much input has been read and what has been written.
pub struct VmState {
    pub pc: int,
    pub fuel: nat,
    pub cells: Seq<usize>,
    pub ptr: int,
    pub read: int,
    pub output: Seq<usize>,
}

/// The state a run starts from: a zeroed tape of `tape_len` cells.
pub open spec fn initial_state(tape_len: nat, fuel: nat) -> VmState {
    VmState {
        pc: 0,
        fuel: fuel,
        cells: Seq::new(tape_len, |_i: int| 0usize),
        ptr: 0,
        read: 0,
        output: Seq::empty(),
    }
}

/// The effect of executing `inst`, the program counter already past it.
pub open spec fn exec_inst(
    code: Seq<Instruction>,
    input: Seq<usize>,
    s: VmState,
    inst: Instruction,
) -> VmState {
    match inst {
        Instruction::DecPtr => VmState {
            ptr: if s.ptr == 0 {
                s.cells.len() - 1
            } else {
                s.ptr - 1
            },
            ..s
        },
        Instruction::IncPtr => VmState {
            ptr: if s.ptr + 1 == s.cells.len() {
                0
            } else {
                s.ptr + 1
            },
            ..s
        },
        Instruction::DecVal => VmState { cells: s.cells.update(s.ptr, wrap_dec(s.cells[s.ptr])), ..s },
        Instruction::IncVal => VmState { cells: s.cells.update(s.ptr, wrap_inc(s.cells[s.ptr])), ..s },
        Instruction::Write => VmState { output: s.output.push(s.cells[s.ptr]), ..s },
        Instruction::Read => if s.read < input.len() {
            VmState { cells: s.cells.update(s.ptr, input[s.read]), read: s.read + 1, ..s }
        } else {
            VmState { cells: s.cells.update(s.ptr, 0usize), ..s }
        },
        Instruction::JumpLeft => if s.cells[s.ptr] == 0 {
            VmState { pc: skip_target(code, s.pc), ..s }
        } else {
            s
        },
        Instruction::JumpRight => if s.cells[s.ptr] != 0 {
            VmState { pc: loop_target(code, s.pc), ..s }
        } else {
            s
        },
        Instruction::Halt => VmState { pc: code.len() as int, ..s },
    }
}

/// One step: fetch the instruction at the program counter, spend one unit
/// of fuel, advance the counter and execute the instruction.
pub open spec fn step(code: Seq<Instruction>, input: Seq<usize>, s: VmState) -> VmState {
    exec_inst(
        code,
        input,
        VmState { pc: s.pc + 1, fuel: (s.fuel - 1) as nat, ..s },
        code[s.pc],
    )
}

/// Runs from `s` until the counter leaves the code (`true`) or the fuel is
/// spent with code left to run (`false`), with the state at that point.
pub open spec fn run_from(code: Seq<Instruction>, input: Seq<usize>, s: VmState) -> (bool, VmState)
    decreases s.fuel,
{
    if s.pc < 0 || s.pc >= code.len() {
        (true, s)
    } else if s.fuel == 0 {
        (false, s)
    } else {
        run_from(code, input, step(code, input, s))
    }
}

/// The outcome of running `code` on `input` with the standard tape and budget.
pub open spec fn outcome(code: Seq<Instruction>, input: Seq<usize>) -> (bool, VmState) {
    run_from(code, input, initial_state(TAPE_LEN as nat, FUEL as nat))
}

/// One execution of a code sequence against an input buffer.
pub struct Interpreter<'a> {
    dead_count: usize,
    pc: usize,
    code: &'a [Instruction],
    tape: Tape,
    input: &'a [usize],
    read: usize,
    output: Vec<usize>,
}

impl<'a> Interpreter<'a> {
    pub closed spec fn code(&self) -> Seq<Instruction> {
        self.code@
    }

    pub closed spec fn input(&self) -> Seq<usize> {
        self.input@
    }

    pub closed spec fn state(&self) -> VmState {
        VmState {
            pc: self.pc as int,
            fuel: self.dead_count as nat,
            cells: self.tape.cells(),
            ptr: self.tape.ptr(),
            read: self.read as int,
            output: self.output@,
        }
    }

    pub closed spec fn wf(&self) -> bool {
        &&& self.tape.wf()
        &&& self.pc <= self.code@.len()
        &&& self.read <= self.input@.len()
    }

    /// An interpreter with the standard tape and execution budget.
    pub fn new(code: &'a [Instruction], input: &'a [usize]) -> (r: Interpreter<'a>)
        ensures
            r.wf(),
            r.code() == code@,
            r.input() == input@,
            r.state() == initial_state(TAPE_LEN as nat, FUEL as nat),
    {
        Self::with_limits(code, input, FUEL, TAPE_LEN)
    }

    /// An interpreter with a budget of `fuel` instructions and `tape_len` cells.
    pub fn with_limits(code: &'a [Instruction], input: &'a [usize], fuel: usize, tape_len: usize) -> (r:
        Interpreter<'a>)
        requires
            tape_len > 0,
        ensures
            r.wf(),
            r.code() == code@,
            r.input() == input@,
            r.state() == initial_state(tape_len as nat, fuel as nat),
    {
        let r = Interpreter {
            dead_count: fuel,
            pc: 0,
            code,
            tape: Tape::new(tape_len),
            input,
            read: 0,
            output: Vec::new(),
        };
        assert(r.output@ == Seq::<usize>::empty());
        r
    }

    /// Executes `inst`, the program counter already past it.
    pub fn run_inst(&mut self, inst: Instruction)
        requires
            old(self).wf(),
        ensures
            final(self).wf(),
            final(self).code() == old(self).code(),
            final(self).input() == old(self).input(),
            final(self).state() == exec_inst(old(self).code(), old(self).input(), old(self).state(), inst),
    {
        match inst {
            Instruction::DecPtr => self.tape.dec_ptr(),
            Instruction::IncPtr => self.tape.inc_ptr(),
            Instruction::DecVal => self.tape.dec_val(),
            Instruction::IncVal => self.tape.inc_val(),
            Instruction::Write => {
                let v = self.tape.val();
                self.output.push(v);
            },
            Instruction::Read => {
                if self.read < self.input.len() {
                    let v = self.input[self.read];
                    self.tape.set_val(v);
                    self.read = self.read + 1;
                } else {
                    self.tape.set_val(0);
                }
            },
            Instruction::JumpLeft => {
                if self.tape.val() == 0 {
                    let n = self.code.len();
                    match find_closing(self.code, self.pc) {
                        Some(j) => {
                            proof {
                                lemma_closes_unique(self.code@, self.pc as int, j as int,
                                    choose|k: int| #[trigger] closes(self.code@, self.pc as int, k));
                            }
                            assert(j < n);
                            self.pc = j + 1;
                        },
                        None => {
                            self.pc = self.code.len();
                        },
                    }
                }
            },
            Instruction::JumpRight => {
                if self.tape.val() != 0 {
                    if self.pc == 0 {
                        self.pc = 0;
                    } else {
                        match find_opening(self.code, self.pc - 1) {
                            Some(j) => {
                                proof {
                                    lemma_opens_unique(self.code@, self.pc - 1, j as int,
                                        choose|k: int| #[trigger] opens(self.code@, self.pc - 1, k));
                                }
                                self.pc = j + 1;
                            },
                            None => {
                                self.pc = 0;
                            },
                        }
                    }
                }
            },
            Instruction::Halt => {
                self.pc = self.code.len();
            },
        }
    }

    /// Runs until the code ends (`true`) or the budget is spent (`false`).
    pub fn run(&mut self) -> (r: bool)
        requires
            old(self).wf(),
        ensures
            final(self).wf(),
            final(self).code() == old(self).code(),
            final(self).input() == old(self).input(),
            (r, final(self).state()) == run_from(old(self).code(), old(self).input(), old(self).state()),
    {
        while self.pc < self.code.len()
            invariant
                self.wf(),
                self.code() == old(self).code(),
                self.input() == old(self).input(),
                run_from(self.code(), self.input(), self.state()) == run_from(
                    old(self).code(),
                    old(self).input(),
                    old(self).state(),
                ),
            decreases self.dead_count,
        {
            if self.dead_count == 0 {
                return false;
            }
            let inst = self.code[self.pc];
            self.dead_count = self.dead_count - 1;
            self.pc = self.pc + 1;
            self.run_inst(inst);
        }
        true
    }

    /// What the run has written so far.
    pub fn into_output(self) -> (r: Vec<usize>)
        ensures
            r@ == self.state().output,
    {
        self.output
    }

    /// The value of the cell under the head.
    pub fn current_value(&self) -> (r: usize)
        requires
            self.wf(),
        ensures
            r == self.state().cells[self.state().ptr],
    {
        self.tape.val()
    }

    /// Instructions the run may still execute.
    pub fn remaining_fuel(&self) -> (r: usize)
        ensures
            r == self.state().fuel,
    {
        self.dead_count
    }
}

/// Runs `code` on `input` with the standard tape and budget: the written
/// values, or `NonTerminating` when the budget runs out first.
pub fn run(code: &[Instruction], input: &[usize]) -> (r: Result<Vec<usize>, NonTerminating>)
    ensures
        match r {
            Ok(out) => outcome(code@, input@).0 && out@ == outcome(code@, input@).1.output,
            Err(_) => !outcome(code@, input@).0,
        },
{
    let mut interpreter = Interpreter::new(code, input);
    if !interpreter.run() {
        Err(NonTerminating)
    } else {
        Ok(interpreter.into_output())
    }
}

/// Every run stops within its budget: it ends having spent at most the fuel
/// it started with, and it reports non-termination only when all of it is
/// spent with code left to run.
pub proof fn lemma_run_bounded(code: Seq<Instruction>, input: Seq<usize>, s: VmState)
    ensures
        run_from(code, input, s).1.fuel <= s.fuel,
        run_from(code, input, s).0 <==> !(0 <= run_from(code, input, s).1.pc < code.len()),
        !run_from(code, input, s).0 ==> run_from(code, input, s).1.fuel == 0,
    decreases s.fuel,
{
    if s.pc < 0 || s.pc >= code.len() {
    } else if s.fuel == 0 {
    } else {
        let t = step(code, input, s);
        assert(t.fuel == s.fuel - 1);
        lemma_run_bounded(code, input, t);
    }
}

/// A `[` met with a zero cell skips its loop: the next instruction is the one
/// after the matching `]`, and tape, input and output are untouched.
pub proof fn lemma_zero_cell_skips_loop(code: Seq<Instruction>, input: Seq<usize>, s: VmState, j: int)
    requires
        0 <= s.pc < code.len(),
        s.fuel > 0,
        code[s.pc] == Instruction::JumpLeft,
        0 <= s.ptr < s.cells.len(),
        s.cells[s.ptr] == 0,
        closes(code, s.pc + 1, j),
    ensures
        step(code, input, s) == (VmState { pc: j + 1, fuel: (s.fuel - 1) as nat, ..s }),
{
    let k = choose|k: int| #[trigger] closes(code, s.pc + 1, k);
    lemma_closes_unique(code, s.pc + 1, j, k);
}

/// `] + [` entered with a nonzero cell loops on its first instruction until
/// the budget is gone: the run reports non-termination with every unit of
/// fuel spent and nothing else changed.
pub proof fn lemma_unconditional_loop_spends_budget(input: Seq<usize>, s: VmState)
    requires
        s.pc == 0,
        0 <= s.ptr < s.cells.len(),
        s.cells[s.ptr] != 0,
    ensures
        run_from(
            seq![Instruction::JumpRight, Instruction::IncVal, Instruction::JumpLeft],
            input,
            s,
        ) == (false, VmState { fuel: 0, ..s }),
    decreases s.fuel,
{
    let code = seq![Instruction::JumpRight, Instruction::IncVal, Instruction::JumpLeft];
    if s.fuel > 0 {
        assert(!exists|j: int| #[trigger] opens(code, 0, j));
        let t = step(code, input, s);
        assert(t == VmState { fuel: (s.fuel - 1) as nat, ..s });
        lemma_unconditional_loop_spends_budget(input, t);
    }
}

} // verus!
