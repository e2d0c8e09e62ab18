//! The intcode machine: memory image, control registers, and the
//! fetch-decode-execute cycle.
//!
//! The observable state of an [`Interpreter`] is abstracted by
//! [`MachineState`], and a single instruction's effect is defined by the
//! mathematical transition function [`spec_step`].  The executable
//! [`Interpreter::step`] is proved to follow `spec_step` exactly.

use std::collections::VecDeque;
use vstd::prelude::*;

verus! {

/// The value domain of the machine: every memory cell, input and output is a
/// signed 64-bit integer.
pub type VALUE = i64;

/// Everything that can go wrong while executing one instruction.
#[derive(Copy, Clone, Debug, PartialEq, Eq, Structural)]
pub enum InterpreterError {
    /// `step` was invoked after the program terminated; terminal and sticky.
    Terminated,
    /// The input instruction found an empty queue; retriable after the caller
    /// supplies a value.
    NoInputError,
    /// The decoded opcode is not in the recognized set.
    InvalidOpCode,
    /// Malformed addressing-mode digits, immediate mode on a write target, or
    /// a resolved address outside memory.
    InvalidParameters,
    /// A checked arithmetic instruction would leave the value domain.
    Overflow,
    /// A taken jump names a target outside memory.
    JumpOutOfBounds,
    /// The instruction pointer, or a parameter cell of the current
    /// instruction, lies outside memory.
    OutOfMemory,
}

/// The abstract state of an [`Interpreter`]: exactly what a driver can
/// observe through the machine's operations.
#[verifier::ext_equal]
pub ghost struct MachineState {
    /// The memory image, fixed in length after construction.
    pub code: Seq<VALUE>,
    /// Index of the next instruction.
    pub ip: nat,
    /// The base register used by relative addressing.
    pub relative_base: VALUE,
    /// Set once the halt instruction has executed; never cleared.
    pub finish: bool,
    /// Values waiting to be consumed by the input instruction, front first.
    pub input: Seq<VALUE>,
    /// The output produced by the most recent step, if any.
    pub last_output: Option<VALUE>,
}

/// Ten to the `k`-th power, used to pick decimal digits out of an
/// instruction word.
pub open spec fn pow10(k: nat) -> int
    decreases k,
{
    if k == 0 {
        1
    } else {
        10 * pow10((k - 1) as nat)
    }
}

/// Whether `op` (the low two decimal digits of an instruction word) names an
/// instruction of the machine.
pub open spec fn is_opcode(op: int) -> bool {
    op == 99 || 1 <= op <= 9
}

/// The fixed parameter count of each opcode.
pub open spec fn spec_num_params(op: int) -> nat {
    if op == 1 || op == 2 || op == 7 || op == 8 {
        3
    } else if op == 5 || op == 6 {
        2
    } else if op == 3 || op == 4 || op == 9 {
        1
    } else {
        0
    }
}

/// The parameter slot (0-indexed) that `op` writes through, if any: the last
/// slot of add, multiply, less-than and equals, and the sole slot of input.
pub open spec fn spec_write_slot(op: int) -> Option<nat> {
    if op == 1 || op == 2 || op == 7 || op == 8 {
        Some(2)
    } else if op == 3 {
        Some(0)
    } else {
        None
    }
}

/// The addressing-mode digit of parameter slot `k`: the decimal digit of the
/// instruction word at position `k + 2`.
pub open spec fn mode_digit(instr: int, k: nat) -> int {
    (instr / pow10(k + 2)) % 10
}

/// Every mode digit of the instruction's `np` parameter slots is one of the
/// three defined modes.
pub open spec fn modes_ok(instr: int, np: nat) -> bool {
    forall|k: nat| k < np ==> 0 <= #[trigger] mode_digit(instr, k) <= 2
}

/// The instruction word carries no digits beyond the mode digit of its last
/// parameter slot.
pub open spec fn no_excess_digits(instr: int, np: nat) -> bool {
    instr / pow10(np + 2) == 0
}

/// Immediate mode on the instruction's write slot, which is rejected: a
/// destination must be an address.
pub open spec fn immediate_write(instr: int, op: int) -> bool {
    match spec_write_slot(op) {
        Some(k) => mode_digit(instr, k) == 1,
        None => false,
    }
}

/// The memory address parameter slot `k` resolves to.  Position mode uses
/// the raw cell value as an address, immediate mode uses the cell itself,
/// and relative mode offsets the raw value by the base register.
pub open spec fn resolved_addr(m: MachineState, instr: int, k: nat) -> int {
    let raw = m.code[m.ip + 1 + k as int];
    let md = mode_digit(instr, k);
    if md == 0 {
        raw as int
    } else if md == 1 {
        m.ip + 1 + k as int
    } else {
        m.relative_base + raw
    }
}

/// All `np` resolved parameter addresses fall inside memory.
pub open spec fn addrs_ok(m: MachineState, instr: int, np: nat) -> bool {
    forall|k: nat| k < np ==> 0 <= #[trigger] resolved_addr(m, instr, k) < m.code.len()
}

/// Effect of add: `mem[a2] = mem[a0] + mem[a1]`, checked.
pub open spec fn spec_op_add(m: MachineState, a0: int, a1: int, a2: int) -> (MachineState, Option<
    InterpreterError,
>) {
    let sum = m.code[a0] + m.code[a1];
    if i64::MIN <= sum <= i64::MAX {
        (
            MachineState { code: m.code.update(a2, sum as VALUE), ip: (m.ip + 4) as nat, ..m },
            None,
        )
    } else {
        (m, Some(InterpreterError::Overflow))
    }
}

/// Effect of multiply: `mem[a2] = mem[a0] * mem[a1]`, checked.
pub open spec fn spec_op_mul(m: MachineState, a0: int, a1: int, a2: int) -> (MachineState, Option<
    InterpreterError,
>) {
    let product = m.code[a0] * m.code[a1];
    if i64::MIN <= product <= i64::MAX {
        (
            MachineState { code: m.code.update(a2, product as VALUE), ip: (m.ip + 4) as nat, ..m },
            None,
        )
    } else {
        (m, Some(InterpreterError::Overflow))
    }
}

/// Effect of input: pop the front of the queue into `mem[a0]`, or report
/// that input is missing, leaving the state untouched so the caller can
/// supply a value and retry.
pub open spec fn spec_op_in(m: MachineState, a0: int) -> (MachineState, Option<InterpreterError>) {
    if m.input.len() == 0 {
        (m, Some(InterpreterError::NoInputError))
    } else {
        (
            MachineState {
                code: m.code.update(a0, m.input[0]),
                input: m.input.subrange(1, m.input.len() as int),
                ip: (m.ip + 2) as nat,
                ..m
            },
            None,
        )
    }
}

/// Effect of output: record `mem[a0]` as the step's output value.
pub open spec fn spec_op_out(m: MachineState, a0: int) -> (MachineState, Option<InterpreterError>) {
    (MachineState { last_output: Some(m.code[a0]), ip: (m.ip + 2) as nat, ..m }, None)
}

/// Effect of jump-if-true: if `mem[a0]` is nonzero, jump to the target read
/// from `mem[a1]`, which must lie inside memory.
pub open spec fn spec_op_jit(m: MachineState, a0: int, a1: int) -> (MachineState, Option<
    InterpreterError,
>) {
    if m.code[a0] != 0 {
        let target = m.code[a1];
        if 0 <= target < m.code.len() {
            (MachineState { ip: target as nat, ..m }, None)
        } else {
            (m, Some(InterpreterError::JumpOutOfBounds))
        }
    } else {
        (MachineState { ip: (m.ip + 3) as nat, ..m }, None)
    }
}

/// Effect of jump-if-false: like jump-if-true, taken when `mem[a0]` is zero.
pub open spec fn spec_op_jif(m: MachineState, a0: int, a1: int) -> (MachineState, Option<
    InterpreterError,
>) {
    if m.code[a0] == 0 {
        let target = m.code[a1];
        if 0 <= target < m.code.len() {
            (MachineState { ip: target as nat, ..m }, None)
        } else {
            (m, Some(InterpreterError::JumpOutOfBounds))
        }
    } else {
        (MachineState { ip: (m.ip + 3) as nat, ..m }, None)
    }
}

/// Effect of less-than: `mem[a2] = if mem[a0] < mem[a1] { 1 } else { 0 }`.
pub open spec fn spec_op_lt(m: MachineState, a0: int, a1: int, a2: int) -> (MachineState, Option<
    InterpreterError,
>) {
    let flag: VALUE = if m.code[a0] < m.code[a1] {
        1
    } else {
        0
    };
    (MachineState { code: m.code.update(a2, flag), ip: (m.ip + 4) as nat, ..m }, None)
}

/// Effect of equals: `mem[a2] = if mem[a0] == mem[a1] { 1 } else { 0 }`.
pub open spec fn spec_op_eq(m: MachineState, a0: int, a1: int, a2: int) -> (MachineState, Option<
    InterpreterError,
>) {
    let flag: VALUE = if m.code[a0] == m.code[a1] {
        1
    } else {
        0
    };
    (MachineState { code: m.code.update(a2, flag), ip: (m.ip + 4) as nat, ..m }, None)
}

/// Effect of adjust-relative-base: `relative_base += mem[a0]`, checked.
pub open spec fn spec_op_relb(m: MachineState, a0: int) -> (MachineState, Option<InterpreterError>) {
    let base = m.relative_base + m.code[a0];
    if i64::MIN <= base <= i64::MAX {
        (MachineState { relative_base: base as VALUE, ip: (m.ip + 2) as nat, ..m }, None)
    } else {
        (m, Some(InterpreterError::Overflow))
    }
}

/// Effect of halt: set the terminal flag; the result is reported as
/// `Terminated` on this and every later step.
pub open spec fn spec_op_halt(m: MachineState) -> (MachineState, Option<InterpreterError>) {
    (MachineState { finish: true, ..m }, Some(InterpreterError::Terminated))
}

/// Dispatch on a decoded opcode, with the resolved parameter addresses.
pub open spec fn spec_dispatch(m: MachineState, instr: int, op: int) -> (MachineState, Option<
    InterpreterError,
>) {
    let a0 = resolved_addr(m, instr, 0);
    let a1 = resolved_addr(m, instr, 1);
    let a2 = resolved_addr(m, instr, 2);
    if op == 1 {
        spec_op_add(m, a0, a1, a2)
    } else if op == 2 {
        spec_op_mul(m, a0, a1, a2)
    } else if op == 3 {
        spec_op_in(m, a0)
    } else if op == 4 {
        spec_op_out(m, a0)
    } else if op == 5 {
        spec_op_jit(m, a0, a1)
    } else if op == 6 {
        spec_op_jif(m, a0, a1)
    } else if op == 7 {
        spec_op_lt(m, a0, a1, a2)
    } else if op == 8 {
        spec_op_eq(m, a0, a1, a2)
    } else if op == 9 {
        spec_op_relb(m, a0)
    } else {
        spec_op_halt(m)
    }
}

/// One full fetch-decode-execute step of the machine, as a mathematical
/// function from state to (state, result).
///
/// A machine that has halted refuses the step and is left untouched.
/// Otherwise the single-slot output channel is cleared, the instruction word
/// at `ip` is fetched and decoded, its parameters are resolved, and the
/// opcode's effect is applied.  Decode or resolution failures report an
/// error and change nothing but the cleared output slot.
pub open spec fn spec_step(m: MachineState) -> (MachineState, Result<
    Option<VALUE>,
    InterpreterError,
>) {
    if m.finish {
        (m, Err(InterpreterError::Terminated))
    } else {
        let m0 = MachineState { last_output: None, ..m };
        if m.ip >= m.code.len() {
            (m0, Err(InterpreterError::OutOfMemory))
        } else {
            let instr = m.code[m.ip as int] as int;
            if instr < 0 || instr % 100 == 0 || !is_opcode(instr % 100) {
                (m0, Err(InterpreterError::InvalidOpCode))
            } else {
                let op = instr % 100;
                let np = spec_num_params(op);
                if m.ip + np >= m.code.len() {
                    (m0, Err(InterpreterError::OutOfMemory))
                } else if !modes_ok(instr, np) || !no_excess_digits(instr, np) || immediate_write(
                    instr,
                    op,
                ) {
                    (m0, Err(InterpreterError::InvalidParameters))
                } else if !addrs_ok(m0, instr, np) {
                    (m0, Err(InterpreterError::InvalidParameters))
                } else {
                    let (m1, oe) = spec_dispatch(m0, instr, op);
                    match oe {
                        Some(e) => (m1, Err(e)),
                        None => (m1, Ok(m1.last_output)),
                    }
                }
            }
        }
    }
}

/// The machine state after `n` steps from `m`, errors notwithstanding: a
/// failing step leaves everything but the output slot in place, so the
/// iteration is total.
pub open spec fn run_through(m: MachineState, n: nat) -> MachineState
    decreases n,
{
    if n == 0 {
        m
    } else {
        spec_step(run_through(m, (n - 1) as nat)).0
    }
}

/// The first `n` steps from `m` all succeed without producing an output.
pub open spec fn silent_until(m: MachineState, n: nat) -> bool {
    forall|i: nat|
        i < n ==> spec_step(#[trigger] run_through(m, i)).1 == Ok::<
            Option<VALUE>,
            InterpreterError,
        >(None)
}

/// A fetch-decode-execute machine for intcode programs.
pub struct Interpreter {
    /// The memory image: program text and data share this one array.
    code: Vec<VALUE>,
    /// The instruction pointer.
    ip: usize,
    /// Current base for relative-mode addressing.
    relative_base: VALUE,
    /// Resolved parameter addresses of the instruction being executed,
    /// recomputed on every step.
    param_indices: Vec<usize>,
    /// Indicates whether the program has halted.
    pub finish: bool,
    /// Input queue: the driver appends at the back, the machine pops the
    /// front.
    pub input_buffer: VecDeque<VALUE>,
    /// The last valid output.
    pub last_output: Option<VALUE>,
}

impl View for Interpreter {
    type V = MachineState;

    closed spec fn view(&self) -> MachineState {
        MachineState {
            code: self.code@,
            ip: self.ip as nat,
            relative_base: self.relative_base,
            finish: self.finish,
            input: self.input_buffer@,
            last_output: self.last_output,
        }
    }
}

impl Interpreter {
    /// Copies the program into memory, zero-pads it to ten times its length
    /// to emulate unbounded-but-finite addressable memory, and installs the
    /// given input queue.  Registers start at zero and the machine is live.
    pub fn new(code: Vec<VALUE>, input_buffer: VecDeque<VALUE>) -> (r: Interpreter)
        requires
            code@.len() * 10 <= usize::MAX,
        ensures
            r@.code == code@ + Seq::new((code@.len() * 9) as nat, |i: int| 0 as VALUE),
            r@.ip == 0,
            r@.relative_base == 0,
            r@.finish == false,
            r@.input == input_buffer@,
            r@.last_output is None,
    {
        let ghost orig: Seq<VALUE> = code@;
        let n: usize = code.len();
        let target: usize = n * 10;
        let mut mem = code;
        while mem.len() < target
            invariant
                n == orig.len(),
                n * 10 == target,
                n <= mem@.len() <= target,
                mem@ == orig + Seq::new((mem@.len() - n) as nat, |i: int| 0 as VALUE),
            decreases target - mem@.len(),
        {
            mem.push(0);
            proof {
                assert(mem@ =~= orig + Seq::new((mem@.len() - n) as nat, |i: int| 0 as VALUE));
            }
        }
        Interpreter {
            code: mem,
            ip: 0,
            relative_base: 0,
            param_indices: Vec::new(),
            finish: false,
            input_buffer,
            last_output: None,
        }
    }

    /// Read-only access to the memory image, for drivers that inspect the
    /// final memory of a halted program.
    pub fn memory(&self) -> (mem: &Vec<VALUE>)
        ensures
            mem@ == self@.code,
    {
        &self.code
    }

    /// The instruction pointer, for diagnostics.
    pub fn ip(&self) -> (i: usize)
        ensures
            i == self@.ip,
    {
        self.ip
    }
}

impl Default for Interpreter {
    /// An empty machine: no program, registers at zero, nothing queued.
    fn default() -> (r: Interpreter)
        ensures
            r@.code.len() == 0,
            r@.ip == 0,
            r@.relative_base == 0,
            !r@.finish,
            r@.input.len() == 0,
            r@.last_output is None,
    {
        Interpreter {
            code: Vec::new(),
            ip: 0,
            relative_base: 0,
            param_indices: Vec::new(),
            finish: false,
            input_buffer: VecDeque::new(),
            last_output: None,
        }
    }
}

/// The decimal powers that carve an instruction word into opcode and mode
/// digits.
proof fn lemma_pow10_vals()
    ensures
        pow10(2) == 100,
        pow10(3) == 1000,
        pow10(4) == 10000,
        pow10(5) == 100000,
{
    reveal_with_fuel(pow10, 6);
}

/// Executes add: `mem[p3] = mem[p1] + mem[p2]`, checked.
fn op_add(pc: &mut Interpreter) -> (r: Option<InterpreterError>)
    requires
        old(pc).param_indices@.len() == 3,
        forall|j: int| 0 <= j < 3 ==> (#[trigger] old(pc).param_indices@[j]) < old(
            pc,
        ).code@.len(),
        old(pc).ip + 4 <= usize::MAX,
    ensures
        ({
            let (m2, oe) = spec_op_add(
                old(pc)@,
                old(pc).param_indices@[0] as int,
                old(pc).param_indices@[1] as int,
                old(pc).param_indices@[2] as int,
            );
            final(pc)@ == m2 && r == oe
        }),
{
    let a0 = pc.param_indices[0];
    let a1 = pc.param_indices[1];
    let a2 = pc.param_indices[2];
    let sum: i128 = pc.code[a0] as i128 + pc.code[a1] as i128;
    if sum < i64::MIN as i128 || sum > i64::MAX as i128 {
        Some(InterpreterError::Overflow)
    } else {
        pc.code.set(a2, sum as VALUE);
        pc.ip = pc.ip + 4;
        None
    }
}

/// Executes multiply: `mem[p3] = mem[p1] * mem[p2]`, checked.
fn op_mul(pc: &mut Interpreter) -> (r: Option<InterpreterError>)
    requires
        old(pc).param_indices@.len() == 3,
        forall|j: int| 0 <= j < 3 ==> (#[trigger] old(pc).param_indices@[j]) < old(
            pc,
        ).code@.len(),
        old(pc).ip + 4 <= usize::MAX,
    ensures
        ({
            let (m2, oe) = spec_op_mul(
                old(pc)@,
                old(pc).param_indices@[0] as int,
                old(pc).param_indices@[1] as int,
                old(pc).param_indices@[2] as int,
            );
            final(pc)@ == m2 && r == oe
        }),
{
    let a0 = pc.param_indices[0];
    let a1 = pc.param_indices[1];
    let a2 = pc.param_indices[2];
    proof {
        let x = pc.code@[a0 as int] as int;
        let y = pc.code@[a1 as int] as int;
        assert(i128::MIN <= x * y <= i128::MAX) by (nonlinear_arith)
            requires
                i64::MIN <= x <= i64::MAX,
                i64::MIN <= y <= i64::MAX,
        ;
    }
    let product: i128 = pc.code[a0] as i128 * pc.code[a1] as i128;
    if product < i64::MIN as i128 || product > i64::MAX as i128 {
        Some(InterpreterError::Overflow)
    } else {
        pc.code.set(a2, product as VALUE);
        pc.ip = pc.ip + 4;
        None
    }
}

/// Executes input: pop the front of the queue into `mem[p1]`, or signal
/// `NoInputError` without advancing, so that the caller can supply a value
/// and retry.
fn op_in(pc: &mut Interpreter) -> (r: Option<InterpreterError>)
    requires
        old(pc).param_indices@.len() >= 1,
        old(pc).param_indices@[0] < old(pc).code@.len(),
        old(pc).ip + 2 <= usize::MAX,
    ensures
        ({
            let (m2, oe) = spec_op_in(old(pc)@, old(pc).param_indices@[0] as int);
            final(pc)@ == m2 && r == oe
        }),
{
    if let Some(val) = pc.input_buffer.pop_front() {
        let a0 = pc.param_indices[0];
        pc.code.set(a0, val);
        pc.ip = pc.ip + 2;
        None
    } else {
        Some(InterpreterError::NoInputError)
    }
}

/// Executes output: record `mem[p1]` in the single-slot output channel.
fn op_out(pc: &mut Interpreter) -> (r: Option<InterpreterError>)
    requires
        old(pc).param_indices@.len() >= 1,
        old(pc).param_indices@[0] < old(pc).code@.len(),
        old(pc).ip + 2 <= usize::MAX,
    ensures
        ({
            let (m2, oe) = spec_op_out(old(pc)@, old(pc).param_indices@[0] as int);
            final(pc)@ == m2 && r == oe
        }),
{
    let a0 = pc.param_indices[0];
    let res = pc.code[a0];
    pc.last_output = Some(res);
    pc.ip = pc.ip + 2;
    None
}

/// Executes jump-if-true: if `mem[p1]` is nonzero, set `ip` to the target
/// read from `mem[p2]`, rejecting a target outside memory.
fn op_jit(pc: &mut Interpreter) -> (r: Option<InterpreterError>)
    requires
        old(pc).param_indices@.len() >= 2,
        forall|j: int| 0 <= j < 2 ==> (#[trigger] old(pc).param_indices@[j]) < old(
            pc,
        ).code@.len(),
        old(pc).ip + 3 <= usize::MAX,
    ensures
        ({
            let (m2, oe) = spec_op_jit(
                old(pc)@,
                old(pc).param_indices@[0] as int,
                old(pc).param_indices@[1] as int,
            );
            final(pc)@ == m2 && r == oe
        }),
{
    if pc.code[pc.param_indices[0]] != 0 {
        let target = pc.code[pc.param_indices[1]];
        if target >= 0 && (target as i128) < pc.code.len() as i128 {
            pc.ip = target as usize;
            None
        } else {
            Some(InterpreterError::JumpOutOfBounds)
        }
    } else {
        pc.ip = pc.ip + 3;
        None
    }
}

/// Executes jump-if-false: like jump-if-true, taken when `mem[p1]` is zero.
fn op_jif(pc: &mut Interpreter) -> (r: Option<InterpreterError>)
    requires
        old(pc).param_indices@.len() >= 2,
        forall|j: int| 0 <= j < 2 ==> (#[trigger] old(pc).param_indices@[j]) < old(
            pc,
        ).code@.len(),
        old(pc).ip + 3 <= usize::MAX,
    ensures
        ({
            let (m2, oe) = spec_op_jif(
                old(pc)@,
                old(pc).param_indices@[0] as int,
                old(pc).param_indices@[1] as int,
            );
            final(pc)@ == m2 && r == oe
        }),
{
    if pc.code[pc.param_indices[0]] == 0 {
        let target = pc.code[pc.param_indices[1]];
        if target >= 0 && (target as i128) < pc.code.len() as i128 {
            pc.ip = target as usize;
            None
        } else {
            Some(InterpreterError::JumpOutOfBounds)
        }
    } else {
        pc.ip = pc.ip + 3;
        None
    }
}

/// Executes less-than: `mem[p3] = (mem[p1] < mem[p2]) as VALUE`.
fn op_lt(pc: &mut Interpreter) -> (r: Option<InterpreterError>)
    requires
        old(pc).param_indices@.len() == 3,
        forall|j: int| 0 <= j < 3 ==> (#[trigger] old(pc).param_indices@[j]) < old(
            pc,
        ).code@.len(),
        old(pc).ip + 4 <= usize::MAX,
    ensures
        ({
            let (m2, oe) = spec_op_lt(
                old(pc)@,
                old(pc).param_indices@[0] as int,
                old(pc).param_indices@[1] as int,
                old(pc).param_indices@[2] as int,
            );
            final(pc)@ == m2 && r == oe
        }),
{
    let flag: VALUE = if pc.code[pc.param_indices[0]] < pc.code[pc.param_indices[1]] {
        1
    } else {
        0
    };
    let a2 = pc.param_indices[2];
    pc.code.set(a2, flag);
    pc.ip = pc.ip + 4;
    None
}

/// Executes equals: `mem[p3] = (mem[p1] == mem[p2]) as VALUE`.
fn op_eq(pc: &mut Interpreter) -> (r: Option<InterpreterError>)
    requires
        old(pc).param_indices@.len() == 3,
        forall|j: int| 0 <= j < 3 ==> (#[trigger] old(pc).param_indices@[j]) < old(
            pc,
        ).code@.len(),
        old(pc).ip + 4 <= usize::MAX,
    ensures
        ({
            let (m2, oe) = spec_op_eq(
                old(pc)@,
                old(pc).param_indices@[0] as int,
                old(pc).param_indices@[1] as int,
                old(pc).param_indices@[2] as int,
            );
            final(pc)@ == m2 && r == oe
        }),
{
    let flag: VALUE = if pc.code[pc.param_indices[0]] == pc.code[pc.param_indices[1]] {
        1
    } else {
        0
    };
    let a2 = pc.param_indices[2];
    pc.code.set(a2, flag);
    pc.ip = pc.ip + 4;
    None
}

/// Executes adjust-relative-base: `relative_base += mem[p1]`, checked.
fn op_relb(pc: &mut Interpreter) -> (r: Option<InterpreterError>)
    requires
        old(pc).param_indices@.len() >= 1,
        old(pc).param_indices@[0] < old(pc).code@.len(),
        old(pc).ip + 2 <= usize::MAX,
    ensures
        ({
            let (m2, oe) = spec_op_relb(old(pc)@, old(pc).param_indices@[0] as int);
            final(pc)@ == m2 && r == oe
        }),
{
    let base: i128 = pc.relative_base as i128 + pc.code[pc.param_indices[0]] as i128;
    if base < i64::MIN as i128 || base > i64::MAX as i128 {
        Some(InterpreterError::Overflow)
    } else {
        pc.relative_base = base as VALUE;
        pc.ip = pc.ip + 2;
        None
    }
}

impl Interpreter {
    /// Decodes the instruction at `ip`, resolves its parameters, executes
    /// it, advances the control registers, and returns the produced output
    /// (if the instruction was an output instruction) or `None`.  The whole
    /// transition, including every error case, follows [`spec_step`]
    /// exactly: a failing instruction changes nothing but the cleared
    /// output slot.
    #[verifier::loop_isolation(false)]
    pub fn step(&mut self) -> (r: Result<Option<VALUE>, InterpreterError>)
        ensures
            ({
                let (m2, r2) = spec_step(old(self)@);
                final(self)@ == m2 && r == r2
            }),
    {
        if self.finish {
            return Err(InterpreterError::Terminated);
        }
        self.last_output = None;
        let ghost m0 = self@;
        proof {
            assert(m0 =~= MachineState { last_output: None, ..old(self)@ });
        }
        if self.ip >= self.code.len() {
            return Err(InterpreterError::OutOfMemory);
        }
        let instr: VALUE = self.code[self.ip];
        if instr < 0 {
            return Err(InterpreterError::InvalidOpCode);
        }
        let uinstr: u64 = instr as u64;
        if uinstr % 100 == 0 {
            return Err(InterpreterError::InvalidOpCode);
        }
        let low: u64 = uinstr % 100;
        let ins = match instruction_for(low) {
            None => {
                return Err(InterpreterError::InvalidOpCode);
            },
            Some(ins) => ins,
        };
        let np: usize = ins.number_parameters;
        if np > self.code.len() - 1 - self.ip {
            return Err(InterpreterError::OutOfMemory);
        }
        proof {
            lemma_pow10_vals();
        }
        let excess_div: u64 = match np {
            0 => 100,
            1 => 1000,
            2 => 10000,
            _ => 100000,
        };
        if uinstr / excess_div != 0 {
            return Err(InterpreterError::InvalidParameters);
        }
        let write_div: u64 = if low == 1 || low == 2 || low == 7 || low == 8 {
            10000
        } else if low == 3 {
            100
        } else {
            0
        };
        if write_div != 0 && (uinstr / write_div) % 10 == 1 {
            return Err(InterpreterError::InvalidParameters);
        }
        let mut indices: Vec<usize> = Vec::new();
        let mut k: usize = 0;
        while k < np
            invariant
                k <= np,
                indices@.len() == k,
                forall|j: nat| j < k ==> 0 <= #[trigger] mode_digit(instr as int, j) <= 2,
                forall|j: nat|
                    j < k ==> 0 <= #[trigger] resolved_addr(m0, instr as int, j) < m0.code.len()
                        && indices@[j as int] == resolved_addr(m0, instr as int, j),
            decreases np - k,
        {
            let cell: usize = self.ip + 1 + k;
            let raw: VALUE = self.code[cell];
            let digit_div: u64 = match k {
                0 => 100,
                1 => 1000,
                _ => 10000,
            };
            let md: u64 = (uinstr / digit_div) % 10;
            proof {
                lemma_pow10_vals();
                assert(digit_div == pow10((k + 2) as nat));
                assert(md == mode_digit(instr as int, k as nat));
            }
            let addr: usize;
            if md == 0 {
                if raw < 0 || raw as i128 >= self.code.len() as i128 {
                    return Err(InterpreterError::InvalidParameters);
                }
                addr = raw as usize;
            } else if md == 1 {
                addr = cell;
            } else if md == 2 {
                let target: i128 = self.relative_base as i128 + raw as i128;
                if target < 0 || target >= self.code.len() as i128 {
                    return Err(InterpreterError::InvalidParameters);
                }
                addr = target as usize;
            } else {
                return Err(InterpreterError::InvalidParameters);
            }
            indices.push(addr);
            k = k + 1;
        }
        self.param_indices = indices;
        proof {
            assert(self@ =~= m0);
            assert(modes_ok(instr as int, np as nat));
            assert(no_excess_digits(instr as int, np as nat));
            assert(!immediate_write(instr as int, low as int));
            assert(addrs_ok(m0, instr as int, np as nat));
        }
        let oe: Option<InterpreterError> = if low == 1 {
            op_add(self)
        } else if low == 2 {
            op_mul(self)
        } else if low == 3 {
            op_in(self)
        } else if low == 4 {
            op_out(self)
        } else if low == 5 {
            op_jit(self)
        } else if low == 6 {
            op_jif(self)
        } else if low == 7 {
            op_lt(self)
        } else if low == 8 {
            op_eq(self)
        } else if low == 9 {
            op_relb(self)
        } else {
            op_halt(self)
        };
        match oe {
            Some(e) => Err(e),
            None => Ok(self.last_output),
        }
    }

    /// Repeatedly steps, discarding silent steps, until a value is produced
    /// or an error (including halt) occurs, giving up after `max_steps`
    /// steps so that the loop provably terminates.
    ///
    /// `Some(res)` exhibits the number of silent steps taken: the machine
    /// ends in the state reached by stepping that many times and once more,
    /// and `res` is that last step's output or error.  `None` means the
    /// whole budget was spent on silent steps.
    pub fn step_loop(&mut self, max_steps: u64) -> (r: Option<
        Result<VALUE, InterpreterError>,
    >)
        ensures
            match r {
                Some(res) => exists|n: nat|
                    {
                        &&& n < max_steps
                        &&& #[trigger] silent_until(old(self)@, n)
                        &&& final(self)@ == spec_step(run_through(old(self)@, n)).0
                        &&& (match res {
                            Ok(val) => spec_step(run_through(old(self)@, n)).1 == Ok::<
                                Option<VALUE>,
                                InterpreterError,
                            >(Some(val)),
                            Err(e) => spec_step(run_through(old(self)@, n)).1 == Err::<
                                Option<VALUE>,
                                InterpreterError,
                            >(e),
                        })
                    },
                None => silent_until(old(self)@, max_steps as nat) && final(self)@ == run_through(
                    old(self)@,
                    max_steps as nat,
                ),
            },
    {
        let ghost mut n: nat = 0;
        let mut remaining: u64 = max_steps;
        while remaining > 0
            invariant
                n + remaining == max_steps,
                self@ == run_through(old(self)@, n),
                silent_until(old(self)@, n),
            decreases remaining,
        {
            let res = self.step();
            proof {
                assert(run_through(old(self)@, n + 1) == spec_step(run_through(old(self)@, n)).0);
            }
            match res {
                Err(e) => {
                    proof {
                        assert(silent_until(old(self)@, n));
                    }
                    return Some(Err(e));
                },
                Ok(Some(val)) => {
                    proof {
                        assert(silent_until(old(self)@, n));
                    }
                    return Some(Ok(val));
                },
                Ok(None) => {
                    proof {
                        assert forall|i: nat| i < n + 1 implies spec_step(
                            #[trigger] run_through(old(self)@, i),
                        ).1 == Ok::<Option<VALUE>, InterpreterError>(None) by {
                            if i < n {
                                assert(spec_step(run_through(old(self)@, i)).1 == Ok::<
                                    Option<VALUE>,
                                    InterpreterError,
                                >(None));
                            }
                        }
                        n = n + 1;
                    }
                    remaining = remaining - 1;
                },
            }
        }
        None
    }
}

/// Decode metadata of one opcode: its mnemonic and its fixed parameter
/// count.
pub struct Instruction {
    /// The normalized opcode: the low two decimal digits of the word.
    pub opcode: u8,
    /// The instruction's mnemonic, for diagnostics.
    pub name: &'static str,
    /// How many parameter slots the instruction declares.
    pub number_parameters: usize,
}

/// Looks an opcode up in the instruction table.
pub fn instruction_for(op: u64) -> (r: Option<Instruction>)
    ensures
        match r {
            Some(ins) => is_opcode(op as int) && ins.opcode == op
                && ins.number_parameters == spec_num_params(op as int),
            None => !is_opcode(op as int),
        },
{
    match op {
        99 => Some(Instruction { opcode: 99, name: "halt", number_parameters: 0 }),
        1 => Some(Instruction { opcode: 1, name: "add", number_parameters: 3 }),
        2 => Some(Instruction { opcode: 2, name: "multiply", number_parameters: 3 }),
        3 => Some(Instruction { opcode: 3, name: "input", number_parameters: 1 }),
        4 => Some(Instruction { opcode: 4, name: "output", number_parameters: 1 }),
        5 => Some(Instruction { opcode: 5, name: "jump-if-true", number_parameters: 2 }),
        6 => Some(Instruction { opcode: 6, name: "jump-if-false", number_parameters: 2 }),
        7 => Some(Instruction { opcode: 7, name: "less than", number_parameters: 3 }),
        8 => Some(Instruction { opcode: 8, name: "equals", number_parameters: 3 }),
        9 => Some(Instruction { opcode: 9, name: "relative base offset", number_parameters: 1 }),
        _ => None,
    }
}

/// Executes halt: mark the machine finished, reported as `Terminated`.
fn op_halt(pc: &mut Interpreter) -> (r: Option<InterpreterError>)
    ensures
        ({
            let (m2, oe) = spec_op_halt(old(pc)@);
            final(pc)@ == m2 && r == oe
        }),
{
    pc.finish = true;
    Some(InterpreterError::Terminated)
}

} // verus!
