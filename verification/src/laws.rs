//! Laws of the machine's transition function: the terminal behaviour of
//! halting, the exact effect of retrying after missing input, and the
//! rejection of malformed instruction words.

use crate::machine::{
    is_opcode, mode_digit, spec_num_params, spec_step, InterpreterError, MachineState, VALUE,
};
use vstd::prelude::*;

verus! {

/// A machine that has halted refuses every further step and stays exactly
/// as it is.
pub proof fn lemma_step_after_halt(m: MachineState)
    requires
        m.finish,
    ensures
        spec_step(m) == (m, Err::<Option<VALUE>, InterpreterError>(InterpreterError::Terminated)),
{
}

/// A step that reports `Terminated` leaves the machine halted.
pub proof fn lemma_terminated_means_halted(m: MachineState)
    requires
        spec_step(m).1 == Err::<Option<VALUE>, InterpreterError>(InterpreterError::Terminated),
    ensures
        spec_step(m).0.finish,
{
}

/// Once a step has reported `Terminated`, every later step reports
/// `Terminated` again and changes nothing: the halted state is terminal
/// and idempotent.
pub proof fn lemma_terminated_is_sticky(m: MachineState)
    requires
        spec_step(m).1 == Err::<Option<VALUE>, InterpreterError>(InterpreterError::Terminated),
    ensures
        spec_step(spec_step(m).0) == (
            spec_step(m).0,
            Err::<Option<VALUE>, InterpreterError>(InterpreterError::Terminated),
        ),
{
    lemma_terminated_means_halted(m);
    lemma_step_after_halt(spec_step(m).0);
}

/// A step that reports `NoInputError` changes nothing but the cleared
/// output slot — in particular the instruction pointer stands still — and
/// retrying after the driver queues a value behaves exactly as if the
/// value had been queued before the failed attempt: nothing is skipped
/// and nothing runs twice.
pub proof fn lemma_no_input_retry(m: MachineState, v: VALUE)
    requires
        spec_step(m).1 == Err::<Option<VALUE>, InterpreterError>(InterpreterError::NoInputError),
    ensures
        spec_step(m).0 == (MachineState { last_output: None, ..m }),
        ({
            let retried = MachineState { input: spec_step(m).0.input.push(v), ..spec_step(m).0 };
            let direct = MachineState { input: m.input.push(v), ..m };
            &&& spec_step(retried) == spec_step(direct)
            &&& spec_step(retried).1 == Ok::<Option<VALUE>, InterpreterError>(None)
        }),
{
    let failed = spec_step(m).0;
    assert(failed =~= MachineState { last_output: None, ..m });
    let retried = MachineState { input: failed.input.push(v), ..failed };
    let direct = MachineState { input: m.input.push(v), ..m };
    assert(MachineState { last_output: None, ..retried } =~= MachineState {
        last_output: None,
        ..direct
    });
}

/// A nonnegative instruction word whose low two decimal digits are zero is
/// rejected as `InvalidOpCode`: the all-zero low pair never halts, the
/// literal value 99 being the sole halt encoding.  The failing step
/// changes nothing but the cleared output slot.
pub proof fn lemma_zero_opcode_rejected(m: MachineState)
    requires
        !m.finish,
        m.ip < m.code.len(),
        m.code[m.ip as int] as int % 100 == 0,
    ensures
        spec_step(m).1 == Err::<Option<VALUE>, InterpreterError>(InterpreterError::InvalidOpCode),
        spec_step(m).0 == (MachineState { last_output: None, ..m }),
{
}

/// A defined opcode carrying a mode digit of 3 or higher in one of its
/// declared parameter slots is rejected as `InvalidParameters`, and the
/// failing step changes nothing but the cleared output slot.
pub proof fn lemma_bad_mode_digit_rejected(m: MachineState, k: nat)
    requires
        !m.finish,
        m.ip < m.code.len(),
        m.code[m.ip as int] >= 0,
        is_opcode(m.code[m.ip as int] as int % 100),
        m.ip + spec_num_params(m.code[m.ip as int] as int % 100) < m.code.len(),
        k < spec_num_params(m.code[m.ip as int] as int % 100),
        mode_digit(m.code[m.ip as int] as int, k) >= 3,
    ensures
        spec_step(m).1 == Err::<Option<VALUE>, InterpreterError>(
            InterpreterError::InvalidParameters,
        ),
        spec_step(m).0 == (MachineState { last_output: None, ..m }),
{
    let instr = m.code[m.ip as int] as int;
    assert(instr % 100 != 0);
}

} // verus!
