//! Running a program to completion: construct a machine, step it until it
//! halts, and collect everything it outputs along the way.

use crate::machine::{
    run_through, spec_step, Interpreter, InterpreterError, MachineState, VALUE,
};
use std::collections::VecDeque;
use vstd::prelude::*;

verus! {

/// The first `n` steps from `m` all succeed (silently or with an output).
pub open spec fn ok_until(m: MachineState, n: nat) -> bool {
    forall|i: nat| i < n ==> (spec_step(#[trigger] run_through(m, i)).1 is Ok)
}

/// Every output value produced during the first `n` steps from `m`, in
/// order.
pub open spec fn outputs_through(m: MachineState, n: nat) -> Seq<VALUE>
    decreases n,
{
    if n == 0 {
        Seq::empty()
    } else {
        let prev = outputs_through(m, (n - 1) as nat);
        match spec_step(run_through(m, (n - 1) as nat)).1 {
            Ok(Some(v)) => prev.push(v),
            _ => prev,
        }
    }
}

/// The state a freshly constructed machine starts in: the program followed
/// by nine times its length of zeros, registers at zero, the given input
/// queue, and no output yet.
pub open spec fn initial_state(program: Seq<VALUE>, input: Seq<VALUE>) -> MachineState {
    MachineState {
        code: program + Seq::new((program.len() * 9) as nat, |i: int| 0 as VALUE),
        ip: 0,
        relative_base: 0,
        finish: false,
        input: input,
        last_output: None,
    }
}

/// Loads `data` into a fresh machine and runs it until it halts, returning
/// every value it output, in order.  A failure other than a clean halt is
/// handed back as that error.  `None` means the machine was still running
/// after `max_steps` steps.
pub fn execute(data: Vec<VALUE>, input_buffer: VecDeque<VALUE>, max_steps: u64) -> (r: Option<
    Result<Vec<VALUE>, InterpreterError>,
>)
    requires
        data@.len() * 10 <= usize::MAX,
    ensures
        ({
            let m0 = initial_state(data@, input_buffer@);
            match r {
                Some(Ok(out)) => exists|n: nat|
                    {
                        &&& n < max_steps
                        &&& #[trigger] ok_until(m0, n)
                        &&& spec_step(run_through(m0, n)).1 == Err::<
                            Option<VALUE>,
                            InterpreterError,
                        >(InterpreterError::Terminated)
                        &&& out@ == outputs_through(m0, n)
                    },
                Some(Err(e)) => e != InterpreterError::Terminated && exists|n: nat|
                    {
                        &&& n < max_steps
                        &&& #[trigger] ok_until(m0, n)
                        &&& spec_step(run_through(m0, n)).1 == Err::<
                            Option<VALUE>,
                            InterpreterError,
                        >(e)
                    },
                None => ok_until(m0, max_steps as nat),
            }
        }),
{
    let ghost m0 = initial_state(data@, input_buffer@);
    let mut pc = Interpreter::new(data, input_buffer);
    proof {
        assert(pc@ =~= m0);
    }
    let mut output: Vec<VALUE> = Vec::new();
    let ghost mut n: nat = 0;
    let mut remaining: u64 = max_steps;
    while remaining > 0
        invariant
            m0 == initial_state(data@, input_buffer@),
            n + remaining == max_steps,
            pc@ == run_through(m0, n),
            ok_until(m0, n),
            output@ == outputs_through(m0, n),
        decreases remaining,
    {
        let res = pc.step();
        proof {
            assert(run_through(m0, n + 1) == spec_step(run_through(m0, n)).0);
        }
        match res {
            Err(InterpreterError::Terminated) => {
                proof {
                    assert(ok_until(m0, n));
                }
                return Some(Ok(output));
            },
            Err(e) => {
                proof {
                    assert(ok_until(m0, n));
                }
                return Some(Err(e));
            },
            Ok(out) => {
                proof {
                    assert forall|i: nat| i < n + 1 implies (spec_step(
                        #[trigger] run_through(m0, i),
                    ).1 is Ok) by {
                        if i < n {
                            assert(spec_step(run_through(m0, i)).1 is Ok);
                        }
                    }
                }
                if let Some(val) = out {
                    output.push(val);
                }
                proof {
                    assert(outputs_through(m0, n + 1) == (match spec_step(run_through(m0, n)).1 {
                        Ok(Some(v)) => outputs_through(m0, n).push(v),
                        _ => outputs_through(m0, n),
                    }));
                    n = n + 1;
                }
                remaining = remaining - 1;
            },
        }
    }
    None
}

} // verus!
