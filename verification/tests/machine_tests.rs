use intcode::machine::{Interpreter, InterpreterError};
use intcode::runner::execute;
use std::collections::VecDeque;

const FUEL: u64 = 1_000_000;

#[test]
fn wrong_code() {
    let mut pc = Interpreter::new(vec![-1, 0, 99], VecDeque::from(vec![]));

    let e = pc.step();
    assert_eq!(e, Err(InterpreterError::InvalidOpCode));

    for op in [11301, 13101, 31101, 1_11101, 700001, 10001] {
        println!("{}", op);
        let mut pc = Interpreter::new(vec![op, 0, 99], VecDeque::from(vec![]));
        let e = pc.step();
        assert_eq!(e, Err(InterpreterError::InvalidParameters));
    }

    let mut pc = Interpreter::new(vec![1101, 99, 99, 99], VecDeque::from(vec![]));
    let e = pc.step();
    assert_eq!(e, Err(InterpreterError::InvalidParameters));
}

#[test]
fn errors() {
    let mut pc = Interpreter::new(vec![3, 0, 99], VecDeque::from(vec![]));

    let err = pc.step().unwrap_err();

    assert_eq!(err, InterpreterError::NoInputError);

    pc.input_buffer.push_back(-1);

    let nothing = pc.step().unwrap();

    assert_eq!(nothing, None);

    let err = pc.step().unwrap_err();

    assert_eq!(err, InterpreterError::Terminated);
}

#[test]
fn add_and_multiply_to_halt() {
    // The classic worked example: after halting, memory starts with
    // 3500,9,10,70,2,3,11,0,99,30,40,50.
    let program = vec![1, 9, 10, 3, 2, 3, 11, 0, 99, 30, 40, 50];
    let mut pc = Interpreter::new(program, VecDeque::from(vec![]));
    assert_eq!(pc.step_loop(FUEL), Some(Err(InterpreterError::Terminated)));
    let wanted = vec![3500, 9, 10, 70, 2, 3, 11, 0, 99, 30, 40, 50];
    assert_eq!(&pc.memory()[..12], &wanted[..]);
}

#[test]
fn terminated_is_sticky() {
    let mut pc = Interpreter::new(vec![99], VecDeque::from(vec![]));
    assert_eq!(pc.step(), Err(InterpreterError::Terminated));
    assert_eq!(pc.step(), Err(InterpreterError::Terminated));
    assert_eq!(pc.step(), Err(InterpreterError::Terminated));
    assert_eq!(pc.step_loop(FUEL), Some(Err(InterpreterError::Terminated)));
}

#[test]
fn no_input_retry_resumes_exactly() {
    // 3,5 stores the input at address 5; 4,5 prints it back.
    let mut pc = Interpreter::new(vec![3, 5, 4, 5, 99, 0], VecDeque::from(vec![]));
    let ip_before = pc.ip();
    assert_eq!(pc.step(), Err(InterpreterError::NoInputError));
    // the failed attempt did not advance the instruction pointer
    assert_eq!(pc.ip(), ip_before);
    // still no input: the same error again
    assert_eq!(pc.step(), Err(InterpreterError::NoInputError));
    assert_eq!(pc.ip(), ip_before);
    pc.input_buffer.push_back(77);
    assert_eq!(pc.step(), Ok(None));
    assert_eq!(pc.step(), Ok(Some(77)));
    assert_eq!(pc.memory()[5], 77);
}

#[test]
fn zero_low_pair_is_rejected() {
    // a low decimal pair of 00 never decodes, not even with mode digits
    for word in [0, 100, 200, 700, 1200300] {
        let mut pc = Interpreter::new(vec![word, 0, 99], VecDeque::from(vec![]));
        assert_eq!(pc.step(), Err(InterpreterError::InvalidOpCode));
    }
}

#[test]
fn high_mode_digit_is_rejected() {
    // mode digits of 3 or more are malformed for every parameter slot
    for word in [301, 3101, 31101, 304, 309, 305, 3105] {
        let mut pc = Interpreter::new(vec![word, 1, 1, 0, 99], VecDeque::from(vec![]));
        assert_eq!(pc.step(), Err(InterpreterError::InvalidParameters));
    }
}

#[test]
fn addition_overflow_is_reported() {
    // positions 4 and 5 hold i64::MAX; adding them overflows
    let program = vec![1, 4, 5, 6, i64::MAX, i64::MAX];
    let mut pc = Interpreter::new(program, VecDeque::from(vec![]));
    assert_eq!(pc.step(), Err(InterpreterError::Overflow));

    let program = vec![2, 4, 5, 6, i64::MAX, i64::MAX];
    let mut pc = Interpreter::new(program, VecDeque::from(vec![]));
    assert_eq!(pc.step(), Err(InterpreterError::Overflow));
}

#[test]
fn jump_out_of_bounds_is_reported() {
    // jump-if-true with an immediate target far outside memory
    let mut pc = Interpreter::new(vec![1105, 1, 99999], VecDeque::from(vec![]));
    assert_eq!(pc.step(), Err(InterpreterError::JumpOutOfBounds));
}

#[test]
fn empty_memory_is_out_of_memory() {
    let mut pc = Interpreter::new(vec![], VecDeque::from(vec![]));
    assert_eq!(pc.step(), Err(InterpreterError::OutOfMemory));
}

#[test]
fn negative_position_address_is_rejected() {
    // position mode with a negative raw value resolves outside memory
    let mut pc = Interpreter::new(vec![4, -3, 99], VecDeque::from(vec![]));
    assert_eq!(pc.step(), Err(InterpreterError::InvalidParameters));
}

#[test]
fn relative_mode_reads_below_base_are_rejected() {
    // base 0, offset -1: address -1 is outside memory
    let mut pc = Interpreter::new(vec![204, -1, 99], VecDeque::from(vec![]));
    assert_eq!(pc.step(), Err(InterpreterError::InvalidParameters));
}

#[test]
fn zero_budget_takes_no_step() {
    let mut pc = Interpreter::new(vec![99], VecDeque::from(vec![]));
    assert_eq!(pc.step_loop(0), None);
    // the machine has not halted: the halt instruction never ran
    assert!(!pc.finish);
}

#[test]
fn default_machine_is_empty() {
    let pc = Interpreter::default();
    assert_eq!(pc.memory().len(), 0);
    assert_eq!(pc.ip(), 0);
    assert!(!pc.finish);
    assert!(pc.input_buffer.is_empty());
    assert_eq!(pc.last_output, None);
}

#[test]
fn execute_gives_up_on_a_spinning_program() {
    // 1106,0,0 jumps to address 0 forever
    assert_eq!(execute(vec![1106, 0, 0], VecDeque::from(vec![]), 10_000), None);
}
