use intcode::loader::string_to_code;
use intcode::runner::execute;
use std::collections::VecDeque;

const FUEL: u64 = 1_000_000;

fn run(code: Vec<i64>, input: Vec<i64>) -> Result<Vec<i64>, intcode::machine::InterpreterError> {
    execute(code, VecDeque::from(input), FUEL).unwrap()
}

#[test]
fn day5misc() {
    // Misc official tests.
    let position_equal_code = string_to_code("3,9,8,9,10,9,4,9,99,-1,8");
    let position_smaller_code = string_to_code("3,9,7,9,10,9,4,9,99,-1,8");
    let immediate_equal_code = string_to_code("3,3,1108,-1,8,3,4,3,99");
    let immediate_smaller_code = string_to_code("3,3,1107,-1,8,3,4,3,99");

    let given = run(position_equal_code.to_owned(), vec![8]).unwrap();
    assert_eq!(given, vec![1]);
    let given = run(position_equal_code, vec![0]).unwrap();
    assert_eq!(given, vec![0]);

    let given = run(position_smaller_code.to_owned(), vec![7]).unwrap();
    assert_eq!(given, vec![1]);
    let given = run(position_smaller_code, vec![8]).unwrap();
    assert_eq!(given, vec![0]);

    let given = run(immediate_equal_code.to_owned(), vec![8]).unwrap();
    assert_eq!(given, vec![1]);
    let given = run(immediate_equal_code, vec![0]).unwrap();
    assert_eq!(given, vec![0]);

    let given = run(immediate_smaller_code.to_owned(), vec![7]).unwrap();
    assert_eq!(given, vec![1]);
    let given = run(immediate_smaller_code, vec![8]).unwrap();
    assert_eq!(given, vec![0]);

    let position_jump = string_to_code("3,12,6,12,15,1,13,14,13,4,13,99,-1,0,1,9");
    let immediate_jump = string_to_code("3,3,1105,-1,9,1101,0,0,12,4,12,99,1");

    let given = run(position_jump.to_owned(), vec![1]).unwrap();
    assert_eq!(given, vec![1]);
    let given = run(position_jump, vec![0]).unwrap();
    assert_eq!(given, vec![0]);

    let given = run(immediate_jump.to_owned(), vec![1]).unwrap();
    assert_eq!(given, vec![1]);
    let given = run(immediate_jump, vec![0]).unwrap();
    assert_eq!(given, vec![0]);

    let larger_example = string_to_code(
        "3,21,1008,21,8,20,1005,20,22,107,8,21,20,1006,20,31,1106,0,36,98,0,0,1002,21,125,20,4,20,1105,1,46,104,999,1105,1,46,1101,1000,1,20,4,20,1105,1,46,98,99",
    );

    let given = run(larger_example.to_owned(), vec![7]).unwrap();
    assert_eq!(given, vec![999]);
    let given = run(larger_example.to_owned(), vec![8]).unwrap();
    assert_eq!(given, vec![1000]);
    let given = run(larger_example.to_owned(), vec![9]).unwrap();
    assert_eq!(given, vec![1001]);
}

#[test]
fn quine_replicates_itself() {
    // relative-base addressing lets this program copy itself to the output
    let text = "109,1,204,-1,1001,100,1,100,1008,100,16,101,1006,101,0,99";
    let program = string_to_code(text);
    let given = run(program.to_owned(), vec![]).unwrap();
    assert_eq!(given, program);
}

#[test]
fn large_multiply() {
    // a 16-digit product, computed without overflow
    let program = string_to_code("1102,34915192,34915192,7,4,7,99,0");
    let given = run(program, vec![]).unwrap();
    assert_eq!(given, vec![1219070632396864]);
}

#[test]
fn large_literal_output() {
    let program = string_to_code("104,1125899906842624,99");
    let given = run(program, vec![]).unwrap();
    assert_eq!(given, vec![1125899906842624]);
}
