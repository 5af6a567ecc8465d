use brainrust::lexer::{lex, Command};
use brainrust::vm::parser::parse;
use brainrust::vm::optimizer::{combine_instructions, optimize, optimize_clear_loop};
use brainrust::vm::{Error, Instruction, Interpreter};

#[test]
fn vm_test_basic_parse() {
    let input = vec![
        Command::MoveRight,
        Command::MoveLeft,
        Command::Add,
        Command::Sub,
        Command::JumpIfZero,
        Command::JumpIfNotZero,
        Command::Print,
        Command::Read,
    ];
    let expected = vec![
        Instruction::MoveRight(1),
        Instruction::MoveLeft(1),
        Instruction::Add(1),
        Instruction::Sub(1),
        Instruction::JumpIfZero(5),
        Instruction::JumpIfNotZero(4),
        Instruction::Print,
        Instruction::Read,
    ];
    assert_eq!(parse(input).unwrap(), expected);
}

#[test]
fn vm_test_consecutive_instructions() {
    let input = vec![
        Command::JumpIfZero,
        Command::Add,
        Command::Add,
        Command::JumpIfNotZero,
        Command::Sub,
        Command::Sub,
        Command::Sub,
        Command::Read,
    ];
    let expected = vec![
        Instruction::JumpIfZero(3),
        Instruction::Add(1),
        Instruction::Add(1),
        Instruction::JumpIfNotZero(0),
        Instruction::Sub(1),
        Instruction::Sub(1),
        Instruction::Sub(1),
        Instruction::Read,
    ];
    assert_eq!(parse(input).unwrap(), expected);
}

#[test]
fn vm_test_balanced_brackets() {
    let input = vec![
        Command::JumpIfZero,
        Command::JumpIfZero,
        Command::JumpIfZero,
        Command::JumpIfZero,
        Command::Add,
        Command::JumpIfNotZero,
        Command::JumpIfNotZero,
        Command::JumpIfNotZero,
        Command::JumpIfNotZero,
    ];
    let expected = vec![
        Instruction::JumpIfZero(8),
        Instruction::JumpIfZero(7),
        Instruction::JumpIfZero(6),
        Instruction::JumpIfZero(5),
        Instruction::Add(1),
        Instruction::JumpIfNotZero(3),
        Instruction::JumpIfNotZero(2),
        Instruction::JumpIfNotZero(1),
        Instruction::JumpIfNotZero(0),
    ];
    assert_eq!(parse(input).unwrap(), expected);
}

#[test]
fn vm_test_missing_closing_bracket() {
    let input = vec![Command::JumpIfZero, Command::Add];
    assert!(parse(input).is_err());
}

#[test]
fn vm_test_missing_opening_bracket() {
    let input = vec![Command::Add, Command::JumpIfNotZero];
    assert!(parse(input).is_err());
}

#[test]
fn vm_test_end_to_end_eight_by_eight() {
    let program = parse(lex("++++++++[>++++++++<-]>.")).unwrap();
    let mut interpreter = Interpreter::new(4);
    let mut output = Vec::new();
    let no_input: [u8; 0] = [];
    let result = interpreter.run(&program, &no_input, &mut output, 1_000_000);
    assert_eq!(result, Ok(true));
    assert_eq!(output, vec![64u8]);
}

#[test]
fn vm_test_pointer_errors() {
    let mut interpreter = Interpreter::new(2);
    let mut output = Vec::new();
    let no_input: [u8; 0] = [];
    let program = parse(lex(">>")).unwrap();
    let result = interpreter.run(&program, &no_input, &mut output, 1_000);
    assert_eq!(result, Err(Error::PointerOverflow));

    let mut interpreter = Interpreter::new(2);
    let program = parse(lex("<")).unwrap();
    let result = interpreter.run(&program, &no_input, &mut output, 1_000);
    assert_eq!(result, Err(Error::PointerUnderflow));
}

#[test]
fn vm_test_read_and_budget() {
    let mut interpreter = Interpreter::new(2);
    let mut output = Vec::new();
    let input: [u8; 1] = [42];
    let program = parse(lex(",.,.")).unwrap();
    let result = interpreter.run(&program, &input, &mut output, 1_000);
    assert_eq!(result, Ok(true));
    assert_eq!(output, vec![42u8, 0u8]);

    let mut interpreter = Interpreter::new(2);
    let looping = parse(lex("+[]")).unwrap();
    let result = interpreter.run(&looping, &input, &mut output, 50);
    assert_eq!(result, Ok(false));
}

#[test]
fn vm_test_basic_combine() {
    let input = vec![
        Instruction::Add(1),
        Instruction::Add(2),
        Instruction::Add(3),
        Instruction::Add(4),
        Instruction::Sub(4),
        Instruction::Sub(3),
        Instruction::MoveLeft(2),
        Instruction::MoveLeft(1),
        Instruction::MoveRight(3),
        Instruction::MoveRight(1),
        Instruction::Clear,
        Instruction::Clear,
    ];
    let expected = vec![Instruction::Add(10), Instruction::Sub(7), Instruction::MoveLeft(3), Instruction::MoveRight(4), Instruction::Clear];
    assert_eq!(combine_instructions(input), expected);
}

#[test]
fn vm_test_no_combinations() {
    let input = vec![
        Instruction::Add(1),
        Instruction::Sub(1),
        Instruction::Add(1),
        Instruction::Sub(1),
        Instruction::Add(1),
        Instruction::Clear,
        Instruction::Add(1),
        Instruction::Clear,
        Instruction::MoveLeft(1),
        Instruction::MoveRight(1),
        Instruction::MoveLeft(1),
        Instruction::MoveRight(1),
    ];
    let optimized = combine_instructions(input.clone());
    assert_eq!(optimized, input);
}

#[test]
fn vm_test_non_combinable_instructions() {
    let input = vec![
        Instruction::JumpIfZero(1),
        Instruction::JumpIfNotZero(0),
        Instruction::JumpIfZero(1),
        Instruction::JumpIfZero(1),
        Instruction::JumpIfNotZero(1),
        Instruction::JumpIfNotZero(1),
        Instruction::Read,
        Instruction::Read,
        Instruction::Print,
        Instruction::Print,
    ];
    let optimized = combine_instructions(input.clone());
    assert_eq!(optimized, input);
}

#[test]
fn vm_test_combine_empty_input() {
    let input: Vec<Instruction> = vec![];
    let expected: Vec<Instruction> = vec![];
    assert_eq!(combine_instructions(input), expected);
}

#[test]
fn vm_test_clear_loop_rewrites() {
    let empty: Vec<Instruction> = vec![];
    assert_eq!(optimize_clear_loop(empty.clone()), empty);

    let input = vec![Instruction::JumpIfZero(2), Instruction::Sub(1), Instruction::JumpIfNotZero(0)];
    assert_eq!(
        optimize_clear_loop(input),
        vec![Instruction::Clear]
    );

    let input = vec![Instruction::JumpIfZero(2), Instruction::Add(1), Instruction::JumpIfNotZero(0)];
    assert_eq!(
        optimize_clear_loop(input),
        vec![Instruction::Clear]
    );

    let input = vec![Instruction::JumpIfZero(2), Instruction::Sub(5), Instruction::JumpIfNotZero(0)];
    assert_eq!(
        optimize_clear_loop(input.clone()),
        input
    );

    let input = vec![Instruction::JumpIfZero(2), Instruction::Add(5), Instruction::JumpIfNotZero(0)];
    assert_eq!(
        optimize_clear_loop(input.clone()),
        input
    );

    let input = vec![Instruction::JumpIfZero(3), Instruction::Sub(1), Instruction::Sub(1), Instruction::JumpIfNotZero(0)];
    assert_eq!(
        optimize_clear_loop(input.clone()),
        input
    );

    let input = vec![Instruction::JumpIfZero(1), Instruction::JumpIfNotZero(0)];
    assert_eq!(
        optimize_clear_loop(input.clone()),
        input
    );
}

#[test]
fn vm_test_optimize_folds_and_relinks() {
    let program = parse(lex("+[-]")).unwrap();
    let optimized = optimize(program);
    assert_eq!(optimized, vec![Instruction::Add(1), Instruction::Clear]);
}

#[test]
fn vm_test_optimized_end_to_end() {
    let program = parse(lex("++++++++[>++++++++<-]>.")).unwrap();
    let optimized = optimize(program);
    let mut interpreter = Interpreter::new(4);
    let mut output = Vec::new();
    let no_input: [u8; 0] = [];
    let result = interpreter.run(&optimized, &no_input, &mut output, 1_000_000);
    assert_eq!(result, Ok(true));
    assert_eq!(output, vec![64u8]);
}
