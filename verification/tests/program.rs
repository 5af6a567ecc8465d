use brainrust::compiler::generate_code;
use brainrust::program::util::coalesce;
use brainrust::program::{Instruction, Program};

#[test]
fn test_empty_source_is_empty_program() {
    let program = Program::parse("").unwrap();
    assert!(program.instructions().is_empty());
}

#[test]
fn test_lone_open_bracket_fails() {
    assert!(Program::parse("[").is_err());
}

#[test]
fn test_lone_close_bracket_fails() {
    assert!(Program::parse("]").is_err());
}

#[test]
fn test_program_from_instructions() {
    let instructions = vec![Instruction::Add(2), Instruction::Print];
    let program = Program::from(instructions.clone());
    assert_eq!(program.instructions(), instructions.as_slice());
}

#[test]
fn test_optimized_leaves_original_unchanged() {
    let program = Program::parse("++").unwrap();
    let _ = program.optimized();
    assert_eq!(
        program.instructions(),
        &[Instruction::Add(1), Instruction::Add(1)]
    );
}

#[test]
fn test_optimized_merges_and_folds() {
    let program = Program::parse("+++[-]>>").unwrap().optimized();
    let expected = vec![
        Instruction::Add(3),
        Instruction::Store(0),
        Instruction::MoveRight(2),
    ];
    assert_eq!(program.instructions(), expected.as_slice());
}

#[test]
fn test_coalesce_is_idempotent_on_samples() {
    let mut once = vec![
        Instruction::Add(1),
        Instruction::Add(2),
        Instruction::Print,
        Instruction::Add(3),
        Instruction::Add(4),
    ];
    coalesce(&mut once);
    let mut twice = once.clone();
    coalesce(&mut twice);
    assert_eq!(once, twice);
    assert_eq!(
        once,
        vec![Instruction::Add(3), Instruction::Print, Instruction::Add(7)]
    );
}

#[test]
fn test_reoptimizing_is_a_no_op() {
    let program = Program::parse("++++[>++<-]-->><<[-]").unwrap().optimized();
    assert_eq!(program.optimized(), program);
}

#[test]
fn test_fold_exposes_new_adjacency_across_passes() {
    let program = Program::parse("[-][-]").unwrap().optimized();
    assert_eq!(program.instructions(), &[Instruction::Store(0)]);
}

#[test]
fn test_generate_code_straight_line() {
    let program = Program::parse("+.").unwrap().optimized();
    let code = generate_code(&program);
    let expected = "use std::io::{self, Read, Write};\n\nfn read() -> u8 {\n    let mut buffer = [0; 1];\n    let bytes = io::stdin().read(&mut buffer).unwrap();\n    if bytes > 0 { buffer[0] } else { 0 }\n}\n\nfn print(value: u8) {\n    io::stdout().write_all(&[value]).unwrap();\n}\n\nfn main() {\n    let mut memory = [0u8; 32768];\n    let mut pointer = 0usize;\n\n    memory[pointer] = memory[pointer].wrapping_add(1);\n    print(memory[pointer]);\n}\n";
    assert_eq!(code, expected);
}

#[test]
fn test_generate_code_nested_loop_indentation() {
    let program = Program::parse("[>[,]]").unwrap();
    let code = generate_code(&program);
    let body = "    while memory[pointer] != 0 {\n        pointer += 1;\n        while memory[pointer] != 0 {\n            memory[pointer] = read();\n        }\n    }\n}\n";
    assert!(code.ends_with(body));
}

#[test]
fn test_generate_code_decimal_magnitudes() {
    let program = Program::from(vec![
        Instruction::MoveRight(12),
        Instruction::Store(205),
        Instruction::Sub(30),
    ]);
    let code = generate_code(&program);
    assert!(code.contains("pointer += 12;\n"));
    assert!(code.contains("memory[pointer] = 205;\n"));
    assert!(code.contains("memory[pointer] = memory[pointer].wrapping_sub(30);\n"));
}
