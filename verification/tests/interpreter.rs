use brainrust::interpreter::{execute, profile, Error};
use brainrust::program::{Instruction, Program};

#[test]
fn test_end_to_end_eight_by_eight() {
    let program = Program::parse("++++++++[>++++++++<-]>.").unwrap().optimized();
    let mut output = Vec::new();
    let no_input: [u8; 0] = [];
    let result = execute(&program, &no_input, &mut output, 2, 1_000_000);
    assert_eq!(result, Ok(true));
    assert_eq!(output, vec![64u8]);
}

#[test]
fn test_end_to_end_five_then_zero() {
    let program = Program::parse("+++++.-----.").unwrap().optimized();
    let mut output = Vec::new();
    let no_input: [u8; 0] = [];
    let result = execute(&program, &no_input, &mut output, 1, 1_000);
    assert_eq!(result, Ok(true));
    assert_eq!(output, vec![5u8, 0u8]);
}

#[test]
fn test_wraparound_on_zero_cell() {
    let program = Program::parse("-.").unwrap();
    let mut output = Vec::new();
    let no_input: [u8; 0] = [];
    let result = execute(&program, &no_input, &mut output, 1, 1_000);
    assert_eq!(result, Ok(true));
    assert_eq!(output, vec![255u8]);
}

#[test]
fn test_pointer_overflow_full_sweep() {
    let program = Program::parse(">>>>").unwrap();
    let mut output = Vec::new();
    let no_input: [u8; 0] = [];
    let result = execute(&program, &no_input, &mut output, 4, 1_000);
    assert_eq!(result, Err(Error::PointerOverflow));
    assert!(output.is_empty());
}

#[test]
fn test_pointer_overflow_full_sweep_optimized() {
    let program = Program::parse(">>>>").unwrap().optimized();
    let mut output = Vec::new();
    let no_input: [u8; 0] = [];
    let result = execute(&program, &no_input, &mut output, 4, 1_000);
    assert_eq!(result, Err(Error::PointerOverflow));
}

#[test]
fn test_pointer_underflow_first_instruction() {
    let program = Program::parse("<+").unwrap();
    let mut output = Vec::new();
    let no_input: [u8; 0] = [];
    let result = execute(&program, &no_input, &mut output, 8, 1_000);
    assert_eq!(result, Err(Error::PointerUnderflow));
}

#[test]
fn test_read_at_end_of_input_stores_zero() {
    let program = Program::parse("+,.").unwrap();
    let mut output = Vec::new();
    let no_input: [u8; 0] = [];
    let result = execute(&program, &no_input, &mut output, 1, 1_000);
    assert_eq!(result, Ok(true));
    assert_eq!(output, vec![0u8]);
}

#[test]
fn test_read_consumes_input_in_order() {
    let program = Program::parse(",.,.").unwrap();
    let mut output = Vec::new();
    let input: [u8; 2] = [7, 9];
    let result = execute(&program, &input, &mut output, 1, 1_000);
    assert_eq!(result, Ok(true));
    assert_eq!(output, vec![7u8, 9u8]);
}

#[test]
fn test_budget_exhaustion_reported() {
    let program = Program::parse("+[]").unwrap();
    let mut output = Vec::new();
    let no_input: [u8; 0] = [];
    let result = execute(&program, &no_input, &mut output, 1, 10);
    assert_eq!(result, Ok(false));
}

#[test]
fn test_partial_output_stands_on_error() {
    let program = Program::parse("+.<").unwrap();
    let mut output = Vec::new();
    let no_input: [u8; 0] = [];
    let result = execute(&program, &no_input, &mut output, 1, 1_000);
    assert_eq!(result, Err(Error::PointerUnderflow));
    assert_eq!(output, vec![1u8]);
}

#[test]
fn test_profile_counts_by_kind() {
    let program = Program::parse(">+<.").unwrap();
    let mut output = Vec::new();
    let no_input: [u8; 0] = [];
    let analytics = profile(&program, &no_input, &mut output, 4, 1_000).unwrap();
    assert_eq!(analytics.move_right, 1);
    assert_eq!(analytics.move_left, 1);
    assert_eq!(analytics.add, 1);
    assert_eq!(analytics.sub, 0);
    assert_eq!(analytics.print, 1);
    assert_eq!(analytics.read, 0);
    assert_eq!(analytics.highest_memory_access, 1);
    assert_eq!(output, vec![0u8]);
}

#[test]
fn test_profile_counts_magnitudes() {
    let program = Program::parse("+++>>").unwrap().optimized();
    let mut output = Vec::new();
    let no_input: [u8; 0] = [];
    let analytics = profile(&program, &no_input, &mut output, 4, 1_000).unwrap();
    assert_eq!(analytics.add, 3);
    assert_eq!(analytics.move_right, 2);
    assert_eq!(analytics.highest_memory_access, 2);
}

#[test]
fn test_profile_leaf_loop_patterns() {
    let program = Program::parse("++[-]").unwrap();
    let mut output = Vec::new();
    let no_input: [u8; 0] = [];
    let analytics = profile(&program, &no_input, &mut output, 4, 1_000).unwrap();
    assert_eq!(analytics.add, 2);
    assert_eq!(analytics.sub, 2);
    assert_eq!(
        analytics.loop_patterns,
        vec![(vec![Instruction::Sub(1)], 1u64)]
    );
}

#[test]
fn test_profile_same_output_and_error_as_execute() {
    let source = "+++.>>";
    let program = Program::parse(source).unwrap();
    let mut plain_output = Vec::new();
    let mut profiled_output = Vec::new();
    let no_input: [u8; 0] = [];
    let plain = execute(&program, &no_input, &mut plain_output, 2, 1_000);
    let profiled = profile(&program, &no_input, &mut profiled_output, 2, 1_000);
    assert_eq!(plain, Err(Error::PointerOverflow));
    assert!(profiled.is_err());
    assert_eq!(plain_output, profiled_output);
}
