use brainrust::program::clear_loop::optimize;
use brainrust::program::Instruction;

fn assert_optimizes_to(input: Vec<Instruction>, expected: &[Instruction]) {
    let mut input = input;
    optimize(&mut input);
    assert_eq!(input, expected);
}

#[test]
fn clear_loop_test_clear_loop_empty_input() {
    assert_optimizes_to(vec![], &[]);
}

#[test]
fn clear_loop_test_basic_subtract_clear_loop() {
    let input = vec![Instruction::Loop {
        body: vec![Instruction::Sub(1)],
    }];
    assert_optimizes_to(input, &[Instruction::Store(0)]);
}

#[test]
fn clear_loop_test_basic_add_clear_loop() {
    let input = vec![Instruction::Loop {
        body: vec![Instruction::Add(1)],
    }];
    assert_optimizes_to(input, &[Instruction::Store(0)]);
}

#[test]
fn clear_loop_test_combined_subtract_clear_loop() {
    let input = vec![Instruction::Loop {
        body: vec![Instruction::Sub(5)],
    }];
    assert_optimizes_to(input.clone(), &input.clone());
}

#[test]
fn clear_loop_test_combined_add_clear_loop() {
    let input = vec![Instruction::Loop {
        body: vec![Instruction::Add(5)],
    }];
    assert_optimizes_to(input.clone(), &input.clone());
}

#[test]
fn clear_loop_test_double_subtract_clear_loop() {
    let input = vec![Instruction::Loop {
        body: vec![Instruction::Sub(1), Instruction::Sub(1)],
    }];
    assert_optimizes_to(input.clone(), &input.clone());
}

#[test]
fn clear_loop_test_double_add_clear_loop() {
    let input = vec![Instruction::Loop {
        body: vec![Instruction::Add(1), Instruction::Add(1)],
    }];
    assert_optimizes_to(input.clone(), &input.clone());
}

#[test]
fn clear_loop_test_nested_subtract_clear_loop() {
    let input = vec![Instruction::Loop {
        body: vec![Instruction::Loop {
            body: vec![Instruction::Sub(1)],
        }],
    }];
    assert_optimizes_to(
        input,
        &[Instruction::Loop {
            body: vec![Instruction::Store(0)],
        }],
    );
}

#[test]
fn clear_loop_test_nested_add_clear_loop() {
    let input = vec![Instruction::Loop {
        body: vec![Instruction::Loop {
            body: vec![Instruction::Add(1)],
        }],
    }];
    assert_optimizes_to(
        input,
        &[Instruction::Loop {
            body: vec![Instruction::Store(0)],
        }],
    );
}
