use brainrust::program::Instruction;
use brainrust::program::{clear_loop, combine_instructions};

#[test]
fn test_basic_combine() {
    let mut input = vec![
        Instruction::Add(1),
        Instruction::Add(2),
        Instruction::Add(3),
        Instruction::Add(4),
        Instruction::Sub(4),
        Instruction::Sub(3),
        Instruction::MoveLeft(2),
        Instruction::MoveLeft(1),
        Instruction::MoveRight(3),
        Instruction::MoveRight(1),
        Instruction::Store(0),
        Instruction::Store(0),
    ];
    let expected = vec![
        Instruction::Add(10),
        Instruction::Sub(7),
        Instruction::MoveLeft(3),
        Instruction::MoveRight(4),
        Instruction::Store(0),
    ];
    combine_instructions::optimize(&mut input);
    assert_eq!(input, expected);
}

#[test]
fn test_no_combinations() {
    let mut input = vec![
        Instruction::Add(1),
        Instruction::Sub(1),
        Instruction::Add(1),
        Instruction::Sub(1),
        Instruction::Add(1),
        Instruction::Store(0),
        Instruction::Add(1),
        Instruction::Store(0),
        Instruction::MoveLeft(1),
        Instruction::MoveRight(1),
        Instruction::MoveLeft(1),
        Instruction::MoveRight(1),
    ];
    let expected = input.clone();
    combine_instructions::optimize(&mut input);
    assert_eq!(input, expected);
}

#[test]
fn test_non_combinable_instructions() {
    let mut input = vec![
        Instruction::Loop { body: vec![] },
        Instruction::Loop {
            body: vec![Instruction::Read, Instruction::Read],
        },
        Instruction::Loop { body: vec![] },
        Instruction::Read,
        Instruction::Read,
        Instruction::Print,
        Instruction::Print,
    ];
    let expected = input.clone();
    combine_instructions::optimize(&mut input);
    assert_eq!(input, expected);
}

#[test]
fn test_combine_empty_input() {
    let mut input = vec![];
    let expected: Vec<Instruction> = vec![];
    combine_instructions::optimize(&mut input);
    assert_eq!(input, expected);
}

#[test]
fn test_combine_multiple_nested_loops() {
    let mut input = vec![Instruction::Loop {
        body: vec![
            Instruction::Add(1),
            Instruction::Add(2),
            Instruction::Loop {
                body: vec![
                    Instruction::MoveRight(1),
                    Instruction::MoveRight(2),
                    Instruction::Loop {
                        body: vec![Instruction::Sub(1), Instruction::Sub(2)],
                    },
                ],
            },
        ],
    }];
    let expected = vec![Instruction::Loop {
        body: vec![
            Instruction::Add(3),
            Instruction::Loop {
                body: vec![
                    Instruction::MoveRight(3),
                    Instruction::Loop {
                        body: vec![Instruction::Sub(3)],
                    },
                ],
            },
        ],
    }];
    combine_instructions::optimize(&mut input);
    assert_eq!(input, expected);
}

#[test]
fn test_clear_loop_empty_input() {
    let mut input = vec![];
    let expected: Vec<Instruction> = vec![];
    clear_loop::optimize(&mut input);
    assert_eq!(input, expected);
}

#[test]
fn test_basic_subtract_clear_loop() {
    let mut input = vec![Instruction::Loop {
        body: vec![Instruction::Sub(1)],
    }];
    clear_loop::optimize(&mut input);
    assert_eq!(input, &[Instruction::Store(0)]);
}

#[test]
fn test_basic_add_clear_loop() {
    let mut input = vec![Instruction::Loop {
        body: vec![Instruction::Add(1)],
    }];
    clear_loop::optimize(&mut input);
    assert_eq!(input, &[Instruction::Store(0)]);
}

#[test]
fn test_combined_subtract_clear_loop() {
    let mut input = vec![Instruction::Loop {
        body: vec![Instruction::Sub(5)],
    }];
    let expected = input.clone();
    clear_loop::optimize(&mut input);
    assert_eq!(input, expected);
}

#[test]
fn test_combined_add_clear_loop() {
    let mut input = vec![Instruction::Loop {
        body: vec![Instruction::Add(5)],
    }];
    let expected = input.clone();
    clear_loop::optimize(&mut input);
    assert_eq!(input, expected);
}

#[test]
fn test_double_subtract_clear_loop() {
    let mut input = vec![Instruction::Loop {
        body: vec![Instruction::Sub(1), Instruction::Sub(1)],
    }];
    let expected = input.clone();
    clear_loop::optimize(&mut input);
    assert_eq!(input, expected);
}

#[test]
fn test_double_add_clear_loop() {
    let mut input = vec![Instruction::Loop {
        body: vec![Instruction::Add(1), Instruction::Add(1)],
    }];
    let expected = input.clone();
    clear_loop::optimize(&mut input);
    assert_eq!(input, expected);
}

#[test]
fn test_nested_subtract_clear_loop() {
    let mut input = vec![Instruction::Loop {
        body: vec![Instruction::Loop {
            body: vec![Instruction::Sub(1)],
        }],
    }];
    let expected = &[Instruction::Loop {
        body: vec![Instruction::Store(0)],
    }];
    clear_loop::optimize(&mut input);
    assert_eq!(input, expected);
}

#[test]
fn test_nested_add_clear_loop() {
    let mut input = vec![Instruction::Loop {
        body: vec![Instruction::Loop {
            body: vec![Instruction::Add(1)],
        }],
    }];
    let expected = &[Instruction::Loop {
        body: vec![Instruction::Store(0)],
    }];
    clear_loop::optimize(&mut input);
    assert_eq!(input, expected);
}

#[test]
fn test_clear_loop_invalid_input() {
    let mut input = vec![Instruction::Loop {
        body: vec![Instruction::Sub(1), Instruction::Sub(1)],
    }];
    let expected = input.clone();
    clear_loop::optimize(&mut input);
    assert_eq!(input, expected);

    let mut input = vec![Instruction::Loop {
        body: vec![Instruction::Sub(1), Instruction::Sub(1), Instruction::Sub(1)],
    }];
    let expected = input.clone();
    clear_loop::optimize(&mut input);
    assert_eq!(input, expected);

    let mut input = vec![Instruction::Loop {
        body: vec![
            Instruction::Sub(1),
            Instruction::Sub(1),
            Instruction::Sub(1),
            Instruction::Sub(1),
        ],
    }];
    let expected = input.clone();
    clear_loop::optimize(&mut input);
    assert_eq!(input, expected);

    let mut input = vec![Instruction::Loop {
        body: vec![
            Instruction::Sub(1),
            Instruction::Sub(1),
            Instruction::Sub(1),
            Instruction::Sub(1),
            Instruction::Sub(1),
        ],
    }];
    let expected = input.clone();
    clear_loop::optimize(&mut input);
    assert_eq!(input, expected);

    let mut input = vec![Instruction::Loop {
        body: vec![Instruction::Loop {
            body: vec![Instruction::MoveRight(1)],
        }],
    }];
    let expected = input.clone();
    clear_loop::optimize(&mut input);
    assert_eq!(input, expected);

    let mut input = vec![Instruction::Loop {
        body: vec![Instruction::Sub(1), Instruction::Add(1)],
    }];
    let expected = input.clone();
    clear_loop::optimize(&mut input);
    assert_eq!(input, expected);

    let mut input = vec![Instruction::Loop { body: vec![] }];
    let expected = input.clone();
    clear_loop::optimize(&mut input);
    assert_eq!(input, expected);
}
