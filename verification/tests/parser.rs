use brainrust::program::parser::parse;
use brainrust::program::Instruction;

#[test]
fn test_basic_parse() {
    let input = "><+-[].,";
    let expected = vec![
        Instruction::MoveRight(1),
        Instruction::MoveLeft(1),
        Instruction::Add(1),
        Instruction::Sub(1),
        Instruction::Loop { body: vec![] },
        Instruction::Print,
        Instruction::Read,
    ];
    assert_eq!(parse(input).unwrap(), expected);
}

#[test]
fn test_consecutive_instructions() {
    let input = "[++]---,";
    let expected = vec![
        Instruction::Loop {
            body: vec![Instruction::Add(1), Instruction::Add(1)],
        },
        Instruction::Sub(1),
        Instruction::Sub(1),
        Instruction::Sub(1),
        Instruction::Read,
    ];
    assert_eq!(parse(input).unwrap(), expected);
}

#[test]
fn test_balanced_brackets() {
    let input = "[[[[+]]]]";
    let expected = vec![Instruction::Loop {
        body: vec![Instruction::Loop {
            body: vec![Instruction::Loop {
                body: vec![Instruction::Loop {
                    body: vec![Instruction::Add(1)],
                }],
            }],
        }],
    }];
    assert_eq!(parse(input).unwrap(), expected);
}

#[test]
fn test_missing_closing_bracket() {
    assert!(parse("[+").is_err());
}

#[test]
fn test_missing_opening_bracket() {
    assert!(parse("+]").is_err());
}
