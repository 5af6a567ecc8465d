use brainrust::lexer::{lex, Command};

#[test]
fn test_basic_lex() {
    let input = "><+-[].,";
    let expected = vec![
        Command::MoveRight,
        Command::MoveLeft,
        Command::Add,
        Command::Sub,
        Command::JumpIfZero,
        Command::JumpIfNotZero,
        Command::Print,
        Command::Read,
    ];
    assert_eq!(lex(input), expected);
}

#[test]
fn test_lex_with_unicode() {
    let input = "🦀🦀🦀>🐚🐚<🌴🌴+🌊-🌊[🌊]🌊.🌊,🌊";
    let expected = vec![
        Command::MoveRight,
        Command::MoveLeft,
        Command::Add,
        Command::Sub,
        Command::JumpIfZero,
        Command::JumpIfNotZero,
        Command::Print,
        Command::Read,
    ];
    assert_eq!(lex(input), expected);
}

#[test]
fn test_with_empty_input() {
    let expected: Vec<Command> = vec![];
    assert_eq!(lex(""), expected);
}

#[test]
fn test_with_invalid_input() {
    let input = "What a beautiful 🦀🦀🦀🐚🐚🌴🌴🌊🌊🌊🌊🌊🌊 ocean landscape!";
    let expected: Vec<Command> = vec![];
    assert_eq!(lex(input), expected);
}
