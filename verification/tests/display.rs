use regex::Regex;
use stackalc::instructions::Instruction;
use stackalc::parser::ParseError;
use stackalc::scanner::scan_raw;
use stackalc::token::Token;

fn every_instruction() -> Vec<Instruction> {
    let mut all = vec![
        Instruction::LDC(2.5f64.to_bits()),
        Instruction::NEG,
        Instruction::ADD,
        Instruction::MUL,
        Instruction::SUB,
        Instruction::DIV,
        Instruction::CEQ,
        Instruction::CGT,
        Instruction::CLT,
        Instruction::DUP,
        Instruction::POP,
        Instruction::NOP,
        Instruction::RNG,
    ];
    for n in [0, 1, 9, 10, 31, 32, 99, 100, 12345, usize::MAX - 1, usize::MAX] {
        all.push(Instruction::LDV(n));
        all.push(Instruction::STV(n));
        all.push(Instruction::BR(n));
        all.push(Instruction::BRTRUE(n));
        all.push(Instruction::BRFALSE(n));
    }
    all
}

/// What raw input makes of one word, by the patterns that define it.
fn by_pattern(word: &str) -> Option<Token> {
    let operand = |pattern: &str| -> Option<String> {
        Regex::new(pattern)
            .unwrap()
            .captures(word)
            .map(|found| found[1].to_string())
    };
    let index = |text: String| text.parse::<usize>().ok();
    if let Some(text) = operand(r"^ldc:(\d+(?:\.\d+)?)$") {
        text.parse::<f64>().ok().map(|_| Token::Literal(text))
    } else if let Some(text) = operand(r"^ldv:(\d+)$") {
        index(text).map(|n| Token::Mnemonic(Instruction::LDV(n)))
    } else if let Some(text) = operand(r"^stv:(\d+)$") {
        index(text).map(|n| Token::Mnemonic(Instruction::STV(n)))
    } else if let Some(text) = operand(r"^br:(\d+)$") {
        index(text).map(|n| Token::Mnemonic(Instruction::BR(n)))
    } else if let Some(text) = operand(r"^brtrue:(\d+)$") {
        index(text).map(|n| Token::Mnemonic(Instruction::BRTRUE(n)))
    } else if let Some(text) = operand(r"^brfalse:(\d+)$") {
        index(text).map(|n| Token::Mnemonic(Instruction::BRFALSE(n)))
    } else {
        match word {
            "add" => Some(Instruction::ADD),
            "sub" => Some(Instruction::SUB),
            "mul" => Some(Instruction::MUL),
            "div" => Some(Instruction::DIV),
            "neg" => Some(Instruction::NEG),
            "ceq" => Some(Instruction::CEQ),
            "cgt" => Some(Instruction::CGT),
            "clt" => Some(Instruction::CLT),
            "dup" => Some(Instruction::DUP),
            "pop" => Some(Instruction::POP),
            "nop" => Some(Instruction::NOP),
            "rng" => Some(Instruction::RNG),
            _ => None,
        }
        .map(Token::Mnemonic)
    }
}

#[test]
fn instructions_are_displayed_by_their_mnemonics() {
    let shown = |instruction: Instruction| instruction.to_string("");
    assert_eq!(Instruction::LDC(5.0f64.to_bits()).to_string("5"), "ldc:5");
    assert_eq!(Instruction::LDC(0).to_string("0.1"), "ldc:0.1");
    assert_eq!(shown(Instruction::LDV(3)), "ldv:3");
    assert_eq!(shown(Instruction::STV(31)), "stv:31");
    assert_eq!(shown(Instruction::NEG), "neg");
    assert_eq!(shown(Instruction::ADD), "add");
    assert_eq!(shown(Instruction::MUL), "mul");
    assert_eq!(shown(Instruction::SUB), "sub");
    assert_eq!(shown(Instruction::DIV), "div");
    assert_eq!(shown(Instruction::CEQ), "ceq");
    assert_eq!(shown(Instruction::CGT), "cgt");
    assert_eq!(shown(Instruction::CLT), "clt");
    assert_eq!(shown(Instruction::DUP), "dup");
    assert_eq!(shown(Instruction::POP), "pop");
    assert_eq!(shown(Instruction::NOP), "nop");
    assert_eq!(shown(Instruction::RNG), "rng");
    assert_eq!(shown(Instruction::BR(0)), "br:0");
    assert_eq!(shown(Instruction::BRTRUE(10)), "brtrue:10");
    assert_eq!(shown(Instruction::BRFALSE(1002003)), "brfalse:1002003");
    assert_eq!(
        shown(Instruction::BR(usize::MAX)),
        format!("br:{}", usize::MAX)
    );
}

#[test]
fn constants_are_displayed_as_the_caller_renders_them() {
    for value in [5.0f64, 0.1, 1e21, 1.5e-7, -2.0, f64::INFINITY, f64::NAN] {
        let text = value.to_string();
        assert_eq!(
            Instruction::LDC(value.to_bits()).to_string(&text),
            format!("ldc:{}", value)
        );
    }
    assert_eq!(Instruction::ADD.to_string("5"), "add");
    assert_eq!(Instruction::LDV(1).to_string("5"), "ldv:1");
}

#[test]
fn index_operands_are_displayed_as_the_standard_numerals() {
    for n in [0usize, 7, 10, 19, 100, 101, 999, 1000, 65535, 4294967295, usize::MAX] {
        assert_eq!(Instruction::LDV(n).to_string(""), format!("ldv:{}", n));
    }
}

#[test]
fn raw_input_reads_back_what_is_displayed() {
    for instruction in every_instruction() {
        let text = instruction.to_string("2.5");
        let expected = match instruction {
            Instruction::LDC(_) => Token::Literal("2.5".to_string()),
            other => Token::Mnemonic(other),
        };
        assert_eq!(scan_raw(&text), vec![expected], "{text}");
    }
}

#[test]
fn raw_words_are_read_as_their_patterns_say() {
    let mut words: Vec<String> = every_instruction()
        .iter()
        .map(|instruction| instruction.to_string("7"))
        .collect();
    for word in [
        "ldc:", "ldc:.5", "ldc:5.", "ldc:5.0", "ldc:0.5", "ldc:1.2.3", "ldc:00.00", "ldc:-1",
        "ldc:1e3", "ldc:\u{663}", "ldc:1\u{663}", "ldc:1.\u{663}", "ldc:5\n", "ldc:12a",
        "ldv:", "ldv:-1", "ldv:1.0", "ldv:x", "ldv:\u{663}", "ldv:1\u{661}", "ldv:+1",
        "ldv:0012", "stv:17", "stv:", "br:", "br:1:", "br:1 ", "brtrue", "brtrue:",
        "brtrue:5", "brfalse:a", "brfalse:6", "brfals:6", "ADD", "Add", "add:", "addx", "ad",
        "ldv", "ldv:99999999999999999999999999", "br:18446744073709551615",
        "br:18446744073709551616", "br:184467440737095516150", "x", "+", "1", "nop1", "rng:",
        "xldv:1", "ldc:9999999999999999999999999999999999999999.5",
    ] {
        words.push(word.to_string());
    }
    for word in words {
        if word.chars().any(char::is_whitespace) || word.is_empty() {
            continue;
        }
        let expected: Vec<Token> = by_pattern(&word).into_iter().collect();
        assert_eq!(scan_raw(&word), expected, "{word}");
    }
}

#[test]
fn parse_errors_are_reported_in_words() {
    assert_eq!(
        ParseError::MismatchedParentheses.to_string(),
        "Mismatched parentheses"
    );
    assert_eq!(
        ParseError::InvalidNumber("1.2.3".to_string()).to_string(),
        "Invalid number: '1.2.3'"
    );
    assert_eq!(
        ParseError::InvalidNumber(String::new()).to_string(),
        "Invalid number: ''"
    );
    assert_eq!(
        ParseError::UnexpectedCharacter('x').to_string(),
        "Unexpected character: 'x'"
    );
    assert_eq!(
        ParseError::UnexpectedCharacter('\u{e9}').to_string(),
        "Unexpected character: '\u{e9}'"
    );
    assert_eq!(ParseError::EmptyExpression.to_string(), "Empty expression");
}

#[test]
fn parse_errors_can_be_copied_and_compared() {
    let error = ParseError::InvalidNumber("..".to_string());
    assert_eq!(error.clone(), error);
    assert_ne!(error, ParseError::EmptyExpression);
    let token = Token::Literal("12".to_string());
    assert_eq!(token.clone(), token);
    assert_eq!(Token::Mnemonic(Instruction::NOP).clone(), Token::Mnemonic(Instruction::NOP));
}
