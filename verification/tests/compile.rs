use stackalc::instructions::Instruction;
use stackalc::machine::Stackalc;
use stackalc::parser::{is_operator, precedence, shunting_yard, CalcMode, OpOrNum, ParseError};
use stackalc::scanner::{scan, scan_infix, scan_postfix, scan_raw};
use stackalc::token::Token;

fn bits(value: f64) -> u64 {
    value.to_bits()
}

/// Reads every literal that is a number, as the calculator's front end does.
fn read(tokens: Vec<Token>) -> Vec<Token> {
    tokens
        .into_iter()
        .map(|token| {
            let value = token
                .literal()
                .and_then(|text| text.parse::<f64>().ok())
                .map(f64::to_bits);
            token.resolve(value)
        })
        .collect()
}

fn infix(text: &str) -> Result<Vec<OpOrNum>, ParseError> {
    shunting_yard(&read(scan_infix(text)))
}

fn compiled(text: &str, mode: CalcMode) -> Vec<Instruction> {
    let mut machine = Stackalc::default();
    machine.load_input(&mode, &read(scan(text, &mode)));
    machine.expr
}

#[test]
fn operators_and_their_precedence() {
    for c in ['+', '-', '*', '/'] {
        assert!(is_operator(c));
    }
    for c in ['(', ')', '.', '1', ' ', 'x', '^', '%'] {
        assert!(!is_operator(c));
    }
    assert_eq!(precedence('+'), 1);
    assert_eq!(precedence('-'), 1);
    assert_eq!(precedence('*'), 2);
    assert_eq!(precedence('/'), 2);
    assert_eq!(precedence('('), 0);
    assert_eq!(precedence('x'), 0);
}

#[test]
fn infix_scan_gathers_numbers_and_drops_whitespace() {
    assert_eq!(
        scan_infix(" 12.5+ (3*4)\t-.5 "),
        vec![
            Token::Literal("12.5".to_string()),
            Token::Operator('+'),
            Token::Open,
            Token::Literal("3".to_string()),
            Token::Operator('*'),
            Token::Literal("4".to_string()),
            Token::Close,
            Token::Operator('-'),
            Token::Literal(".5".to_string()),
        ]
    );
}

#[test]
fn infix_scan_stops_at_the_first_unexpected_character() {
    assert_eq!(
        scan_infix("1 + x * 2"),
        vec![
            Token::Literal("1".to_string()),
            Token::Operator('+'),
            Token::Unexpected('x'),
        ]
    );
}

#[test]
fn infix_scan_takes_any_numeric_character_into_a_literal() {
    assert_eq!(
        scan_infix("1\u{b2}\u{a0}\u{663}"),
        vec![
            Token::Literal("1\u{b2}".to_string()),
            Token::Literal("\u{663}".to_string()),
        ]
    );
}

#[test]
fn precedence_orders_the_postfix_form() {
    assert_eq!(
        infix("2 + 3 * 4"),
        Ok(vec![
            OpOrNum::Num(bits(2.0)),
            OpOrNum::Num(bits(3.0)),
            OpOrNum::Num(bits(4.0)),
            OpOrNum::Op('*'),
            OpOrNum::Op('+'),
        ])
    );
    assert_eq!(
        infix("(2 + 3) * 4"),
        Ok(vec![
            OpOrNum::Num(bits(2.0)),
            OpOrNum::Num(bits(3.0)),
            OpOrNum::Op('+'),
            OpOrNum::Num(bits(4.0)),
            OpOrNum::Op('*'),
        ])
    );
}

#[test]
fn operators_of_equal_precedence_group_to_the_left() {
    assert_eq!(
        infix("8 - 3 - 2"),
        Ok(vec![
            OpOrNum::Num(bits(8.0)),
            OpOrNum::Num(bits(3.0)),
            OpOrNum::Op('-'),
            OpOrNum::Num(bits(2.0)),
            OpOrNum::Op('-'),
        ])
    );
    assert_eq!(
        infix("8 / 4 * 2 + 1"),
        Ok(vec![
            OpOrNum::Num(bits(8.0)),
            OpOrNum::Num(bits(4.0)),
            OpOrNum::Op('/'),
            OpOrNum::Num(bits(2.0)),
            OpOrNum::Op('*'),
            OpOrNum::Num(bits(1.0)),
            OpOrNum::Op('+'),
        ])
    );
}

#[test]
fn nested_parentheses() {
    assert_eq!(
        infix("((1 + 2) * (3 - 4)) / 5"),
        Ok(vec![
            OpOrNum::Num(bits(1.0)),
            OpOrNum::Num(bits(2.0)),
            OpOrNum::Op('+'),
            OpOrNum::Num(bits(3.0)),
            OpOrNum::Num(bits(4.0)),
            OpOrNum::Op('-'),
            OpOrNum::Op('*'),
            OpOrNum::Num(bits(5.0)),
            OpOrNum::Op('/'),
        ])
    );
}

#[test]
fn mismatched_parentheses_are_refused() {
    assert_eq!(infix("(1 + 2"), Err(ParseError::MismatchedParentheses));
    assert_eq!(infix("1 + 2)"), Err(ParseError::MismatchedParentheses));
    assert_eq!(infix(")"), Err(ParseError::MismatchedParentheses));
    assert_eq!(infix("("), Err(ParseError::MismatchedParentheses));
}

#[test]
fn empty_expressions_are_refused() {
    assert_eq!(infix(""), Err(ParseError::EmptyExpression));
    assert_eq!(infix("   "), Err(ParseError::EmptyExpression));
    assert_eq!(infix(" \t\n\u{a0}"), Err(ParseError::EmptyExpression));
    assert_eq!(shunting_yard(&Vec::new()), Err(ParseError::EmptyExpression));
}

#[test]
fn unexpected_characters_are_refused() {
    assert_eq!(infix("1 + x"), Err(ParseError::UnexpectedCharacter('x')));
    assert_eq!(infix("2 ^ 3"), Err(ParseError::UnexpectedCharacter('^')));
}

#[test]
fn unreadable_numbers_are_refused() {
    assert_eq!(
        infix("1.2.3"),
        Err(ParseError::InvalidNumber("1.2.3".to_string()))
    );
    assert_eq!(infix("."), Err(ParseError::InvalidNumber(".".to_string())));
    assert_eq!(
        infix("4 + \u{b2}"),
        Err(ParseError::InvalidNumber("\u{b2}".to_string()))
    );
}

#[test]
fn the_first_fault_from_the_left_is_reported() {
    assert_eq!(infix("1) x"), Err(ParseError::MismatchedParentheses));
    assert_eq!(
        infix("1.2.3 )"),
        Err(ParseError::InvalidNumber("1.2.3".to_string()))
    );
    assert_eq!(infix("(1 + x"), Err(ParseError::UnexpectedCharacter('x')));
    assert_eq!(
        infix("1..2 + y"),
        Err(ParseError::InvalidNumber("1..2".to_string()))
    );
}

#[test]
fn shunting_yard_passes_over_mnemonics() {
    let tokens = vec![
        Token::Number(bits(1.0)),
        Token::Mnemonic(Instruction::DUP),
        Token::Operator('+'),
        Token::Number(bits(2.0)),
    ];
    assert_eq!(
        shunting_yard(&tokens),
        Ok(vec![
            OpOrNum::Num(bits(1.0)),
            OpOrNum::Num(bits(2.0)),
            OpOrNum::Op('+'),
        ])
    );
}

#[test]
fn infix_compiles_to_instructions() {
    assert_eq!(
        compiled("2 + 3 * 4", CalcMode::INFIX),
        vec![
            Instruction::LDC(bits(2.0)),
            Instruction::LDC(bits(3.0)),
            Instruction::LDC(bits(4.0)),
            Instruction::MUL,
            Instruction::ADD,
        ]
    );
    assert_eq!(
        compiled("1 - 2 / 4", CalcMode::INFIX),
        vec![
            Instruction::LDC(bits(1.0)),
            Instruction::LDC(bits(2.0)),
            Instruction::LDC(bits(4.0)),
            Instruction::DIV,
            Instruction::SUB,
        ]
    );
}

#[test]
fn a_refused_expression_adds_nothing() {
    let mut machine = Stackalc::default();
    machine.parse_infix(&read(scan_infix("1 + 2")));
    let before = machine.expr.clone();
    for text in ["(1 + 2", "1 + 2)", "", "   ", "1 + x", "1.2.3 + 4"] {
        machine.parse_infix(&read(scan_infix(text)));
        assert_eq!(machine.expr, before);
    }
}

#[test]
fn compiling_appends_to_the_program() {
    let mut machine = Stackalc::default();
    machine.parse_infix(&read(scan_infix("1 + 2")));
    machine.parse_postfix(&read(scan_postfix("3 *")));
    machine.parse_raw(&read(scan_raw("dup pop")));
    assert_eq!(
        machine.expr,
        vec![
            Instruction::LDC(bits(1.0)),
            Instruction::LDC(bits(2.0)),
            Instruction::ADD,
            Instruction::LDC(bits(3.0)),
            Instruction::MUL,
            Instruction::DUP,
            Instruction::POP,
        ]
    );
}

#[test]
fn postfix_scan_splits_at_whitespace() {
    assert_eq!(
        scan_postfix("  3 4.5\t+\n- * / ++ 1e3 abc "),
        vec![
            Token::Literal("3".to_string()),
            Token::Literal("4.5".to_string()),
            Token::Operator('+'),
            Token::Operator('-'),
            Token::Operator('*'),
            Token::Operator('/'),
            Token::Literal("++".to_string()),
            Token::Literal("1e3".to_string()),
            Token::Literal("abc".to_string()),
        ]
    );
}

#[test]
fn postfix_words_are_those_of_split_whitespace() {
    for text in [
        "",
        " ",
        "a",
        " a",
        "a ",
        "a  b",
        "\u{a0}1\u{2003}2\u{3000}",
        "x\ty\nz\r\n w",
        "\u{85}+\u{1680}-",
    ] {
        let expected: Vec<Token> = text
            .split_whitespace()
            .map(|word| match word {
                "+" => Token::Operator('+'),
                "-" => Token::Operator('-'),
                "*" => Token::Operator('*'),
                "/" => Token::Operator('/'),
                _ => Token::Literal(word.to_string()),
            })
            .collect();
        assert_eq!(scan_postfix(text), expected);
    }
}

#[test]
fn postfix_compiles_numbers_and_operators_and_skips_the_rest() {
    assert_eq!(
        compiled("3 4 + foo 2e1 * -1.5 / inf -", CalcMode::POSTFIX),
        vec![
            Instruction::LDC(bits(3.0)),
            Instruction::LDC(bits(4.0)),
            Instruction::ADD,
            Instruction::LDC(bits(20.0)),
            Instruction::MUL,
            Instruction::LDC(bits(-1.5)),
            Instruction::DIV,
            Instruction::LDC(bits(f64::INFINITY)),
            Instruction::SUB,
        ]
    );
    assert_eq!(compiled("( 1 + 2 )", CalcMode::POSTFIX).len(), 3);
}

#[test]
fn raw_token_ldc_5_is_one_load_constant() {
    assert_eq!(
        scan_raw("ldc:5"),
        vec![Token::Literal("5".to_string())]
    );
    assert_eq!(
        compiled("ldc:5", CalcMode::RAW),
        vec![Instruction::LDC(bits(5.0))]
    );
}

#[test]
fn raw_scan_knows_every_mnemonic() {
    assert_eq!(
        compiled(
            "ldc:2.5 ldv:3 stv:31 neg add mul sub div ceq cgt clt dup pop nop rng br:0 brtrue:12 brfalse:007",
            CalcMode::RAW
        ),
        vec![
            Instruction::LDC(bits(2.5)),
            Instruction::LDV(3),
            Instruction::STV(31),
            Instruction::NEG,
            Instruction::ADD,
            Instruction::MUL,
            Instruction::SUB,
            Instruction::DIV,
            Instruction::CEQ,
            Instruction::CGT,
            Instruction::CLT,
            Instruction::DUP,
            Instruction::POP,
            Instruction::NOP,
            Instruction::RNG,
            Instruction::BR(0),
            Instruction::BRTRUE(12),
            Instruction::BRFALSE(7),
        ]
    );
}

#[test]
fn raw_scan_drops_malformed_words() {
    for word in [
        "ldc:", "ldc:.5", "ldc:5.", "ldc:1.2.3", "ldc:-1", "ldc:1e3", "ldc:+1", "ldc:inf",
        "ldc:\u{663}", "ldv:", "ldv:-1", "ldv:1.0", "ldv:x", "ldv:\u{663}", "stv:+1", "br:",
        "br:1:", "brtrue", "brtrue:", "brfalse:a", "ADD", "add:", "addx", "ad", "", "ldv",
        "ldv:99999999999999999999999999", "br:18446744073709551616", "x", "+", "1",
    ] {
        assert_eq!(scan_raw(word), Vec::<Token>::new(), "{word}");
    }
}

#[test]
fn raw_index_may_be_as_large_as_the_machine_word() {
    assert_eq!(
        scan_raw(&format!("br:{}", usize::MAX)),
        vec![Token::Mnemonic(Instruction::BR(usize::MAX))]
    );
    assert_eq!(
        scan_raw("stv:0000000000000000000000000000000042"),
        vec![Token::Mnemonic(Instruction::STV(42))]
    );
}

#[test]
fn raw_mode_passes_over_operators() {
    let tokens = vec![
        Token::Operator('+'),
        Token::Mnemonic(Instruction::NOP),
        Token::Literal("5".to_string()),
        Token::Open,
    ];
    let mut machine = Stackalc::default();
    machine.parse_raw(&tokens);
    assert_eq!(machine.expr, vec![Instruction::NOP]);
}

#[test]
fn resolve_replaces_only_literals() {
    assert_eq!(
        Token::Literal("1".to_string()).resolve(Some(bits(1.0))),
        Token::Number(bits(1.0))
    );
    assert_eq!(
        Token::Literal("1".to_string()).resolve(None),
        Token::Literal("1".to_string())
    );
    assert_eq!(Token::Open.resolve(Some(7)), Token::Open);
    assert_eq!(Token::Number(3).resolve(Some(7)), Token::Number(3));
    assert_eq!(Token::Open.literal(), None);
    assert_eq!(
        Token::Literal("2.5".to_string()).literal(),
        Some(&"2.5".to_string())
    );
}
