use std::collections::VecDeque;
use vstd::prelude::*;
use vstd::string::StringExecFns;
use crate::instructions::Instruction;
use crate::machine::{Machine, Stackalc};
use crate::token::{gathered, Symbol, Token};

verus! {

/// One item of an expression in postfix order.
#[derive(Clone, Copy, Debug, PartialEq, Eq, Structural)]
pub enum OpOrNum {
    Op(char),
    Num(u64),
}

/// Why an infix expression was refused.
#[derive(Debug, PartialEq, Eq)]
pub enum ParseError {
    MismatchedParentheses,
    InvalidNumber(String),
    UnexpectedCharacter(char),
    EmptyExpression,
}

/// The mathematical value of a `ParseError`.
pub enum Fault {
    MismatchedParentheses,
    InvalidNumber(Seq<char>),
    UnexpectedCharacter(char),
    EmptyExpression,
}

impl View for ParseError {
    type V = Fault;

    open spec fn view(&self) -> Fault {
        match self {
            ParseError::MismatchedParentheses => Fault::MismatchedParentheses,
            ParseError::InvalidNumber(text) => Fault::InvalidNumber(text@),
            ParseError::UnexpectedCharacter(c) => Fault::UnexpectedCharacter(*c),
            ParseError::EmptyExpression => Fault::EmptyExpression,
        }
    }
}

impl Clone for ParseError {
    fn clone(&self) -> (error: ParseError)
        ensures
            error@ == self@,
    {
        match self {
            ParseError::MismatchedParentheses => ParseError::MismatchedParentheses,
            ParseError::InvalidNumber(text) => ParseError::InvalidNumber(text.clone()),
            ParseError::UnexpectedCharacter(c) => ParseError::UnexpectedCharacter(*c),
            ParseError::EmptyExpression => ParseError::EmptyExpression,
        }
    }
}

/// What a fault is reported as.
pub open spec fn message(fault: Fault) -> Seq<char> {
    match fault {
        Fault::MismatchedParentheses => "Mismatched parentheses"@,
        Fault::InvalidNumber(text) => "Invalid number: '"@ + text + "'"@,
        Fault::UnexpectedCharacter(c) => "Unexpected character: '"@.push(c) + "'"@,
        Fault::EmptyExpression => "Empty expression"@,
    }
}

impl ParseError {
    /// The error as a message for the user.
    pub fn to_string(&self) -> (text: String)
        ensures
            text@ == message(self@),
    {
        match self {
            ParseError::MismatchedParentheses => String::from_str("Mismatched parentheses"),
            ParseError::InvalidNumber(num_str) => {
                let mut text = String::from_str("Invalid number: '");
                text.append(num_str.as_str());
                text.append("'");
                text
            },
            ParseError::UnexpectedCharacter(c) => {
                let mut text = String::from_str("Unexpected character: '");
                text.push(*c);
                text.append("'");
                text
            },
            ParseError::EmptyExpression => String::from_str("Empty expression"),
        }
    }
}

/// Whether `c` is one of the four binary operators.
pub open spec fn operator(c: char) -> bool {
    c == '+' || c == '-' || c == '*' || c == '/'
}

/// The binding strength of an operator; zero for every other character.
pub open spec fn strength(op: char) -> u8 {
    if op == '+' || op == '-' {
        1
    } else if op == '*' || op == '/' {
        2
    } else {
        0
    }
}

/// The binding strength of an operator: one for `+` and `-`, two for `*`
/// and `/`, zero for every other character.
pub fn precedence(op: char) -> (p: u8)
    ensures
        p == strength(op),
{
    match op {
        '+' | '-' => 1,
        '*' | '/' => 2,
        _ => 0,
    }
}

/// Whether `c` is one of `+ - * /`.
pub fn is_operator(c: char) -> (b: bool)
    ensures
        b == operator(c),
{
    c == '+' || c == '-' || c == '*' || c == '/'
}

/// The state of the conversion by operator precedence: what has been
/// emitted, and the operators and open parentheses that wait, the most
/// recent last.
pub struct Yard {
    pub output: Seq<OpOrNum>,
    pub waiting: Seq<char>,
}

impl Yard {
    pub open spec fn start() -> Yard {
        Yard { output: Seq::empty(), waiting: Seq::empty() }
    }

    /// Moves the most recent waiting operator to the output.
    pub open spec fn emit_last(self) -> Yard {
        Yard {
            output: self.output.push(OpOrNum::Op(self.waiting.last())),
            waiting: self.waiting.drop_last(),
        }
    }

    /// Emits the waiting operators that bind at least as strongly as
    /// `incoming`, down to the nearest open parenthesis.
    pub open spec fn yield_to(self, incoming: char) -> Yard
        decreases self.waiting.len(),
    {
        if self.waiting.len() > 0 && self.waiting.last() != '(' && strength(self.waiting.last())
            >= strength(incoming) {
            self.emit_last().yield_to(incoming)
        } else {
            self
        }
    }

    /// Emits the waiting operators down to the nearest open parenthesis
    /// and removes that parenthesis; `None` where there is none.
    pub open spec fn close(self) -> Option<Yard>
        decreases self.waiting.len(),
    {
        if self.waiting.len() == 0 {
            None
        } else if self.waiting.last() == '(' {
            Some(Yard { output: self.output, waiting: self.waiting.drop_last() })
        } else {
            self.emit_last().close()
        }
    }

    /// Takes in one symbol. A mnemonic is no part of an infix expression
    /// and is passed over.
    pub open spec fn feed(self, symbol: Symbol) -> Result<Yard, Fault> {
        match symbol {
            Symbol::Number(bits) => Ok(
                Yard { output: self.output.push(OpOrNum::Num(bits)), waiting: self.waiting },
            ),
            Symbol::Literal(text) => Err(Fault::InvalidNumber(text)),
            Symbol::Unexpected(c) => Err(Fault::UnexpectedCharacter(c)),
            Symbol::Open => Ok(Yard { output: self.output, waiting: self.waiting.push('(') }),
            Symbol::Close => match self.close() {
                Some(yard) => Ok(yard),
                None => Err(Fault::MismatchedParentheses),
            },
            Symbol::Operator(c) => {
                let yard = self.yield_to(c);
                Ok(Yard { output: yard.output, waiting: yard.waiting.push(c) })
            },
            Symbol::Mnemonic(_) => Ok(self),
        }
    }

    /// Takes in the symbols in turn and stops at the first fault.
    pub open spec fn feed_all(self, symbols: Seq<Symbol>) -> Result<Yard, Fault>
        decreases symbols.len(),
    {
        if symbols.len() == 0 {
            Ok(self)
        } else {
            match self.feed(symbols.first()) {
                Ok(yard) => yard.feed_all(symbols.drop_first()),
                Err(fault) => Err(fault),
            }
        }
    }

    /// Emits all that waits; a parenthesis that was never closed is a
    /// fault.
    pub open spec fn flush(self) -> Result<Seq<OpOrNum>, Fault>
        decreases self.waiting.len(),
    {
        if self.waiting.len() == 0 {
            Ok(self.output)
        } else if self.waiting.last() == '(' {
            Err(Fault::MismatchedParentheses)
        } else {
            self.emit_last().flush()
        }
    }
}

/// The postfix form of an infix expression given as symbols, or the first
/// fault met on the way from left to right.
pub open spec fn postfix_of(symbols: Seq<Symbol>) -> Result<Seq<OpOrNum>, Fault> {
    if symbols.len() == 0 {
        Err(Fault::EmptyExpression)
    } else {
        match Yard::start().feed_all(symbols) {
            Ok(yard) => yard.flush(),
            Err(fault) => Err(fault),
        }
    }
}

/// Whether `result` is the executable form of `expected`.
pub open spec fn agrees(
    result: Result<Vec<OpOrNum>, ParseError>,
    expected: Result<Seq<OpOrNum>, Fault>,
) -> bool {
    match result {
        Ok(output) => expected == Ok::<Seq<OpOrNum>, Fault>(output@),
        Err(error) => expected == Err::<Seq<OpOrNum>, Fault>(error@),
    }
}

/// Converts an infix expression into postfix order by operator
/// precedence, with an explicit stack of waiting operators. `+` and `-`
/// bind less strongly than `*` and `/`, and all four group to the left.
pub fn shunting_yard(tokens: &Vec<Token>) -> (result: Result<Vec<OpOrNum>, ParseError>)
    ensures
        agrees(result, postfix_of(tokens.deep_view())),
{
    let ghost symbols = tokens.deep_view();
    if tokens.len() == 0 {
        return Err(ParseError::EmptyExpression);
    }
    let mut output: Vec<OpOrNum> = Vec::new();
    let mut operators: VecDeque<char> = VecDeque::new();
    let mut i: usize = 0;
    proof {
        assert(symbols.skip(0) == symbols);
        assert(Yard { output: output@, waiting: operators@ } == Yard::start());
    }
    while i < tokens.len()
        invariant
            0 < tokens.len(),
            i <= tokens.len(),
            symbols == tokens.deep_view(),
            symbols.len() == tokens.len(),
            Yard::start().feed_all(symbols) == (Yard {
                output: output@,
                waiting: operators@,
            }).feed_all(symbols.skip(i as int)),
        decreases tokens.len() - i,
    {
        let ghost yard = Yard { output: output@, waiting: operators@ };
        proof {
            assert(symbols.skip(i as int).first() == tokens[i as int]@);
            assert(symbols.skip(i as int).drop_first() == symbols.skip(i + 1));
        }
        match &tokens[i] {
            Token::Number(bits) => {
                output.push(OpOrNum::Num(*bits));
            },
            Token::Literal(text) => {
                return Err(ParseError::InvalidNumber(text.clone()));
            },
            Token::Unexpected(c) => {
                return Err(ParseError::UnexpectedCharacter(*c));
            },
            Token::Open => {
                operators.push_back('(');
            },
            Token::Close => {
                let mut found_paren = false;
                while operators.len() > 0
                    invariant_except_break
                        !found_paren,
                        yard.close() == (Yard { output: output@, waiting: operators@ }).close(),
                    ensures
                        found_paren ==> yard.close() == Some(
                            Yard { output: output@, waiting: operators@ },
                        ),
                        !found_paren ==> yard.close().is_none(),
                    decreases operators.len(),
                {
                    let op = operators.pop_back().unwrap();
                    if op == '(' {
                        found_paren = true;
                        break ;
                    } else {
                        output.push(OpOrNum::Op(op));
                    }
                }
                if !found_paren {
                    return Err(ParseError::MismatchedParentheses);
                }
            },
            Token::Operator(c) => {
                while operators.len() > 0 && operators[operators.len() - 1] != '(' && precedence(
                    operators[operators.len() - 1],
                ) >= precedence(*c)
                    invariant
                        yard.yield_to(*c) == (Yard {
                            output: output@,
                            waiting: operators@,
                        }).yield_to(*c),
                    decreases operators.len(),
                {
                    let op = operators.pop_back().unwrap();
                    output.push(OpOrNum::Op(op));
                }
                operators.push_back(*c);
            },
            Token::Mnemonic(_) => {},
        }
        i += 1;
    }
    proof {
        assert(symbols.skip(i as int).len() == 0);
    }
    let ghost rest = Yard { output: output@, waiting: operators@ };
    while operators.len() > 0
        invariant
            postfix_of(tokens.deep_view()) == rest.flush(),
            rest.flush() == (Yard { output: output@, waiting: operators@ }).flush(),
        decreases operators.len(),
    {
        let op = operators.pop_back().unwrap();
        if op == '(' {
            return Err(ParseError::MismatchedParentheses);
        }
        output.push(OpOrNum::Op(op));
    }
    Ok(output)
}

/// The notation in which an input is written.
#[derive(Clone, Copy, Debug, PartialEq, Eq, Structural)]
pub enum CalcMode {
    INFIX,
    /// Reverse Polish notation.
    POSTFIX,
    RAW,
}

/// The instruction of one of the four operators; none for another
/// character.
pub open spec fn operation_of(op: char) -> Option<Instruction> {
    if op == '+' {
        Some(Instruction::ADD)
    } else if op == '-' {
        Some(Instruction::SUB)
    } else if op == '*' {
        Some(Instruction::MUL)
    } else if op == '/' {
        Some(Instruction::DIV)
    } else {
        None
    }
}

/// The instruction that stands for an item of a postfix expression.
pub open spec fn item_instruction(item: OpOrNum) -> Option<Instruction> {
    match item {
        OpOrNum::Op(op) => operation_of(op),
        OpOrNum::Num(bits) => Some(Instruction::LDC(bits)),
    }
}

/// The instruction that a symbol stands for in postfix notation: a
/// number loads a constant, an operator is its instruction, and anything
/// else stands for nothing.
pub open spec fn postfix_instruction(symbol: Symbol) -> Option<Instruction> {
    match symbol {
        Symbol::Number(bits) => Some(Instruction::LDC(bits)),
        Symbol::Operator(op) => operation_of(op),
        _ => None,
    }
}

/// The instruction that a symbol stands for in raw notation: a number
/// loads a constant, a mnemonic is its instruction, and anything else
/// stands for nothing.
pub open spec fn raw_instruction(symbol: Symbol) -> Option<Instruction> {
    match symbol {
        Symbol::Number(bits) => Some(Instruction::LDC(bits)),
        Symbol::Mnemonic(instruction) => Some(instruction),
        _ => None,
    }
}

/// The program that an infix expression compiles to: its postfix form,
/// item by item; nothing where the expression is refused.
pub open spec fn infix_program(symbols: Seq<Symbol>) -> Seq<Instruction> {
    match postfix_of(symbols) {
        Ok(items) => gathered(items, |item: OpOrNum| item_instruction(item)),
        Err(_) => Seq::empty(),
    }
}

/// The program that a postfix expression compiles to.
pub open spec fn postfix_program(symbols: Seq<Symbol>) -> Seq<Instruction> {
    gathered(symbols, |symbol: Symbol| postfix_instruction(symbol))
}

/// The program that raw input compiles to.
pub open spec fn raw_program(symbols: Seq<Symbol>) -> Seq<Instruction> {
    gathered(symbols, |symbol: Symbol| raw_instruction(symbol))
}

/// The program that an input in the given notation compiles to.
pub open spec fn program_of(mode: CalcMode, symbols: Seq<Symbol>) -> Seq<Instruction> {
    match mode {
        CalcMode::INFIX => infix_program(symbols),
        CalcMode::POSTFIX => postfix_program(symbols),
        CalcMode::RAW => raw_program(symbols),
    }
}

impl Machine {
    /// The machine with `instructions` added at the end of its program.
    pub open spec fn extended(self, instructions: Seq<Instruction>) -> Machine {
        Machine { program: self.program + instructions, ..self }
    }
}

fn operation(op: char) -> (instruction: Option<Instruction>)
    ensures
        instruction == operation_of(op),
{
    match op {
        '+' => Some(Instruction::ADD),
        '-' => Some(Instruction::SUB),
        '*' => Some(Instruction::MUL),
        '/' => Some(Instruction::DIV),
        _ => None,
    }
}

impl Stackalc {
    /// Compiles an infix expression and adds the result to the program.
    /// An expression that `shunting_yard` refuses adds nothing.
    pub fn parse_infix(&mut self, tokens: &Vec<Token>)
        ensures
            final(self)@ == old(self)@.extended(infix_program(tokens.deep_view())),
    {
        let mut instructions: Vec<Instruction> = Vec::new();

        if let Ok(rpn) = shunting_yard(tokens) {
            let ghost pick = |item: OpOrNum| item_instruction(item);
            let mut i: usize = 0;
            while i < rpn.len()
                invariant
                    i <= rpn.len(),
                    pick == |item: OpOrNum| item_instruction(item),
                    instructions@ == gathered(rpn@.take(i as int), pick),
                decreases rpn.len() - i,
            {
                proof {
                    assert(rpn@.take(i + 1).drop_last() == rpn@.take(i as int));
                }
                match rpn[i] {
                    OpOrNum::Op(op) => {
                        if let Some(instruction) = operation(op) {
                            instructions.push(instruction);
                        }
                    },
                    OpOrNum::Num(n) => instructions.push(Instruction::LDC(n)),
                }
                i += 1;
            }
            proof {
                assert(rpn@.take(i as int) == rpn@);
            }
        }
        self.expr.append(&mut instructions);
    }

    /// Compiles a postfix expression and adds the result to the program.
    /// A token that is neither an operator nor a number is passed over.
    pub fn parse_postfix(&mut self, tokens: &Vec<Token>)
        ensures
            final(self)@ == old(self)@.extended(postfix_program(tokens.deep_view())),
    {
        let mut instructions: Vec<Instruction> = Vec::new();
        let ghost symbols = tokens.deep_view();
        let ghost pick = |symbol: Symbol| postfix_instruction(symbol);

        let mut i: usize = 0;
        while i < tokens.len()
            invariant
                i <= tokens.len(),
                symbols == tokens.deep_view(),
                symbols.len() == tokens.len(),
                pick == |symbol: Symbol| postfix_instruction(symbol),
                instructions@ == gathered(symbols.take(i as int), pick),
            decreases tokens.len() - i,
        {
            proof {
                assert(symbols.take(i + 1).drop_last() == symbols.take(i as int));
                assert(symbols.take(i + 1).last() == tokens[i as int]@);
            }
            match &tokens[i] {
                Token::Operator(op) => {
                    if let Some(instruction) = operation(*op) {
                        instructions.push(instruction);
                    }
                },
                Token::Number(n) => instructions.push(Instruction::LDC(*n)),
                _ => {},
            }
            i += 1;
        }
        proof {
            assert(symbols.take(i as int) == symbols);
        }
        self.expr.append(&mut instructions);
    }

    /// Adds the instructions of raw input to the program. A token that is
    /// neither a mnemonic nor a number is passed over.
    pub fn parse_raw(&mut self, tokens: &Vec<Token>)
        ensures
            final(self)@ == old(self)@.extended(raw_program(tokens.deep_view())),
    {
        let mut instructions: Vec<Instruction> = Vec::new();
        let ghost symbols = tokens.deep_view();
        let ghost pick = |symbol: Symbol| raw_instruction(symbol);

        let mut i: usize = 0;
        while i < tokens.len()
            invariant
                i <= tokens.len(),
                symbols == tokens.deep_view(),
                symbols.len() == tokens.len(),
                pick == |symbol: Symbol| raw_instruction(symbol),
                instructions@ == gathered(symbols.take(i as int), pick),
            decreases tokens.len() - i,
        {
            proof {
                assert(symbols.take(i + 1).drop_last() == symbols.take(i as int));
                assert(symbols.take(i + 1).last() == tokens[i as int]@);
            }
            match &tokens[i] {
                Token::Mnemonic(instruction) => instructions.push(*instruction),
                Token::Number(n) => instructions.push(Instruction::LDC(*n)),
                _ => {},
            }
            i += 1;
        }
        proof {
            assert(symbols.take(i as int) == symbols);
        }
        self.expr.append(&mut instructions);
    }

    /// Compiles scanned input in the given notation and adds the result
    /// to the program.
    pub fn load_input(&mut self, mode: &CalcMode, tokens: &Vec<Token>)
        ensures
            final(self)@ == old(self)@.extended(program_of(*mode, tokens.deep_view())),
    {
        match mode {
            CalcMode::INFIX => self.parse_infix(tokens),
            CalcMode::POSTFIX => self.parse_postfix(tokens),
            CalcMode::RAW => self.parse_raw(tokens),
        }
    }
}

} // verus!
