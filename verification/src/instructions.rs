use vstd::prelude::*;
use vstd::string::StringExecFns;

verus! {

/// One operation of the machine. Indexes and targets are checked when the
/// instruction is executed, not when it is built.
#[derive(Clone, Copy, Debug, PartialEq, Eq, Structural)]
pub enum Instruction {
    /// Push the number with this bit pattern.
    LDC(u64),
    /// Push the value of a memory cell.
    LDV(usize),
    /// Pop a value into a memory cell.
    STV(usize),
    NEG,
    ADD,
    MUL,
    SUB,
    DIV,
    CEQ,
    CGT,
    CLT,
    DUP,
    POP,
    NOP,
    RNG,
    BR(usize),
    BRTRUE(usize),
    BRFALSE(usize),
}

/// The character of a decimal digit.
pub open spec fn digit_character(d: nat) -> char {
    (d + 48) as char
}

/// The decimal numeral of a number, without leading zeros.
pub open spec fn numeral(n: nat) -> Seq<char>
    decreases n,
{
    if n < 10 {
        seq![digit_character(n)]
    } else {
        numeral(n / 10).push(digit_character(n % 10))
    }
}

/// The text of an instruction, as it is displayed and as raw input
/// states it. `constant` is the text of the number that `LDC` loads.
pub open spec fn encoding(instruction: Instruction, constant: Seq<char>) -> Seq<char> {
    match instruction {
        Instruction::LDC(_) => "ldc:"@ + constant,
        Instruction::LDV(n) => "ldv:"@ + numeral(n as nat),
        Instruction::STV(n) => "stv:"@ + numeral(n as nat),
        Instruction::NEG => "neg"@,
        Instruction::ADD => "add"@,
        Instruction::MUL => "mul"@,
        Instruction::SUB => "sub"@,
        Instruction::DIV => "div"@,
        Instruction::CEQ => "ceq"@,
        Instruction::CGT => "cgt"@,
        Instruction::CLT => "clt"@,
        Instruction::DUP => "dup"@,
        Instruction::POP => "pop"@,
        Instruction::NOP => "nop"@,
        Instruction::RNG => "rng"@,
        Instruction::BR(n) => "br:"@ + numeral(n as nat),
        Instruction::BRTRUE(n) => "brtrue:"@ + numeral(n as nat),
        Instruction::BRFALSE(n) => "brfalse:"@ + numeral(n as nat),
    }
}

fn digit_to_character(d: usize) -> (c: char)
    requires
        d < 10,
    ensures
        c == digit_character(d as nat),
{
    match d {
        0 => '0',
        1 => '1',
        2 => '2',
        3 => '3',
        4 => '4',
        5 => '5',
        6 => '6',
        7 => '7',
        8 => '8',
        _ => '9',
    }
}

/// Adds the decimal numeral of `n` at the end of `text`.
pub fn push_numeral(text: &mut String, n: usize)
    ensures
        final(text)@ == old(text)@ + numeral(n as nat),
    decreases n,
{
    if n >= 10 {
        push_numeral(text, n / 10);
    }
    text.push(digit_to_character(n % 10));
}

impl Instruction {
    /// The text of the instruction. The text of the number that `LDC`
    /// loads comes from the caller, as `constant`; the other instructions
    /// make no use of it.
    pub fn to_string(&self, constant: &str) -> (text: String)
        ensures
            text@ == encoding(*self, constant@),
    {
        match self {
            Instruction::LDC(_) => {
                let mut text = String::from_str("ldc:");
                text.append(constant);
                text
            },
            Instruction::LDV(value) => {
                let mut text = String::from_str("ldv:");
                push_numeral(&mut text, *value);
                text
            },
            Instruction::STV(value) => {
                let mut text = String::from_str("stv:");
                push_numeral(&mut text, *value);
                text
            },
            Instruction::NEG => String::from_str("neg"),
            Instruction::ADD => String::from_str("add"),
            Instruction::MUL => String::from_str("mul"),
            Instruction::SUB => String::from_str("sub"),
            Instruction::DIV => String::from_str("div"),
            Instruction::CEQ => String::from_str("ceq"),
            Instruction::CGT => String::from_str("cgt"),
            Instruction::CLT => String::from_str("clt"),
            Instruction::DUP => String::from_str("dup"),
            Instruction::POP => String::from_str("pop"),
            Instruction::NOP => String::from_str("nop"),
            Instruction::RNG => String::from_str("rng"),
            Instruction::BR(value) => {
                let mut text = String::from_str("br:");
                push_numeral(&mut text, *value);
                text
            },
            Instruction::BRTRUE(value) => {
                let mut text = String::from_str("brtrue:");
                push_numeral(&mut text, *value);
                text
            },
            Instruction::BRFALSE(value) => {
                let mut text = String::from_str("brfalse:");
                push_numeral(&mut text, *value);
                text
            },
        }
    }
}

} // verus!
