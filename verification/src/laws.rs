//! What holds of the machine whatever its state.

use vstd::prelude::*;
use crate::instructions::{digit_character, encoding, numeral, Instruction};
use crate::machine::{Machine, Outcome};
use crate::number::zero;
use crate::scanner::{
    all_digits, belongs, decimal, digit_value, index_value, plain_mnemonic, plain_number,
    raw_symbol, span, tagged, Class,
};
use crate::token::Symbol;

verus! {

/// The number of values that an instruction takes from the stack.
pub open spec fn operands(instruction: Instruction) -> nat {
    match instruction {
        Instruction::ADD
        | Instruction::MUL
        | Instruction::SUB
        | Instruction::DIV
        | Instruction::CEQ
        | Instruction::CGT
        | Instruction::CLT => 2,
        Instruction::STV(_)
        | Instruction::NEG
        | Instruction::DUP
        | Instruction::POP
        | Instruction::BRTRUE(_)
        | Instruction::BRFALSE(_) => 1,
        _ => 0,
    }
}

/// Underflow is safe: an instruction that finds fewer values on the
/// stack than it takes changes nothing.
pub proof fn underflow_changes_nothing(machine: Machine, instruction: Instruction)
    requires
        machine.stack.len() < operands(instruction),
    ensures
        machine.execute(instruction) == Some((machine, Outcome::Skipped)),
{
}

/// An instruction that is skipped has changed nothing.
pub proof fn skipped_changes_nothing(machine: Machine, instruction: Instruction, after: Machine)
    requires
        machine.execute(instruction) == Some((after, Outcome::Skipped)),
    ensures
        after == machine,
{
    let hops = machine.program.len();
    match instruction {
        Instruction::BR(target) => {
            if target < machine.program.len() {
                assert(machine.jump(target, hops) matches Some((_, outcome)) ==> outcome
                    != Outcome::Skipped);
            }
        },
        Instruction::BRTRUE(target) => {
            let popped = machine.pop();
            assert(popped.jump(target, hops) matches Some((_, outcome)) ==> outcome
                != Outcome::Skipped);
        },
        Instruction::BRFALSE(target) => {
            let popped = machine.pop();
            assert(popped.jump(target, hops) matches Some((_, outcome)) ==> outcome
                != Outcome::Skipped);
        },
        _ => {},
    }
}

/// Executing an instruction changes neither the program nor the number
/// of memory cells.
pub proof fn execution_keeps_the_program(machine: Machine, instruction: Instruction, hops: nat)
    ensures
        machine.step(instruction, hops) matches Some((after, _)) ==> after.program
            == machine.program && after.memory.len() == machine.memory.len(),
    decreases machine.stack.len(), hops, 1nat,
{
    match instruction {
        Instruction::BR(target) => {
            if target < machine.program.len() {
                jump_keeps_the_program(machine, target, hops);
            }
        },
        Instruction::BRTRUE(target) | Instruction::BRFALSE(target) => {
            if machine.stack.len() > 0 && target < machine.program.len() {
                jump_keeps_the_program(machine.pop(), target, machine.program.len());
            }
        },
        _ => {},
    }
}

proof fn jump_keeps_the_program(machine: Machine, target: usize, hops: nat)
    requires
        target < machine.program.len(),
    ensures
        machine.jump(target, hops) matches Some((after, _)) ==> after.program == machine.program
            && after.memory.len() == machine.memory.len(),
    decreases machine.stack.len(), hops, 0nat,
{
    if hops > 0 {
        execution_keeps_the_program(
            machine.select(target),
            machine.program[target as int],
            (hops - 1) as nat,
        );
    }
}

/// Memory round trip: a value that was stored in a cell is loaded back
/// from it unchanged, and the stack is as it was before the store.
pub proof fn stored_value_is_loaded_back(machine: Machine, cell: usize)
    requires
        machine.stack.len() > 0,
        cell < machine.memory.len(),
    ensures
        ({
            let (stored, _) = machine.effect(Instruction::STV(cell));
            let (loaded, outcome) = stored.effect(Instruction::LDV(cell));
            &&& stored.memory[cell as int] == Some(machine.first())
            &&& loaded.stack == machine.stack
            &&& loaded.first() == machine.first()
            &&& outcome == Outcome::Applied
        }),
{
    let (stored, _) = machine.effect(Instruction::STV(cell));
    let (loaded, _) = stored.effect(Instruction::LDV(cell));
    assert(loaded.stack =~= machine.stack);
}

/// A store changes no cell but its own.
pub proof fn store_leaves_other_cells(machine: Machine, cell: usize, other: usize)
    requires
        other != cell,
        other < machine.memory.len(),
    ensures
        machine.effect(Instruction::STV(cell)).0.memory[other as int] == machine.memory[other as int],
{
}

/// Loading a cell that was never stored to, or one beyond the memory,
/// changes nothing.
pub proof fn unset_cell_loads_nothing(machine: Machine, cell: usize)
    requires
        !machine.holds(cell),
    ensures
        machine.execute(Instruction::LDV(cell)) == Some((machine, Outcome::Skipped)),
{
}

/// Branch bounds: a branch to a target beyond the program changes
/// nothing.
pub proof fn branch_beyond_program_changes_nothing(machine: Machine, target: usize)
    requires
        target >= machine.program.len(),
    ensures
        machine.execute(Instruction::BR(target)) == Some((machine, Outcome::Skipped)),
{
}

/// A conditional branch that finds a value consumes it whichever way it
/// resolves: where it does not jump, the stack has lost that one value
/// and nothing else has changed; where it jumps, the jump starts from
/// the stack without that value.
pub proof fn conditional_branch_consumes_one_value(machine: Machine, target: usize)
    requires
        machine.stack.len() > 0,
    ensures
        machine.execute(Instruction::BRTRUE(target)) == if !zero(machine.first()) && target
            < machine.program.len() {
            machine.pop().jump(target, machine.program.len())
        } else {
            Some((machine.pop(), Outcome::Applied))
        },
        machine.execute(Instruction::BRFALSE(target)) == if zero(machine.first()) && target
            < machine.program.len() {
            machine.pop().jump(target, machine.program.len())
        } else {
            Some((machine.pop(), Outcome::Applied))
        },
        machine.pop().stack.len() == machine.stack.len() - 1,
{
}

/// A conditional branch to an instruction that leaves the stack alone
/// shortens the stack by exactly one value, whichever way it resolves.
pub proof fn conditional_branch_shortens_stack(machine: Machine, target: usize, on_true: bool)
    requires
        machine.stack.len() > 0,
        target < machine.program.len() ==> machine.program[target as int] == Instruction::NOP,
    ensures
        ({
            let branch = if on_true {
                Instruction::BRTRUE(target)
            } else {
                Instruction::BRFALSE(target)
            };
            machine.execute(branch) matches Some((after, outcome)) && after.stack
                == machine.stack.drop_last() && outcome == Outcome::Applied
        }),
{
    let popped = machine.pop();
    let hops = machine.program.len();
    if target < machine.program.len() {
        assert(popped.select(target).step(Instruction::NOP, (hops - 1) as nat) == Some(
            (popped.select(target), Outcome::Applied),
        ));
        assert(popped.jump(target, hops) == Some((popped.select(target), Outcome::Applied)));
    }
    assert(machine.branch_if(true, target) matches Some((after, outcome)) && after.stack
        == machine.stack.drop_last() && outcome == Outcome::Applied);
    assert(machine.branch_if(false, target) matches Some((after, outcome)) && after.stack
        == machine.stack.drop_last() && outcome == Outcome::Applied);
}

/// After a reset no cell holds a value: loading from any index changes
/// nothing.
pub proof fn nothing_to_load_after_reset(selected: Option<usize>, cell: usize)
    ensures
        ({
            let cleared = Machine { selected, ..Machine::empty() };
            &&& cleared.program.len() == 0
            &&& cleared.stack.len() == 0
            &&& forall|i: int| 0 <= i < cleared.memory.len() ==> cleared.memory[i] is None
            &&& cleared.execute(Instruction::LDV(cell)) == Some((cleared, Outcome::Skipped))
        }),
{
}

/// A span that covers a whole sequence covers it still when a member of
/// the class is added at the end.
proof fn span_grows(s: Seq<char>, c: char, class: Class)
    requires
        span(s, class) == s.len(),
        belongs(class, c),
    ensures
        span(s.push(c), class) == s.len() + 1,
    decreases s.len(),
{
    assert(span(Seq::<char>::empty(), class) == 0);
    if s.len() == 0 {
        assert(s.push(c).first() == c);
        assert(s.push(c).drop_first() == Seq::<char>::empty());
    } else {
        assert(s.push(c).first() == s.first());
        assert(s.push(c).drop_first() == s.drop_first().push(c));
        span_grows(s.drop_first(), c, class);
    }
}

/// A numeral is made of digits and denotes its number.
pub proof fn numeral_denotes_its_number(n: nat)
    ensures
        all_digits(numeral(n)),
        decimal(numeral(n)) == n,
    decreases n,
{
    let last = digit_character(n % 10);
    assert(belongs(Class::Digit, last) && digit_value(last) == n % 10);
    if n < 10 {
        assert(numeral(n) == Seq::<char>::empty().push(last));
        assert(span(Seq::<char>::empty(), Class::Digit) == 0);
        span_grows(Seq::empty(), last, Class::Digit);
        assert(numeral(n).drop_last() == Seq::<char>::empty());
        assert(decimal(Seq::<char>::empty()) == 0);
        assert(numeral(n).last() == last);
    } else {
        numeral_denotes_its_number(n / 10);
        span_grows(numeral(n / 10), last, Class::Digit);
        assert(numeral(n).drop_last() == numeral(n / 10));
        assert(numeral(n).last() == last);
    }
}

/// A word made of a tag and the numeral of an index carries that tag and
/// that index.
proof fn tagged_numeral(tag: Seq<char>, n: usize)
    ensures
        tagged(tag + numeral(n as nat), tag),
        index_value((tag + numeral(n as nat)).skip(tag.len() as int)) == Some(n),
{
    let word = tag + numeral(n as nat);
    numeral_denotes_its_number(n as nat);
    assert(word.take(tag.len() as int) == tag);
    assert(word.skip(tag.len() as int) == numeral(n as nat));
}

/// Raw input gives back what was displayed: the text of an instruction
/// is the word of raw input that stands for that instruction. The text
/// of a load of a constant is read as the literal that it displays,
/// where that literal is digits, or digits, a dot and digits.
pub proof fn raw_input_gives_back_the_encoding(instruction: Instruction, constant: Seq<char>)
    ensures
        raw_symbol(encoding(instruction, constant)) == match instruction {
            Instruction::LDC(_) => if plain_number(constant) {
                Some(Symbol::Literal(constant))
            } else {
                None
            },
            _ => Some(Symbol::Mnemonic(instruction)),
        },
{
    reveal_strlit("ldc:");
    reveal_strlit("ldv:");
    reveal_strlit("stv:");
    reveal_strlit("br:");
    reveal_strlit("brtrue:");
    reveal_strlit("brfalse:");
    reveal_strlit("neg");
    reveal_strlit("add");
    reveal_strlit("mul");
    reveal_strlit("sub");
    reveal_strlit("div");
    reveal_strlit("ceq");
    reveal_strlit("cgt");
    reveal_strlit("clt");
    reveal_strlit("dup");
    reveal_strlit("pop");
    reveal_strlit("nop");
    reveal_strlit("rng");
    let word = encoding(instruction, constant);
    match instruction {
        Instruction::LDC(_) => {
            assert(word.take(4) == "ldc:"@);
            assert(word.skip(4) == constant);
        },
        Instruction::LDV(n) => {
            tagged_numeral("ldv:"@, n);
            assert(word[2] == 'v');
            assert(word.take(4)[2] == 'v');
        },
        Instruction::STV(n) => {
            tagged_numeral("stv:"@, n);
            assert(word.take(4)[0] == 's');
        },
        Instruction::BR(n) => {
            tagged_numeral("br:"@, n);
            assert(word.take(4)[0] == 'b');
            assert(word.take(3)[0] == 'b');
        },
        Instruction::BRTRUE(n) => {
            tagged_numeral("brtrue:"@, n);
            assert(word.take(4)[0] == 'b');
            assert(word.take(3)[2] == 't');
        },
        Instruction::BRFALSE(n) => {
            tagged_numeral("brfalse:"@, n);
            assert(word.take(4)[0] == 'b');
            assert(word.take(3)[2] == 'f');
            assert(word.take(7)[2] == 'f');
        },
        _ => {
            assert(word.len() == 3);
            assert(word[2] != ':');
            assert(word.take(3) == word);
            assert("br:"@[2] == ':');
            assert(plain_mnemonic(word) == Some(instruction)) by {
                assert("add"@[0] == 'a' && "add"@[1] == 'd');
                assert("sub"@[0] == 's');
                assert("mul"@[0] == 'm');
                assert("div"@[0] == 'd' && "div"@[1] == 'i');
                assert("neg"@[0] == 'n' && "neg"@[1] == 'e');
                assert("ceq"@[0] == 'c' && "ceq"@[1] == 'e');
                assert("cgt"@[0] == 'c' && "cgt"@[1] == 'g');
                assert("clt"@[0] == 'c' && "clt"@[1] == 'l');
                assert("dup"@[0] == 'd' && "dup"@[1] == 'u');
                assert("pop"@[0] == 'p');
                assert("nop"@[0] == 'n' && "nop"@[1] == 'o');
                assert("rng"@[0] == 'r');
            }
        },
    }
}

} // verus!
