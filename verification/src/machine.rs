use vstd::prelude::*;
use crate::instructions::Instruction;
use crate::number::{
    at_least, at_most, equal, fraction, is_at_least, is_at_most, is_equal, is_zero, negate,
    negation, truth, zero, ONE, ZERO,
};

verus! {

/// The arithmetic that the machine leaves to its caller.
#[derive(Clone, Copy, Debug, PartialEq, Eq, Structural)]
pub enum Operation {
    Add,
    Multiply,
    Subtract,
    Divide,
}

/// What executing an instruction came to.
#[derive(Clone, Copy, Debug, PartialEq, Eq, Structural)]
pub enum Outcome {
    /// The instruction found its preconditions unmet and changed nothing.
    Skipped,
    /// The instruction fired and nothing is left to do.
    Applied,
    /// The instruction popped `first`, the former top of the stack, and
    /// `second`, the value below it. The caller computes
    /// `first <operation> second` and pushes the result with `ldc`.
    Compute(Operation, u64, u64),
    /// The caller draws a number uniformly from zero (included) to one
    /// (excluded) and pushes it with `sample`.
    Sample,
}

impl Outcome {
    /// The outcome of a branch that was taken: the outcome of the
    /// instruction that it led to, except that the branch itself has
    /// fired.
    pub open spec fn after_jump(self) -> Outcome {
        if self is Skipped {
            Outcome::Applied
        } else {
            self
        }
    }

    /// The outcome of a branch that led to an instruction with this
    /// outcome.
    pub fn taken(self) -> (outcome: Outcome)
        ensures
            outcome == self.after_jump(),
    {
        match self {
            Outcome::Skipped => Outcome::Applied,
            other => other,
        }
    }
}

/// The calculator's machine: a stack of values, a bank of memory cells,
/// the program, and the index of the instruction that is selected.
#[derive(Debug)]
pub struct Stackalc {
    pub stack: Vec<u64>,
    pub memory: [Option<u64>; 32],
    pub expr: Vec<Instruction>,
    pub selected: Option<usize>,
}

/// The mathematical value of a `Stackalc`.
pub struct Machine {
    pub stack: Seq<u64>,
    pub memory: Seq<Option<u64>>,
    pub program: Seq<Instruction>,
    pub selected: Option<usize>,
}

impl View for Stackalc {
    type V = Machine;

    open spec fn view(&self) -> Machine {
        Machine {
            stack: self.stack@,
            memory: self.memory@,
            program: self.expr@,
            selected: self.selected,
        }
    }
}

impl Machine {
    /// The machine as it is created: nothing on the stack, no cell set,
    /// no program, nothing selected.
    pub open spec fn empty() -> Machine {
        Machine {
            stack: Seq::empty(),
            memory: Seq::new(32, |i: int| None::<u64>),
            program: Seq::empty(),
            selected: None,
        }
    }

    pub open spec fn push(self, value: u64) -> Machine {
        Machine { stack: self.stack.push(value), ..self }
    }

    pub open spec fn pop(self) -> Machine {
        Machine { stack: self.stack.drop_last(), ..self }
    }

    /// The value on top of the stack.
    pub open spec fn first(self) -> u64 {
        self.stack.last()
    }

    /// The value below the top of the stack.
    pub open spec fn second(self) -> u64 {
        self.stack[self.stack.len() - 2]
    }

    pub open spec fn store(self, cell: int, value: u64) -> Machine {
        Machine { memory: self.memory.update(cell, Some(value)), ..self }
    }

    pub open spec fn select(self, index: usize) -> Machine {
        Machine { selected: Some(index), ..self }
    }

    /// Whether `cell` is a memory cell that holds a value.
    pub open spec fn holds(self, cell: usize) -> bool {
        cell < self.memory.len() && self.memory[cell as int] is Some
    }

    /// An arithmetic instruction: with two values on the stack it pops
    /// both and leaves the computation to the caller.
    pub open spec fn arithmetic(self, operation: Operation) -> (Machine, Outcome) {
        if self.stack.len() >= 2 {
            (self.pop().pop(), Outcome::Compute(operation, self.first(), self.second()))
        } else {
            (self, Outcome::Skipped)
        }
    }

    /// A comparison: with two values on the stack it replaces both by one
    /// for true or zero for false.
    pub open spec fn comparison(self, holds: bool) -> (Machine, Outcome) {
        if self.stack.len() >= 2 {
            (self.pop().pop().push(truth(holds)), Outcome::Applied)
        } else {
            (self, Outcome::Skipped)
        }
    }

    /// What an instruction other than a branch does. (A branch is
    /// described by `step`.)
    pub open spec fn effect(self, instruction: Instruction) -> (Machine, Outcome) {
        match instruction {
            Instruction::LDC(value) => (self.push(value), Outcome::Applied),
            Instruction::LDV(cell) => if self.holds(cell) {
                (self.push(self.memory[cell as int]->0), Outcome::Applied)
            } else {
                (self, Outcome::Skipped)
            },
            Instruction::STV(cell) => if self.stack.len() == 0 {
                (self, Outcome::Skipped)
            } else if cell < self.memory.len() {
                (self.pop().store(cell as int, self.first()), Outcome::Applied)
            } else {
                (self.pop(), Outcome::Applied)
            },
            Instruction::NEG => if self.stack.len() == 0 {
                (self, Outcome::Skipped)
            } else {
                (self.pop().push(negation(self.first())), Outcome::Applied)
            },
            Instruction::ADD => self.arithmetic(Operation::Add),
            Instruction::MUL => self.arithmetic(Operation::Multiply),
            Instruction::SUB => self.arithmetic(Operation::Subtract),
            Instruction::DIV => self.arithmetic(Operation::Divide),
            Instruction::CEQ => self.comparison(equal(self.first(), self.second())),
            Instruction::CGT => self.comparison(at_least(self.first(), self.second())),
            Instruction::CLT => self.comparison(at_most(self.first(), self.second())),
            Instruction::DUP => if self.stack.len() == 0 {
                (self, Outcome::Skipped)
            } else {
                (self.push(self.first()), Outcome::Applied)
            },
            Instruction::POP => if self.stack.len() == 0 {
                (self, Outcome::Skipped)
            } else {
                (self.pop(), Outcome::Applied)
            },
            Instruction::NOP => (self, Outcome::Applied),
            Instruction::RNG => (self, Outcome::Sample),
            Instruction::BR(_) | Instruction::BRTRUE(_) | Instruction::BRFALSE(_) => (
                self,
                Outcome::Skipped,
            ),
        }
    }

    /// A branch that is taken: it selects the target and at once executes
    /// the instruction that stands there.
    pub open spec fn jump(self, target: usize, hops: nat) -> Option<(Machine, Outcome)>
        recommends
            target < self.program.len(),
        decreases self.stack.len(), hops, 0nat,
    {
        if hops == 0 {
            None
        } else {
            match self.select(target).step(self.program[target as int], (hops - 1) as nat) {
                Some((machine, outcome)) => Some((machine, outcome.after_jump())),
                None => None,
            }
        }
    }

    /// A conditional branch: it pops a value, and jumps where `wanted`
    /// says that this value asks for it and the target lies in the
    /// program.
    pub open spec fn branch_if(self, wanted: bool, target: usize) -> Option<(Machine, Outcome)>
        decreases self.stack.len(), 0nat, 0nat,
    {
        if self.stack.len() == 0 {
            Some((self, Outcome::Skipped))
        } else if wanted && target < self.program.len() {
            self.pop().jump(target, self.program.len())
        } else {
            Some((self.pop(), Outcome::Applied))
        }
    }

    /// The machine and the outcome after `instruction`, where the
    /// execution passes through at most `hops` unconditional branches in
    /// a row; `None` where it would pass through more.
    pub open spec fn step(self, instruction: Instruction, hops: nat) -> Option<(Machine, Outcome)>
        decreases self.stack.len(), hops, 1nat,
    {
        match instruction {
            Instruction::BR(target) => if target < self.program.len() {
                self.jump(target, hops)
            } else {
                Some((self, Outcome::Skipped))
            },
            Instruction::BRTRUE(target) => self.branch_if(!zero(self.first()), target),
            Instruction::BRFALSE(target) => self.branch_if(zero(self.first()), target),
            _ => Some(self.effect(instruction)),
        }
    }

    /// The machine and the outcome after `instruction`. A run of
    /// unconditional branches that is longer than the program passes the
    /// same place twice and never ends: there the result is `None`.
    /// (That nothing else is lost by this bound is shown in
    /// `termination`.)
    pub open spec fn execute(self, instruction: Instruction) -> Option<(Machine, Outcome)> {
        self.step(instruction, self.program.len())
    }

    /// Whether the execution of `instruction` comes to an end.
    pub open spec fn settles(self, instruction: Instruction) -> bool {
        self.execute(instruction) is Some
    }

    /// The machine and the outcome after the selected instruction; where
    /// the selection lies beyond the program, or nothing is selected,
    /// nothing happens.
    pub open spec fn execute_selected(self) -> Option<(Machine, Outcome)> {
        match self.selected {
            Some(index) if index < self.program.len() => self.execute(self.program[index as int]),
            _ => Some((self, Outcome::Skipped)),
        }
    }

    /// The machine and the outcome after a step forward: the instruction
    /// behind the selected one, or the first where none is selected, is
    /// selected and executed.
    pub open spec fn forward(self) -> Option<(Machine, Outcome)> {
        self.select(successor(self.selected)).execute_selected()
    }
}

/// Whether an execution comes to an end depends on the stack and the
/// program alone.
proof fn settling_ignores_the_rest(a: Machine, b: Machine, instruction: Instruction, hops: nat)
    requires
        a.stack == b.stack,
        a.program == b.program,
    ensures
        a.step(instruction, hops) is Some <==> b.step(instruction, hops) is Some,
    decreases a.stack.len(), hops, 1nat,
{
    match instruction {
        Instruction::BR(target) => {
            if target < a.program.len() {
                jumping_ignores_the_rest(a, b, target, hops);
            }
        },
        Instruction::BRTRUE(target) | Instruction::BRFALSE(target) => {
            if a.stack.len() > 0 && target < a.program.len() {
                jumping_ignores_the_rest(a.pop(), b.pop(), target, a.program.len());
            }
        },
        _ => {},
    }
}

proof fn jumping_ignores_the_rest(a: Machine, b: Machine, target: usize, hops: nat)
    requires
        a.stack == b.stack,
        a.program == b.program,
        target < a.program.len(),
    ensures
        a.jump(target, hops) is Some <==> b.jump(target, hops) is Some,
    decreases a.stack.len(), hops, 0nat,
{
    if hops > 0 {
        settling_ignores_the_rest(
            a.select(target),
            b.select(target),
            a.program[target as int],
            (hops - 1) as nat,
        );
    }
}

/// The index that a step forward selects: the one behind the selected
/// index, as far as indexes go, or the first where none is selected.
pub open spec fn successor(selected: Option<usize>) -> usize {
    match selected {
        None => 0,
        Some(i) => if i < usize::MAX {
            (i + 1) as usize
        } else {
            i
        },
    }
}

impl Clone for Stackalc {
    fn clone(&self) -> (copy: Stackalc)
        ensures
            copy@ == self@,
    {
        let copy = Stackalc {
            stack: self.stack.clone(),
            memory: self.memory,
            expr: self.expr.clone(),
            selected: self.selected,
        };
        assert(copy.stack@ =~= self.stack@);
        assert(copy.expr@ =~= self.expr@);
        copy
    }
}

impl Default for Stackalc {
    fn default() -> (machine: Stackalc)
        ensures
            machine@ == Machine::empty(),
    {
        let machine = Stackalc {
            stack: Vec::new(),
            memory: [None;32],
            expr: Vec::new(),
            selected: None,
        };
        assert(machine@.memory =~= Machine::empty().memory);
        machine
    }
}

impl Stackalc {
    /// Executes the selected instruction; skips where the selection lies
    /// beyond the program or nothing is selected.
    pub fn execute_selected(&mut self) -> (outcome: Outcome)
        requires
            old(self)@.execute_selected() is Some,
        ensures
            old(self)@.execute_selected() == Some((final(self)@, outcome)),
    {
        match self.selected {
            Some(index) => {
                if index < self.expr.len() {
                    let instruction = self.expr[index];
                    self.execute_instruction(instruction)
                } else {
                    Outcome::Skipped
                }
            },
            None => Outcome::Skipped,
        }
    }

    /// Whether a step forward comes to an end.
    pub fn next_settles(&self) -> (b: bool)
        ensures
            b == self@.forward() is Some,
    {
        let index = match self.selected {
            None => 0,
            Some(i) => if i < usize::MAX {
                i + 1
            } else {
                i
            },
        };
        if index < self.expr.len() {
            proof {
                settling_ignores_the_rest(
                    self@.select(index),
                    self@,
                    self.expr[index as int],
                    self.expr@.len(),
                );
            }
            self.settles(self.expr[index])
        } else {
            true
        }
    }

    /// Steps forward: selects the instruction behind the selected one,
    /// or the first where none is selected, and executes it.
    pub fn next(&mut self) -> (outcome: Outcome)
        requires
            old(self)@.forward() is Some,
        ensures
            old(self)@.forward() == Some((final(self)@, outcome)),
    {
        let index = match self.selected {
            None => 0,
            Some(i) => if i < usize::MAX {
                i + 1
            } else {
                i
            },
        };
        self.selected = Some(index);
        self.execute_selected()
    }

    /// Executes one instruction.
    pub fn execute_instruction(&mut self, instruction: Instruction) -> (outcome: Outcome)
        requires
            old(self)@.settles(instruction),
        ensures
            old(self)@.execute(instruction) == Some((final(self)@, outcome)),
    {
        self.run(instruction, Ghost(self.expr@.len()))
    }

    /// Whether the execution of `instruction` comes to an end. It does
    /// unless it is caught in unconditional branches that lead back to
    /// one another.
    pub fn settles(&self, instruction: Instruction) -> (b: bool)
        ensures
            b == self@.settles(instruction),
    {
        assert(self.stack@.take(self.stack.len() as int) == self.stack@);
        self.halts(self.stack.len(), instruction, self.expr.len())
    }

    /// Whether `instruction` comes to an end on the lowest `depth` values
    /// of the stack, within `hops` unconditional branches in a row.
    fn halts(&self, depth: usize, instruction: Instruction, hops: usize) -> (b: bool)
        requires
            depth <= self.stack.len(),
        ensures
            b == (Machine { stack: self.stack@.take(depth as int), ..self@ }).step(
                instruction,
                hops as nat,
            ) is Some,
        decreases depth, hops,
    {
        let ghost machine = Machine { stack: self.stack@.take(depth as int), ..self@ };
        match instruction {
            Instruction::BR(n) => {
                if n >= self.expr.len() {
                    true
                } else if hops == 0 {
                    false
                } else {
                    proof {
                        settling_ignores_the_rest(
                            machine.select(n),
                            machine,
                            self.expr[n as int],
                            (hops - 1) as nat,
                        );
                    }
                    self.halts(depth, self.expr[n], hops - 1)
                }
            },
            Instruction::BRTRUE(n) => {
                if depth == 0 || n >= self.expr.len() || is_zero(self.stack[depth - 1]) {
                    true
                } else {
                    proof {
                        let popped = Machine {
                            stack: self.stack@.take(depth - 1),
                            ..self@
                        };
                        assert(machine.pop().stack == popped.stack);
                        assert(machine.first() == self.stack[depth - 1]);
                        assert(popped.step(Instruction::BR(n), self.expr@.len()) == popped.jump(
                            n,
                            self.expr@.len(),
                        ));
                    }
                    self.halts(depth - 1, Instruction::BR(n), self.expr.len())
                }
            },
            Instruction::BRFALSE(n) => {
                if depth == 0 || n >= self.expr.len() || !is_zero(self.stack[depth - 1]) {
                    true
                } else {
                    proof {
                        let popped = Machine {
                            stack: self.stack@.take(depth - 1),
                            ..self@
                        };
                        assert(machine.pop().stack == popped.stack);
                        assert(machine.first() == self.stack[depth - 1]);
                        assert(popped.step(Instruction::BR(n), self.expr@.len()) == popped.jump(
                            n,
                            self.expr@.len(),
                        ));
                    }
                    self.halts(depth - 1, Instruction::BR(n), self.expr.len())
                }
            },
            _ => true,
        }
    }

    fn run(&mut self, instruction: Instruction, Ghost(hops): Ghost<nat>) -> (outcome: Outcome)
        requires
            old(self)@.step(instruction, hops) is Some,
        ensures
            old(self)@.step(instruction, hops) == Some((final(self)@, outcome)),
        decreases old(self).stack.len(), hops,
    {
        match instruction {
            Instruction::LDC(n) => self.ldc(n),
            Instruction::LDV(n) => self.ldv(n),
            Instruction::STV(n) => self.stv(n),
            Instruction::NEG => self.neg(),
            Instruction::ADD => self.add(),
            Instruction::MUL => self.mul(),
            Instruction::SUB => self.sub(),
            Instruction::DIV => self.div(),
            Instruction::CEQ => self.ceq(),
            Instruction::CGT => self.cgt(),
            Instruction::CLT => self.clt(),
            Instruction::DUP => self.dup(),
            Instruction::POP => self.pop(),
            Instruction::NOP => self.nop(),
            Instruction::RNG => self.rng(),
            Instruction::BR(n) => {
                if n < self.expr.len() {
                    self.selected = Some(n);
                    let target = self.expr[n];
                    self.run(target, Ghost((hops - 1) as nat)).taken()
                } else {
                    Outcome::Skipped
                }
            },
            Instruction::BRTRUE(n) => {
                match self.stack.pop() {
                    Some(value) => {
                        if n < self.expr.len() && !is_zero(value) {
                            self.run(Instruction::BR(n), Ghost(self.expr@.len()))
                        } else {
                            Outcome::Applied
                        }
                    },
                    None => Outcome::Skipped,
                }
            },
            Instruction::BRFALSE(n) => {
                match self.stack.pop() {
                    Some(value) => {
                        if n < self.expr.len() && is_zero(value) {
                            self.run(Instruction::BR(n), Ghost(self.expr@.len()))
                        } else {
                            Outcome::Applied
                        }
                    },
                    None => Outcome::Skipped,
                }
            },
        }
    }

    /// Pushes a number.
    pub fn ldc(&mut self, n: u64) -> (outcome: Outcome)
        ensures
            (final(self)@, outcome) == old(self)@.effect(Instruction::LDC(n)),
    {
        self.stack.push(n);
        Outcome::Applied
    }

    /// Pushes the value of cell `n`, where there is such a cell and it
    /// holds a value.
    pub fn ldv(&mut self, n: usize) -> (outcome: Outcome)
        ensures
            (final(self)@, outcome) == old(self)@.effect(Instruction::LDV(n)),
    {
        if n < self.memory.len() {
            if let Some(value) = self.memory[n] {
                self.stack.push(value);
                return Outcome::Applied;
            }
        }
        Outcome::Skipped
    }

    /// Pops a value and stores it in cell `n`; where there is no such
    /// cell the value is lost.
    pub fn stv(&mut self, n: usize) -> (outcome: Outcome)
        ensures
            (final(self)@, outcome) == old(self)@.effect(Instruction::STV(n)),
    {
        if let Some(value) = self.stack.pop() {
            if n < self.memory.len() {
                self.memory[n] = Some(value);
            }
            Outcome::Applied
        } else {
            Outcome::Skipped
        }
    }

    /// Replaces the value on top by its negation.
    pub fn neg(&mut self) -> (outcome: Outcome)
        ensures
            (final(self)@, outcome) == old(self)@.effect(Instruction::NEG),
    {
        if let Some(value) = self.stack.pop() {
            self.stack.push(negate(value));
            Outcome::Applied
        } else {
            Outcome::Skipped
        }
    }

    /// Pops two values for the caller to add.
    pub fn add(&mut self) -> (outcome: Outcome)
        ensures
            (final(self)@, outcome) == old(self)@.effect(Instruction::ADD),
    {
        if self.stack.len() >= 2 {
            let first_value = self.stack.pop().unwrap();
            let second_value = self.stack.pop().unwrap();
            Outcome::Compute(Operation::Add, first_value, second_value)
        } else {
            Outcome::Skipped
        }
    }

    /// Pops two values for the caller to multiply.
    pub fn mul(&mut self) -> (outcome: Outcome)
        ensures
            (final(self)@, outcome) == old(self)@.effect(Instruction::MUL),
    {
        if self.stack.len() >= 2 {
            let first_value = self.stack.pop().unwrap();
            let second_value = self.stack.pop().unwrap();
            Outcome::Compute(Operation::Multiply, first_value, second_value)
        } else {
            Outcome::Skipped
        }
    }

    /// Pops two values for the caller to subtract the second from the
    /// first, the first being the one that was on top.
    pub fn sub(&mut self) -> (outcome: Outcome)
        ensures
            (final(self)@, outcome) == old(self)@.effect(Instruction::SUB),
    {
        if self.stack.len() >= 2 {
            let first_value = self.stack.pop().unwrap();
            let second_value = self.stack.pop().unwrap();
            Outcome::Compute(Operation::Subtract, first_value, second_value)
        } else {
            Outcome::Skipped
        }
    }

    /// Pops two values for the caller to divide the first by the second,
    /// the first being the one that was on top.
    pub fn div(&mut self) -> (outcome: Outcome)
        ensures
            (final(self)@, outcome) == old(self)@.effect(Instruction::DIV),
    {
        if self.stack.len() >= 2 {
            let first_value = self.stack.pop().unwrap();
            let second_value = self.stack.pop().unwrap();
            Outcome::Compute(Operation::Divide, first_value, second_value)
        } else {
            Outcome::Skipped
        }
    }

    /// Replaces two values by one if they are equal and by zero if not.
    pub fn ceq(&mut self) -> (outcome: Outcome)
        ensures
            (final(self)@, outcome) == old(self)@.effect(Instruction::CEQ),
    {
        if self.stack.len() >= 2 {
            let first_value = self.stack.pop().unwrap();
            let second_value = self.stack.pop().unwrap();
            let are_equals = is_equal(first_value, second_value);

            if are_equals {
                self.stack.push(ONE);
            } else {
                self.stack.push(ZERO);
            }
            Outcome::Applied
        } else {
            Outcome::Skipped
        }
    }

    /// Replaces two values by one if the one on top is greater than the
    /// other or equal to it, and by zero if not.
    pub fn cgt(&mut self) -> (outcome: Outcome)
        ensures
            (final(self)@, outcome) == old(self)@.effect(Instruction::CGT),
    {
        if self.stack.len() >= 2 {
            let first_value = self.stack.pop().unwrap();
            let second_value = self.stack.pop().unwrap();
            let gt = is_at_least(first_value, second_value);

            if gt {
                self.stack.push(ONE);
            } else {
                self.stack.push(ZERO);
            }
            Outcome::Applied
        } else {
            Outcome::Skipped
        }
    }

    /// Replaces two values by one if the one on top is less than the
    /// other or equal to it, and by zero if not.
    pub fn clt(&mut self) -> (outcome: Outcome)
        ensures
            (final(self)@, outcome) == old(self)@.effect(Instruction::CLT),
    {
        if self.stack.len() >= 2 {
            let first_value = self.stack.pop().unwrap();
            let second_value = self.stack.pop().unwrap();
            let lt = is_at_most(first_value, second_value);

            if lt {
                self.stack.push(ONE);
            } else {
                self.stack.push(ZERO);
            }
            Outcome::Applied
        } else {
            Outcome::Skipped
        }
    }

    /// Pushes the value on top once more.
    pub fn dup(&mut self) -> (outcome: Outcome)
        ensures
            (final(self)@, outcome) == old(self)@.effect(Instruction::DUP),
    {
        if self.stack.len() > 0 {
            let top = self.stack[self.stack.len() - 1];
            self.stack.push(top);
            Outcome::Applied
        } else {
            Outcome::Skipped
        }
    }

    /// Drops the value on top.
    pub fn pop(&mut self) -> (outcome: Outcome)
        ensures
            (final(self)@, outcome) == old(self)@.effect(Instruction::POP),
    {
        match self.stack.pop() {
            Some(_) => Outcome::Applied,
            None => Outcome::Skipped,
        }
    }

    /// Selects instruction `n` and executes it at once, where the program
    /// has such an instruction.
    pub fn br(&mut self, n: usize) -> (outcome: Outcome)
        requires
            old(self)@.settles(Instruction::BR(n)),
        ensures
            old(self)@.execute(Instruction::BR(n)) == Some((final(self)@, outcome)),
    {
        self.run(Instruction::BR(n), Ghost(self.expr@.len()))
    }

    /// Pops a value and branches to `n` if the value is not zero.
    pub fn brtrue(&mut self, n: usize) -> (outcome: Outcome)
        requires
            old(self)@.settles(Instruction::BRTRUE(n)),
        ensures
            old(self)@.execute(Instruction::BRTRUE(n)) == Some((final(self)@, outcome)),
    {
        self.run(Instruction::BRTRUE(n), Ghost(self.expr@.len()))
    }

    /// Pops a value and branches to `n` if the value is zero.
    pub fn brfalse(&mut self, n: usize) -> (outcome: Outcome)
        requires
            old(self)@.settles(Instruction::BRFALSE(n)),
        ensures
            old(self)@.execute(Instruction::BRFALSE(n)) == Some((final(self)@, outcome)),
    {
        self.run(Instruction::BRFALSE(n), Ghost(self.expr@.len()))
    }

    /// Does nothing.
    pub fn nop(&mut self) -> (outcome: Outcome)
        ensures
            (final(self)@, outcome) == old(self)@.effect(Instruction::NOP),
    {
        Outcome::Applied
    }

    /// Asks the caller for a sample: the machine has no source of chance
    /// of its own.
    pub fn rng(&mut self) -> (outcome: Outcome)
        ensures
            (final(self)@, outcome) == old(self)@.effect(Instruction::RNG),
    {
        Outcome::Sample
    }

    /// Pushes the number that the caller has drawn when it was asked for
    /// a sample.
    pub fn sample(&mut self, value: u64)
        requires
            fraction(value),
        ensures
            final(self)@ == old(self)@.push(value),
    {
        self.stack.push(value);
    }

    /// Empties the program and the stack and unsets every memory cell.
    /// The selection stays.
    pub fn clear(&mut self)
        ensures
            final(self)@ == (Machine { selected: old(self).selected, ..Machine::empty() }),
    {
        self.expr.clear();
        self.stack.clear();
        self.memory = [None;32];
        assert(self@.memory =~= Machine::empty().memory);
    }
}

} // verus!
