//! What compiled expressions compute.
//!
//! The machine leaves arithmetic to its caller. The statements here hold
//! whatever the caller's arithmetic is: it enters them as a function
//! `alu` from an operation and its two operands, the former top of the
//! stack first, to the result.

use vstd::prelude::*;
use crate::instructions::Instruction;
use crate::machine::{successor, Machine, Operation, Outcome};
use crate::parser::{
    infix_program, item_instruction, operation_of, operator, postfix_instruction, postfix_of,
    postfix_program, strength, Fault, OpOrNum, Yard,
};
use crate::token::{gathered, gathered_from_one, gathered_in_parts, scalar_value, Symbol};

verus! {

/// The arithmetic that an operator asks for.
pub open spec fn arithmetic_of(op: char) -> Operation {
    if op == '+' {
        Operation::Add
    } else if op == '-' {
        Operation::Subtract
    } else if op == '*' {
        Operation::Multiply
    } else {
        Operation::Divide
    }
}

impl Machine {
    /// The machine after the caller has done the arithmetic that
    /// `outcome` asks for: the result is on the stack. (No sample is
    /// drawn here: what is stated in this module is stated of programs
    /// that ask for none.)
    pub open spec fn settled(
        self,
        outcome: Outcome,
        alu: spec_fn(Operation, u64, u64) -> u64,
    ) -> Machine {
        match outcome {
            Outcome::Compute(operation, first, second) => self.push(alu(operation, first, second)),
            _ => self,
        }
    }

    /// The machine after the instructions have been executed in turn and
    /// each outcome has been settled.
    pub open spec fn run(
        self,
        instructions: Seq<Instruction>,
        alu: spec_fn(Operation, u64, u64) -> u64,
    ) -> Option<Machine>
        decreases instructions.len(),
    {
        if instructions.len() == 0 {
            Some(self)
        } else {
            match self.execute(instructions.first()) {
                Some((machine, outcome)) => machine.settled(outcome, alu).run(
                    instructions.drop_first(),
                    alu,
                ),
                None => None,
            }
        }
    }

    /// The machine after `count` steps forward, each outcome settled.
    pub open spec fn steps(
        self,
        count: nat,
        alu: spec_fn(Operation, u64, u64) -> u64,
    ) -> Option<Machine>
        decreases count,
    {
        if count == 0 {
            Some(self)
        } else {
            match self.forward() {
                Some((machine, outcome)) => machine.settled(outcome, alu).steps(
                    (count - 1) as nat,
                    alu,
                ),
                None => None,
            }
        }
    }
}

/// Whether an instruction is one of the three branches.
pub open spec fn branches(instruction: Instruction) -> bool {
    instruction is BR || instruction is BRTRUE || instruction is BRFALSE
}

/// Whether none of the instructions is a branch.
pub open spec fn straight(instructions: Seq<Instruction>) -> bool {
    forall|i: int| 0 <= i < instructions.len() ==> !branches(#[trigger] instructions[i])
}

/// Running two lists of instructions in a row is running the second
/// after the first.
pub proof fn run_in_parts(
    machine: Machine,
    a: Seq<Instruction>,
    b: Seq<Instruction>,
    alu: spec_fn(Operation, u64, u64) -> u64,
)
    ensures
        machine.run(a + b, alu) == match machine.run(a, alu) {
            Some(between) => between.run(b, alu),
            None => None,
        },
    decreases a.len(),
{
    if a.len() == 0 {
        assert(a + b == b);
    } else {
        assert((a + b).first() == a.first());
        assert((a + b).drop_first() == a.drop_first() + b);
        match machine.execute(a.first()) {
            Some((next, outcome)) => {
                run_in_parts(next.settled(outcome, alu), a.drop_first(), b, alu);
            },
            None => {},
        }
    }
}

/// Instructions that do not branch run the same whatever is selected,
/// and leave the selection alone.
proof fn run_ignores_the_selection(
    machine: Machine,
    selected: Option<usize>,
    instructions: Seq<Instruction>,
    alu: spec_fn(Operation, u64, u64) -> u64,
)
    requires
        straight(instructions),
    ensures
        machine.run(instructions, alu) matches Some(done) && (Machine {
            selected,
            ..machine
        }).run(instructions, alu) == Some(Machine { selected, ..done }),
    decreases instructions.len(),
{
    let other = Machine { selected, ..machine };
    if instructions.len() == 0 {
    } else {
        let head = instructions.first();
        let tail = instructions.drop_first();
        assert(!branches(instructions[0]));
        assert forall|i: int| 0 <= i < tail.len() implies !branches(#[trigger] tail[i]) by {
            assert(tail[i] == instructions[i + 1]);
        }
        let (next, outcome) = machine.effect(head);
        assert(other.effect(head) == (Machine { selected, ..next }, outcome));
        run_ignores_the_selection(next.settled(outcome, alu), selected, tail, alu);
    }
}

/// Stepping forward through a stretch of the program that does not
/// branch does what running its instructions does, and leaves the last
/// of them selected.
proof fn stepping_runs_the_stretch(
    machine: Machine,
    start: nat,
    count: nat,
    alu: spec_fn(Operation, u64, u64) -> u64,
)
    requires
        successor(machine.selected) == start,
        start + count <= machine.program.len() <= usize::MAX,
        straight(machine.program.subrange(start as int, (start + count) as int)),
    ensures
        ({
            let stretch = machine.program.subrange(start as int, (start + count) as int);
            &&& machine.run(stretch, alu) matches Some(done)
            &&& machine.steps(count, alu) matches Some(stepped)
            &&& stepped.stack == done.stack
            &&& stepped.memory == done.memory
            &&& stepped.program == done.program
            &&& count > 0 ==> stepped.selected == Some((start + count - 1) as usize)
        }),
    decreases count,
{
    let stretch = machine.program.subrange(start as int, (start + count) as int);
    run_ignores_the_selection(machine, machine.selected, stretch, alu);
    if count > 0 {
        let head = machine.program[start as int];
        let tail = machine.program.subrange(start as int + 1, (start + count) as int);
        assert(stretch.first() == head);
        assert(stretch.drop_first() == tail);
        assert(!branches(stretch[0]));
        assert forall|i: int| 0 <= i < tail.len() implies !branches(#[trigger] tail[i]) by {
            assert(tail[i] == stretch[i + 1]);
        }
        let moved = machine.select(start as usize);
        let (next, outcome) = machine.effect(head);
        let at = Some(start as usize);
        assert(moved.effect(head) == (Machine { selected: at, ..next }, outcome));
        assert(machine.forward() == Some((Machine { selected: at, ..next }, outcome)));
        let settled = next.settled(outcome, alu);
        let here = Machine { selected: at, ..settled };
        assert(here == (Machine { selected: at, ..next }).settled(outcome, alu));
        assert(here.program == machine.program);
        run_ignores_the_selection(settled, at, tail, alu);
        stepping_runs_the_stretch(here, start + 1, (count - 1) as nat, alu);
    }
}

/// What is gathered satisfies what every pick satisfies.
proof fn gathered_keeps<T>(
    items: Seq<T>,
    pick: spec_fn(T) -> Option<Instruction>,
    keeps: spec_fn(Instruction) -> bool,
)
    requires
        forall|item: T| #[trigger] pick(item) matches Some(found) ==> keeps(found),
    ensures
        forall|i: int|
            0 <= i < gathered(items, pick).len() ==> keeps(#[trigger] gathered(items, pick)[i]),
    decreases items.len(),
{
    if items.len() > 0 {
        let rest = gathered(items.drop_last(), pick);
        gathered_keeps(items.drop_last(), pick, keeps);
        assert forall|i: int| 0 <= i < gathered(items, pick).len() implies keeps(
            #[trigger] gathered(items, pick)[i],
        ) by {
            if i < rest.len() {
                assert(gathered(items, pick)[i] == rest[i]);
            } else {
                assert(pick(items.last()) matches Some(found) && gathered(items, pick)[i]
                    == found);
            }
        }
    }
}

/// A compiled expression does not branch.
pub proof fn compiled_expressions_are_straight(symbols: Seq<Symbol>)
    ensures
        straight(infix_program(symbols)),
        straight(postfix_program(symbols)),
{
    let sound = |instruction: Instruction| !branches(instruction);
    match postfix_of(symbols) {
        Ok(items) => {
            gathered_keeps(items, |item: OpOrNum| item_instruction(item), sound);
        },
        Err(_) => {},
    }
    gathered_keeps(symbols, |symbol: Symbol| postfix_instruction(symbol), sound);
}

/// An infix expression as a tree.
pub enum Expression {
    Number(u64),
    /// An expression in parentheses.
    Group(Box<Expression>),
    /// Two expressions with an operator between them.
    Binary(Box<Expression>, char, Box<Expression>),
}

impl Expression {
    /// Whether the tree is an expression as one writes it without
    /// needless structure: every operator at the top of it binds with
    /// strength `level` or more; the left operand of an operator is such
    /// an expression for the operator's own strength, so that equal
    /// operators group to the left; the right operand binds more
    /// strongly.
    pub open spec fn well_formed(self, level: int) -> bool
        decreases self,
    {
        match self {
            Expression::Number(_) => true,
            Expression::Group(inner) => inner.well_formed(1),
            Expression::Binary(left, op, right) => {
                &&& operator(op)
                &&& strength(op) >= level
                &&& left.well_formed(strength(op) as int)
                &&& right.well_formed(strength(op) + 1)
            },
        }
    }

    /// The expression as it is written, symbol by symbol.
    pub open spec fn symbols(self) -> Seq<Symbol>
        decreases self,
    {
        match self {
            Expression::Number(bits) => seq![Symbol::Number(bits)],
            Expression::Group(inner) => seq![Symbol::Open] + inner.symbols() + seq![Symbol::Close],
            Expression::Binary(left, op, right) => left.symbols() + seq![Symbol::Operator(op)]
                + right.symbols(),
        }
    }

    /// The expression in postfix order: each operator behind its two
    /// operands.
    pub open spec fn postfix(self) -> Seq<OpOrNum>
        decreases self,
    {
        match self {
            Expression::Number(bits) => seq![OpOrNum::Num(bits)],
            Expression::Group(inner) => inner.postfix(),
            Expression::Binary(left, op, right) => left.postfix() + right.postfix()
                + seq![OpOrNum::Op(op)],
        }
    }

    /// The value of the expression as one expects it: each operator is
    /// applied to its left and its right operand, in that order.
    pub open spec fn standard_value(self, alu: spec_fn(Operation, u64, u64) -> u64) -> u64
        decreases self,
    {
        match self {
            Expression::Number(bits) => bits,
            Expression::Group(inner) => inner.standard_value(alu),
            Expression::Binary(left, op, right) => alu(
                arithmetic_of(op),
                left.standard_value(alu),
                right.standard_value(alu),
            ),
        }
    }

    /// The value of the expression as the machine computes it: the
    /// operand on top of the stack, which is the right one, comes first.
    pub open spec fn machine_value(self, alu: spec_fn(Operation, u64, u64) -> u64) -> u64
        decreases self,
    {
        match self {
            Expression::Number(bits) => bits,
            Expression::Group(inner) => inner.machine_value(alu),
            Expression::Binary(left, op, right) => alu(
                arithmetic_of(op),
                right.machine_value(alu),
                left.machine_value(alu),
            ),
        }
    }

    /// The operators that wait once the expression has been taken in,
    /// the most recent last.
    pub open spec fn pending(self) -> Seq<char>
        decreases self,
    {
        match self {
            Expression::Binary(_, op, right) => seq![op] + right.pending(),
            _ => Seq::empty(),
        }
    }

    /// What has been emitted once the expression has been taken in.
    pub open spec fn emitted(self) -> Seq<OpOrNum>
        decreases self,
    {
        match self {
            Expression::Number(bits) => seq![OpOrNum::Num(bits)],
            Expression::Group(inner) => inner.postfix(),
            Expression::Binary(left, _, right) => left.postfix() + right.emitted(),
        }
    }
}

/// The waiting operators as they are emitted: the most recent first.
pub open spec fn unwound(waiting: Seq<char>) -> Seq<OpOrNum>
    decreases waiting.len(),
{
    if waiting.len() == 0 {
        Seq::empty()
    } else {
        seq![OpOrNum::Op(waiting.last())] + unwound(waiting.drop_last())
    }
}

/// Whether all of `waiting` are operators that bind with strength `level`
/// or more.
pub open spec fn strong(waiting: Seq<char>, level: int) -> bool {
    forall|i: int| 0 <= i < waiting.len() ==> operator(#[trigger] waiting[i]) && strength(waiting[i]) >= level
}

/// Whether an operator of strength `level` that arrives leaves all of
/// `waiting` in place.
pub open spec fn rests(waiting: Seq<char>, level: int) -> bool {
    waiting.len() == 0 || waiting.last() == '(' || strength(waiting.last()) < level
}

proof fn unwound_in_parts(a: Seq<char>, b: Seq<char>)
    ensures
        unwound(a + b) == unwound(b) + unwound(a),
    decreases b.len(),
{
    if b.len() == 0 {
        assert(a + b == a);
        assert(unwound(b) + unwound(a) == unwound(a));
    } else {
        assert((a + b).drop_last() == a + b.drop_last());
        assert((a + b).last() == b.last());
        scalar_value(b.last());
        unwound_in_parts(a, b.drop_last());
        assert(seq![OpOrNum::Op(b.last())] + (unwound(b.drop_last()) + unwound(a)) == seq![
            OpOrNum::Op(b.last()),
        ] + unwound(b.drop_last()) + unwound(a));
    }
}

proof fn feed_all_in_parts(yard: Yard, a: Seq<Symbol>, b: Seq<Symbol>)
    ensures
        yard.feed_all(a + b) == match yard.feed_all(a) {
            Ok(between) => between.feed_all(b),
            Err(fault) => Err(fault),
        },
    decreases a.len(),
{
    if a.len() == 0 {
        assert(a + b == b);
    } else {
        assert((a + b).first() == a.first());
        assert((a + b).drop_first() == a.drop_first() + b);
        match yard.feed(a.first()) {
            Ok(next) => {
                feed_all_in_parts(next, a.drop_first(), b);
            },
            Err(_) => {},
        }
    }
}

proof fn feed_one(yard: Yard, symbol: Symbol)
    ensures
        yard.feed_all(seq![symbol]) == yard.feed(symbol),
{
    assert(seq![symbol].drop_first() == Seq::<Symbol>::empty());
    match yard.feed(symbol) {
        Ok(next) => {
            assert(next.feed_all(Seq::empty()) == Ok::<Yard, Fault>(next));
        },
        Err(_) => {},
    }
}

/// An operator that arrives sends the stronger operators above a resting
/// place to the output.
proof fn yield_unwinds(yard: Yard, below: Seq<char>, above: Seq<char>, incoming: char)
    requires
        yard.waiting == below + above,
        strong(above, strength(incoming) as int),
        rests(below, strength(incoming) as int),
    ensures
        yard.yield_to(incoming) == (Yard {
            output: yard.output + unwound(above),
            waiting: below,
        }),
    decreases above.len(),
{
    if above.len() == 0 {
        assert(below + above == below);
        assert(yard.output + unwound(above) == yard.output);
    } else {
        let top = above.last();
        assert(yard.waiting.last() == top);
        assert(operator(above[above.len() - 1]));
        assert(yard.waiting.drop_last() == below + above.drop_last());
        yield_unwinds(yard.emit_last(), below, above.drop_last(), incoming);
        assert(yard.output.push(OpOrNum::Op(top)) + unwound(above.drop_last()) == yard.output
            + unwound(above));
    }
}

/// A closing parenthesis sends the operators above its partner to the
/// output and removes the partner.
proof fn close_unwinds(yard: Yard, below: Seq<char>, above: Seq<char>)
    requires
        yard.waiting == below + seq!['('] + above,
        strong(above, 1),
    ensures
        yard.close() == Some(Yard { output: yard.output + unwound(above), waiting: below }),
    decreases above.len(),
{
    if above.len() == 0 {
        assert(below + seq!['('] + above == (below + seq!['(']));
        assert(yard.waiting.last() == '(');
        assert(yard.waiting.drop_last() == below);
        assert(yard.output + unwound(above) == yard.output);
    } else {
        let top = above.last();
        assert(yard.waiting.last() == top);
        assert(operator(above[above.len() - 1]));
        assert(yard.waiting.drop_last() == below + seq!['('] + above.drop_last());
        close_unwinds(yard.emit_last(), below, above.drop_last());
        assert(yard.output.push(OpOrNum::Op(top)) + unwound(above.drop_last()) == yard.output
            + unwound(above));
    }
}

/// At the end all waiting operators go to the output.
proof fn flush_unwinds(yard: Yard)
    requires
        strong(yard.waiting, 1),
    ensures
        yard.flush() == Ok::<Seq<OpOrNum>, Fault>(yard.output + unwound(yard.waiting)),
    decreases yard.waiting.len(),
{
    if yard.waiting.len() == 0 {
        assert(yard.output + unwound(yard.waiting) == yard.output);
    } else {
        let top = yard.waiting.last();
        assert(operator(yard.waiting[yard.waiting.len() - 1]));
        flush_unwinds(yard.emit_last());
        assert(yard.output.push(OpOrNum::Op(top)) + unwound(yard.waiting.drop_last())
            == yard.output + unwound(yard.waiting));
    }
}

/// What was emitted and what still waits make up the postfix form.
proof fn emitted_and_pending(e: Expression)
    ensures
        e.emitted() + unwound(e.pending()) == e.postfix(),
    decreases e,
{
    match e {
        Expression::Binary(left, op, right) => {
            emitted_and_pending(*right);
            unwound_in_parts(seq![op], right.pending());
            scalar_value(op);
            assert(seq![op].drop_last() == Seq::<char>::empty());
            assert(unwound(seq![op].drop_last()) == Seq::<OpOrNum>::empty());
            assert(seq![op].last() == op);
            assert(unwound(seq![op]) == seq![OpOrNum::Op(op)]);
            assert(left.postfix() + right.emitted() + (unwound(right.pending()) + seq![
                OpOrNum::Op(op),
            ]) == left.postfix() + (right.emitted() + unwound(right.pending())) + seq![
                OpOrNum::Op(op),
            ]);
        },
        _ => {
            assert(e.emitted() + unwound(e.pending()) == e.emitted());
        },
    }
}

/// Taking in a well-formed expression emits what `emitted` says and
/// leaves waiting what `pending` says, above what waited before.
proof fn feed_expression(e: Expression, level: int, yard: Yard)
    requires
        e.well_formed(level),
        level >= 1,
        rests(yard.waiting, level),
    ensures
        yard.feed_all(e.symbols()) == Ok::<Yard, Fault>(
            Yard { output: yard.output + e.emitted(), waiting: yard.waiting + e.pending() },
        ),
        strong(e.pending(), level),
    decreases e,
{
    match e {
        Expression::Number(bits) => {
            feed_one(yard, Symbol::Number(bits));
            assert(yard.output.push(OpOrNum::Num(bits)) == yard.output + e.emitted());
            assert(yard.waiting + e.pending() == yard.waiting);
        },
        Expression::Group(inner) => {
            let opened = Yard { output: yard.output, waiting: yard.waiting.push('(') };
            let inside = Yard {
                output: opened.output + inner.emitted(),
                waiting: opened.waiting + inner.pending(),
            };
            feed_all_in_parts(yard, seq![Symbol::Open] + inner.symbols(), seq![Symbol::Close]);
            feed_all_in_parts(yard, seq![Symbol::Open], inner.symbols());
            feed_one(yard, Symbol::Open);
            feed_expression(*inner, 1, opened);
            feed_one(inside, Symbol::Close);
            assert(inside.waiting == yard.waiting + seq!['('] + inner.pending());
            close_unwinds(inside, yard.waiting, inner.pending());
            emitted_and_pending(*inner);
            assert(yard.output + inner.emitted() + unwound(inner.pending()) == yard.output + (
            inner.emitted() + unwound(inner.pending())));
            assert(yard.waiting + e.pending() == yard.waiting);
        },
        Expression::Binary(left, op, right) => {
            let q = strength(op) as int;
            let after_left = Yard {
                output: yard.output + left.emitted(),
                waiting: yard.waiting + left.pending(),
            };
            let yielded = Yard { output: yard.output + left.postfix(), waiting: yard.waiting };
            let with_op = Yard { output: yielded.output, waiting: yielded.waiting.push(op) };
            feed_all_in_parts(yard, left.symbols() + seq![Symbol::Operator(op)], right.symbols());
            feed_all_in_parts(yard, left.symbols(), seq![Symbol::Operator(op)]);
            feed_expression(*left, q, yard);
            feed_one(after_left, Symbol::Operator(op));
            yield_unwinds(after_left, yard.waiting, left.pending(), op);
            emitted_and_pending(*left);
            assert(yard.output + left.emitted() + unwound(left.pending()) == yard.output + (
            left.emitted() + unwound(left.pending())));
            assert(after_left.yield_to(op) == yielded);
            assert(with_op.waiting.last() == op);
            feed_expression(*right, q + 1, with_op);
            assert(with_op.output + right.emitted() == yard.output + e.emitted());
            assert(with_op.waiting + right.pending() == yard.waiting + e.pending());
            assert forall|i: int| 0 <= i < e.pending().len() implies operator(
                #[trigger] e.pending()[i],
            ) && strength(e.pending()[i]) >= level by {
                if i > 0 {
                    assert(e.pending()[i] == right.pending()[i - 1]);
                }
            }
        },
    }
}

/// An expression is written with at least one symbol.
proof fn symbols_are_not_empty(e: Expression)
    ensures
        e.symbols().len() > 0,
    decreases e,
{
    match e {
        Expression::Binary(left, _, _) => {
            symbols_are_not_empty(*left);
        },
        _ => {},
    }
}

/// The conversion by precedence is correct: of every well-formed
/// expression it yields the postfix form.
pub proof fn infix_compiles_to_postfix(e: Expression)
    requires
        e.well_formed(1),
    ensures
        postfix_of(e.symbols()) == Ok::<Seq<OpOrNum>, Fault>(e.postfix()),
{
    let start = Yard::start();
    let taken = Yard { output: start.output + e.emitted(), waiting: start.waiting + e.pending() };
    symbols_are_not_empty(e);
    feed_expression(e, 1, start);
    assert(taken.waiting == e.pending());
    assert(taken.output == e.emitted());
    flush_unwinds(taken);
    emitted_and_pending(e);
}

/// Executing an instruction of arithmetic on two values and settling
/// the outcome replaces them by the result, the value on top being the
/// first operand.
proof fn arithmetic_settles(
    machine: Machine,
    below: u64,
    top: u64,
    op: char,
    alu: spec_fn(Operation, u64, u64) -> u64,
)
    requires
        operator(op),
    ensures
        operation_of(op) is Some,
        machine.push(below).push(top).run(seq![operation_of(op)->0], alu) == Some(
            machine.push(alu(arithmetic_of(op), top, below)),
        ),
{
    let loaded = machine.push(below).push(top);
    let instruction = operation_of(op)->0;
    let (popped, outcome) = loaded.effect(instruction);
    assert(loaded.stack.len() >= 2);
    assert(loaded.first() == top);
    assert(loaded.second() == below);
    assert(loaded.pop().pop().stack == machine.stack);
    assert(popped == machine);
    assert(outcome == Outcome::Compute(arithmetic_of(op), top, below));
    assert(loaded.execute(instruction) == Some((popped, outcome)));
    assert(seq![instruction].drop_first() == Seq::<Instruction>::empty());
    assert(popped.settled(outcome, alu).run(Seq::empty(), alu) == Some(
        popped.settled(outcome, alu),
    ));
}

impl Expression {
    /// The program that the expression compiles to.
    pub open spec fn program(self) -> Seq<Instruction> {
        gathered(self.postfix(), |item: OpOrNum| item_instruction(item))
    }
}

/// The program of an expression leaves the expression's value on the
/// stack, above what was there.
pub proof fn program_pushes_value(
    e: Expression,
    level: int,
    machine: Machine,
    alu: spec_fn(Operation, u64, u64) -> u64,
)
    requires
        e.well_formed(level),
    ensures
        machine.run(e.program(), alu) == Some(machine.push(e.machine_value(alu))),
    decreases e,
{
    let pick = |item: OpOrNum| item_instruction(item);
    match e {
        Expression::Number(bits) => {
            gathered_from_one(OpOrNum::Num(bits), pick);
            let instruction = Instruction::LDC(bits);
            assert(e.program() == seq![instruction]);
            assert(seq![instruction].drop_first() == Seq::<Instruction>::empty());
            assert(machine.execute(instruction) == Some((machine.push(bits), Outcome::Applied)));
            assert(machine.push(bits).run(Seq::empty(), alu) == Some(machine.push(bits)));
        },
        Expression::Group(inner) => {
            program_pushes_value(*inner, 1, machine, alu);
        },
        Expression::Binary(left, op, right) => {
            let q = strength(op) as int;
            gathered_in_parts(left.postfix() + right.postfix(), seq![OpOrNum::Op(op)], pick);
            gathered_in_parts(left.postfix(), right.postfix(), pick);
            gathered_from_one(OpOrNum::Op(op), pick);
            let instruction = operation_of(op)->0;
            assert(e.program() == left.program() + right.program() + seq![instruction]);
            run_in_parts(machine, left.program() + right.program(), seq![instruction], alu);
            run_in_parts(machine, left.program(), right.program(), alu);
            program_pushes_value(*left, q, machine, alu);
            program_pushes_value(*right, q + 1, machine.push(left.machine_value(alu)), alu);
            arithmetic_settles(
                machine,
                left.machine_value(alu),
                right.machine_value(alu),
                op,
                alu,
            );
        },
    }
}

/// Compiling a well-formed infix expression and stepping through the
/// program on an empty stack leaves one value: that of the expression,
/// each operator applied to its right operand first.
pub proof fn infix_program_computes(e: Expression, alu: spec_fn(Operation, u64, u64) -> u64)
    requires
        e.well_formed(1),
        e.program().len() <= usize::MAX,
    ensures
        infix_program(e.symbols()) == e.program(),
        ({
            let program = infix_program(e.symbols());
            let loaded = Machine::empty().extended(program);
            &&& loaded.steps(program.len(), alu) matches Some(done)
            &&& done.stack == seq![e.machine_value(alu)]
        }),
{
    let program = e.program();
    let loaded = Machine::empty().extended(program);
    infix_compiles_to_postfix(e);
    program_pushes_value(e, 1, loaded, alu);
    compiled_expressions_are_straight(e.symbols());
    assert(loaded.program == program);
    assert(program.subrange(0, program.len() as int) == program);
    stepping_runs_the_stretch(loaded, 0, program.len(), alu);
    assert(loaded.push(e.machine_value(alu)).stack == seq![e.machine_value(alu)]);
}

/// Compiling a well-formed infix expression and stepping through the
/// program on an empty stack leaves one value: that of the expression
/// under the usual reading, left operand first. This holds of the
/// expressions whose value does not depend on the order in which each
/// operator is handed its operands; the machine hands them over right
/// operand first.
pub proof fn infix_expression_is_evaluated(
    e: Expression,
    alu: spec_fn(Operation, u64, u64) -> u64,
)
    requires
        e.well_formed(1),
        e.program().len() <= usize::MAX,
        e.machine_value(alu) == e.standard_value(alu),
    ensures
        ({
            let program = infix_program(e.symbols());
            let loaded = Machine::empty().extended(program);
            &&& loaded.steps(program.len(), alu) matches Some(done)
            &&& done.stack == seq![e.standard_value(alu)]
        }),
{
    infix_program_computes(e, alu);
}

/// The stack after a postfix expression has been evaluated directly:
/// a number is pushed; an operator replaces the two values on top by
/// its result. `top_first` tells whether the operator is applied to the
/// value on top and the one below, in that order, or the other way
/// round. `None` where an operator finds fewer than two values, or a
/// symbol is neither a number nor an operator.
pub open spec fn evaluated(
    symbols: Seq<Symbol>,
    stack: Seq<u64>,
    alu: spec_fn(Operation, u64, u64) -> u64,
    top_first: bool,
) -> Option<Seq<u64>>
    decreases symbols.len(),
{
    if symbols.len() == 0 {
        Some(stack)
    } else {
        match symbols.first() {
            Symbol::Number(bits) => evaluated(
                symbols.drop_first(),
                stack.push(bits),
                alu,
                top_first,
            ),
            Symbol::Operator(op) => if operator(op) && stack.len() >= 2 {
                let top = stack.last();
                let below = stack[stack.len() - 2];
                let result = if top_first {
                    alu(arithmetic_of(op), top, below)
                } else {
                    alu(arithmetic_of(op), below, top)
                };
                evaluated(
                    symbols.drop_first(),
                    stack.drop_last().drop_last().push(result),
                    alu,
                    top_first,
                )
            } else {
                None
            },
            _ => None,
        }
    }
}

/// Compiling a postfix expression and executing the program gives the
/// stack of the direct evaluation in which each operator is applied to
/// the value on top first.
pub proof fn postfix_program_computes(
    symbols: Seq<Symbol>,
    machine: Machine,
    alu: spec_fn(Operation, u64, u64) -> u64,
)
    requires
        evaluated(symbols, machine.stack, alu, true) is Some,
    ensures
        machine.run(postfix_program(symbols), alu) == Some(
            Machine { stack: evaluated(symbols, machine.stack, alu, true)->0, ..machine },
        ),
    decreases symbols.len(),
{
    let pick = |symbol: Symbol| postfix_instruction(symbol);
    if symbols.len() == 0 {
        assert(machine.run(Seq::empty(), alu) == Some(machine));
        assert(machine == Machine { stack: machine.stack, ..machine });
    } else {
        let head = symbols.first();
        let tail = symbols.drop_first();
        assert(symbols == seq![head] + tail);
        gathered_in_parts(seq![head], tail, pick);
        gathered_from_one(head, pick);
        run_in_parts(machine, postfix_program(seq![head]), postfix_program(tail), alu);
        match head {
            Symbol::Number(bits) => {
                let instruction = Instruction::LDC(bits);
                assert(seq![instruction].drop_first() == Seq::<Instruction>::empty());
                assert(machine.execute(instruction) == Some(
                    (machine.push(bits), Outcome::Applied),
                ));
                assert(machine.push(bits).run(Seq::empty(), alu) == Some(machine.push(bits)));
                postfix_program_computes(tail, machine.push(bits), alu);
            },
            Symbol::Operator(op) => {
                let top = machine.stack.last();
                let below = machine.stack[machine.stack.len() - 2];
                let base = machine.pop().pop();
                assert(base.push(below).push(top).stack == machine.stack);
                assert(base.push(below).push(top) == machine);
                arithmetic_settles(base, below, top, op, alu);
                postfix_program_computes(tail, base.push(alu(arithmetic_of(op), top, below)), alu);
            },
            _ => {},
        }
    }
}

/// Postfix round trip: compiling a postfix expression and stepping
/// through the program on an empty stack gives the stack of the direct
/// evaluation, each operator applied to the earlier operand first. This
/// holds of the expressions whose evaluation does not depend on the
/// order in which each operator is handed its operands; the machine
/// hands over the value on top first.
pub proof fn postfix_expression_is_evaluated(
    symbols: Seq<Symbol>,
    alu: spec_fn(Operation, u64, u64) -> u64,
)
    requires
        postfix_program(symbols).len() <= usize::MAX,
        evaluated(symbols, Seq::empty(), alu, false) is Some,
        evaluated(symbols, Seq::empty(), alu, true) == evaluated(
            symbols,
            Seq::empty(),
            alu,
            false,
        ),
    ensures
        ({
            let program = postfix_program(symbols);
            let loaded = Machine::empty().extended(program);
            &&& loaded.steps(program.len(), alu) matches Some(done)
            &&& Some(done.stack) == evaluated(symbols, Seq::empty(), alu, false)
        }),
{
    let program = postfix_program(symbols);
    let loaded = Machine::empty().extended(program);
    postfix_program_computes(symbols, loaded, alu);
    compiled_expressions_are_straight(symbols);
    assert(loaded.program == program);
    assert(program.subrange(0, program.len() as int) == program);
    stepping_runs_the_stretch(loaded, 0, program.len(), alu);
}

} // verus!
