use stackalc::instructions::Instruction;
use stackalc::machine::{Operation, Outcome, Stackalc};
use stackalc::parser::CalcMode;
use stackalc::scanner::scan;
use stackalc::token::Token;

fn bits(value: f64) -> u64 {
    value.to_bits()
}

fn values(machine: &Stackalc) -> Vec<f64> {
    machine.stack.iter().map(|b| f64::from_bits(*b)).collect()
}

fn machine_with(stack: &[f64]) -> Stackalc {
    let mut machine = Stackalc::default();
    for value in stack {
        machine.ldc(bits(*value));
    }
    machine
}

/// The arithmetic that the machine leaves to its caller.
fn settle(machine: &mut Stackalc, outcome: Outcome) {
    match outcome {
        Outcome::Compute(operation, first, second) => {
            let (first, second) = (f64::from_bits(first), f64::from_bits(second));
            let result = match operation {
                Operation::Add => first + second,
                Operation::Multiply => first * second,
                Operation::Subtract => first - second,
                Operation::Divide => first / second,
            };
            machine.ldc(bits(result));
        }
        Outcome::Sample => {
            machine.sample(bits(0.25));
        }
        Outcome::Skipped | Outcome::Applied => {}
    }
}

fn execute(machine: &mut Stackalc, instruction: Instruction) -> Outcome {
    assert!(machine.settles(instruction));
    let outcome = machine.execute_instruction(instruction);
    settle(machine, outcome);
    outcome
}

fn load(machine: &mut Stackalc, text: &str, mode: CalcMode) {
    let tokens: Vec<Token> = scan(text, &mode)
        .into_iter()
        .map(|token| {
            let value = token
                .literal()
                .and_then(|text| text.parse::<f64>().ok())
                .map(f64::to_bits);
            token.resolve(value)
        })
        .collect();
    machine.load_input(&mode, &tokens);
}

/// Compiles a text and steps through the program from its first instruction.
fn evaluate(text: &str, mode: CalcMode) -> Vec<f64> {
    let mut machine = Stackalc::default();
    load(&mut machine, text, mode);
    for index in 0..machine.expr.len() {
        machine.selected = Some(index);
        let instruction = machine.expr[index];
        assert!(machine.settles(instruction));
        let outcome = machine.execute_selected();
        settle(&mut machine, outcome);
    }
    values(&machine)
}

fn snapshot(machine: &Stackalc) -> (Vec<u64>, [Option<u64>; 32], Vec<Instruction>, Option<usize>) {
    (
        machine.stack.clone(),
        machine.memory,
        machine.expr.clone(),
        machine.selected,
    )
}

#[test]
fn a_new_machine_is_empty() {
    let machine = Stackalc::default();
    assert!(machine.stack.is_empty());
    assert!(machine.expr.is_empty());
    assert!(machine.memory.iter().all(|cell| cell.is_none()));
    assert_eq!(machine.memory.len(), 32);
    assert_eq!(machine.selected, None);
}

#[test]
fn infix_expressions_evaluate_by_precedence() {
    assert_eq!(evaluate("2 + 3 * 4", CalcMode::INFIX), vec![14.0]);
    assert_eq!(evaluate("(2 + 3) * 4", CalcMode::INFIX), vec![20.0]);
    assert_eq!(evaluate("2 * 3 + 4 * 5", CalcMode::INFIX), vec![26.0]);
    assert_eq!(evaluate("1.5 + 2.25", CalcMode::INFIX), vec![3.75]);
    assert_eq!(evaluate("((7))", CalcMode::INFIX), vec![7.0]);
}

#[test]
fn infix_operands_reach_the_operation_right_one_first() {
    assert_eq!(evaluate("10 - 3", CalcMode::INFIX), vec![-7.0]);
    assert_eq!(evaluate("2 / 8", CalcMode::INFIX), vec![4.0]);
    assert_eq!(evaluate("8 - 3 - 2", CalcMode::INFIX), vec![2.0 - (3.0 - 8.0)]);
}

#[test]
fn postfix_expression_3_4_plus_is_7() {
    assert_eq!(evaluate("3 4 +", CalcMode::POSTFIX), vec![7.0]);
    assert_eq!(evaluate("2 3 4 * +", CalcMode::POSTFIX), vec![14.0]);
    assert_eq!(evaluate("1 2 3", CalcMode::POSTFIX), vec![1.0, 2.0, 3.0]);
    assert_eq!(evaluate("3 4 -", CalcMode::POSTFIX), vec![1.0]);
}

#[test]
fn raw_ldc_5_leaves_5_on_the_stack() {
    assert_eq!(evaluate("ldc:5", CalcMode::RAW), vec![5.0]);
    assert_eq!(evaluate("ldc:2.5 dup mul", CalcMode::RAW), vec![6.25]);
}

#[test]
fn subtract_takes_the_top_of_the_stack_first() {
    let mut machine = machine_with(&[10.0, 3.0]);
    let outcome = machine.execute_instruction(Instruction::SUB);
    assert_eq!(
        outcome,
        Outcome::Compute(Operation::Subtract, bits(3.0), bits(10.0))
    );
    assert!(machine.stack.is_empty());
    settle(&mut machine, outcome);
    assert_eq!(values(&machine), vec![3.0 - 10.0]);
}

#[test]
fn divide_takes_the_top_of_the_stack_first() {
    let mut machine = machine_with(&[1.0, 10.0, 4.0]);
    let outcome = machine.div();
    assert_eq!(
        outcome,
        Outcome::Compute(Operation::Divide, bits(4.0), bits(10.0))
    );
    assert_eq!(values(&machine), vec![1.0]);
    settle(&mut machine, outcome);
    assert_eq!(values(&machine), vec![1.0, 0.4]);
}

#[test]
fn add_and_multiply_pop_both_operands() {
    let mut machine = machine_with(&[5.0, 2.0, 3.0]);
    assert_eq!(
        machine.add(),
        Outcome::Compute(Operation::Add, bits(3.0), bits(2.0))
    );
    assert_eq!(values(&machine), vec![5.0]);
    let mut machine = machine_with(&[5.0, 2.0, 3.0]);
    assert_eq!(
        machine.mul(),
        Outcome::Compute(Operation::Multiply, bits(3.0), bits(2.0))
    );
    assert_eq!(values(&machine), vec![5.0]);
}

#[test]
fn underflow_leaves_the_machine_unchanged() {
    let two_operands = [
        Instruction::ADD,
        Instruction::MUL,
        Instruction::SUB,
        Instruction::DIV,
        Instruction::CEQ,
        Instruction::CGT,
        Instruction::CLT,
    ];
    let one_operand = [
        Instruction::NEG,
        Instruction::DUP,
        Instruction::POP,
        Instruction::STV(3),
        Instruction::BRTRUE(0),
        Instruction::BRFALSE(0),
    ];
    for instruction in two_operands {
        for stack in [vec![], vec![1.5]] {
            let mut machine = machine_with(&stack);
            machine.memory[3] = Some(bits(9.0));
            machine.expr = vec![Instruction::NOP];
            let before = snapshot(&machine);
            assert_eq!(execute(&mut machine, instruction), Outcome::Skipped);
            assert_eq!(snapshot(&machine), before);
        }
    }
    for instruction in one_operand {
        let mut machine = Stackalc::default();
        machine.memory[3] = Some(bits(9.0));
        machine.expr = vec![Instruction::NOP];
        let before = snapshot(&machine);
        assert_eq!(execute(&mut machine, instruction), Outcome::Skipped);
        assert_eq!(snapshot(&machine), before);
    }
}

#[test]
fn negate_flips_the_sign() {
    let mut machine = machine_with(&[2.5]);
    assert_eq!(machine.neg(), Outcome::Applied);
    assert_eq!(values(&machine), vec![-2.5]);
    machine.neg();
    assert_eq!(values(&machine), vec![2.5]);
    let mut machine = machine_with(&[0.0]);
    machine.neg();
    assert_eq!(machine.stack, vec![bits(-0.0)]);
    let mut machine = machine_with(&[f64::INFINITY]);
    machine.neg();
    assert_eq!(values(&machine), vec![f64::NEG_INFINITY]);
    let mut machine = machine_with(&[f64::NAN]);
    machine.neg();
    assert_eq!(machine.stack, vec![(-f64::NAN).to_bits()]);
}

#[test]
fn comparisons_push_one_or_zero() {
    let samples = [
        0.0,
        -0.0,
        1.0,
        -1.0,
        2.5,
        -2.5,
        f64::MIN_POSITIVE,
        -f64::MIN_POSITIVE,
        5e-324,
        -5e-324,
        f64::MAX,
        f64::MIN,
        f64::INFINITY,
        f64::NEG_INFINITY,
        f64::NAN,
        -f64::NAN,
        f64::EPSILON,
        1e300,
        -1e-300,
    ];
    for second in samples {
        for first in samples {
            let truth = |holds: bool| if holds { vec![7.0, 1.0] } else { vec![7.0, 0.0] };
            let mut machine = machine_with(&[7.0, second, first]);
            assert_eq!(machine.ceq(), Outcome::Applied);
            assert_eq!(values(&machine), truth(first == second), "{first} == {second}");
            let mut machine = machine_with(&[7.0, second, first]);
            assert_eq!(machine.cgt(), Outcome::Applied);
            assert_eq!(values(&machine), truth(first >= second), "{first} >= {second}");
            let mut machine = machine_with(&[7.0, second, first]);
            assert_eq!(machine.clt(), Outcome::Applied);
            assert_eq!(values(&machine), truth(first <= second), "{first} <= {second}");
        }
    }
}

#[test]
fn duplicate_and_discard() {
    let mut machine = machine_with(&[1.0, 2.0]);
    assert_eq!(machine.dup(), Outcome::Applied);
    assert_eq!(values(&machine), vec![1.0, 2.0, 2.0]);
    assert_eq!(machine.pop(), Outcome::Applied);
    assert_eq!(machine.pop(), Outcome::Applied);
    assert_eq!(values(&machine), vec![1.0]);
    assert_eq!(machine.nop(), Outcome::Applied);
    assert_eq!(values(&machine), vec![1.0]);
}

#[test]
fn memory_round_trip() {
    let mut machine = machine_with(&[1.0, 42.5]);
    assert_eq!(execute(&mut machine, Instruction::STV(5)), Outcome::Applied);
    assert_eq!(values(&machine), vec![1.0]);
    assert_eq!(machine.memory[5], Some(bits(42.5)));
    assert_eq!(execute(&mut machine, Instruction::LDV(5)), Outcome::Applied);
    assert_eq!(values(&machine), vec![1.0, 42.5]);
    assert_eq!(machine.memory[5], Some(bits(42.5)));
    for cell in 0..32 {
        if cell != 5 {
            assert_eq!(machine.memory[cell], None);
        }
    }
}

#[test]
fn a_cell_holds_the_last_value_stored() {
    let mut machine = machine_with(&[1.0, 2.0]);
    machine.stv(0);
    machine.stv(0);
    assert_eq!(machine.memory[0], Some(bits(1.0)));
    assert!(machine.stack.is_empty());
}

#[test]
fn loading_an_unset_cell_does_nothing() {
    let mut machine = machine_with(&[1.0]);
    let before = snapshot(&machine);
    assert_eq!(execute(&mut machine, Instruction::LDV(5)), Outcome::Skipped);
    assert_eq!(snapshot(&machine), before);
}

#[test]
fn memory_ends_at_cell_31() {
    let mut machine = machine_with(&[1.0, 2.0, 3.0]);
    assert_eq!(machine.stv(31), Outcome::Applied);
    assert_eq!(machine.memory[31], Some(bits(3.0)));
    for cell in [32, 33, usize::MAX] {
        let before = snapshot(&machine);
        assert_eq!(machine.ldv(cell), Outcome::Skipped);
        assert_eq!(snapshot(&machine), before);
    }
    let memory = machine.memory;
    assert_eq!(machine.stv(32), Outcome::Applied);
    assert_eq!(values(&machine), vec![1.0]);
    assert_eq!(machine.memory, memory);
}

#[test]
fn a_branch_beyond_the_program_does_nothing() {
    let mut machine = machine_with(&[1.0]);
    machine.expr = vec![Instruction::NOP, Instruction::DUP];
    machine.selected = Some(0);
    for target in [2, 3, usize::MAX] {
        let before = snapshot(&machine);
        assert_eq!(execute(&mut machine, Instruction::BR(target)), Outcome::Skipped);
        assert_eq!(snapshot(&machine), before);
    }
}

#[test]
fn a_branch_executes_its_target_at_once() {
    let mut machine = machine_with(&[1.0]);
    machine.expr = vec![Instruction::NOP, Instruction::DUP];
    assert_eq!(execute(&mut machine, Instruction::BR(1)), Outcome::Applied);
    assert_eq!(machine.selected, Some(1));
    assert_eq!(values(&machine), vec![1.0, 1.0]);
}

#[test]
fn a_branch_to_arithmetic_hands_the_arithmetic_on() {
    let mut machine = machine_with(&[2.0, 3.0]);
    machine.expr = vec![Instruction::BR(2), Instruction::NOP, Instruction::MUL];
    machine.selected = Some(0);
    assert!(machine.settles(machine.expr[0]));
    let outcome = machine.execute_selected();
    assert_eq!(
        outcome,
        Outcome::Compute(Operation::Multiply, bits(3.0), bits(2.0))
    );
    assert_eq!(machine.selected, Some(2));
    settle(&mut machine, outcome);
    assert_eq!(values(&machine), vec![6.0]);
}

#[test]
fn a_branch_to_a_skipped_instruction_has_still_moved_the_selection() {
    let mut machine = Stackalc::default();
    machine.expr = vec![Instruction::ADD];
    assert_eq!(execute(&mut machine, Instruction::BR(0)), Outcome::Applied);
    assert_eq!(machine.selected, Some(0));
    assert!(machine.stack.is_empty());
}

#[test]
fn branches_follow_one_another() {
    let mut machine = machine_with(&[4.0]);
    machine.expr = vec![
        Instruction::BR(3),
        Instruction::NEG,
        Instruction::POP,
        Instruction::BR(1),
    ];
    assert_eq!(execute(&mut machine, Instruction::BR(0)), Outcome::Applied);
    assert_eq!(machine.selected, Some(1));
    assert_eq!(values(&machine), vec![-4.0]);
}

#[test]
fn a_conditional_branch_consumes_a_value_whichever_way_it_goes() {
    for (value, target) in [
        (1.0, 0),
        (0.0, 0),
        (-0.0, 0),
        (f64::NAN, 0),
        (1.0, 1),
        (0.0, 1),
        (1.0, 99),
        (0.0, 99),
    ] {
        for on_true in [true, false] {
            let mut machine = machine_with(&[8.0, 9.0, value]);
            machine.expr = vec![Instruction::NOP];
            let branch = if on_true {
                Instruction::BRTRUE(target)
            } else {
                Instruction::BRFALSE(target)
            };
            assert_eq!(execute(&mut machine, branch), Outcome::Applied);
            assert_eq!(values(&machine), vec![8.0, 9.0]);
            let jumps = target == 0 && ((value != 0.0) == on_true);
            assert_eq!(machine.selected, if jumps { Some(0) } else { None });
        }
    }
}

#[test]
fn a_conditional_branch_jumps_on_its_condition() {
    let program = vec![Instruction::NOP, Instruction::LDC(bits(5.0))];
    let mut machine = machine_with(&[2.0]);
    machine.expr = program.clone();
    assert_eq!(machine.brtrue(1), Outcome::Applied);
    assert_eq!(values(&machine), vec![5.0]);
    let mut machine = machine_with(&[0.0]);
    machine.expr = program.clone();
    assert_eq!(machine.brtrue(1), Outcome::Applied);
    assert!(machine.stack.is_empty());
    let mut machine = machine_with(&[0.0]);
    machine.expr = program.clone();
    assert_eq!(machine.brfalse(1), Outcome::Applied);
    assert_eq!(values(&machine), vec![5.0]);
    let mut machine = machine_with(&[2.0]);
    machine.expr = program;
    assert_eq!(machine.brfalse(1), Outcome::Applied);
    assert!(machine.stack.is_empty());
}

#[test]
fn conditional_branches_in_a_row_use_up_the_stack() {
    let mut machine = machine_with(&[1.0, 1.0, 1.0]);
    machine.expr = vec![Instruction::BRTRUE(0)];
    assert_eq!(execute(&mut machine, Instruction::BRTRUE(0)), Outcome::Applied);
    assert!(machine.stack.is_empty());
    assert_eq!(machine.selected, Some(0));
}

#[test]
fn branches_that_lead_back_to_one_another_do_not_settle() {
    let mut machine = machine_with(&[1.0]);
    machine.expr = vec![Instruction::BR(0)];
    assert!(!machine.settles(Instruction::BR(0)));
    assert!(!machine.settles(Instruction::BRTRUE(0)));
    assert!(machine.settles(Instruction::BRFALSE(0)));
    assert!(machine.settles(Instruction::BR(1)));
    assert!(machine.settles(Instruction::ADD));
    machine.expr = vec![Instruction::BR(1), Instruction::BR(2), Instruction::BR(0)];
    for target in 0..3 {
        assert!(!machine.settles(Instruction::BR(target)));
    }
    machine.expr = vec![Instruction::BR(1), Instruction::BR(2), Instruction::BRTRUE(0)];
    for target in 0..3 {
        assert!(machine.settles(Instruction::BR(target)));
    }
}

#[test]
fn the_longest_chain_of_branches_settles() {
    let mut machine = Stackalc::default();
    machine.expr = vec![
        Instruction::BR(1),
        Instruction::BR(2),
        Instruction::BR(3),
        Instruction::BR(9),
    ];
    assert!(machine.settles(Instruction::BR(0)));
    assert_eq!(machine.br(0), Outcome::Applied);
    assert_eq!(machine.selected, Some(3));
}

#[test]
fn random_asks_the_caller_for_a_sample() {
    let mut machine = machine_with(&[1.0]);
    let before = snapshot(&machine);
    assert_eq!(machine.rng(), Outcome::Sample);
    assert_eq!(snapshot(&machine), before);
    assert_eq!(execute(&mut machine, Instruction::RNG), Outcome::Sample);
    assert_eq!(values(&machine), vec![1.0, 0.25]);
}

#[test]
fn a_sample_is_pushed() {
    let mut machine = machine_with(&[1.0]);
    machine.sample(bits(0.0));
    machine.sample(bits(0.9999999999999999));
    assert_eq!(values(&machine), vec![1.0, 0.0, 0.9999999999999999]);
}

#[test]
fn execute_selected_beyond_the_program_does_nothing() {
    let mut machine = machine_with(&[1.0]);
    machine.expr = vec![Instruction::DUP];
    machine.selected = Some(1);
    let before = snapshot(&machine);
    assert_eq!(machine.execute_selected(), Outcome::Skipped);
    assert_eq!(snapshot(&machine), before);
    machine.selected = None;
    assert_eq!(machine.execute_selected(), Outcome::Skipped);
    assert_eq!(snapshot(&machine), (before.0, before.1, before.2, None));
    machine.selected = Some(0);
    assert_eq!(machine.execute_selected(), Outcome::Applied);
    assert_eq!(values(&machine), vec![1.0, 1.0]);
}

#[test]
fn next_steps_through_the_program() {
    let mut machine = Stackalc::default();
    load(&mut machine, "ldc:1 ldc:2 add", CalcMode::RAW);
    let outcome = machine.next();
    assert_eq!((machine.selected, outcome), (Some(0), Outcome::Applied));
    let outcome = machine.next();
    assert_eq!((machine.selected, outcome), (Some(1), Outcome::Applied));
    let outcome = machine.next();
    assert_eq!(machine.selected, Some(2));
    settle(&mut machine, outcome);
    assert_eq!(values(&machine), vec![3.0]);
    assert_eq!(machine.next(), Outcome::Skipped);
    assert_eq!(machine.selected, Some(3));
    machine.selected = Some(usize::MAX);
    assert_eq!(machine.next(), Outcome::Skipped);
    assert_eq!(machine.selected, Some(usize::MAX));
}

#[test]
fn clear_resets_program_stack_and_memory() {
    let mut machine = machine_with(&[1.0, 2.0, 3.0]);
    load(&mut machine, "1 + 2", CalcMode::INFIX);
    machine.stv(0);
    machine.stv(31);
    machine.selected = Some(1);
    machine.clear();
    assert!(machine.stack.is_empty());
    assert!(machine.expr.is_empty());
    assert!(machine.memory.iter().all(|cell| cell.is_none()));
    assert_eq!(machine.selected, Some(1));
    for cell in [0, 5, 31, 32, 1000] {
        assert_eq!(execute(&mut machine, Instruction::LDV(cell)), Outcome::Skipped);
        assert!(machine.stack.is_empty());
    }
}

#[test]
fn a_loop_counts_down() {
    let mut machine = Stackalc::default();
    load(
        &mut machine,
        "ldc:3 stv:0 ldv:0 ldc:1 sub neg dup stv:0 brtrue:2 ldv:0",
        CalcMode::RAW,
    );
    let mut index = 0;
    let mut steps = 0;
    while index < machine.expr.len() && steps < 100 {
        machine.selected = Some(index);
        assert!(machine.settles(machine.expr[index]));
        let outcome = machine.execute_selected();
        let jumped = machine.selected != Some(index);
        settle(&mut machine, outcome);
        index = machine.selected.unwrap() + 1;
        if jumped {
            assert_eq!(machine.selected, Some(2));
        }
        steps += 1;
    }
    assert_eq!(steps, 22);
    assert_eq!(machine.stack, vec![bits(-0.0)]);
    assert_eq!(machine.memory[0], Some(bits(-0.0)));
}
