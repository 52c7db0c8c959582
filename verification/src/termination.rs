//! Why the length of the program bounds a run of unconditional branches.
//!
//! A run of unconditional branches that comes to rest passes no place of
//! the program twice, so it is no longer than the program. A run that is
//! longer therefore never ends, and no allowance of hops would let the
//! machine finish it.

use vstd::prelude::*;
use vstd::set_lib::{lemma_int_range, lemma_len_subset, set_int_range};
use crate::instructions::Instruction;
use crate::machine::Machine;

verus! {

/// Whether the instruction at `place` is an unconditional branch to a
/// place in the program.
pub open spec fn passes_on(program: Seq<Instruction>, place: int) -> bool {
    &&& 0 <= place < program.len()
    &&& program[place] matches Instruction::BR(target)
    &&& target < program.len()
}

/// The place that the branch at `place` leads to.
pub open spec fn onward(program: Seq<Instruction>, place: int) -> int {
    match program[place] {
        Instruction::BR(target) => target as int,
        _ => place,
    }
}

/// The number of unconditional branches that are followed from `place`
/// until an instruction of another kind is reached; `None` where there
/// are more than `fuel`.
pub open spec fn distance(program: Seq<Instruction>, place: int, fuel: nat) -> Option<nat>
    decreases fuel,
{
    if !passes_on(program, place) {
        Some(0)
    } else if fuel == 0 {
        None
    } else {
        match distance(program, onward(program, place), (fuel - 1) as nat) {
            Some(d) => Some(d + 1),
            None => None,
        }
    }
}

/// The places that are passed from `place` on.
pub open spec fn trail(program: Seq<Instruction>, place: int, fuel: nat) -> Set<int>
    decreases fuel,
{
    if !passes_on(program, place) || fuel == 0 {
        set![place]
    } else {
        trail(program, onward(program, place), (fuel - 1) as nat).insert(place)
    }
}

/// A distance is no more than the fuel that it was found with.
proof fn distance_is_within_fuel(program: Seq<Instruction>, place: int, fuel: nat)
    requires
        distance(program, place, fuel) is Some,
    ensures
        distance(program, place, fuel)->0 <= fuel,
    decreases fuel,
{
    if passes_on(program, place) {
        distance_is_within_fuel(program, onward(program, place), (fuel - 1) as nat);
    }
}

/// A distance does not depend on the fuel, as long as the fuel suffices.
proof fn distance_is_stable(program: Seq<Instruction>, place: int, fuel: nat, other: nat)
    requires
        distance(program, place, fuel) is Some,
        other >= distance(program, place, fuel)->0,
    ensures
        distance(program, place, other) == distance(program, place, fuel),
    decreases fuel,
{
    if passes_on(program, place) {
        distance_is_stable(
            program,
            onward(program, place),
            (fuel - 1) as nat,
            (other - 1) as nat,
        );
    }
}

/// The places on a trail that comes to rest are all different, and all
/// lie in the program.
proof fn trail_is_short(program: Seq<Instruction>, place: int, fuel: nat)
    requires
        0 <= place < program.len(),
        distance(program, place, fuel) is Some,
    ensures
        trail(program, place, fuel).finite(),
        trail(program, place, fuel).len() == distance(program, place, fuel)->0 + 1,
        forall|v: int| #[trigger]
            trail(program, place, fuel).contains(v) ==> 0 <= v < program.len() && distance(
                program,
                v,
                fuel,
            ) is Some && distance(program, v, fuel)->0 <= distance(program, place, fuel)->0,
    decreases fuel,
{
    if passes_on(program, place) {
        let next = onward(program, place);
        let before = (fuel - 1) as nat;
        let rest = trail(program, next, before);
        trail_is_short(program, next, before);
        assert forall|v: int| #[trigger] rest.contains(v) implies distance(program, v, fuel)
            == distance(program, v, before) by {
            distance_is_within_fuel(program, v, before);
            distance_is_stable(program, v, before, fuel);
        }
        assert(!rest.contains(place));
    }
}

/// A run of unconditional branches that comes to rest is shorter than
/// the program.
pub proof fn distance_is_bounded(program: Seq<Instruction>, place: int, fuel: nat)
    requires
        0 <= place < program.len(),
        distance(program, place, fuel) is Some,
    ensures
        distance(program, place, fuel)->0 < program.len(),
{
    let places = trail(program, place, fuel);
    let all = set_int_range(0, program.len() as int);
    trail_is_short(program, place, fuel);
    lemma_int_range(0, program.len() as int);
    assert(places.subset_of(all));
    lemma_len_subset(places, all);
}

/// A jump that comes to an end has followed a run of unconditional
/// branches that came to rest.
proof fn jump_comes_to_rest(machine: Machine, target: usize, hops: nat)
    requires
        target < machine.program.len(),
        machine.jump(target, hops) is Some,
    ensures
        hops > 0,
        distance(machine.program, target as int, (hops - 1) as nat) is Some,
    decreases hops,
{
    if passes_on(machine.program, target as int) {
        let next = onward(machine.program, target as int) as usize;
        jump_comes_to_rest(machine.select(target), next, (hops - 1) as nat);
    }
}

/// A jump whose run of unconditional branches comes to rest ends the
/// same with any allowance that covers the run.
proof fn jump_needs_its_distance_only(
    machine: Machine,
    target: usize,
    fuel: nat,
    hops: nat,
    other: nat,
)
    requires
        target < machine.program.len(),
        distance(machine.program, target as int, fuel) is Some,
        hops > distance(machine.program, target as int, fuel)->0,
        other > distance(machine.program, target as int, fuel)->0,
    ensures
        machine.jump(target, hops) == machine.jump(target, other),
    decreases fuel,
{
    if passes_on(machine.program, target as int) {
        let next = onward(machine.program, target as int) as usize;
        jump_needs_its_distance_only(
            machine.select(target),
            next,
            (fuel - 1) as nat,
            (hops - 1) as nat,
            (other - 1) as nat,
        );
    }
}

/// The length of the program is allowance enough: an execution that
/// comes to an end within any number of hops comes to the same end
/// within as many hops as the program is long. So an execution that
/// does not settle never ends.
pub proof fn program_length_bounds_the_hops(machine: Machine, instruction: Instruction, hops: nat)
    requires
        machine.step(instruction, hops) is Some,
    ensures
        machine.execute(instruction) == machine.step(instruction, hops),
{
    match instruction {
        Instruction::BR(target) => {
            if target < machine.program.len() {
                let fuel = (hops - 1) as nat;
                jump_comes_to_rest(machine, target, hops);
                distance_is_within_fuel(machine.program, target as int, fuel);
                distance_is_bounded(machine.program, target as int, fuel);
                jump_needs_its_distance_only(
                    machine,
                    target,
                    fuel,
                    hops,
                    machine.program.len(),
                );
            }
        },
        _ => {},
    }
}

} // verus!
