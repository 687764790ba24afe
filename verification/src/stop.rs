//! Where code generation stops.
//!
//! A step that fails leaves the generator in a state of its own: what was
//! emitted before the failure stays emitted, and nothing is emitted after
//! it. Each function of this file gives the state in which a step stops,
//! for the case that the step fails.

use vstd::prelude::*;
use crate::ast::{Attribute, BlockView, ConditionalView, FunctionView, InstructionView};
use crate::image::{addressed_as, open_function};
use crate::model::{
    conditional, emit, emulation_shim, enter_block, first_conflict, instructions,
    jump_to_subroutine, math_shim, repeat, scope, target_mode, test_of, Mode, State, BANK_START,
};

verus! {

/// The state in which the instructions that set the widths stop: behind
/// the instruction for the accumulator, where only that for the index
/// registers finds no room.
pub open spec fn width_stop(s: State, previous_math: bool, function: Seq<u8>) -> State {
    if s.mode.wide_math != previous_math && s.mode.wide_math == s.mode.wide_index {
        s
    } else {
        match math_shim(s, previous_math, function) {
            Ok(s1) => s1,
            Err(_) => s,
        }
    }
}

/// The state in which a switch of mode stops: in the mode before it, with
/// the instructions that found room.
pub open spec fn switch_stop(s: State, to: Mode, function: Seq<u8>) -> State {
    let s0 = State { mode: to, ..s };
    match emulation_shim(s0, s.mode.emulation, function) {
        Ok(s1) => State { mode: s.mode, ..width_stop(s1, s.mode.wide_math, function) },
        Err(_) => s,
    }
}

/// The state in which entering a block stops: the state before it, where
/// the attributes conflict.
pub open spec fn enter_stop(s: State, attributes: Seq<Attribute>, function: Seq<u8>) -> State {
    match first_conflict(attributes, attributes.len()) {
        Some(_) => s,
        None => switch_stop(s, target_mode(s.mode, attributes), function),
    }
}

/// The state in which a test with its branch stops: the state before it,
/// where the test cannot be encoded or finds no room, and else the state
/// behind the test.
pub open spec fn conditional_stop(s: State, c: ConditionalView, function: Seq<u8>) -> State {
    match test_of(s.mode, c, function) {
        Err(_) => s,
        Ok((test, _)) => match emit(s, Ok(test), function) {
            Ok(s1) => s1,
            Err(_) => s,
        },
    }
}

/// The state in which a call stops: the state before it, where the name is
/// no function; in the mode of the callee, where the call instruction
/// itself finds no room or the callee is an `EXTERN` function.
pub open spec fn call_stop(s: State, target: Seq<u8>, function: Seq<u8>) -> State {
    if s.names.contains_key(target) && s.names[target] is Function {
        let address = s.names[target]->Function_0;
        let attributes = s.names[target]->Function_1;
        match enter_block(s, attributes, function) {
            Err(_) => enter_stop(s, attributes, function),
            Ok(s1) => match jump_to_subroutine(s1, target, address, attributes, function) {
                Err(_) => s1,
                Ok(s2) => switch_stop(s2, s.mode, function),
            },
        }
    } else {
        s
    }
}

/// The state in which an instruction stops. An instruction that is no
/// block, no `IF`, no loop and no call stops in the state before it.
pub open spec fn instruction_stop(s: State, i: InstructionView, function: Seq<u8>) -> State
    decreases i, 0nat,
{
    match i {
        InstructionView::Block(b) => scope_stop(s, b, function),
        InstructionView::Call(target) => call_stop(s, target, function),
        InstructionView::If(b, c) => if_stop(s, b, c, function),
        InstructionView::Loop(b, c) => loop_stop(s, b, c, function),
        _ => s,
    }
}

/// The state in which an `IF` stops: behind its block, where the block is
/// too long.
pub open spec fn if_stop(s: State, b: BlockView, c: ConditionalView, function: Seq<u8>) -> State
    decreases b, 1nat,
{
    match conditional(s, c, None, true, function) {
        Err(_) => conditional_stop(s, c, function),
        Ok(s1) => match scope(s1, b, function) {
            Err(_) => scope_stop(s1, b, function),
            Ok(s2) => s2,
        },
    }
}

/// The state in which a `DO` stops.
pub open spec fn loop_stop(
    s: State,
    b: BlockView,
    c: Option<ConditionalView>,
    function: Seq<u8>,
) -> State
    decreases b, 1nat,
{
    match enter_block(s, b.attributes, function) {
        Err(_) => enter_stop(s, b.attributes, function),
        Ok(s1) => match instructions(s1, b.instructions, b.instructions.len(), function) {
            Err(_) => instructions_stop(s1, b.instructions, b.instructions.len(), function),
            Ok(s2) => {
                let start = s1.code.len() as usize;
                let end = match c {
                    Some(c) => conditional(s2, c, Some(start), false, function),
                    None => repeat(s2, start, function),
                };
                match end {
                    Err(_) => match c {
                        Some(c) => conditional_stop(s2, c, function),
                        None => s2,
                    },
                    Ok(s3) => switch_stop(s3, s.mode, function),
                }
            },
        },
    }
}

/// The state in which a block stops.
pub open spec fn scope_stop(s: State, b: BlockView, function: Seq<u8>) -> State
    decreases b, 0nat,
{
    match enter_block(s, b.attributes, function) {
        Err(_) => enter_stop(s, b.attributes, function),
        Ok(s1) => match instructions(s1, b.instructions, b.instructions.len(), function) {
            Err(_) => instructions_stop(s1, b.instructions, b.instructions.len(), function),
            Ok(s2) => switch_stop(s2, s.mode, function),
        },
    }
}

/// The state in which the first `n` instructions of a list stop: that in
/// which the first of them that fails stops.
pub open spec fn instructions_stop(
    s: State,
    list: Seq<InstructionView>,
    n: nat,
    function: Seq<u8>,
) -> State
    decreases list, n,
{
    if n == 0 || n > list.len() {
        s
    } else {
        match instructions(s, list, (n - 1) as nat, function) {
            Err(_) => instructions_stop(s, list, (n - 1) as nat, function),
            Ok(s1) => instruction_stop(s1, list[n - 1], function),
        }
    }
}

/// The state in which a function stops. A function whose attributes
/// conflict has its address all the same.
pub open spec fn function_stop(s: State, f: FunctionView) -> State {
    match open_function(s, f) {
        Err(_) => addressed_as(
            s,
            f.name,
            (s.code.len() + BANK_START) as usize,
            f.body.attributes,
        ),
        Ok(s1) => match instructions(s1, f.body.instructions, f.body.instructions.len(), f.name) {
            Err(_) => instructions_stop(
                s1,
                f.body.instructions,
                f.body.instructions.len(),
                f.name,
            ),
            Ok(s2) => s2,
        },
    }
}

/// Once an instruction of a list has failed, the list stops where it did,
/// however many more of its instructions are taken.
pub proof fn lemma_stop_stays(
    s: State,
    list: Seq<InstructionView>,
    n: nat,
    m: nat,
    function: Seq<u8>,
)
    requires
        n <= m <= list.len(),
        instructions(s, list, n, function) is Err,
    ensures
        instructions(s, list, m, function) is Err,
        instructions_stop(s, list, m, function) == instructions_stop(s, list, n, function),
    decreases m,
{
    if m > n {
        lemma_stop_stays(s, list, n, (m - 1) as nat, function);
    }
}

} // verus!
