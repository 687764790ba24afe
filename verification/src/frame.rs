//! What code generation leaves as it was.
//!
//! Instructions only add to the code and to the relocations, never change
//! the name table, and leave the mode as they found it.

use vstd::prelude::*;
use crate::ast::{Attribute, BlockView, ConditionalView, InstructionView};
use crate::model::{
    apart, call, close_if, conditional, do_loop, emit, emulation_shim, enter_block, far, if_block,
    in_code, index_shim, instruction, instructions, jump_to_subroutine, math_shim, repeat, scope,
    switch_mode, target_mode, well_formed, width_shim, ErrorView, HaltView, Mode, NameView,
    RelocationView, State,
};

verus! {

/// Whether a relocation of `t` names a call that was emitted after `s`, of a
/// function that had no address in `s`.
pub open spec fn added_since(s: State, r: RelocationView) -> bool {
    match r {
        RelocationView::Function(target, offset) => {
            &&& s.code.len() < offset
            &&& s.names.contains_key(target)
            &&& s.names[target] matches NameView::Function(None, _)
        },
        RelocationView::Break(_) => false,
    }
}

/// Whether the state `t` holds all of the state `s` but its mode: the same
/// names, the code of `s` and perhaps more after it, the relocations of `s`
/// and perhaps more after them, each for a call that follows the code of
/// `s`.
pub open spec fn extends(s: State, t: State) -> bool {
    &&& t.names == s.names
    &&& s.code.len() <= t.code.len()
    &&& forall|i: int| 0 <= i < s.code.len() ==> #[trigger] t.code[i] == s.code[i]
    &&& s.relocations.len() <= t.relocations.len()
    &&& forall|i: int|
        0 <= i < s.relocations.len() ==> #[trigger] t.relocations[i] == s.relocations[i]
    &&& forall|i: int|
        s.relocations.len() <= i < t.relocations.len() ==> added_since(
            s,
            #[trigger] t.relocations[i],
        )
    &&& well_formed(s) ==> well_formed(t)
}

/// A state that extends one that extends `s` extends `s`.
pub proof fn lemma_extends_twice(s: State, t: State, u: State)
    requires
        extends(s, t),
        extends(t, u),
    ensures
        extends(s, u),
{
    assert forall|i: int| s.relocations.len() <= i < u.relocations.len() implies added_since(
        s,
        #[trigger] u.relocations[i],
    ) by {
        if i < t.relocations.len() {
            assert(u.relocations[i] == t.relocations[i]);
            assert(added_since(s, t.relocations[i]));
        } else {
            assert(added_since(t, u.relocations[i]));
        }
    }
}

/// A switch of mode extends the state and ends in the mode asked for.
pub proof fn lemma_switch_extends(s: State, to: Mode, function: Seq<u8>)
    ensures
        switch_mode(s, to, function) matches Ok(t) ==> extends(s, t) && t.mode == to,
{
    let s0 = State { mode: to, ..s };
    assert(extends(s, s0));
    if let Ok(s1) = emulation_shim(s0, s.mode.emulation, function) {
        assert(extends(s0, s1) && s1.mode == to);
        lemma_extends_twice(s, s0, s1);
        if let Ok(t) = width_shim(s1, s.mode.wide_math, s.mode.wide_index, function) {
            lemma_width_extends(s1, s.mode.wide_math, s.mode.wide_index, function);
            lemma_extends_twice(s, s1, t);
        }
    }
}

/// The instructions that set the widths extend the state and keep the mode.
pub proof fn lemma_width_extends(s: State, math: bool, index: bool, function: Seq<u8>)
    ensures
        width_shim(s, math, index, function) matches Ok(t) ==> extends(s, t) && t.mode == s.mode,
{
    if let Ok(s1) = math_shim(s, math, function) {
        assert(extends(s, s1));
        if let Ok(t) = index_shim(s1, index, function) {
            assert(extends(s1, t));
            lemma_extends_twice(s, s1, t);
        }
    }
}

/// Entering a block extends the state and ends in the mode of the block.
pub proof fn lemma_enter_extends(s: State, attributes: Seq<Attribute>, function: Seq<u8>)
    ensures
        enter_block(s, attributes, function) matches Ok(t) ==> extends(s, t) && t.mode
            == target_mode(s.mode, attributes),
{
    lemma_switch_extends(s, target_mode(s.mode, attributes), function);
}

/// A test with its branch extends the state by two bytes or more and keeps
/// the mode.
pub proof fn lemma_conditional_extends(
    s: State,
    c: ConditionalView,
    target: Option<usize>,
    invert: bool,
    function: Seq<u8>,
)
    ensures
        conditional(s, c, target, invert, function) matches Ok(t) ==> extends(s, t) && t.mode
            == s.mode && s.code.len() + 2 <= t.code.len(),
{
    if let Ok(t) = conditional(s, c, target, invert, function) {
        let test = crate::model::test_of(s.mode, c, function)->Ok_0.0;
        let s1 = emit(s, Ok(test), function)->Ok_0;
        assert(extends(s, s1));
        assert(extends(s1, t));
        lemma_extends_twice(s, s1, t);
    }
}

/// The end of a loop without a condition extends the state and keeps the
/// mode.
pub proof fn lemma_repeat_extends(s: State, start: usize, function: Seq<u8>)
    ensures
        repeat(s, start, function) matches Ok(t) ==> extends(s, t) && t.mode == s.mode,
{
}

/// The call instruction itself extends the state and keeps the mode.
pub proof fn lemma_jump_extends(
    s: State,
    target: Seq<u8>,
    address: Option<usize>,
    attributes: Seq<Attribute>,
    function: Seq<u8>,
)
    requires
        s.names.contains_key(target),
        s.names[target] == NameView::Function(address, attributes),
    ensures
        jump_to_subroutine(s, target, address, attributes, function) matches Ok(t) ==> extends(s, t)
            && t.mode == s.mode,
{
    if let Ok(t) = jump_to_subroutine(s, target, address, attributes, function) {
        if address is None && well_formed(s) {
            let site = RelocationView::Function(target, (s.code.len() + 1) as usize);
            assert(t.relocations == s.relocations.push(site));
            lemma_push_apart(s.relocations, site, s.code.len());
        }
    }
}

/// A relocation behind the code that the relocations of a list lie in
/// overlaps with none of them.
pub proof fn lemma_push_apart(relocations: Seq<RelocationView>, site: RelocationView, len: nat)
    requires
        apart(relocations),
        forall|i: int| 0 <= i < relocations.len() ==> in_code(#[trigger] relocations[i], len),
        site matches RelocationView::Function(_, offset) && offset > len,
    ensures
        apart(relocations.push(site)),
{
    let longer = relocations.push(site);
    assert forall|one: RelocationView, other: RelocationView|
        #![trigger longer.contains(one), longer.contains(other)]
        longer.contains(one) && longer.contains(other) && one != other implies far(
        one,
        other,
    ) by {
        let i = choose|i: int| 0 <= i < longer.len() && longer[i] == one;
        let j = choose|j: int| 0 <= j < longer.len() && longer[j] == other;
        if i < relocations.len() {
            assert(relocations[i] == one);
            assert(relocations.contains(one));
            assert(in_code(relocations[i], len));
        } else {
            assert(one == site);
        }
        if j < relocations.len() {
            assert(relocations[j] == other);
            assert(relocations.contains(other));
            assert(in_code(relocations[j], len));
        } else {
            assert(other == site);
        }
    }
}

/// A call extends the state and keeps the mode.
pub proof fn lemma_call_extends(s: State, target: Seq<u8>, function: Seq<u8>)
    ensures
        call(s, target, function) matches Ok(t) ==> extends(s, t) && t.mode == s.mode,
{
    if let Ok(t) = call(s, target, function) {
        let address = s.names[target]->Function_0;
        let attributes = s.names[target]->Function_1;
        let s1 = enter_block(s, attributes, function)->Ok_0;
        let s2 = jump_to_subroutine(s1, target, address, attributes, function)->Ok_0;
        lemma_enter_extends(s, attributes, function);
        lemma_jump_extends(s1, target, address, attributes, function);
        lemma_extends_twice(s, s1, s2);
        lemma_switch_extends(s2, s.mode, function);
        lemma_extends_twice(s, s2, t);
    }
}

/// An instruction extends the state and keeps the mode.
pub proof fn lemma_instruction_extends(s: State, i: InstructionView, function: Seq<u8>)
    ensures
        instruction(s, i, function) matches Ok(t) ==> extends(s, t) && t.mode == s.mode,
    decreases i, 0nat,
{
    match i {
        InstructionView::Assign(l, r) => {},
        InstructionView::AndAssign(l, r) => {},
        InstructionView::OrAssign(l, r) => {},
        InstructionView::Block(b) => lemma_scope_extends(s, b, function),
        InstructionView::Call(target) => lemma_call_extends(s, target, function),
        InstructionView::If(b, c) => lemma_if_extends(s, b, c, function),
        InstructionView::Loop(b, c) => lemma_loop_extends(s, b, c, function),
        InstructionView::Push(o) => {},
        InstructionView::Pop(o) => {},
        InstructionView::Cli => {},
        InstructionView::Sei => {},
    }
}

/// A block extends the state and keeps the mode.
pub proof fn lemma_scope_extends(s: State, b: BlockView, function: Seq<u8>)
    ensures
        scope(s, b, function) matches Ok(t) ==> extends(s, t) && t.mode == s.mode,
    decreases b, 0nat,
{
    if let Ok(t) = scope(s, b, function) {
        let s1 = enter_block(s, b.attributes, function)->Ok_0;
        let s2 = instructions(s1, b.instructions, b.instructions.len(), function)->Ok_0;
        lemma_enter_extends(s, b.attributes, function);
        lemma_instructions_extend(s1, b.instructions, b.instructions.len(), function);
        lemma_extends_twice(s, s1, s2);
        lemma_switch_extends(s2, s.mode, function);
        lemma_extends_twice(s, s2, t);
    }
}

/// An `IF` extends the state and keeps the mode.
pub proof fn lemma_if_extends(s: State, b: BlockView, c: ConditionalView, function: Seq<u8>)
    ensures
        if_block(s, b, c, function) matches Ok(t) ==> extends(s, t) && t.mode == s.mode,
    decreases b, 1nat,
{
    if let Ok(t) = if_block(s, b, c, function) {
        let s1 = conditional(s, c, None, true, function)->Ok_0;
        let s2 = scope(s1, b, function)->Ok_0;
        lemma_conditional_extends(s, c, None, true, function);
        lemma_scope_extends(s1, b, function);
        lemma_extends_twice(s, s1, s2);
        lemma_close_if_extends(s, s2, s1.code.len() as usize, function);
    }
}

/// The length of an `IF` block, written behind the code of `s`, leaves that
/// code as it was.
pub proof fn lemma_close_if_extends(s: State, s2: State, start: usize, function: Seq<u8>)
    requires
        extends(s, s2),
        s.code.len() < start <= s2.code.len(),
    ensures
        close_if(s2, start, function) matches Ok(t) ==> extends(s, t) && t.mode == s2.mode,
{
    if let Ok(t) = close_if(s2, start, function) {
        assert(t.relocations == s2.relocations);
        assert(t.names == s2.names);
        assert(t.code.len() == s2.code.len());
        assert forall|i: int| 0 <= i < s.code.len() implies #[trigger] t.code[i] == s.code[i] by {
            assert(s2.code[i] == s.code[i]);
        }
        if well_formed(s) {
            assert(well_formed(s2));
            assert forall|i: int| 0 <= i < t.relocations.len() implies in_code(
                #[trigger] t.relocations[i],
                t.code.len(),
            ) by {
                assert(t.relocations[i] == s2.relocations[i]);
            }
        }
    }
}

/// A `DO` extends the state and keeps the mode.
pub proof fn lemma_loop_extends(
    s: State,
    b: BlockView,
    c: Option<ConditionalView>,
    function: Seq<u8>,
)
    ensures
        do_loop(s, b, c, function) matches Ok(t) ==> extends(s, t) && t.mode == s.mode,
    decreases b, 1nat,
{
    if let Ok(t) = do_loop(s, b, c, function) {
        let s1 = enter_block(s, b.attributes, function)->Ok_0;
        let s2 = instructions(s1, b.instructions, b.instructions.len(), function)->Ok_0;
        lemma_enter_extends(s, b.attributes, function);
        lemma_instructions_extend(s1, b.instructions, b.instructions.len(), function);
        lemma_extends_twice(s, s1, s2);
        let s3 = match c {
            Some(c) => conditional(s2, c, Some(s1.code.len() as usize), false, function)->Ok_0,
            None => repeat(s2, s1.code.len() as usize, function)->Ok_0,
        };
        match c {
            Some(c) => lemma_conditional_extends(
                s2,
                c,
                Some(s1.code.len() as usize),
                false,
                function,
            ),
            None => lemma_repeat_extends(s2, s1.code.len() as usize, function),
        }
        lemma_extends_twice(s, s2, s3);
        lemma_switch_extends(s3, s.mode, function);
        lemma_extends_twice(s, s3, t);
    }
}

/// A list of instructions extends the state and keeps the mode.
pub proof fn lemma_instructions_extend(
    s: State,
    list: Seq<InstructionView>,
    n: nat,
    function: Seq<u8>,
)
    ensures
        instructions(s, list, n, function) matches Ok(t) ==> extends(s, t) && t.mode == s.mode,
    decreases list, n,
{
    if n == 0 || n > list.len() {
    } else if let Ok(t) = instructions(s, list, n, function) {
        let s1 = instructions(s, list, (n - 1) as nat, function)->Ok_0;
        lemma_instructions_extend(s, list, (n - 1) as nat, function);
        lemma_instruction_extends(s1, list[n - 1], function);
        lemma_extends_twice(s, s1, t);
    }
}

// ---------------------------------------------------------------------------
// Why code generation stops
// ---------------------------------------------------------------------------

/// Whether `h` is among the reasons for which the emission of code stops:
/// all but the two that can only be found once every function is emitted, a
/// call without an address and a vector without an interrupt handler.
pub open spec fn stops_emission(h: HaltView) -> bool {
    match h {
        HaltView::Error(ErrorView::UnresolvedName(_)) => false,
        HaltView::Error(ErrorView::InvalidInterrupt(_)) => false,
        _ => true,
    }
}

/// Whether no function of a name table is declared `EXTERN`.
pub open spec fn no_extern(names: Map<Seq<u8>, NameView>) -> bool {
    forall|name: Seq<u8>|
        names.contains_key(name) ==> match #[trigger] names[name] {
            NameView::Function(_, attributes) => !attributes.contains(Attribute::Extern),
            NameView::Var(_) => true,
        }
}

/// Whether `h` is a reason for which the emission of code stops under the
/// given name table: where the table holds no function that is declared
/// `EXTERN`, no call of one is found.
pub open spec fn stops_under(names: Map<Seq<u8>, NameView>, h: HaltView) -> bool {
    &&& stops_emission(h)
    &&& no_extern(names) ==> h is Error
}

/// A switch of mode fails only for want of space.
pub proof fn lemma_switch_stops(s: State, to: Mode, function: Seq<u8>)
    ensures
        switch_mode(s, to, function) matches Err(h) ==> h matches HaltView::Error(
            ErrorView::NoSpace(_, _),
        ),
{
}

/// Entering a block fails only by a reason that stops emission.
pub proof fn lemma_enter_stops(s: State, attributes: Seq<Attribute>, function: Seq<u8>)
    ensures
        enter_block(s, attributes, function) matches Err(h) ==> stops_under(s.names, h),
{
    lemma_switch_stops(s, target_mode(s.mode, attributes), function);
}

/// A test with its branch fails only by a reason that stops emission.
pub proof fn lemma_conditional_stops(
    s: State,
    c: ConditionalView,
    target: Option<usize>,
    invert: bool,
    function: Seq<u8>,
)
    ensures
        conditional(s, c, target, invert, function) matches Err(h) ==> stops_under(s.names, h),
{
}

/// A call fails only by a reason that stops emission.
pub proof fn lemma_call_stops(s: State, target: Seq<u8>, function: Seq<u8>)
    ensures
        call(s, target, function) matches Err(h) ==> stops_under(s.names, h),
{
    if s.names.contains_key(target) && s.names[target] is Function {
        let address = s.names[target]->Function_0;
        let attributes = s.names[target]->Function_1;
        lemma_enter_stops(s, attributes, function);
        if let Ok(s1) = enter_block(s, attributes, function) {
            if let Ok(s2) = jump_to_subroutine(s1, target, address, attributes, function) {
                lemma_switch_stops(s2, s.mode, function);
            }
        }
    }
}

/// An instruction fails only by a reason that stops emission.
pub proof fn lemma_instruction_stops(s: State, i: InstructionView, function: Seq<u8>)
    ensures
        instruction(s, i, function) matches Err(h) ==> stops_under(s.names, h),
    decreases i, 0nat,
{
    match i {
        InstructionView::Assign(l, r) => {},
        InstructionView::AndAssign(l, r) => {},
        InstructionView::OrAssign(l, r) => {},
        InstructionView::Block(b) => lemma_scope_stops(s, b, function),
        InstructionView::Call(target) => lemma_call_stops(s, target, function),
        InstructionView::If(b, c) => {
            lemma_conditional_stops(s, c, None, true, function);
            lemma_conditional_extends(s, c, None, true, function);
            if let Ok(s1) = conditional(s, c, None, true, function) {
                lemma_scope_stops(s1, b, function);
            }
        },
        InstructionView::Loop(b, c) => {
            lemma_enter_stops(s, b.attributes, function);
            lemma_enter_extends(s, b.attributes, function);
            if let Ok(s1) = enter_block(s, b.attributes, function) {
                let n = b.instructions.len();
                lemma_instructions_stop(s1, b.instructions, n, function);
                lemma_instructions_extend(s1, b.instructions, n, function);
                if let Ok(s2) = instructions(s1, b.instructions, n, function) {
                    let start = s1.code.len() as usize;
                    let end = match c {
                        Some(c) => {
                            lemma_conditional_stops(s2, c, Some(start), false, function);
                            conditional(s2, c, Some(start), false, function)
                        },
                        None => repeat(s2, start, function),
                    };
                    if let Ok(s3) = end {
                        lemma_switch_stops(s3, s.mode, function);
                    }
                }
            }
        },
        InstructionView::Push(o) => {},
        InstructionView::Pop(o) => {},
        InstructionView::Cli => {},
        InstructionView::Sei => {},
    }
}

/// A block fails only by a reason that stops emission.
pub proof fn lemma_scope_stops(s: State, b: BlockView, function: Seq<u8>)
    ensures
        scope(s, b, function) matches Err(h) ==> stops_under(s.names, h),
    decreases b, 0nat,
{
    lemma_enter_stops(s, b.attributes, function);
    lemma_enter_extends(s, b.attributes, function);
    if let Ok(s1) = enter_block(s, b.attributes, function) {
        lemma_instructions_stop(s1, b.instructions, b.instructions.len(), function);
        if let Ok(s2) = instructions(s1, b.instructions, b.instructions.len(), function) {
            lemma_switch_stops(s2, s.mode, function);
        }
    }
}

/// A list of instructions fails only by a reason that stops emission.
pub proof fn lemma_instructions_stop(
    s: State,
    list: Seq<InstructionView>,
    n: nat,
    function: Seq<u8>,
)
    ensures
        instructions(s, list, n, function) matches Err(h) ==> stops_under(s.names, h),
    decreases list, n,
{
    if n == 0 || n > list.len() {
    } else {
        lemma_instructions_stop(s, list, (n - 1) as nat, function);
        lemma_instructions_extend(s, list, (n - 1) as nat, function);
        if let Ok(s1) = instructions(s, list, (n - 1) as nat, function) {
            lemma_instruction_stops(s1, list[n - 1], function);
        }
    }
}

} // verus!
