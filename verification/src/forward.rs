//! Calls before their callee.
//!
//! A call of a function that has no address yet is emitted with a
//! relocation, and gets the address when the function is emitted. It makes
//! no difference to the code whether a function gets its address before an
//! instruction is emitted or after it: the two orders lead to the same
//! state. The same holds of whole functions, and of all the definitions that
//! stand before a function in a program.

use vstd::prelude::*;
use crate::ast::{
    Attribute, BlockView, ConditionalView, DefinitionView, FunctionView, InstructionView,
    ProgramView,
};
use crate::frame::{
    added_since, lemma_call_extends, lemma_conditional_extends, lemma_enter_extends,
    lemma_instructions_extend, lemma_push_apart, lemma_scope_extends, lemma_switch_extends,
};
use crate::image::{
    addressed_as, function, functions, holds_address, initial_state, open_function, patch,
    resolved_code, return_opcode, unresolved, waits_for,
};
use crate::model::{
    apart, assignment, backward_offset, bare, branch_opcode, call, close_if, combination,
    conditional, do_loop, emit, emulation_shim, enter_block, far, high_byte, if_block, in_code,
    instruction, instructions, jump_to_subroutine, low_byte, math_shim, push_code, repeat, scope,
    stack, switch_mode, target_mode, test_of, well_formed, width_shim, Encoding, ErrorView,
    HaltView, Mode, NameView, RelocationView, State, Step, BANK_START,
};
use crate::program::{lemma_registered_without_address, lemma_unresolved};
use crate::steps::lemma_unresolved_none;

verus! {

/// The state `s` once the function `g` has the address `address`.
pub open spec fn addressed(s: State, g: Seq<u8>, address: usize) -> State {
    addressed_as(s, g, address, s.names[g]->Function_1)
}

/// The outcome `step` once the function `g` has the address `address`.
pub open spec fn addressed_step(step: Step, g: Seq<u8>, address: usize) -> Step {
    match step {
        Ok(t) => Ok(addressed(t, g, address)),
        Err(h) => Err(h),
    }
}

/// Whether `g` is a function of the well-formed state `s` that has no
/// address yet.
pub open spec fn awaited(s: State, g: Seq<u8>) -> bool {
    &&& well_formed(s)
    &&& s.names.contains_key(g)
    &&& s.names[g] matches NameView::Function(None, _)
}

// ---------------------------------------------------------------------------
// Resolving relocations
// ---------------------------------------------------------------------------

/// Whether the first `n` relocations name bytes of a code of `len` bytes.
pub open spec fn all_in_code(relocations: Seq<RelocationView>, n: nat, len: nat) -> bool {
    forall|j: int| 0 <= j < n ==> in_code(#[trigger] relocations[j], len)
}

/// Resolving relocations keeps the length of the code.
pub proof fn lemma_resolved_len(
    code: Seq<u8>,
    relocations: Seq<RelocationView>,
    n: nat,
    g: Seq<u8>,
    address: int,
)
    requires
        n <= relocations.len(),
        all_in_code(relocations, n, code.len()),
    ensures
        resolved_code(code, relocations, n, g, address).len() == code.len(),
    decreases n,
{
    if n > 0 {
        lemma_resolved_len(code, relocations, (n - 1) as nat, g, address);
        assert(in_code(relocations[n - 1], code.len()));
    }
}

/// What the first `n` relocations do to the code does not depend on the
/// relocations behind them.
pub proof fn lemma_resolved_prefix(
    code: Seq<u8>,
    one: Seq<RelocationView>,
    other: Seq<RelocationView>,
    n: nat,
    g: Seq<u8>,
    address: int,
)
    requires
        n <= one.len(),
        n <= other.len(),
        forall|j: int| 0 <= j < n ==> one[j] == other[j],
    ensures
        resolved_code(code, one, n, g, address) == resolved_code(code, other, n, g, address),
    decreases n,
{
    if n > 0 {
        lemma_resolved_prefix(code, one, other, (n - 1) as nat, g, address);
    }
}

/// Resolving relocations leaves alone what is appended to the code that the
/// relocations lie in.
pub proof fn lemma_resolved_append(
    code: Seq<u8>,
    more: Seq<u8>,
    relocations: Seq<RelocationView>,
    n: nat,
    g: Seq<u8>,
    address: int,
)
    requires
        n <= relocations.len(),
        all_in_code(relocations, n, code.len()),
    ensures
        resolved_code(code + more, relocations, n, g, address) == resolved_code(
            code,
            relocations,
            n,
            g,
            address,
        ) + more,
    decreases n,
{
    if n > 0 {
        lemma_resolved_append(code, more, relocations, (n - 1) as nat, g, address);
        lemma_resolved_len(code, relocations, (n - 1) as nat, g, address);
        let before = resolved_code(code, relocations, (n - 1) as nat, g, address);
        assert(in_code(relocations[n - 1], code.len()));
        if let RelocationView::Function(target, offset) = relocations[n - 1] {
            assert(patch(before + more, offset as int, address) =~= patch(
                before,
                offset as int,
                address,
            ) + more);
        }
    }
}

/// Resolving relocations leaves alone a byte that none of them names: it
/// makes no difference whether the byte is written before or after.
pub proof fn lemma_resolved_update(
    code: Seq<u8>,
    at: int,
    value: u8,
    relocations: Seq<RelocationView>,
    n: nat,
    g: Seq<u8>,
    address: int,
)
    requires
        n <= relocations.len(),
        all_in_code(relocations, n, code.len()),
        0 <= at < code.len(),
        forall|j: int|
            0 <= j < n ==> (#[trigger] relocations[j] matches RelocationView::Function(_, offset)
                && offset != at && offset + 1 != at),
    ensures
        resolved_code(code.update(at, value), relocations, n, g, address) == resolved_code(
            code,
            relocations,
            n,
            g,
            address,
        ).update(at, value),
    decreases n,
{
    if n > 0 {
        lemma_resolved_update(code, at, value, relocations, (n - 1) as nat, g, address);
        lemma_resolved_len(code, relocations, (n - 1) as nat, g, address);
        let before = resolved_code(code, relocations, (n - 1) as nat, g, address);
        assert(in_code(relocations[n - 1], code.len()));
        if let RelocationView::Function(target, offset) = relocations[n - 1] {
            assert(patch(before.update(at, value), offset as int, address) =~= patch(
                before,
                offset as int,
                address,
            ).update(at, value));
        }
    }
}

/// What one more relocation does to the code.
pub proof fn lemma_resolved_push(
    code: Seq<u8>,
    relocations: Seq<RelocationView>,
    r: RelocationView,
    g: Seq<u8>,
    address: int,
)
    ensures
        resolved_code(code, relocations.push(r), relocations.len() + 1, g, address) == {
            let before = resolved_code(code, relocations, relocations.len(), g, address);
            match r {
                RelocationView::Function(target, offset) => if target == g {
                    patch(before, offset as int, address)
                } else {
                    before
                },
                RelocationView::Break(_) => before,
            }
        },
{
    lemma_resolved_prefix(
        code,
        relocations.push(r),
        relocations,
        relocations.len(),
        g,
        address,
    );
}

/// Whether one more relocation is left once `g` has an address.
pub proof fn lemma_unresolved_push(relocations: Seq<RelocationView>, r: RelocationView, g: Seq<u8>)
    ensures
        unresolved(relocations.push(r), g) == if waits_for(r, g) {
            unresolved(relocations, g)
        } else {
            unresolved(relocations, g).push(r)
        },
{
    reveal(Seq::filter);
    assert(relocations.push(r).drop_last() =~= relocations);
}

// ---------------------------------------------------------------------------
// Steps without a call
// ---------------------------------------------------------------------------

/// Giving `g` its address keeps the length of the code.
pub proof fn lemma_addressed_len(s: State, g: Seq<u8>, address: usize)
    requires
        well_formed(s),
    ensures
        addressed(s, g, address).code.len() == s.code.len(),
{
    lemma_resolved_len(s.code, s.relocations, s.relocations.len(), g, address as int);
}

/// It makes no difference whether `g` gets its address before code is
/// appended or after.
pub proof fn lemma_push_commutes(
    s: State,
    g: Seq<u8>,
    address: usize,
    operation: &str,
    function: Seq<u8>,
    bytes: Seq<u8>,
)
    requires
        awaited(s, g),
    ensures
        push_code(addressed(s, g, address), operation, function, bytes) == addressed_step(
            push_code(s, operation, function, bytes),
            g,
            address,
        ),
        push_code(s, operation, function, bytes) matches Ok(t) ==> awaited(t, g),
{
    lemma_addressed_len(s, g, address);
    lemma_resolved_append(
        s.code,
        bytes,
        s.relocations,
        s.relocations.len(),
        g,
        address as int,
    );
}

/// The same for an encoded instruction.
pub proof fn lemma_emit_commutes(
    s: State,
    g: Seq<u8>,
    address: usize,
    encoded: Result<Encoding, ErrorView>,
    function: Seq<u8>,
)
    requires
        awaited(s, g),
    ensures
        emit(addressed(s, g, address), encoded, function) == addressed_step(
            emit(s, encoded, function),
            g,
            address,
        ),
        emit(s, encoded, function) matches Ok(t) ==> awaited(t, g),
{
    lemma_addressed_len(s, g, address);
    if let Ok(e) = encoded {
        lemma_resolved_append(
            s.code,
            e.bytes,
            s.relocations,
            s.relocations.len(),
            g,
            address as int,
        );
    }
}

/// The same for a switch of mode.
pub proof fn lemma_switch_commutes(
    s: State,
    g: Seq<u8>,
    address: usize,
    to: Mode,
    function: Seq<u8>,
)
    requires
        awaited(s, g),
    ensures
        switch_mode(addressed(s, g, address), to, function) == addressed_step(
            switch_mode(s, to, function),
            g,
            address,
        ),
        switch_mode(s, to, function) matches Ok(t) ==> awaited(t, g),
{
    let s0 = State { mode: to, ..s };
    assert(addressed(s0, g, address) == State { mode: to, ..addressed(s, g, address) });
    lemma_shim_commutes(s0, g, address, s.mode, function);
    lemma_switch_extends(s, to, function);
}

/// The same for the instructions that take the processor from the mode
/// `from` to the mode of the state.
proof fn lemma_shim_commutes(s: State, g: Seq<u8>, address: usize, from: Mode, function: Seq<u8>)
    requires
        awaited(s, g),
    ensures
        ({
            let a = addressed(s, g, address);
            match emulation_shim(s, from.emulation, function) {
                Ok(s1) => {
                    &&& emulation_shim(a, from.emulation, function) == Ok::<State, HaltView>(
                        addressed(s1, g, address),
                    )
                    &&& width_shim(
                        addressed(s1, g, address),
                        from.wide_math,
                        from.wide_index,
                        function,
                    ) == addressed_step(
                        width_shim(s1, from.wide_math, from.wide_index, function),
                        g,
                        address,
                    )
                },
                Err(h) => emulation_shim(a, from.emulation, function) == Err::<State, HaltView>(h),
            }
        }),
{
    lemma_push_commutes(s, g, address, "Enable Emulation", function, seq![0x38u8, 0xFBu8]);
    lemma_push_commutes(s, g, address, "Disable Emulation", function, seq![0x18u8, 0xFBu8]);
    if let Ok(s1) = emulation_shim(s, from.emulation, function) {
        lemma_push_commutes(
            s1,
            g,
            address,
            "Enable Wide Math + Index",
            function,
            seq![0xC2u8, 0x30u8],
        );
        lemma_push_commutes(
            s1,
            g,
            address,
            "Disable wide math + index",
            function,
            seq![0xE2u8, 0x30u8],
        );
        lemma_push_commutes(s1, g, address, "Enable Wide Math", function, seq![0xC2u8, 0x20u8]);
        lemma_push_commutes(s1, g, address, "Disable Wide Math", function, seq![0xE2u8, 0x20u8]);
        if let Ok(s2) = math_shim(s1, from.wide_math, function) {
            lemma_push_commutes(
                s2,
                g,
                address,
                "Enable Wide Index",
                function,
                seq![0xC2u8, 0x10u8],
            );
            lemma_push_commutes(
                s2,
                g,
                address,
                "Disable Wide Index",
                function,
                seq![0xE2u8, 0x10u8],
            );
        }
    }
}

/// The same for entering a block.
pub proof fn lemma_enter_commutes(
    s: State,
    g: Seq<u8>,
    address: usize,
    attributes: Seq<Attribute>,
    function: Seq<u8>,
)
    requires
        awaited(s, g),
    ensures
        enter_block(addressed(s, g, address), attributes, function) == addressed_step(
            enter_block(s, attributes, function),
            g,
            address,
        ),
        enter_block(s, attributes, function) matches Ok(t) ==> awaited(t, g),
{
    lemma_switch_commutes(s, g, address, target_mode(s.mode, attributes), function);
}

/// The same for a test with its branch.
pub proof fn lemma_conditional_commutes(
    s: State,
    g: Seq<u8>,
    address: usize,
    c: ConditionalView,
    target: Option<usize>,
    invert: bool,
    function: Seq<u8>,
)
    requires
        awaited(s, g),
    ensures
        conditional(addressed(s, g, address), c, target, invert, function) == addressed_step(
            conditional(s, c, target, invert, function),
            g,
            address,
        ),
        conditional(s, c, target, invert, function) matches Ok(t) ==> awaited(t, g),
{
    lemma_conditional_extends(s, c, target, invert, function);
    if let Ok((test, zero)) = test_of(s.mode, c, function) {
        lemma_emit_commutes(s, g, address, Ok(test), function);
        if let Ok(s1) = emit(s, Ok(test), function) {
            lemma_addressed_len(s1, g, address);
            let length = match target {
                Some(t) => s1.code.len() - t,
                None => 0,
            };
            lemma_push_commutes(
                s1,
                g,
                address,
                "Loop CC",
                function,
                seq![branch_opcode(invert != zero), backward_offset(length)],
            );
        }
    }
}

/// The same for the end of a loop without a condition.
pub proof fn lemma_repeat_commutes(
    s: State,
    g: Seq<u8>,
    address: usize,
    start: usize,
    function: Seq<u8>,
)
    requires
        awaited(s, g),
    ensures
        repeat(addressed(s, g, address), start, function) == addressed_step(
            repeat(s, start, function),
            g,
            address,
        ),
        repeat(s, start, function) matches Ok(t) ==> awaited(t, g),
{
    lemma_addressed_len(s, g, address);
    let length = s.code.len() - start;
    lemma_push_commutes(s, g, address, "Loop", function, seq![0x80u8, backward_offset(length)]);
    lemma_push_commutes(
        s,
        g,
        address,
        "Loop",
        function,
        seq![0x4Cu8, low_byte(start + BANK_START), high_byte(start + BANK_START)],
    );
}

// ---------------------------------------------------------------------------
// Calls
// ---------------------------------------------------------------------------

/// The call instruction itself: a call of `g` that is emitted with a
/// relocation holds, once `g` has its address, what a call of `g` holds
/// that is emitted with the address; a call of another function is the same
/// before and after.
pub proof fn lemma_jump_commutes(
    s: State,
    g: Seq<u8>,
    address: usize,
    target: Seq<u8>,
    function: Seq<u8>,
)
    requires
        awaited(s, g),
        s.names.contains_key(target),
        s.names[target] is Function,
    ensures
        ({
            let a = addressed(s, g, address);
            jump_to_subroutine(
                a,
                target,
                a.names[target]->Function_0,
                a.names[target]->Function_1,
                function,
            ) == addressed_step(
                jump_to_subroutine(
                    s,
                    target,
                    s.names[target]->Function_0,
                    s.names[target]->Function_1,
                    function,
                ),
                g,
                address,
            )
        }),
        jump_to_subroutine(
            s,
            target,
            s.names[target]->Function_0,
            s.names[target]->Function_1,
            function,
        ) matches Ok(t) ==> awaited(t, g),
{
    let a = addressed(s, g, address);
    let known = s.names[target]->Function_0;
    let attributes = s.names[target]->Function_1;
    lemma_addressed_len(s, g, address);
    if !attributes.contains(Attribute::Extern) {
        match known {
            Some(there) => {
                lemma_push_commutes(
                    s,
                    g,
                    address,
                    "Call",
                    function,
                    seq![0x20u8, low_byte(there as int), high_byte(there as int)],
                );
            },
            None => {
                let site = RelocationView::Function(target, (s.code.len() + 1) as usize);
                let s1 = State { relocations: s.relocations.push(site), ..s };
                let call = seq![0x20u8, low_byte(0), high_byte(0)];
                if let Ok(t) = push_code(s1, "Call", function, call) {
                    lemma_unresolved_push(s.relocations, site, g);
                    lemma_resolved_push(s.code + call, s.relocations, site, g, address as int);
                    lemma_resolved_append(
                        s.code,
                        call,
                        s.relocations,
                        s.relocations.len(),
                        g,
                        address as int,
                    );
                    lemma_resolved_len(
                        s.code,
                        s.relocations,
                        s.relocations.len(),
                        g,
                        address as int,
                    );
                    let before = resolved_code(
                        s.code,
                        s.relocations,
                        s.relocations.len(),
                        g,
                        address as int,
                    );
                    if target == g {
                        let patched = patch(
                            before + call,
                            (s.code.len() + 1) as int,
                            address as int,
                        );
                        assert(patched =~= before + seq![
                            0x20u8,
                            low_byte(address as int),
                            high_byte(address as int),
                        ]);
                    }
                    assert(t.relocations == s.relocations.push(site));
                    assert(well_formed(t)) by {
                        lemma_push_apart(s.relocations, site, s.code.len());
                        assert forall|i: int| 0 <= i < t.relocations.len() implies in_code(
                            #[trigger] t.relocations[i],
                            t.code.len(),
                        ) by {
                            if i < s.relocations.len() {
                                assert(in_code(s.relocations[i], s.code.len()));
                            }
                        }
                    }
                }
            },
        }
    }
}

/// It makes no difference whether `g` gets its address before a call is
/// emitted or after, be it a call of `g` or of another function.
pub proof fn lemma_call_commutes(
    s: State,
    g: Seq<u8>,
    address: usize,
    target: Seq<u8>,
    function: Seq<u8>,
)
    requires
        awaited(s, g),
    ensures
        call(addressed(s, g, address), target, function) == addressed_step(
            call(s, target, function),
            g,
            address,
        ),
        call(s, target, function) matches Ok(t) ==> awaited(t, g),
{
    lemma_call_extends(s, target, function);
    if s.names.contains_key(target) && s.names[target] is Function {
        let attributes = s.names[target]->Function_1;
        lemma_enter_commutes(s, g, address, attributes, function);
        lemma_enter_extends(s, attributes, function);
        if let Ok(s1) = enter_block(s, attributes, function) {
            lemma_jump_commutes(s1, g, address, target, function);
            if let Ok(s2) = jump_to_subroutine(
                s1,
                target,
                s.names[target]->Function_0,
                attributes,
                function,
            ) {
                lemma_switch_commutes(s2, g, address, s.mode, function);
            }
        }
    }
}

// ---------------------------------------------------------------------------
// Instructions
// ---------------------------------------------------------------------------

/// The length of an `IF` block lies where no relocation does: it makes no
/// difference whether `g` gets its address before the length is written
/// or after.
pub proof fn lemma_close_if_commutes(
    s: State,
    g: Seq<u8>,
    address: usize,
    start: usize,
    function: Seq<u8>,
)
    requires
        awaited(s, g),
        1 <= start <= s.code.len(),
        forall|j: int|
            0 <= j < s.relocations.len() ==> (#[trigger] s.relocations[j]
                matches RelocationView::Function(_, offset) && offset != start - 1 && offset + 1
                != start - 1),
    ensures
        close_if(addressed(s, g, address), start, function) == addressed_step(
            close_if(s, start, function),
            g,
            address,
        ),
        close_if(s, start, function) matches Ok(t) ==> awaited(t, g),
{
    lemma_addressed_len(s, g, address);
    let length = s.code.len() - start;
    lemma_resolved_update(
        s.code,
        start - 1,
        length as u8,
        s.relocations,
        s.relocations.len(),
        g,
        address as int,
    );
    if let Ok(t) = close_if(s, start, function) {
        assert(well_formed(t)) by {
            assert forall|i: int| 0 <= i < t.relocations.len() implies in_code(
                #[trigger] t.relocations[i],
                t.code.len(),
            ) by {
                assert(in_code(s.relocations[i], s.code.len()));
            }
        }
    }
}

/// It makes no difference whether `g` gets its address before an
/// instruction is emitted or after.
pub proof fn lemma_instruction_commutes(
    s: State,
    g: Seq<u8>,
    address: usize,
    i: InstructionView,
    function: Seq<u8>,
)
    requires
        awaited(s, g),
    ensures
        instruction(addressed(s, g, address), i, function) == addressed_step(
            instruction(s, i, function),
            g,
            address,
        ),
        instruction(s, i, function) matches Ok(t) ==> awaited(t, g),
    decreases i, 0nat,
{
    let a = addressed(s, g, address);
    match i {
        InstructionView::Assign(l, r) => {
            assert(assignment(a.mode, a.names, l, r, function) == assignment(
                s.mode,
                s.names,
                l,
                r,
                function,
            ));
            lemma_emit_commutes(
                s,
                g,
                address,
                assignment(s.mode, s.names, l, r, function),
                function,
            );
        },
        InstructionView::AndAssign(l, r) => {
            lemma_emit_commutes(
                s,
                g,
                address,
                combination(s.mode, false, l, r, function),
                function,
            );
        },
        InstructionView::OrAssign(l, r) => {
            lemma_emit_commutes(s, g, address, combination(s.mode, true, l, r, function), function);
        },
        InstructionView::Block(b) => lemma_scope_commutes(s, g, address, b, function),
        InstructionView::Call(target) => lemma_call_commutes(s, g, address, target, function),
        InstructionView::If(b, c) => lemma_if_commutes(s, g, address, b, c, function),
        InstructionView::Loop(b, c) => lemma_loop_commutes(s, g, address, b, c, function),
        InstructionView::Push(o) => {
            lemma_emit_commutes(s, g, address, stack(s.mode, false, o, function), function);
        },
        InstructionView::Pop(o) => {
            lemma_emit_commutes(s, g, address, stack(s.mode, true, o, function), function);
        },
        InstructionView::Cli => {
            lemma_emit_commutes(s, g, address, Ok(bare("Cli", 0x58)), function);
        },
        InstructionView::Sei => {
            lemma_emit_commutes(s, g, address, Ok(bare("Sei", 0x78)), function);
        },
    }
}

/// The same for a block.
pub proof fn lemma_scope_commutes(
    s: State,
    g: Seq<u8>,
    address: usize,
    b: BlockView,
    function: Seq<u8>,
)
    requires
        awaited(s, g),
    ensures
        scope(addressed(s, g, address), b, function) == addressed_step(
            scope(s, b, function),
            g,
            address,
        ),
        scope(s, b, function) matches Ok(t) ==> awaited(t, g),
    decreases b, 0nat,
{
    lemma_enter_commutes(s, g, address, b.attributes, function);
    if let Ok(s1) = enter_block(s, b.attributes, function) {
        lemma_instructions_commute(
            s1,
            g,
            address,
            b.instructions,
            b.instructions.len(),
            function,
        );
        if let Ok(s2) = instructions(s1, b.instructions, b.instructions.len(), function) {
            lemma_switch_commutes(s2, g, address, s.mode, function);
        }
    }
}

/// The same for an `IF`.
pub proof fn lemma_if_commutes(
    s: State,
    g: Seq<u8>,
    address: usize,
    b: BlockView,
    c: ConditionalView,
    function: Seq<u8>,
)
    requires
        awaited(s, g),
    ensures
        if_block(addressed(s, g, address), b, c, function) == addressed_step(
            if_block(s, b, c, function),
            g,
            address,
        ),
        if_block(s, b, c, function) matches Ok(t) ==> awaited(t, g),
    decreases b, 1nat,
{
    lemma_conditional_commutes(s, g, address, c, None, true, function);
    lemma_conditional_extends(s, c, None, true, function);
    if let Ok(s1) = conditional(s, c, None, true, function) {
        lemma_scope_commutes(s1, g, address, b, function);
        lemma_scope_extends(s1, b, function);
        lemma_addressed_len(s1, g, address);
        if let Ok(s2) = scope(s1, b, function) {
            let start = s1.code.len() as usize;
            assert forall|j: int| 0 <= j < s2.relocations.len() implies (
            #[trigger] s2.relocations[j] matches RelocationView::Function(_, offset) && offset
                != start - 1 && offset + 1 != start - 1) by {
                if j < s.relocations.len() {
                    assert(s1.relocations[j] == s.relocations[j]);
                    assert(s2.relocations[j] == s1.relocations[j]);
                    assert(in_code(s.relocations[j], s.code.len()));
                } else if j < s1.relocations.len() {
                    assert(added_since(s, s1.relocations[j]));
                    assert(s2.relocations[j] == s1.relocations[j]);
                    assert(in_code(s1.relocations[j], s1.code.len()));
                    assert(false);
                } else {
                    assert(added_since(s1, s2.relocations[j]));
                }
            }
            lemma_close_if_commutes(s2, g, address, start, function);
        }
    }
}

/// The same for a `DO`.
pub proof fn lemma_loop_commutes(
    s: State,
    g: Seq<u8>,
    address: usize,
    b: BlockView,
    c: Option<ConditionalView>,
    function: Seq<u8>,
)
    requires
        awaited(s, g),
    ensures
        do_loop(addressed(s, g, address), b, c, function) == addressed_step(
            do_loop(s, b, c, function),
            g,
            address,
        ),
        do_loop(s, b, c, function) matches Ok(t) ==> awaited(t, g),
    decreases b, 1nat,
{
    lemma_enter_commutes(s, g, address, b.attributes, function);
    if let Ok(s1) = enter_block(s, b.attributes, function) {
        lemma_addressed_len(s1, g, address);
        lemma_instructions_commute(
            s1,
            g,
            address,
            b.instructions,
            b.instructions.len(),
            function,
        );
        if let Ok(s2) = instructions(s1, b.instructions, b.instructions.len(), function) {
            let start = s1.code.len() as usize;
            let end = match c {
                Some(c) => {
                    lemma_conditional_commutes(s2, g, address, c, Some(start), false, function);
                    conditional(s2, c, Some(start), false, function)
                },
                None => {
                    lemma_repeat_commutes(s2, g, address, start, function);
                    repeat(s2, start, function)
                },
            };
            if let Ok(s3) = end {
                lemma_switch_commutes(s3, g, address, s.mode, function);
            }
        }
    }
}

/// The same for a list of instructions.
pub proof fn lemma_instructions_commute(
    s: State,
    g: Seq<u8>,
    address: usize,
    list: Seq<InstructionView>,
    n: nat,
    function: Seq<u8>,
)
    requires
        awaited(s, g),
    ensures
        instructions(addressed(s, g, address), list, n, function) == addressed_step(
            instructions(s, list, n, function),
            g,
            address,
        ),
        instructions(s, list, n, function) matches Ok(t) ==> awaited(t, g),
    decreases list, n,
{
    if n == 0 || n > list.len() {
    } else {
        lemma_instructions_commute(s, g, address, list, (n - 1) as nat, function);
        if let Ok(s1) = instructions(s, list, (n - 1) as nat, function) {
            lemma_instruction_commutes(s1, g, address, list[n - 1], function);
        }
    }
}

// ---------------------------------------------------------------------------
// Two functions
// ---------------------------------------------------------------------------

/// Once the relocations are resolved, each call that waited for `g` holds
/// the address, where no two relocations overlap.
pub proof fn lemma_resolved_sites(
    code: Seq<u8>,
    relocations: Seq<RelocationView>,
    n: nat,
    g: Seq<u8>,
    address: int,
    j: int,
)
    requires
        n <= relocations.len(),
        all_in_code(relocations, n, code.len()),
        apart(relocations),
        0 <= j < n,
        waits_for(relocations[j], g),
    ensures
        ({
            let offset = relocations[j]->Function_1 as int;
            let resolved = resolved_code(code, relocations, n, g, address);
            &&& resolved[offset] == low_byte(address)
            &&& resolved[offset + 1] == high_byte(address)
        }),
    decreases n,
{
    lemma_resolved_len(code, relocations, (n - 1) as nat, g, address);
    assert(in_code(relocations[j], code.len()));
    assert(in_code(relocations[n - 1], code.len()));
    if j < n - 1 {
        lemma_resolved_sites(code, relocations, (n - 1) as nat, g, address, j);
        if waits_for(relocations[n - 1], g) && relocations[n - 1] != relocations[j] {
            assert(relocations.contains(relocations[n - 1]));
            assert(relocations.contains(relocations[j]));
            assert(far(relocations[n - 1], relocations[j]));
        }
    }
}

/// Once a function has its address, each call that waited for it holds the
/// address.
pub proof fn lemma_addressed_sites(
    s: State,
    g: Seq<u8>,
    address: usize,
    attributes: Seq<Attribute>,
    j: int,
)
    requires
        well_formed(s),
        0 <= j < s.relocations.len(),
        waits_for(s.relocations[j], g),
    ensures
        ({
            let offset = s.relocations[j]->Function_1 as int;
            let t = addressed_as(s, g, address, attributes);
            &&& t.code[offset] == low_byte(address as int)
            &&& t.code[offset + 1] == high_byte(address as int)
        }),
{
    lemma_resolved_sites(s.code, s.relocations, s.relocations.len(), g, address as int, j);
}

/// Once a function is emitted, each call that waited for it holds its
/// address, the address of the first byte of its body.
pub proof fn lemma_function_sites(s: State, f: FunctionView)
    requires
        well_formed(s),
        function(s, f) is Ok,
    ensures
        holds_address(
            function(s, f)->Ok_0.code,
            s.relocations,
            f.name,
            s.code.len() + BANK_START,
        ),
{
    let there = (s.code.len() + BANK_START) as usize;
    let t = function(s, f)->Ok_0;
    let s1 = open_function(s, f)->Ok_0;
    let n = f.body.instructions.len();
    let s2 = instructions(s1, f.body.instructions, n, f.name)->Ok_0;
    lemma_instructions_extend(s1, f.body.instructions, n, f.name);
    lemma_resolved_len(s.code, s.relocations, s.relocations.len(), f.name, there as int);
    assert forall|j: int| 0 <= j < s.relocations.len() implies match #[trigger] s.relocations[j] {
        RelocationView::Function(target, offset) => target == f.name ==> t.code[offset as int]
            == low_byte(s.code.len() + BANK_START) && t.code[offset + 1] == high_byte(
            s.code.len() + BANK_START,
        ),
        RelocationView::Break(_) => true,
    } by {
        assert(in_code(s.relocations[j], s.code.len()));
        if waits_for(s.relocations[j], f.name) {
            lemma_addressed_sites(s, f.name, there, f.body.attributes, j);
            let offset = s.relocations[j]->Function_1 as int;
            assert(s2.code[offset] == s1.code[offset]);
            assert(s2.code[offset + 1] == s1.code[offset + 1]);
        }
    }
}

/// The relocations that wait for `g` are the same whether or not those that
/// wait for another function `f` are still there.
pub proof fn lemma_resolved_skips(
    code: Seq<u8>,
    relocations: Seq<RelocationView>,
    f: Seq<u8>,
    g: Seq<u8>,
    address: int,
)
    requires
        f != g,
    ensures
        resolved_code(
            code,
            unresolved(relocations, f),
            unresolved(relocations, f).len(),
            g,
            address,
        ) == resolved_code(code, relocations, relocations.len(), g, address),
    decreases relocations.len(),
{
    if relocations.len() == 0 {
        lemma_unresolved_none(f);
        assert(relocations =~= Seq::empty());
    } else {
        let before = relocations.drop_last();
        let r = relocations.last();
        assert(relocations =~= before.push(r));
        lemma_resolved_skips(code, before, f, g, address);
        lemma_unresolved_push(before, r, f);
        lemma_resolved_push(code, before, r, g, address);
        if !waits_for(r, f) {
            lemma_resolved_push(code, unresolved(before, f), r, g, address);
        }
    }
}

/// It makes no difference in which order two functions get their addresses
/// to the relocations that are left.
pub proof fn lemma_unresolved_commutes(relocations: Seq<RelocationView>, f: Seq<u8>, g: Seq<u8>)
    ensures
        unresolved(unresolved(relocations, f), g) == unresolved(unresolved(relocations, g), f),
    decreases relocations.len(),
{
    if relocations.len() == 0 {
        lemma_unresolved_none(f);
        lemma_unresolved_none(g);
        assert(relocations =~= Seq::empty());
    } else {
        let before = relocations.drop_last();
        let r = relocations.last();
        assert(relocations =~= before.push(r));
        lemma_unresolved_commutes(before, f, g);
        lemma_unresolved_push(before, r, f);
        lemma_unresolved_push(before, r, g);
        if !waits_for(r, f) {
            lemma_unresolved_push(unresolved(before, f), r, g);
        }
        if !waits_for(r, g) {
            lemma_unresolved_push(unresolved(before, g), r, f);
        }
    }
}

/// An address written where no relocation for `g` lies can be written
/// before the relocations for `g` are resolved or after.
pub proof fn lemma_resolved_patch(
    code: Seq<u8>,
    site: RelocationView,
    other: int,
    relocations: Seq<RelocationView>,
    n: nat,
    g: Seq<u8>,
    address: int,
)
    requires
        n <= relocations.len(),
        all_in_code(relocations, n, code.len()),
        site is Function,
        in_code(site, code.len()),
        forall|j: int|
            0 <= j < n && waits_for(#[trigger] relocations[j], g) ==> far(relocations[j], site),
    ensures
        resolved_code(
            patch(code, site->Function_1 as int, other),
            relocations,
            n,
            g,
            address,
        ) == patch(
            resolved_code(code, relocations, n, g, address),
            site->Function_1 as int,
            other,
        ),
    decreases n,
{
    if n > 0 {
        lemma_resolved_patch(code, site, other, relocations, (n - 1) as nat, g, address);
        lemma_resolved_len(code, relocations, (n - 1) as nat, g, address);
        let before = resolved_code(code, relocations, (n - 1) as nat, g, address);
        assert(in_code(relocations[n - 1], code.len()));
        if let RelocationView::Function(target, offset) = relocations[n - 1] {
            if target == g {
                assert(waits_for(relocations[n - 1], g));
                assert(far(relocations[n - 1], site));
                assert(patch(
                    patch(before, site->Function_1 as int, other),
                    offset as int,
                    address,
                ) =~= patch(
                    patch(before, offset as int, address),
                    site->Function_1 as int,
                    other,
                ));
            }
        }
    }
}

/// It makes no difference to the code in which order two functions get
/// their addresses, where no two relocations overlap.
pub proof fn lemma_resolved_commutes(
    code: Seq<u8>,
    relocations: Seq<RelocationView>,
    n: nat,
    f: Seq<u8>,
    first: int,
    g: Seq<u8>,
    second: int,
)
    requires
        f != g,
        n <= relocations.len(),
        all_in_code(relocations, relocations.len(), code.len()),
        apart(relocations),
    ensures
        resolved_code(
            resolved_code(code, relocations, n, f, first),
            relocations,
            relocations.len(),
            g,
            second,
        ) == resolved_code(
            resolved_code(code, relocations, relocations.len(), g, second),
            relocations,
            n,
            f,
            first,
        ),
    decreases n,
{
    if n > 0 {
        lemma_resolved_commutes(code, relocations, (n - 1) as nat, f, first, g, second);
        let before = resolved_code(code, relocations, (n - 1) as nat, f, first);
        lemma_resolved_len(code, relocations, (n - 1) as nat, f, first);
        let site = relocations[n - 1];
        assert(in_code(site, code.len()));
        if waits_for(site, f) {
            assert(relocations.contains(site));
            assert forall|j: int|
                0 <= j < relocations.len() && waits_for(
                    #[trigger] relocations[j],
                    g,
                ) implies far(relocations[j], site) by {
                assert(relocations.contains(relocations[j]));
            }
            assert forall|j: int| 0 <= j < relocations.len() implies in_code(
                #[trigger] relocations[j],
                before.len(),
            ) by {
                assert(in_code(relocations[j], code.len()));
            }
            lemma_resolved_patch(
                before,
                site,
                first,
                relocations,
                relocations.len(),
                g,
                second,
            );
        }
    }
}

/// Giving a function its address keeps a state well-formed.
pub proof fn lemma_addressed_well_formed(
    s: State,
    f: Seq<u8>,
    address: usize,
    attributes: Seq<Attribute>,
)
    requires
        well_formed(s),
    ensures
        well_formed(addressed_as(s, f, address, attributes)),
{
    let t = addressed_as(s, f, address, attributes);
    lemma_resolved_len(s.code, s.relocations, s.relocations.len(), f, address as int);
    assert forall|i: int| 0 <= i < t.relocations.len() implies in_code(
        #[trigger] t.relocations[i],
        t.code.len(),
    ) by {
        lemma_unresolved(s.relocations, f, i);
        let r = t.relocations[i];
        let j = choose|j: int| 0 <= j < s.relocations.len() && s.relocations[j] == r;
        assert(in_code(s.relocations[j], s.code.len()));
    }
    assert forall|one: RelocationView, other: RelocationView|
        #![trigger t.relocations.contains(one), t.relocations.contains(other)]
        t.relocations.contains(one) && t.relocations.contains(other) && one != other implies far(
        one,
        other,
    ) by {
        let i = choose|i: int| 0 <= i < t.relocations.len() && t.relocations[i] == one;
        let j = choose|j: int| 0 <= j < t.relocations.len() && t.relocations[j] == other;
        lemma_unresolved(s.relocations, f, i);
        lemma_unresolved(s.relocations, f, j);
        assert(s.relocations.contains(one));
        assert(s.relocations.contains(other));
    }
}

/// It makes no difference in which order two functions get their
/// addresses.
pub proof fn lemma_addressed_commutes(
    s: State,
    f: Seq<u8>,
    first: usize,
    attributes: Seq<Attribute>,
    g: Seq<u8>,
    second: usize,
)
    requires
        well_formed(s),
        f != g,
    ensures
        addressed_as(addressed(s, g, second), f, first, attributes) == addressed(
            addressed_as(s, f, first, attributes),
            g,
            second,
        ),
{
    let code = s.code;
    let list = s.relocations;
    let left = addressed_as(addressed(s, g, second), f, first, attributes);
    let right = addressed(addressed_as(s, f, first, attributes), g, second);
    lemma_resolved_skips(
        resolved_code(code, list, list.len(), g, second as int),
        list,
        g,
        f,
        first as int,
    );
    lemma_resolved_skips(
        resolved_code(code, list, list.len(), f, first as int),
        list,
        f,
        g,
        second as int,
    );
    lemma_resolved_commutes(code, list, list.len(), f, first as int, g, second as int);
    lemma_unresolved_commutes(list, f, g);
    assert(left.names =~= right.names);
    assert(left.code == right.code);
    assert(left.relocations == right.relocations);
}

/// It makes no difference whether `g` gets its address before another
/// function is emitted or after.
pub proof fn lemma_function_commutes(s: State, g: Seq<u8>, address: usize, f: FunctionView)
    requires
        awaited(s, g),
        f.name != g,
    ensures
        function(addressed(s, g, address), f) == addressed_step(function(s, f), g, address),
        function(s, f) matches Ok(t) ==> awaited(t, g),
{
    let a = addressed(s, g, address);
    let there = (s.code.len() + BANK_START) as usize;
    lemma_addressed_len(s, g, address);
    lemma_addressed_well_formed(s, g, address, s.names[g]->Function_1);
    lemma_addressed_commutes(s, f.name, there, f.body.attributes, g, address);
    lemma_addressed_well_formed(s, f.name, there, f.body.attributes);
    if let Ok(s1) = open_function(s, f) {
        assert(open_function(a, f) == Ok::<State, HaltView>(addressed(s1, g, address)));
        let n = f.body.instructions.len();
        lemma_instructions_commute(s1, g, address, f.body.instructions, n, f.name);
        lemma_instructions_extend(s1, f.body.instructions, n, f.name);
        if let Ok(s2) = instructions(s1, f.body.instructions, n, f.name) {
            lemma_push_commutes(
                s2,
                g,
                address,
                "Return",
                f.name,
                seq![return_opcode(f.body.attributes)],
            );
            if let Ok(s3) = push_code(
                s2,
                "Return",
                f.name,
                seq![return_opcode(f.body.attributes)],
            ) {
                let t = State { mode: s.mode, ..s3 };
                assert(addressed(t, g, address) == State {
                    mode: s.mode,
                    ..addressed(s3, g, address)
                });
                assert(well_formed(t));
            }
        }
    }
}

/// It makes no difference whether `g` gets its address before the
/// functions among the first `n` definitions are emitted or after, where
/// `g` is none of them.
pub proof fn lemma_functions_commute(
    s: State,
    g: Seq<u8>,
    address: usize,
    definitions: Seq<DefinitionView>,
    n: nat,
)
    requires
        awaited(s, g),
        forall|i: int|
            0 <= i < n && i < definitions.len() ==> !(#[trigger] definitions[i]
                matches DefinitionView::Function(f) && f.name == g),
    ensures
        functions(addressed(s, g, address), definitions, n) == addressed_step(
            functions(s, definitions, n),
            g,
            address,
        ),
        functions(s, definitions, n) matches Ok(t) ==> awaited(t, g),
    decreases n,
{
    if n == 0 || n > definitions.len() {
    } else {
        lemma_functions_commute(s, g, address, definitions, (n - 1) as nat);
        if let Ok(s1) = functions(s, definitions, (n - 1) as nat) {
            if let DefinitionView::Function(f) = definitions[n - 1] {
                lemma_function_commutes(s1, g, address, f);
            }
        }
    }
}

/// What the definitions before a function emit, once the calls that wait
/// for the function hold its address, is what they emit when the function
/// has its address from the start. So a call before its callee is, in the
/// end, the same as a call after it.
pub proof fn lemma_forward_references(p: ProgramView, g: Seq<u8>, address: usize, n: nat)
    requires
        initial_state(p).names.contains_key(g),
        initial_state(p).names[g] is Function,
        forall|i: int|
            0 <= i < n && i < p.definitions.len() ==> !(#[trigger] p.definitions[i]
                matches DefinitionView::Function(f) && f.name == g),
    ensures
        functions(addressed(initial_state(p), g, address), p.definitions, n) == addressed_step(
            functions(initial_state(p), p.definitions, n),
            g,
            address,
        ),
{
    let s = initial_state(p);
    lemma_registered_without_address(p.definitions, p.definitions.len(), g);
    assert(well_formed(s));
    lemma_functions_commute(s, g, address, p.definitions, n);
}

} // verus!
