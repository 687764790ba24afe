//! What holds of the model of code generation.

use vstd::prelude::*;
use crate::ast::{
    Attribute, BlockView, ConditionalView, FunctionView, InstructionView, OperandView, Register,
};
use crate::forward::lemma_resolved_len;
use crate::frame::{lemma_instruction_extends, lemma_scope_extends};
use crate::image::{addressed_as, function, open_function, patch, return_opcode};
use crate::model::{
    close_if, conditional, consistent, emit, enter_block, exclusive, first_conflict, high_byte,
    if_block, initial_mode, instruction, instructions, jump_to_subroutine, low_byte, push_code,
    refuse, repeat, scope, switch_mode, target_mode, test_of, well_formed, ErrorView, HaltView,
    Mode, RelocationView, State, BANK_CAPACITY, BANK_START,
};
use crate::steps::{lemma_conflict_has_cause, lemma_no_conflict_before};

verus! {

/// A conflict is reported for a list exactly if the list holds two
/// attributes that exclude each other.
pub proof fn lemma_conflict_free(attributes: Seq<Attribute>)
    ensures
        first_conflict(attributes, attributes.len()) is None <==> forall|a: Attribute, b: Attribute|
            #![trigger attributes.contains(a), attributes.contains(b)]
            attributes.contains(a) && attributes.contains(b) ==> !exclusive(a, b),
{
    if first_conflict(attributes, attributes.len()) is None {
        assert forall|a: Attribute, b: Attribute|
            #![trigger attributes.contains(a), attributes.contains(b)]
            attributes.contains(a) && attributes.contains(b) implies !exclusive(a, b) by {
            let i = choose|i: int| 0 <= i < attributes.len() && attributes[i] == a;
            lemma_no_conflict_before(attributes, attributes.len(), i);
        }
    } else {
        lemma_conflict_has_cause(attributes, attributes.len());
    }
}

// ---------------------------------------------------------------------------
// Modes
// ---------------------------------------------------------------------------

/// After an instruction the mode is the one that held before it, whatever
/// blocks the instruction holds and whatever their attributes are.
pub proof fn lemma_instruction_restores_mode(s: State, i: InstructionView, function: Seq<u8>)
    ensures
        instruction(s, i, function) matches Ok(t) ==> t.mode == s.mode,
{
    lemma_instruction_extends(s, i, function);
}

/// After a block the mode is the one that held before it.
pub proof fn lemma_block_restores_mode(s: State, b: BlockView, function: Seq<u8>)
    ensures
        scope(s, b, function) matches Ok(t) ==> t.mode == s.mode,
{
    lemma_scope_extends(s, b, function);
}

/// A switch to the mode that holds emits nothing.
pub proof fn lemma_no_switch_no_code(s: State, function: Seq<u8>)
    ensures
        switch_mode(s, s.mode, function) == Ok::<State, HaltView>(s),
{
}

/// In emulation mode both widths are narrow: a list of attributes without a
/// conflict leads from such a mode to such a mode.
pub proof fn lemma_target_mode_consistent(m: Mode, attributes: Seq<Attribute>)
    requires
        consistent(m),
        first_conflict(attributes, attributes.len()) is None,
    ensures
        consistent(target_mode(m, attributes)),
{
    lemma_conflict_free(attributes);
    if attributes.contains(Attribute::Emulation) {
        assert(!exclusive(Attribute::Emulation, Attribute::WideMath) || !attributes.contains(
            Attribute::WideMath,
        ));
        assert(!exclusive(Attribute::Emulation, Attribute::WideIndex) || !attributes.contains(
            Attribute::WideIndex,
        ));
    }
}

// ---------------------------------------------------------------------------
// Names
// ---------------------------------------------------------------------------

/// A call of a name that is not declared is refused as a call of an unknown
/// function, and so is a call of a variable.
pub proof fn lemma_unknown_function(s: State, target: Seq<u8>, function: Seq<u8>)
    requires
        !s.names.contains_key(target) || s.names[target] is Var,
    ensures
        instruction(s, InstructionView::Call(target), function) == refuse(
            ErrorView::UnknownFunction(target, function),
        ),
{
}

/// An assignment from or to a name that is not declared is refused as one
/// of an unknown variable, in each form of assignment that takes a variable
/// and in the mode that admits the form. So is one from or to a function.
pub proof fn lemma_unknown_variable(s: State, name: Seq<u8>, function: Seq<u8>)
    requires
        !s.names.contains_key(name) || s.names[name] is Function,
    ensures
        ({
            let unknown = refuse(ErrorView::UnknownVariable(name, function));
            let variable = OperandView::Variable(name);
            let a = OperandView::Register(Register::A);
            let c = OperandView::Register(Register::C);
            let x = OperandView::Register(Register::X);
            let zero = OperandView::Immediate(0);
            &&& !s.mode.wide_math ==> instruction(s, InstructionView::Assign(a, variable), function)
                == unknown
            &&& s.mode.wide_math ==> instruction(s, InstructionView::Assign(c, variable), function)
                == unknown
            &&& instruction(s, InstructionView::Assign(x, variable), function) == unknown
            &&& instruction(s, InstructionView::Assign(variable, a), function) == unknown
            &&& instruction(s, InstructionView::Assign(variable, x), function) == unknown
            &&& instruction(s, InstructionView::Assign(variable, zero), function) == unknown
        }),
{
}

// ---------------------------------------------------------------------------
// Attributes
// ---------------------------------------------------------------------------

/// A block whose attributes hold two that exclude each other is refused,
/// before anything is emitted for it.
pub proof fn lemma_exclusive_attributes_refused(
    s: State,
    attributes: Seq<Attribute>,
    a: Attribute,
    b: Attribute,
    function: Seq<u8>,
)
    requires
        attributes.contains(a),
        attributes.contains(b),
        exclusive(a, b),
    ensures
        enter_block(s, attributes, function) matches Err(
            HaltView::Error(ErrorView::ConflictingAttributes(_, _, f)),
        ) && f == function,
{
    lemma_conflict_free(attributes);
}

/// A function whose attributes hold two that exclude each other is refused.
pub proof fn lemma_exclusive_attributes_refuse_function(
    s: State,
    f: FunctionView,
    a: Attribute,
    b: Attribute,
)
    requires
        f.body.attributes.contains(a),
        f.body.attributes.contains(b),
        exclusive(a, b),
    ensures
        function(s, f) matches Err(HaltView::Error(ErrorView::ConflictingAttributes(_, _, g)))
            && g == f.name,
{
    lemma_conflict_free(f.body.attributes);
}

// ---------------------------------------------------------------------------
// Branches
// ---------------------------------------------------------------------------

/// An `IF` is accepted exactly if its block has emitted 127 bytes or fewer;
/// the operand of the branch before the block is then the number of those
/// bytes. A longer block is refused as too long.
pub proof fn lemma_if_reach(s: State, b: BlockView, c: ConditionalView, function: Seq<u8>)
    requires
        conditional(s, c, None, true, function) is Ok,
        scope(conditional(s, c, None, true, function)->Ok_0, b, function) is Ok,
    ensures
        ({
            let s1 = conditional(s, c, None, true, function)->Ok_0;
            let s2 = scope(s1, b, function)->Ok_0;
            let length = s2.code.len() - s1.code.len();
            &&& length >= 0
            &&& length <= 127 ==> (if_block(s, b, c, function) matches Ok(t) && t.code
                == s2.code.update(s1.code.len() - 1, length as u8))
            &&& length > 127 ==> if_block(s, b, c, function) == refuse(
                ErrorView::IfTooLong(function),
            )
        }),
{
    let s1 = conditional(s, c, None, true, function)->Ok_0;
    lemma_scope_extends(s1, b, function);
}

/// A loop without a condition ends in a short branch where 126 bytes or
/// fewer lie between its start and its end, and in a jump to the address of
/// its start where more do.
pub proof fn lemma_repeat_reach(s: State, start: usize, function: Seq<u8>)
    requires
        start <= s.code.len(),
        repeat(s, start, function) is Ok,
    ensures
        ({
            let t = repeat(s, start, function)->Ok_0;
            let length = s.code.len() - start;
            &&& length <= 126 ==> t.code == s.code + seq![0x80u8, (254 - length) as u8]
            &&& length > 126 ==> t.code == s.code + seq![
                0x4Cu8,
                low_byte(start + BANK_START),
                high_byte(start + BANK_START),
            ]
        }),
{
}

/// A loop with a condition is accepted exactly if 126 bytes or fewer lie
/// between its start and the end of its test.
pub proof fn lemma_loop_reach(
    s: State,
    c: ConditionalView,
    start: usize,
    function: Seq<u8>,
)
    requires
        start <= s.code.len(),
        test_of(s.mode, c, function) is Ok,
        emit(s, Ok(test_of(s.mode, c, function)->Ok_0.0), function) is Ok,
    ensures
        ({
            let tested = emit(s, Ok(test_of(s.mode, c, function)->Ok_0.0), function)->Ok_0;
            let length = tested.code.len() - start;
            &&& length > 126 ==> conditional(s, c, Some(start), false, function) == refuse(
                ErrorView::LoopTooLong(function),
            )
            &&& length <= 126 && tested.code.len() + 2 <= BANK_CAPACITY ==> conditional(
                s,
                c,
                Some(start),
                false,
                function,
            ) is Ok
        }),
{
}

// ---------------------------------------------------------------------------
// Forward references
// ---------------------------------------------------------------------------

/// A call that is emitted before its callee holds, once the callee's
/// address is written at its relocation, the bytes of a call that is
/// emitted after the callee.
pub proof fn lemma_forward_call(
    s: State,
    target: Seq<u8>,
    attributes: Seq<Attribute>,
    address: usize,
    function: Seq<u8>,
)
    requires
        jump_to_subroutine(s, target, None, attributes, function) is Ok,
    ensures
        ({
            let forward = jump_to_subroutine(s, target, None, attributes, function)->Ok_0;
            let backward = jump_to_subroutine(s, target, Some(address), attributes, function);
            &&& forward.relocations == s.relocations.push(
                RelocationView::Function(target, (s.code.len() + 1) as usize),
            )
            &&& (backward matches Ok(t) && t.relocations == s.relocations && t.code == patch(
                forward.code,
                (s.code.len() + 1) as int,
                address as int,
            ))
        }),
{
    let forward = jump_to_subroutine(s, target, None, attributes, function)->Ok_0;
    let t = jump_to_subroutine(s, target, Some(address), attributes, function)->Ok_0;
    assert(t.code =~= patch(forward.code, (s.code.len() + 1) as int, address as int));
}

// ---------------------------------------------------------------------------
// Examples
// ---------------------------------------------------------------------------

/// A block without attributes that holds one instruction is that
/// instruction.
pub proof fn lemma_block_of_one(s: State, i: InstructionView, function: Seq<u8>)
    ensures
        scope(s, BlockView { attributes: Seq::empty(), instructions: seq![i] }, function)
            == instruction(s, i, function),
{
    let b = BlockView { attributes: Seq::empty(), instructions: seq![i] };
    assert(first_conflict(b.attributes, 0) is None);
    lemma_no_switch_no_code(s, function);
    assert(enter_block(s, b.attributes, function) == Ok::<State, HaltView>(s));
    assert(b.instructions[0] == i);
    assert(instructions(s, b.instructions, 0, function) == Ok::<State, HaltView>(s));
    assert(instructions(s, b.instructions, 1, function) == instruction(s, i, function));
    lemma_instruction_restores_mode(s, i, function);
    if let Ok(t) = instruction(s, i, function) {
        lemma_no_switch_no_code(t, function);
    }
}

/// A load of the 8-bit accumulator with a number is `A9` and the number.
pub proof fn lemma_narrow_load(s: State, value: u32, function: Seq<u8>)
    requires
        !s.mode.wide_math,
        value <= 0xFF,
        s.code.len() + 2 <= BANK_CAPACITY,
    ensures
        instruction(
            s,
            InstructionView::Assign(
                OperandView::Register(Register::A),
                OperandView::Immediate(value),
            ),
            function,
        ) == Ok::<State, HaltView>(State { code: s.code + seq![0xA9u8, value as u8], ..s }),
{
}

/// The comparison of the 8-bit accumulator with a number before an `IF` is
/// `C9`, the number, and a branch that is taken when the two differ.
pub proof fn lemma_compare_before_if(s: State, value: u32, function: Seq<u8>)
    requires
        !s.mode.wide_math,
        value <= 0xFF,
        s.code.len() + 4 <= BANK_CAPACITY,
    ensures
        conditional(
            s,
            ConditionalView::Equality(
                OperandView::Register(Register::A),
                OperandView::Immediate(value),
            ),
            None,
            true,
            function,
        ) == Ok::<State, HaltView>(
            State { code: s.code + seq![0xC9u8, value as u8, 0xD0u8, 0xFEu8], ..s },
        ),
{
    let test = ConditionalView::Equality(
        OperandView::Register(Register::A),
        OperandView::Immediate(value),
    );
    let tested = State { code: s.code + seq![0xC9u8, value as u8], ..s };
    assert(emit(s, Ok(test_of(s.mode, test, function)->Ok_0.0), function) == Ok::<State, HaltView>(
        tested,
    ));
    assert(tested.code + seq![0xD0u8, 0xFEu8] =~= s.code + seq![
        0xC9u8,
        value as u8,
        0xD0u8,
        0xFEu8,
    ]);
}

/// `IF (A == 5) { A := 1; }` in narrow mode is a comparison, a branch over
/// two bytes that is taken when the accumulator differs, and a load.
pub proof fn lemma_minimal_if(s: State, function: Seq<u8>)
    requires
        !s.mode.wide_math,
        s.code.len() + 6 <= BANK_CAPACITY,
    ensures
        ({
            let a = OperandView::Register(Register::A);
            let load = InstructionView::Assign(a, OperandView::Immediate(1));
            let body = BlockView { attributes: Seq::empty(), instructions: seq![load] };
            let test = ConditionalView::Equality(a, OperandView::Immediate(5));
            instruction(s, InstructionView::If(body, test), function) == Ok::<State, HaltView>(
                State {
                    code: s.code + seq![0xC9u8, 0x05u8, 0xD0u8, 0x02u8, 0xA9u8, 0x01u8],
                    ..s
                },
            )
        }),
{
    let a = OperandView::Register(Register::A);
    let load = InstructionView::Assign(a, OperandView::Immediate(1));
    let body = BlockView { attributes: Seq::empty(), instructions: seq![load] };
    let test = ConditionalView::Equality(a, OperandView::Immediate(5));
    let s1 = State { code: s.code + seq![0xC9u8, 0x05u8, 0xD0u8, 0xFEu8], ..s };
    let s2 = State { code: s1.code + seq![0xA9u8, 0x01u8], ..s };
    let t = State {
        code: s.code + seq![0xC9u8, 0x05u8, 0xD0u8, 0x02u8, 0xA9u8, 0x01u8],
        ..s
    };
    lemma_compare_before_if(s, 5, function);
    lemma_narrow_load(s1, 1, function);
    lemma_block_of_one(s1, load, function);
    assert(close_if(s2, s1.code.len() as usize, function) == Ok::<State, HaltView>(t)) by {
        assert(s2.code.update(s1.code.len() - 1, 2u8) =~= t.code);
    }
    assert(conditional(s, test, None, true, function) == Ok::<State, HaltView>(s1));
    assert(scope(s1, body, function) == Ok::<State, HaltView>(s2));
    assert(if_block(s, body, test, function) == Ok::<State, HaltView>(t));
}

/// `DO { A := 0; }` in narrow mode is a load and a branch back over the
/// four bytes of both.
pub proof fn lemma_short_loop(s: State, function: Seq<u8>)
    requires
        !s.mode.wide_math,
        s.code.len() + 4 <= BANK_CAPACITY,
    ensures
        ({
            let load = InstructionView::Assign(
                OperandView::Register(Register::A),
                OperandView::Immediate(0),
            );
            let body = BlockView { attributes: Seq::empty(), instructions: seq![load] };
            instruction(s, InstructionView::Loop(body, None), function) == Ok::<State, HaltView>(
                State { code: s.code + seq![0xA9u8, 0x00u8, 0x80u8, 0xFCu8], ..s },
            )
        }),
{
    let load = InstructionView::Assign(
        OperandView::Register(Register::A),
        OperandView::Immediate(0),
    );
    let body = BlockView { attributes: Seq::empty(), instructions: seq![load] };
    let s1 = State { code: s.code + seq![0xA9u8, 0x00u8], ..s };
    assert(first_conflict(body.attributes, 0) is None);
    lemma_no_switch_no_code(s, function);
    assert(enter_block(s, body.attributes, function) == Ok::<State, HaltView>(s));
    assert(body.instructions[0] == load);
    assert(instructions(s, body.instructions, 0, function) == Ok::<State, HaltView>(s));
    assert(instruction(s, load, function) == Ok::<State, HaltView>(s1));
    assert(instructions(s, body.instructions, 1, function) == Ok::<State, HaltView>(s1));
    let s2 = State { code: s1.code + seq![0x80u8, 0xFCu8], ..s };
    assert(repeat(s1, s.code.len() as usize, function) == Ok::<State, HaltView>(s2));
    lemma_no_switch_no_code(s2, function);
    assert(s2.code =~= s.code + seq![0xA9u8, 0x00u8, 0x80u8, 0xFCu8]);
}

/// The list of the one attribute `WIDEM` has no conflict and makes the
/// accumulator wide in native mode.
pub proof fn lemma_wide_math_alone(m: Mode)
    ensures
        first_conflict(seq![Attribute::WideMath], 1) is None,
        target_mode(m, seq![Attribute::WideMath]) == (Mode {
            emulation: false,
            wide_math: true,
            wide_index: m.wide_index,
        }),
{
    let list = seq![Attribute::WideMath];
    reveal_with_fuel(first_conflict, 2);
    assert(list[0] == Attribute::WideMath);
    assert(list.contains(Attribute::WideMath));
    assert forall|a: Attribute| list.contains(a) implies a == Attribute::WideMath by {
        let i = choose|i: int| 0 <= i < list.len() && list[i] == a;
        assert(list[i] == Attribute::WideMath);
    }
}

/// `[WIDEM] { C := 0x0102; } A := 3;` in native mode with narrow widths
/// widens the accumulator, loads both bytes, narrows both widths again with
/// one instruction, and loads one byte.
pub proof fn lemma_wide_block_then_load(s: State, function: Seq<u8>)
    requires
        s.mode == initial_mode(),
        s.code.len() + 9 <= BANK_CAPACITY,
    ensures
        ({
            let wide = InstructionView::Assign(
                OperandView::Register(Register::C),
                OperandView::Immediate(0x0102),
            );
            let block = InstructionView::Block(
                BlockView { attributes: seq![Attribute::WideMath], instructions: seq![wide] },
            );
            let load = InstructionView::Assign(
                OperandView::Register(Register::A),
                OperandView::Immediate(3),
            );
            instructions(s, seq![block, load], 2, function) == Ok::<State, HaltView>(
                State {
                    code: s.code + seq![
                        0xC2u8,
                        0x20u8,
                        0xA9u8,
                        0x02u8,
                        0x01u8,
                        0xE2u8,
                        0x30u8,
                        0xA9u8,
                        0x03u8,
                    ],
                    ..s
                },
            )
        }),
{
    let wide = InstructionView::Assign(
        OperandView::Register(Register::C),
        OperandView::Immediate(0x0102),
    );
    let inner = BlockView { attributes: seq![Attribute::WideMath], instructions: seq![wide] };
    let block = InstructionView::Block(inner);
    let load = InstructionView::Assign(
        OperandView::Register(Register::A),
        OperandView::Immediate(3),
    );
    let list = seq![block, load];
    let inside = Mode { emulation: false, wide_math: true, wide_index: false };
    let s1 = State { code: s.code + seq![0xC2u8, 0x20u8], mode: inside, ..s };
    let s2 = State { code: s1.code + seq![0xA9u8, 0x02u8, 0x01u8], ..s1 };
    let s3 = State { code: s2.code + seq![0xE2u8, 0x30u8], mode: s.mode, ..s2 };
    let s4 = State { code: s3.code + seq![0xA9u8, 0x03u8], ..s3 };
    lemma_wide_math_alone(s.mode);
    assert(enter_block(s, inner.attributes, function) == Ok::<State, HaltView>(s1));
    assert(instructions(s1, inner.instructions, 1, function) == Ok::<State, HaltView>(s2)) by {
        assert(inner.instructions[0] == wide);
        assert(instructions(s1, inner.instructions, 0, function) == Ok::<State, HaltView>(s1));
        assert(low_byte(0x0102) == 0x02 && high_byte(0x0102) == 0x01);
        assert(instruction(s1, wide, function) == Ok::<State, HaltView>(s2));
    }
    assert(switch_mode(s2, s.mode, function) == Ok::<State, HaltView>(s3));
    assert(scope(s, inner, function) == Ok::<State, HaltView>(s3));
    lemma_narrow_load(s3, 3, function);
    assert(instructions(s, list, 2, function) == Ok::<State, HaltView>(s4)) by {
        assert(list[0] == block && list[1] == load);
        assert(instructions(s, list, 0, function) == Ok::<State, HaltView>(s));
        assert(instruction(s, block, function) == scope(s, inner, function));
        assert(instructions(s, list, 1, function) == Ok::<State, HaltView>(s3));
    }
    assert(s4.code =~= s.code + seq![
        0xC2u8,
        0x20u8,
        0xA9u8,
        0x02u8,
        0x01u8,
        0xE2u8,
        0x30u8,
        0xA9u8,
        0x03u8,
    ]);
}

/// A function `[WIDEM] { PUSH C; }` is a push and a return. No instruction
/// widens the accumulator on entry: it is for the caller to do so. The
/// mode behind the function is the mode before it.
pub proof fn lemma_wide_function(s: State, name: Seq<u8>)
    requires
        well_formed(s),
        s.code.len() + 2 <= BANK_CAPACITY,
    ensures
        ({
            let push = InstructionView::Push(OperandView::Register(Register::C));
            let body = BlockView {
                attributes: seq![Attribute::WideMath],
                instructions: seq![push],
            };
            let f = FunctionView { body: body, name: name };
            let there = (s.code.len() + BANK_START) as usize;
            let started = addressed_as(s, name, there, body.attributes);
            function(s, f) == Ok::<State, HaltView>(
                State { code: started.code + seq![0x48u8, 0x60u8], ..started },
            )
        }),
{
    let push = InstructionView::Push(OperandView::Register(Register::C));
    let body = BlockView { attributes: seq![Attribute::WideMath], instructions: seq![push] };
    let f = FunctionView { body: body, name: name };
    let there = (s.code.len() + BANK_START) as usize;
    let started = addressed_as(s, name, there, body.attributes);
    let inside = Mode { emulation: false, wide_math: true, wide_index: s.mode.wide_index };
    let s1 = State { mode: inside, ..started };
    let s2 = State { code: s1.code + seq![0x48u8], ..s1 };
    let s3 = State { code: s2.code + seq![0x60u8], ..s1 };
    lemma_wide_math_alone(s.mode);
    lemma_resolved_len(s.code, s.relocations, s.relocations.len(), name, there as int);
    assert(open_function(s, f) == Ok::<State, HaltView>(s1));
    assert(instructions(s1, body.instructions, 1, name) == Ok::<State, HaltView>(s2)) by {
        assert(body.instructions[0] == push);
        assert(instructions(s1, body.instructions, 0, name) == Ok::<State, HaltView>(s1));
        assert(instruction(s1, push, name) == Ok::<State, HaltView>(s2));
    }
    assert(return_opcode(body.attributes) == 0x60) by {
        assert forall|a: Attribute| body.attributes.contains(a) implies a
            == Attribute::WideMath by {
            let i = choose|i: int| 0 <= i < body.attributes.len() && body.attributes[i] == a;
            assert(body.attributes[i] == Attribute::WideMath);
        }
    }
    assert(push_code(s2, "Return", name, seq![0x60u8]) == Ok::<State, HaltView>(s3));
    assert(s3.code =~= started.code + seq![0x48u8, 0x60u8]);
}

} // verus!
