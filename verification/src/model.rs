//! The mathematical model of code generation.
//!
//! A [`State`] is what the generator has produced so far. Each construct of
//! the language is a function from the state before it to the state after it,
//! or to the reason why the program is refused.

use vstd::prelude::*;
use vstd::string::*;
use crate::ast::{
    bytes_of, Attribute, BlockView, ConditionalView, InstructionView, OperandView, Register,
};

verus! {

/// The address at which the processor sees the first byte of the bank.
pub const BANK_START: usize = 0x8000;

/// The number of bytes of the bank that are free for code.
pub const BANK_CAPACITY: usize = 0x7FC0;

/// The number of bytes of a finished image.
pub const IMAGE_SIZE: usize = 0x8000;

/// The low byte of a number.
pub open spec fn low_byte(v: int) -> u8 {
    (v % 256) as u8
}

/// The second-lowest byte of a number.
pub open spec fn high_byte(v: int) -> u8 {
    ((v / 256) % 256) as u8
}

/// The processor mode that the generator assumes at a point of the code.
#[derive(Clone, Copy, Debug, PartialEq, Eq, Structural)]
pub struct Mode {
    pub emulation: bool,
    pub wide_math: bool,
    pub wide_index: bool,
}

/// What a name stands for.
pub enum NameView {
    /// A variable at an absolute address.
    Var(u32),
    /// A function with its address, once its body has been started, and its
    /// attributes.
    Function(Option<usize>, Seq<Attribute>),
}

/// The view of a [`crate::codegen::Relocation`].
pub enum RelocationView {
    Function(Seq<u8>, usize),
    Break(usize),
}

/// The view of a [`crate::codegen::Error`].
pub enum ErrorView {
    BadAssignment(OperandView, OperandView, Seq<u8>),
    BadAndAssignment(OperandView, OperandView, Seq<u8>),
    BadOrAssignment(OperandView, OperandView, Seq<u8>),
    BadBitTest(OperandView, OperandView, Seq<u8>),
    BadEquality(OperandView, OperandView, Seq<u8>),
    BadPush(OperandView, Seq<u8>),
    BadPop(OperandView, Seq<u8>),
    ConflictingAttributes(Attribute, Attribute, Seq<u8>),
    NoSpace(Seq<u8>, Seq<u8>),
    LoopTooLong(Seq<u8>),
    IfTooLong(Seq<u8>),
    InvalidAddress(u32, Seq<u8>),
    InvalidValue(u32, Seq<u8>),
    InvalidRegister(Register, Attribute, Seq<u8>),
    UnknownVariable(Seq<u8>, Seq<u8>),
    UnknownFunction(Seq<u8>, Seq<u8>),
    InvalidInterrupt(Seq<u8>),
    UnresolvedName(RelocationView),
}

/// The view of a [`crate::codegen::Halt`].
pub enum HaltView {
    /// The program is refused.
    Error(ErrorView),
    /// The program calls a function that is declared `EXTERN`: the first
    /// field is the callee, the second the function that holds the call.
    ExternCall(Seq<u8>, Seq<u8>),
}

/// The state of the generator.
pub struct State {
    /// The code emitted so far.
    pub code: Seq<u8>,
    /// The mode that the code emitted next will run in.
    pub mode: Mode,
    /// The name table.
    pub names: Map<Seq<u8>, NameView>,
    /// The call sites that wait for the address of their callee.
    pub relocations: Seq<RelocationView>,
}

/// Whether a relocation names two bytes of a code of `len` bytes.
pub open spec fn in_code(r: RelocationView, len: nat) -> bool {
    match r {
        RelocationView::Function(_, offset) => offset + 2 <= len,
        RelocationView::Break(_) => false,
    }
}

/// Whether two relocations name bytes that do not overlap.
pub open spec fn far(one: RelocationView, other: RelocationView) -> bool {
    match (one, other) {
        (RelocationView::Function(_, a), RelocationView::Function(_, b)) => a + 2 <= b || b + 2
            <= a,
        _ => true,
    }
}

/// Whether no two relocations of a list name bytes that overlap.
pub open spec fn apart(relocations: Seq<RelocationView>) -> bool {
    forall|one: RelocationView, other: RelocationView|
        #![trigger relocations.contains(one), relocations.contains(other)]
        relocations.contains(one) && relocations.contains(other) && one != other ==> far(
            one,
            other,
        )
}

/// What every state that the generator reaches has: the code fits into the
/// bank, each relocation names the two address bytes of a call that has
/// been emitted, and no two relocations overlap.
pub open spec fn well_formed(s: State) -> bool {
    &&& s.code.len() <= BANK_CAPACITY
    &&& forall|i: int|
        0 <= i < s.relocations.len() ==> in_code(#[trigger] s.relocations[i], s.code.len())
    &&& apart(s.relocations)
}

/// The outcome of one step of code generation.
pub type Step = Result<State, HaltView>;

/// Refusal of the program with the error `e`.
pub open spec fn refuse(e: ErrorView) -> Step {
    Err(HaltView::Error(e))
}

/// Appends `bytes` to the code, unless they do not fit into the bank.
pub open spec fn push_code(s: State, operation: &str, function: Seq<u8>, bytes: Seq<u8>) -> Step {
    if s.code.len() + bytes.len() > BANK_CAPACITY {
        refuse(ErrorView::NoSpace(bytes_of(operation), function))
    } else {
        Ok(State { code: s.code + bytes, ..s })
    }
}

// ---------------------------------------------------------------------------
// Attributes and modes
// ---------------------------------------------------------------------------

/// The mode at the start of an image: native, with narrow accumulator and
/// narrow index registers.
pub open spec fn initial_mode() -> Mode {
    Mode { emulation: false, wide_math: false, wide_index: false }
}

/// Emulation mode leaves no choice of width: both are narrow.
pub open spec fn consistent(m: Mode) -> bool {
    m.emulation ==> !m.wide_math && !m.wide_index
}

/// Whether two attributes may not stand in one list.
pub open spec fn exclusive(a: Attribute, b: Attribute) -> bool {
    exclusive_ordered(a, b) || exclusive_ordered(b, a)
}

/// The mutually exclusive pairs, each in one order.
pub open spec fn exclusive_ordered(a: Attribute, b: Attribute) -> bool {
    ||| a == Attribute::Interrupt && b == Attribute::Extern
    ||| a == Attribute::Emulation && b == Attribute::Native
    ||| a == Attribute::Emulation && b == Attribute::WideMath
    ||| a == Attribute::Emulation && b == Attribute::WideIndex
    ||| a == Attribute::NarrowMath && b == Attribute::WideMath
    ||| a == Attribute::NarrowIndex && b == Attribute::WideIndex
}

/// The pair that is reported for the attribute `a` of the list `attributes`,
/// if the list holds an attribute that excludes `a`. The pair names the
/// clash rather than the two attributes: emulation, which makes both widths
/// narrow, is reported as the narrow width that a wide one clashes with, and
/// a wide width, which needs native mode, as `Native` where it clashes
/// with emulation.
pub open spec fn conflict_of(a: Attribute, attributes: Seq<Attribute>) -> Option<
    (Attribute, Attribute),
> {
    match a {
        Attribute::Emulation => if attributes.contains(Attribute::Native) {
            Some((Attribute::Emulation, Attribute::Native))
        } else if attributes.contains(Attribute::WideIndex) {
            Some((Attribute::NarrowIndex, Attribute::WideIndex))
        } else if attributes.contains(Attribute::WideMath) {
            Some((Attribute::NarrowMath, Attribute::WideMath))
        } else {
            None
        },
        Attribute::NarrowIndex => if attributes.contains(Attribute::WideIndex) {
            Some((Attribute::NarrowIndex, Attribute::WideIndex))
        } else {
            None
        },
        Attribute::NarrowMath => if attributes.contains(Attribute::WideMath) {
            Some((Attribute::NarrowMath, Attribute::WideMath))
        } else {
            None
        },
        Attribute::Native => if attributes.contains(Attribute::Emulation) {
            Some((Attribute::Native, Attribute::Emulation))
        } else {
            None
        },
        Attribute::WideIndex => if attributes.contains(Attribute::NarrowIndex) {
            Some((Attribute::WideIndex, Attribute::NarrowIndex))
        } else if attributes.contains(Attribute::Emulation) {
            Some((Attribute::Native, Attribute::Emulation))
        } else {
            None
        },
        Attribute::WideMath => if attributes.contains(Attribute::NarrowMath) {
            Some((Attribute::WideMath, Attribute::NarrowMath))
        } else if attributes.contains(Attribute::Emulation) {
            Some((Attribute::Native, Attribute::Emulation))
        } else {
            None
        },
        Attribute::Interrupt => if attributes.contains(Attribute::Extern) {
            Some((Attribute::Interrupt, Attribute::Extern))
        } else {
            None
        },
        Attribute::Extern => if attributes.contains(Attribute::Interrupt) {
            Some((Attribute::Extern, Attribute::Interrupt))
        } else {
            None
        },
    }
}

/// The conflict that is reported for a list of attributes: that of the first
/// among its first `n` attributes that has one.
pub open spec fn first_conflict(attributes: Seq<Attribute>, n: nat) -> Option<
    (Attribute, Attribute),
>
    decreases n,
{
    if n == 0 {
        None
    } else {
        match first_conflict(attributes, (n - 1) as nat) {
            Some(pair) => Some(pair),
            None => conflict_of(attributes[n - 1], attributes),
        }
    }
}

/// The mode inside a block with the given attributes that is entered in
/// mode `m`. It is meant for lists without a conflict.
pub open spec fn target_mode(m: Mode, attributes: Seq<Attribute>) -> Mode {
    Mode {
        emulation: if attributes.contains(Attribute::Emulation) {
            true
        } else if attributes.contains(Attribute::Native) || attributes.contains(
            Attribute::WideMath,
        ) || attributes.contains(Attribute::WideIndex) {
            false
        } else {
            m.emulation
        },
        wide_math: if attributes.contains(Attribute::WideMath) {
            true
        } else if attributes.contains(Attribute::NarrowMath) || attributes.contains(
            Attribute::Emulation,
        ) {
            false
        } else {
            m.wide_math
        },
        wide_index: if attributes.contains(Attribute::WideIndex) {
            true
        } else if attributes.contains(Attribute::NarrowIndex) || attributes.contains(
            Attribute::Emulation,
        ) {
            false
        } else {
            m.wide_index
        },
    }
}

/// The instructions that toggle emulation, where the mode of `s` differs in
/// it from `previous`.
pub open spec fn emulation_shim(s: State, previous: bool, function: Seq<u8>) -> Step {
    if previous != s.mode.emulation {
        if s.mode.emulation {
            push_code(s, "Enable Emulation", function, seq![0x38u8, 0xFBu8])
        } else {
            push_code(s, "Disable Emulation", function, seq![0x18u8, 0xFBu8])
        }
    } else {
        Ok(s)
    }
}

/// The instruction that sets the width of the accumulator alone.
pub open spec fn math_shim(s: State, previous: bool, function: Seq<u8>) -> Step {
    if previous != s.mode.wide_math {
        if s.mode.wide_math {
            push_code(s, "Enable Wide Math", function, seq![0xC2u8, 0x20u8])
        } else {
            push_code(s, "Disable Wide Math", function, seq![0xE2u8, 0x20u8])
        }
    } else {
        Ok(s)
    }
}

/// The instruction that sets the width of the index registers alone.
pub open spec fn index_shim(s: State, previous: bool, function: Seq<u8>) -> Step {
    if previous != s.mode.wide_index {
        if s.mode.wide_index {
            push_code(s, "Enable Wide Index", function, seq![0xC2u8, 0x10u8])
        } else {
            push_code(s, "Disable Wide Index", function, seq![0xE2u8, 0x10u8])
        }
    } else {
        Ok(s)
    }
}

/// The instructions that set the widths, where the mode of `s` differs in
/// them from the previous widths. Where the accumulator changes to the
/// width that the index registers are to have, one instruction sets both.
pub open spec fn width_shim(
    s: State,
    previous_math: bool,
    previous_index: bool,
    function: Seq<u8>,
) -> Step {
    if s.mode.wide_math != previous_math && s.mode.wide_math == s.mode.wide_index {
        if s.mode.wide_math {
            push_code(s, "Enable Wide Math + Index", function, seq![0xC2u8, 0x30u8])
        } else {
            push_code(s, "Disable wide math + index", function, seq![0xE2u8, 0x30u8])
        }
    } else {
        match math_shim(s, previous_math, function) {
            Ok(s1) => index_shim(s1, previous_index, function),
            Err(h) => Err(h),
        }
    }
}

/// Changes the mode to `to` and emits the instructions that take the
/// processor there.
pub open spec fn switch_mode(s: State, to: Mode, function: Seq<u8>) -> Step {
    match emulation_shim(State { mode: to, ..s }, s.mode.emulation, function) {
        Ok(s1) => width_shim(s1, s.mode.wide_math, s.mode.wide_index, function),
        Err(h) => Err(h),
    }
}

/// Enters a block: refuses conflicting attributes, then switches to the
/// block's mode.
pub open spec fn enter_block(s: State, attributes: Seq<Attribute>, function: Seq<u8>) -> Step {
    match first_conflict(attributes, attributes.len()) {
        Some((a, b)) => refuse(ErrorView::ConflictingAttributes(a, b, function)),
        None => switch_mode(s, target_mode(s.mode, attributes), function),
    }
}

// ---------------------------------------------------------------------------
// Simple instructions
// ---------------------------------------------------------------------------

/// An instruction ready to be appended: the name of the operation, for the
/// error that reports a full bank, and its bytes.
pub struct Encoding {
    pub operation: Seq<u8>,
    pub bytes: Seq<u8>,
}

/// An opcode followed by one byte of `value`.
pub open spec fn with_byte(operation: &str, opcode: u8, value: u32) -> Encoding {
    Encoding { operation: bytes_of(operation), bytes: seq![opcode, low_byte(value as int)] }
}

/// An opcode followed by the two low bytes of `value`, the lower first.
pub open spec fn with_word(operation: &str, opcode: u8, value: u32) -> Encoding {
    Encoding {
        operation: bytes_of(operation),
        bytes: seq![opcode, low_byte(value as int), high_byte(value as int)],
    }
}

/// An opcode without an operand.
pub open spec fn bare(operation: &str, opcode: u8) -> Encoding {
    Encoding { operation: bytes_of(operation), bytes: seq![opcode] }
}

/// An instruction that takes the 16-bit address `address`.
pub open spec fn absolute(operation: &str, opcode: u8, address: u32, function: Seq<u8>) -> Result<
    Encoding,
    ErrorView,
> {
    if address > 0xFFFF {
        Err(ErrorView::InvalidAddress(address, function))
    } else {
        Ok(with_word(operation, opcode, address))
    }
}

/// An instruction that takes the address of the variable `name`.
pub open spec fn on_variable(
    names: Map<Seq<u8>, NameView>,
    operation: &str,
    opcode: u8,
    name: Seq<u8>,
    function: Seq<u8>,
) -> Result<Encoding, ErrorView> {
    if names.contains_key(name) && names[name] is Var {
        absolute(operation, opcode, names[name]->Var_0, function)
    } else {
        Err(ErrorView::UnknownVariable(name, function))
    }
}

/// An instruction on the 8-bit accumulator with an immediate operand.
pub open spec fn narrow_immediate(
    mode: Mode,
    operation: &str,
    opcode: u8,
    value: u32,
    function: Seq<u8>,
) -> Result<Encoding, ErrorView> {
    if mode.wide_math {
        Err(ErrorView::InvalidRegister(Register::A, Attribute::WideMath, function))
    } else if value > 0xFF {
        Err(ErrorView::InvalidValue(value, function))
    } else {
        Ok(with_byte(operation, opcode, value))
    }
}

/// The encoding of `destination := source`.
pub open spec fn assignment(
    mode: Mode,
    names: Map<Seq<u8>, NameView>,
    destination: OperandView,
    source: OperandView,
    function: Seq<u8>,
) -> Result<Encoding, ErrorView> {
    match (destination, source) {
        (OperandView::Register(Register::A), OperandView::Immediate(value)) => narrow_immediate(
            mode,
            "Load A",
            0xA9,
            value,
            function,
        ),
        (OperandView::Register(Register::A), OperandView::Variable(name)) => if mode.wide_math {
            Err(ErrorView::InvalidRegister(Register::A, Attribute::WideMath, function))
        } else {
            on_variable(names, "Load A", 0xAD, name, function)
        },
        (OperandView::Register(Register::C), OperandView::Immediate(value)) => if !mode.wide_math {
            Err(ErrorView::InvalidRegister(Register::C, Attribute::NarrowMath, function))
        } else if value > 0xFFFF {
            Err(ErrorView::InvalidValue(value, function))
        } else {
            Ok(with_word("Load C", 0xA9, value))
        },
        (OperandView::Register(Register::C), OperandView::Variable(name)) => if !mode.wide_math {
            Err(ErrorView::InvalidRegister(Register::C, Attribute::NarrowMath, function))
        } else {
            on_variable(names, "Load A", 0xAD, name, function)
        },
        (OperandView::Register(Register::D), OperandView::Register(Register::C)) => Ok(
            bare("Transfer C to D", 0x5B),
        ),
        (OperandView::Register(Register::S), OperandView::Register(Register::C)) => Ok(
            bare("Transfer C to S", 0x1B),
        ),
        (OperandView::Register(Register::X), OperandView::Immediate(value)) => if mode.wide_index {
            if value > 0xFFFF {
                Err(ErrorView::InvalidValue(value, function))
            } else {
                Ok(with_word("Load X imm", 0xA2, value))
            }
        } else {
            if value > 0xFF {
                Err(ErrorView::InvalidValue(value, function))
            } else {
                Ok(with_byte("Load X imm", 0xA2, value))
            }
        },
        (OperandView::Register(Register::X), OperandView::Variable(name)) => on_variable(
            names,
            "Load X abs",
            0xAE,
            name,
            function,
        ),
        (OperandView::Absolute(address), OperandView::Register(Register::A)) => absolute(
            "Store A",
            0x8D,
            address,
            function,
        ),
        (OperandView::Absolute(address), OperandView::Immediate(0)) => absolute(
            "Store Zero",
            0x9C,
            address,
            function,
        ),
        (OperandView::Variable(name), OperandView::Register(Register::A)) => on_variable(
            names,
            "Store A",
            0x8D,
            name,
            function,
        ),
        (OperandView::Variable(name), OperandView::Register(Register::X)) => on_variable(
            names,
            "Store X",
            0x8E,
            name,
            function,
        ),
        (OperandView::Variable(name), OperandView::Immediate(0)) => on_variable(
            names,
            "Store Zero",
            0x9C,
            name,
            function,
        ),
        _ => Err(ErrorView::BadAssignment(destination, source, function)),
    }
}

/// The encoding of `destination &= source`, or of `destination |= source`
/// where `or` is set.
pub open spec fn combination(
    mode: Mode,
    or: bool,
    destination: OperandView,
    source: OperandView,
    function: Seq<u8>,
) -> Result<Encoding, ErrorView> {
    match (destination, source) {
        (OperandView::Register(Register::A), OperandView::Immediate(value)) => if or {
            narrow_immediate(mode, "Or A imm", 0x09, value, function)
        } else {
            narrow_immediate(mode, "And A imm", 0x29, value, function)
        },
        _ => if or {
            Err(ErrorView::BadOrAssignment(destination, source, function))
        } else {
            Err(ErrorView::BadAndAssignment(destination, source, function))
        },
    }
}

/// The encoding of `PUSH operand`, or of `POP operand` where `pop` is set.
/// The accumulator goes by the name that fits its width.
pub open spec fn stack(mode: Mode, pop: bool, operand: OperandView, function: Seq<u8>) -> Result<
    Encoding,
    ErrorView,
> {
    match operand {
        OperandView::Register(Register::A) => if mode.wide_math {
            Err(ErrorView::InvalidRegister(Register::A, Attribute::NarrowMath, function))
        } else if pop {
            Ok(bare("PLA", 0x68))
        } else {
            Ok(bare("PHA", 0x48))
        },
        OperandView::Register(Register::C) => if !mode.wide_math {
            Err(ErrorView::InvalidRegister(Register::C, Attribute::NarrowMath, function))
        } else if pop {
            Ok(bare("PLA", 0x68))
        } else {
            Ok(bare("PHA", 0x48))
        },
        OperandView::Register(Register::X) => if pop {
            Ok(bare("PLX", 0xFA))
        } else {
            Ok(bare("PHX", 0xDA))
        },
        OperandView::Register(Register::Y) => if pop {
            Ok(bare("PLY", 0x7A))
        } else {
            Ok(bare("PHY", 0x5A))
        },
        _ => if pop {
            Err(ErrorView::BadPop(operand, function))
        } else {
            Err(ErrorView::BadPush(operand, function))
        },
    }
}

/// Appends an encoded instruction, or refuses the program with the error
/// found while encoding it.
pub open spec fn emit(s: State, encoded: Result<Encoding, ErrorView>, function: Seq<u8>) -> Step {
    match encoded {
        Ok(e) => if s.code.len() + e.bytes.len() > BANK_CAPACITY {
            refuse(ErrorView::NoSpace(e.operation, function))
        } else {
            Ok(State { code: s.code + e.bytes, ..s })
        },
        Err(e) => refuse(e),
    }
}

// ---------------------------------------------------------------------------
// Conditions and branches
// ---------------------------------------------------------------------------

/// The instruction that tests a condition, and whether the zero flag is set
/// after it when the condition holds.
pub open spec fn test_of(mode: Mode, condition: ConditionalView, function: Seq<u8>) -> Result<
    (Encoding, bool),
    ErrorView,
> {
    match condition {
        ConditionalView::NotBitTest(
            OperandView::Register(Register::A),
            OperandView::Immediate(value),
        ) => match narrow_immediate(mode, "BIT A imm", 0x89, value, function) {
            Ok(e) => Ok((e, true)),
            Err(e) => Err(e),
        },
        ConditionalView::NotBitTest(l, r) => Err(ErrorView::BadBitTest(l, r, function)),
        ConditionalView::BitTest(
            OperandView::Register(Register::A),
            OperandView::Immediate(value),
        ) => match narrow_immediate(mode, "BIT A imm", 0x89, value, function) {
            Ok(e) => Ok((e, false)),
            Err(e) => Err(e),
        },
        ConditionalView::BitTest(
            OperandView::Register(Register::C),
            OperandView::Immediate(value),
        ) => if !mode.wide_math {
            Err(ErrorView::InvalidRegister(Register::C, Attribute::WideMath, function))
        } else if value > 0xFFFF {
            Err(ErrorView::InvalidValue(value, function))
        } else {
            Ok((with_word("BIT A imm", 0x89, value), false))
        },
        ConditionalView::BitTest(l, r) => Err(ErrorView::BadBitTest(l, r, function)),
        ConditionalView::Equality(
            OperandView::Register(Register::A),
            OperandView::Immediate(value),
        ) => match narrow_immediate(mode, "CMP A imm", 0xC9, value, function) {
            Ok(e) => Ok((e, true)),
            Err(e) => Err(e),
        },
        ConditionalView::Equality(l, r) => Err(ErrorView::BadEquality(l, r, function)),
    }
}

/// The operand of a branch that jumps back over `length` bytes and over
/// itself: minus `length + 2` as a signed byte.
pub open spec fn backward_offset(length: int) -> u8
    recommends
        0 <= length <= 126,
{
    (256 - (length + 2)) as u8
}

/// The opcode of the branch that is taken when the zero flag is set
/// (`BEQ`), or of the one that is taken when it is clear (`BNE`).
pub open spec fn branch_opcode(on_zero: bool) -> u8 {
    if on_zero {
        0xF0
    } else {
        0xD0
    }
}

/// Emits the test of `condition` and a branch after it. With a `target` the
/// branch goes back to that offset of the code and is taken when the
/// condition holds, if `invert` is false. Without one its operand is still
/// to be written.
pub open spec fn conditional(
    s: State,
    condition: ConditionalView,
    target: Option<usize>,
    invert: bool,
    function: Seq<u8>,
) -> Step {
    match test_of(s.mode, condition, function) {
        Err(e) => refuse(e),
        Ok((test, zero)) => match emit(s, Ok(test), function) {
            Err(h) => Err(h),
            Ok(s1) => {
                let length = match target {
                    Some(t) => s1.code.len() - t,
                    None => 0,
                };
                if length > 126 {
                    refuse(ErrorView::LoopTooLong(function))
                } else {
                    push_code(
                        s1,
                        "Loop CC",
                        function,
                        seq![branch_opcode(invert != zero), backward_offset(length)],
                    )
                }
            },
        },
    }
}

/// The end of a loop without a condition: a short branch back to `start`
/// where it reaches, else a jump to the address of `start`.
pub open spec fn repeat(s: State, start: usize, function: Seq<u8>) -> Step {
    let length = s.code.len() - start;
    if length <= 126 {
        push_code(s, "Loop", function, seq![0x80u8, backward_offset(length)])
    } else {
        push_code(
            s,
            "Loop",
            function,
            seq![0x4Cu8, low_byte(start + BANK_START), high_byte(start + BANK_START)],
        )
    }
}

// ---------------------------------------------------------------------------
// Calls
// ---------------------------------------------------------------------------

/// The call instruction itself, in the callee's mode: to the callee's
/// address, or to address zero with a relocation on the two address bytes.
pub open spec fn jump_to_subroutine(
    s: State,
    target: Seq<u8>,
    address: Option<usize>,
    attributes: Seq<Attribute>,
    function: Seq<u8>,
) -> Step {
    let s1 = match address {
        Some(_) => s,
        None => State {
            relocations: s.relocations.push(
                RelocationView::Function(target, (s.code.len() + 1) as usize),
            ),
            ..s
        },
    };
    let a: int = match address {
        Some(a) => a as int,
        None => 0,
    };
    if attributes.contains(Attribute::Extern) {
        Err(HaltView::ExternCall(target, function))
    } else {
        push_code(s1, "Call", function, seq![0x20u8, low_byte(a), high_byte(a)])
    }
}

/// A call of `target`: the switch to the callee's mode, the call, and the
/// switch back.
pub open spec fn call(s: State, target: Seq<u8>, function: Seq<u8>) -> Step {
    if s.names.contains_key(target) && s.names[target] is Function {
        let address = s.names[target]->Function_0;
        let attributes = s.names[target]->Function_1;
        match enter_block(s, attributes, function) {
            Err(h) => Err(h),
            Ok(s1) => match jump_to_subroutine(s1, target, address, attributes, function) {
                Err(h) => Err(h),
                Ok(s2) => switch_mode(s2, s.mode, function),
            },
        }
    } else {
        refuse(ErrorView::UnknownFunction(target, function))
    }
}

// ---------------------------------------------------------------------------
// Instructions and blocks
// ---------------------------------------------------------------------------

/// Writes the length of an `IF` block into the operand of the branch before
/// it, at `start - 1`, where the length is in reach of a branch.
pub open spec fn close_if(s: State, start: usize, function: Seq<u8>) -> Step {
    let length = s.code.len() - start;
    if length > 127 {
        refuse(ErrorView::IfTooLong(function))
    } else {
        Ok(State { code: s.code.update(start - 1, length as u8), ..s })
    }
}

/// The state after one instruction.
pub open spec fn instruction(s: State, i: InstructionView, function: Seq<u8>) -> Step
    decreases i, 0nat,
{
    match i {
        InstructionView::Assign(l, r) => emit(
            s,
            assignment(s.mode, s.names, l, r, function),
            function,
        ),
        InstructionView::AndAssign(l, r) => emit(
            s,
            combination(s.mode, false, l, r, function),
            function,
        ),
        InstructionView::OrAssign(l, r) => emit(
            s,
            combination(s.mode, true, l, r, function),
            function,
        ),
        InstructionView::Block(b) => scope(s, b, function),
        InstructionView::Call(target) => call(s, target, function),
        InstructionView::If(b, c) => if_block(s, b, c, function),
        InstructionView::Loop(b, c) => do_loop(s, b, c, function),
        InstructionView::Push(o) => emit(s, stack(s.mode, false, o, function), function),
        InstructionView::Pop(o) => emit(s, stack(s.mode, true, o, function), function),
        InstructionView::Cli => emit(s, Ok(bare("Cli", 0x58)), function),
        InstructionView::Sei => emit(s, Ok(bare("Sei", 0x78)), function),
    }
}

/// The state after an `IF`: the test with a branch over the block that is
/// taken when the condition fails, the block, and the length of the block
/// written into the branch.
pub open spec fn if_block(s: State, b: BlockView, c: ConditionalView, function: Seq<u8>) -> Step
    decreases b, 1nat,
{
    match conditional(s, c, None, true, function) {
        Err(h) => Err(h),
        Ok(s1) => match scope(s1, b, function) {
            Err(h) => Err(h),
            Ok(s2) => close_if(s2, s1.code.len() as usize, function),
        },
    }
}

/// The state after a `DO`: the switch to the mode of its block, the
/// instructions of the block, the branch back to the first of them, and the
/// switch back to the mode before the loop.
pub open spec fn do_loop(
    s: State,
    b: BlockView,
    c: Option<ConditionalView>,
    function: Seq<u8>,
) -> Step
    decreases b, 1nat,
{
    match enter_block(s, b.attributes, function) {
        Err(h) => Err(h),
        Ok(s1) => match instructions(s1, b.instructions, b.instructions.len(), function) {
            Err(h) => Err(h),
            Ok(s2) => {
                let end = match c {
                    Some(c) => conditional(s2, c, Some(s1.code.len() as usize), false, function),
                    None => repeat(s2, s1.code.len() as usize, function),
                };
                match end {
                    Err(h) => Err(h),
                    Ok(s3) => switch_mode(s3, s.mode, function),
                }
            },
        },
    }
}

/// The state after a block: the switch to its mode, its instructions, and
/// the switch back to the mode before it.
pub open spec fn scope(s: State, b: BlockView, function: Seq<u8>) -> Step
    decreases b, 0nat,
{
    match enter_block(s, b.attributes, function) {
        Err(h) => Err(h),
        Ok(s1) => match instructions(s1, b.instructions, b.instructions.len(), function) {
            Err(h) => Err(h),
            Ok(s2) => switch_mode(s2, s.mode, function),
        },
    }
}

/// The state after the first `n` instructions of a list.
pub open spec fn instructions(
    s: State,
    list: Seq<InstructionView>,
    n: nat,
    function: Seq<u8>,
) -> Step
    decreases list, n,
{
    if n == 0 || n > list.len() {
        Ok(s)
    } else {
        match instructions(s, list, (n - 1) as nat, function) {
            Err(h) => Err(h),
            Ok(s1) => instruction(s1, list[n - 1], function),
        }
    }
}

} // verus!
