//! The code generator.

use vstd::prelude::*;
use vstd::string::*;
use crate::{image, model};
use crate::ast::{
    bytes_of, Attribute, Block, Conditional, ConditionalView, Definition, DefinitionView, Function,
    Instruction, Operand, Program, Register,
};
use crate::forward::{lemma_addressed_well_formed, lemma_function_sites};
use crate::frame::lemma_push_apart;
use crate::image::{
    addressed_as, finish, functions, has_header, holds_address, image_of, initial_state, registered,
    resolved_code, unresolved,
};
use crate::laws::lemma_conflict_free;
use crate::model::{
    call, combination, conflict_of, do_loop, emulation_shim, first_conflict, if_block, in_code,
    initial_mode, instructions, jump_to_subroutine, push_code, repeat, scope, stack, switch_mode,
    target_mode, test_of, well_formed, width_shim, Encoding, ErrorView, HaltView, Mode,
    RelocationView, State, BANK_CAPACITY, BANK_START, IMAGE_SIZE,
};
use crate::names::{Name, NameTable};
use crate::program::{
    lemma_every_call_resolved, lemma_no_extern_call, lemma_vectors_gated, vectors_gated,
};
use crate::steps::{
    lemma_failure_stays, lemma_first_conflict_stays, lemma_functions_failure_stays,
    lemma_unresolved_none, lemma_unresolved_step,
};
use crate::stop::{
    call_stop, conditional_stop, enter_stop, function_stop, if_stop, instruction_stop,
    instructions_stop, lemma_stop_stays, loop_stop, scope_stop, switch_stop, width_stop,
};
use crate::text::{high, low, same_text};

verus! {

/// A place in the code that waits for an address.
#[derive(Clone, Copy, Debug, PartialEq)]
pub enum Relocation<'a> {
    /// The two address bytes at this offset wait for the address of the
    /// function of this name.
    Function(&'a str, usize),
    /// Reserved for a jump out of a loop. The generator makes none.
    Break(usize),
}

impl<'a> View for Relocation<'a> {
    type V = RelocationView;

    open spec fn view(&self) -> RelocationView {
        match self {
            Relocation::Function(name, offset) => RelocationView::Function(
                bytes_of(name),
                *offset,
            ),
            Relocation::Break(offset) => RelocationView::Break(*offset),
        }
    }
}

/// Why a program is refused. The last string of a variant, but for the last
/// two variants, is the name of the function in which the error was found.
#[derive(Debug, PartialEq)]
pub enum Error<'a> {
    /// An assignment between two operands that no instruction moves a value
    /// between.
    BadAssignment(&'a Operand<'a>, &'a Operand<'a>, &'a str),
    /// An `&=` of anything but the 8-bit accumulator and a number.
    BadAndAssignment(&'a Operand<'a>, &'a Operand<'a>, &'a str),
    /// An `|=` of anything but the 8-bit accumulator and a number.
    BadOrAssignment(&'a Operand<'a>, &'a Operand<'a>, &'a str),
    /// A test of bits between two operands that no instruction tests.
    BadBitTest(&'a Operand<'a>, &'a Operand<'a>, &'a str),
    /// A comparison of anything but the 8-bit accumulator and a number.
    BadEquality(&'a Operand<'a>, &'a Operand<'a>, &'a str),
    /// A push of an operand that cannot be pushed.
    BadPush(&'a Operand<'a>, &'a str),
    /// A pop of an operand that cannot be popped.
    BadPop(&'a Operand<'a>, &'a str),
    /// Two attributes of one list that exclude each other.
    ConflictingAttributes(Attribute, Attribute, &'a str),
    /// The bank is full: the first string names the operation that found no
    /// room.
    NoSpace(&'static str, &'a str),
    /// The body of a loop with a condition is longer than a branch reaches.
    LoopTooLong(&'a str),
    /// The block of an `IF` is longer than a branch reaches.
    IfTooLong(&'a str),
    /// An address of more than 16 bits.
    InvalidAddress(u32, &'a str),
    /// A number that does not fit the register it is meant for.
    InvalidValue(u32, &'a str),
    /// A register under a name that the mode does not admit: the attribute
    /// names the mode.
    InvalidRegister(Register, Attribute, &'a str),
    /// A name used as a variable that is not declared as one.
    UnknownVariable(&'a str, &'a str),
    /// A name called that is not declared as a function.
    UnknownFunction(&'a str, &'a str),
    /// A function with the name of a vector that is no interrupt handler.
    InvalidInterrupt(&'static str),
    /// A call whose callee never got an address. No program is refused for
    /// it: every function that can be called is emitted.
    UnresolvedName(Relocation<'a>),
}

impl<'a> View for Error<'a> {
    type V = ErrorView;

    open spec fn view(&self) -> ErrorView {
        match self {
            Error::BadAssignment(l, r, f) => ErrorView::BadAssignment(l@, r@, bytes_of(f)),
            Error::BadAndAssignment(l, r, f) => ErrorView::BadAndAssignment(
                l@,
                r@,
                bytes_of(f),
            ),
            Error::BadOrAssignment(l, r, f) => ErrorView::BadOrAssignment(l@, r@, bytes_of(f)),
            Error::BadBitTest(l, r, f) => ErrorView::BadBitTest(l@, r@, bytes_of(f)),
            Error::BadEquality(l, r, f) => ErrorView::BadEquality(l@, r@, bytes_of(f)),
            Error::BadPush(o, f) => ErrorView::BadPush(o@, bytes_of(f)),
            Error::BadPop(o, f) => ErrorView::BadPop(o@, bytes_of(f)),
            Error::ConflictingAttributes(a, b, f) => ErrorView::ConflictingAttributes(
                *a,
                *b,
                bytes_of(f),
            ),
            Error::NoSpace(o, f) => ErrorView::NoSpace(bytes_of(o), bytes_of(f)),
            Error::LoopTooLong(f) => ErrorView::LoopTooLong(bytes_of(f)),
            Error::IfTooLong(f) => ErrorView::IfTooLong(bytes_of(f)),
            Error::InvalidAddress(a, f) => ErrorView::InvalidAddress(*a, bytes_of(f)),
            Error::InvalidValue(v, f) => ErrorView::InvalidValue(*v, bytes_of(f)),
            Error::InvalidRegister(r, a, f) => ErrorView::InvalidRegister(*r, *a, bytes_of(f)),
            Error::UnknownVariable(v, f) => ErrorView::UnknownVariable(
                bytes_of(v),
                bytes_of(f),
            ),
            Error::UnknownFunction(t, f) => ErrorView::UnknownFunction(
                bytes_of(t),
                bytes_of(f),
            ),
            Error::InvalidInterrupt(n) => ErrorView::InvalidInterrupt(bytes_of(n)),
            Error::UnresolvedName(r) => ErrorView::UnresolvedName(r@),
        }
    }
}

/// Why code generation stopped.
#[derive(Debug, PartialEq)]
pub enum Halt<'a> {
    /// The program is refused.
    Error(Error<'a>),
    /// The program calls a function that is declared `EXTERN`, which the
    /// generator cannot do: the first field is the callee, the second the
    /// function that holds the call.
    ExternCall(&'a str, &'a str),
}

impl<'a> View for Halt<'a> {
    type V = HaltView;

    open spec fn view(&self) -> HaltView {
        match self {
            Halt::Error(e) => HaltView::Error(e@),
            Halt::ExternCall(target, function) => HaltView::ExternCall(
                bytes_of(target),
                bytes_of(function),
            ),
        }
    }
}

/// The bank that the code is emitted into.
pub struct Bank {
    /// The address at which the processor sees the first byte.
    pub start: usize,
    /// The number of bytes that are free for code.
    pub len: usize,
    /// The code emitted so far.
    pub code: Vec<u8>,
}

impl Bank {
    /// The bank has the fixed place and size, and the code fits into it.
    pub open spec fn wf(&self) -> bool {
        &&& self.start == BANK_START
        &&& self.len == BANK_CAPACITY
        &&& self.code@.len() <= BANK_CAPACITY
    }

    /// Appends `code`, unless it does not fit.
    pub fn push_code<'p>(
        &mut self,
        operation: &'static str,
        function_name: &'p str,
        code: &[u8],
    ) -> (r: Result<(), Halt<'p>>)
        requires
            old(self).wf(),
        ensures
            final(self).wf(),
            match r {
                Ok(()) => {
                    &&& old(self).code@.len() + code@.len() <= BANK_CAPACITY
                    &&& final(self).code@ == old(self).code@ + code@
                    &&& code@.len() == 0 ==> *final(self) == *old(self)
                },
                Err(e) => {
                    &&& old(self).code@.len() + code@.len() > BANK_CAPACITY
                    &&& e@ == HaltView::Error(
                        ErrorView::NoSpace(bytes_of(operation), bytes_of(function_name)),
                    )
                    &&& *final(self) == *old(self)
                },
            },
    {
        if code.len() > self.len - self.code.len() {
            return Err(Halt::Error(Error::NoSpace(operation, function_name)));
        }
        if code.len() > 0 {
            self.code.extend_from_slice(code);
        } else {
            assert(self.code@ + code@ =~= self.code@);
        }
        Ok(())
    }
}

/// The state of the generator: the bank, the mode that the code emitted
/// next will run in, the name table, and the calls that wait for the address
/// of their callee.
pub struct Context<'a> {
    pub bank: Bank,
    pub emulation: bool,
    pub wide_math: bool,
    pub wide_index: bool,
    pub names: NameTable<'a>,
    pub relocations: Vec<Relocation<'a>>,
}

impl<'a> View for Context<'a> {
    type V = State;

    open spec fn view(&self) -> State {
        State {
            code: self.bank.code@,
            mode: self.mode(),
            names: self.names@,
            relocations: self.relocations@.map_values(|r: Relocation<'a>| r@),
        }
    }
}

impl<'a> Context<'a> {
    /// The mode that the code emitted next will run in.
    pub open spec fn mode(&self) -> Mode {
        Mode { emulation: self.emulation, wide_math: self.wide_math, wide_index: self.wide_index }
    }

    /// The invariant of the generator.
    pub open spec fn wf(&self) -> bool {
        &&& self.bank.wf()
        &&& well_formed(self@)
    }

    /// The invariant holds, and no code has been taken away since `before`.
    pub open spec fn succeeds(&self, before: &Self) -> bool {
        &&& self.wf()
        &&& before.bank.code@.len() <= self.bank.code@.len()
    }

    /// The generator before anything is emitted: an empty bank, the initial
    /// mode, no names and no relocations.
    pub fn new() -> (r: Self)
        ensures
            r.wf(),
            r@ == (State {
                code: Seq::empty(),
                mode: initial_mode(),
                names: Map::empty(),
                relocations: Seq::empty(),
            }),
            r.bank.code@.len() == 0,
            r.relocations@.len() == 0,
    {
        let r = Context {
            bank: Bank { start: BANK_START, len: BANK_CAPACITY, code: Vec::new() },
            emulation: false,
            wide_math: false,
            wide_index: false,
            names: NameTable::new(),
            relocations: Vec::new(),
        };
        assert(r@.code =~= Seq::<u8>::empty());
        assert(r@.relocations =~= Seq::<RelocationView>::empty());
        r
    }

    /// What holds of the generator after a step that emits code, failed or
    /// not, with the generator `before` the step: the bank is in its place
    /// and the code fits into it, no code is taken away, and where none is
    /// added, nothing is changed.
    pub open spec fn follows(&self, before: &Self) -> bool {
        &&& self.bank.wf()
        &&& before.bank.code@.len() <= self.bank.code@.len()
        &&& before.bank.code@.len() == self.bank.code@.len() ==> *self == *before
    }

    /// Appends `code` to the bank.
    pub fn push(&mut self, operation: &'static str, function_name: &'a str, code: &[u8]) -> (r:
        Result<(), Halt<'a>>)
        requires
            old(self).wf(),
        ensures
            final(self).follows(old(self)),
            match r {
                Ok(()) => final(self).succeeds(old(self)) && push_code(
                    old(self)@,
                    operation,
                    bytes_of(function_name),
                    code@,
                ) == Ok::<State, HaltView>(final(self)@),
                Err(e) => {
                    &&& push_code(
                        old(self)@,
                        operation,
                        bytes_of(function_name),
                        code@,
                    ) == Err::<State, HaltView>(e@)
                    &&& *final(self) == *old(self)
                },
            },
    {
        self.bank.push_code(operation, function_name, code)
    }
}

/// Whether a list of attributes holds `a`.
pub(crate) fn has_attribute(attributes: &Vec<Attribute>, a: Attribute) -> (r: bool)
    ensures
        r == attributes@.contains(a),
{
    let mut i: usize = 0;
    while i < attributes.len()
        invariant
            0 <= i <= attributes@.len(),
            forall|j: int| 0 <= j < i ==> attributes@[j] != a,
        decreases attributes@.len() - i,
    {
        if attributes[i] == a {
            return true;
        }
        i += 1;
    }
    false
}

/// The pair that is reported for the attribute `a` of a list, if the list
/// holds an attribute that excludes it.
fn find_conflict(a: Attribute, attributes: &Vec<Attribute>) -> (r: Option<(Attribute, Attribute)>)
    ensures
        r == conflict_of(a, attributes@),
{
    match a {
        Attribute::Emulation => {
            if has_attribute(attributes, Attribute::Native) {
                Some((Attribute::Emulation, Attribute::Native))
            } else if has_attribute(attributes, Attribute::WideIndex) {
                Some((Attribute::NarrowIndex, Attribute::WideIndex))
            } else if has_attribute(attributes, Attribute::WideMath) {
                Some((Attribute::NarrowMath, Attribute::WideMath))
            } else {
                None
            }
        },
        Attribute::NarrowIndex => {
            if has_attribute(attributes, Attribute::WideIndex) {
                Some((Attribute::NarrowIndex, Attribute::WideIndex))
            } else {
                None
            }
        },
        Attribute::NarrowMath => {
            if has_attribute(attributes, Attribute::WideMath) {
                Some((Attribute::NarrowMath, Attribute::WideMath))
            } else {
                None
            }
        },
        Attribute::Native => {
            if has_attribute(attributes, Attribute::Emulation) {
                Some((Attribute::Native, Attribute::Emulation))
            } else {
                None
            }
        },
        Attribute::WideIndex => {
            if has_attribute(attributes, Attribute::NarrowIndex) {
                Some((Attribute::WideIndex, Attribute::NarrowIndex))
            } else if has_attribute(attributes, Attribute::Emulation) {
                Some((Attribute::Native, Attribute::Emulation))
            } else {
                None
            }
        },
        Attribute::WideMath => {
            if has_attribute(attributes, Attribute::NarrowMath) {
                Some((Attribute::WideMath, Attribute::NarrowMath))
            } else if has_attribute(attributes, Attribute::Emulation) {
                Some((Attribute::Native, Attribute::Emulation))
            } else {
                None
            }
        },
        Attribute::Interrupt => {
            if has_attribute(attributes, Attribute::Extern) {
                Some((Attribute::Interrupt, Attribute::Extern))
            } else {
                None
            }
        },
        Attribute::Extern => {
            if has_attribute(attributes, Attribute::Interrupt) {
                Some((Attribute::Extern, Attribute::Interrupt))
            } else {
                None
            }
        },
    }
}

/// Refuses a list of attributes that holds two which exclude each other,
/// and else changes the mode to the one that the list asks for. Emits
/// nothing; where the list is refused, the generator is as it was.
pub fn update_codegen<'p>(
    context: &mut Context<'p>,
    attributes: &Vec<Attribute>,
    function_name: &'p str,
) -> (r: Result<(), Halt<'p>>)
    ensures
        match r {
            Ok(()) => {
                &&& first_conflict(attributes@, attributes@.len()) is None
                &&& final(context).mode() == target_mode(old(context).mode(), attributes@)
                &&& final(context).bank == old(context).bank
                &&& final(context).names == old(context).names
                &&& final(context).relocations == old(context).relocations
            },
            Err(e) => {
                &&& first_conflict(attributes@, attributes@.len()) matches Some((a, b))
                &&& e@ == HaltView::Error(
                    ErrorView::ConflictingAttributes(a, b, bytes_of(function_name)),
                )
                &&& *final(context) == *old(context)
            },
        },
{
    let mut i: usize = 0;
    while i < attributes.len()
        invariant
            0 <= i <= attributes@.len(),
            first_conflict(attributes@, i as nat) is None,
        decreases attributes@.len() - i,
    {
        match find_conflict(attributes[i], attributes) {
            Some((a, b)) => {
                proof {
                    lemma_first_conflict_stays(attributes@, (i + 1) as nat, attributes@.len());
                }
                return Err(Halt::Error(Error::ConflictingAttributes(a, b, function_name)));
            },
            None => {},
        }
        i += 1;
    }
    if has_attribute(attributes, Attribute::Emulation) {
        context.emulation = true;
        context.wide_math = false;
        context.wide_index = false;
    } else {
        if has_attribute(attributes, Attribute::Native) {
            context.emulation = false;
        }
        if has_attribute(attributes, Attribute::WideMath) {
            context.emulation = false;
            context.wide_math = true;
        } else if has_attribute(attributes, Attribute::NarrowMath) {
            context.wide_math = false;
        }
        if has_attribute(attributes, Attribute::WideIndex) {
            context.emulation = false;
            context.wide_index = true;
        } else if has_attribute(attributes, Attribute::NarrowIndex) {
            context.wide_index = false;
        }
    }
    proof {
        lemma_conflict_free(attributes@);
    }
    Ok(())
}

/// Emits the instructions that toggle emulation, where the mode differs in
/// it from `emulation`. Where they find no room, the generator is as it
/// was.
pub fn update_emulation<'p>(
    context: &mut Context<'p>,
    emulation: bool,
    function_name: &'p str,
) -> (r: Result<(), Halt<'p>>)
    requires
        old(context).wf(),
    ensures
        final(context).follows(old(context)),
        match r {
            Ok(()) => final(context).succeeds(old(context)) && emulation_shim(
                old(context)@,
                emulation,
                bytes_of(function_name),
            ) == Ok::<State, HaltView>(final(context)@),
            Err(e) => {
                &&& emulation_shim(
                    old(context)@,
                    emulation,
                    bytes_of(function_name),
                ) == Err::<State, HaltView>(e@)
                &&& *final(context) == *old(context)
            },
        },
{
    if emulation != context.emulation {
        if context.emulation {
            context.push("Enable Emulation", function_name, &[0x38, 0xFB])
        } else {
            context.push("Disable Emulation", function_name, &[0x18, 0xFB])
        }
    } else {
        Ok(())
    }
}

/// Emits the instructions that set the widths of the accumulator and of the
/// index registers, where the mode differs in them from `wide_math` and
/// `wide_index`. Where the second of two finds no room, the first stays.
pub fn update_mx<'p>(
    context: &mut Context<'p>,
    wide_math: bool,
    wide_index: bool,
    function_name: &'p str,
) -> (r: Result<(), Halt<'p>>)
    requires
        old(context).wf(),
    ensures
        final(context).follows(old(context)),
        match r {
            Ok(()) => final(context).succeeds(old(context)) && width_shim(
                old(context)@,
                wide_math,
                wide_index,
                bytes_of(function_name),
            ) == Ok::<State, HaltView>(final(context)@),
            Err(e) => {
                &&& width_shim(
                    old(context)@,
                    wide_math,
                    wide_index,
                    bytes_of(function_name),
                ) == Err::<State, HaltView>(e@)
                &&& final(context)@ == width_stop(
                    old(context)@,
                    wide_math,
                    bytes_of(function_name),
                )
            },
        },
{
    if context.wide_math != wide_math && context.wide_math == context.wide_index {
        if context.wide_math {
            context.push("Enable Wide Math + Index", function_name, &[0xC2, 0x30])
        } else {
            context.push("Disable wide math + index", function_name, &[0xE2, 0x30])
        }
    } else {
        if wide_math != context.wide_math {
            let r = if context.wide_math {
                context.push("Enable Wide Math", function_name, &[0xC2, 0x20])
            } else {
                context.push("Disable Wide Math", function_name, &[0xE2, 0x20])
            };
            match r {
                Err(e) => {
                    return Err(e);
                },
                Ok(()) => {},
            }
        }
        if wide_index != context.wide_index {
            if context.wide_index {
                context.push("Enable Wide Index", function_name, &[0xC2, 0x10])
            } else {
                context.push("Disable Wide Index", function_name, &[0xE2, 0x10])
            }
        } else {
            Ok(())
        }
    }
}

/// Enters a block: refuses conflicting attributes, then switches to the
/// block's mode and emits the instructions that take the processor there.
fn enter_block<'p>(
    context: &mut Context<'p>,
    attributes: &Vec<Attribute>,
    function_name: &'p str,
) -> (r: Result<(), Halt<'p>>)
    requires
        old(context).wf(),
    ensures
        final(context).follows(old(context)),
        match r {
            Ok(()) => final(context).succeeds(old(context)) && model::enter_block(
                old(context)@,
                attributes@,
                bytes_of(function_name),
            ) == Ok::<State, HaltView>(final(context)@),
            Err(e) => {
                &&& model::enter_block(
                    old(context)@,
                    attributes@,
                    bytes_of(function_name),
                ) == Err::<State, HaltView>(e@)
                &&& final(context)@ == enter_stop(
                    old(context)@,
                    attributes@,
                    bytes_of(function_name),
                )
            },
        },
{
    let emulation = context.emulation;
    let wide_math = context.wide_math;
    let wide_index = context.wide_index;
    match update_codegen(context, attributes, function_name) {
        Err(e) => {
            return Err(e);
        },
        Ok(()) => {},
    }
    let r = match update_emulation(context, emulation, function_name) {
        Err(e) => Err(e),
        Ok(()) => update_mx(context, wide_math, wide_index, function_name),
    };
    if r.is_err() {
        context.emulation = emulation;
        context.wide_math = wide_math;
        context.wide_index = wide_index;
    }
    r
}

/// Leaves a block: switches back to the mode `saved` and emits the
/// instructions that take the processor there.
fn leave_block<'p>(context: &mut Context<'p>, saved: Mode, function_name: &'p str) -> (r:
    Result<(), Halt<'p>>)
    requires
        old(context).wf(),
    ensures
        final(context).follows(old(context)),
        match r {
            Ok(()) => final(context).succeeds(old(context)) && switch_mode(
                old(context)@,
                saved,
                bytes_of(function_name),
            ) == Ok::<State, HaltView>(final(context)@),
            Err(e) => {
                &&& switch_mode(
                    old(context)@,
                    saved,
                    bytes_of(function_name),
                ) == Err::<State, HaltView>(e@)
                &&& final(context)@ == switch_stop(old(context)@, saved, bytes_of(function_name))
            },
        },
{
    let emulation = context.emulation;
    let wide_math = context.wide_math;
    let wide_index = context.wide_index;
    context.emulation = saved.emulation;
    context.wide_math = saved.wide_math;
    context.wide_index = saved.wide_index;
    let r = match update_emulation(context, emulation, function_name) {
        Err(e) => Err(e),
        Ok(()) => update_mx(context, wide_math, wide_index, function_name),
    };
    if r.is_err() {
        context.emulation = emulation;
        context.wide_math = wide_math;
        context.wide_index = wide_index;
    }
    r
}

/// An instruction ready to be appended: the name of the operation, for the
/// error that reports a full bank, and its bytes.
struct Encoded {
    operation: &'static str,
    bytes: Vec<u8>,
}

impl View for Encoded {
    type V = Encoding;

    closed spec fn view(&self) -> Encoding {
        Encoding { operation: bytes_of(self.operation), bytes: self.bytes@ }
    }
}

/// An opcode without an operand.
fn bare(operation: &'static str, opcode: u8) -> (r: Encoded)
    ensures
        r@ == model::bare(operation, opcode),
{
    let bytes = vec![opcode];
    assert(bytes@ =~= seq![opcode]);
    Encoded { operation, bytes }
}

/// An opcode followed by one byte of `value`.
fn with_byte(operation: &'static str, opcode: u8, value: u32) -> (r: Encoded)
    ensures
        r@ == model::with_byte(operation, opcode, value),
{
    Encoded { operation, bytes: vec![opcode, low(value as usize)] }
}

/// An opcode followed by the two low bytes of `value`, the lower first.
fn with_word(operation: &'static str, opcode: u8, value: u32) -> (r: Encoded)
    ensures
        r@ == model::with_word(operation, opcode, value),
{
    Encoded { operation, bytes: vec![opcode, low(value as usize), high(value as usize)] }
}

/// An instruction that takes the 16-bit address `address`.
fn absolute<'p>(operation: &'static str, opcode: u8, address: u32, function_name: &'p str) -> (r:
    Result<Encoded, Error<'p>>)
    ensures
        match r {
            Ok(e) => model::absolute(operation, opcode, address, bytes_of(function_name))
                == Ok::<Encoding, ErrorView>(e@),
            Err(e) => model::absolute(operation, opcode, address, bytes_of(function_name))
                == Err::<Encoding, ErrorView>(e@),
        },
{
    if address > 0xFFFF {
        Err(Error::InvalidAddress(address, function_name))
    } else {
        Ok(with_word(operation, opcode, address))
    }
}

/// An instruction that takes the address of the variable `name`.
fn on_variable<'p>(
    names: &NameTable<'p>,
    operation: &'static str,
    opcode: u8,
    name: &'p str,
    function_name: &'p str,
) -> (r: Result<Encoded, Error<'p>>)
    ensures
        match r {
            Ok(e) => model::on_variable(
                names@,
                operation,
                opcode,
                bytes_of(name),
                bytes_of(function_name),
            ) == Ok::<Encoding, ErrorView>(e@),
            Err(e) => model::on_variable(
                names@,
                operation,
                opcode,
                bytes_of(name),
                bytes_of(function_name),
            ) == Err::<Encoding, ErrorView>(e@),
        },
{
    match names.get(name) {
        Some(Name::Var(address)) => absolute(operation, opcode, address, function_name),
        _ => Err(Error::UnknownVariable(name, function_name)),
    }
}

/// An instruction on the 8-bit accumulator with an immediate operand.
fn narrow_immediate<'p>(
    wide_math: bool,
    operation: &'static str,
    opcode: u8,
    value: u32,
    function_name: &'p str,
) -> (r: Result<Encoded, Error<'p>>)
    ensures
        forall|m: Mode|
            m.wide_math == wide_math ==> match r {
                Ok(e) => #[trigger] model::narrow_immediate(
                    m,
                    operation,
                    opcode,
                    value,
                    bytes_of(function_name),
                ) == Ok::<Encoding, ErrorView>(e@),
                Err(e) => model::narrow_immediate(
                    m,
                    operation,
                    opcode,
                    value,
                    bytes_of(function_name),
                ) == Err::<Encoding, ErrorView>(e@),
            },
{
    if wide_math {
        Err(Error::InvalidRegister(Register::A, Attribute::WideMath, function_name))
    } else if value > 0xFF {
        Err(Error::InvalidValue(value, function_name))
    } else {
        Ok(with_byte(operation, opcode, value))
    }
}

/// The encoding of `destination := source`.
fn encode_assignment<'p>(
    context: &Context<'p>,
    destination: &'p Operand<'p>,
    source: &'p Operand<'p>,
    function_name: &'p str,
) -> (r: Result<Encoded, Error<'p>>)
    ensures
        match r {
            Ok(e) => model::assignment(
                context.mode(),
                context.names@,
                destination@,
                source@,
                bytes_of(function_name),
            ) == Ok::<Encoding, ErrorView>(e@),
            Err(e) => model::assignment(
                context.mode(),
                context.names@,
                destination@,
                source@,
                bytes_of(function_name),
            ) == Err::<Encoding, ErrorView>(e@),
        },
{
    match (destination, source) {
        (Operand::Register(Register::A), Operand::Immediate(value)) => narrow_immediate(
            context.wide_math,
            "Load A",
            0xA9,
            *value,
            function_name,
        ),
        (Operand::Register(Register::A), Operand::Variable(name)) => {
            if context.wide_math {
                Err(Error::InvalidRegister(Register::A, Attribute::WideMath, function_name))
            } else {
                on_variable(&context.names, "Load A", 0xAD, name, function_name)
            }
        },
        (Operand::Register(Register::C), Operand::Immediate(value)) => {
            if !context.wide_math {
                Err(Error::InvalidRegister(Register::C, Attribute::NarrowMath, function_name))
            } else if *value > 0xFFFF {
                Err(Error::InvalidValue(*value, function_name))
            } else {
                Ok(with_word("Load C", 0xA9, *value))
            }
        },
        (Operand::Register(Register::C), Operand::Variable(name)) => {
            if !context.wide_math {
                Err(Error::InvalidRegister(Register::C, Attribute::NarrowMath, function_name))
            } else {
                on_variable(&context.names, "Load A", 0xAD, name, function_name)
            }
        },
        (Operand::Register(Register::D), Operand::Register(Register::C)) => Ok(
            bare("Transfer C to D", 0x5B),
        ),
        (Operand::Register(Register::S), Operand::Register(Register::C)) => Ok(
            bare("Transfer C to S", 0x1B),
        ),
        (Operand::Register(Register::X), Operand::Immediate(value)) => {
            if context.wide_index {
                if *value > 0xFFFF {
                    Err(Error::InvalidValue(*value, function_name))
                } else {
                    Ok(with_word("Load X imm", 0xA2, *value))
                }
            } else {
                if *value > 0xFF {
                    Err(Error::InvalidValue(*value, function_name))
                } else {
                    Ok(with_byte("Load X imm", 0xA2, *value))
                }
            }
        },
        (Operand::Register(Register::X), Operand::Variable(name)) => on_variable(
            &context.names,
            "Load X abs",
            0xAE,
            name,
            function_name,
        ),
        (Operand::Absolute(address), Operand::Register(Register::A)) => absolute(
            "Store A",
            0x8D,
            *address,
            function_name,
        ),
        (Operand::Absolute(address), Operand::Immediate(0)) => absolute(
            "Store Zero",
            0x9C,
            *address,
            function_name,
        ),
        (Operand::Variable(name), Operand::Register(Register::A)) => on_variable(
            &context.names,
            "Store A",
            0x8D,
            name,
            function_name,
        ),
        (Operand::Variable(name), Operand::Register(Register::X)) => on_variable(
            &context.names,
            "Store X",
            0x8E,
            name,
            function_name,
        ),
        (Operand::Variable(name), Operand::Immediate(0)) => on_variable(
            &context.names,
            "Store Zero",
            0x9C,
            name,
            function_name,
        ),
        _ => Err(Error::BadAssignment(destination, source, function_name)),
    }
}

/// The encoding of `destination &= source` or of `destination |= source`.
fn encode_combination<'p>(
    context: &Context<'p>,
    or: bool,
    destination: &'p Operand<'p>,
    source: &'p Operand<'p>,
    function_name: &'p str,
) -> (r: Result<Encoded, Error<'p>>)
    ensures
        match r {
            Ok(e) => combination(
                context.mode(),
                or,
                destination@,
                source@,
                bytes_of(function_name),
            ) == Ok::<Encoding, ErrorView>(e@),
            Err(e) => combination(
                context.mode(),
                or,
                destination@,
                source@,
                bytes_of(function_name),
            ) == Err::<Encoding, ErrorView>(e@),
        },
{
    match (destination, source) {
        (Operand::Register(Register::A), Operand::Immediate(value)) => {
            if or {
                narrow_immediate(context.wide_math, "Or A imm", 0x09, *value, function_name)
            } else {
                narrow_immediate(context.wide_math, "And A imm", 0x29, *value, function_name)
            }
        },
        _ => {
            if or {
                Err(Error::BadOrAssignment(destination, source, function_name))
            } else {
                Err(Error::BadAndAssignment(destination, source, function_name))
            }
        },
    }
}

/// The encoding of `PUSH operand`, or of `POP operand`.
fn encode_stack<'p>(
    context: &Context<'p>,
    pop: bool,
    operand: &'p Operand<'p>,
    function_name: &'p str,
) -> (r: Result<Encoded, Error<'p>>)
    ensures
        match r {
            Ok(e) => stack(context.mode(), pop, operand@, bytes_of(function_name)) == Ok::<
                Encoding,
                ErrorView,
            >(e@),
            Err(e) => stack(context.mode(), pop, operand@, bytes_of(function_name)) == Err::<
                Encoding,
                ErrorView,
            >(e@),
        },
{
    match operand {
        Operand::Register(Register::A) => {
            if context.wide_math {
                Err(Error::InvalidRegister(Register::A, Attribute::NarrowMath, function_name))
            } else if pop {
                Ok(bare("PLA", 0x68))
            } else {
                Ok(bare("PHA", 0x48))
            }
        },
        Operand::Register(Register::C) => {
            if !context.wide_math {
                Err(Error::InvalidRegister(Register::C, Attribute::NarrowMath, function_name))
            } else if pop {
                Ok(bare("PLA", 0x68))
            } else {
                Ok(bare("PHA", 0x48))
            }
        },
        Operand::Register(Register::X) => {
            if pop {
                Ok(bare("PLX", 0xFA))
            } else {
                Ok(bare("PHX", 0xDA))
            }
        },
        Operand::Register(Register::Y) => {
            if pop {
                Ok(bare("PLY", 0x7A))
            } else {
                Ok(bare("PHY", 0x5A))
            }
        },
        _ => {
            if pop {
                Err(Error::BadPop(operand, function_name))
            } else {
                Err(Error::BadPush(operand, function_name))
            }
        },
    }
}

/// The view of the outcome of an encoder.
spec fn encoded_view(r: Result<Encoded, Error<'_>>) -> Result<Encoding, ErrorView> {
    match r {
        Ok(e) => Ok(e@),
        Err(e) => Err(e@),
    }
}

/// Appends an encoded instruction, or refuses the program with the error
/// found while encoding it.
fn emit<'p>(
    context: &mut Context<'p>,
    encoded: Result<Encoded, Error<'p>>,
    function_name: &'p str,
) -> (r: Result<(), Halt<'p>>)
    requires
        old(context).wf(),
    ensures
        final(context).follows(old(context)),
        match r {
            Ok(()) => final(context).succeeds(old(context)) && model::emit(
                old(context)@,
                encoded_view(encoded),
                bytes_of(function_name),
            ) == Ok::<State, HaltView>(final(context)@),
            Err(e) => {
                &&& model::emit(
                    old(context)@,
                    encoded_view(encoded),
                    bytes_of(function_name),
                ) == Err::<State, HaltView>(e@)
                &&& *final(context) == *old(context)
            },
        },
{
    match encoded {
        Ok(e) => context.push(e.operation, function_name, e.bytes.as_slice()),
        Err(e) => Err(Halt::Error(e)),
    }
}

/// The instruction that tests a condition, and whether the zero flag is set
/// after it when the condition holds.
fn encode_test<'p>(
    context: &Context<'p>,
    conditional: &'p Conditional<'p>,
    function_name: &'p str,
) -> (r: Result<(Encoded, bool), Error<'p>>)
    ensures
        match r {
            Ok((e, zero)) => test_of(context.mode(), conditional@, bytes_of(function_name))
                == Ok::<(Encoding, bool), ErrorView>((e@, zero)),
            Err(e) => test_of(context.mode(), conditional@, bytes_of(function_name)) == Err::<
                (Encoding, bool),
                ErrorView,
            >(e@),
        },
{
    match conditional {
        Conditional::NotBitTest(Operand::Register(Register::A), Operand::Immediate(value)) => {
            match narrow_immediate(context.wide_math, "BIT A imm", 0x89, *value, function_name) {
                Ok(e) => Ok((e, true)),
                Err(e) => Err(e),
            }
        },
        Conditional::NotBitTest(l, r) => Err(Error::BadBitTest(l, r, function_name)),
        Conditional::BitTest(Operand::Register(Register::A), Operand::Immediate(value)) => {
            match narrow_immediate(context.wide_math, "BIT A imm", 0x89, *value, function_name) {
                Ok(e) => Ok((e, false)),
                Err(e) => Err(e),
            }
        },
        Conditional::BitTest(Operand::Register(Register::C), Operand::Immediate(value)) => {
            if !context.wide_math {
                Err(Error::InvalidRegister(Register::C, Attribute::WideMath, function_name))
            } else if *value > 0xFFFF {
                Err(Error::InvalidValue(*value, function_name))
            } else {
                Ok((with_word("BIT A imm", 0x89, *value), false))
            }
        },
        Conditional::BitTest(l, r) => Err(Error::BadBitTest(l, r, function_name)),
        Conditional::Equality(Operand::Register(Register::A), Operand::Immediate(value)) => {
            match narrow_immediate(context.wide_math, "CMP A imm", 0xC9, *value, function_name) {
                Ok(e) => Ok((e, true)),
                Err(e) => Err(e),
            }
        },
        Conditional::Equality(l, r) => Err(Error::BadEquality(l, r, function_name)),
    }
}

/// Emits the test of a condition and a branch after it. With a `target` the
/// branch goes back to that offset of the code and is taken when the
/// condition holds, if `invert` is false. Without one its operand is still
/// to be written. A condition that cannot be encoded emits nothing; where
/// the branch is refused, the test stays.
pub fn assemble_conditional<'p>(
    context: &mut Context<'p>,
    conditional: &'p Conditional<'p>,
    target: Option<usize>,
    invert: bool,
    function_name: &'p str,
) -> (r: Result<(), Halt<'p>>)
    requires
        old(context).wf(),
        target matches Some(t) ==> t <= old(context).bank.code@.len(),
    ensures
        final(context).follows(old(context)),
        match r {
            Ok(()) => final(context).succeeds(old(context)) && model::conditional(
                old(context)@,
                conditional@,
                target,
                invert,
                bytes_of(function_name),
            ) == Ok::<State, HaltView>(final(context)@) && old(context).bank.code@.len() + 2
                <= final(context).bank.code@.len(),
            Err(e) => {
                &&& model::conditional(
                    old(context)@,
                    conditional@,
                    target,
                    invert,
                    bytes_of(function_name),
                ) == Err::<State, HaltView>(e@)
                &&& final(context)@ == conditional_stop(
                    old(context)@,
                    conditional@,
                    bytes_of(function_name),
                )
            },
        },
{
    let (test, zero) = match encode_test(context, conditional, function_name) {
        Ok(pair) => pair,
        Err(e) => {
            return Err(Halt::Error(e));
        },
    };
    match context.push(test.operation, function_name, test.bytes.as_slice()) {
        Err(e) => {
            return Err(e);
        },
        Ok(()) => {},
    }
    let length: usize = match target {
        Some(t) => context.bank.code.len() - t,
        None => 0,
    };
    if length > 126 {
        return Err(Halt::Error(Error::LoopTooLong(function_name)));
    }
    let opcode: u8 = if invert != zero {
        0xF0
    } else {
        0xD0
    };
    let offset = (256 - (length + 2)) as u8;
    context.push("Loop CC", function_name, &[opcode, offset])
}

/// Emits the end of a loop without a condition: a short branch back to
/// `start` where it reaches, else a jump to the address of `start`.
fn assemble_repeat<'p>(context: &mut Context<'p>, start: usize, function_name: &'p str) -> (r:
    Result<(), Halt<'p>>)
    requires
        old(context).wf(),
        start <= old(context).bank.code@.len(),
    ensures
        final(context).follows(old(context)),
        match r {
            Ok(()) => final(context).succeeds(old(context)) && repeat(
                old(context)@,
                start,
                bytes_of(function_name),
            ) == Ok::<State, HaltView>(final(context)@),
            Err(e) => {
                &&& repeat(
                    old(context)@,
                    start,
                    bytes_of(function_name),
                ) == Err::<State, HaltView>(e@)
                &&& *final(context) == *old(context)
            },
        },
{
    let length = context.bank.code.len() - start;
    if length <= 126 {
        let offset = (256 - (length + 2)) as u8;
        context.push("Loop", function_name, &[0x80, offset])
    } else {
        let address = start + context.bank.start;
        context.push("Loop", function_name, &[0x4C, low(address), high(address)])
    }
}

/// Emits the call instruction itself, in the callee's mode: to the callee's
/// address, or to address zero with a relocation on the two address bytes.
fn assemble_jump<'p>(
    context: &mut Context<'p>,
    target: &'p str,
    address: Option<usize>,
    attributes: &Vec<Attribute>,
    function_name: &'p str,
) -> (r: Result<(), Halt<'p>>)
    requires
        old(context).wf(),
    ensures
        final(context).follows(old(context)),
        match r {
            Ok(()) => final(context).succeeds(old(context)) && jump_to_subroutine(
                old(context)@,
                bytes_of(target),
                address,
                attributes@,
                bytes_of(function_name),
            ) == Ok::<State, HaltView>(final(context)@),
            Err(e) => {
                &&& jump_to_subroutine(
                    old(context)@,
                    bytes_of(target),
                    address,
                    attributes@,
                    bytes_of(function_name),
                ) == Err::<State, HaltView>(e@)
                &&& *final(context) == *old(context)
            },
        },
{
    if has_attribute(attributes, Attribute::Extern) {
        return Err(Halt::ExternCall(target, function_name));
    }
    let ghost before = context@;
    let site = Relocation::Function(target, context.bank.code.len() + 1);
    let a: usize = match address {
        Some(a) => a,
        None => 0,
    };
    match context.push("Call", function_name, &[0x20, low(a), high(a)]) {
        Err(e) => {
            return Err(e);
        },
        Ok(()) => {},
    }
    if address.is_none() {
        context.relocations.push(site);
        proof {
            assert(context@.relocations =~= before.relocations.push(site@));
            assert forall|i: int| 0 <= i < before.relocations.len() implies in_code(
                #[trigger] before.relocations[i],
                before.code.len(),
            ) by {}
            lemma_push_apart(before.relocations, site@, before.code.len());
        }
    }
    Ok(())
}

/// Emits a call of `target`: the switch to the callee's mode, the call, and
/// the switch back.
fn assemble_call<'p>(context: &mut Context<'p>, target: &'p str, function_name: &'p str) -> (r:
    Result<(), Halt<'p>>)
    requires
        old(context).wf(),
    ensures
        final(context).follows(old(context)),
        match r {
            Ok(()) => final(context).succeeds(old(context)) && call(
                old(context)@,
                bytes_of(target),
                bytes_of(function_name),
            ) == Ok::<State, HaltView>(final(context)@),
            Err(e) => {
                &&& call(
                    old(context)@,
                    bytes_of(target),
                    bytes_of(function_name),
                ) == Err::<State, HaltView>(e@)
                &&& final(context)@ == call_stop(
                    old(context)@,
                    bytes_of(target),
                    bytes_of(function_name),
                )
            },
        },
{
    match context.names.get(target) {
        Some(Name::Function(address, attributes)) => {
            let saved = Mode {
                emulation: context.emulation,
                wide_math: context.wide_math,
                wide_index: context.wide_index,
            };
            match enter_block(context, attributes, function_name) {
                Err(e) => {
                    return Err(e);
                },
                Ok(()) => {},
            }
            match assemble_jump(context, target, address, attributes, function_name) {
                Err(e) => {
                    return Err(e);
                },
                Ok(()) => {},
            }
            leave_block(context, saved, function_name)
        },
        _ => Err(Halt::Error(Error::UnknownFunction(target, function_name))),
    }
}

/// Writes the length of an `IF` block into the operand of the branch before
/// it, at `start - 1`, where the length is in reach of a branch.
fn close_if<'p>(context: &mut Context<'p>, start: usize, function_name: &'p str) -> (r: Result<
    (),
    Halt<'p>,
>)
    requires
        old(context).wf(),
        1 <= start <= old(context).bank.code@.len(),
    ensures
        match r {
            Ok(()) => final(context).succeeds(old(context)) && model::close_if(
                old(context)@,
                start,
                bytes_of(function_name),
            ) == Ok::<State, HaltView>(final(context)@),
            Err(e) => {
                &&& model::close_if(
                    old(context)@,
                    start,
                    bytes_of(function_name),
                ) == Err::<State, HaltView>(e@)
                &&& *final(context) == *old(context)
            },
        },
{
    let length = context.bank.code.len() - start;
    if length > 127 {
        return Err(Halt::Error(Error::IfTooLong(function_name)));
    }
    context.bank.code.set(start - 1, length as u8);
    Ok(())
}

/// Emits one instruction. Where it fails, what was emitted before the
/// failure stays and nothing is emitted after it; an instruction that is
/// refused before anything is emitted leaves the generator as it was.
pub fn assemble_instruction<'p>(
    context: &mut Context<'p>,
    instruction: &'p Instruction<'p>,
    function_name: &'p str,
) -> (r: Result<(), Halt<'p>>)
    requires
        old(context).wf(),
    ensures
        final(context).follows(old(context)),
        match r {
            Ok(()) => final(context).succeeds(old(context)) && model::instruction(
                old(context)@,
                instruction@,
                bytes_of(function_name),
            ) == Ok::<State, HaltView>(final(context)@),
            Err(e) => {
                &&& model::instruction(
                    old(context)@,
                    instruction@,
                    bytes_of(function_name),
                ) == Err::<State, HaltView>(e@)
                &&& final(context)@ == instruction_stop(
                    old(context)@,
                    instruction@,
                    bytes_of(function_name),
                )
            },
        },
    decreases instruction, 0nat,
{
    match instruction {
        Instruction::Assign(l, r) => {
            let encoded = encode_assignment(context, l, r, function_name);
            emit(context, encoded, function_name)
        },
        Instruction::AndAssign(l, r) => {
            let encoded = encode_combination(context, false, l, r, function_name);
            emit(context, encoded, function_name)
        },
        Instruction::OrAssign(l, r) => {
            let encoded = encode_combination(context, true, l, r, function_name);
            emit(context, encoded, function_name)
        },
        Instruction::Block(block) => assemble_block(context, block, function_name),
        Instruction::Call(target) => assemble_call(context, target, function_name),
        Instruction::If(block, cond) => assemble_if(context, block, cond, function_name),
        Instruction::Loop(block, cond) => assemble_loop(context, block, cond, function_name),
        Instruction::Push(operand) => {
            let encoded = encode_stack(context, false, operand, function_name);
            emit(context, encoded, function_name)
        },
        Instruction::Pop(operand) => {
            let encoded = encode_stack(context, true, operand, function_name);
            emit(context, encoded, function_name)
        },
        Instruction::Cli => emit(context, Ok(bare("Cli", 0x58)), function_name),
        Instruction::Sei => emit(context, Ok(bare("Sei", 0x78)), function_name),
    }
}

/// Emits an `IF`: the test with a branch over the block, the block, and the
/// length of the block written into the branch.
fn assemble_if<'p>(
    context: &mut Context<'p>,
    block: &'p Block<'p>,
    cond: &'p Conditional<'p>,
    function_name: &'p str,
) -> (r: Result<(), Halt<'p>>)
    requires
        old(context).wf(),
    ensures
        final(context).follows(old(context)),
        match r {
            Ok(()) => final(context).succeeds(old(context)) && if_block(
                old(context)@,
                block@,
                cond@,
                bytes_of(function_name),
            ) == Ok::<State, HaltView>(final(context)@),
            Err(e) => {
                &&& if_block(
                    old(context)@,
                    block@,
                    cond@,
                    bytes_of(function_name),
                ) == Err::<State, HaltView>(e@)
                &&& final(context)@ == if_stop(
                    old(context)@,
                    block@,
                    cond@,
                    bytes_of(function_name),
                )
            },
        },
    decreases block, 2nat,
{
    match assemble_conditional(context, cond, None, true, function_name) {
        Err(e) => {
            return Err(e);
        },
        Ok(()) => {},
    }
    let block_start = context.bank.code.len();
    match assemble_block(context, block, function_name) {
        Err(e) => {
            return Err(e);
        },
        Ok(()) => {},
    }
    close_if(context, block_start, function_name)
}

/// The view of an optional condition.
spec fn condition_view(c: &Option<Conditional<'_>>) -> Option<ConditionalView> {
    match c {
        Some(c) => Some(c@),
        None => None,
    }
}

/// Emits a `DO`: the switch to the mode of its block, the instructions of
/// the block, the branch back to the first of them, and the switch back.
fn assemble_loop<'p>(
    context: &mut Context<'p>,
    block: &'p Block<'p>,
    cond: &'p Option<Conditional<'p>>,
    function_name: &'p str,
) -> (r: Result<(), Halt<'p>>)
    requires
        old(context).wf(),
    ensures
        final(context).follows(old(context)),
        match r {
            Ok(()) => final(context).succeeds(old(context)) && do_loop(
                old(context)@,
                block@,
                condition_view(cond),
                bytes_of(function_name),
            ) == Ok::<State, HaltView>(final(context)@),
            Err(e) => {
                &&& do_loop(
                    old(context)@,
                    block@,
                    condition_view(cond),
                    bytes_of(function_name),
                ) == Err::<State, HaltView>(e@)
                &&& final(context)@ == loop_stop(
                    old(context)@,
                    block@,
                    condition_view(cond),
                    bytes_of(function_name),
                )
            },
        },
    decreases block, 2nat,
{
    let saved = Mode {
        emulation: context.emulation,
        wide_math: context.wide_math,
        wide_index: context.wide_index,
    };
    match enter_block(context, &block.attributes, function_name) {
        Err(e) => {
            return Err(e);
        },
        Ok(()) => {},
    }
    let loop_start = context.bank.code.len();
    match assemble_instructions(context, block, function_name) {
        Err(e) => {
            return Err(e);
        },
        Ok(()) => {},
    }
    let end = match cond {
        Some(cond) => assemble_conditional(context, cond, Some(loop_start), false, function_name),
        None => assemble_repeat(context, loop_start, function_name),
    };
    match end {
        Err(e) => {
            return Err(e);
        },
        Ok(()) => {},
    }
    leave_block(context, saved, function_name)
}

/// Emits a block: the switch to its mode, its instructions, and the switch
/// back to the mode before it.
fn assemble_block<'p>(
    context: &mut Context<'p>,
    block: &'p Block<'p>,
    function_name: &'p str,
) -> (r: Result<(), Halt<'p>>)
    requires
        old(context).wf(),
    ensures
        final(context).follows(old(context)),
        match r {
            Ok(()) => final(context).succeeds(old(context)) && scope(
                old(context)@,
                block@,
                bytes_of(function_name),
            ) == Ok::<State, HaltView>(final(context)@),
            Err(e) => {
                &&& scope(
                    old(context)@,
                    block@,
                    bytes_of(function_name),
                ) == Err::<State, HaltView>(e@)
                &&& final(context)@ == scope_stop(old(context)@, block@, bytes_of(function_name))
            },
        },
    decreases block, 1nat,
{
    let saved = Mode {
        emulation: context.emulation,
        wide_math: context.wide_math,
        wide_index: context.wide_index,
    };
    match enter_block(context, &block.attributes, function_name) {
        Err(e) => {
            return Err(e);
        },
        Ok(()) => {},
    }
    match assemble_instructions(context, block, function_name) {
        Err(e) => {
            return Err(e);
        },
        Ok(()) => {},
    }
    leave_block(context, saved, function_name)
}

/// Emits the instructions of a block, without a switch of mode.
fn assemble_instructions<'p>(
    context: &mut Context<'p>,
    block: &'p Block<'p>,
    function_name: &'p str,
) -> (r: Result<(), Halt<'p>>)
    requires
        old(context).wf(),
    ensures
        final(context).follows(old(context)),
        match r {
            Ok(()) => final(context).succeeds(old(context)) && instructions(
                old(context)@,
                block@.instructions,
                block@.instructions.len(),
                bytes_of(function_name),
            ) == Ok::<State, HaltView>(final(context)@),
            Err(e) => {
                &&& instructions(
                    old(context)@,
                    block@.instructions,
                    block@.instructions.len(),
                    bytes_of(function_name),
                ) == Err::<State, HaltView>(e@)
                &&& final(context)@ == instructions_stop(
                    old(context)@,
                    block@.instructions,
                    block@.instructions.len(),
                    bytes_of(function_name),
                )
            },
        },
    decreases block, 0nat,
{
    let mut i: usize = 0;
    while i < block.instructions.len()
        invariant
            0 <= i <= block.instructions@.len(),
            block@.instructions.len() == block.instructions@.len(),
            context.succeeds(old(context)),
            context.follows(old(context)),
            instructions(
                old(context)@,
                block@.instructions,
                i as nat,
                bytes_of(function_name),
            ) == Ok::<State, HaltView>(context@),
        decreases block.instructions@.len() - i,
    {
        match assemble_instruction(context, &block.instructions[i], function_name) {
            Err(e) => {
                proof {
                    lemma_failure_stays(
                        old(context)@,
                        block@.instructions,
                        (i + 1) as nat,
                        block@.instructions.len(),
                        bytes_of(function_name),
                    );
                    lemma_stop_stays(
                        old(context)@,
                        block@.instructions,
                        (i + 1) as nat,
                        block@.instructions.len(),
                        bytes_of(function_name),
                    );
                }
                return Err(e);
            },
            Ok(()) => {},
        }
        i += 1;
    }
    Ok(())
}

/// Writes `address` into every call that waits for the function `name`, and
/// drops the relocations of those calls.
fn resolve<'p>(context: &mut Context<'p>, name: &'p str, address: usize)
    requires
        old(context).wf(),
    ensures
        final(context).wf(),
        final(context).bank.code@ == resolved_code(
            old(context)@.code,
            old(context)@.relocations,
            old(context)@.relocations.len(),
            bytes_of(name),
            address as int,
        ),
        final(context)@.relocations == unresolved(old(context)@.relocations, bytes_of(name)),
        final(context).bank.code@.len() == old(context).bank.code@.len(),
        final(context).mode() == old(context).mode(),
        final(context).names == old(context).names,
{
    let ghost waiting = context@.relocations;
    let mut kept: Vec<Relocation<'p>> = Vec::new();
    let mut i: usize = 0;
    proof {
        lemma_unresolved_none(bytes_of(name));
        assert(waiting.take(0) =~= Seq::empty());
    }
    while i < context.relocations.len()
        invariant
            0 <= i <= context.relocations@.len(),
            context.bank.wf(),
            context.relocations == old(context).relocations,
            context.names == old(context).names,
            context.mode() == old(context).mode(),
            context.bank.code@.len() == old(context).bank.code@.len(),
            waiting == old(context)@.relocations,
            waiting.len() == context.relocations@.len(),
            well_formed(old(context)@),
            context.bank.code@ == resolved_code(
                old(context)@.code,
                waiting,
                i as nat,
                bytes_of(name),
                address as int,
            ),
            kept@.map_values(|r: Relocation<'p>| r@) == unresolved(
                waiting.take(i as int),
                bytes_of(name),
            ),
            forall|j: int|
                0 <= j < kept@.len() ==> in_code((#[trigger] kept@[j])@, context.bank.code@.len()),
        decreases context.relocations@.len() - i,
    {
        let site = context.relocations[i];
        let ghost before = kept@.map_values(|r: Relocation<'p>| r@);
        proof {
            assert(waiting[i as int] == site@);
            lemma_unresolved_step(waiting, i as int, bytes_of(name));
        }
        match site {
            Relocation::Function(target, offset) => {
                if same_text(target, name) {
                    context.bank.code.set(offset, low(address));
                    context.bank.code.set(offset + 1, high(address));
                } else {
                    kept.push(site);
                    assert(kept@.map_values(|r: Relocation<'p>| r@) =~= before.push(site@));
                }
            },
            Relocation::Break(_) => {
                kept.push(site);
                assert(kept@.map_values(|r: Relocation<'p>| r@) =~= before.push(site@));
            },
        }
        i += 1;
    }
    proof {
        assert(waiting.take(i as int) =~= waiting);
        lemma_addressed_well_formed(old(context)@, bytes_of(name), address, Seq::empty());
    }
    context.relocations = kept;
}

/// Starts a function: gives it its address, patches the calls that waited
/// for it, and changes the mode to that of its attributes.
fn open_function<'p>(context: &mut Context<'p>, function: &'p Function<'p>) -> (r: Result<
    (),
    Halt<'p>,
>)
    requires
        old(context).wf(),
    ensures
        final(context).bank.wf(),
        match r {
            Ok(()) => final(context).succeeds(old(context)) && image::open_function(
                old(context)@,
                function@,
            ) == Ok::<State, HaltView>(final(context)@),
            Err(e) => {
                &&& image::open_function(old(context)@, function@) == Err::<State, HaltView>(e@)
                &&& final(context)@ == addressed_as(
                    old(context)@,
                    function@.name,
                    (old(context)@.code.len() + BANK_START) as usize,
                    function@.body.attributes,
                )
            },
        },
{
    let function_addr = context.bank.code.len() + context.bank.start;
    context.names.insert(
        function.name,
        Name::Function(Some(function_addr), &function.body.attributes),
    );
    resolve(context, function.name, function_addr);
    update_codegen(context, &function.body.attributes, function.name)
}

/// Emits a function: its body and its return instruction. The calls before
/// it that waited for its address get the address, also where the function
/// fails.
pub fn assemble_function<'p>(context: &mut Context<'p>, function: &'p Function<'p>) -> (r: Result<
    (),
    Halt<'p>,
>)
    requires
        old(context).wf(),
    ensures
        final(context).bank.wf(),
        r is Ok ==> holds_address(
            final(context).bank.code@,
            old(context)@.relocations,
            bytes_of(function.name),
            old(context).bank.code@.len() + BANK_START,
        ),
        match r {
            Ok(()) => final(context).succeeds(old(context)) && image::function(
                old(context)@,
                function@,
            ) == Ok::<State, HaltView>(final(context)@),
            Err(e) => {
                &&& image::function(old(context)@, function@) == Err::<State, HaltView>(e@)
                &&& final(context)@ == function_stop(old(context)@, function@)
            },
        },
{
    let emulation = context.emulation;
    let wide_math = context.wide_math;
    let wide_index = context.wide_index;
    match open_function(context, function) {
        Err(e) => {
            return Err(e);
        },
        Ok(()) => {},
    }
    match assemble_instructions(context, &function.body, function.name) {
        Err(e) => {
            return Err(e);
        },
        Ok(()) => {},
    }
    let opcode = return_opcode(&function.body.attributes);
    let bytes = [opcode];
    assert(bytes@ =~= seq![opcode]);
    match context.push("Return", function.name, &bytes) {
        Err(e) => {
            return Err(e);
        },
        Ok(()) => {},
    }
    context.emulation = emulation;
    context.wide_math = wide_math;
    context.wide_index = wide_index;
    proof {
        lemma_function_sites(old(context)@, function@);
    }
    Ok(())
}

/// The opcode that returns from a function with the given attributes.
fn return_opcode(attributes: &Vec<Attribute>) -> (r: u8)
    ensures
        r == image::return_opcode(attributes@),
{
    if has_attribute(attributes, Attribute::Interrupt) {
        0x40
    } else if has_attribute(attributes, Attribute::Extern) {
        0x6B
    } else {
        0x60
    }
}

/// Compiles a program into the image of a cartridge, or says why there is
/// none: the program is refused, or it calls a function that is declared
/// `EXTERN`.
pub fn try_assemble<'p>(program: &'p Program<'p>) -> (r: Result<Vec<u8>, Halt<'p>>)
    ensures
        match r {
            Ok(image) => image_of(program@) == Ok::<Seq<u8>, HaltView>(image@),
            Err(e) => image_of(program@) == Err::<Seq<u8>, HaltView>(e@),
        },
        r matches Ok(image) ==> image@.len() == IMAGE_SIZE && has_header(image@)
            && vectors_gated(program@, image@),
        !(r matches Err(Halt::Error(Error::UnresolvedName(_)))),
{
    let mut context = Context::new();
    let ghost definitions = program@.definitions;
    let mut i: usize = 0;
    while i < program.definitions.len()
        invariant
            0 <= i <= program.definitions@.len(),
            definitions == program@.definitions,
            definitions.len() == program.definitions@.len(),
            context.names@ == registered(definitions, i as nat),
            context.bank.code@.len() == 0,
            context.relocations@.len() == 0,
            context.mode() == initial_mode(),
            context.bank.wf(),
        decreases program.definitions@.len() - i,
    {
        match &program.definitions[i] {
            Definition::Function(function) => {
                context.names.insert(
                    function.name,
                    Name::Function(None, &function.body.attributes),
                );
            },
            Definition::Var(var) => {
                context.names.insert(var.name, Name::Var(var.address));
            },
        }
        i += 1;
    }
    assert(context@ =~= initial_state(program@)) by {
        assert(context@.code =~= Seq::<u8>::empty());
        assert(context@.relocations =~= Seq::<RelocationView>::empty());
    }
    let mut i: usize = 0;
    while i < program.definitions.len()
        invariant
            0 <= i <= program.definitions@.len(),
            definitions == program@.definitions,
            definitions.len() == program.definitions@.len(),
            context.wf(),
            functions(initial_state(program@), definitions, i as nat) == Ok::<State, HaltView>(
                context@,
            ),
        decreases program.definitions@.len() - i,
    {
        match &program.definitions[i] {
            Definition::Function(function) => {
                match assemble_function(&mut context, function) {
                    Err(e) => {
                        proof {
                            lemma_functions_failure_stays(
                                initial_state(program@),
                                definitions,
                                (i + 1) as nat,
                                definitions.len(),
                            );
                            lemma_every_call_resolved(program@);
                        }
                        return Err(e);
                    },
                    Ok(()) => {},
                }
            },
            Definition::Var(_) => {},
        }
        i += 1;
    }
    proof {
        lemma_every_call_resolved(program@);
    }
    if context.relocations.len() > 0 {
        return Err(Halt::Error(Error::UnresolvedName(context.relocations[0])));
    }
    let r = finish(context.bank.code, &context.names);
    proof {
        if r is Ok {
            lemma_vectors_gated(program@);
        }
    }
    r
}

/// Whether a program declares a function `EXTERN`. A program that declares
/// none makes no call that cannot be compiled.
pub fn declares_extern<'p>(program: &Program<'p>) -> (r: bool)
    ensures
        r == crate::program::declares_extern(program@),
        !r ==> !(image_of(program@) matches Err(HaltView::ExternCall(_, _))),
{
    let mut i: usize = 0;
    while i < program.definitions.len()
        invariant
            0 <= i <= program.definitions@.len(),
            program@.definitions.len() == program.definitions@.len(),
            forall|j: int|
                0 <= j < i ==> !(#[trigger] program@.definitions[j]
                    matches DefinitionView::Function(f) && f.body.attributes.contains(
                    Attribute::Extern,
                )),
        decreases program.definitions@.len() - i,
    {
        match &program.definitions[i] {
            Definition::Function(function) => {
                if has_attribute(&function.body.attributes, Attribute::Extern) {
                    assert(program@.definitions[i as int] matches DefinitionView::Function(f)
                        && f.body.attributes.contains(Attribute::Extern));
                    return true;
                }
            },
            Definition::Var(_) => {},
        }
        i += 1;
    }
    proof {
        lemma_no_extern_call(program@);
    }
    false
}

/// Compiles a program into the image of a cartridge, or refuses it.
///
/// A call of a function that is declared `EXTERN` cannot be compiled: a
/// program that makes one is left out. [`try_assemble`] tells of such a
/// call, and a program for which [`declares_extern`] is false makes none.
pub fn assemble<'p>(program: &'p Program<'p>) -> (r: Result<Vec<u8>, Error<'p>>)
    requires
        !(image_of(program@) matches Err(HaltView::ExternCall(_, _))),
    ensures
        match r {
            Ok(image) => image_of(program@) == Ok::<Seq<u8>, HaltView>(image@),
            Err(e) => image_of(program@) == Err::<Seq<u8>, HaltView>(HaltView::Error(e@)),
        },
        r matches Ok(image) ==> image@.len() == IMAGE_SIZE && has_header(image@)
            && vectors_gated(program@, image@),
        !(r matches Err(Error::UnresolvedName(_))),
{
    match try_assemble(program) {
        Ok(image) => Ok(image),
        Err(Halt::Error(e)) => Err(e),
        Err(Halt::ExternCall(target, function_name)) => Err(
            Error::UnknownFunction(target, function_name),
        ),
    }
}

} // verus!
