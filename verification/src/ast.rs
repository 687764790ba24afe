//! The syntax tree of a program, and its mathematical view.
//!
//! Every executable type has a view in which strings are the sequences of
//! their UTF-8 bytes and vectors are sequences. All specifications of the
//! compiler and of the parser are stated over these views.

use vstd::prelude::*;
use vstd::string::*;

verus! {

/// The bytes of a text: its UTF-8 encoding. Names and labels are compared
/// by their bytes.
#[verifier::opaque]
pub open spec fn bytes_of(text: &str) -> Seq<u8> {
    text.spec_bytes()
}

/// An attribute of a function or of a block.
#[derive(Clone, Copy, Debug, PartialEq, Eq, Structural)]
pub enum Attribute {
    Emulation,
    Extern,
    Interrupt,
    NarrowIndex,
    NarrowMath,
    Native,
    WideIndex,
    WideMath,
}

impl View for Attribute {
    type V = Attribute;

    open spec fn view(&self) -> Attribute {
        *self
    }
}

/// A register of the processor.
#[derive(Clone, Copy, Debug, PartialEq, Eq, Structural)]
pub enum Register {
    A,
    B,
    C,
    X,
    Y,
    S,
    D,
    DB,
    PB,
}

impl View for Register {
    type V = Register;

    open spec fn view(&self) -> Register {
        *self
    }
}

/// An operand of an instruction or of a condition.
#[derive(Debug, PartialEq)]
pub enum Operand<'a> {
    Immediate(u32),
    Absolute(u32),
    Register(Register),
    Variable(&'a str),
}

/// The view of an [`Operand`].
pub enum OperandView {
    Immediate(u32),
    Absolute(u32),
    Register(Register),
    Variable(Seq<u8>),
}

impl<'a> View for Operand<'a> {
    type V = OperandView;

    open spec fn view(&self) -> OperandView {
        match self {
            Operand::Immediate(v) => OperandView::Immediate(*v),
            Operand::Absolute(a) => OperandView::Absolute(*a),
            Operand::Register(r) => OperandView::Register(*r),
            Operand::Variable(n) => OperandView::Variable(bytes_of(n)),
        }
    }
}

/// The condition of an `IF` or of a `DO ... WHILE`.
#[derive(Debug, PartialEq)]
pub enum Conditional<'a> {
    BitTest(Operand<'a>, Operand<'a>),
    Equality(Operand<'a>, Operand<'a>),
    NotBitTest(Operand<'a>, Operand<'a>),
}

/// The view of a [`Conditional`].
pub enum ConditionalView {
    BitTest(OperandView, OperandView),
    Equality(OperandView, OperandView),
    NotBitTest(OperandView, OperandView),
}

impl<'a> View for Conditional<'a> {
    type V = ConditionalView;

    open spec fn view(&self) -> ConditionalView {
        match self {
            Conditional::BitTest(l, r) => ConditionalView::BitTest(l@, r@),
            Conditional::Equality(l, r) => ConditionalView::Equality(l@, r@),
            Conditional::NotBitTest(l, r) => ConditionalView::NotBitTest(l@, r@),
        }
    }
}

/// A list of attributes and the instructions that they govern.
#[derive(Debug, PartialEq)]
pub struct Block<'a> {
    pub attributes: Vec<Attribute>,
    pub instructions: Vec<Instruction<'a>>,
}

/// One instruction of a function body.
#[derive(Debug, PartialEq)]
pub enum Instruction<'a> {
    Assign(Operand<'a>, Operand<'a>),
    AndAssign(Operand<'a>, Operand<'a>),
    OrAssign(Operand<'a>, Operand<'a>),
    Block(Block<'a>),
    Call(&'a str),
    If(Block<'a>, Conditional<'a>),
    Loop(Block<'a>, Option<Conditional<'a>>),
    Push(Operand<'a>),
    Pop(Operand<'a>),
    Cli,
    Sei,
}

/// The view of a [`Block`].
pub struct BlockView {
    pub attributes: Seq<Attribute>,
    pub instructions: Seq<InstructionView>,
}

/// The view of an [`Instruction`].
pub enum InstructionView {
    Assign(OperandView, OperandView),
    AndAssign(OperandView, OperandView),
    OrAssign(OperandView, OperandView),
    Block(BlockView),
    Call(Seq<u8>),
    If(BlockView, ConditionalView),
    Loop(BlockView, Option<ConditionalView>),
    Push(OperandView),
    Pop(OperandView),
    Cli,
    Sei,
}

impl<'a> View for Block<'a> {
    type V = BlockView;

    open spec fn view(&self) -> BlockView
        decreases self,
    {
        BlockView {
            attributes: self.attributes@,
            instructions: Seq::new(
                self.instructions@.len(),
                |i: int|
                    if 0 <= i < self.instructions@.len() {
                        self.instructions@[i].view()
                    } else {
                        InstructionView::Cli
                    },
            ),
        }
    }
}

impl<'a> View for Instruction<'a> {
    type V = InstructionView;

    open spec fn view(&self) -> InstructionView
        decreases self,
    {
        match self {
            Instruction::Assign(l, r) => InstructionView::Assign(l@, r@),
            Instruction::AndAssign(l, r) => InstructionView::AndAssign(l@, r@),
            Instruction::OrAssign(l, r) => InstructionView::OrAssign(l@, r@),
            Instruction::Block(b) => InstructionView::Block(b.view()),
            Instruction::Call(n) => InstructionView::Call(bytes_of(n)),
            Instruction::If(b, c) => InstructionView::If(b.view(), c@),
            Instruction::Loop(b, c) => InstructionView::Loop(
                b.view(),
                match c {
                    Some(c) => Some(c@),
                    None => None,
                },
            ),
            Instruction::Push(o) => InstructionView::Push(o@),
            Instruction::Pop(o) => InstructionView::Pop(o@),
            Instruction::Cli => InstructionView::Cli,
            Instruction::Sei => InstructionView::Sei,
        }
    }
}

/// A named function with its body.
#[derive(Debug, PartialEq)]
pub struct Function<'a> {
    pub body: Block<'a>,
    pub name: &'a str,
}

/// The view of a [`Function`].
pub struct FunctionView {
    pub body: BlockView,
    pub name: Seq<u8>,
}

impl<'a> View for Function<'a> {
    type V = FunctionView;

    open spec fn view(&self) -> FunctionView {
        FunctionView { body: self.body@, name: bytes_of(self.name) }
    }
}

/// A named byte of memory at an absolute address.
#[derive(Debug, PartialEq)]
pub struct Var<'a> {
    pub address: u32,
    pub name: &'a str,
}

/// The view of a [`Var`].
pub struct VarView {
    pub address: u32,
    pub name: Seq<u8>,
}

impl<'a> View for Var<'a> {
    type V = VarView;

    open spec fn view(&self) -> VarView {
        VarView { address: self.address, name: bytes_of(self.name) }
    }
}

/// A top-level definition.
#[derive(Debug, PartialEq)]
pub enum Definition<'a> {
    Function(Function<'a>),
    Var(Var<'a>),
}

/// The view of a [`Definition`].
pub enum DefinitionView {
    Function(FunctionView),
    Var(VarView),
}

impl<'a> View for Definition<'a> {
    type V = DefinitionView;

    open spec fn view(&self) -> DefinitionView {
        match self {
            Definition::Function(f) => DefinitionView::Function(f@),
            Definition::Var(v) => DefinitionView::Var(v@),
        }
    }
}

/// A whole program: its definitions in source order.
#[derive(Debug, PartialEq)]
pub struct Program<'a> {
    pub definitions: Vec<Definition<'a>>,
}

/// The view of a [`Program`].
pub struct ProgramView {
    pub definitions: Seq<DefinitionView>,
}

impl<'a> View for Program<'a> {
    type V = ProgramView;

    open spec fn view(&self) -> ProgramView {
        ProgramView { definitions: self.definitions@.map_values(|d: Definition<'a>| d@) }
    }
}

// ---------------------------------------------------------------------------
// Copies
// ---------------------------------------------------------------------------

impl<'a> Clone for Operand<'a> {
    fn clone(&self) -> (r: Self)
        ensures
            r@ == self@,
    {
        match self {
            Operand::Immediate(v) => Operand::Immediate(*v),
            Operand::Absolute(a) => Operand::Absolute(*a),
            Operand::Register(r) => Operand::Register(*r),
            Operand::Variable(n) => Operand::Variable(n),
        }
    }
}

impl<'a> Clone for Conditional<'a> {
    fn clone(&self) -> (r: Self)
        ensures
            r@ == self@,
    {
        match self {
            Conditional::BitTest(l, r) => Conditional::BitTest(l.clone(), r.clone()),
            Conditional::Equality(l, r) => Conditional::Equality(l.clone(), r.clone()),
            Conditional::NotBitTest(l, r) => Conditional::NotBitTest(l.clone(), r.clone()),
        }
    }
}

/// A copy of a list of attributes.
fn copy_attributes(list: &Vec<Attribute>) -> (r: Vec<Attribute>)
    ensures
        r@ == list@,
{
    let mut copy: Vec<Attribute> = Vec::new();
    let mut i: usize = 0;
    while i < list.len()
        invariant
            0 <= i <= list@.len(),
            copy@ == list@.take(i as int),
        decreases list@.len() - i,
    {
        copy.push(list[i]);
        assert(copy@ =~= list@.take(i + 1));
        i += 1;
    }
    assert(list@.take(list@.len() as int) =~= list@);
    copy
}

/// A copy of a block.
fn copy_block<'a>(block: &Block<'a>) -> (r: Block<'a>)
    ensures
        r@ == block@,
    decreases block, 1nat,
{
    let mut list: Vec<Instruction<'a>> = Vec::new();
    let mut i: usize = 0;
    while i < block.instructions.len()
        invariant
            0 <= i <= block.instructions@.len(),
            list@.len() == i,
            forall|j: int| 0 <= j < i ==> (#[trigger] list@[j])@ == block.instructions@[j]@,
        decreases block.instructions@.len() - i,
    {
        list.push(copy_instruction(&block.instructions[i]));
        i += 1;
    }
    let copy = Block { attributes: copy_attributes(&block.attributes), instructions: list };
    assert(copy@.instructions =~= block@.instructions);
    copy
}

/// A copy of an instruction.
fn copy_instruction<'a>(instruction: &Instruction<'a>) -> (r: Instruction<'a>)
    ensures
        r@ == instruction@,
    decreases instruction, 0nat,
{
    match instruction {
        Instruction::Assign(l, r) => Instruction::Assign(l.clone(), r.clone()),
        Instruction::AndAssign(l, r) => Instruction::AndAssign(l.clone(), r.clone()),
        Instruction::OrAssign(l, r) => Instruction::OrAssign(l.clone(), r.clone()),
        Instruction::Block(b) => Instruction::Block(copy_block(b)),
        Instruction::Call(n) => Instruction::Call(n),
        Instruction::If(b, c) => Instruction::If(copy_block(b), c.clone()),
        Instruction::Loop(b, c) => Instruction::Loop(
            copy_block(b),
            match c {
                Some(c) => Some(c.clone()),
                None => None,
            },
        ),
        Instruction::Push(o) => Instruction::Push(o.clone()),
        Instruction::Pop(o) => Instruction::Pop(o.clone()),
        Instruction::Cli => Instruction::Cli,
        Instruction::Sei => Instruction::Sei,
    }
}

impl<'a> Clone for Block<'a> {
    fn clone(&self) -> (r: Self)
        ensures
            r@ == self@,
    {
        copy_block(self)
    }
}

impl<'a> Clone for Instruction<'a> {
    fn clone(&self) -> (r: Self)
        ensures
            r@ == self@,
    {
        copy_instruction(self)
    }
}

impl<'a> Clone for Function<'a> {
    fn clone(&self) -> (r: Self)
        ensures
            r@ == self@,
    {
        Function { body: copy_block(&self.body), name: self.name }
    }
}

impl<'a> Clone for Var<'a> {
    fn clone(&self) -> (r: Self)
        ensures
            r@ == self@,
    {
        Var { address: self.address, name: self.name }
    }
}

impl<'a> Clone for Definition<'a> {
    fn clone(&self) -> (r: Self)
        ensures
            r@ == self@,
    {
        match self {
            Definition::Function(f) => Definition::Function(f.clone()),
            Definition::Var(v) => Definition::Var(v.clone()),
        }
    }
}

impl<'a> Clone for Program<'a> {
    fn clone(&self) -> (r: Self)
        ensures
            r@ == self@,
    {
        let mut list: Vec<Definition<'a>> = Vec::new();
        let mut i: usize = 0;
        while i < self.definitions.len()
            invariant
                0 <= i <= self.definitions@.len(),
                list@.len() == i,
                forall|j: int| 0 <= j < i ==> (#[trigger] list@[j])@ == self.definitions@[j]@,
            decreases self.definitions@.len() - i,
        {
            list.push(self.definitions[i].clone());
            i += 1;
        }
        let copy = Program { definitions: list };
        assert(copy@.definitions =~= self@.definitions);
        copy
    }
}

} // verus!
