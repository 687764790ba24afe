//! The grammar of the source language.
//!
//! The source is a sequence of bytes. Each rule of the grammar is a function
//! of the source and of an offset into it, which says whether the rule
//! matches at that offset and, if it does, what it stands for and how many
//! bytes it takes. Where a rule has alternatives, the first that matches is
//! taken, and what follows the rule cannot make the choice undone.

use vstd::prelude::*;
use vstd::string::*;
use crate::ast::{
    bytes_of, Attribute, BlockView, ConditionalView, DefinitionView, FunctionView, InstructionView,
    OperandView, ProgramView, Register, VarView,
};

verus! {

/// What a rule yields where it matches: what it stands for, and the number
/// of bytes that it takes.
pub type Parsed<T> = Option<(T, nat)>;

/// The number of bytes from the offset `i` to the end of the source.
pub open spec fn remaining(b: Seq<u8>, i: int) -> nat {
    if 0 <= i <= b.len() {
        (b.len() - i) as nat
    } else {
        0
    }
}

// ---------------------------------------------------------------------------
// Space and comments
// ---------------------------------------------------------------------------

/// A blank, a tab, a carriage return or a line feed.
pub open spec fn is_space(c: u8) -> bool {
    c == ' ' as u8 || c == '\t' as u8 || c == '\r' as u8 || c == '\n' as u8
}

/// The number of bytes at `i` that hold `true` under `p`, up to the first
/// that does not.
pub open spec fn run(b: Seq<u8>, i: int, p: spec_fn(u8) -> bool) -> nat
    decreases remaining(b, i),
{
    if 0 <= i < b.len() && p(b[i]) {
        1 + run(b, i + 1, p)
    } else {
        0
    }
}

/// The test for a byte of space.
pub open spec fn space_test() -> spec_fn(u8) -> bool {
    |c: u8| is_space(c)
}

/// The number of bytes of space at `i`.
pub open spec fn spaces(b: Seq<u8>, i: int) -> nat {
    run(b, i, space_test())
}

/// The number of bytes from `i` to the next line feed, if there is one.
pub open spec fn line(b: Seq<u8>, i: int) -> Option<nat>
    decreases remaining(b, i),
{
    if 0 <= i < b.len() {
        if b[i] == '\n' as u8 {
            Some(0)
        } else {
            match line(b, i + 1) {
                Some(n) => Some(n + 1),
                None => None,
            }
        }
    } else {
        None
    }
}

/// The number of bytes that the comments at `i` take. A comment starts with
/// `#` and needs a line feed to end it; the space after it belongs to it.
pub open spec fn comments(b: Seq<u8>, i: int) -> nat
    decreases remaining(b, i),
{
    if 0 <= i < b.len() && b[i] == '#' as u8 {
        match line(b, i + 1) {
            Some(n) => {
                let one = 1 + n + spaces(b, i + 1 + n);
                one + comments(b, i + one)
            },
            None => 0,
        }
    } else {
        0
    }
}

/// The number of bytes of space and comments at `i`.
pub open spec fn skip(b: Seq<u8>, i: int) -> nat {
    spaces(b, i) + comments(b, i + spaces(b, i))
}

// ---------------------------------------------------------------------------
// Tokens
// ---------------------------------------------------------------------------

/// Whether the bytes of `t` stand at `i`.
pub open spec fn tag(b: Seq<u8>, i: int, t: &str) -> bool {
    &&& 0 <= i
    &&& i + bytes_of(t).len() <= b.len()
    &&& b.subrange(i, i + bytes_of(t).len()) == bytes_of(t)
}

/// The token `t` after space and comments: the number of bytes that both
/// take.
#[verifier::opaque]
pub open spec fn token(b: Seq<u8>, i: int, t: &str) -> Option<nat> {
    if tag(b, i + skip(b, i), t) {
        Some(skip(b, i) + bytes_of(t).len())
    } else {
        None
    }
}

/// A lower-case letter or an underscore.
pub open spec fn is_name_byte(c: u8) -> bool {
    'a' as u8 <= c <= 'z' as u8 || c == '_' as u8
}

/// The test for a byte of a name.
pub open spec fn name_test() -> spec_fn(u8) -> bool {
    |c: u8| is_name_byte(c)
}

/// A name: one byte or more of lower-case letters and underscores, as many
/// as there are.
#[verifier::opaque]
pub open spec fn identifier(b: Seq<u8>, i: int) -> Parsed<Seq<u8>> {
    let n = run(b, i, name_test());
    if n > 0 {
        Some((b.subrange(i, i + n), n))
    } else {
        None
    }
}

/// A name after space and comments.
#[verifier::opaque]
pub open spec fn spaced_identifier(b: Seq<u8>, i: int) -> Parsed<Seq<u8>> {
    match identifier(b, i + skip(b, i)) {
        Some((name, n)) => Some((name, skip(b, i) + n)),
        None => None,
    }
}

// ---------------------------------------------------------------------------
// Numbers
// ---------------------------------------------------------------------------

/// The value of a digit in the base `radix`, which is 8, 10 or 16.
pub open spec fn digit_value(c: u8, radix: nat) -> Option<nat> {
    let v: Option<nat> = if '0' as u8 <= c <= '9' as u8 {
        Some((c - '0' as u8) as nat)
    } else if 'a' as u8 <= c <= 'f' as u8 {
        Some((c - 'a' as u8 + 10) as nat)
    } else if 'A' as u8 <= c <= 'F' as u8 {
        Some((c - 'A' as u8 + 10) as nat)
    } else {
        None
    };
    match v {
        Some(d) => if d < radix {
            Some(d)
        } else {
            None
        },
        None => None,
    }
}

/// The number that a sequence of digits stands for in the base `radix`.
pub open spec fn value_of(digits: Seq<u8>, radix: nat) -> nat
    decreases digits.len(),
{
    if digits.len() == 0 {
        0
    } else {
        value_of(digits.drop_last(), radix) * radix + match digit_value(digits.last(), radix) {
            Some(d) => d,
            None => 0,
        }
    }
}

/// The test for a digit in the base `radix`.
pub open spec fn digit_test(radix: nat) -> spec_fn(u8) -> bool {
    |c: u8| digit_value(c, radix) is Some
}

/// A number in the base `radix`: one digit or more, as many as there are,
/// that stand for a number of 32 bits.
#[verifier::opaque]
pub open spec fn digits(b: Seq<u8>, i: int, radix: nat) -> Parsed<u32> {
    let n = run(b, i, digit_test(radix));
    if n > 0 && value_of(b.subrange(i, i + n), radix) <= u32::MAX {
        Some((value_of(b.subrange(i, i + n), radix) as u32, n))
    } else {
        None
    }
}

/// A number behind a prefix that is written in lower or in upper case.
#[verifier::opaque]
pub open spec fn prefixed(b: Seq<u8>, i: int, lower: &str, upper: &str, radix: nat) -> Parsed<u32> {
    if tag(b, i, lower) || tag(b, i, upper) {
        match digits(b, i + bytes_of(lower).len(), radix) {
            Some((v, n)) => Some((v, bytes_of(lower).len() + n)),
            None => None,
        }
    } else {
        None
    }
}

/// A number: octal behind `0o`, hexadecimal behind `0x`, or decimal.
#[verifier::opaque]
pub open spec fn number(b: Seq<u8>, i: int) -> Parsed<u32> {
    if prefixed(b, i, "0o", "0O", 8) is Some {
        prefixed(b, i, "0o", "0O", 8)
    } else if prefixed(b, i, "0x", "0X", 16) is Some {
        prefixed(b, i, "0x", "0X", 16)
    } else {
        digits(b, i, 10)
    }
}

/// A number after space and comments.
#[verifier::opaque]
pub open spec fn spaced_number(b: Seq<u8>, i: int) -> Parsed<u32> {
    match number(b, i + skip(b, i)) {
        Some((v, n)) => Some((v, skip(b, i) + n)),
        None => None,
    }
}

// ---------------------------------------------------------------------------
// Operands
// ---------------------------------------------------------------------------

/// The `k`-th register in the order in which the names are tried. A name
/// of two letters is tried before the name that is its first letter.
pub open spec fn register_at(k: int) -> Register {
    if k == 0 {
        Register::A
    } else if k == 1 {
        Register::B
    } else if k == 2 {
        Register::C
    } else if k == 3 {
        Register::X
    } else if k == 4 {
        Register::Y
    } else if k == 5 {
        Register::S
    } else if k == 6 {
        Register::DB
    } else if k == 7 {
        Register::PB
    } else {
        Register::D
    }
}

/// The name of a register.
pub open spec fn register_name(r: Register) -> &'static str {
    match r {
        Register::A => "A",
        Register::B => "B",
        Register::C => "C",
        Register::X => "X",
        Register::Y => "Y",
        Register::S => "S",
        Register::D => "D",
        Register::DB => "DB",
        Register::PB => "PB",
    }
}

/// The first among the registers from the `k`-th on whose name stands at
/// `i`.
#[verifier::opaque]
pub open spec fn register_from(b: Seq<u8>, i: int, k: int) -> Parsed<Register>
    decreases 9 - k,
{
    if k < 0 || k >= 9 {
        None
    } else if tag(b, i, register_name(register_at(k))) {
        Some((register_at(k), bytes_of(register_name(register_at(k))).len()))
    } else {
        register_from(b, i, k + 1)
    }
}

/// A register: the first of `A B C X Y S DB PB D` whose name stands at `i`.
pub open spec fn register(b: Seq<u8>, i: int) -> Parsed<Register> {
    register_from(b, i, 0)
}

/// A number behind `*`.
#[verifier::opaque]
pub open spec fn address(b: Seq<u8>, i: int) -> Parsed<u32> {
    if tag(b, i, "*") {
        match number(b, i + bytes_of("*").len()) {
            Some((v, n)) => Some((v, bytes_of("*").len() + n)),
            None => None,
        }
    } else {
        None
    }
}

/// An operand: a number, an address, a register or the name of a variable.
#[verifier::opaque]
pub open spec fn operand(b: Seq<u8>, i: int) -> Parsed<OperandView> {
    if let Some((v, n)) = number(b, i) {
        Some((OperandView::Immediate(v), n))
    } else if let Some((v, n)) = address(b, i) {
        Some((OperandView::Absolute(v), n))
    } else if let Some((r, n)) = register(b, i) {
        Some((OperandView::Register(r), n))
    } else if let Some((name, n)) = identifier(b, i) {
        Some((OperandView::Variable(name), n))
    } else {
        None
    }
}

/// An operand after space and comments.
#[verifier::opaque]
pub open spec fn spaced_operand(b: Seq<u8>, i: int) -> Parsed<OperandView> {
    match operand(b, i + skip(b, i)) {
        Some((o, n)) => Some((o, skip(b, i) + n)),
        None => None,
    }
}

/// Two operands with the operator `op` between them.
#[verifier::opaque]
pub open spec fn operation(b: Seq<u8>, i: int, op: &str) -> Parsed<(OperandView, OperandView)> {
    match spaced_operand(b, i) {
        Some((l, n)) => match token(b, i + n, op) {
            Some(m) => match spaced_operand(b, i + n + m) {
                Some((r, k)) => Some(((l, r), n + m + k)),
                None => None,
            },
            None => None,
        },
        None => None,
    }
}

/// The comparison inside the parentheses of a condition.
#[verifier::opaque]
pub open spec fn comparison(b: Seq<u8>, i: int) -> Parsed<ConditionalView> {
    if let Some(((l, r), n)) = operation(b, i, "==") {
        Some((ConditionalView::Equality(l, r), n))
    } else if let Some(((l, r), n)) = operation(b, i, "&&") {
        Some((ConditionalView::BitTest(l, r), n))
    } else if let Some(((l, r), n)) = operation(b, i, "!&") {
        Some((ConditionalView::NotBitTest(l, r), n))
    } else {
        None
    }
}

/// A condition: a comparison in parentheses.
#[verifier::opaque]
pub open spec fn conditional(b: Seq<u8>, i: int) -> Parsed<ConditionalView> {
    match token(b, i, "(") {
        Some(n) => match comparison(b, i + n) {
            Some((c, m)) => match token(b, i + n + m, ")") {
                Some(k) => Some((c, n + m + k)),
                None => None,
            },
            None => None,
        },
        None => None,
    }
}

// ---------------------------------------------------------------------------
// Attributes
// ---------------------------------------------------------------------------

/// A comma is one byte.
pub proof fn lemma_comma()
    ensures
        bytes_of(",").len() == 1,
{
    reveal(bytes_of);
    reveal_strlit(",");
    vstd::utf8::is_ascii_chars_encode_utf8(","@);
}

/// The `k`-th attribute in the order in which the names are tried.
pub open spec fn attribute_at(k: int) -> Attribute {
    if k == 0 {
        Attribute::Emulation
    } else if k == 1 {
        Attribute::Extern
    } else if k == 2 {
        Attribute::Interrupt
    } else if k == 3 {
        Attribute::Native
    } else if k == 4 {
        Attribute::NarrowIndex
    } else if k == 5 {
        Attribute::NarrowMath
    } else if k == 6 {
        Attribute::WideIndex
    } else {
        Attribute::WideMath
    }
}

/// The name of an attribute.
pub open spec fn attribute_name(a: Attribute) -> &'static str {
    match a {
        Attribute::Emulation => "EMU",
        Attribute::Extern => "EXTERN",
        Attribute::Interrupt => "INTR",
        Attribute::Native => "NAT",
        Attribute::NarrowIndex => "NARROWX",
        Attribute::NarrowMath => "NARROWM",
        Attribute::WideIndex => "WIDEX",
        Attribute::WideMath => "WIDEM",
    }
}

/// The first among the attributes from the `k`-th on whose name stands at
/// `i`.
#[verifier::opaque]
pub open spec fn attribute_from(b: Seq<u8>, i: int, k: int) -> Parsed<Attribute>
    decreases 8 - k,
{
    if k < 0 || k >= 8 {
        None
    } else if tag(b, i, attribute_name(attribute_at(k))) {
        Some((attribute_at(k), bytes_of(attribute_name(attribute_at(k))).len()))
    } else {
        attribute_from(b, i, k + 1)
    }
}

/// An attribute after space and comments.
#[verifier::opaque]
pub open spec fn spaced_attribute(b: Seq<u8>, i: int) -> Parsed<Attribute> {
    match attribute_from(b, i + skip(b, i), 0) {
        Some((a, n)) => Some((a, skip(b, i) + n)),
        None => None,
    }
}

/// The attributes that follow the first of a list, each behind a comma. A
/// comma without an attribute behind it does not belong to the list.
#[verifier::opaque]
pub open spec fn more_attributes(b: Seq<u8>, i: int) -> (Seq<Attribute>, nat)
    decreases remaining(b, i),
{
    match token(b, i, ",") {
        Some(n) => match spaced_attribute(b, i + n) {
            Some((a, m)) => {
                proof {
                    reveal(token);
                    lemma_comma();
                }
                let (rest, k) = more_attributes(b, i + n + m);
                (seq![a] + rest, n + m + k)
            },
            None => (Seq::empty(), 0),
        },
        None => (Seq::empty(), 0),
    }
}

/// Attributes with commas between them, perhaps none.
#[verifier::opaque]
pub open spec fn attribute_list(b: Seq<u8>, i: int) -> (Seq<Attribute>, nat) {
    match spaced_attribute(b, i) {
        Some((a, n)) => {
            let (rest, k) = more_attributes(b, i + n);
            (seq![a] + rest, n + k)
        },
        None => (Seq::empty(), 0),
    }
}

/// The attributes of a block: a list in square brackets, or nothing, which
/// stands for no attributes.
#[verifier::opaque]
pub open spec fn attributes(b: Seq<u8>, i: int) -> (Seq<Attribute>, nat) {
    match token(b, i, "[") {
        Some(n) => {
            let (list, m) = attribute_list(b, i + n);
            match token(b, i + n + m, "]") {
                Some(k) => (list, n + m + k),
                None => (Seq::empty(), 0),
            }
        },
        None => (Seq::empty(), 0),
    }
}

// ---------------------------------------------------------------------------
// Instructions
// ---------------------------------------------------------------------------

/// A call: a name and `()`.
#[verifier::opaque]
pub open spec fn call(b: Seq<u8>, i: int) -> Parsed<InstructionView> {
    match spaced_identifier(b, i) {
        Some((name, n)) => match token(b, i + n, "()") {
            Some(m) => Some((InstructionView::Call(name), n + m)),
            None => None,
        },
        None => None,
    }
}

/// The operand of a push or of a pop, behind the keyword `keyword`.
#[verifier::opaque]
pub open spec fn stacked(b: Seq<u8>, i: int, keyword: &str) -> Parsed<OperandView> {
    match token(b, i, keyword) {
        Some(n) => match spaced_operand(b, i + n) {
            Some((o, m)) => Some((o, n + m)),
            None => None,
        },
        None => None,
    }
}

/// An assignment, plain or combined with `&` or `|`.
#[verifier::opaque]
pub open spec fn assignment(b: Seq<u8>, i: int) -> Parsed<InstructionView> {
    if let Some(((l, r), n)) = operation(b, i, ":=") {
        Some((InstructionView::Assign(l, r), n))
    } else if let Some(((l, r), n)) = operation(b, i, "&=") {
        Some((InstructionView::AndAssign(l, r), n))
    } else if let Some(((l, r), n)) = operation(b, i, "|=") {
        Some((InstructionView::OrAssign(l, r), n))
    } else {
        None
    }
}

/// An instruction that ends in a semicolon, without the semicolon.
#[verifier::opaque]
pub open spec fn statement(b: Seq<u8>, i: int) -> Parsed<InstructionView> {
    if assignment(b, i) is Some {
        assignment(b, i)
    } else if call(b, i) is Some {
        call(b, i)
    } else if let Some((o, n)) = stacked(b, i, "PUSH") {
        Some((InstructionView::Push(o), n))
    } else if let Some((o, n)) = stacked(b, i, "POP") {
        Some((InstructionView::Pop(o), n))
    } else if let Some(n) = token(b, i, "SEI") {
        Some((InstructionView::Sei, n))
    } else if let Some(n) = token(b, i, "CLI") {
        Some((InstructionView::Cli, n))
    } else {
        None
    }
}

/// An instruction that ends in a semicolon.
#[verifier::opaque]
pub open spec fn simple(b: Seq<u8>, i: int) -> Parsed<InstructionView> {
    match statement(b, i) {
        Some((v, n)) => match token(b, i + n, ";") {
            Some(m) => Some((v, n + m)),
            None => None,
        },
        None => None,
    }
}

/// An opening brace is one byte.
pub proof fn lemma_open_brace()
    ensures
        bytes_of("{").len() == 1,
{
    reveal(bytes_of);
    reveal_strlit("{");
    vstd::utf8::is_ascii_chars_encode_utf8("{"@);
}

/// An instruction: one that ends in a semicolon, a loop, an `IF`, or a
/// block.
#[verifier::opaque]
pub open spec fn instruction(b: Seq<u8>, i: int) -> Parsed<InstructionView>
    decreases remaining(b, i), 3nat,
{
    if simple(b, i) is Some {
        simple(b, i)
    } else if do_loop(b, i) is Some {
        do_loop(b, i)
    } else if if_block(b, i) is Some {
        if_block(b, i)
    } else {
        match block(b, i) {
            Some((inner, n)) => Some((InstructionView::Block(inner), n)),
            None => None,
        }
    }
}

/// A loop: `DO`, a block, and perhaps `WHILE` with a condition.
#[verifier::opaque]
pub open spec fn do_loop(b: Seq<u8>, i: int) -> Parsed<InstructionView>
    decreases remaining(b, i), 2nat,
{
    match token(b, i, "DO") {
        Some(n) => match {
            proof {
                reveal(token);
            }
            block(b, i + n)
        } {
            Some((body, m)) => {
                let condition = match token(b, i + n + m, "WHILE") {
                    Some(k) => match conditional(b, i + n + m + k) {
                        Some((c, j)) => Some((c, k + j)),
                        None => None,
                    },
                    None => None,
                };
                match condition {
                    Some((c, k)) => Some((InstructionView::Loop(body, Some(c)), n + m + k)),
                    None => Some((InstructionView::Loop(body, None), n + m)),
                }
            },
            None => None,
        },
        None => None,
    }
}

/// An `IF` with its condition and its block.
#[verifier::opaque]
pub open spec fn if_block(b: Seq<u8>, i: int) -> Parsed<InstructionView>
    decreases remaining(b, i), 2nat,
{
    match token(b, i, "IF") {
        Some(n) => match conditional(b, i + n) {
            Some((c, m)) => match {
                proof {
                    reveal(token);
                }
                block(b, i + n + m)
            } {
                Some((body, k)) => Some((InstructionView::If(body, c), n + m + k)),
                None => None,
            },
            None => None,
        },
        None => None,
    }
}

/// A block: its attributes, and its instructions in braces.
#[verifier::opaque]
pub open spec fn block(b: Seq<u8>, i: int) -> Parsed<BlockView>
    decreases remaining(b, i), 1nat,
{
    let (found, a) = attributes(b, i);
    match token(b, i + a, "{") {
        Some(n) => {
            proof {
                reveal(token);
                reveal(attributes);
                lemma_open_brace();
            }
            let (list, m) = instruction_list(b, i + a + n);
            match token(b, i + a + n + m, "}") {
                Some(k) => Some(
                    (BlockView { attributes: found, instructions: list }, a + n + m + k),
                ),
                None => None,
            }
        },
        None => None,
    }
}

/// The instructions at `i`, up to the first place where none stands.
#[verifier::opaque]
pub open spec fn instruction_list(b: Seq<u8>, i: int) -> (Seq<InstructionView>, nat)
    decreases remaining(b, i), 4nat,
{
    if 0 <= i < b.len() {
        match instruction(b, i) {
            Some((v, n)) => if n > 0 {
                let (rest, m) = instruction_list(b, i + n);
                (seq![v] + rest, n + m)
            } else {
                (Seq::empty(), 0)
            },
            None => (Seq::empty(), 0),
        }
    } else {
        (Seq::empty(), 0)
    }
}

// ---------------------------------------------------------------------------
// Definitions
// ---------------------------------------------------------------------------

/// A function: its name and its body.
#[verifier::opaque]
pub open spec fn function(b: Seq<u8>, i: int) -> Parsed<FunctionView> {
    match spaced_identifier(b, i) {
        Some((name, n)) => match block(b, i + n) {
            Some((body, m)) => Some((FunctionView { body: body, name: name }, n + m)),
            None => None,
        },
        None => None,
    }
}

/// A variable: its name, `:=`, its address, and a semicolon.
#[verifier::opaque]
pub open spec fn var(b: Seq<u8>, i: int) -> Parsed<VarView> {
    match spaced_identifier(b, i) {
        Some((name, n)) => match token(b, i + n, ":=") {
            Some(m) => match spaced_number(b, i + n + m) {
                Some((address, k)) => match token(b, i + n + m + k, ";") {
                    Some(j) => Some((VarView { address: address, name: name }, n + m + k + j)),
                    None => None,
                },
                None => None,
            },
            None => None,
        },
        None => None,
    }
}

/// A definition: `FUN` and a function, or `VAR` and a variable.
#[verifier::opaque]
pub open spec fn definition(b: Seq<u8>, i: int) -> Parsed<DefinitionView> {
    if let Some(n) = token(b, i, "FUN") {
        match function(b, i + n) {
            Some((f, m)) => Some((DefinitionView::Function(f), n + m)),
            None => None,
        }
    } else if let Some(n) = token(b, i, "VAR") {
        match var(b, i + n) {
            Some((v, m)) => Some((DefinitionView::Var(v), n + m)),
            None => None,
        }
    } else {
        None
    }
}

/// The definitions at `i`, up to the first place where none stands.
#[verifier::opaque]
pub open spec fn definitions(b: Seq<u8>, i: int) -> (Seq<DefinitionView>, nat)
    decreases remaining(b, i),
{
    if 0 <= i < b.len() {
        match definition(b, i) {
            Some((d, n)) => if n > 0 {
                let (rest, m) = definitions(b, i + n);
                (seq![d] + rest, n + m)
            } else {
                (Seq::empty(), 0)
            },
            None => (Seq::empty(), 0),
        }
    } else {
        (Seq::empty(), 0)
    }
}

/// The program that a source stands for: its definitions, with nothing but
/// space after the last. Where anything else follows, the source is no
/// program, and the offset of what follows is given.
#[verifier::opaque]
pub open spec fn program(b: Seq<u8>) -> Result<ProgramView, int> {
    let (list, n) = definitions(b, 0);
    let end = n + spaces(b, n as int);
    if end == b.len() {
        Ok(ProgramView { definitions: list })
    } else {
        Err(end as int)
    }
}

} // verus!
