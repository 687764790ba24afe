//! The parser: from the text of a program to its syntax tree.

use vstd::prelude::*;
use vstd::string::*;
use crate::grammar;
use crate::ast::{
    bytes_of, Attribute, Block, Conditional, Definition, Function, Instruction, InstructionView,
    Operand, Program, ProgramView, Register, Var,
};
use crate::grammar::{
    attribute_at, attribute_name, lemma_comma, lemma_open_brace, register_at, register_name,
    remaining, Parsed,
};
use crate::lexer::{digits, match_tag, skip_blank, skip_name, skip_spaces, token};
use crate::text::{ascii_part, utf8};

verus! {

/// Why a text is no program: the offset of the first byte that belongs to
/// no definition and is no space.
#[derive(Clone, Copy, Debug, PartialEq, Eq)]
pub struct ParseError {
    pub offset: usize,
}

/// Whether what a parser returned at the offset `at` is what the rule
/// yields there: the same value, and the offset behind the bytes that the
/// rule takes.
pub open spec fn agrees<T: View>(
    r: Option<(T, usize)>,
    at: usize,
    len: nat,
    expected: Parsed<T::V>,
) -> bool {
    match r {
        Some((v, end)) => at <= end <= len && expected == Some((v@, (end - at) as nat)),
        None => expected is None,
    }
}

/// The same for a parser that returns a name.
pub open spec fn agrees_on_name(
    r: Option<(&str, usize)>,
    at: usize,
    len: nat,
    expected: Parsed<Seq<u8>>,
) -> bool {
    match r {
        Some((v, end)) => at <= end <= len && expected == Some(
            (bytes_of(v), (end - at) as nat),
        ),
        None => expected is None,
    }
}

/// A name at `at`.
fn identifier<'a>(input: &'a str, at: usize) -> (r: Option<(&'a str, usize)>)
    requires
        at <= bytes_of(input).len(),
    ensures
        agrees_on_name(
            r,
            at,
            bytes_of(input).len(),
            grammar::identifier(bytes_of(input), at as int),
        ),
{
    proof {
        reveal(grammar::identifier);
    }
    let bytes = utf8(input);
    let end = skip_name(bytes, at);
    if end > at {
        Some((ascii_part(input, at, end), end))
    } else {
        None
    }
}

/// A name behind space and comments.
fn spaced_identifier<'a>(input: &'a str, at: usize) -> (r: Option<(&'a str, usize)>)
    requires
        at <= bytes_of(input).len(),
    ensures
        agrees_on_name(
            r,
            at,
            bytes_of(input).len(),
            grammar::spaced_identifier(bytes_of(input), at as int),
        ),
{
    proof {
        reveal(grammar::spaced_identifier);
    }
    let start = skip_blank(utf8(input), at);
    identifier(input, start)
}

/// A number behind a prefix that is written in lower or in upper case.
fn prefixed(bytes: &[u8], at: usize, lower: &str, upper: &str, radix: u32) -> (r: Option<
    (u32, usize),
>)
    requires
        at <= bytes@.len(),
        radix == 8 || radix == 16,
        bytes_of(lower).len() == bytes_of(upper).len(),
    ensures
        agrees(
            r,
            at,
            bytes@.len(),
            grammar::prefixed(bytes@, at as int, lower, upper, radix as nat),
        ),
{
    proof {
        reveal(grammar::prefixed);
    }
    let start = match match_tag(bytes, at, lower) {
        Some(start) => start,
        None => match match_tag(bytes, at, upper) {
            Some(start) => start,
            None => {
                return None;
            },
        },
    };
    digits(bytes, start, radix)
}

/// The two ways to write a prefix are equally long.
proof fn lemma_prefixes()
    ensures
        bytes_of("0o").len() == bytes_of("0O").len(),
        bytes_of("0x").len() == bytes_of("0X").len(),
{
    reveal(bytes_of);
    reveal_strlit("0o");
    reveal_strlit("0O");
    reveal_strlit("0x");
    reveal_strlit("0X");
    vstd::utf8::is_ascii_chars_encode_utf8("0o"@);
    vstd::utf8::is_ascii_chars_encode_utf8("0O"@);
    vstd::utf8::is_ascii_chars_encode_utf8("0x"@);
    vstd::utf8::is_ascii_chars_encode_utf8("0X"@);
}

/// A number: octal behind `0o`, hexadecimal behind `0x`, or decimal.
fn number(bytes: &[u8], at: usize) -> (r: Option<(u32, usize)>)
    requires
        at <= bytes@.len(),
    ensures
        agrees(r, at, bytes@.len(), grammar::number(bytes@, at as int)),
{
    proof {
        reveal(grammar::number);
    }
    proof {
        lemma_prefixes();
    }
    match prefixed(bytes, at, "0o", "0O", 8) {
        Some(found) => Some(found),
        None => match prefixed(bytes, at, "0x", "0X", 16) {
            Some(found) => Some(found),
            None => digits(bytes, at, 10),
        },
    }
}

/// The `k`-th register in the order in which the names are tried.
fn nth_register(k: usize) -> (r: (Register, &'static str))
    requires
        k < 9,
    ensures
        r.0 == register_at(k as int),
        r.1 == register_name(r.0),
{
    if k == 0 {
        (Register::A, "A")
    } else if k == 1 {
        (Register::B, "B")
    } else if k == 2 {
        (Register::C, "C")
    } else if k == 3 {
        (Register::X, "X")
    } else if k == 4 {
        (Register::Y, "Y")
    } else if k == 5 {
        (Register::S, "S")
    } else if k == 6 {
        (Register::DB, "DB")
    } else if k == 7 {
        (Register::PB, "PB")
    } else {
        (Register::D, "D")
    }
}

/// A register: the first of `A B C X Y S DB PB D` whose name stands at
/// `at`.
fn register(bytes: &[u8], at: usize) -> (r: Option<(Register, usize)>)
    requires
        at <= bytes@.len(),
    ensures
        agrees(r, at, bytes@.len(), grammar::register(bytes@, at as int)),
{
    let mut k: usize = 0;
    while k < 9
        invariant
            0 <= k <= 9,
            at <= bytes@.len(),
            grammar::register(bytes@, at as int) == grammar::register_from(
                bytes@,
                at as int,
                k as int,
            ),
        decreases 9 - k,
    {
        proof {
            reveal(grammar::register_from);
        }
        let (found, name) = nth_register(k);
        match match_tag(bytes, at, name) {
            Some(end) => {
                return Some((found, end));
            },
            None => {},
        }
        k += 1;
    }
    proof {
        reveal(grammar::register_from);
    }
    None
}

/// An operand: a number, an address, a register or the name of a variable.
fn operand<'a>(input: &'a str, at: usize) -> (r: Option<(Operand<'a>, usize)>)
    requires
        at <= bytes_of(input).len(),
    ensures
        agrees(r, at, bytes_of(input).len(), grammar::operand(bytes_of(input), at as int)),
{
    proof {
        reveal(grammar::operand);
        reveal(grammar::address);
    }
    let bytes = utf8(input);
    match number(bytes, at) {
        Some((value, end)) => {
            return Some((Operand::Immediate(value), end));
        },
        None => {},
    }
    match match_tag(bytes, at, "*") {
        Some(start) => match number(bytes, start) {
            Some((value, end)) => {
                return Some((Operand::Absolute(value), end));
            },
            None => {},
        },
        None => {},
    }
    match register(bytes, at) {
        Some((found, end)) => {
            return Some((Operand::Register(found), end));
        },
        None => {},
    }
    match identifier(input, at) {
        Some((name, end)) => Some((Operand::Variable(name), end)),
        None => None,
    }
}

/// An operand behind space and comments.
fn spaced_operand<'a>(input: &'a str, at: usize) -> (r: Option<(Operand<'a>, usize)>)
    requires
        at <= bytes_of(input).len(),
    ensures
        agrees(
            r,
            at,
            bytes_of(input).len(),
            grammar::spaced_operand(bytes_of(input), at as int),
        ),
{
    proof {
        reveal(grammar::spaced_operand);
    }
    let start = skip_blank(utf8(input), at);
    operand(input, start)
}

/// Two operands with the operator `op` between them.
fn operation<'a>(input: &'a str, at: usize, op: &str) -> (r: Option<
    ((Operand<'a>, Operand<'a>), usize),
>)
    requires
        at <= bytes_of(input).len(),
    ensures
        agrees(
            r,
            at,
            bytes_of(input).len(),
            grammar::operation(bytes_of(input), at as int, op),
        ),
{
    proof {
        reveal(grammar::operation);
    }
    let (left, behind_left) = match spaced_operand(input, at) {
        Some(found) => found,
        None => {
            return None;
        },
    };
    let behind_op = match token(utf8(input), behind_left, op) {
        Some(end) => end,
        None => {
            return None;
        },
    };
    match spaced_operand(input, behind_op) {
        Some((right, end)) => Some(((left, right), end)),
        None => None,
    }
}

/// The comparison inside the parentheses of a condition.
fn comparison<'a>(input: &'a str, at: usize) -> (r: Option<(Conditional<'a>, usize)>)
    requires
        at <= bytes_of(input).len(),
    ensures
        agrees(
            r,
            at,
            bytes_of(input).len(),
            grammar::comparison(bytes_of(input), at as int),
        ),
{
    proof {
        reveal(grammar::comparison);
    }
    match operation(input, at, "==") {
        Some(((l, r), end)) => {
            return Some((Conditional::Equality(l, r), end));
        },
        None => {},
    }
    match operation(input, at, "&&") {
        Some(((l, r), end)) => {
            return Some((Conditional::BitTest(l, r), end));
        },
        None => {},
    }
    match operation(input, at, "!&") {
        Some(((l, r), end)) => Some((Conditional::NotBitTest(l, r), end)),
        None => None,
    }
}

/// A condition: a comparison in parentheses.
fn conditional<'a>(input: &'a str, at: usize) -> (r: Option<(Conditional<'a>, usize)>)
    requires
        at <= bytes_of(input).len(),
    ensures
        agrees(
            r,
            at,
            bytes_of(input).len(),
            grammar::conditional(bytes_of(input), at as int),
        ),
{
    proof {
        reveal(grammar::conditional);
    }
    let bytes = utf8(input);
    let open = match token(bytes, at, "(") {
        Some(end) => end,
        None => {
            return None;
        },
    };
    let (found, behind) = match comparison(input, open) {
        Some(found) => found,
        None => {
            return None;
        },
    };
    match token(bytes, behind, ")") {
        Some(end) => Some((found, end)),
        None => None,
    }
}

/// The views of the items of a list.
pub open spec fn views_of<T: View>(list: Seq<T>) -> Seq<T::V> {
    list.map_values(|item: T| item@)
}

/// Whether the list that a parser returned at the offset `at` is the one
/// that the rule yields there.
pub open spec fn agrees_on_list<T: View>(
    r: (Vec<T>, usize),
    at: usize,
    len: nat,
    expected: (Seq<T::V>, nat),
) -> bool {
    &&& at <= r.1 <= len
    &&& views_of(r.0@) == expected.0
    &&& r.1 - at == expected.1
}

/// The `k`-th attribute in the order in which the names are tried.
fn nth_attribute(k: usize) -> (r: (Attribute, &'static str))
    requires
        k < 8,
    ensures
        r.0 == attribute_at(k as int),
        r.1 == attribute_name(r.0),
{
    if k == 0 {
        (Attribute::Emulation, "EMU")
    } else if k == 1 {
        (Attribute::Extern, "EXTERN")
    } else if k == 2 {
        (Attribute::Interrupt, "INTR")
    } else if k == 3 {
        (Attribute::Native, "NAT")
    } else if k == 4 {
        (Attribute::NarrowIndex, "NARROWX")
    } else if k == 5 {
        (Attribute::NarrowMath, "NARROWM")
    } else if k == 6 {
        (Attribute::WideIndex, "WIDEX")
    } else {
        (Attribute::WideMath, "WIDEM")
    }
}

/// An attribute: the first of `EMU EXTERN INTR NAT NARROWX NARROWM WIDEX
/// WIDEM` that stands at `at`.
fn attribute(bytes: &[u8], at: usize) -> (r: Option<(Attribute, usize)>)
    requires
        at <= bytes@.len(),
    ensures
        agrees(r, at, bytes@.len(), grammar::attribute_from(bytes@, at as int, 0)),
{
    let mut k: usize = 0;
    while k < 8
        invariant
            0 <= k <= 8,
            at <= bytes@.len(),
            grammar::attribute_from(bytes@, at as int, 0) == grammar::attribute_from(
                bytes@,
                at as int,
                k as int,
            ),
        decreases 8 - k,
    {
        proof {
            reveal(grammar::attribute_from);
        }
        let (found, name) = nth_attribute(k);
        match match_tag(bytes, at, name) {
            Some(end) => {
                return Some((found, end));
            },
            None => {},
        }
        k += 1;
    }
    proof {
        reveal(grammar::attribute_from);
    }
    None
}

/// An attribute behind space and comments.
fn spaced_attribute(bytes: &[u8], at: usize) -> (r: Option<(Attribute, usize)>)
    requires
        at <= bytes@.len(),
    ensures
        agrees(r, at, bytes@.len(), grammar::spaced_attribute(bytes@, at as int)),
{
    proof {
        reveal(grammar::spaced_attribute);
    }
    let start = skip_blank(bytes, at);
    attribute(bytes, start)
}

/// Attributes with commas between them, perhaps none.
fn attribute_list(bytes: &[u8], at: usize) -> (r: (Vec<Attribute>, usize))
    requires
        at <= bytes@.len(),
    ensures
        agrees_on_list(r, at, bytes@.len(), grammar::attribute_list(bytes@, at as int)),
{
    proof {
        reveal(grammar::attribute_list);
    }
    let mut list: Vec<Attribute> = Vec::new();
    let mut end = match spaced_attribute(bytes, at) {
        Some((first, end)) => {
            list.push(first);
            end
        },
        None => {
            assert(views_of(list@) =~= Seq::<Attribute>::empty());
            return (list, at);
        },
    };
    let ghost first = end;
    let ghost head = list@[0];
    let mut more = true;
    assert(views_of(list@) =~= seq![list@[0]]);
    while more
        invariant
            at <= first <= end <= bytes@.len(),
            list@.len() > 0,
            list@[0] == head,
            more ==> seq![list@[0]] + grammar::more_attributes(bytes@, first as int).0
                =~= views_of(list@) + grammar::more_attributes(bytes@, end as int).0,
            more ==> grammar::more_attributes(bytes@, first as int).1 == (end - first)
                + grammar::more_attributes(bytes@, end as int).1,
            !more ==> seq![list@[0]] + grammar::more_attributes(bytes@, first as int).0
                =~= views_of(list@),
            !more ==> grammar::more_attributes(bytes@, first as int).1 == end - first,
        decreases bytes@.len() - end + if more { 1nat } else { 0nat },
    {
        proof {
            reveal(grammar::more_attributes);
            reveal(grammar::token);
            lemma_comma();
        }
        let next = match token(bytes, end, ",") {
            Some(behind) => spaced_attribute(bytes, behind),
            None => None,
        };
        match next {
            Some((found, behind)) => {
                let ghost before = views_of(list@);
                list.push(found);
                assert(views_of(list@) =~= before + seq![found]);
                end = behind;
            },
            None => {
                more = false;
            },
        }
    }
    (list, end)
}

/// The attributes of a block: a list in square brackets, or nothing.
fn attributes(bytes: &[u8], at: usize) -> (r: (Vec<Attribute>, usize))
    requires
        at <= bytes@.len(),
    ensures
        agrees_on_list(r, at, bytes@.len(), grammar::attributes(bytes@, at as int)),
{
    proof {
        reveal(grammar::attributes);
    }
    match token(bytes, at, "[") {
        Some(open) => {
            let (list, behind) = attribute_list(bytes, open);
            match token(bytes, behind, "]") {
                Some(end) => {
                    return (list, end);
                },
                None => {},
            }
        },
        None => {},
    }
    let none: Vec<Attribute> = Vec::new();
    assert(views_of(none@) =~= Seq::<Attribute>::empty());
    (none, at)
}

/// A call: a name and `()`.
fn call<'a>(input: &'a str, at: usize) -> (r: Option<(Instruction<'a>, usize)>)
    requires
        at <= bytes_of(input).len(),
    ensures
        agrees(r, at, bytes_of(input).len(), grammar::call(bytes_of(input), at as int)),
{
    proof {
        reveal(grammar::call);
    }
    match spaced_identifier(input, at) {
        Some((name, behind)) => match token(utf8(input), behind, "()") {
            Some(end) => Some((Instruction::Call(name), end)),
            None => None,
        },
        None => None,
    }
}

/// The operand of a push or of a pop, behind the keyword `keyword`.
fn stacked<'a>(input: &'a str, at: usize, keyword: &str) -> (r: Option<(Operand<'a>, usize)>)
    requires
        at <= bytes_of(input).len(),
    ensures
        agrees(
            r,
            at,
            bytes_of(input).len(),
            grammar::stacked(bytes_of(input), at as int, keyword),
        ),
{
    proof {
        reveal(grammar::stacked);
    }
    match token(utf8(input), at, keyword) {
        Some(behind) => spaced_operand(input, behind),
        None => None,
    }
}

/// An assignment, plain or combined with `&` or `|`.
fn assignment<'a>(input: &'a str, at: usize) -> (r: Option<(Instruction<'a>, usize)>)
    requires
        at <= bytes_of(input).len(),
    ensures
        agrees(
            r,
            at,
            bytes_of(input).len(),
            grammar::assignment(bytes_of(input), at as int),
        ),
{
    proof {
        reveal(grammar::assignment);
    }
    match operation(input, at, ":=") {
        Some(((l, r), end)) => {
            return Some((Instruction::Assign(l, r), end));
        },
        None => {},
    }
    match operation(input, at, "&=") {
        Some(((l, r), end)) => {
            return Some((Instruction::AndAssign(l, r), end));
        },
        None => {},
    }
    match operation(input, at, "|=") {
        Some(((l, r), end)) => Some((Instruction::OrAssign(l, r), end)),
        None => None,
    }
}

/// An instruction that ends in a semicolon, without the semicolon.
fn statement<'a>(input: &'a str, at: usize) -> (r: Option<(Instruction<'a>, usize)>)
    requires
        at <= bytes_of(input).len(),
    ensures
        agrees(
            r,
            at,
            bytes_of(input).len(),
            grammar::statement(bytes_of(input), at as int),
        ),
{
    proof {
        reveal(grammar::statement);
    }
    match assignment(input, at) {
        Some(found) => {
            return Some(found);
        },
        None => {},
    }
    match call(input, at) {
        Some(found) => {
            return Some(found);
        },
        None => {},
    }
    match stacked(input, at, "PUSH") {
        Some((o, end)) => {
            return Some((Instruction::Push(o), end));
        },
        None => {},
    }
    match stacked(input, at, "POP") {
        Some((o, end)) => {
            return Some((Instruction::Pop(o), end));
        },
        None => {},
    }
    let bytes = utf8(input);
    match token(bytes, at, "SEI") {
        Some(end) => {
            return Some((Instruction::Sei, end));
        },
        None => {},
    }
    match token(bytes, at, "CLI") {
        Some(end) => Some((Instruction::Cli, end)),
        None => None,
    }
}

/// An instruction that ends in a semicolon.
fn simple<'a>(input: &'a str, at: usize) -> (r: Option<(Instruction<'a>, usize)>)
    requires
        at <= bytes_of(input).len(),
    ensures
        agrees(r, at, bytes_of(input).len(), grammar::simple(bytes_of(input), at as int)),
{
    proof {
        reveal(grammar::simple);
    }
    match statement(input, at) {
        Some((found, behind)) => match token(utf8(input), behind, ";") {
            Some(end) => Some((found, end)),
            None => None,
        },
        None => None,
    }
}

/// An instruction: one that ends in a semicolon, a loop, an `IF`, or a
/// block.
fn instruction<'a>(input: &'a str, at: usize) -> (r: Option<(Instruction<'a>, usize)>)
    requires
        at <= bytes_of(input).len(),
    ensures
        agrees(
            r,
            at,
            bytes_of(input).len(),
            grammar::instruction(bytes_of(input), at as int),
        ),
    decreases remaining(bytes_of(input), at as int), 3nat,
{
    proof {
        reveal(grammar::instruction);
        reveal(grammar::do_loop);
        reveal(grammar::if_block);
        reveal(grammar::block);
    }
    match simple(input, at) {
        Some(found) => {
            return Some(found);
        },
        None => {},
    }
    match do_loop(input, at) {
        Some(found) => {
            return Some(found);
        },
        None => {},
    }
    match if_block(input, at) {
        Some(found) => {
            return Some(found);
        },
        None => {},
    }
    match block(input, at) {
        Some((inner, end)) => Some((Instruction::Block(inner), end)),
        None => None,
    }
}

/// A loop: `DO`, a block, and perhaps `WHILE` with a condition.
fn do_loop<'a>(input: &'a str, at: usize) -> (r: Option<(Instruction<'a>, usize)>)
    requires
        at <= bytes_of(input).len(),
    ensures
        agrees(r, at, bytes_of(input).len(), grammar::do_loop(bytes_of(input), at as int)),
    decreases remaining(bytes_of(input), at as int), 2nat,
{
    proof {
        reveal(grammar::do_loop);
        reveal(grammar::block);
    }
    let bytes = utf8(input);
    let behind_do = match token(bytes, at, "DO") {
        Some(end) => end,
        None => {
            return None;
        },
    };
    let (body, behind_body) = match block(input, behind_do) {
        Some(found) => found,
        None => {
            return None;
        },
    };
    let condition = match token(bytes, behind_body, "WHILE") {
        Some(behind_while) => conditional(input, behind_while),
        None => None,
    };
    match condition {
        Some((c, end)) => Some((Instruction::Loop(body, Some(c)), end)),
        None => Some((Instruction::Loop(body, None), behind_body)),
    }
}

/// An `IF` with its condition and its block.
fn if_block<'a>(input: &'a str, at: usize) -> (r: Option<(Instruction<'a>, usize)>)
    requires
        at <= bytes_of(input).len(),
    ensures
        agrees(r, at, bytes_of(input).len(), grammar::if_block(bytes_of(input), at as int)),
    decreases remaining(bytes_of(input), at as int), 2nat,
{
    proof {
        reveal(grammar::if_block);
        reveal(grammar::block);
    }
    let behind_if = match token(utf8(input), at, "IF") {
        Some(end) => end,
        None => {
            return None;
        },
    };
    let (c, behind_condition) = match conditional(input, behind_if) {
        Some(found) => found,
        None => {
            return None;
        },
    };
    match block(input, behind_condition) {
        Some((body, end)) => Some((Instruction::If(body, c), end)),
        None => None,
    }
}

/// A block: its attributes, and its instructions in braces.
fn block<'a>(input: &'a str, at: usize) -> (r: Option<(Block<'a>, usize)>)
    requires
        at <= bytes_of(input).len(),
    ensures
        agrees(r, at, bytes_of(input).len(), grammar::block(bytes_of(input), at as int)),
    decreases remaining(bytes_of(input), at as int), 1nat,
{
    proof {
        reveal(grammar::block);
        reveal(grammar::instruction_list);
        reveal(grammar::token);
        lemma_open_brace();
    }
    let bytes = utf8(input);
    let (found, behind_attributes) = attributes(bytes, at);
    let open = match token(bytes, behind_attributes, "{") {
        Some(end) => end,
        None => {
            return None;
        },
    };
    let (list, behind_list) = instruction_list(input, open);
    match token(bytes, behind_list, "}") {
        Some(end) => {
            let body = Block { attributes: found, instructions: list };
            assert(body@.instructions =~= views_of(list@));
            assert(body@.attributes =~= views_of(found@));
            Some((body, end))
        },
        None => None,
    }
}

/// The instructions at `at`, up to the first place where none stands.
fn instruction_list<'a>(input: &'a str, at: usize) -> (r: (Vec<Instruction<'a>>, usize))
    requires
        at <= bytes_of(input).len(),
    ensures
        agrees_on_list(
            r,
            at,
            bytes_of(input).len(),
            grammar::instruction_list(bytes_of(input), at as int),
        ),
    decreases remaining(bytes_of(input), at as int), 4nat,
{
    let ghost b = bytes_of(input);
    let len = utf8(input).len();
    let mut list: Vec<Instruction<'a>> = Vec::new();
    let mut end = at;
    let mut more = true;
    assert(views_of(list@) =~= Seq::<InstructionView>::empty());
    while more && end < len
        invariant
            b == bytes_of(input),
            len == b.len(),
            at <= end <= len,
            more ==> grammar::instruction_list(b, at as int).0 =~= views_of(list@)
                + grammar::instruction_list(b, end as int).0,
            more ==> grammar::instruction_list(b, at as int).1 == (end - at)
                + grammar::instruction_list(b, end as int).1,
            !more ==> grammar::instruction_list(b, at as int).0 =~= views_of(list@),
            !more ==> grammar::instruction_list(b, at as int).1 == end - at,
        decreases len - end + if more { 1nat } else { 0nat },
    {
        proof {
            reveal(grammar::instruction_list);
            reveal(grammar::instruction);
        }
        match instruction(input, end) {
            Some((found, behind)) => {
                if behind > end {
                    let ghost before = views_of(list@);
                    list.push(found);
                    assert(views_of(list@) =~= before + seq![found@]);
                    end = behind;
                } else {
                    more = false;
                }
            },
            None => {
                more = false;
            },
        }
    }
    proof {
        reveal(grammar::instruction_list);
    }
    (list, end)
}

/// A function: its name and its body.
pub fn function<'a>(input: &'a str, at: usize) -> (r: Option<(Function<'a>, usize)>)
    requires
        at <= bytes_of(input).len(),
    ensures
        agrees(r, at, bytes_of(input).len(), grammar::function(bytes_of(input), at as int)),
{
    proof {
        reveal(grammar::function);
    }
    match spaced_identifier(input, at) {
        Some((name, behind)) => match block(input, behind) {
            Some((body, end)) => Some((Function { body, name }, end)),
            None => None,
        },
        None => None,
    }
}

/// A variable: its name, `:=`, its address, and a semicolon.
pub fn var<'a>(input: &'a str, at: usize) -> (r: Option<(Var<'a>, usize)>)
    requires
        at <= bytes_of(input).len(),
    ensures
        agrees(r, at, bytes_of(input).len(), grammar::var(bytes_of(input), at as int)),
{
    proof {
        reveal(grammar::var);
        reveal(grammar::spaced_number);
    }
    let bytes = utf8(input);
    let (name, behind_name) = match spaced_identifier(input, at) {
        Some(found) => found,
        None => {
            return None;
        },
    };
    let behind_sign = match token(bytes, behind_name, ":=") {
        Some(end) => end,
        None => {
            return None;
        },
    };
    let start = skip_blank(bytes, behind_sign);
    let (address, behind_number) = match number(bytes, start) {
        Some(found) => found,
        None => {
            return None;
        },
    };
    match token(bytes, behind_number, ";") {
        Some(end) => Some((Var { address, name }, end)),
        None => None,
    }
}

/// A definition: `FUN` and a function, or `VAR` and a variable.
fn definition<'a>(input: &'a str, at: usize) -> (r: Option<(Definition<'a>, usize)>)
    requires
        at <= bytes_of(input).len(),
    ensures
        agrees(
            r,
            at,
            bytes_of(input).len(),
            grammar::definition(bytes_of(input), at as int),
        ),
{
    proof {
        reveal(grammar::definition);
    }
    let bytes = utf8(input);
    match token(bytes, at, "FUN") {
        Some(behind) => {
            return match function(input, behind) {
                Some((f, end)) => Some((Definition::Function(f), end)),
                None => None,
            };
        },
        None => {},
    }
    match token(bytes, at, "VAR") {
        Some(behind) => match var(input, behind) {
            Some((v, end)) => Some((Definition::Var(v), end)),
            None => None,
        },
        None => None,
    }
}

/// The definitions at `at`, up to the first place where none stands.
fn definitions<'a>(input: &'a str, at: usize) -> (r: (Vec<Definition<'a>>, usize))
    requires
        at <= bytes_of(input).len(),
    ensures
        agrees_on_list(
            r,
            at,
            bytes_of(input).len(),
            grammar::definitions(bytes_of(input), at as int),
        ),
{
    let ghost b = bytes_of(input);
    let len = utf8(input).len();
    let mut list: Vec<Definition<'a>> = Vec::new();
    let mut end = at;
    let mut more = true;
    assert(views_of(list@) =~= Seq::<crate::ast::DefinitionView>::empty());
    while more && end < len
        invariant
            b == bytes_of(input),
            len == b.len(),
            at <= end <= len,
            more ==> grammar::definitions(b, at as int).0 =~= views_of(list@)
                + grammar::definitions(b, end as int).0,
            more ==> grammar::definitions(b, at as int).1 == (end - at) + grammar::definitions(
                b,
                end as int,
            ).1,
            !more ==> grammar::definitions(b, at as int).0 =~= views_of(list@),
            !more ==> grammar::definitions(b, at as int).1 == end - at,
        decreases len - end + if more { 1nat } else { 0nat },
    {
        proof {
            reveal(grammar::definitions);
        }
        match definition(input, end) {
            Some((found, behind)) => {
                if behind > end {
                    let ghost before = views_of(list@);
                    list.push(found);
                    assert(views_of(list@) =~= before + seq![found@]);
                    end = behind;
                } else {
                    more = false;
                }
            },
            None => {
                more = false;
            },
        }
    }
    proof {
        reveal(grammar::definitions);
    }
    (list, end)
}

/// Reads a program: definitions, with nothing but space behind the last.
pub fn program<'a>(input: &'a str) -> (r: Result<Program<'a>, ParseError>)
    ensures
        match r {
            Ok(p) => grammar::program(bytes_of(input)) == Ok::<ProgramView, int>(p@),
            Err(e) => grammar::program(bytes_of(input)) == Err::<ProgramView, int>(
                e.offset as int,
            ),
        },
{
    proof {
        reveal(grammar::program);
    }
    let bytes = utf8(input);
    let (list, behind) = definitions(input, 0);
    let end = skip_spaces(bytes, behind);
    if end == bytes.len() {
        let found = Program { definitions: list };
        assert(found@.definitions =~= views_of(list@));
        Ok(found)
    } else {
        Err(ParseError { offset: end })
    }
}

} // verus!
