use snazzy::ast::{
    Attribute, Block, Conditional, Definition, Function, Instruction, Operand, Program, Register,
    Var,
};
use snazzy::codegen::{assemble, Error};

fn a() -> Operand<'static> {
    Operand::Register(Register::A)
}

fn c() -> Operand<'static> {
    Operand::Register(Register::C)
}

fn imm(v: u32) -> Operand<'static> {
    Operand::Immediate(v)
}

/// A program with the variables `near` at 0xFFFF and `far` at 0x10000, and
/// one function `f` with the given attributes and body.
fn program<'a>(attributes: Vec<Attribute>, instructions: Vec<Instruction<'a>>) -> Program<'a> {
    Program {
        definitions: vec![
            Definition::Var(Var { address: 0xFFFF, name: "near" }),
            Definition::Var(Var { address: 0x10000, name: "far" }),
            Definition::Function(Function { name: "f", body: Block { attributes, instructions } }),
        ],
    }
}

#[test]
fn bad_assignment() {
    let pairs = [
        (a(), a()),
        (a(), Operand::Absolute(1)),
        (c(), c()),
        (Operand::Register(Register::Y), imm(1)),
        (Operand::Register(Register::B), imm(1)),
        (Operand::Register(Register::D), a()),
        (Operand::Register(Register::S), imm(0)),
        (Operand::Register(Register::DB), c()),
        (Operand::Register(Register::PB), c()),
        (Operand::Absolute(1), imm(1)),
        (Operand::Absolute(1), Operand::Register(Register::X)),
        (Operand::Variable("near"), imm(1)),
        (Operand::Variable("near"), c()),
        (Operand::Variable("near"), Operand::Variable("near")),
        (imm(1), a()),
        (imm(0), imm(0)),
    ];
    for (l, r) in pairs {
        let p = program(vec![], vec![Instruction::Assign(l.clone(), r.clone())]);
        assert_eq!(assemble(&p), Err(Error::BadAssignment(&l, &r, "f")));
    }
}

#[test]
fn bad_and_assignment() {
    for (l, r) in [(c(), imm(1)), (a(), a()), (Operand::Variable("near"), imm(1))] {
        let p = program(vec![], vec![Instruction::AndAssign(l.clone(), r.clone())]);
        assert_eq!(assemble(&p), Err(Error::BadAndAssignment(&l, &r, "f")));
    }
}

#[test]
fn bad_or_assignment() {
    for (l, r) in [(c(), imm(1)), (a(), a()), (Operand::Absolute(2), imm(1))] {
        let p = program(vec![], vec![Instruction::OrAssign(l.clone(), r.clone())]);
        assert_eq!(assemble(&p), Err(Error::BadOrAssignment(&l, &r, "f")));
    }
}

#[test]
fn bad_bit_test() {
    let body = || Block { attributes: vec![], instructions: vec![] };
    for (l, r) in [(a(), a()), (Operand::Register(Register::X), imm(1)), (imm(1), imm(1))] {
        let set = program(
            vec![],
            vec![Instruction::If(body(), Conditional::BitTest(l.clone(), r.clone()))],
        );
        assert_eq!(assemble(&set), Err(Error::BadBitTest(&l, &r, "f")));
        let clear = program(
            vec![],
            vec![Instruction::If(body(), Conditional::NotBitTest(l.clone(), r.clone()))],
        );
        assert_eq!(assemble(&clear), Err(Error::BadBitTest(&l, &r, "f")));
    }
    let wide = program(
        vec![Attribute::WideMath],
        vec![Instruction::If(body(), Conditional::NotBitTest(c(), imm(1)))],
    );
    assert_eq!(assemble(&wide), Err(Error::BadBitTest(&c(), &imm(1), "f")));
}

#[test]
fn bad_equality() {
    let body = || Block { attributes: vec![], instructions: vec![] };
    for (l, r) in [(c(), imm(1)), (a(), a()), (a(), Operand::Variable("near"))] {
        let p = program(
            vec![],
            vec![Instruction::Loop(body(), Some(Conditional::Equality(l.clone(), r.clone())))],
        );
        assert_eq!(assemble(&p), Err(Error::BadEquality(&l, &r, "f")));
    }
}

#[test]
fn bad_push_and_pop() {
    for o in [
        imm(1),
        Operand::Absolute(1),
        Operand::Variable("near"),
        Operand::Register(Register::B),
        Operand::Register(Register::S),
        Operand::Register(Register::D),
        Operand::Register(Register::DB),
        Operand::Register(Register::PB),
    ] {
        let push = program(vec![], vec![Instruction::Push(o.clone())]);
        assert_eq!(assemble(&push), Err(Error::BadPush(&o, "f")));
        let pop = program(vec![], vec![Instruction::Pop(o.clone())]);
        assert_eq!(assemble(&pop), Err(Error::BadPop(&o, "f")));
    }
}

#[test]
fn conflicting_attributes() {
    let p = program(vec![Attribute::NarrowMath, Attribute::WideMath], vec![]);
    assert_eq!(
        assemble(&p),
        Err(Error::ConflictingAttributes(Attribute::NarrowMath, Attribute::WideMath, "f"))
    );
}

#[test]
fn no_space() {
    let store = || Instruction::Assign(Operand::Absolute(0x2100), a());
    // 10901 stores of three bytes and the return fill the bank to the last byte.
    let mut full = vec![Instruction::Sei];
    for _ in 0..10900 {
        full.push(store());
    }
    full.push(Instruction::Sei);
    full.push(Instruction::Sei);
    let image = assemble(&program(vec![], full)).unwrap();
    assert_eq!(&image[0x7FBC..0x7FC0], &[0x21, 0x78, 0x78, 0x60]);
    assert_eq!(image[0x7FC0], b'Z');

    let mut no_return = vec![];
    for _ in 0..10901 {
        no_return.push(store());
    }
    no_return.push(Instruction::Sei);
    assert_eq!(assemble(&program(vec![], no_return)), Err(Error::NoSpace("Return", "f")));

    let mut no_store = vec![Instruction::Sei, Instruction::Sei];
    for _ in 0..10901 {
        no_store.push(store());
    }
    assert_eq!(assemble(&program(vec![], no_store)), Err(Error::NoSpace("Store A", "f")));
}

#[test]
fn no_space_names_the_operation() {
    let with = |last: Vec<Instruction<'static>>| {
        let mut list = Vec::new();
        for _ in 0..10901 {
            list.push(Instruction::Assign(Operand::Absolute(0x2100), imm(0)));
        }
        list.push(Instruction::Cli);
        list.extend(last);
        list
    };
    let block = |attributes| Instruction::Block(Block { attributes, instructions: vec![] });
    let cases: Vec<(Vec<Attribute>, Vec<Instruction<'static>>, &str)> = vec![
        (vec![], vec![Instruction::Assign(a(), imm(1))], "Load A"),
        (vec![Attribute::WideMath], vec![Instruction::Assign(c(), imm(1))], "Load C"),
        (vec![], vec![Instruction::Assign(Operand::Register(Register::X), imm(1))], "Load X imm"),
        (
            vec![],
            vec![Instruction::Assign(Operand::Register(Register::X), Operand::Variable("near"))],
            "Load X abs",
        ),
        (vec![], vec![Instruction::Assign(Operand::Variable("near"), imm(0))], "Store Zero"),
        (
            vec![],
            vec![Instruction::Assign(Operand::Variable("near"), Operand::Register(Register::X))],
            "Store X",
        ),
        (vec![], vec![Instruction::AndAssign(a(), imm(1))], "And A imm"),
        (vec![], vec![Instruction::OrAssign(a(), imm(1))], "Or A imm"),
        (vec![], vec![Instruction::Call("f")], "Call"),
        (vec![], vec![block(vec![Attribute::Emulation])], "Enable Emulation"),
        (vec![Attribute::Emulation], vec![block(vec![Attribute::Native])], "Disable Emulation"),
        (vec![], vec![block(vec![Attribute::WideMath])], "Enable Wide Math"),
        (vec![], vec![block(vec![Attribute::WideIndex])], "Enable Wide Index"),
        (
            vec![],
            vec![block(vec![Attribute::WideIndex, Attribute::WideMath])],
            "Enable Wide Math + Index",
        ),
        (
            vec![Attribute::WideIndex, Attribute::WideMath],
            vec![block(vec![Attribute::NarrowIndex, Attribute::NarrowMath])],
            "Disable wide math + index",
        ),
        (
            vec![Attribute::WideIndex],
            vec![block(vec![Attribute::NarrowIndex])],
            "Disable Wide Index",
        ),
        (
            vec![Attribute::WideMath, Attribute::NarrowIndex],
            vec![block(vec![Attribute::NarrowMath, Attribute::WideIndex])],
            "Disable Wide Math",
        ),
        (
            vec![],
            vec![Instruction::Loop(Block { attributes: vec![], instructions: vec![] }, None)],
            "Loop",
        ),
        (
            vec![],
            vec![Instruction::Loop(
                Block { attributes: vec![], instructions: vec![] },
                Some(Conditional::Equality(a(), imm(0))),
            )],
            "CMP A imm",
        ),
        (
            vec![],
            vec![Instruction::If(
                Block { attributes: vec![], instructions: vec![] },
                Conditional::BitTest(a(), imm(0)),
            )],
            "BIT A imm",
        ),
    ];
    for (attributes, last, operation) in cases {
        let p = program(attributes, with(last));
        match assemble(&p) {
            Err(Error::NoSpace(found, "f")) => assert_eq!(found, operation),
            other => panic!("{:?} for {}", other.map(|_| ()), operation),
        }
    }
}

#[test]
fn no_space_for_a_branch() {
    let mut list = Vec::new();
    for _ in 0..10900 {
        list.push(Instruction::Assign(Operand::Absolute(0x2100), imm(0)));
    }
    list.push(Instruction::Cli);
    list.push(Instruction::Loop(
        Block { attributes: vec![], instructions: vec![] },
        Some(Conditional::Equality(a(), imm(0))),
    ));
    assert_eq!(assemble(&program(vec![], list)), Err(Error::NoSpace("Loop CC", "f")));
}

#[test]
fn loop_too_long() {
    let mut body = vec![];
    for _ in 0..63 {
        body.push(Instruction::Assign(a(), imm(0)));
    }
    let p = program(
        vec![],
        vec![Instruction::Loop(
            Block { attributes: vec![], instructions: body },
            Some(Conditional::BitTest(a(), imm(1))),
        )],
    );
    assert_eq!(assemble(&p), Err(Error::LoopTooLong("f")));
}

#[test]
fn if_too_long() {
    let mut body = vec![];
    for _ in 0..64 {
        body.push(Instruction::Assign(a(), imm(0)));
    }
    let p = program(
        vec![],
        vec![Instruction::If(
            Block { attributes: vec![], instructions: body },
            Conditional::BitTest(a(), imm(1)),
        )],
    );
    assert_eq!(assemble(&p), Err(Error::IfTooLong("f")));
}

#[test]
fn invalid_address() {
    let absolute = program(vec![], vec![Instruction::Assign(Operand::Absolute(0x10000), a())]);
    assert_eq!(assemble(&absolute), Err(Error::InvalidAddress(0x10000, "f")));
    let zero = program(vec![], vec![Instruction::Assign(Operand::Absolute(0x12345), imm(0))]);
    assert_eq!(assemble(&zero), Err(Error::InvalidAddress(0x12345, "f")));
    for instruction in [
        Instruction::Assign(a(), Operand::Variable("far")),
        Instruction::Assign(Operand::Register(Register::X), Operand::Variable("far")),
        Instruction::Assign(Operand::Variable("far"), a()),
        Instruction::Assign(Operand::Variable("far"), Operand::Register(Register::X)),
        Instruction::Assign(Operand::Variable("far"), imm(0)),
    ] {
        assert_eq!(
            assemble(&program(vec![], vec![instruction])),
            Err(Error::InvalidAddress(0x10000, "f"))
        );
    }
    let near = program(vec![], vec![Instruction::Assign(a(), Operand::Variable("near"))]);
    assert_eq!(&assemble(&near).unwrap()[0..3], &[0xAD, 0xFF, 0xFF]);
}

#[test]
fn invalid_value() {
    for instruction in [
        Instruction::Assign(a(), imm(0x100)),
        Instruction::AndAssign(a(), imm(0x100)),
        Instruction::OrAssign(a(), imm(0x100)),
        Instruction::Assign(Operand::Register(Register::X), imm(0x100)),
    ] {
        assert_eq!(
            assemble(&program(vec![], vec![instruction])),
            Err(Error::InvalidValue(0x100, "f"))
        );
    }
    let wide = program(
        vec![Attribute::WideMath, Attribute::WideIndex],
        vec![Instruction::Assign(Operand::Register(Register::X), imm(0x10000))],
    );
    assert_eq!(assemble(&wide), Err(Error::InvalidValue(0x10000, "f")));
    let wide = program(vec![Attribute::WideMath], vec![Instruction::Assign(c(), imm(0x10000))]);
    assert_eq!(assemble(&wide), Err(Error::InvalidValue(0x10000, "f")));
    let test = program(
        vec![],
        vec![Instruction::If(
            Block { attributes: vec![], instructions: vec![] },
            Conditional::Equality(a(), imm(256)),
        )],
    );
    assert_eq!(assemble(&test), Err(Error::InvalidValue(256, "f")));
}

#[test]
fn invalid_register() {
    let wide = |instruction| program(vec![Attribute::WideMath], vec![instruction]);
    let narrow = |instruction| program(vec![], vec![instruction]);
    let empty = || Block { attributes: vec![], instructions: vec![] };
    let in_wide = Err(Error::InvalidRegister(Register::A, Attribute::WideMath, "f"));
    assert_eq!(assemble(&wide(Instruction::Assign(a(), imm(1)))), in_wide);
    assert_eq!(assemble(&wide(Instruction::Assign(a(), Operand::Variable("near")))), in_wide);
    assert_eq!(assemble(&wide(Instruction::AndAssign(a(), imm(1)))), in_wide);
    assert_eq!(assemble(&wide(Instruction::OrAssign(a(), imm(1)))), in_wide);
    assert_eq!(
        assemble(&wide(Instruction::If(empty(), Conditional::Equality(a(), imm(1))))),
        in_wide
    );
    assert_eq!(
        assemble(&wide(Instruction::If(empty(), Conditional::BitTest(a(), imm(1))))),
        in_wide
    );
    assert_eq!(
        assemble(&wide(Instruction::If(empty(), Conditional::NotBitTest(a(), imm(1))))),
        in_wide
    );
    let in_narrow = Err(Error::InvalidRegister(Register::C, Attribute::NarrowMath, "f"));
    assert_eq!(assemble(&narrow(Instruction::Assign(c(), imm(1)))), in_narrow);
    assert_eq!(assemble(&narrow(Instruction::Assign(c(), Operand::Variable("near")))), in_narrow);
    assert_eq!(assemble(&narrow(Instruction::Push(c()))), in_narrow);
    assert_eq!(assemble(&narrow(Instruction::Pop(c()))), in_narrow);
    assert_eq!(
        assemble(&wide(Instruction::Push(a()))),
        Err(Error::InvalidRegister(Register::A, Attribute::NarrowMath, "f"))
    );
    assert_eq!(
        assemble(&wide(Instruction::Pop(a()))),
        Err(Error::InvalidRegister(Register::A, Attribute::NarrowMath, "f"))
    );
    assert_eq!(
        assemble(&narrow(Instruction::If(empty(), Conditional::BitTest(c(), imm(1))))),
        Err(Error::InvalidRegister(Register::C, Attribute::WideMath, "f"))
    );
}

#[test]
fn the_register_is_judged_before_the_value_and_the_name() {
    let p = program(vec![Attribute::WideMath], vec![Instruction::Assign(a(), imm(0x100))]);
    assert_eq!(assemble(&p), Err(Error::InvalidRegister(Register::A, Attribute::WideMath, "f")));
    let q = program(
        vec![Attribute::WideMath],
        vec![Instruction::Assign(a(), Operand::Variable("nowhere"))],
    );
    assert_eq!(assemble(&q), Err(Error::InvalidRegister(Register::A, Attribute::WideMath, "f")));
}

#[test]
fn unknown_variable() {
    let p = program(vec![], vec![Instruction::Assign(Operand::Variable("nowhere"), imm(0))]);
    assert_eq!(assemble(&p), Err(Error::UnknownVariable("nowhere", "f")));
}

#[test]
fn unknown_function() {
    let p = program(vec![], vec![Instruction::Call("near")]);
    assert_eq!(assemble(&p), Err(Error::UnknownFunction("near", "f")));
}

#[test]
fn invalid_interrupt() {
    let p = Program {
        definitions: vec![Definition::Function(Function {
            name: "irq_emu",
            body: Block { attributes: vec![Attribute::Emulation], instructions: vec![] },
        })],
    };
    assert_eq!(assemble(&p), Err(Error::InvalidInterrupt("irq_emu")));
}

#[test]
fn first_error_is_reported() {
    let p = program(
        vec![],
        vec![
            Instruction::Call("nowhere"),
            Instruction::Assign(a(), imm(0x100)),
        ],
    );
    assert_eq!(assemble(&p), Err(Error::UnknownFunction("nowhere", "f")));
    let q = Program {
        definitions: vec![
            Definition::Function(Function {
                name: "first",
                body: Block { attributes: vec![], instructions: vec![Instruction::Push(imm(1))] },
            }),
            Definition::Function(Function {
                name: "second",
                body: Block { attributes: vec![], instructions: vec![Instruction::Pop(imm(2))] },
            }),
        ],
    };
    assert_eq!(assemble(&q), Err(Error::BadPush(&imm(1), "first")));
}
