use snazzy::ast::Attribute::{
    Emulation, Extern, Interrupt, NarrowIndex, NarrowMath, Native, WideIndex, WideMath,
};
use snazzy::ast::{
    Attribute, Block, Conditional, Definition, Function, Instruction, Operand, Program, Register,
    Var,
};
use snazzy::codegen::{assemble, declares_extern, try_assemble, Error, Halt};

fn a() -> Operand<'static> {
    Operand::Register(Register::A)
}

fn imm(v: u32) -> Operand<'static> {
    Operand::Immediate(v)
}

fn block<'a>(attributes: Vec<Attribute>, instructions: Vec<Instruction<'a>>) -> Block<'a> {
    Block { attributes, instructions }
}

fn function<'a>(
    name: &'a str,
    attributes: Vec<Attribute>,
    instructions: Vec<Instruction<'a>>,
) -> Definition<'a> {
    Definition::Function(Function { name, body: block(attributes, instructions) })
}

fn program<'a>(definitions: Vec<Definition<'a>>) -> Program<'a> {
    Program { definitions }
}

/// Instructions that emit exactly `n` bytes in narrow mode.
fn filler(n: usize) -> Vec<Instruction<'static>> {
    let mut list = Vec::new();
    for _ in 0..n / 2 {
        list.push(Instruction::Assign(a(), imm(1)));
    }
    if n % 2 == 1 {
        list.push(Instruction::Sei);
    }
    list
}

fn check_header(image: &[u8]) {
    assert_eq!(image.len(), 32768);
    assert!(image[0x7FC0..0x7FD5].iter().all(|b| *b == b'Z'));
    assert_eq!(image[0x7FD5], 0x20);
    assert_eq!(image[0x7FD6], 0x00);
    assert_eq!(image[0x7FD7], 0x05);
    assert_eq!(image[0x7FD8], 0x00);
    assert_eq!(image[0x7FD9], 0x01);
    assert_eq!(image[0x7FDA], 0x33);
    assert!(image[0x7FDB..0x7FE4].iter().all(|b| *b == 0));
}

#[test]
fn size_and_header_of_any_image() {
    check_header(&assemble(&program(vec![])).unwrap());
    check_header(&assemble(&program(vec![function("main", vec![], filler(1000))])).unwrap());
    check_header(
        &assemble(&program(vec![function("reset", vec![Attribute::Interrupt], filler(3))]))
            .unwrap(),
    );
}

#[test]
fn empty_program_has_no_code_and_no_vectors() {
    let image = assemble(&program(vec![])).unwrap();
    assert_eq!(image.len(), 32768);
    assert!(image[0..0x7FC0].iter().all(|b| *b == 0));
    assert!(image[0x7FDB..].iter().all(|b| *b == 0));
}

#[test]
fn code_is_followed_by_zeros() {
    let image = assemble(&program(vec![function("main", vec![], filler(5))])).unwrap();
    assert_eq!(&image[0..6], &[0xA9, 0x01, 0xA9, 0x01, 0x78, 0x60]);
    assert!(image[6..0x7FC0].iter().all(|b| *b == 0));
}

#[test]
fn vectors_point_to_their_handlers() {
    let names = ["cop", "brk", "nmi", "irq", "cop_emu", "nmi_emu", "reset", "irq_emu"];
    let slots = [0x7FE4, 0x7FE6, 0x7FEA, 0x7FEE, 0x7FF4, 0x7FFA, 0x7FFC, 0x7FFE];
    for k in 0..8 {
        let image = assemble(&program(vec![
            function("first", vec![], filler(0x105)),
            function(names[k], vec![Attribute::Interrupt], vec![]),
        ]))
        .unwrap();
        for j in 0..8 {
            let vector = [image[slots[j]], image[slots[j] + 1]];
            if j == k {
                assert_eq!(vector, [0x06, 0x81]);
            } else {
                assert_eq!(vector, [0, 0]);
            }
        }
        assert!(image[0x7FE0..0x7FE4].iter().all(|b| *b == 0));
        assert!(image[0x7FE8..0x7FEA].iter().all(|b| *b == 0));
        assert!(image[0x7FEC..0x7FEE].iter().all(|b| *b == 0));
        assert!(image[0x7FF0..0x7FF4].iter().all(|b| *b == 0));
        assert!(image[0x7FF6..0x7FFA].iter().all(|b| *b == 0));
    }
}

#[test]
fn vector_needs_an_interrupt_handler() {
    for name in ["cop", "brk", "nmi", "irq", "cop_emu", "nmi_emu", "reset", "irq_emu"] {
        let plain = program(vec![function(name, vec![], vec![])]);
        assert_eq!(assemble(&plain), Err(Error::InvalidInterrupt(name)));
        let handler = program(vec![function(name, vec![Attribute::Interrupt], vec![])]);
        assert!(assemble(&handler).is_ok());
    }
}

#[test]
fn first_vector_without_handler_is_reported() {
    let both = program(vec![
        function("reset", vec![], vec![]),
        function("brk", vec![Attribute::Native], vec![]),
    ]);
    assert_eq!(assemble(&both), Err(Error::InvalidInterrupt("brk")));
}

#[test]
fn variable_named_like_a_vector_leaves_the_vector_zero() {
    let image =
        assemble(&program(vec![Definition::Var(Var { address: 1, name: "reset" })])).unwrap();
    assert_eq!(&image[0x7FFC..0x7FFE], &[0, 0]);
}

#[test]
fn last_function_of_a_name_owns_the_vector() {
    let image = assemble(&program(vec![
        function("nmi", vec![Attribute::Interrupt], vec![]),
        function("nmi", vec![Attribute::Interrupt], vec![]),
    ]))
    .unwrap();
    assert_eq!(&image[0..2], &[0x40, 0x40]);
    assert_eq!(&image[0x7FEA..0x7FEC], &[0x01, 0x80]);
}

#[test]
fn mode_is_restored_after_a_block() {
    let wide = Instruction::Block(block(
        vec![Attribute::WideMath],
        vec![Instruction::Assign(Operand::Register(Register::C), imm(0x0102))],
    ));
    let image = assemble(&program(vec![function(
        "f",
        vec![],
        vec![wide, Instruction::Assign(a(), imm(3))],
    )]))
    .unwrap();
    assert_eq!(
        &image[0..10],
        &[0xC2, 0x20, 0xA9, 0x02, 0x01, 0xE2, 0x30, 0xA9, 0x03, 0x60]
    );
}

#[test]
fn index_width_is_restored_after_a_block() {
    let wide = Instruction::Block(block(
        vec![Attribute::WideIndex],
        vec![Instruction::Assign(Operand::Register(Register::X), imm(0x0102))],
    ));
    let image = assemble(&program(vec![function(
        "f",
        vec![],
        vec![wide, Instruction::Assign(Operand::Register(Register::X), imm(3))],
    )]))
    .unwrap();
    assert_eq!(
        &image[0..10],
        &[0xC2, 0x10, 0xA2, 0x02, 0x01, 0xE2, 0x10, 0xA2, 0x03, 0x60]
    );
}

#[test]
fn both_widths_change_with_one_instruction() {
    let wide = Instruction::Block(block(
        vec![Attribute::WideMath, Attribute::WideIndex],
        vec![Instruction::Sei],
    ));
    let image = assemble(&program(vec![function("f", vec![], vec![wide])])).unwrap();
    assert_eq!(&image[0..6], &[0xC2, 0x30, 0x78, 0xE2, 0x30, 0x60]);
}

#[test]
fn widths_change_apart_where_they_end_different() {
    let inner = Instruction::Block(block(
        vec![Attribute::NarrowMath, Attribute::WideIndex],
        vec![Instruction::Sei],
    ));
    let outer = Instruction::Block(block(vec![Attribute::WideMath], vec![inner]));
    let image = assemble(&program(vec![function("f", vec![], vec![outer])])).unwrap();
    assert_eq!(
        &image[0..14],
        &[0xC2, 0x20, 0xE2, 0x20, 0xC2, 0x10, 0x78, 0xC2, 0x20, 0xE2, 0x10, 0xE2, 0x30, 0x60]
    );
}

#[test]
fn emulation_is_entered_and_left() {
    let emulated = Instruction::Block(block(vec![Attribute::Emulation], vec![Instruction::Sei]));
    let image = assemble(&program(vec![function("f", vec![], vec![emulated])])).unwrap();
    assert_eq!(&image[0..6], &[0x38, 0xFB, 0x78, 0x18, 0xFB, 0x60]);
}

#[test]
fn emulation_makes_both_widths_narrow() {
    let emulated = Instruction::Block(block(vec![Attribute::Emulation], vec![Instruction::Sei]));
    let image = assemble(&program(vec![function(
        "f",
        vec![Attribute::WideMath, Attribute::WideIndex],
        vec![emulated, Instruction::Push(Operand::Register(Register::C))],
    )]))
    .unwrap();
    assert_eq!(
        &image[0..11],
        &[0x38, 0xFB, 0xE2, 0x30, 0x78, 0x18, 0xFB, 0xC2, 0x30, 0x48, 0x60]
    );
}

#[test]
fn a_function_switches_no_mode_on_entry() {
    let image = assemble(&program(vec![
        function(
            "wide",
            vec![Attribute::WideMath],
            vec![Instruction::Push(Operand::Register(Register::C))],
        ),
        function("narrow", vec![], vec![Instruction::Push(a())]),
    ]))
    .unwrap();
    assert_eq!(&image[0..4], &[0x48, 0x60, 0x48, 0x60]);
}

#[test]
fn a_call_switches_to_the_mode_of_the_callee_and_back() {
    let image = assemble(&program(vec![
        function("wide", vec![Attribute::WideMath], vec![]),
        function("main", vec![], vec![Instruction::Call("wide"), Instruction::Push(a())]),
    ]))
    .unwrap();
    assert_eq!(
        &image[0..10],
        &[0x60, 0xC2, 0x20, 0x20, 0x00, 0x80, 0xE2, 0x30, 0x48, 0x60]
    );
}

#[test]
fn forward_call_gets_the_address_of_the_callee() {
    let forward = assemble(&program(vec![
        function("first", vec![], vec![Instruction::Sei, Instruction::Call("second")]),
        function("second", vec![], vec![Instruction::Cli]),
    ]))
    .unwrap();
    assert_eq!(&forward[0..7], &[0x78, 0x20, 0x05, 0x80, 0x60, 0x58, 0x60]);
    let backward = assemble(&program(vec![
        function("second", vec![], vec![Instruction::Cli]),
        function("first", vec![], vec![Instruction::Sei, Instruction::Call("second")]),
    ]))
    .unwrap();
    assert_eq!(&backward[0..7], &[0x58, 0x60, 0x78, 0x20, 0x00, 0x80, 0x60]);
    // But for the two address bytes the functions are the same.
    assert_eq!(forward[0..2], backward[2..4]);
    assert_eq!(forward[4], backward[6]);
    assert_eq!(forward[5..7], backward[0..2]);
}

#[test]
fn several_forward_calls_are_all_resolved() {
    let image = assemble(&program(vec![
        function("a", vec![], vec![Instruction::Call("c"), Instruction::Call("b")]),
        function("b", vec![], vec![Instruction::Call("c"), Instruction::Call("a")]),
        function("c", vec![], vec![Instruction::Call("c")]),
    ]))
    .unwrap();
    assert_eq!(
        &image[0..18],
        &[
            0x20, 0x0E, 0x80, 0x20, 0x07, 0x80, 0x60, 0x20, 0x0E, 0x80, 0x20, 0x00, 0x80, 0x60,
            0x20, 0x0E, 0x80, 0x60
        ]
    );
}

#[test]
fn if_reaches_over_127_bytes() {
    let fits = assemble(&program(vec![function(
        "f",
        vec![],
        vec![Instruction::If(block(vec![], filler(127)), Conditional::Equality(a(), imm(5)))],
    )]))
    .unwrap();
    assert_eq!(&fits[0..4], &[0xC9, 0x05, 0xD0, 127]);
    assert_eq!(fits[4 + 127], 0x60);
    let long = program(vec![function(
        "f",
        vec![],
        vec![Instruction::If(block(vec![], filler(128)), Conditional::Equality(a(), imm(5)))],
    )]);
    assert_eq!(assemble(&long), Err(Error::IfTooLong("f")));
}

#[test]
fn if_counts_the_instructions_that_switch_the_mode() {
    let long = program(vec![function(
        "f",
        vec![],
        vec![Instruction::If(
            block(vec![Attribute::WideIndex], filler(124)),
            Conditional::Equality(a(), imm(5)),
        )],
    )]);
    assert_eq!(assemble(&long), Err(Error::IfTooLong("f")));
    let fits = assemble(&program(vec![function(
        "f",
        vec![],
        vec![Instruction::If(
            block(vec![Attribute::WideIndex], filler(123)),
            Conditional::Equality(a(), imm(5)),
        )],
    )]))
    .unwrap();
    assert_eq!(&fits[0..6], &[0xC9, 0x05, 0xD0, 127, 0xC2, 0x10]);
}

#[test]
fn loop_branches_over_126_bytes_and_jumps_over_more() {
    let short = assemble(&program(vec![function(
        "f",
        vec![],
        vec![Instruction::Loop(block(vec![], filler(126)), None)],
    )]))
    .unwrap();
    assert_eq!(&short[126..129], &[0x80, 0x80, 0x60]);
    let long = assemble(&program(vec![function(
        "f",
        vec![],
        vec![Instruction::Loop(block(vec![], filler(127)), None)],
    )]))
    .unwrap();
    assert_eq!(&long[127..131], &[0x4C, 0x00, 0x80, 0x60]);
}

#[test]
fn long_loop_jumps_to_the_address_of_its_start() {
    let image = assemble(&program(vec![
        function("g", vec![], filler(0x1FF)),
        function(
            "f",
            vec![],
            vec![Instruction::Sei, Instruction::Loop(block(vec![], filler(300)), None)],
        ),
    ]))
    .unwrap();
    let start = 0x200 + 1;
    assert_eq!(&image[start + 300..start + 304], &[0x4C, 0x01, 0x82, 0x60]);
}

#[test]
fn loop_with_condition_reaches_over_126_bytes() {
    let fits = assemble(&program(vec![function(
        "f",
        vec![],
        vec![Instruction::Loop(
            block(vec![], filler(124)),
            Some(Conditional::Equality(a(), imm(5))),
        )],
    )]))
    .unwrap();
    assert_eq!(&fits[124..129], &[0xC9, 0x05, 0xF0, 0x80, 0x60]);
    let long = program(vec![function(
        "f",
        vec![],
        vec![Instruction::Loop(
            block(vec![], filler(125)),
            Some(Conditional::Equality(a(), imm(5))),
        )],
    )]);
    assert_eq!(assemble(&long), Err(Error::LoopTooLong("f")));
}

#[test]
fn undeclared_names_are_refused() {
    let variable = program(vec![function(
        "f",
        vec![],
        vec![Instruction::Assign(a(), Operand::Variable("nowhere"))],
    )]);
    assert_eq!(assemble(&variable), Err(Error::UnknownVariable("nowhere", "f")));
    let store = program(vec![function(
        "f",
        vec![],
        vec![Instruction::Assign(Operand::Variable("nowhere"), a())],
    )]);
    assert_eq!(assemble(&store), Err(Error::UnknownVariable("nowhere", "f")));
    let call = program(vec![function("f", vec![], vec![Instruction::Call("nowhere")])]);
    assert_eq!(assemble(&call), Err(Error::UnknownFunction("nowhere", "f")));
}

#[test]
fn a_function_is_no_variable_and_a_variable_no_function() {
    let variable = program(vec![
        function("g", vec![], vec![]),
        function("f", vec![], vec![Instruction::Assign(a(), Operand::Variable("g"))]),
    ]);
    assert_eq!(assemble(&variable), Err(Error::UnknownVariable("g", "f")));
    let call = program(vec![
        Definition::Var(Var { address: 7, name: "v" }),
        function("f", vec![], vec![Instruction::Call("v")]),
    ]);
    assert_eq!(assemble(&call), Err(Error::UnknownFunction("v", "f")));
}

#[test]
fn later_definition_of_a_variable_stands() {
    let image = assemble(&program(vec![
        Definition::Var(Var { address: 0x1111, name: "v" }),
        function("f", vec![], vec![Instruction::Assign(a(), Operand::Variable("v"))]),
        Definition::Var(Var { address: 0x2222, name: "v" }),
    ]))
    .unwrap();
    assert_eq!(&image[0..4], &[0xAD, 0x22, 0x22, 0x60]);
}

#[test]
fn exclusive_attributes_are_refused() {
    let pairs = [
        (Interrupt, Extern, (Interrupt, Extern)),
        (Extern, Interrupt, (Extern, Interrupt)),
        (Emulation, Native, (Emulation, Native)),
        (Native, Emulation, (Native, Emulation)),
        (Emulation, WideMath, (NarrowMath, WideMath)),
        (WideMath, Emulation, (Native, Emulation)),
        (Emulation, WideIndex, (NarrowIndex, WideIndex)),
        (WideIndex, Emulation, (Native, Emulation)),
        (NarrowMath, WideMath, (NarrowMath, WideMath)),
        (WideMath, NarrowMath, (WideMath, NarrowMath)),
        (NarrowIndex, WideIndex, (NarrowIndex, WideIndex)),
        (WideIndex, NarrowIndex, (WideIndex, NarrowIndex)),
    ];
    for (first, second, reported) in pairs {
        let on_function = program(vec![function("f", vec![first, second], vec![])]);
        assert_eq!(
            assemble(&on_function),
            Err(Error::ConflictingAttributes(reported.0, reported.1, "f"))
        );
        let on_block = program(vec![function(
            "f",
            vec![],
            vec![Instruction::Sei, Instruction::Block(block(vec![first, second], vec![]))],
        )]);
        assert_eq!(
            assemble(&on_block),
            Err(Error::ConflictingAttributes(reported.0, reported.1, "f"))
        );
    }
}

#[test]
fn attributes_that_agree_are_accepted() {
    for list in [
        vec![Emulation, NarrowMath, NarrowIndex, Interrupt],
        vec![Native, WideMath, WideIndex],
        vec![Native, NarrowMath, WideIndex, Extern],
        vec![WideMath, WideMath],
    ] {
        assert!(assemble(&program(vec![function("f", list, vec![])])).is_ok());
    }
}

#[test]
fn conflict_of_the_callee_is_found_at_the_call() {
    let p = program(vec![
        function("main", vec![], vec![Instruction::Call("bad")]),
        function("bad", vec![Attribute::Native, Attribute::Emulation], vec![]),
    ]);
    assert_eq!(
        assemble(&p),
        Err(Error::ConflictingAttributes(Attribute::Native, Attribute::Emulation, "main"))
    );
}

#[test]
fn call_of_an_extern_function_is_told_apart() {
    let p = program(vec![
        function("far", vec![Attribute::Extern], vec![]),
        function("main", vec![], vec![Instruction::Call("far")]),
    ]);
    assert_eq!(try_assemble(&p), Err(Halt::ExternCall("far", "main")));
    let q = program(vec![function("far", vec![Attribute::Extern], vec![])]);
    assert_eq!(try_assemble(&q).map(|image| image[0]), Ok(0x6B));
    let broken = program(vec![function("f", vec![], vec![Instruction::Call("g")])]);
    assert_eq!(try_assemble(&broken), Err(Halt::Error(Error::UnknownFunction("g", "f"))));
}

#[test]
fn a_program_without_extern_functions_makes_no_extern_call() {
    let plain = program(vec![
        function("g", vec![Attribute::Interrupt], vec![]),
        function("main", vec![], vec![Instruction::Call("g")]),
    ]);
    assert!(!declares_extern(&plain));
    assert!(try_assemble(&plain).is_ok());
    let far = program(vec![
        Definition::Var(Var { address: 1, name: "v" }),
        function("main", vec![], vec![]),
        function("far", vec![Attribute::Native, Attribute::Extern], vec![]),
    ]);
    assert!(declares_extern(&far));
    assert!(!declares_extern(&program(vec![])));
}
