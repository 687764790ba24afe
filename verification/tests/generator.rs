use snazzy::ast::{
    Attribute, Block, Conditional, Function, Instruction, Operand, Register,
};
use snazzy::codegen::{
    assemble_conditional, assemble_function, assemble_instruction, update_codegen,
    update_emulation, update_mx, Context, Error, Halt, Relocation,
};
use snazzy::names::Name;

fn a() -> Operand<'static> {
    Operand::Register(Register::A)
}

fn c() -> Operand<'static> {
    Operand::Register(Register::C)
}

fn imm(v: u32) -> Operand<'static> {
    Operand::Immediate(v)
}

fn modes(context: &Context) -> (bool, bool, bool) {
    (context.emulation, context.wide_math, context.wide_index)
}

/// A generator whose bank has room for `room` bytes more.
fn nearly_full(room: usize) -> Context<'static> {
    let mut context = Context::new();
    context.bank.code = vec![0xEA; 0x7FC0 - room];
    context
}

#[test]
fn a_new_generator_is_empty() {
    let context = Context::new();
    assert_eq!(context.bank.start, 0x8000);
    assert_eq!(context.bank.len, 0x7FC0);
    assert!(context.bank.code.is_empty());
    assert!(context.relocations.is_empty());
    assert_eq!(modes(&context), (false, false, false));
    assert!(context.names.get("anything").is_none());
}

#[test]
fn push_code_appends_or_leaves_the_bank() {
    let mut context = nearly_full(3);
    assert_eq!(context.bank.push_code("One", "f", &[1, 2]), Ok(()));
    assert_eq!(&context.bank.code[0x7FBD..], &[1, 2]);
    assert_eq!(
        context.bank.push_code("Two", "f", &[3, 4]),
        Err(Halt::Error(Error::NoSpace("Two", "f")))
    );
    assert_eq!(context.bank.code.len(), 0x7FBF);
    assert_eq!(context.bank.push_code("Three", "f", &[5]), Ok(()));
    assert_eq!(context.bank.code.len(), 0x7FC0);
    assert_eq!(context.bank.push_code("None", "f", &[]), Ok(()));
    assert_eq!(context.bank.code.len(), 0x7FC0);
}

#[test]
fn an_unknown_variable_emits_nothing() {
    let forms = [
        Instruction::Assign(a(), Operand::Variable("nope")),
        Instruction::Assign(Operand::Register(Register::X), Operand::Variable("nope")),
        Instruction::Assign(Operand::Variable("nope"), a()),
        Instruction::Assign(Operand::Variable("nope"), Operand::Register(Register::X)),
        Instruction::Assign(Operand::Variable("nope"), imm(0)),
    ];
    for form in &forms {
        let mut context = Context::new();
        assert_eq!(
            assemble_instruction(&mut context, form, "f"),
            Err(Halt::Error(Error::UnknownVariable("nope", "f")))
        );
        assert!(context.bank.code.is_empty());
        assert!(context.relocations.is_empty());
    }
}

#[test]
fn a_call_of_no_function_changes_nothing() {
    for target in ["nope", "v"] {
        let call = Instruction::Call(target);
        let mut context = Context::new();
        context.names.insert("v", Name::Var(0x10));
        context.wide_index = true;
        assert_eq!(
            assemble_instruction(&mut context, &call, "f"),
            Err(Halt::Error(Error::UnknownFunction(target, "f")))
        );
        assert!(context.bank.code.is_empty());
        assert!(context.relocations.is_empty());
        assert_eq!(modes(&context), (false, false, true));
    }
}

#[test]
fn an_assignment_that_is_refused_emits_nothing() {
    let y = Operand::Register(Register::Y);
    let far = Operand::Absolute(0x10000);
    let near = Operand::Absolute(0x2100);
    let cases = [
        (a(), imm(0x100), Error::InvalidValue(0x100, "f")),
        (y.clone(), imm(1), Error::BadAssignment(&y, &imm(1), "f")),
        (far.clone(), a(), Error::InvalidAddress(0x10000, "f")),
        (near.clone(), imm(1), Error::BadAssignment(&near, &imm(1), "f")),
        (c(), imm(1), Error::InvalidRegister(Register::C, Attribute::NarrowMath, "f")),
    ];
    for (l, r, error) in cases {
        let i = Instruction::Assign(l, r);
        let mut context = Context::new();
        let result = assemble_instruction(&mut context, &i, "f");
        assert_eq!(format!("{:?}", result), format!("{:?}", Err::<(), _>(Halt::Error(error))));
        assert!(context.bank.code.is_empty());
    }
}

#[test]
fn the_accumulator_goes_by_the_name_of_its_width() {
    let narrow = Instruction::Assign(a(), imm(1));
    let wide = Instruction::Assign(c(), imm(0x1234));
    let mut context = Context::new();
    context.wide_math = true;
    assert_eq!(
        assemble_instruction(&mut context, &narrow, "f"),
        Err(Halt::Error(Error::InvalidRegister(Register::A, Attribute::WideMath, "f")))
    );
    assert!(context.bank.code.is_empty());
    assert_eq!(assemble_instruction(&mut context, &wide, "f"), Ok(()));
    assert_eq!(context.bank.code, vec![0xA9, 0x34, 0x12]);
    assert_eq!(modes(&context), (false, true, false));
}

#[test]
fn a_condition_that_is_refused_emits_nothing() {
    let x = Operand::Register(Register::X);
    let v = Operand::Variable("v");
    let cases = [
        (Conditional::Equality(x.clone(), imm(1)), Error::BadEquality(&x, &imm(1), "f")),
        (Conditional::NotBitTest(c(), imm(1)), Error::BadBitTest(&c(), &imm(1), "f")),
        (Conditional::Equality(a(), imm(0x100)), Error::InvalidValue(0x100, "f")),
        (Conditional::BitTest(a(), v.clone()), Error::BadBitTest(&a(), &v, "f")),
        (
            Conditional::BitTest(c(), imm(0x1234)),
            Error::InvalidRegister(Register::C, Attribute::WideMath, "f"),
        ),
    ];
    for (condition, error) in cases {
        let mut context = Context::new();
        let result = assemble_conditional(&mut context, &condition, None, true, "f");
        assert_eq!(format!("{:?}", result), format!("{:?}", Err::<(), _>(Halt::Error(error))));
        assert!(context.bank.code.is_empty());
    }
}

#[test]
fn a_wide_test_of_bits() {
    let condition = Conditional::BitTest(c(), imm(0x1234));
    let mut context = Context::new();
    context.wide_math = true;
    assert_eq!(assemble_conditional(&mut context, &condition, None, true, "f"), Ok(()));
    assert_eq!(context.bank.code, vec![0x89, 0x34, 0x12, 0xF0, 0xFE]);
}

#[test]
fn a_test_stays_where_the_branch_is_refused() {
    let condition = Conditional::Equality(a(), imm(1));
    // No room for the branch behind the test.
    let mut context = nearly_full(3);
    assert_eq!(
        assemble_conditional(&mut context, &condition, None, true, "f"),
        Err(Halt::Error(Error::NoSpace("Loop CC", "f")))
    );
    assert_eq!(&context.bank.code[0x7FBD..], &[0xC9, 0x01]);
    // A loop that is too long.
    let mut context = Context::new();
    context.bank.code = vec![0xEA; 125];
    assert_eq!(
        assemble_conditional(&mut context, &condition, Some(0), false, "f"),
        Err(Halt::Error(Error::LoopTooLong("f")))
    );
    assert_eq!(context.bank.code.len(), 127);
    // No room for the test.
    let mut context = nearly_full(1);
    assert_eq!(
        assemble_conditional(&mut context, &condition, None, true, "f"),
        Err(Halt::Error(Error::NoSpace("CMP A imm", "f")))
    );
    assert_eq!(context.bank.code.len(), 0x7FBF);
}

#[test]
fn conflicting_attributes_change_nothing() {
    let e = Attribute::Emulation;
    let n = Attribute::Native;
    let wm = Attribute::WideMath;
    let nm = Attribute::NarrowMath;
    let wx = Attribute::WideIndex;
    let nx = Attribute::NarrowIndex;
    let i = Attribute::Interrupt;
    let x = Attribute::Extern;
    let pairs = [
        (e, n, (e, n)),
        (n, e, (n, e)),
        (e, wm, (nm, wm)),
        (wm, e, (n, e)),
        (e, wx, (nx, wx)),
        (wx, e, (n, e)),
        (nm, wm, (nm, wm)),
        (wm, nm, (wm, nm)),
        (nx, wx, (nx, wx)),
        (wx, nx, (wx, nx)),
        (i, x, (i, x)),
        (x, i, (x, i)),
    ];
    for (first, second, reported) in pairs {
        let list = vec![first, second];
        let mut context = Context::new();
        context.bank.code = vec![1, 2, 3];
        context.wide_math = true;
        context.relocations.push(Relocation::Function("g", 1));
        assert_eq!(
            update_codegen(&mut context, &list, "f"),
            Err(Halt::Error(Error::ConflictingAttributes(reported.0, reported.1, "f")))
        );
        assert_eq!(context.bank.code, vec![1, 2, 3]);
        assert_eq!(modes(&context), (false, true, false));
        assert_eq!(context.relocations, vec![Relocation::Function("g", 1)]);
    }
}

#[test]
fn a_conflict_behind_an_attribute_without_one_changes_nothing() {
    let list = vec![Attribute::NarrowMath, Attribute::Native, Attribute::Emulation];
    let mut context = Context::new();
    context.wide_math = true;
    assert_eq!(
        update_codegen(&mut context, &list, "f"),
        Err(Halt::Error(Error::ConflictingAttributes(
            Attribute::Native,
            Attribute::Emulation,
            "f"
        )))
    );
    assert_eq!(modes(&context), (false, true, false));
}

#[test]
fn attributes_set_the_mode_and_emit_nothing() {
    let mut context = Context::new();
    assert_eq!(
        update_codegen(&mut context, &vec![Attribute::WideMath, Attribute::WideIndex], "f"),
        Ok(())
    );
    assert_eq!(modes(&context), (false, true, true));
    assert_eq!(update_codegen(&mut context, &vec![Attribute::Interrupt], "f"), Ok(()));
    assert_eq!(modes(&context), (false, true, true));
    assert_eq!(update_codegen(&mut context, &vec![Attribute::Emulation], "f"), Ok(()));
    assert_eq!(modes(&context), (true, false, false));
    assert_eq!(update_codegen(&mut context, &vec![Attribute::NarrowIndex], "f"), Ok(()));
    assert_eq!(modes(&context), (true, false, false));
    assert_eq!(update_codegen(&mut context, &vec![Attribute::WideIndex], "f"), Ok(()));
    assert_eq!(modes(&context), (false, false, true));
    assert!(context.bank.code.is_empty());
}

#[test]
fn emulation_is_toggled_where_it_differs() {
    let mut context = Context::new();
    assert_eq!(update_emulation(&mut context, false, "f"), Ok(()));
    assert!(context.bank.code.is_empty());
    assert_eq!(update_emulation(&mut context, true, "f"), Ok(()));
    assert_eq!(context.bank.code, vec![0x18, 0xFB]);
    context.emulation = true;
    assert_eq!(update_emulation(&mut context, false, "f"), Ok(()));
    assert_eq!(context.bank.code, vec![0x18, 0xFB, 0x38, 0xFB]);
    let mut full = nearly_full(1);
    assert_eq!(
        update_emulation(&mut full, true, "f"),
        Err(Halt::Error(Error::NoSpace("Disable Emulation", "f")))
    );
    assert_eq!(full.bank.code.len(), 0x7FBF);
}

#[test]
fn widths_are_set_where_they_differ() {
    let code_for = |now: (bool, bool), before: (bool, bool)| {
        let mut context = Context::new();
        context.wide_math = now.0;
        context.wide_index = now.1;
        assert_eq!(update_mx(&mut context, before.0, before.1, "f"), Ok(()));
        context.bank.code
    };
    assert_eq!(code_for((false, false), (false, false)), vec![]);
    assert_eq!(code_for((true, true), (false, false)), vec![0xC2, 0x30]);
    assert_eq!(code_for((false, false), (true, true)), vec![0xE2, 0x30]);
    assert_eq!(code_for((true, false), (false, false)), vec![0xC2, 0x20]);
    assert_eq!(code_for((false, true), (false, false)), vec![0xC2, 0x10]);
    assert_eq!(code_for((false, false), (true, false)), vec![0xE2, 0x30]);
    assert_eq!(code_for((false, false), (false, true)), vec![0xE2, 0x10]);
    assert_eq!(code_for((true, true), (false, true)), vec![0xC2, 0x30]);
    assert_eq!(code_for((true, true), (true, false)), vec![0xC2, 0x10]);
    assert_eq!(code_for((true, false), (false, true)), vec![0xC2, 0x20, 0xE2, 0x10]);
    assert_eq!(code_for((false, true), (true, false)), vec![0xE2, 0x20, 0xC2, 0x10]);
}

#[test]
fn the_second_width_may_find_no_room() {
    let mut context = nearly_full(3);
    context.wide_math = true;
    assert_eq!(
        update_mx(&mut context, false, true, "f"),
        Err(Halt::Error(Error::NoSpace("Disable Wide Index", "f")))
    );
    assert_eq!(&context.bank.code[0x7FBD..], &[0xC2, 0x20]);
}

#[test]
fn a_block_that_finds_no_room_leaves_the_mode() {
    let block = Instruction::Block(Block {
        attributes: vec![Attribute::WideMath, Attribute::Emulation],
        instructions: vec![],
    });
    let mut context = nearly_full(1);
    assert!(assemble_instruction(&mut context, &block, "f").is_err());
    assert_eq!(context.bank.code.len(), 0x7FBF);
    assert_eq!(modes(&context), (false, false, false));

    let wide = Instruction::Block(Block {
        attributes: vec![Attribute::WideIndex],
        instructions: vec![Instruction::Sei],
    });
    let mut context = nearly_full(1);
    assert_eq!(
        assemble_instruction(&mut context, &wide, "f"),
        Err(Halt::Error(Error::NoSpace("Enable Wide Index", "f")))
    );
    assert_eq!(context.bank.code.len(), 0x7FBF);
    assert_eq!(modes(&context), (false, false, false));
    // Room for the way in and for the body, none for the way out.
    let mut context = nearly_full(4);
    assert_eq!(
        assemble_instruction(&mut context, &wide, "f"),
        Err(Halt::Error(Error::NoSpace("Disable Wide Index", "f")))
    );
    assert_eq!(&context.bank.code[0x7FBC..], &[0xC2, 0x10, 0x78]);
    assert_eq!(modes(&context), (false, false, true));
}

#[test]
fn an_if_that_is_too_long_stops_behind_its_block() {
    let mut body = Vec::new();
    for _ in 0..64 {
        body.push(Instruction::Assign(a(), imm(0)));
    }
    let i = Instruction::If(
        Block { attributes: vec![], instructions: body },
        Conditional::Equality(a(), imm(5)),
    );
    let mut context = Context::new();
    assert_eq!(
        assemble_instruction(&mut context, &i, "f"),
        Err(Halt::Error(Error::IfTooLong("f")))
    );
    assert_eq!(context.bank.code.len(), 4 + 128);
    assert_eq!(&context.bank.code[0..4], &[0xC9, 0x05, 0xD0, 0xFE]);
}

#[test]
fn a_list_stops_at_its_first_instruction_that_fails() {
    let block = Instruction::Block(Block {
        attributes: vec![],
        instructions: vec![
            Instruction::Sei,
            Instruction::Push(imm(1)),
            Instruction::Cli,
        ],
    });
    let mut context = Context::new();
    assert_eq!(
        assemble_instruction(&mut context, &block, "f"),
        Err(Halt::Error(Error::BadPush(&imm(1), "f")))
    );
    assert_eq!(context.bank.code, vec![0x78]);
}

#[test]
fn a_call_before_its_callee_waits_for_the_address() {
    let attributes = vec![];
    let call = Instruction::Call("g");
    let g = Function { name: "g", body: Block { attributes: vec![], instructions: vec![] } };
    let mut context = Context::new();
    context.names.insert("g", Name::Function(None, &attributes));
    assert_eq!(assemble_instruction(&mut context, &call, "f"), Ok(()));
    assert_eq!(assemble_instruction(&mut context, &call, "f"), Ok(()));
    assert_eq!(context.bank.code, vec![0x20, 0, 0, 0x20, 0, 0]);
    assert_eq!(
        context.relocations,
        vec![Relocation::Function("g", 1), Relocation::Function("g", 4)]
    );
    assert_eq!(assemble_function(&mut context, &g), Ok(()));
    assert_eq!(context.bank.code, vec![0x20, 0x06, 0x80, 0x20, 0x06, 0x80, 0x60]);
    assert!(context.relocations.is_empty());
    assert_eq!(assemble_instruction(&mut context, &call, "f"), Ok(()));
    assert_eq!(&context.bank.code[7..], &[0x20, 0x06, 0x80]);
    assert!(context.relocations.is_empty());
}

#[test]
fn a_call_that_finds_no_room_leaves_no_relocation() {
    let attributes = vec![];
    let call = Instruction::Call("g");
    let mut context = nearly_full(2);
    context.names.insert("g", Name::Function(None, &attributes));
    assert_eq!(
        assemble_instruction(&mut context, &call, "f"),
        Err(Halt::Error(Error::NoSpace("Call", "f")))
    );
    assert_eq!(context.bank.code.len(), 0x7FBE);
    assert!(context.relocations.is_empty());
}

#[test]
fn a_function_with_conflicting_attributes_has_its_address() {
    let attributes = vec![];
    let g = Function {
        name: "g",
        body: Block {
            attributes: vec![Attribute::NarrowIndex, Attribute::WideIndex],
            instructions: vec![],
        },
    };
    let mut context = Context::new();
    context.names.insert("g", Name::Function(None, &attributes));
    context.bank.code = vec![0x20, 0, 0];
    context.relocations.push(Relocation::Function("g", 1));
    assert_eq!(
        assemble_function(&mut context, &g),
        Err(Halt::Error(Error::ConflictingAttributes(
            Attribute::NarrowIndex,
            Attribute::WideIndex,
            "g"
        )))
    );
    assert_eq!(context.bank.code, vec![0x20, 0x03, 0x80]);
    assert!(context.relocations.is_empty());
    assert_eq!(modes(&context), (false, false, false));
}
