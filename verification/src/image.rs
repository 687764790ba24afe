//! The model of a whole compilation: the name table, functions, and the
//! layout of the finished image; and the last step of a compilation, which
//! turns the code into the image.

use vstd::prelude::*;
use vstd::string::*;
use crate::ast::{bytes_of, Attribute, DefinitionView, FunctionView, ProgramView};
use crate::codegen::{has_attribute, Error, Halt};
use crate::model::{
    first_conflict, high_byte, initial_mode, instructions, low_byte, push_code, refuse, target_mode,
    ErrorView, HaltView, NameView, RelocationView, State, Step, BANK_CAPACITY, BANK_START,
    IMAGE_SIZE,
};
use crate::names::{Name, NameTable};
use crate::text::{high, low};

verus! {

/// The offset of the first byte of the header.
pub const HEADER_START: usize = 0x7FC0;

/// The number of bytes of the title.
pub const TITLE_LENGTH: usize = 21;

// ---------------------------------------------------------------------------
// The name table
// ---------------------------------------------------------------------------

/// The entry under which a definition is first registered: a variable with
/// its address, a function with its attributes and no address yet.
pub open spec fn registered_entry(d: DefinitionView) -> NameView {
    match d {
        DefinitionView::Var(v) => NameView::Var(v.address),
        DefinitionView::Function(f) => NameView::Function(None, f.body.attributes),
    }
}

/// The name of a definition.
pub open spec fn defined_name(d: DefinitionView) -> Seq<u8> {
    match d {
        DefinitionView::Var(v) => v.name,
        DefinitionView::Function(f) => f.name,
    }
}

/// The name table after the first `n` definitions have been registered.
/// Where a name is defined twice, the later definition stands.
pub open spec fn registered(definitions: Seq<DefinitionView>, n: nat) -> Map<Seq<u8>, NameView>
    decreases n,
{
    if n == 0 || n > definitions.len() {
        Map::empty()
    } else {
        registered(definitions, (n - 1) as nat).insert(
            defined_name(definitions[n - 1]),
            registered_entry(definitions[n - 1]),
        )
    }
}

// ---------------------------------------------------------------------------
// Relocations
// ---------------------------------------------------------------------------

/// Whether a relocation waits for the address of the function `name`.
pub open spec fn waits_for(r: RelocationView, name: Seq<u8>) -> bool {
    r matches RelocationView::Function(n, _) && n == name
}

/// The code with the two low bytes of `address` written at `offset`, the
/// lower first.
pub open spec fn patch(code: Seq<u8>, offset: int, address: int) -> Seq<u8> {
    code.update(offset, low_byte(address)).update(offset + 1, high_byte(address))
}

/// The code after the first `n` relocations have been looked at: `address`
/// is written at each that waits for `name`.
pub open spec fn resolved_code(
    code: Seq<u8>,
    relocations: Seq<RelocationView>,
    n: nat,
    name: Seq<u8>,
    address: int,
) -> Seq<u8>
    decreases n,
{
    if n == 0 || n > relocations.len() {
        code
    } else {
        let before = resolved_code(code, relocations, (n - 1) as nat, name, address);
        match relocations[n - 1] {
            RelocationView::Function(target, offset) => if target == name {
                patch(before, offset as int, address)
            } else {
                before
            },
            RelocationView::Break(_) => before,
        }
    }
}

/// Whether each call of the list that waits for `name` holds `address` in
/// the code: its two address bytes are the two low bytes of the address.
pub open spec fn holds_address(
    code: Seq<u8>,
    relocations: Seq<RelocationView>,
    name: Seq<u8>,
    address: int,
) -> bool {
    forall|j: int|
        0 <= j < relocations.len() ==> match #[trigger] relocations[j] {
            RelocationView::Function(target, offset) => target == name ==> code[offset as int]
                == low_byte(address) && code[offset + 1] == high_byte(address),
            RelocationView::Break(_) => true,
        }
}

/// The relocations that still wait once `name` has an address.
pub open spec fn unresolved(relocations: Seq<RelocationView>, name: Seq<u8>) -> Seq<
    RelocationView,
> {
    relocations.filter(|r: RelocationView| !waits_for(r, name))
}

// ---------------------------------------------------------------------------
// Functions
// ---------------------------------------------------------------------------

/// The opcode that returns from a function with the given attributes.
pub open spec fn return_opcode(attributes: Seq<Attribute>) -> u8 {
    if attributes.contains(Attribute::Interrupt) {
        0x40
    } else if attributes.contains(Attribute::Extern) {
        0x6B
    } else {
        0x60
    }
}

/// The state `s` once `g` stands for a function with the given address and
/// attributes: the calls that waited for `g` hold the address, and no
/// relocation waits for `g`.
pub open spec fn addressed_as(
    s: State,
    g: Seq<u8>,
    address: usize,
    attributes: Seq<Attribute>,
) -> State {
    State {
        code: resolved_code(s.code, s.relocations, s.relocations.len(), g, address as int),
        mode: s.mode,
        names: s.names.insert(g, NameView::Function(Some(address), attributes)),
        relocations: unresolved(s.relocations, g),
    }
}

/// The state when the body of `f` is about to be emitted: the function has
/// its address, the calls that waited for it are patched, and the mode is
/// that of its attributes. No instruction is emitted to reach that mode.
pub open spec fn open_function(s: State, f: FunctionView) -> Step {
    match first_conflict(f.body.attributes, f.body.attributes.len()) {
        Some((a, b)) => refuse(ErrorView::ConflictingAttributes(a, b, f.name)),
        None => Ok(
            State {
                mode: target_mode(s.mode, f.body.attributes),
                ..addressed_as(
                    s,
                    f.name,
                    (s.code.len() + BANK_START) as usize,
                    f.body.attributes,
                )
            },
        ),
    }
}

/// The state after a function: its body, its return instruction, and the
/// mode that held before it.
pub open spec fn function(s: State, f: FunctionView) -> Step {
    match open_function(s, f) {
        Err(h) => Err(h),
        Ok(s1) => match instructions(s1, f.body.instructions, f.body.instructions.len(), f.name) {
            Err(h) => Err(h),
            Ok(s2) => match push_code(
                s2,
                "Return",
                f.name,
                seq![return_opcode(f.body.attributes)],
            ) {
                Err(h) => Err(h),
                Ok(s3) => Ok(State { mode: s.mode, ..s3 }),
            },
        },
    }
}

/// The state after the functions among the first `n` definitions.
pub open spec fn functions(s: State, definitions: Seq<DefinitionView>, n: nat) -> Step
    decreases n,
{
    if n == 0 || n > definitions.len() {
        Ok(s)
    } else {
        match functions(s, definitions, (n - 1) as nat) {
            Err(h) => Err(h),
            Ok(s1) => match definitions[n - 1] {
                DefinitionView::Function(f) => function(s1, f),
                DefinitionView::Var(_) => Ok(s1),
            },
        }
    }
}

/// The state in which code generation starts: no code, the initial mode,
/// every definition registered.
pub open spec fn initial_state(p: ProgramView) -> State {
    State {
        code: Seq::empty(),
        mode: initial_mode(),
        names: registered(p.definitions, p.definitions.len()),
        relocations: Seq::empty(),
    }
}

// ---------------------------------------------------------------------------
// The image
// ---------------------------------------------------------------------------

/// The code followed by zeros up to the size of an image.
pub open spec fn padded(code: Seq<u8>) -> Seq<u8> {
    Seq::new(
        IMAGE_SIZE as nat,
        |i: int|
            if i < code.len() {
                code[i]
            } else {
                0u8
            },
    )
}

/// The byte of the header at `offset` from the start of the image, before
/// the vectors are written.
pub open spec fn header_byte(offset: int) -> u8 {
    if HEADER_START <= offset < HEADER_START + TITLE_LENGTH {
        0x5A
    } else if offset == 0x7FD5 {
        0x20
    } else if offset == 0x7FD7 {
        0x05
    } else if offset == 0x7FD9 {
        0x01
    } else if offset == 0x7FDA {
        0x33
    } else {
        0
    }
}

/// The image with the constant part of its header.
pub open spec fn with_header(image: Seq<u8>) -> Seq<u8> {
    Seq::new(
        image.len(),
        |i: int|
            if i >= HEADER_START {
                header_byte(i)
            } else {
                image[i]
            },
    )
}

/// The number of interrupt vectors.
pub const VECTOR_COUNT: usize = 8;

/// The name of the function that the `k`-th vector points to.
pub open spec fn vector_name(k: int) -> Seq<u8> {
    if k == 0 {
        bytes_of("cop")
    } else if k == 1 {
        bytes_of("brk")
    } else if k == 2 {
        bytes_of("nmi")
    } else if k == 3 {
        bytes_of("irq")
    } else if k == 4 {
        bytes_of("cop_emu")
    } else if k == 5 {
        bytes_of("nmi_emu")
    } else if k == 6 {
        bytes_of("reset")
    } else {
        bytes_of("irq_emu")
    }
}

/// The offset of the `k`-th vector in the image.
pub open spec fn vector_offset(k: int) -> int {
    if k == 0 {
        0x7FE4
    } else if k == 1 {
        0x7FE6
    } else if k == 2 {
        0x7FEA
    } else if k == 3 {
        0x7FEE
    } else if k == 4 {
        0x7FF4
    } else if k == 5 {
        0x7FFA
    } else if k == 6 {
        0x7FFC
    } else {
        0x7FFE
    }
}

/// The image with one vector written, if the name table holds a function of
/// the vector's name. Such a function must be an interrupt handler.
pub open spec fn with_vector(image: Seq<u8>, names: Map<Seq<u8>, NameView>, k: int) -> Result<
    Seq<u8>,
    HaltView,
> {
    let name = vector_name(k);
    if names.contains_key(name) {
        match names[name] {
            NameView::Function(Some(address), attributes) => if attributes.contains(
                Attribute::Interrupt,
            ) {
                Ok(patch(image, vector_offset(k), address as int))
            } else {
                Err(HaltView::Error(ErrorView::InvalidInterrupt(name)))
            },
            _ => Ok(image),
        }
    } else {
        Ok(image)
    }
}

/// The image with the first `n` vectors written.
pub open spec fn with_vectors(image: Seq<u8>, names: Map<Seq<u8>, NameView>, n: nat) -> Result<
    Seq<u8>,
    HaltView,
>
    decreases n,
{
    if n == 0 {
        Ok(image)
    } else {
        match with_vectors(image, names, (n - 1) as nat) {
            Err(h) => Err(h),
            Ok(before) => with_vector(before, names, n - 1),
        }
    }
}

/// The image of a program, or the reason why there is none.
pub open spec fn image_of(p: ProgramView) -> Result<Seq<u8>, HaltView> {
    match functions(initial_state(p), p.definitions, p.definitions.len()) {
        Err(h) => Err(h),
        Ok(s) => if s.relocations.len() > 0 {
            Err(HaltView::Error(ErrorView::UnresolvedName(s.relocations[0])))
        } else {
            with_vectors(with_header(padded(s.code)), s.names, VECTOR_COUNT as nat)
        },
    }
}

/// Whether an image holds the constant part of the header: the title, the
/// map mode, the size of the ROM, the region and the version.
pub open spec fn has_header(image: Seq<u8>) -> bool {
    &&& image.len() == IMAGE_SIZE
    &&& forall|i: int| HEADER_START <= i < HEADER_START + TITLE_LENGTH ==> image[i] == 0x5A
    &&& image[0x7FD5] == 0x20
    &&& image[0x7FD7] == 0x05
    &&& image[0x7FD9] == 0x01
    &&& image[0x7FDA] == 0x33
}

/// The name of the function that the `k`-th vector points to.
fn name_of_vector(k: usize) -> (r: &'static str)
    requires
        k < VECTOR_COUNT,
    ensures
        bytes_of(r) == vector_name(k as int),
{
    if k == 0 {
        "cop"
    } else if k == 1 {
        "brk"
    } else if k == 2 {
        "nmi"
    } else if k == 3 {
        "irq"
    } else if k == 4 {
        "cop_emu"
    } else if k == 5 {
        "nmi_emu"
    } else if k == 6 {
        "reset"
    } else {
        "irq_emu"
    }
}

/// The offset of the `k`-th vector in the image.
fn offset_of_vector(k: usize) -> (r: usize)
    requires
        k < VECTOR_COUNT,
    ensures
        r == vector_offset(k as int),
        0x7FE4 <= r < IMAGE_SIZE - 1,
{
    if k == 0 {
        0x7FE4
    } else if k == 1 {
        0x7FE6
    } else if k == 2 {
        0x7FEA
    } else if k == 3 {
        0x7FEE
    } else if k == 4 {
        0x7FF4
    } else if k == 5 {
        0x7FFA
    } else if k == 6 {
        0x7FFC
    } else {
        0x7FFE
    }
}

/// Writes the `k`-th vector, if the name table holds a function of the
/// vector's name. Such a function must be an interrupt handler.
fn write_vector<'p>(image: &mut Vec<u8>, names: &NameTable<'p>, k: usize) -> (r: Result<
    (),
    Halt<'p>,
>)
    requires
        k < VECTOR_COUNT,
        old(image)@.len() == IMAGE_SIZE,
    ensures
        final(image)@.len() == IMAGE_SIZE,
        forall|i: int| 0 <= i < 0x7FE4 ==> final(image)@[i] == old(image)@[i],
        match r {
            Ok(()) => with_vector(old(image)@, names@, k as int) == Ok::<Seq<u8>, HaltView>(
                final(image)@,
            ),
            Err(e) => with_vector(old(image)@, names@, k as int) == Err::<Seq<u8>, HaltView>(e@),
        },
{
    let name = name_of_vector(k);
    let offset = offset_of_vector(k);
    match names.get(name) {
        Some(Name::Function(Some(address), attributes)) => {
            if has_attribute(attributes, Attribute::Interrupt) {
                image.set(offset, low(address));
                image.set(offset + 1, high(address));
                Ok(())
            } else {
                Err(Halt::Error(Error::InvalidInterrupt(name)))
            }
        },
        _ => Ok(()),
    }
}

/// Turns the code of a program into its image: pads it with zeros, writes
/// the header, and lets the vectors point to the interrupt handlers.
pub(crate) fn finish<'p>(code: Vec<u8>, names: &NameTable<'p>) -> (r: Result<Vec<u8>, Halt<'p>>)
    requires
        code@.len() <= BANK_CAPACITY,
    ensures
        match r {
            Ok(image) => with_vectors(
                with_header(padded(code@)),
                names@,
                VECTOR_COUNT as nat,
            ) == Ok::<Seq<u8>, HaltView>(image@),
            Err(e) => with_vectors(with_header(padded(code@)), names@, VECTOR_COUNT as nat)
                == Err::<Seq<u8>, HaltView>(e@),
        },
        r matches Ok(image) ==> has_header(image@),
{
    let ghost emitted = code@;
    let mut image = code;
    while image.len() < IMAGE_SIZE
        invariant
            emitted.len() <= image@.len() <= IMAGE_SIZE,
            forall|i: int| 0 <= i < emitted.len() ==> image@[i] == emitted[i],
            forall|i: int| emitted.len() <= i < image@.len() ==> image@[i] == 0,
        decreases IMAGE_SIZE - image@.len(),
    {
        image.push(0);
    }
    assert(image@ =~= padded(emitted));
    let mut i: usize = 0;
    while i < TITLE_LENGTH
        invariant
            0 <= i <= TITLE_LENGTH,
            image@.len() == IMAGE_SIZE,
            forall|j: int| 0 <= j < HEADER_START ==> image@[j] == padded(emitted)[j],
            forall|j: int| HEADER_START <= j < HEADER_START + i ==> image@[j] == 0x5A,
            forall|j: int| HEADER_START + i <= j < IMAGE_SIZE ==> image@[j] == 0,
        decreases TITLE_LENGTH - i,
    {
        image.set(HEADER_START + i, 0x5A);
        i += 1;
    }
    image.set(0x7FD5, 0x20);
    image.set(0x7FD7, 0x05);
    image.set(0x7FD9, 0x01);
    image.set(0x7FDA, 0x33);
    assert(image@ =~= with_header(padded(emitted)));
    let mut k: usize = 0;
    while k < VECTOR_COUNT
        invariant
            0 <= k <= VECTOR_COUNT,
            image@.len() == IMAGE_SIZE,
            forall|i: int| 0 <= i < 0x7FE4 ==> image@[i] == with_header(padded(emitted))[i],
            with_vectors(with_header(padded(emitted)), names@, k as nat) == Ok::<
                Seq<u8>,
                HaltView,
            >(image@),
        decreases VECTOR_COUNT - k,
    {
        match write_vector(&mut image, names, k) {
            Err(e) => {
                reveal_with_fuel(with_vectors, 9);
                return Err(e);
            },
            Ok(()) => {},
        }
        k += 1;
    }
    Ok(image)
}

} // verus!
