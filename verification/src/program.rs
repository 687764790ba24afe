//! What holds of the compilation of a whole program.

use vstd::prelude::*;
use crate::ast::{Attribute, DefinitionView, FunctionView, ProgramView};
use crate::forward::{lemma_addressed_well_formed, lemma_resolved_len};
use crate::frame::{lemma_instructions_extend, lemma_instructions_stop, no_extern, stops_emission};
use crate::image::{
    defined_name, function, functions, has_header, image_of, initial_state, open_function, padded,
    registered, unresolved, vector_name, vector_offset, waits_for, with_header, with_vector,
    with_vectors, HEADER_START, VECTOR_COUNT,
};
use crate::model::{
    high_byte, in_code, initial_mode, instructions, low_byte, well_formed, ErrorView, HaltView,
    NameView, RelocationView, State, BANK_CAPACITY, BANK_START, IMAGE_SIZE,
};

verus! {

// ---------------------------------------------------------------------------
// Functions
// ---------------------------------------------------------------------------

/// The relocations that are left when a name is resolved are relocations
/// that were there, and none of them waits for the name.
pub proof fn lemma_unresolved(relocations: Seq<RelocationView>, name: Seq<u8>, i: int)
    requires
        0 <= i < unresolved(relocations, name).len(),
    ensures
        relocations.contains(unresolved(relocations, name)[i]),
        !waits_for(unresolved(relocations, name)[i], name),
{
    let pred = |r: RelocationView| !waits_for(r, name);
    relocations.lemma_filter_pred(pred, i);
    let r = relocations.filter(pred)[i];
    assert(relocations.filter(pred).contains(r));
    relocations.lemma_filter_contains_rev(pred, r);
}

/// What a function leaves behind.
///
/// Its name stands for a function with an address in the bank, the address
/// of the first byte of its body. No relocation waits for its name any
/// more. The mode is the one that held before it. A well-formed state
/// stays so.
pub proof fn lemma_function(s: State, f: FunctionView)
    ensures
        function(s, f) matches Ok(t) ==> {
            &&& t.mode == s.mode
            &&& t.names == s.names.insert(
                f.name,
                NameView::Function(Some((s.code.len() + BANK_START) as usize), f.body.attributes),
            )
            &&& t.code.len() <= BANK_CAPACITY
            &&& well_formed(s) ==> well_formed(t) && s.code.len() < t.code.len()
            &&& forall|i: int|
                0 <= i < t.relocations.len() ==> !waits_for(#[trigger] t.relocations[i], f.name)
        },
{
    if let Ok(t) = function(s, f) {
        let s1 = open_function(s, f)->Ok_0;
        let s2 = instructions(s1, f.body.instructions, f.body.instructions.len(), f.name)->Ok_0;
        lemma_instructions_extend(s1, f.body.instructions, f.body.instructions.len(), f.name);
        assert forall|i: int| 0 <= i < t.relocations.len() implies !waits_for(
            #[trigger] t.relocations[i],
            f.name,
        ) by {
            if i < s1.relocations.len() {
                lemma_unresolved(s.relocations, f.name, i);
                assert(s2.relocations[i] == s1.relocations[i]);
            } else {
                assert(crate::frame::added_since(s1, s2.relocations[i]));
            }
        }
        if well_formed(s) {
            lemma_resolved_len(
                s.code,
                s.relocations,
                s.relocations.len(),
                f.name,
                s.code.len() + BANK_START,
            );
            lemma_addressed_well_formed(
                s,
                f.name,
                (s.code.len() + BANK_START) as usize,
                f.body.attributes,
            );
            assert(well_formed(s1));
            assert(well_formed(s2));
            assert(well_formed(t)) by {
                assert forall|i: int| 0 <= i < t.relocations.len() implies in_code(
                    #[trigger] t.relocations[i],
                    t.code.len(),
                ) by {
                    assert(t.relocations[i] == s2.relocations[i]);
                }
            }
        }
    }
}

/// Every state that the functions of a program lead to is well-formed: the
/// code fits into the bank, and the mode is the initial one between
/// functions.
pub proof fn lemma_functions_well_formed(p: ProgramView, n: nat)
    ensures
        functions(initial_state(p), p.definitions, n) matches Ok(s) ==> well_formed(s) && s.mode
            == initial_mode(),
    decreases n,
{
    if n == 0 || n > p.definitions.len() {
    } else if let Ok(s) = functions(initial_state(p), p.definitions, n) {
        lemma_functions_well_formed(p, (n - 1) as nat);
        let s1 = functions(initial_state(p), p.definitions, (n - 1) as nat)->Ok_0;
        match p.definitions[n - 1] {
            DefinitionView::Function(f) => lemma_function(s1, f),
            DefinitionView::Var(_) => {},
        }
    }
}

// ---------------------------------------------------------------------------
// The name table
// ---------------------------------------------------------------------------

/// The last function of the given name among the first `n` definitions.
pub open spec fn last_function(definitions: Seq<DefinitionView>, n: nat, name: Seq<u8>) -> Option<
    FunctionView,
>
    decreases n,
{
    if n == 0 || n > definitions.len() {
        None
    } else {
        match definitions[n - 1] {
            DefinitionView::Function(f) => if f.name == name {
                Some(f)
            } else {
                last_function(definitions, (n - 1) as nat, name)
            },
            DefinitionView::Var(_) => last_function(definitions, (n - 1) as nat, name),
        }
    }
}

/// No name is registered with an address.
pub proof fn lemma_registered_without_address(
    definitions: Seq<DefinitionView>,
    n: nat,
    name: Seq<u8>,
)
    ensures
        registered(definitions, n).contains_key(name) ==> !(registered(definitions, n)[name]
            matches NameView::Function(Some(_), _)),
    decreases n,
{
    if n == 0 || n > definitions.len() {
    } else {
        lemma_registered_without_address(definitions, (n - 1) as nat, name);
    }
}

/// What a name stands for after the functions among the first `n`
/// definitions: the last of them that bears the name, with its address in
/// the bank; where none does, what the name was registered as.
pub proof fn lemma_names_after_functions(p: ProgramView, n: nat, name: Seq<u8>)
    requires
        functions(initial_state(p), p.definitions, n) is Ok,
    ensures
        ({
            let s = functions(initial_state(p), p.definitions, n)->Ok_0;
            let first = initial_state(p).names;
            match last_function(p.definitions, n, name) {
                Some(f) => {
                    &&& s.names.contains_key(name)
                    &&& s.names[name] matches NameView::Function(Some(address), attributes)
                    &&& s.names[name]->Function_1 == f.body.attributes
                    &&& BANK_START <= s.names[name]->Function_0->Some_0 < BANK_START
                        + BANK_CAPACITY
                },
                None => {
                    &&& s.names.contains_key(name) == first.contains_key(name)
                    &&& s.names.contains_key(name) ==> s.names[name] == first[name]
                },
            }
        }),
    decreases n,
{
    if n == 0 || n > p.definitions.len() {
    } else {
        let s1 = functions(initial_state(p), p.definitions, (n - 1) as nat)->Ok_0;
        lemma_names_after_functions(p, (n - 1) as nat, name);
        lemma_functions_well_formed(p, (n - 1) as nat);
        match p.definitions[n - 1] {
            DefinitionView::Function(f) => lemma_function(s1, f),
            DefinitionView::Var(_) => {},
        }
    }
}

// ---------------------------------------------------------------------------
// The image
// ---------------------------------------------------------------------------

/// What the vectors hold once the first `n` are written: the address of the
/// function of its name, where the name table holds one with an address;
/// such a function is an interrupt handler. The rest of the image is as it
/// was.
pub proof fn lemma_vectors_written(image: Seq<u8>, names: Map<Seq<u8>, NameView>, n: nat)
    requires
        image.len() == IMAGE_SIZE,
        n <= VECTOR_COUNT,
        with_vectors(image, names, n) is Ok,
    ensures
        ({
            let written = with_vectors(image, names, n)->Ok_0;
            &&& written.len() == IMAGE_SIZE
            &&& forall|i: int|
                0 <= i < IMAGE_SIZE && !(exists|k: int|
                    0 <= k < n && (i == vector_offset(k) || i == vector_offset(k) + 1))
                    ==> #[trigger] written[i] == image[i]
            &&& forall|k: int|
                0 <= k < n ==> {
                    let name = #[trigger] vector_name(k);
                    if names.contains_key(name) && names[name] matches NameView::Function(
                        Some(_),
                        _,
                    ) {
                        &&& names[name]->Function_1.contains(Attribute::Interrupt)
                        &&& written[vector_offset(k)] == low_byte(
                            names[name]->Function_0->Some_0 as int,
                        )
                        &&& written[vector_offset(k) + 1] == high_byte(
                            names[name]->Function_0->Some_0 as int,
                        )
                    } else {
                        &&& written[vector_offset(k)] == image[vector_offset(k)]
                        &&& written[vector_offset(k) + 1] == image[vector_offset(k) + 1]
                    }
                }
        }),
    decreases n,
{
    if n > 0 {
        lemma_vectors_written(image, names, (n - 1) as nat);
        let before = with_vectors(image, names, (n - 1) as nat)->Ok_0;
        let written = with_vectors(image, names, n)->Ok_0;
        assert(written == with_vector(before, names, n - 1)->Ok_0);
        assert forall|k: int| 0 <= k < n implies {
            let name = #[trigger] vector_name(k);
            if names.contains_key(name) && names[name] matches NameView::Function(Some(_), _) {
                &&& names[name]->Function_1.contains(Attribute::Interrupt)
                &&& written[vector_offset(k)] == low_byte(names[name]->Function_0->Some_0 as int)
                &&& written[vector_offset(k) + 1] == high_byte(
                    names[name]->Function_0->Some_0 as int,
                )
            } else {
                &&& written[vector_offset(k)] == image[vector_offset(k)]
                &&& written[vector_offset(k) + 1] == image[vector_offset(k) + 1]
            }
        } by {
            if k < n - 1 {
                assert(vector_offset(k) != vector_offset(n - 1));
                assert(vector_offset(k) + 1 != vector_offset(n - 1));
                assert(vector_offset(k) != vector_offset(n - 1) + 1);
            }
        }
    }
}

/// The image of a program has the size of a bank and holds the constant
/// part of the header, whatever the program is.
pub proof fn lemma_image_header(p: ProgramView)
    ensures
        image_of(p) matches Ok(image) ==> image.len() == IMAGE_SIZE && has_header(image),
{
    if let Ok(image) = image_of(p) {
        let s = functions(initial_state(p), p.definitions, p.definitions.len())->Ok_0;
        lemma_vectors_written(with_header(padded(s.code)), s.names, VECTOR_COUNT as nat);
    }
}

/// The code of a program stands at the start of its image, and zeros fill
/// the image from the end of the code to the header.
pub proof fn lemma_image_code(p: ProgramView, i: int)
    requires
        image_of(p) is Ok,
        0 <= i < HEADER_START,
    ensures
        ({
            let s = functions(initial_state(p), p.definitions, p.definitions.len())->Ok_0;
            image_of(p)->Ok_0[i] == if i < s.code.len() {
                s.code[i]
            } else {
                0u8
            }
        }),
{
    let s = functions(initial_state(p), p.definitions, p.definitions.len())->Ok_0;
    lemma_vectors_written(with_header(padded(s.code)), s.names, VECTOR_COUNT as nat);
}

/// A vector of the image is not zero exactly if the program defines a
/// function of the vector's name. The vector then holds the address of the
/// last such function, and that function is an interrupt handler: where it
/// is not, the program has no image.
pub proof fn lemma_vector_gating(p: ProgramView, k: int)
    requires
        0 <= k < VECTOR_COUNT,
        image_of(p) is Ok,
    ensures
        ({
            let image = image_of(p)->Ok_0;
            let handler = last_function(p.definitions, p.definitions.len(), vector_name(k));
            let s = functions(initial_state(p), p.definitions, p.definitions.len())->Ok_0;
            &&& (image[vector_offset(k)] != 0 || image[vector_offset(k) + 1] != 0)
                <==> handler is Some
            &&& handler matches Some(f) ==> {
                &&& f.body.attributes.contains(Attribute::Interrupt)
                &&& s.names[f.name] matches NameView::Function(Some(address), _)
                &&& image[vector_offset(k)] == low_byte(
                    s.names[f.name]->Function_0->Some_0 as int,
                )
                &&& image[vector_offset(k) + 1] == high_byte(
                    s.names[f.name]->Function_0->Some_0 as int,
                )
            }
        }),
{
    let s = functions(initial_state(p), p.definitions, p.definitions.len())->Ok_0;
    let base = with_header(padded(s.code));
    let name = vector_name(k);
    lemma_vectors_written(base, s.names, VECTOR_COUNT as nat);
    lemma_names_after_functions(p, p.definitions.len(), name);
    lemma_registered_without_address(p.definitions, p.definitions.len(), name);
    lemma_last_function_name(p.definitions, p.definitions.len(), name);
    assert(base[vector_offset(k)] == 0 && base[vector_offset(k) + 1] == 0);
    if let Some(f) = last_function(p.definitions, p.definitions.len(), name) {
        let address = s.names[name]->Function_0->Some_0;
        assert(high_byte(address as int) != 0);
    }
}

/// Whether the vectors of an image are those of the program: a vector is
/// not zero exactly if the program defines a function of the vector's name,
/// and such a function is an interrupt handler.
pub open spec fn vectors_gated(p: ProgramView, image: Seq<u8>) -> bool {
    forall|k: int|
        0 <= k < VECTOR_COUNT ==> {
            let handler = last_function(
                p.definitions,
                p.definitions.len(),
                #[trigger] vector_name(k),
            );
            &&& (image[vector_offset(k)] != 0 || image[vector_offset(k) + 1] != 0)
                <==> handler is Some
            &&& handler matches Some(f) ==> f.body.attributes.contains(Attribute::Interrupt)
        }
}

/// The vectors of the image of a program are those of the program.
pub proof fn lemma_vectors_gated(p: ProgramView)
    requires
        image_of(p) is Ok,
    ensures
        vectors_gated(p, image_of(p)->Ok_0),
{
    assert forall|k: int| 0 <= k < VECTOR_COUNT implies {
        let handler = last_function(p.definitions, p.definitions.len(), #[trigger] vector_name(k));
        &&& (image_of(p)->Ok_0[vector_offset(k)] != 0 || image_of(p)->Ok_0[vector_offset(k) + 1]
            != 0) <==> handler is Some
        &&& handler matches Some(f) ==> f.body.attributes.contains(Attribute::Interrupt)
    } by {
        lemma_vector_gating(p, k);
    }
}

/// Whether the program defines a function of the name of the `k`-th vector
/// that is no interrupt handler.
pub open spec fn lacks_handler(p: ProgramView, k: int) -> bool {
    last_function(p.definitions, p.definitions.len(), vector_name(k)) matches Some(f)
        && !f.body.attributes.contains(Attribute::Interrupt)
}

/// A program whose functions are emitted, but which defines a function of
/// the name of a vector that is no interrupt handler, is refused for the
/// first vector of which that holds.
pub proof fn lemma_vector_without_handler(p: ProgramView, k: int)
    requires
        0 <= k < VECTOR_COUNT,
        functions(initial_state(p), p.definitions, p.definitions.len()) is Ok,
        lacks_handler(p, k),
        forall|j: int| 0 <= j < k ==> !lacks_handler(p, j),
    ensures
        image_of(p) == Err::<Seq<u8>, HaltView>(
            HaltView::Error(ErrorView::InvalidInterrupt(vector_name(k))),
        ),
{
    let n = p.definitions.len();
    let s = functions(initial_state(p), p.definitions, n)->Ok_0;
    let base = with_header(padded(s.code));
    lemma_every_call_resolved(p);
    lemma_vectors_up_to(p, base, k as nat);
    lemma_names_after_functions(p, n, vector_name(k));
    let refused = Err::<Seq<u8>, HaltView>(
        HaltView::Error(ErrorView::InvalidInterrupt(vector_name(k))),
    );
    assert(with_vectors(base, s.names, (k + 1) as nat) == refused);
    lemma_vectors_failure_stays(base, s.names, (k + 1) as nat, VECTOR_COUNT as nat);
}

/// Once a vector is refused, the image is.
proof fn lemma_vectors_failure_stays(
    image: Seq<u8>,
    names: Map<Seq<u8>, NameView>,
    n: nat,
    m: nat,
)
    requires
        n <= m,
        with_vectors(image, names, n) is Err,
    ensures
        with_vectors(image, names, m) == with_vectors(image, names, n),
    decreases m,
{
    if m > n {
        lemma_vectors_failure_stays(image, names, n, (m - 1) as nat);
    }
}

/// The vectors before the first that lacks its handler are written.
proof fn lemma_vectors_up_to(p: ProgramView, base: Seq<u8>, k: nat)
    requires
        k <= VECTOR_COUNT,
        functions(initial_state(p), p.definitions, p.definitions.len()) is Ok,
        forall|j: int| 0 <= j < k ==> !lacks_handler(p, j),
    ensures
        with_vectors(
            base,
            functions(initial_state(p), p.definitions, p.definitions.len())->Ok_0.names,
            k,
        ) is Ok,
    decreases k,
{
    if k > 0 {
        let n = p.definitions.len();
        lemma_vectors_up_to(p, base, (k - 1) as nat);
        lemma_names_after_functions(p, n, vector_name(k - 1));
        lemma_registered_without_address(p.definitions, n, vector_name(k - 1));
        assert(!lacks_handler(p, k - 1));
    }
}

/// The last function of a name bears that name.
pub proof fn lemma_last_function_name(definitions: Seq<DefinitionView>, n: nat, name: Seq<u8>)
    ensures
        last_function(definitions, n, name) matches Some(f) ==> f.name == name,
    decreases n,
{
    if n == 0 || n > definitions.len() {
    } else {
        lemma_last_function_name(definitions, (n - 1) as nat, name);
    }
}

// ---------------------------------------------------------------------------
// Relocations
// ---------------------------------------------------------------------------

/// Whether every relocation waits for a function that has no address yet.
pub open spec fn all_pending(s: State) -> bool {
    forall|i: int|
        0 <= i < s.relocations.len() ==> match #[trigger] s.relocations[i] {
            RelocationView::Function(target, _) => s.names.contains_key(target)
                && s.names[target] matches NameView::Function(None, _),
            RelocationView::Break(_) => false,
        }
}

/// A function leaves only relocations that wait for functions without an
/// address, if it found only such.
pub proof fn lemma_function_keeps_pending(s: State, f: FunctionView)
    requires
        all_pending(s),
        function(s, f) is Ok,
    ensures
        all_pending(function(s, f)->Ok_0),
{
    let t = function(s, f)->Ok_0;
    let s1 = open_function(s, f)->Ok_0;
    let s2 = instructions(s1, f.body.instructions, f.body.instructions.len(), f.name)->Ok_0;
    lemma_instructions_extend(s1, f.body.instructions, f.body.instructions.len(), f.name);
    assert forall|i: int| 0 <= i < t.relocations.len() implies match #[trigger] t.relocations[i] {
        RelocationView::Function(target, _) => t.names.contains_key(target)
            && t.names[target] matches NameView::Function(None, _),
        RelocationView::Break(_) => false,
    } by {
        if i < s1.relocations.len() {
            lemma_unresolved(s.relocations, f.name, i);
            let r = s1.relocations[i];
            let j = choose|j: int| 0 <= j < s.relocations.len() && s.relocations[j] == r;
            assert(s.relocations[j] == r);
            assert(s2.relocations[i] == r);
        } else {
            assert(crate::frame::added_since(s1, s2.relocations[i]));
        }
    }
}

/// Between the functions of a program every relocation waits for a function
/// that has no address yet.
pub proof fn lemma_functions_pending(p: ProgramView, n: nat)
    ensures
        functions(initial_state(p), p.definitions, n) matches Ok(s) ==> all_pending(s),
    decreases n,
{
    if n == 0 || n > p.definitions.len() {
    } else if let Ok(s) = functions(initial_state(p), p.definitions, n) {
        lemma_functions_pending(p, (n - 1) as nat);
        let s1 = functions(initial_state(p), p.definitions, (n - 1) as nat)->Ok_0;
        match p.definitions[n - 1] {
            DefinitionView::Function(f) => lemma_function_keeps_pending(s1, f),
            DefinitionView::Var(_) => {},
        }
    }
}

/// A name that is registered as a function is the name of a function of the
/// program.
pub proof fn lemma_registered_function(definitions: Seq<DefinitionView>, n: nat, name: Seq<u8>)
    requires
        registered(definitions, n).contains_key(name),
        registered(definitions, n)[name] is Function,
    ensures
        last_function(definitions, n, name) is Some,
    decreases n,
{
    if n == 0 || n > definitions.len() {
    } else if defined_name(definitions[n - 1]) != name {
        lemma_registered_function(definitions, (n - 1) as nat, name);
    }
}

/// Whether a program declares a function `EXTERN`.
pub open spec fn declares_extern(p: ProgramView) -> bool {
    exists|i: int|
        0 <= i < p.definitions.len() && (#[trigger] p.definitions[i]
            matches DefinitionView::Function(f) && f.body.attributes.contains(Attribute::Extern))
}

/// A name table that registers a program without a function that is
/// declared `EXTERN` holds none.
pub proof fn lemma_registered_no_extern(p: ProgramView, n: nat)
    requires
        !declares_extern(p),
    ensures
        no_extern(registered(p.definitions, n)),
    decreases n,
{
    if n == 0 || n > p.definitions.len() {
    } else {
        lemma_registered_no_extern(p, (n - 1) as nat);
        let d = p.definitions[n - 1];
        assert(!(d matches DefinitionView::Function(f) && f.body.attributes.contains(
            Attribute::Extern,
        )));
    }
}

/// The functions of a program fail only by a reason that stops emission;
/// where the program declares no function `EXTERN`, they fail by an error.
pub proof fn lemma_functions_stop(p: ProgramView, n: nat)
    ensures
        functions(initial_state(p), p.definitions, n) matches Err(h) ==> stops_emission(h) && (
        !declares_extern(p) ==> h is Error),
        functions(initial_state(p), p.definitions, n) matches Ok(s) ==> (!declares_extern(p)
            ==> no_extern(s.names)),
    decreases n,
{
    if n == 0 || n > p.definitions.len() {
        if !declares_extern(p) {
            lemma_registered_no_extern(p, p.definitions.len());
        }
    } else {
        lemma_functions_stop(p, (n - 1) as nat);
        if let Ok(s1) = functions(initial_state(p), p.definitions, (n - 1) as nat) {
            if let DefinitionView::Function(f) = p.definitions[n - 1] {
                lemma_function(s1, f);
                if !declares_extern(p) {
                    assert(!(p.definitions[n - 1] matches DefinitionView::Function(f)
                        && f.body.attributes.contains(Attribute::Extern)));
                }
                if let Ok(s2) = open_function(s1, f) {
                    let count = f.body.instructions.len();
                    lemma_instructions_stop(s2, f.body.instructions, count, f.name);
                    lemma_instructions_extend(s2, f.body.instructions, count, f.name);
                }
            }
        }
    }
}

/// A program that declares no function `EXTERN` has an image or is refused:
/// it calls no such function.
pub proof fn lemma_no_extern_call(p: ProgramView)
    requires
        !declares_extern(p),
    ensures
        !(image_of(p) matches Err(HaltView::ExternCall(_, _))),
{
    lemma_functions_stop(p, p.definitions.len());
    if let Ok(s) = functions(initial_state(p), p.definitions, p.definitions.len()) {
        reveal_with_fuel(with_vectors, 9);
    }
}

/// Once every function of a program is emitted, every call has the address
/// of its callee: no relocation is left, and no program is refused for an
/// unresolved name.
pub proof fn lemma_every_call_resolved(p: ProgramView)
    ensures
        functions(initial_state(p), p.definitions, p.definitions.len()) matches Ok(s)
            ==> s.relocations.len() == 0,
        !(image_of(p) matches Err(HaltView::Error(ErrorView::UnresolvedName(_)))),
{
    let n = p.definitions.len();
    lemma_functions_stop(p, n);
    if let Ok(s) = functions(initial_state(p), p.definitions, n) {
        lemma_functions_pending(p, n);
        if s.relocations.len() > 0 {
            let target = s.relocations[0]->Function_0;
            lemma_names_after_functions(p, n, target);
            if last_function(p.definitions, n, target) is None {
                lemma_registered_function(p.definitions, n, target);
            }
        }
        assert(s.relocations.len() == 0);
        reveal_with_fuel(with_vectors, 9);
    }
}

/// The image of the program without definitions is its header: every byte
/// before the header and every vector is zero.
pub proof fn lemma_empty_program()
    ensures
        image_of(ProgramView { definitions: Seq::empty() }) == Ok::<Seq<u8>, HaltView>(
            with_header(padded(Seq::empty())),
        ),
{
    let p = ProgramView { definitions: Seq::<DefinitionView>::empty() };
    assert(functions(initial_state(p), p.definitions, 0) == Ok::<State, HaltView>(
        initial_state(p),
    ));
    assert(initial_state(p).names == Map::<Seq<u8>, NameView>::empty());
    reveal_with_fuel(with_vectors, 9);
}

} // verus!
