//! Small facts about the models that the proofs lean on.

use vstd::prelude::*;
use crate::ast::{Attribute, DefinitionView, InstructionView};
use crate::image::{functions, unresolved, waits_for};
use crate::model::{conflict_of, exclusive, first_conflict, instructions, RelocationView, State};

verus! {

/// A conflict among the first `n` attributes is the conflict of the list.
pub proof fn lemma_first_conflict_stays(attributes: Seq<Attribute>, n: nat, m: nat)
    requires
        n <= m,
        first_conflict(attributes, n) is Some,
    ensures
        first_conflict(attributes, m) == first_conflict(attributes, n),
    decreases m,
{
    if m > n {
        lemma_first_conflict_stays(attributes, n, (m - 1) as nat);
    }
}

/// Where the first `n` attributes of a list have no conflict, none of them
/// has one.
pub proof fn lemma_no_conflict_before(attributes: Seq<Attribute>, n: nat, i: int)
    requires
        0 <= i < n <= attributes.len(),
        first_conflict(attributes, n) is None,
    ensures
        conflict_of(attributes[i], attributes) is None,
    decreases n,
{
    if i < n - 1 {
        lemma_no_conflict_before(attributes, (n - 1) as nat, i);
    }
}

/// A conflict that is reported has a cause: two attributes of the list that
/// exclude each other.
pub proof fn lemma_conflict_has_cause(attributes: Seq<Attribute>, n: nat)
    requires
        n <= attributes.len(),
        first_conflict(attributes, n) is Some,
    ensures
        exists|a: Attribute, b: Attribute|
            #![trigger attributes.contains(a), attributes.contains(b)]
            attributes.contains(a) && attributes.contains(b) && exclusive(a, b),
    decreases n,
{
    if first_conflict(attributes, (n - 1) as nat) is Some {
        lemma_conflict_has_cause(attributes, (n - 1) as nat);
    } else {
        let a = attributes[n - 1];
        assert(attributes.contains(a));
        let b = conflict_of(a, attributes)->Some_0.1;
        assert(attributes.contains(b));
        assert(exclusive(a, b));
    }
}

/// Once a list of instructions has failed, it stays failed however many more
/// of its instructions are taken.
pub proof fn lemma_failure_stays(
    s: State,
    list: Seq<InstructionView>,
    n: nat,
    m: nat,
    function: Seq<u8>,
)
    requires
        n <= m <= list.len(),
        instructions(s, list, n, function) is Err,
    ensures
        instructions(s, list, m, function) == instructions(s, list, n, function),
    decreases m,
{
    if m > n {
        lemma_failure_stays(s, list, n, (m - 1) as nat, function);
    }
}

/// Without relocations none is left to resolve.
pub proof fn lemma_unresolved_none(name: Seq<u8>)
    ensures
        unresolved(Seq::empty(), name) == Seq::<RelocationView>::empty(),
{
    reveal(Seq::filter);
}

/// Whether one more relocation is still to be resolved is decided by that
/// relocation alone.
pub proof fn lemma_unresolved_step(relocations: Seq<RelocationView>, i: int, name: Seq<u8>)
    requires
        0 <= i < relocations.len(),
    ensures
        unresolved(relocations.take(i + 1), name) == if waits_for(relocations[i], name) {
            unresolved(relocations.take(i), name)
        } else {
            unresolved(relocations.take(i), name).push(relocations[i])
        },
{
    reveal(Seq::filter);
    assert(relocations.take(i + 1).drop_last() =~= relocations.take(i));
}

/// Once a list of definitions has failed, it stays failed however many more
/// of its definitions are taken.
pub proof fn lemma_functions_failure_stays(
    s: State,
    definitions: Seq<DefinitionView>,
    n: nat,
    m: nat,
)
    requires
        n <= m <= definitions.len(),
        functions(s, definitions, n) is Err,
    ensures
        functions(s, definitions, m) == functions(s, definitions, n),
    decreases m,
{
    if m > n {
        lemma_functions_failure_stays(s, definitions, n, (m - 1) as nat);
    }
}

} // verus!
