//! The name table: what each name of a program stands for.

use vstd::prelude::*;
use vstd::string::*;
use crate::ast::{bytes_of, Attribute};
use crate::model::NameView;
use crate::text::same_text;

verus! {

/// What a name stands for.
#[derive(Clone, Copy, Debug)]
pub enum Name<'a> {
    /// A variable at an absolute address.
    Var(u32),
    /// A function with its address, once its body has been started, and its
    /// attributes.
    Function(Option<usize>, &'a Vec<Attribute>),
}

impl<'a> View for Name<'a> {
    type V = NameView;

    open spec fn view(&self) -> NameView {
        match self {
            Name::Var(address) => NameView::Var(*address),
            Name::Function(address, attributes) => NameView::Function(*address, attributes@),
        }
    }
}

/// A name with what it stands for.
pub struct Entry<'a> {
    pub name: &'a str,
    pub value: Name<'a>,
}

/// The name table. A later entry for a name replaces an earlier one.
pub struct NameTable<'a> {
    entries: Vec<Entry<'a>>,
}

/// The map that the first `n` entries stand for.
pub open spec fn table_of(entries: Seq<Entry<'_>>, n: nat) -> Map<Seq<u8>, NameView>
    decreases n,
{
    if n == 0 || n > entries.len() {
        Map::empty()
    } else {
        table_of(entries, (n - 1) as nat).insert(
            bytes_of(entries[n - 1].name),
            entries[n - 1].value@,
        )
    }
}

/// An entry at or after `from` decides what a name stands for, if there is
/// one for it.
proof fn lemma_later_entries_decide(entries: Seq<Entry<'_>>, from: nat, n: nat, key: Seq<u8>)
    requires
        from <= n <= entries.len(),
        forall|j: int| from <= j < n ==> bytes_of(entries[j].name) != key,
    ensures
        table_of(entries, n).contains_key(key) == table_of(entries, from).contains_key(key),
        table_of(entries, n).contains_key(key) ==> table_of(entries, n)[key] == table_of(
            entries,
            from,
        )[key],
    decreases n,
{
    if n > from {
        lemma_later_entries_decide(entries, from, (n - 1) as nat, key);
    }
}

impl<'a> View for NameTable<'a> {
    type V = Map<Seq<u8>, NameView>;

    closed spec fn view(&self) -> Map<Seq<u8>, NameView> {
        table_of(self.entries@, self.entries@.len())
    }
}

impl<'a> NameTable<'a> {
    /// The empty table.
    pub fn new() -> (r: Self)
        ensures
            r@ == Map::<Seq<u8>, NameView>::empty(),
    {
        NameTable { entries: Vec::new() }
    }

    /// Lets `name` stand for `value` from now on.
    pub fn insert(&mut self, name: &'a str, value: Name<'a>)
        ensures
            final(self)@ == old(self)@.insert(bytes_of(name), value@),
    {
        let ghost before = self.entries@;
        self.entries.push(Entry { name, value });
        proof {
            let after = self.entries@;
            assert(after.len() == before.len() + 1);
            lemma_same_prefix(before, after, before.len());
        }
    }

    /// What `name` stands for, if anything.
    pub fn get(&self, name: &str) -> (r: Option<Name<'a>>)
        ensures
            match r {
                Some(value) => self@.contains_key(bytes_of(name)) && self@[bytes_of(name)]
                    == value@,
                None => !self@.contains_key(bytes_of(name)),
            },
    {
        let mut i: usize = self.entries.len();
        while i > 0
            invariant
                0 <= i <= self.entries@.len(),
                forall|j: int|
                    i <= j < self.entries@.len() ==> bytes_of(self.entries@[j].name)
                        != bytes_of(name),
            decreases i,
        {
            i -= 1;
            if same_text(self.entries[i].name, name) {
                proof {
                    lemma_later_entries_decide(
                        self.entries@,
                        (i + 1) as nat,
                        self.entries@.len(),
                        bytes_of(name),
                    );
                }
                return Some(self.entries[i].value);
            }
        }
        proof {
            lemma_later_entries_decide(self.entries@, 0, self.entries@.len(), bytes_of(name));
        }
        None
    }
}

/// The map of a prefix does not depend on what follows the prefix.
proof fn lemma_same_prefix(a: Seq<Entry<'_>>, b: Seq<Entry<'_>>, n: nat)
    requires
        n <= a.len(),
        n <= b.len(),
        forall|j: int| 0 <= j < n ==> a[j] == b[j],
    ensures
        table_of(a, n) == table_of(b, n),
    decreases n,
{
    if n > 0 {
        lemma_same_prefix(a, b, (n - 1) as nat);
    }
}

} // verus!
