//! Identifiers.

use vstd::prelude::*;

verus! {

/// An identifier of the language.
#[derive(Debug, Hash, PartialEq, Eq, PartialOrd, Ord)]
pub enum Name {
    /// An identifier as the source text wrote it.
    RawId(String),
    /// A source identifier made unique by a number.
    UniqId(String, usize),
    /// A generated identifier: a tag character and a number.
    GenId(char, usize),
}

/// The mathematical value of a [`Name`]: its kind and payload.
pub enum SpecName {
    RawId(Seq<char>),
    UniqId(Seq<char>, usize),
    GenId(char, usize),
}

impl View for Name {
    type V = SpecName;

    open spec fn view(&self) -> SpecName {
        match self {
            Name::RawId(s) => SpecName::RawId(s@),
            Name::UniqId(s, n) => SpecName::UniqId(s@, *n),
            Name::GenId(c, n) => SpecName::GenId(*c, *n),
        }
    }
}

impl Clone for Name {
    fn clone(&self) -> (r: Name)
        ensures
            r == *self,
    {
        match self {
            Name::RawId(s) => Name::RawId(s.clone()),
            Name::UniqId(s, n) => Name::UniqId(s.clone(), *n),
            Name::GenId(c, n) => Name::GenId(*c, *n),
        }
    }
}

impl Name {
    /// Whether two names are equal: of the same kind and with the same payload.
    pub fn same(&self, other: &Name) -> (b: bool)
        ensures
            b == (self@ == other@),
    {
        match (self, other) {
            (Name::RawId(s), Name::RawId(t)) => *s == *t,
            (Name::UniqId(s, n), Name::UniqId(t, m)) => *s == *t && *n == *m,
            (Name::GenId(c, n), Name::GenId(d, m)) => *c == *d && *n == *m,
            _ => false,
        }
    }
}

/// The views of a list of names, in order.
pub open spec fn names_view(names: Seq<Name>) -> Seq<SpecName> {
    Seq::new(names.len(), |i: int| names[i]@)
}

/// Copies a list of names.
pub fn clone_names(names: &Vec<Name>) -> (r: Vec<Name>)
    ensures
        r@ == names@,
{
    let mut out: Vec<Name> = Vec::new();
    let mut i: usize = 0;
    while i < names.len()
        invariant
            i <= names.len(),
            out@ == names@.subrange(0, i as int),
        decreases names.len() - i,
    {
        out.push(names[i].clone());
        assert(out@ == names@.subrange(0, i + 1));
        i += 1;
    }
    assert(names@.subrange(0, names.len() as int) == names@);
    out
}

/// Whether two lists of names are equal, position by position.
pub fn same_names(a: &Vec<Name>, b: &Vec<Name>) -> (r: bool)
    ensures
        r == (names_view(a@) == names_view(b@)),
{
    if a.len() != b.len() {
        assert(names_view(a@).len() != names_view(b@).len());
        return false;
    }
    let mut i: usize = 0;
    while i < a.len()
        invariant
            i <= a.len(),
            a.len() == b.len(),
            forall|j: int| 0 <= j < i ==> a@[j]@ == b@[j]@,
        decreases a.len() - i,
    {
        if !a[i].same(&b[i]) {
            assert(names_view(a@)[i as int] != names_view(b@)[i as int]);
            return false;
        }
        i += 1;
    }
    assert(names_view(a@) =~= names_view(b@));
    true
}

/// The set of the first `i + 1` items is that of the first `i` with one more.
pub proof fn lemma_prefix_set(all: Seq<SpecName>, i: int)
    requires
        0 <= i < all.len(),
    ensures
        all.subrange(0, i + 1).to_set() == all.subrange(0, i).to_set().insert(all[i]),
{
    let before = all.subrange(0, i);
    let after = all.subrange(0, i + 1);
    assert forall|n: SpecName| after.to_set().contains(n) implies before.to_set().insert(
        all[i],
    ).contains(n) by {
        let j = choose|j: int| 0 <= j < after.len() && after[j] == n;
        if j < i {
            assert(before[j] == n);
        }
    }
    assert forall|n: SpecName| before.to_set().insert(all[i]).contains(n) implies after.to_set().contains(
        n,
    ) by {
        if n == all[i] {
            assert(after[i] == n);
        } else {
            let j = choose|j: int| 0 <= j < before.len() && before[j] == n;
            assert(after[j] == n);
        }
    }
    assert(after.to_set() =~= before.to_set().insert(all[i]));
}

} // verus!
