//! The persistent collections that the checker keeps its scopes in.
//!
//! The collections are those of the `im` crate. Verus does not read their
//! code: what a collection holds is named by a specification function, and
//! each operation used here is a small function whose contract states over
//! that name what the operation does. Those contracts are taken on trust.
//! They rest on the `Eq` and `Hash` that `Name` derives comparing and hashing
//! a name by its kind and payload, which is what the view of a name holds.

use vstd::prelude::*;
use crate::common::name::{Name, SpecName};
use crate::corelang::syntax::{SpecType, Type};

verus! {

#[verifier::external_type_specification]
#[verifier::external_body]
#[verifier::reject_recursive_types(A)]
#[verifier::reject_recursive_types(S)]
pub struct ExImHashSet<A, S>(im::HashSet<A, S>);

#[verifier::external_type_specification]
#[verifier::external_body]
#[verifier::reject_recursive_types(K)]
#[verifier::reject_recursive_types(V)]
#[verifier::reject_recursive_types(S)]
pub struct ExImHashMap<K, V, S>(im::HashMap<K, V, S>);

/// The type variables in scope.
pub type TyEnv = im::HashSet<Name>;

/// The types of the value variables in scope.
pub type Env = im::HashMap<Name, Type>;

/// The names that a set of names holds.
pub uninterp spec fn scope_names(s: im::HashSet<Name>) -> Set<SpecName>;

/// The bindings that a map from names to types holds.
pub uninterp spec fn env_types(m: im::HashMap<Name, Type>) -> Map<SpecName, SpecType>;

/// The map without bindings.
pub open spec fn no_types() -> Map<SpecName, SpecType> {
    Map::empty()
}

/// `im::HashSet::new`: a set that holds nothing.
#[verifier::external_body]
pub(crate) fn scope_new() -> (s: TyEnv)
    ensures
        scope_names(s) == Set::<SpecName>::empty(),
{
    im::HashSet::new()
}

/// `Clone::clone` of `im::HashSet`: a set that holds what the given one holds.
#[verifier::external_body]
pub(crate) fn scope_clone(s: &TyEnv) -> (r: TyEnv)
    ensures
        scope_names(r) == scope_names(*s),
{
    s.clone()
}

/// `im::HashSet::insert`: afterwards the set holds the name besides what it
/// held before.
#[verifier::external_body]
pub(crate) fn scope_insert(s: &mut TyEnv, name: Name)
    ensures
        scope_names(*final(s)) == scope_names(*old(s)).insert(name@),
{
    s.insert(name);
}

/// `im::HashSet::contains`: whether the set holds the name.
#[verifier::external_body]
pub(crate) fn scope_contains(s: &TyEnv, name: &Name) -> (b: bool)
    ensures
        b == scope_names(*s).contains(name@),
{
    s.contains(name)
}

/// `im::HashMap::new`: a map without bindings.
#[verifier::external_body]
pub(crate) fn env_new() -> (m: Env)
    ensures
        env_types(m) == no_types(),
{
    im::HashMap::new()
}

/// `Clone::clone` of `im::HashMap`: a map with the bindings of the given one.
#[verifier::external_body]
pub(crate) fn env_clone(m: &Env) -> (r: Env)
    ensures
        env_types(r) == env_types(*m),
{
    m.clone()
}

/// `im::HashMap::insert`: afterwards the name is bound to the type, in place
/// of an earlier binding of that name; the other bindings stay.
#[verifier::external_body]
pub(crate) fn env_insert(m: &mut Env, name: Name, typ: Type)
    ensures
        env_types(*final(m)) == env_types(*old(m)).insert(name@, typ@),
{
    m.insert(name, typ);
}

/// `im::HashMap::get`: the type that the name is bound to, if it is bound.
#[verifier::external_body]
pub(crate) fn env_get<'a>(m: &'a Env, name: &Name) -> (r: Option<&'a Type>)
    ensures
        r.is_some() == env_types(*m).contains_key(name@),
        r.is_some() ==> r.unwrap()@ == env_types(*m)[name@],
{
    m.get(name)
}

/// `im::HashMap::remove`: afterwards the name is unbound; the other bindings
/// stay.
#[verifier::external_body]
pub(crate) fn env_remove(m: &mut Env, name: &Name)
    ensures
        env_types(*final(m)) == env_types(*old(m)).remove(name@),
{
    m.remove(name);
}

} // verus!
