//! Substitution keeps types well formed.

use vstd::prelude::*;
use crate::common::name::{SpecName, lemma_prefix_set};
use crate::corelang::check::{
    bind_all, bind_first, first_unbound_among, pair_up, subst_all, subst_spec, well_formed,
};
use crate::corelang::syntax::SpecType;

verus! {

/// Whether, for every existential inside `typ`, its fields are well formed
/// without those of the names `replaced` that the existential itself seals.
///
/// The fields of an existential are read in the scope outside it, and a
/// substitution leaves the names that the existential seals alone. So a
/// sealed name that occurs in the fields, and that only `replaced` brought
/// into scope, is still there after the substitution with nothing to bind it.
pub open spec fn sealed_fields_bound(
    scope: Set<SpecName>,
    replaced: Set<SpecName>,
    typ: SpecType,
) -> bool
    decreases typ,
{
    match typ {
        SpecType::Lit { lit } => true,
        SpecType::Var { var } => true,
        SpecType::Func { pars, res } => sealed_fields_bound_among(
            scope,
            replaced,
            pars,
            pars.len(),
        ) && sealed_fields_bound(scope, replaced, *res),
        SpecType::Tup { flds } => sealed_fields_bound_among(scope, replaced, flds, flds.len()),
        SpecType::Forall { gens, pars, res } => sealed_fields_bound_among(
            scope + gens.to_set(),
            replaced.difference(gens.to_set()),
            pars,
            pars.len(),
        ) && sealed_fields_bound(
            scope + gens.to_set(),
            replaced.difference(gens.to_set()),
            *res,
        ),
        SpecType::Exist { seals, flds } => first_unbound_among(
            scope + replaced.difference(seals.to_set()),
            flds,
            flds.len(),
        ) is None && sealed_fields_bound_among(
            scope,
            replaced.difference(seals.to_set()),
            flds,
            flds.len(),
        ),
    }
}

/// [`sealed_fields_bound`] of each of the first `n` types of a list.
pub open spec fn sealed_fields_bound_among(
    scope: Set<SpecName>,
    replaced: Set<SpecName>,
    typs: Seq<SpecType>,
    n: nat,
) -> bool
    decreases typs, n,
{
    if n == 0 || n > typs.len() {
        true
    } else {
        sealed_fields_bound_among(scope, replaced, typs, (n - 1) as nat) && sealed_fields_bound(
            scope,
            replaced,
            typs[n - 1],
        )
    }
}

/// A type that is well formed in a scope is well formed in a larger one.
pub proof fn lemma_well_formed_grows(small: Set<SpecName>, large: Set<SpecName>, typ: SpecType)
    requires
        small.subset_of(large),
        well_formed(small, typ),
    ensures
        well_formed(large, typ),
    decreases typ,
{
    match typ {
        SpecType::Lit { lit } => {},
        SpecType::Var { var } => {},
        SpecType::Func { pars, res } => {
            lemma_well_formed_grows_among(small, large, pars, pars.len());
            lemma_well_formed_grows(small, large, *res);
        },
        SpecType::Tup { flds } => {
            lemma_well_formed_grows_among(small, large, flds, flds.len());
        },
        SpecType::Forall { gens, pars, res } => {
            lemma_well_formed_grows_among(
                small + gens.to_set(),
                large + gens.to_set(),
                pars,
                pars.len(),
            );
            lemma_well_formed_grows(small + gens.to_set(), large + gens.to_set(), *res);
        },
        SpecType::Exist { seals, flds } => {
            lemma_well_formed_grows_among(small, large, flds, flds.len());
        },
    }
}

/// [`lemma_well_formed_grows`] for the first `n` types of a list.
pub proof fn lemma_well_formed_grows_among(
    small: Set<SpecName>,
    large: Set<SpecName>,
    typs: Seq<SpecType>,
    n: nat,
)
    requires
        small.subset_of(large),
        first_unbound_among(small, typs, n) is None,
    ensures
        first_unbound_among(large, typs, n) is None,
    decreases typs, n,
{
    if n == 0 || n > typs.len() {
    } else {
        lemma_well_formed_grows_among(small, large, typs, (n - 1) as nat);
        lemma_well_formed_grows(small, large, typs[n - 1]);
    }
}

/// Substituting well-formed types for the variables that a map binds takes a
/// type that is well formed with those variables in scope to one that is
/// well formed without them.
pub proof fn lemma_subst_well_formed(
    scope: Set<SpecName>,
    map: Map<SpecName, SpecType>,
    typ: SpecType,
)
    requires
        forall|k: SpecName| map.contains_key(k) ==> well_formed(scope, #[trigger] map[k]),
        well_formed(scope + map.dom(), typ),
        sealed_fields_bound(scope, map.dom(), typ),
    ensures
        well_formed(scope, subst_spec(map, typ)),
    decreases typ,
{
    match typ {
        SpecType::Lit { lit } => {},
        SpecType::Var { var } => {},
        SpecType::Func { pars, res } => {
            lemma_subst_well_formed_among(scope, map, pars, pars.len());
            lemma_subst_well_formed(scope, map, *res);
        },
        SpecType::Tup { flds } => {
            lemma_subst_well_formed_among(scope, map, flds, flds.len());
        },
        SpecType::Forall { gens, pars, res } => {
            let inner = scope + gens.to_set();
            let map2 = map.remove_keys(gens.to_set());
            assert(map2.dom() =~= map.dom().difference(gens.to_set()));
            assert(inner + map2.dom() =~= scope + map.dom() + gens.to_set());
            assert forall|k: SpecName| map2.contains_key(k) implies well_formed(
                inner,
                #[trigger] map2[k],
            ) by {
                lemma_well_formed_grows(scope, inner, map[k]);
            }
            lemma_subst_well_formed_among(inner, map2, pars, pars.len());
            lemma_subst_well_formed(inner, map2, *res);
        },
        SpecType::Exist { seals, flds } => {
            let map2 = map.remove_keys(seals.to_set());
            assert(map2.dom() =~= map.dom().difference(seals.to_set()));
            lemma_subst_well_formed_among(scope, map2, flds, flds.len());
        },
    }
}

/// [`lemma_subst_well_formed`] for the first `n` types of a list.
pub proof fn lemma_subst_well_formed_among(
    scope: Set<SpecName>,
    map: Map<SpecName, SpecType>,
    typs: Seq<SpecType>,
    n: nat,
)
    requires
        forall|k: SpecName| map.contains_key(k) ==> well_formed(scope, #[trigger] map[k]),
        first_unbound_among(scope + map.dom(), typs, n) is None,
        sealed_fields_bound_among(scope, map.dom(), typs, n),
    ensures
        first_unbound_among(scope, subst_all(map, typs), n) is None,
    decreases typs, n,
{
    if n == 0 || n > typs.len() {
    } else {
        lemma_subst_well_formed_among(scope, map, typs, (n - 1) as nat);
        lemma_subst_well_formed(scope, map, typs[n - 1]);
    }
}

/// What binding the first `n` of a list of names, each to the type at its
/// position, binds: those names, each to one of those types.
pub proof fn lemma_bound_pairs(names: Seq<SpecName>, typs: Seq<SpecType>, n: nat)
    requires
        names.len() == typs.len(),
        n <= names.len(),
    ensures
        bind_first(Map::empty(), pair_up(names, typs), n).dom() == names.subrange(
            0,
            n as int,
        ).to_set(),
        forall|k: SpecName| #[trigger]
            bind_first(Map::empty(), pair_up(names, typs), n).contains_key(k) ==> exists|i: int|
                0 <= i < n && typs[i] == bind_first(Map::empty(), pair_up(names, typs), n)[k],
    decreases n,
{
    let pairs = pair_up(names, typs);
    if n == 0 {
        assert(bind_first(Map::empty(), pairs, n).dom() =~= names.subrange(0, 0).to_set());
    } else {
        lemma_bound_pairs(names, typs, (n - 1) as nat);
        let before = bind_first(Map::empty(), pairs, (n - 1) as nat);
        let after = bind_first(Map::empty(), pairs, n);
        assert(after == before.insert(names[n - 1], typs[n - 1]));
        lemma_prefix_set(names, n - 1);
        assert(after.dom() =~= names.subrange(0, n as int).to_set());
        assert forall|k: SpecName| #[trigger] after.contains_key(k) implies exists|i: int|
            0 <= i < n && typs[i] == after[k] by {
            if k == names[n - 1] {
                assert(typs[n - 1] == after[k]);
            } else {
                let i = choose|i: int| 0 <= i < n - 1 && typs[i] == before[k];
                assert(typs[i] == after[k]);
            }
        }
    }
}

/// Substitution keeps types well formed.
///
/// Let `typ` be well formed with the names `gens` added to `scope`, let
/// `args` hold one type for each of `gens`, each well formed in `scope`, and
/// let no existential inside `typ` have fields that need a name of `gens`
/// which it seals itself ([`sealed_fields_bound`]). Then `typ` with each of
/// `gens` replaced by the type at its position is well formed in `scope`.
pub proof fn lemma_instantiation_well_formed(
    scope: Set<SpecName>,
    gens: Seq<SpecName>,
    args: Seq<SpecType>,
    typ: SpecType,
)
    requires
        gens.len() == args.len(),
        well_formed(scope + gens.to_set(), typ),
        forall|i: int| 0 <= i < args.len() ==> well_formed(scope, #[trigger] args[i]),
        sealed_fields_bound(scope, gens.to_set(), typ),
    ensures
        well_formed(scope, subst_spec(bind_all(Map::empty(), pair_up(gens, args)), typ)),
{
    let map = bind_all(Map::empty(), pair_up(gens, args));
    lemma_bound_pairs(gens, args, gens.len());
    assert(gens.subrange(0, gens.len() as int) == gens);
    lemma_subst_well_formed(scope, map, typ);
}

} // verus!
