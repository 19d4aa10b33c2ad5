//! Types without quantifiers and types with their variables in scope, and
//! how substitution acts on them.

use vstd::prelude::*;
use crate::common::name::{Name, SpecName, names_view};
use crate::corelang::check::{
    bind_all, bind_first, first_mismatch, first_unbound_among, pair_up, subst_all, subst_spec,
    vars_of, well_formed, with_names,
};
use crate::corelang::scope::{TyEnv, scope_contains, scope_names};
use crate::corelang::syntax::{SpecType, Type, lemma_types_view, types_view};
use crate::corelang::wellformed::{
    lemma_bound_pairs, sealed_fields_bound, sealed_fields_bound_among,
};

verus! {

/// Whether a type holds no quantifier.
pub open spec fn simple_type(t: SpecType) -> bool
    decreases t,
{
    match t {
        SpecType::Lit { lit } => true,
        SpecType::Var { var } => true,
        SpecType::Func { pars, res } => (forall|i: int|
            0 <= i < pars.len() ==> simple_type(#[trigger] pars[i])) && simple_type(*res),
        SpecType::Tup { flds } => forall|i: int|
            0 <= i < flds.len() ==> simple_type(#[trigger] flds[i]),
        SpecType::Forall { gens, pars, res } => false,
        SpecType::Exist { seals, flds } => false,
    }
}

/// [`simple_type`] of each type of a list.
pub open spec fn simple_types(ts: Seq<SpecType>) -> bool {
    forall|i: int| 0 <= i < ts.len() ==> simple_type(#[trigger] ts[i])
}

/// Whether a type holds neither a quantifier nor a variable.
pub open spec fn ground(t: SpecType) -> bool
    decreases t,
{
    match t {
        SpecType::Lit { lit } => true,
        SpecType::Var { var } => false,
        SpecType::Func { pars, res } => (forall|i: int|
            0 <= i < pars.len() ==> ground(#[trigger] pars[i])) && ground(*res),
        SpecType::Tup { flds } => forall|i: int| 0 <= i < flds.len() ==> ground(#[trigger] flds[i]),
        SpecType::Forall { gens, pars, res } => false,
        SpecType::Exist { seals, flds } => false,
    }
}

/// [`ground`] of each type of a list.
pub open spec fn grounds(ts: Seq<SpecType>) -> bool {
    forall|i: int| 0 <= i < ts.len() ==> ground(#[trigger] ts[i])
}

/// Whether a map binds ground types only.
pub open spec fn ground_map(m: Map<SpecName, SpecType>) -> bool {
    forall|x: SpecName| m.contains_key(x) ==> ground(#[trigger] m[x])
}

/// Whether a type holds quantifiers at most as the types of generic
/// declarations and of packages do: one over simple types, by itself or in
/// the fields of tuples.
pub open spec fn shallow(t: SpecType) -> bool
    decreases t,
{
    match t {
        SpecType::Lit { lit } => true,
        SpecType::Var { var } => true,
        SpecType::Func { pars, res } => simple_types(pars) && simple_type(*res),
        SpecType::Tup { flds } => forall|i: int| 0 <= i < flds.len() ==> shallow(#[trigger] flds[i]),
        SpecType::Forall { gens, pars, res } => simple_types(pars) && simple_type(*res),
        SpecType::Exist { seals, flds } => simple_types(flds),
    }
}

/// A simple type is shallow.
pub proof fn lemma_simple_shallow(t: SpecType)
    requires
        simple_type(t),
    ensures
        shallow(t),
    decreases t,
{
    match t {
        SpecType::Tup { flds } => {
            assert forall|i: int| 0 <= i < flds.len() implies shallow(#[trigger] flds[i]) by {
                lemma_simple_shallow(flds[i]);
            }
        },
        _ => {},
    }
}

/// A ground type is simple.
pub proof fn lemma_ground_simple(t: SpecType)
    requires
        ground(t),
    ensures
        simple_type(t),
    decreases t,
{
    match t {
        SpecType::Func { pars, res } => {
            assert forall|i: int| 0 <= i < pars.len() implies simple_type(#[trigger] pars[i]) by {
                lemma_ground_simple(pars[i]);
            }
            lemma_ground_simple(*res);
        },
        SpecType::Tup { flds } => {
            assert forall|i: int| 0 <= i < flds.len() implies simple_type(#[trigger] flds[i]) by {
                lemma_ground_simple(flds[i]);
            }
        },
        _ => {},
    }
}

/// No type variable is unbound among the first `n` types of a list exactly
/// when each of them is well formed.
pub proof fn lemma_all_well_formed(scope: Set<SpecName>, ts: Seq<SpecType>, n: nat)
    requires
        n <= ts.len(),
    ensures
        first_unbound_among(scope, ts, n) is None <==> forall|i: int|
            0 <= i < n ==> well_formed(scope, #[trigger] ts[i]),
    decreases n,
{
    if n > 0 {
        lemma_all_well_formed(scope, ts, (n - 1) as nat);
        if forall|i: int| 0 <= i < n ==> well_formed(scope, #[trigger] ts[i]) {
            assert(well_formed(scope, ts[n - 1]));
        }
    }
}

/// Substitution leaves a ground type as it is.
pub proof fn lemma_ground_subst(m: Map<SpecName, SpecType>, t: SpecType)
    requires
        ground(t),
    ensures
        subst_spec(m, t) == t,
    decreases t,
{
    match t {
        SpecType::Func { pars, res } => {
            assert forall|i: int| 0 <= i < pars.len() implies subst_spec(m, pars[i])
                == #[trigger] pars[i] by {
                lemma_ground_subst(m, pars[i]);
            }
            assert(subst_all(m, pars) =~= pars);
            lemma_ground_subst(m, *res);
        },
        SpecType::Tup { flds } => {
            assert forall|i: int| 0 <= i < flds.len() implies subst_spec(m, flds[i])
                == #[trigger] flds[i] by {
                lemma_ground_subst(m, flds[i]);
            }
            assert(subst_all(m, flds) =~= flds);
        },
        _ => {},
    }
}

/// Replacing every variable of a simple type by a ground type gives a ground
/// type.
pub proof fn lemma_subst_ground(m: Map<SpecName, SpecType>, t: SpecType)
    requires
        ground_map(m),
        simple_type(t),
        well_formed(m.dom(), t),
    ensures
        ground(subst_spec(m, t)),
    decreases t,
{
    let out = subst_spec(m, t);
    match t {
        SpecType::Lit { lit } => {
            assert(out == t);
        },
        SpecType::Var { var } => {
            assert(m.dom().contains(var));
            assert(ground(m[var]));
        },
        SpecType::Func { pars, res } => {
            lemma_all_well_formed(m.dom(), pars, pars.len());
            assert forall|i: int| 0 <= i < pars.len() implies ground(
                #[trigger] subst_all(m, pars)[i],
            ) by {
                lemma_subst_ground(m, pars[i]);
            }
            lemma_subst_ground(m, *res);
            assert(out == SpecType::Func {
                pars: subst_all(m, pars),
                res: Box::new(subst_spec(m, *res)),
            });
        },
        SpecType::Tup { flds } => {
            lemma_all_well_formed(m.dom(), flds, flds.len());
            assert forall|i: int| 0 <= i < flds.len() implies ground(
                #[trigger] subst_all(m, flds)[i],
            ) by {
                lemma_subst_ground(m, flds[i]);
            }
            assert(out == SpecType::Tup { flds: subst_all(m, flds) });
        },
        SpecType::Forall { .. } => {},
        SpecType::Exist { .. } => {},
    }
}

/// Replacing variables of a simple type by simple types gives a simple type.
pub proof fn lemma_subst_simple(m: Map<SpecName, SpecType>, t: SpecType)
    requires
        forall|x: SpecName| m.contains_key(x) ==> simple_type(#[trigger] m[x]),
        simple_type(t),
    ensures
        simple_type(subst_spec(m, t)),
    decreases t,
{
    let out = subst_spec(m, t);
    match t {
        SpecType::Lit { lit } => {
            assert(out == t);
        },
        SpecType::Var { var } => {
            if m.contains_key(var) {
                assert(simple_type(m[var]));
            } else {
                assert(out == t);
            }
        },
        SpecType::Func { pars, res } => {
            assert forall|i: int| 0 <= i < pars.len() implies simple_type(
                #[trigger] subst_all(m, pars)[i],
            ) by {
                lemma_subst_simple(m, pars[i]);
            }
            lemma_subst_simple(m, *res);
            assert(out == SpecType::Func {
                pars: subst_all(m, pars),
                res: Box::new(subst_spec(m, *res)),
            });
        },
        SpecType::Tup { flds } => {
            assert forall|i: int| 0 <= i < flds.len() implies simple_type(
                #[trigger] subst_all(m, flds)[i],
            ) by {
                lemma_subst_simple(m, flds[i]);
            }
            assert(out == SpecType::Tup { flds: subst_all(m, flds) });
        },
        SpecType::Forall { .. } => {},
        SpecType::Exist { .. } => {},
    }
}

/// A simple type holds no existential, so none whose fields could lose a
/// binding.
pub proof fn lemma_simple_sealed(scope: Set<SpecName>, replaced: Set<SpecName>, t: SpecType)
    requires
        simple_type(t),
    ensures
        sealed_fields_bound(scope, replaced, t),
    decreases t,
{
    match t {
        SpecType::Func { pars, res } => {
            lemma_simple_sealed_among(scope, replaced, pars, pars.len());
            lemma_simple_sealed(scope, replaced, *res);
        },
        SpecType::Tup { flds } => {
            lemma_simple_sealed_among(scope, replaced, flds, flds.len());
        },
        _ => {},
    }
}

/// [`lemma_simple_sealed`] for the first `n` types of a list.
pub proof fn lemma_simple_sealed_among(
    scope: Set<SpecName>,
    replaced: Set<SpecName>,
    ts: Seq<SpecType>,
    n: nat,
)
    requires
        simple_types(ts),
        n <= ts.len(),
    ensures
        sealed_fields_bound_among(scope, replaced, ts, n),
    decreases ts, n,
{
    if n > 0 {
        lemma_simple_sealed_among(scope, replaced, ts, (n - 1) as nat);
        lemma_simple_sealed(scope, replaced, ts[n - 1]);
    }
}

/// Whether each type variable of a type is in `scope` or bound by a
/// quantifier around it, universal or existential.
pub open spec fn scoped(scope: Set<SpecName>, t: SpecType) -> bool
    decreases t,
{
    match t {
        SpecType::Lit { lit } => true,
        SpecType::Var { var } => scope.contains(var),
        SpecType::Func { pars, res } => (forall|i: int|
            0 <= i < pars.len() ==> scoped(scope, #[trigger] pars[i])) && scoped(scope, *res),
        SpecType::Tup { flds } => forall|i: int|
            0 <= i < flds.len() ==> scoped(scope, #[trigger] flds[i]),
        SpecType::Forall { gens, pars, res } => (forall|i: int|
            0 <= i < pars.len() ==> scoped(scope + gens.to_set(), #[trigger] pars[i])) && scoped(
            scope + gens.to_set(),
            *res,
        ),
        SpecType::Exist { seals, flds } => forall|i: int|
            0 <= i < flds.len() ==> scoped(scope + seals.to_set(), #[trigger] flds[i]),
    }
}

/// [`scoped`] of each type of a list.
pub open spec fn scoped_all(scope: Set<SpecName>, ts: Seq<SpecType>) -> bool {
    forall|i: int| 0 <= i < ts.len() ==> scoped(scope, #[trigger] ts[i])
}

/// For a simple type, to be scoped is to be well formed.
pub proof fn lemma_simple_scoped(scope: Set<SpecName>, t: SpecType)
    requires
        simple_type(t),
    ensures
        scoped(scope, t) == well_formed(scope, t),
    decreases t,
{
    match t {
        SpecType::Lit { lit } => {},
        SpecType::Var { var } => {},
        SpecType::Func { pars, res } => {
            lemma_all_well_formed(scope, pars, pars.len());
            assert forall|i: int| 0 <= i < pars.len() implies scoped(scope, #[trigger] pars[i])
                == well_formed(scope, pars[i]) by {
                lemma_simple_scoped(scope, pars[i]);
            }
            lemma_simple_scoped(scope, *res);
        },
        SpecType::Tup { flds } => {
            lemma_all_well_formed(scope, flds, flds.len());
            assert forall|i: int| 0 <= i < flds.len() implies scoped(scope, #[trigger] flds[i])
                == well_formed(scope, flds[i]) by {
                lemma_simple_scoped(scope, flds[i]);
            }
        },
        SpecType::Forall { .. } => {},
        SpecType::Exist { .. } => {},
    }
}

/// The type of a declaration with simple parameter and result types is
/// scoped where it is well formed.
pub proof fn lemma_signature_scoped(scope: Set<SpecName>, t: SpecType)
    requires
        t is Func || t is Forall,
        shallow(t),
        well_formed(scope, t),
    ensures
        scoped(scope, t),
{
    match t {
        SpecType::Func { pars, res } => {
            lemma_simple_scoped(scope, t);
        },
        SpecType::Forall { gens, pars, res } => {
            let inner = scope + gens.to_set();
            lemma_all_well_formed(inner, pars, pars.len());
            assert forall|i: int| 0 <= i < pars.len() implies scoped(inner, #[trigger] pars[i]) by {
                lemma_simple_scoped(inner, pars[i]);
            }
            lemma_simple_scoped(inner, *res);
        },
        _ => {},
    }
}

/// A type that is scoped in a scope is scoped in a larger one.
pub proof fn lemma_scoped_grows(small: Set<SpecName>, large: Set<SpecName>, t: SpecType)
    requires
        small.subset_of(large),
        scoped(small, t),
    ensures
        scoped(large, t),
    decreases t,
{
    match t {
        SpecType::Lit { lit } => {},
        SpecType::Var { var } => {},
        SpecType::Func { pars, res } => {
            assert forall|i: int| 0 <= i < pars.len() implies scoped(large, #[trigger] pars[i]) by {
                lemma_scoped_grows(small, large, pars[i]);
            }
            lemma_scoped_grows(small, large, *res);
        },
        SpecType::Tup { flds } => {
            assert forall|i: int| 0 <= i < flds.len() implies scoped(large, #[trigger] flds[i]) by {
                lemma_scoped_grows(small, large, flds[i]);
            }
        },
        SpecType::Forall { gens, pars, res } => {
            let s2 = small + gens.to_set();
            let l2 = large + gens.to_set();
            assert forall|i: int| 0 <= i < pars.len() implies scoped(l2, #[trigger] pars[i]) by {
                lemma_scoped_grows(s2, l2, pars[i]);
            }
            lemma_scoped_grows(s2, l2, *res);
        },
        SpecType::Exist { seals, flds } => {
            let s2 = small + seals.to_set();
            let l2 = large + seals.to_set();
            assert forall|i: int| 0 <= i < flds.len() implies scoped(l2, #[trigger] flds[i]) by {
                lemma_scoped_grows(s2, l2, flds[i]);
            }
        },
    }
}

/// Whether two maps bind the names of a scope alike.
pub open spec fn agree(
    scope: Set<SpecName>,
    m1: Map<SpecName, SpecType>,
    m2: Map<SpecName, SpecType>,
) -> bool {
    forall|x: SpecName| #[trigger]
        scope.contains(x) ==> m1.contains_key(x) == m2.contains_key(x) && (m1.contains_key(x)
            ==> m1[x] == m2[x])
}

/// Two maps that agree on a scope agree, with the same names unbound, on the
/// scope with those names added.
pub proof fn lemma_agree_under(
    scope: Set<SpecName>,
    m1: Map<SpecName, SpecType>,
    m2: Map<SpecName, SpecType>,
    names: Set<SpecName>,
)
    requires
        agree(scope, m1, m2),
    ensures
        agree(scope + names, m1.remove_keys(names), m2.remove_keys(names)),
{
    let n1 = m1.remove_keys(names);
    let n2 = m2.remove_keys(names);
    assert forall|x: SpecName| #[trigger] (scope + names).contains(x) implies n1.contains_key(x)
        == n2.contains_key(x) && (n1.contains_key(x) ==> n1[x] == n2[x]) by {
        if !names.contains(x) {
            assert(scope.contains(x));
        }
    }
}

/// Two maps that agree on a scope act alike on a type that is scoped in it.
pub proof fn lemma_subst_agree(
    scope: Set<SpecName>,
    m1: Map<SpecName, SpecType>,
    m2: Map<SpecName, SpecType>,
    t: SpecType,
)
    requires
        scoped(scope, t),
        agree(scope, m1, m2),
    ensures
        subst_spec(m1, t) == subst_spec(m2, t),
    decreases t,
{
    match t {
        SpecType::Lit { lit } => {},
        SpecType::Var { var } => {
            assert(scope.contains(var));
        },
        SpecType::Func { pars, res } => {
            lemma_subst_agree_all(scope, m1, m2, pars);
            lemma_subst_agree(scope, m1, m2, *res);
        },
        SpecType::Tup { flds } => {
            lemma_subst_agree_all(scope, m1, m2, flds);
        },
        SpecType::Forall { gens, pars, res } => {
            lemma_agree_under(scope, m1, m2, gens.to_set());
            lemma_subst_agree_all(
                scope + gens.to_set(),
                m1.remove_keys(gens.to_set()),
                m2.remove_keys(gens.to_set()),
                pars,
            );
            lemma_subst_agree(
                scope + gens.to_set(),
                m1.remove_keys(gens.to_set()),
                m2.remove_keys(gens.to_set()),
                *res,
            );
        },
        SpecType::Exist { seals, flds } => {
            lemma_agree_under(scope, m1, m2, seals.to_set());
            lemma_subst_agree_all(
                scope + seals.to_set(),
                m1.remove_keys(seals.to_set()),
                m2.remove_keys(seals.to_set()),
                flds,
            );
        },
    }
}

/// [`lemma_subst_agree`] for the types of a list.
pub proof fn lemma_subst_agree_all(
    scope: Set<SpecName>,
    m1: Map<SpecName, SpecType>,
    m2: Map<SpecName, SpecType>,
    ts: Seq<SpecType>,
)
    requires
        forall|i: int| 0 <= i < ts.len() ==> scoped(scope, #[trigger] ts[i]),
        agree(scope, m1, m2),
    ensures
        subst_all(m1, ts) == subst_all(m2, ts),
    decreases ts,
{
    assert forall|i: int| 0 <= i < ts.len() implies subst_spec(m1, #[trigger] ts[i]) == subst_spec(
        m2,
        ts[i],
    ) by {
        lemma_subst_agree(scope, m1, m2, ts[i]);
    }
    assert(subst_all(m1, ts) =~= subst_all(m2, ts));
}

/// The map that binds each name of a list to the type at its position.
pub open spec fn instance_map(gens: Seq<SpecName>, typs: Seq<SpecType>) -> Map<SpecName, SpecType> {
    bind_all(Map::empty(), pair_up(gens, typs))
}

/// Binding names to substituted types binds the same names, each to the
/// type that the substitution makes of what it was bound to.
pub proof fn lemma_bind_substituted(
    m: Map<SpecName, SpecType>,
    gens: Seq<SpecName>,
    typs: Seq<SpecType>,
    n: nat,
)
    requires
        gens.len() == typs.len(),
        n <= gens.len(),
    ensures
        bind_first(Map::empty(), pair_up(gens, subst_all(m, typs)), n).dom() == bind_first(
            Map::empty(),
            pair_up(gens, typs),
            n,
        ).dom(),
        forall|x: SpecName| #[trigger]
            bind_first(Map::empty(), pair_up(gens, typs), n).contains_key(x) ==> bind_first(
                Map::empty(),
                pair_up(gens, subst_all(m, typs)),
                n,
            )[x] == subst_spec(m, bind_first(Map::empty(), pair_up(gens, typs), n)[x]),
    decreases n,
{
    let plain = pair_up(gens, typs);
    let done = pair_up(gens, subst_all(m, typs));
    if n > 0 {
        lemma_bind_substituted(m, gens, typs, (n - 1) as nat);
        let a0 = bind_first(Map::empty(), plain, (n - 1) as nat);
        let b0 = bind_first(Map::empty(), done, (n - 1) as nat);
        let a = bind_first(Map::empty(), plain, n);
        let b = bind_first(Map::empty(), done, n);
        assert(a == a0.insert(gens[n - 1], typs[n - 1]));
        assert(b == b0.insert(gens[n - 1], subst_spec(m, typs[n - 1])));
        assert(b.dom() =~= a.dom());
        assert forall|x: SpecName| #[trigger] a.contains_key(x) implies b[x] == subst_spec(
            m,
            a[x],
        ) by {
            if x != gens[n - 1] {
                assert(a0.contains_key(x));
            }
        }
    } else {
        assert(bind_first(Map::empty(), done, n).dom() =~= bind_first(
            Map::empty(),
            plain,
            n,
        ).dom());
    }
}

/// Binding over a map overrides it where the bindings alone bind, and leaves
/// it elsewhere.
pub proof fn lemma_bind_over(
    base: Map<SpecName, SpecType>,
    ps: Seq<(SpecName, SpecType)>,
    n: nat,
)
    requires
        n <= ps.len(),
    ensures
        forall|x: SpecName| #[trigger]
            bind_first(Map::empty(), ps, n).contains_key(x) ==> bind_first(
                base,
                ps,
                n,
            ).contains_key(x) && bind_first(base, ps, n)[x] == bind_first(Map::empty(), ps, n)[x],
        forall|x: SpecName|
            !(#[trigger] bind_first(Map::empty(), ps, n).contains_key(x)) ==> bind_first(
                base,
                ps,
                n,
            ).contains_key(x) == base.contains_key(x) && (base.contains_key(x) ==> bind_first(
                base,
                ps,
                n,
            )[x] == base[x]),
    decreases n,
{
    if n > 0 {
        lemma_bind_over(base, ps, (n - 1) as nat);
        let a0 = bind_first(Map::empty(), ps, (n - 1) as nat);
        let b0 = bind_first(base, ps, (n - 1) as nat);
        let a = bind_first(Map::empty(), ps, n);
        let b = bind_first(base, ps, n);
        assert(a == a0.insert(ps[n - 1].0, ps[n - 1].1));
        assert(b == b0.insert(ps[n - 1].0, ps[n - 1].1));
        assert forall|x: SpecName| #[trigger] a.contains_key(x) implies b.contains_key(x) && b[x]
            == a[x] by {
            if x != ps[n - 1].0 {
                assert(a0.contains_key(x));
            }
        }
        assert forall|x: SpecName| !(#[trigger] a.contains_key(x)) implies b.contains_key(x)
            == base.contains_key(x) && (base.contains_key(x) ==> b[x] == base[x]) by {
            assert(!a0.contains_key(x));
        }
    }
}

/// Instantiating and then substituting is substituting under the binders and
/// then instantiating with the substituted arguments.
pub proof fn lemma_subst_inst(
    m: Map<SpecName, SpecType>,
    gens: Seq<SpecName>,
    typs: Seq<SpecType>,
    t: SpecType,
)
    requires
        ground_map(m),
        simple_type(t),
        gens.len() == typs.len(),
    ensures
        subst_spec(m, subst_spec(instance_map(gens, typs), t)) == subst_spec(
            instance_map(gens, subst_all(m, typs)),
            subst_spec(m.remove_keys(gens.to_set()), t),
        ),
    decreases t,
{
    let before = instance_map(gens, typs);
    let after = instance_map(gens, subst_all(m, typs));
    let under = m.remove_keys(gens.to_set());
    lemma_bind_substituted(m, gens, typs, gens.len());
    lemma_bound_pairs(gens, typs, gens.len());
    assert(gens.subrange(0, gens.len() as int) == gens);
    match t {
        SpecType::Lit { lit } => {},
        SpecType::Var { var } => {
            if before.contains_key(var) {
                assert(after.contains_key(var));
                assert(!under.contains_key(var));
            } else {
                assert(!after.contains_key(var));
                if m.contains_key(var) {
                    assert(under.contains_key(var) && under[var] == m[var]);
                    lemma_ground_subst(after, m[var]);
                } else {
                    assert(!under.contains_key(var));
                }
            }
        },
        SpecType::Func { pars, res } => {
            assert forall|i: int| 0 <= i < pars.len() implies subst_spec(
                m,
                subst_spec(before, #[trigger] pars[i]),
            ) == subst_spec(after, subst_spec(under, pars[i])) by {
                lemma_subst_inst(m, gens, typs, pars[i]);
            }
            assert(subst_all(m, subst_all(before, pars)) =~= subst_all(
                after,
                subst_all(under, pars),
            ));
            lemma_subst_inst(m, gens, typs, *res);
        },
        SpecType::Tup { flds } => {
            assert forall|i: int| 0 <= i < flds.len() implies subst_spec(
                m,
                subst_spec(before, #[trigger] flds[i]),
            ) == subst_spec(after, subst_spec(under, flds[i])) by {
                lemma_subst_inst(m, gens, typs, flds[i]);
            }
            assert(subst_all(m, subst_all(before, flds)) =~= subst_all(
                after,
                subst_all(under, flds),
            ));
        },
        SpecType::Forall { .. } => {},
        SpecType::Exist { .. } => {},
    }
}

/// [`lemma_subst_inst`] for the types of a list.
pub proof fn lemma_subst_inst_all(
    m: Map<SpecName, SpecType>,
    gens: Seq<SpecName>,
    typs: Seq<SpecType>,
    ts: Seq<SpecType>,
)
    requires
        ground_map(m),
        simple_types(ts),
        gens.len() == typs.len(),
    ensures
        subst_all(m, subst_all(instance_map(gens, typs), ts)) == subst_all(
            instance_map(gens, subst_all(m, typs)),
            subst_all(m.remove_keys(gens.to_set()), ts),
        ),
{
    assert forall|i: int| 0 <= i < ts.len() implies subst_spec(
        m,
        subst_spec(instance_map(gens, typs), #[trigger] ts[i]),
    ) == subst_spec(
        instance_map(gens, subst_all(m, typs)),
        subst_spec(m.remove_keys(gens.to_set()), ts[i]),
    ) by {
        lemma_subst_inst(m, gens, typs, ts[i]);
    }
    assert(subst_all(m, subst_all(instance_map(gens, typs), ts)) =~= subst_all(
        instance_map(gens, subst_all(m, typs)),
        subst_all(m.remove_keys(gens.to_set()), ts),
    ));
}

/// Substituting under binders and then instantiating them is substituting
/// with the map that the instantiation extends.
pub proof fn lemma_subst_fuse(
    m: Map<SpecName, SpecType>,
    gens: Seq<SpecName>,
    typs: Seq<SpecType>,
    t: SpecType,
)
    requires
        ground_map(m),
        simple_type(t),
        gens.len() == typs.len(),
    ensures
        subst_spec(instance_map(gens, typs), subst_spec(m.remove_keys(gens.to_set()), t))
            == subst_spec(bind_all(m, pair_up(gens, typs)), t),
    decreases t,
{
    let inst = instance_map(gens, typs);
    let under = m.remove_keys(gens.to_set());
    let whole = bind_all(m, pair_up(gens, typs));
    lemma_bind_over(m, pair_up(gens, typs), gens.len());
    lemma_bound_pairs(gens, typs, gens.len());
    assert(gens.subrange(0, gens.len() as int) == gens);
    match t {
        SpecType::Lit { lit } => {},
        SpecType::Var { var } => {
            if inst.contains_key(var) {
                assert(!under.contains_key(var));
                assert(whole.contains_key(var) && whole[var] == inst[var]);
            } else {
                if m.contains_key(var) {
                    assert(under.contains_key(var) && under[var] == m[var]);
                    lemma_ground_subst(inst, m[var]);
                    assert(whole.contains_key(var) && whole[var] == m[var]);
                } else {
                    assert(!under.contains_key(var));
                    assert(!whole.contains_key(var));
                }
            }
        },
        SpecType::Func { pars, res } => {
            assert forall|i: int| 0 <= i < pars.len() implies subst_spec(
                inst,
                subst_spec(under, #[trigger] pars[i]),
            ) == subst_spec(whole, pars[i]) by {
                lemma_subst_fuse(m, gens, typs, pars[i]);
            }
            assert(subst_all(inst, subst_all(under, pars)) =~= subst_all(whole, pars));
            lemma_subst_fuse(m, gens, typs, *res);
        },
        SpecType::Tup { flds } => {
            assert forall|i: int| 0 <= i < flds.len() implies subst_spec(
                inst,
                subst_spec(under, #[trigger] flds[i]),
            ) == subst_spec(whole, flds[i]) by {
                lemma_subst_fuse(m, gens, typs, flds[i]);
            }
            assert(subst_all(inst, subst_all(under, flds)) =~= subst_all(whole, flds));
        },
        SpecType::Forall { .. } => {},
        SpecType::Exist { .. } => {},
    }
}

/// [`lemma_subst_fuse`] for the types of a list.
pub proof fn lemma_subst_fuse_all(
    m: Map<SpecName, SpecType>,
    gens: Seq<SpecName>,
    typs: Seq<SpecType>,
    ts: Seq<SpecType>,
)
    requires
        ground_map(m),
        simple_types(ts),
        gens.len() == typs.len(),
    ensures
        subst_all(instance_map(gens, typs), subst_all(m.remove_keys(gens.to_set()), ts))
            == subst_all(bind_all(m, pair_up(gens, typs)), ts),
{
    assert forall|i: int| 0 <= i < ts.len() implies subst_spec(
        instance_map(gens, typs),
        subst_spec(m.remove_keys(gens.to_set()), #[trigger] ts[i]),
    ) == subst_spec(bind_all(m, pair_up(gens, typs)), ts[i]) by {
        lemma_subst_fuse(m, gens, typs, ts[i]);
    }
    assert(subst_all(instance_map(gens, typs), subst_all(m.remove_keys(gens.to_set()), ts))
        =~= subst_all(bind_all(m, pair_up(gens, typs)), ts));
}

/// Two maps that bind the same names in the same order, each to the value
/// at its position in a list of its own, bind a name that they bind to the
/// values at one and the same position.
pub proof fn lemma_bind_index(
    names: Seq<SpecName>,
    a: Seq<SpecType>,
    b: Seq<SpecType>,
    n: nat,
    x: SpecName,
)
    requires
        names.len() == a.len(),
        names.len() == b.len(),
        n <= names.len(),
        bind_first(Map::empty(), pair_up(names, a), n).contains_key(x),
    ensures
        exists|k: int|
            0 <= k < n && names[k] == x && #[trigger] a[k] == bind_first(
                Map::empty(),
                pair_up(names, a),
                n,
            )[x] && b[k] == bind_first(Map::empty(), pair_up(names, b), n)[x],
    decreases n,
{
    if n > 0 {
        let ma = bind_first(Map::empty(), pair_up(names, a), n);
        let mb = bind_first(Map::empty(), pair_up(names, b), n);
        if names[n - 1] == x {
            assert(a[n - 1] == ma[x] && b[n - 1] == mb[x]);
        } else {
            lemma_bind_index(names, a, b, (n - 1) as nat, x);
            let k = choose|k: int|
                0 <= k < n - 1 && names[k] == x && #[trigger] a[k] == bind_first(
                    Map::empty(),
                    pair_up(names, a),
                    (n - 1) as nat,
                )[x] && b[k] == bind_first(Map::empty(), pair_up(names, b), (n - 1) as nat)[x];
            assert(a[k] == ma[x] && b[k] == mb[x]);
        }
    }
}

/// Names without duplicates, bound in order over a map, are each bound to
/// the value at its position.
pub proof fn lemma_bind_distinct(
    base: Map<SpecName, SpecType>,
    names: Seq<SpecName>,
    vals: Seq<SpecType>,
    n: nat,
    k: int,
)
    requires
        names.len() == vals.len(),
        names.no_duplicates(),
        0 <= k < n <= names.len(),
    ensures
        bind_first(base, pair_up(names, vals), n).contains_key(names[k]),
        bind_first(base, pair_up(names, vals), n)[names[k]] == vals[k],
    decreases n,
{
    if k < n - 1 {
        lemma_bind_distinct(base, names, vals, (n - 1) as nat, k);
        assert(names[n - 1] != names[k]);
    }
}

/// Opening sealed names and then reading the opened names as the hidden
/// types is reading the sealed names as the hidden types.
pub proof fn lemma_subst_open(
    m: Map<SpecName, SpecType>,
    seals: Seq<SpecName>,
    opens: Seq<SpecName>,
    hidden: Seq<SpecType>,
    t: SpecType,
)
    requires
        ground_map(m),
        simple_type(t),
        seals.len() == opens.len(),
        seals.len() == hidden.len(),
        grounds(hidden),
        opens.no_duplicates(),
        opens.to_set().disjoint(m.dom()),
        scoped(m.dom() + seals.to_set(), t),
    ensures
        subst_spec(
            bind_all(m, pair_up(opens, hidden)),
            subst_spec(instance_map(seals, vars_of(opens)), t),
        ) == subst_spec(instance_map(seals, hidden), subst_spec(m.remove_keys(seals.to_set()), t)),
    decreases t,
{
    let whole = bind_all(m, pair_up(opens, hidden));
    let opened = instance_map(seals, vars_of(opens));
    let inst = instance_map(seals, hidden);
    let under = m.remove_keys(seals.to_set());
    lemma_bound_pairs(seals, vars_of(opens), seals.len());
    lemma_bound_pairs(seals, hidden, seals.len());
    assert(seals.subrange(0, seals.len() as int) == seals);
    match t {
        SpecType::Lit { lit } => {},
        SpecType::Var { var } => {
            if opened.contains_key(var) {
                lemma_bind_index(seals, vars_of(opens), hidden, seals.len(), var);
                let k = choose|k: int|
                    0 <= k < seals.len() && seals[k] == var && #[trigger] vars_of(opens)[k]
                        == opened[var] && hidden[k] == inst[var];
                lemma_bind_distinct(m, opens, hidden, opens.len(), k);
                assert(opened[var] == SpecType::Var { var: opens[k] });
                assert(!under.contains_key(var));
                assert(inst.contains_key(var));
            } else {
                assert(!inst.contains_key(var));
                assert(m.dom().contains(var));
                assert(!opens.to_set().contains(var));
                lemma_bind_over(m, pair_up(opens, hidden), opens.len());
                lemma_bound_pairs(opens, hidden, opens.len());
                assert(opens.subrange(0, opens.len() as int) == opens);
                assert(whole.contains_key(var) && whole[var] == m[var]);
                assert(under.contains_key(var) && under[var] == m[var]);
                lemma_ground_subst(inst, m[var]);
            }
        },
        SpecType::Func { pars, res } => {
            assert forall|i: int| 0 <= i < pars.len() implies subst_spec(
                whole,
                subst_spec(opened, #[trigger] pars[i]),
            ) == subst_spec(inst, subst_spec(under, pars[i])) by {
                lemma_subst_open(m, seals, opens, hidden, pars[i]);
            }
            assert(subst_all(whole, subst_all(opened, pars)) =~= subst_all(
                inst,
                subst_all(under, pars),
            ));
            lemma_subst_open(m, seals, opens, hidden, *res);
        },
        SpecType::Tup { flds } => {
            assert forall|i: int| 0 <= i < flds.len() implies subst_spec(
                whole,
                subst_spec(opened, #[trigger] flds[i]),
            ) == subst_spec(inst, subst_spec(under, flds[i])) by {
                lemma_subst_open(m, seals, opens, hidden, flds[i]);
            }
            assert(subst_all(whole, subst_all(opened, flds)) =~= subst_all(
                inst,
                subst_all(under, flds),
            ));
        },
        SpecType::Forall { .. } => {},
        SpecType::Exist { .. } => {},
    }
}

/// Two lists of types of one length that differ at no position are equal.
pub proof fn lemma_no_mismatch(a: Seq<SpecType>, b: Seq<SpecType>, n: nat)
    requires
        n <= a.len(),
        n <= b.len(),
        first_mismatch(a, b, n) is None,
    ensures
        forall|i: int| 0 <= i < n ==> a[i] == b[i],
    decreases n,
{
    if n > 0 {
        lemma_no_mismatch(a, b, (n - 1) as nat);
    }
}

/// Whether a type holds no quantifier.
pub fn is_simple_type(t: &Type) -> (b: bool)
    ensures
        b == simple_type(t@),
    decreases t,
{
    match t {
        Type::Lit { .. } => true,
        Type::Var { .. } => true,
        Type::Func { pars, res } => {
            let b = are_simple_types(pars) && is_simple_type(res);
            proof {
                let v = t@;
                assert(v == SpecType::Func { pars: types_view(pars@), res: Box::new(res@) });
                assert(simple_type(v) == (simple_types(v->Func_pars) && simple_type(
                    *v->Func_res,
                )));
            }
            b
        },
        Type::Tup { flds } => {
            let b = are_simple_types(flds);
            proof {
                let v = t@;
                assert(v == SpecType::Tup { flds: types_view(flds@) });
                assert(simple_type(v) == simple_types(v->Tup_flds));
            }
            b
        },
        Type::Forall { .. } => false,
        Type::Exist { .. } => false,
    }
}

/// Whether no type of a list holds a quantifier.
pub fn are_simple_types(ts: &Vec<Type>) -> (b: bool)
    ensures
        b == simple_types(types_view(ts@)),
    decreases ts,
{
    proof {
        lemma_types_view(ts@);
    }
    let mut i: usize = 0;
    while i < ts.len()
        invariant
            i <= ts.len(),
            types_view(ts@).len() == ts.len(),
            forall|j: int| 0 <= j < ts.len() ==> (#[trigger] types_view(ts@)[j]) == ts@[j]@,
            forall|j: int| 0 <= j < i ==> simple_type(#[trigger] types_view(ts@)[j]),
        decreases ts.len() - i,
    {
        if !is_simple_type(&ts[i]) {
            assert(!simple_type(types_view(ts@)[i as int]));
            return false;
        }
        i += 1;
    }
    true
}

/// Whether none of the names is in the scope.
pub fn are_fresh(names: &Vec<Name>, tyenv: &TyEnv) -> (b: bool)
    ensures
        b == names_view(names@).to_set().disjoint(scope_names(*tyenv)),
{
    let mut i: usize = 0;
    while i < names.len()
        invariant
            i <= names.len(),
            forall|j: int|
                0 <= j < i ==> !scope_names(*tyenv).contains(#[trigger] names_view(names@)[j]),
        decreases names.len() - i,
    {
        if scope_contains(tyenv, &names[i]) {
            assert(names_view(names@).to_set().contains(names_view(names@)[i as int]));
            return false;
        }
        i += 1;
    }
    assert forall|x: SpecName| names_view(names@).to_set().contains(x) implies !scope_names(
        *tyenv,
    ).contains(x) by {
        let j = choose|j: int| 0 <= j < names_view(names@).len() && names_view(names@)[j] == x;
        assert(!scope_names(*tyenv).contains(names_view(names@)[j]));
    }
    true
}

/// Whether no name occurs twice in the list.
pub fn are_distinct(names: &Vec<Name>) -> (b: bool)
    ensures
        b == names_view(names@).no_duplicates(),
{
    let ghost all = names_view(names@);
    let mut i: usize = 0;
    while i < names.len()
        invariant
            i <= names.len(),
            all == names_view(names@),
            forall|j: int, k: int| 0 <= j < k < i ==> all[j] != all[k],
        decreases names.len() - i,
    {
        let mut j: usize = 0;
        while j < i
            invariant
                j <= i < names.len(),
                all == names_view(names@),
                forall|k: int| 0 <= k < j ==> all[k] != all[i as int],
            decreases i - j,
        {
            if names[j].same(&names[i]) {
                assert(all[j as int] == all[i as int]);
                return false;
            }
            j += 1;
        }
        i += 1;
    }
    true
}

/// Whether each type variable of a type is in scope or bound by a quantifier
/// around it: see [`scoped`].
pub fn is_scoped(t: &Type, tyenv: &TyEnv) -> (b: bool)
    ensures
        b == scoped(scope_names(*tyenv), t@),
    decreases t,
{
    let ghost tys = scope_names(*tyenv);
    let ghost v = t@;
    match t {
        Type::Lit { .. } => true,
        Type::Var { var } => {
            let b = scope_contains(tyenv, var);
            assert(v == SpecType::Var { var: var@ });
            b
        },
        Type::Func { pars, res } => {
            let b = are_scoped(pars, tyenv) && is_scoped(res, tyenv);
            proof {
                assert(v == SpecType::Func { pars: types_view(pars@), res: Box::new(res@) });
                assert(v->Func_pars == types_view(pars@));
                assert(scoped(tys, v) == (scoped_all(tys, v->Func_pars) && scoped(
                    tys,
                    *v->Func_res,
                )));
            }
            b
        },
        Type::Tup { flds } => {
            let b = are_scoped(flds, tyenv);
            proof {
                assert(v == SpecType::Tup { flds: types_view(flds@) });
                assert(v->Tup_flds == types_view(flds@));
                assert(scoped(tys, v) == scoped_all(tys, v->Tup_flds));
            }
            b
        },
        Type::Forall { gens, pars, res } => {
            let inner = with_names(tyenv, gens);
            let b = are_scoped(pars, &inner) && is_scoped(res, &inner);
            proof {
                let more = tys + names_view(gens@).to_set();
                assert(v == SpecType::Forall {
                    gens: names_view(gens@),
                    pars: types_view(pars@),
                    res: Box::new(res@),
                });
                assert(v->Forall_pars == types_view(pars@));
                assert(scoped(tys, v) == (scoped_all(more, v->Forall_pars) && scoped(
                    more,
                    *v->Forall_res,
                )));
            }
            b
        },
        Type::Exist { seals, flds } => {
            let inner = with_names(tyenv, seals);
            let b = are_scoped(flds, &inner);
            proof {
                let more = tys + names_view(seals@).to_set();
                assert(v == SpecType::Exist {
                    seals: names_view(seals@),
                    flds: types_view(flds@),
                });
                assert(v->Exist_flds == types_view(flds@));
                assert(scoped(tys, v) == scoped_all(more, v->Exist_flds));
            }
            b
        },
    }
}

/// [`is_scoped`] of each type of a list.
pub fn are_scoped(ts: &Vec<Type>, tyenv: &TyEnv) -> (b: bool)
    ensures
        b == scoped_all(scope_names(*tyenv), types_view(ts@)),
    decreases ts,
{
    proof {
        lemma_types_view(ts@);
    }
    let mut i: usize = 0;
    while i < ts.len()
        invariant
            i <= ts.len(),
            types_view(ts@).len() == ts.len(),
            forall|j: int| 0 <= j < ts.len() ==> (#[trigger] types_view(ts@)[j]) == ts@[j]@,
            forall|j: int|
                0 <= j < i ==> scoped(scope_names(*tyenv), #[trigger] types_view(ts@)[j]),
        decreases ts.len() - i,
    {
        if !is_scoped(&ts[i], tyenv) {
            assert(!scoped(scope_names(*tyenv), types_view(ts@)[i as int]));
            return false;
        }
        i += 1;
    }
    true
}

} // verus!
