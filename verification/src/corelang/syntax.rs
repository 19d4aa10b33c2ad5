//! The data model of the language: types, expressions, declarations, programs.

use vstd::prelude::*;
use crate::common::lit::{LitType, LitVal};
use crate::common::name::{Name, SpecName, clone_names, names_view, same_names};
use crate::common::prim::Prim;

verus! {

/// A type of the language.
#[derive(Debug, Hash, PartialEq, Eq, PartialOrd, Ord)]
pub enum Type {
    Lit { lit: LitType },
    /// x
    Var { var: Name },
    /// fn(T1, ..., Tn) -> U
    Func { pars: Vec<Type>, res: Box<Type> },
    /// (T1, ..., Tn)
    Tup { flds: Vec<Type> },
    /// fn[X1, ..., Xn](T1, ..., Tn) -> U
    Forall { gens: Vec<Name>, pars: Vec<Type>, res: Box<Type> },
    /// [X1, ..., Xn](T1, ..., Tn)
    Exist { seals: Vec<Name>, flds: Vec<Type> },
}

/// The mathematical value of a [`Type`].
pub enum SpecType {
    Lit { lit: LitType },
    Var { var: SpecName },
    Func { pars: Seq<SpecType>, res: Box<SpecType> },
    Tup { flds: Seq<SpecType> },
    Forall { gens: Seq<SpecName>, pars: Seq<SpecType>, res: Box<SpecType> },
    Exist { seals: Seq<SpecName>, flds: Seq<SpecType> },
}

/// The views of a list of types, in order.
pub open spec fn types_view(ts: Seq<Type>) -> Seq<SpecType>
    decreases ts,
{
    Seq::new(
        ts.len(),
        |i: int|
            if 0 <= i < ts.len() {
                type_model(ts[i])
            } else {
                SpecType::Tup { flds: Seq::empty() }
            },
    )
}

/// The mathematical value of a type: its names and component lists by value.
pub open spec fn type_model(t: Type) -> SpecType
    decreases t,
{
        match t {
            Type::Lit { lit } => SpecType::Lit { lit },
            Type::Var { var } => SpecType::Var { var: var@ },
            Type::Func { pars, res } => SpecType::Func {
                pars: types_view(pars@),
                res: Box::new(type_model(*res)),
            },
            Type::Tup { flds } => SpecType::Tup { flds: types_view(flds@) },
            Type::Forall { gens, pars, res } => SpecType::Forall {
                gens: names_view(gens@),
                pars: types_view(pars@),
                res: Box::new(type_model(*res)),
            },
            Type::Exist { seals, flds } => SpecType::Exist {
                seals: names_view(seals@),
                flds: types_view(flds@),
            },
        }
}

impl View for Type {
    type V = SpecType;

    open spec fn view(&self) -> SpecType {
        type_model(*self)
    }
}

impl Clone for Type {
    fn clone(&self) -> (r: Type)
        ensures
            r@ == self@,
        decreases self,
    {
        match self {
            Type::Lit { lit } => Type::Lit { lit: *lit },
            Type::Var { var } => Type::Var { var: var.clone() },
            Type::Func { pars, res } => Type::Func {
                pars: clone_types(pars),
                res: Box::new((&**res).clone()),
            },
            Type::Tup { flds } => Type::Tup { flds: clone_types(flds) },
            Type::Forall { gens, pars, res } => Type::Forall {
                gens: clone_names(gens),
                pars: clone_types(pars),
                res: Box::new((&**res).clone()),
            },
            Type::Exist { seals, flds } => Type::Exist {
                seals: clone_names(seals),
                flds: clone_types(flds),
            },
        }
    }
}

/// Copies a list of types.
pub fn clone_types(ts: &Vec<Type>) -> (r: Vec<Type>)
    ensures
        types_view(r@) == types_view(ts@),
    decreases ts,
{
    let mut out: Vec<Type> = Vec::new();
    let mut i: usize = 0;
    while i < ts.len()
        invariant
            i <= ts.len(),
            out@.len() == i,
            forall|j: int| 0 <= j < i ==> out@[j]@ == ts@[j]@,
        decreases ts.len() - i,
    {
        out.push(ts[i].clone());
        i += 1;
    }
    assert(types_view(out@) =~= types_view(ts@));
    out
}

impl Type {
    /// Deep structural equality of two types.
    pub fn same(&self, other: &Type) -> (b: bool)
        ensures
            b == (self@ == other@),
        decreases self,
    {
        match (self, other) {
            (Type::Lit { lit: a }, Type::Lit { lit: b }) => *a == *b,
            (Type::Var { var: a }, Type::Var { var: b }) => a.same(b),
            (Type::Func { pars: ps, res: r }, Type::Func { pars: qs, res: s }) => {
                same_types(ps, qs) && (&**r).same(&**s)
            },
            (Type::Tup { flds: fs }, Type::Tup { flds: gs }) => same_types(fs, gs),
            (
                Type::Forall { gens: gs, pars: ps, res: r },
                Type::Forall { gens: hs, pars: qs, res: s },
            ) => same_names(gs, hs) && same_types(ps, qs) && (&**r).same(&**s),
            (Type::Exist { seals: ss, flds: fs }, Type::Exist { seals: ts, flds: gs }) => {
                same_names(ss, ts) && same_types(fs, gs)
            },
            _ => false,
        }
    }
}

/// Whether two lists of types are equal, position by position.
pub fn same_types(a: &Vec<Type>, b: &Vec<Type>) -> (r: bool)
    ensures
        r == (types_view(a@) == types_view(b@)),
    decreases a,
{
    if a.len() != b.len() {
        assert(types_view(a@).len() != types_view(b@).len());
        return false;
    }
    let mut i: usize = 0;
    while i < a.len()
        invariant
            i <= a.len(),
            a.len() == b.len(),
            forall|j: int| 0 <= j < i ==> a@[j]@ == b@[j]@,
        decreases a.len() - i,
    {
        if !a[i].same(&b[i]) {
            assert(types_view(a@)[i as int] != types_view(b@)[i as int]);
            return false;
        }
        i += 1;
    }
    assert(types_view(a@) =~= types_view(b@));
    true
}

/// The views of a list of typed names, in order.
pub open spec fn params_view(ps: Seq<(Name, Type)>) -> Seq<(SpecName, SpecType)> {
    Seq::new(ps.len(), |i: int| (ps[i].0@, ps[i].1@))
}

/// Copies a list of typed names.
pub fn clone_params(ps: &Vec<(Name, Type)>) -> (r: Vec<(Name, Type)>)
    ensures
        params_view(r@) == params_view(ps@),
{
    let mut out: Vec<(Name, Type)> = Vec::new();
    let mut i: usize = 0;
    while i < ps.len()
        invariant
            i <= ps.len(),
            out@.len() == i,
            forall|j: int| 0 <= j < i ==> out@[j].0@ == ps@[j].0@ && out@[j].1@ == ps@[j].1@,
        decreases ps.len() - i,
    {
        out.push((ps[i].0.clone(), ps[i].1.clone()));
        i += 1;
    }
    assert(params_view(out@) =~= params_view(ps@));
    out
}

/// An expression of the language.
#[derive(Debug, PartialEq, PartialOrd)]
#[allow(inconsistent_fields)]
pub enum Expr {
    Lit { lit: LitVal },
    /// x
    Var { var: Name },
    /// @prim(E1, ..., En)
    Prim { prim: Prim, args: Vec<Expr> },
    /// let x = E1 in E2
    Let { bind: Name, expr: Box<Expr>, cont: Box<Expr> },
    /// fn(x1: T1, ..., xn: Tn) => E
    Func { pars: Vec<(Name, Type)>, body: Box<Expr> },
    /// E0(E1, ..., En)
    App { func: Box<Expr>, args: Vec<Expr> },
    /// (E1, ..., En)
    Tup { flds: Vec<Expr> },
    /// E.i
    Sel { expr: Box<Expr>, idx: usize },
    /// letrec D1 ... Dn in E end
    Letrec { decls: Vec<Decl>, cont: Box<Expr> },
    /// E[T1, ..., Tn]
    Inst { expr: Box<Expr>, typs: Vec<Type> },
    /// pack E as [X1=T1, ..., Xn=Tn](U1, ..., Un)
    Pack { expr: Box<Expr>, seals: Vec<(Name, Type)>, flds: Vec<Type> },
    /// unpack x[X1, ..., Xn] = E1 in E2
    Unpack { bind: Name, opens: Vec<Name>, expr: Box<Expr>, cont: Box<Expr> },
    /// if E1 then E2 else E3
    Ifte { cond: Box<Expr>, trbr: Box<Expr>, flbr: Box<Expr> },
}

/// A function declaration:
/// function f[X1, ..., Xn](x1: T1, ..., xn: Tn) -> U begin E end
#[derive(Debug, PartialEq, PartialOrd)]
pub struct Decl {
    pub name: Name,
    /// The generic binders; `None` for a monomorphic function.
    pub gens: Option<Vec<Name>>,
    pub pars: Vec<(Name, Type)>,
    pub res: Type,
    pub body: Expr,
}

/// The mathematical value of an [`Expr`].
#[allow(inconsistent_fields)]
pub enum SpecExpr {
    Lit { lit: LitVal },
    Var { var: SpecName },
    Prim { prim: Prim, args: Seq<SpecExpr> },
    Let { bind: SpecName, expr: Box<SpecExpr>, cont: Box<SpecExpr> },
    Func { pars: Seq<(SpecName, SpecType)>, body: Box<SpecExpr> },
    App { func: Box<SpecExpr>, args: Seq<SpecExpr> },
    Tup { flds: Seq<SpecExpr> },
    Sel { expr: Box<SpecExpr>, idx: usize },
    Letrec { decls: Seq<SpecDecl>, cont: Box<SpecExpr> },
    Inst { expr: Box<SpecExpr>, typs: Seq<SpecType> },
    Pack { expr: Box<SpecExpr>, seals: Seq<(SpecName, SpecType)>, flds: Seq<SpecType> },
    Unpack { bind: SpecName, opens: Seq<SpecName>, expr: Box<SpecExpr>, cont: Box<SpecExpr> },
    Ifte { cond: Box<SpecExpr>, trbr: Box<SpecExpr>, flbr: Box<SpecExpr> },
}

/// The mathematical value of a [`Decl`].
pub struct SpecDecl {
    pub name: SpecName,
    pub gens: Option<Seq<SpecName>>,
    pub pars: Seq<(SpecName, SpecType)>,
    pub res: SpecType,
    pub body: SpecExpr,
}

/// The mathematical value of an expression.
pub open spec fn expr_model(e: Expr) -> SpecExpr
    decreases e,
{
    match e {
        Expr::Lit { lit } => SpecExpr::Lit { lit },
        Expr::Var { var } => SpecExpr::Var { var: var@ },
        Expr::Prim { prim, args } => SpecExpr::Prim { prim, args: exprs_view(args@) },
        Expr::Let { bind, expr, cont } => SpecExpr::Let {
            bind: bind@,
            expr: Box::new(expr_model(*expr)),
            cont: Box::new(expr_model(*cont)),
        },
        Expr::Func { pars, body } => SpecExpr::Func {
            pars: params_view(pars@),
            body: Box::new(expr_model(*body)),
        },
        Expr::App { func, args } => SpecExpr::App {
            func: Box::new(expr_model(*func)),
            args: exprs_view(args@),
        },
        Expr::Tup { flds } => SpecExpr::Tup { flds: exprs_view(flds@) },
        Expr::Sel { expr, idx } => SpecExpr::Sel { expr: Box::new(expr_model(*expr)), idx },
        Expr::Letrec { decls, cont } => SpecExpr::Letrec {
            decls: decls_view(decls@),
            cont: Box::new(expr_model(*cont)),
        },
        Expr::Inst { expr, typs } => SpecExpr::Inst {
            expr: Box::new(expr_model(*expr)),
            typs: types_view(typs@),
        },
        Expr::Pack { expr, seals, flds } => SpecExpr::Pack {
            expr: Box::new(expr_model(*expr)),
            seals: params_view(seals@),
            flds: types_view(flds@),
        },
        Expr::Unpack { bind, opens, expr, cont } => SpecExpr::Unpack {
            bind: bind@,
            opens: names_view(opens@),
            expr: Box::new(expr_model(*expr)),
            cont: Box::new(expr_model(*cont)),
        },
        Expr::Ifte { cond, trbr, flbr } => SpecExpr::Ifte {
            cond: Box::new(expr_model(*cond)),
            trbr: Box::new(expr_model(*trbr)),
            flbr: Box::new(expr_model(*flbr)),
        },
    }
}

/// The views of a list of expressions, in order.
pub open spec fn exprs_view(es: Seq<Expr>) -> Seq<SpecExpr>
    decreases es,
{
    Seq::new(
        es.len(),
        |i: int|
            if 0 <= i < es.len() {
                expr_model(es[i])
            } else {
                SpecExpr::Tup { flds: Seq::empty() }
            },
    )
}

/// The mathematical value of a declaration.
pub open spec fn decl_model(d: Decl) -> SpecDecl
    decreases d,
{
    SpecDecl {
        name: d.name@,
        gens: match d.gens {
            Some(gens) => Some(names_view(gens@)),
            None => None,
        },
        pars: params_view(d.pars@),
        res: d.res@,
        body: expr_model(d.body),
    }
}

/// The views of a list of declarations, in order.
pub open spec fn decls_view(ds: Seq<Decl>) -> Seq<SpecDecl>
    decreases ds,
{
    Seq::new(
        ds.len(),
        |i: int|
            if 0 <= i < ds.len() {
                decl_model(ds[i])
            } else {
                SpecDecl {
                    name: SpecName::GenId(' ', 0),
                    gens: None,
                    pars: Seq::empty(),
                    res: SpecType::Tup { flds: Seq::empty() },
                    body: SpecExpr::Tup { flds: Seq::empty() },
                }
            },
    )
}

impl View for Expr {
    type V = SpecExpr;

    open spec fn view(&self) -> SpecExpr {
        expr_model(*self)
    }
}

impl View for Decl {
    type V = SpecDecl;

    open spec fn view(&self) -> SpecDecl {
        decl_model(*self)
    }
}

impl Clone for Expr {
    fn clone(&self) -> (r: Expr)
        ensures
            r@ == self@,
        decreases self,
    {
        match self {
            Expr::Lit { lit } => Expr::Lit { lit: *lit },
            Expr::Var { var } => Expr::Var { var: var.clone() },
            Expr::Prim { prim, args } => Expr::Prim { prim: *prim, args: clone_exprs(args) },
            Expr::Let { bind, expr, cont } => Expr::Let {
                bind: bind.clone(),
                expr: Box::new((&**expr).clone()),
                cont: Box::new((&**cont).clone()),
            },
            Expr::Func { pars, body } => Expr::Func {
                pars: clone_params(pars),
                body: Box::new((&**body).clone()),
            },
            Expr::App { func, args } => Expr::App {
                func: Box::new((&**func).clone()),
                args: clone_exprs(args),
            },
            Expr::Tup { flds } => Expr::Tup { flds: clone_exprs(flds) },
            Expr::Sel { expr, idx } => Expr::Sel { expr: Box::new((&**expr).clone()), idx: *idx },
            Expr::Letrec { decls, cont } => Expr::Letrec {
                decls: clone_decls(decls),
                cont: Box::new((&**cont).clone()),
            },
            Expr::Inst { expr, typs } => Expr::Inst {
                expr: Box::new((&**expr).clone()),
                typs: clone_types(typs),
            },
            Expr::Pack { expr, seals, flds } => Expr::Pack {
                expr: Box::new((&**expr).clone()),
                seals: clone_params(seals),
                flds: clone_types(flds),
            },
            Expr::Unpack { bind, opens, expr, cont } => Expr::Unpack {
                bind: bind.clone(),
                opens: clone_names(opens),
                expr: Box::new((&**expr).clone()),
                cont: Box::new((&**cont).clone()),
            },
            Expr::Ifte { cond, trbr, flbr } => Expr::Ifte {
                cond: Box::new((&**cond).clone()),
                trbr: Box::new((&**trbr).clone()),
                flbr: Box::new((&**flbr).clone()),
            },
        }
    }
}

/// Copies a list of expressions.
pub fn clone_exprs(es: &Vec<Expr>) -> (r: Vec<Expr>)
    ensures
        exprs_view(r@) == exprs_view(es@),
    decreases es,
{
    let mut out: Vec<Expr> = Vec::new();
    let mut i: usize = 0;
    while i < es.len()
        invariant
            i <= es.len(),
            out@.len() == i,
            forall|j: int| 0 <= j < i ==> out@[j]@ == es@[j]@,
        decreases es.len() - i,
    {
        out.push(es[i].clone());
        i += 1;
    }
    assert(exprs_view(out@) =~= exprs_view(es@));
    out
}

impl Clone for Decl {
    fn clone(&self) -> (r: Decl)
        ensures
            r@ == self@,
        decreases self,
    {
        Decl {
            name: self.name.clone(),
            gens: match &self.gens {
                Some(gens) => Some(clone_names(gens)),
                None => None,
            },
            pars: clone_params(&self.pars),
            res: self.res.clone(),
            body: self.body.clone(),
        }
    }
}

/// Copies a list of declarations.
pub fn clone_decls(ds: &Vec<Decl>) -> (r: Vec<Decl>)
    ensures
        decls_view(r@) == decls_view(ds@),
    decreases ds,
{
    let mut out: Vec<Decl> = Vec::new();
    let mut i: usize = 0;
    while i < ds.len()
        invariant
            i <= ds.len(),
            out@.len() == i,
            forall|j: int| 0 <= j < i ==> out@[j]@ == ds@[j]@,
        decreases ds.len() - i,
    {
        out.push(ds[i].clone());
        i += 1;
    }
    assert(decls_view(out@) =~= decls_view(ds@));
    out
}

/// A constructor of a datatype: C { x1: T1, ..., xn: Tn }
#[derive(Clone, Debug, PartialEq, PartialOrd)]
pub struct Cons {
    pub name: Name,
    pub flds: Vec<(Name, Type)>,
}

/// A datatype declaration:
/// datatype D[T1, ..., Tn] where | C1 { ... } | ... | Cn { ... } end
///
/// Datatypes belong to the data model; neither the checker nor the evaluator
/// reads them.
#[derive(Clone, Debug, PartialEq, PartialOrd)]
pub struct Data {
    pub name: Name,
    pub gens: Vec<Name>,
    pub cons: Vec<Cons>,
}

/// A whole program.
#[derive(Clone, Debug, PartialEq, PartialOrd)]
pub struct Program {
    pub datas: Vec<Data>,
    pub decls: Vec<Decl>,
}

/// The types of a list and their views agree position by position.
pub proof fn lemma_types_view(ts: Seq<Type>)
    ensures
        types_view(ts).len() == ts.len(),
        forall|i: int| 0 <= i < ts.len() ==> (#[trigger] types_view(ts)[i]) == ts[i]@,
{
}

/// The typed names of a list and their views agree position by position.
pub proof fn lemma_params_view(ps: Seq<(Name, Type)>)
    ensures
        params_view(ps).len() == ps.len(),
        forall|i: int| 0 <= i < ps.len() ==> (#[trigger] params_view(ps)[i]) == (ps[i].0@, ps[i].1@),
{
}

/// The expressions of a list and their views agree position by position.
pub proof fn lemma_exprs_view(es: Seq<Expr>)
    ensures
        exprs_view(es).len() == es.len(),
        forall|i: int| 0 <= i < es.len() ==> (#[trigger] exprs_view(es)[i]) == es[i]@,
{
}

/// The declarations of a list and their views agree position by position.
pub proof fn lemma_decls_view(ds: Seq<Decl>)
    ensures
        decls_view(ds).len() == ds.len(),
        forall|i: int| 0 <= i < ds.len() ==> (#[trigger] decls_view(ds)[i]) == ds[i]@,
{
}

} // verus!
