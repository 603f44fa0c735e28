//! Type-parameter bindings: substitution and structural inference.

use vstd::prelude::*;

use crate::text::{same_text, views};
use crate::types::{FnSig, FnSigView, Ty, TyView};

verus! {

broadcast use {crate::text::group_views, crate::types::group_ty_views};

/// The types that the formals of a generic signature are bound to.
#[derive(Debug)]
pub struct Bindings {
    entries: Vec<(String, Ty)>,
}

/// The bindings that a list of entries stands for. A later entry replaces an earlier one.
spec fn entries_map(entries: Seq<(String, Ty)>) -> Map<Seq<char>, TyView>
    decreases entries.len(),
{
    if entries.len() == 0 {
        Map::empty()
    } else {
        entries_map(entries.drop_last()).insert(entries.last().0@, entries.last().1@)
    }
}

impl View for Bindings {
    type V = Map<Seq<char>, TyView>;

    closed spec fn view(&self) -> Map<Seq<char>, TyView> {
        entries_map(self.entries@)
    }
}

impl Bindings {
    pub fn new() -> (out: Self)
        ensures
            out@ == Map::<Seq<char>, TyView>::empty(),
    {
        Bindings { entries: Vec::new() }
    }

    /// Bind a formal, in place of an earlier binding.
    pub fn insert(&mut self, formal: &str, ty: Ty)
        ensures
            final(self)@ == old(self)@.insert(formal@, ty@),
    {
        let ghost before = self.entries@;
        self.entries.push((formal.to_owned(), ty));
        assert(self.entries@.drop_last() =~= before);
    }

    /// The type that a formal is bound to.
    pub fn get(&self, formal: &str) -> (ty: Option<&Ty>)
        ensures
            match ty {
                Some(found) => self@.contains_key(formal@) && self@[formal@] == found@,
                None => !self@.contains_key(formal@),
            },
    {
        let mut end: usize = self.entries.len();
        assert(self.entries@.take(end as int) =~= self.entries@);
        while end > 0
            invariant
                end <= self.entries@.len(),
                self@.contains_key(formal@) == entries_map(
                    self.entries@.take(end as int),
                ).contains_key(formal@),
                self@.contains_key(formal@) ==> self@[formal@] == entries_map(
                    self.entries@.take(end as int),
                )[formal@],
            decreases end,
        {
            assert(self.entries@.take(end as int).drop_last() =~= self.entries@.take(end as int - 1));
            let entry = &self.entries[end - 1];
            if same_text(entry.0.as_str(), formal) {
                return Some(&entry.1);
            }
            end -= 1;
        }
        None
    }

    /// Whether nothing is bound.
    pub fn is_empty(&self) -> (empty: bool)
        ensures
            empty == (self@ == Map::<Seq<char>, TyView>::empty()),
    {
        if self.entries.len() > 0 {
            proof {
                let last = self.entries@.last();
                assert(self@.contains_key(last.0@));
            }
        } else {
            assert(self@ =~= Map::<Seq<char>, TyView>::empty());
        }
        self.entries.len() == 0
    }

    /// Whether a formal is bound.
    pub fn contains(&self, formal: &str) -> (bound: bool)
        ensures
            bound == self@.contains_key(formal@),
    {
        self.get(formal).is_some()
    }

    /// Drop the binding of a formal.
    pub fn remove(&mut self, formal: &str)
        ensures
            final(self)@ == old(self)@.remove(formal@),
    {
        let ghost before = self.entries@;
        let mut kept: Vec<(String, Ty)> = Vec::new();
        let mut index: usize = 0;
        assert(entries_map(before.take(0)).remove(formal@) =~= Map::empty());
        while index < self.entries.len()
            invariant
                index <= self.entries@.len(),
                self.entries@ == before,
                entries_map(kept@) == entries_map(before.take(index as int)).remove(formal@),
            decreases self.entries@.len() - index,
        {
            let entry = &self.entries[index];
            assert(before.take(index as int + 1).drop_last() =~= before.take(index as int));
            if !same_text(entry.0.as_str(), formal) {
                let ghost held = kept@;
                kept.push((entry.0.clone(), entry.1.clone()));
                assert(kept@.drop_last() =~= held);
            }
            assert(entries_map(kept@) =~= entries_map(before.take(index as int + 1)).remove(formal@));
            index += 1;
        }
        assert(before.take(index as int) =~= before);
        self.entries = kept;
    }
}

impl Clone for Bindings {
    fn clone(&self) -> (copy: Self)
        ensures
            copy@ == self@,
    {
        let mut entries: Vec<(String, Ty)> = Vec::new();
        let mut index: usize = 0;
        while index < self.entries.len()
            invariant
                index <= self.entries@.len(),
                entries_map(entries@) == entries_map(self.entries@.take(index as int)),
            decreases self.entries@.len() - index,
        {
            let ghost held = entries@;
            entries.push((self.entries[index].0.clone(), self.entries[index].1.clone()));
            assert(entries@.drop_last() =~= held);
            assert(self.entries@.take(index as int + 1).drop_last() =~= self.entries@.take(
                index as int,
            ));
            index += 1;
        }
        assert(self.entries@.take(index as int) =~= self.entries@);
        Bindings { entries }
    }
}

impl TyView {
    /// The type with each bound formal replaced. A formal without a binding stays as it is.
    pub open spec fn subst(self, bindings: Map<Seq<char>, TyView>) -> TyView
        decreases self,
    {
        match self {
            TyView::TyParam(name, _) => if bindings.contains_key(name) {
                bindings[name]
            } else {
                self
            },
            TyView::Obj(name, arguments) => TyView::Obj(
                name,
                Seq::new(
                    arguments.len(),
                    |i: int|
                        if 0 <= i < arguments.len() {
                            arguments[i].subst(bindings)
                        } else {
                            TyView::Error
                        },
                ),
            ),
            TyView::Nullable(inner) => inner.subst(bindings).nullable(),
            TyView::PlatformNullable(inner) => TyView::PlatformNullable(
                Box::new(inner.subst(bindings)),
            ),
            TyView::InProjection(inner) => TyView::InProjection(
                Box::new(inner.subst(bindings)),
            ),
            TyView::OutProjection(inner) => TyView::OutProjection(
                Box::new(inner.subst(bindings)),
            ),
            TyView::StarProjection(inner) => TyView::StarProjection(
                Box::new(inner.subst(bindings)),
            ),
            TyView::Fun(sig) => TyView::Fun(
                Box::new(
                    FnSigView {
                        params: Seq::new(
                            sig.params.len(),
                            |i: int|
                                if 0 <= i < sig.params.len() {
                                    sig.params[i].subst(bindings)
                                } else {
                                    TyView::Error
                                },
                        ),
                        ret: sig.ret.subst(bindings),
                        ..*sig
                    },
                ),
            ),
            _ => self,
        }
    }
}

/// The types with each bound formal replaced.
pub open spec fn subst_all(types: Seq<TyView>, bindings: Map<Seq<char>, TyView>) -> Seq<TyView> {
    Seq::new(types.len(), |i: int| types[i].subst(bindings))
}

/// The type with each bound formal replaced. A formal without a binding stays as it is.
pub fn ty_subst_keep_unbound(ty: &Ty, bindings: &Bindings) -> (out: Ty)
    ensures
        out@ == ty@.subst(bindings@),
    decreases ty,
{
    match ty {
        Ty::TyParam(name, _) => match bindings.get(name.as_str()) {
            Some(bound) => bound.clone(),
            None => ty.clone(),
        },
        Ty::Obj(name, arguments) => {
            let out = Ty::Obj(name.clone(), substituted(arguments, bindings));
            assert(ty@->Obj_1 == views(arguments@));
            assert(out@->Obj_1 =~= ty@.subst(bindings@)->Obj_1);
            out
        },
        Ty::Nullable(inner) => Ty::nullable(ty_subst_keep_unbound(inner, bindings)),
        Ty::PlatformNullable(inner) => Ty::PlatformNullable(
            Box::new(ty_subst_keep_unbound(inner, bindings)),
        ),
        Ty::InProjection(inner) => Ty::InProjection(
            Box::new(ty_subst_keep_unbound(inner, bindings)),
        ),
        Ty::OutProjection(inner) => Ty::OutProjection(
            Box::new(ty_subst_keep_unbound(inner, bindings)),
        ),
        Ty::StarProjection(inner) => Ty::StarProjection(
            Box::new(ty_subst_keep_unbound(inner, bindings)),
        ),
        Ty::Fun(sig) => {
            let out = Ty::Fun(
                Box::new(
                    FnSig {
                        params: substituted(&sig.params, bindings),
                        ret: ty_subst_keep_unbound(&sig.ret, bindings),
                        context_count: sig.context_count,
                        has_receiver: sig.has_receiver,
                        suspend: sig.suspend,
                    },
                ),
            );
            assert(ty@->Fun_0.params == views(sig.params@));
            assert(out@->Fun_0.params =~= ty@.subst(bindings@)->Fun_0.params);
            out
        },
        _ => ty.clone(),
    }
}

fn substituted(types: &Vec<Ty>, bindings: &Bindings) -> (out: Vec<Ty>)
    ensures
        views(out@) == subst_all(views(types@), bindings@),
    decreases types,
{
    let mut out: Vec<Ty> = Vec::new();
    let mut index: usize = 0;
    while index < types.len()
        invariant
            index <= types@.len(),
            out@.len() == index,
            forall|k: int| 0 <= k < index ==> out@[k]@ == types@[k]@.subst(bindings@),
        decreases types@.len() - index,
    {
        out.push(ty_subst_keep_unbound(&types[index], bindings));
        index += 1;
    }
    assert(views(out@) =~= subst_all(views(types@), bindings@));
    out
}

/// The types with each bound formal replaced.
pub fn subst_types(types: &Vec<Ty>, bindings: &Bindings) -> (out: Vec<Ty>)
    ensures
        views(out@) == subst_all(views(types@), bindings@),
{
    substituted(types, bindings)
}

/// The bindings with those that make `formal` read as `actual`, found by walking the two types
/// side by side. The first binding of a formal stands.
pub open spec fn unified(
    formal: TyView,
    actual: TyView,
    bindings: Map<Seq<char>, TyView>,
) -> Map<Seq<char>, TyView>
    decreases formal, 1nat,
{
    match formal {
        TyView::TyParam(name, _) => if bindings.contains_key(name) {
            bindings
        } else {
            bindings.insert(name, actual)
        },
        TyView::Nullable(inner) | TyView::PlatformNullable(inner) => unified(
            *inner,
            actual.non_null(),
            bindings,
        ),
        TyView::InProjection(inner)
        | TyView::OutProjection(inner)
        | TyView::StarProjection(inner) => unified(
            *inner,
            match actual.projection_inner() {
                Some(argument) => argument,
                None => actual,
            },
            bindings,
        ),
        TyView::Obj(name, arguments) => match actual.non_null() {
            TyView::Obj(other, others) if name == other && arguments.len() == others.len() => {
                unified_all(arguments, others, bindings)
            },
            _ => bindings,
        },
        TyView::Fun(sig) => match actual.non_null() {
            TyView::Fun(other) if sig.params.len() == other.params.len() => unified(
                sig.ret,
                other.ret,
                unified_all(sig.params, other.params, bindings),
            ),
            _ => bindings,
        },
        _ => bindings,
    }
}

/// The bindings found in pairs of types, from the first pair to the last.
pub open spec fn unified_all(
    formals: Seq<TyView>,
    actuals: Seq<TyView>,
    bindings: Map<Seq<char>, TyView>,
) -> Map<Seq<char>, TyView>
    decreases formals, 0nat,
{
    if formals.len() == 0 || actuals.len() == 0 {
        bindings
    } else {
        unified(
            formals.last(),
            actuals.last(),
            unified_all(formals.drop_last(), actuals.drop_last(), bindings),
        )
    }
}

/// Add the bindings that make `formal` read as `actual`.
pub fn unify_inferred_ty(formal: &Ty, actual: &Ty, bindings: &mut Bindings)
    ensures
        final(bindings)@ == unified(formal@, actual@, old(bindings)@),
    decreases formal, 1nat,
{
    match formal {
        Ty::TyParam(name, _) => {
            if !bindings.contains(name.as_str()) {
                bindings.insert(name.as_str(), actual.clone());
            }
        },
        Ty::Nullable(inner) => {
            unify_inferred_ty(inner, actual.non_null(), bindings);
        },
        Ty::PlatformNullable(inner) => {
            unify_inferred_ty(inner, actual.non_null(), bindings);
        },
        Ty::InProjection(inner) => {
            unify_projection(inner, actual, bindings);
        },
        Ty::OutProjection(inner) => {
            unify_projection(inner, actual, bindings);
        },
        Ty::StarProjection(inner) => {
            unify_projection(inner, actual, bindings);
        },
        Ty::Obj(name, arguments) => {
            assert(formal@->Obj_1 == views(arguments@));
            if let Ty::Obj(other, others) = actual.non_null() {
                assert(actual@.non_null()->Obj_1 == views(others@));
                if name == other && arguments.len() == others.len() {
                    unify_pairs(arguments, others, bindings);
                }
            }
        },
        Ty::Fun(sig) => {
            assert(formal@->Fun_0.params == views(sig.params@));
            if let Ty::Fun(other) = actual.non_null() {
                assert(actual@.non_null()->Fun_0.params == views(other.params@));
                if sig.params.len() == other.params.len() {
                    unify_pairs(&sig.params, &other.params, bindings);
                    unify_inferred_ty(&sig.ret, &other.ret, bindings);
                }
            }
        },
        _ => {},
    }
}

fn unify_projection(inner: &Ty, actual: &Ty, bindings: &mut Bindings)
    ensures
        final(bindings)@ == unified(
            inner@,
            match actual@.projection_inner() {
                Some(argument) => argument,
                None => actual@,
            },
            old(bindings)@,
        ),
    decreases inner, 2nat,
{
    match actual.projection_inner() {
        Some(argument) => {
            unify_inferred_ty(inner, argument, bindings);
        },
        None => {
            unify_inferred_ty(inner, actual, bindings);
        },
    }
}

fn unify_pairs(formals: &Vec<Ty>, actuals: &Vec<Ty>, bindings: &mut Bindings)
    requires
        formals@.len() == actuals@.len(),
    ensures
        final(bindings)@ == unified_all(views(formals@), views(actuals@), old(bindings)@),
    decreases formals, 0nat,
{
    let ghost before = bindings@;
    let mut index: usize = 0;
    while index < formals.len()
        invariant
            index <= formals@.len(),
            formals@.len() == actuals@.len(),
            bindings@ == unified_all(
                views(formals@).take(index as int),
                views(actuals@).take(index as int),
                before,
            ),
        decreases formals@.len() - index,
    {
        proof {
            let f = views(formals@);
            let a = views(actuals@);
            assert(f.take(index as int + 1).drop_last() =~= f.take(index as int));
            assert(a.take(index as int + 1).drop_last() =~= a.take(index as int));
        }
        unify_inferred_ty(&formals[index], &actuals[index], bindings);
        index += 1;
    }
    assert(views(formals@).take(index as int) =~= views(formals@));
    assert(views(actuals@).take(index as int) =~= views(actuals@));
}

/// Inference only adds bindings: a formal that was bound keeps its type.
pub proof fn inference_keeps_earlier_bindings(
    formal: TyView,
    actual: TyView,
    bindings: Map<Seq<char>, TyView>,
    name: Seq<char>,
)
    requires
        bindings.contains_key(name),
    ensures
        unified(formal, actual, bindings).contains_key(name),
        unified(formal, actual, bindings)[name] == bindings[name],
    decreases formal, 1nat,
{
    match formal {
        TyView::Nullable(inner) | TyView::PlatformNullable(inner) => {
            inference_keeps_earlier_bindings(*inner, actual.non_null(), bindings, name);
        },
        TyView::InProjection(inner)
        | TyView::OutProjection(inner)
        | TyView::StarProjection(inner) => {
            let argument = match actual.projection_inner() {
                Some(argument) => argument,
                None => actual,
            };
            inference_keeps_earlier_bindings(*inner, argument, bindings, name);
        },
        TyView::Obj(_, arguments) => {
            lemma_pairs_keep_bindings(arguments, actual.non_null().type_args(), bindings, name);
        },
        TyView::Fun(sig) => {
            if let TyView::Fun(other) = actual.non_null() {
                lemma_pairs_keep_bindings(sig.params, other.params, bindings, name);
                inference_keeps_earlier_bindings(
                    sig.ret,
                    other.ret,
                    unified_all(sig.params, other.params, bindings),
                    name,
                );
            }
        },
        _ => {},
    }
}

proof fn lemma_pairs_keep_bindings(
    formals: Seq<TyView>,
    actuals: Seq<TyView>,
    bindings: Map<Seq<char>, TyView>,
    name: Seq<char>,
)
    requires
        bindings.contains_key(name),
    ensures
        unified_all(formals, actuals, bindings).contains_key(name),
        unified_all(formals, actuals, bindings)[name] == bindings[name],
    decreases formals, 0nat,
{
    if formals.len() > 0 && actuals.len() > 0 {
        lemma_pairs_keep_bindings(formals.drop_last(), actuals.drop_last(), bindings, name);
        inference_keeps_earlier_bindings(
            formals.last(),
            actuals.last(),
            unified_all(formals.drop_last(), actuals.drop_last(), bindings),
            name,
        );
    }
}

/// A type without type parameters is left alone by every substitution.
pub proof fn substitution_fixes_ground_types(ty: TyView, bindings: Map<Seq<char>, TyView>)
    requires
        !ty.mentions_ty_param(),
        well_nested(ty),
    ensures
        ty.subst(bindings) == ty,
    decreases ty,
{
    match ty {
        TyView::Obj(_, arguments) => {
            assert forall|i: int| 0 <= i < arguments.len() implies (#[trigger] arguments[i]).subst(
                bindings,
            ) == arguments[i] by {
                substitution_fixes_ground_types(arguments[i], bindings);
            }
            assert(ty.subst(bindings)->Obj_1 =~= arguments);
        },
        TyView::Nullable(inner)
        | TyView::PlatformNullable(inner)
        | TyView::InProjection(inner)
        | TyView::OutProjection(inner)
        | TyView::StarProjection(inner) => {
            substitution_fixes_ground_types(*inner, bindings);
        },
        TyView::Fun(sig) => {
            assert forall|i: int| 0 <= i < sig.params.len() implies (#[trigger] sig.params[i]).subst(
                bindings,
            ) == sig.params[i] by {
                substitution_fixes_ground_types(sig.params[i], bindings);
            }
            substitution_fixes_ground_types(sig.ret, bindings);
            assert(ty.subst(bindings)->Fun_0.params =~= sig.params);
        },
        _ => {},
    }
}

/// Whether nullability is spelled once: no nullable type stands directly inside another.
pub open spec fn well_nested(ty: TyView) -> bool
    decreases ty,
{
    match ty {
        TyView::Obj(_, arguments) => forall|i: int|
            0 <= i < arguments.len() ==> well_nested(#[trigger] arguments[i]),
        TyView::Nullable(inner) => !inner.admits_null() && well_nested(*inner),
        TyView::PlatformNullable(inner)
        | TyView::InProjection(inner)
        | TyView::OutProjection(inner)
        | TyView::StarProjection(inner) => well_nested(*inner),
        TyView::Fun(sig) => well_nested(sig.ret) && forall|i: int|
            0 <= i < sig.params.len() ==> well_nested(#[trigger] sig.params[i]),
        _ => true,
    }
}

} // verus!
