//! Generic result templates of checked calls.
//!
//! Inference from an expected type asks two things of a checked call: which generic result an
//! enclosing constraint may still solve, and whether the current result is still open. Both are
//! answered from the selection that the call retained.
//!
//! A call inside the declaration of its own callee sees the callee's formals as ordinary types,
//! while the call itself infers fresh variables for them. A template renames those formals to the
//! fresh variables of the call.

use std::collections::HashMap;

use vstd::prelude::*;

use crate::ast::ExprId;
use crate::libraries::{GenericReturnPolicy, GenericSig, GenericSigView};
use crate::model::{copy_all, copy_lists, deep_views, Modelled};
use crate::names::TypeName;
use crate::resolve::calls::ResolvedCall;
use crate::text::{holds_name, option_view, same_text, views};
use crate::types::{any_nullable, FnSig, FnSigView, Ty, TyView};

verus! {

broadcast use {crate::text::group_views, crate::types::group_ty_views};

/// Whether a type mentions one of the formals.
pub open spec fn mentions_any(ty: TyView, formals: Seq<Seq<char>>) -> bool {
    exists|i: int| 0 <= i < formals.len() && ty.mentions_param(#[trigger] formals[i])
}

/// Whether a type mentions one of the formals.
pub fn ty_mentions_param(ty: &Ty, formals: &Vec<String>) -> (found: bool)
    ensures
        found == mentions_any(ty@, views(formals@)),
{
    let mut next: usize = 0;
    while next < formals.len()
        invariant
            next <= formals@.len(),
            forall|k: int| 0 <= k < next ==> !ty@.mentions_param(#[trigger] views(formals@)[k]),
        decreases formals@.len() - next,
    {
        assert(views(formals@)[next as int] == formals@[next as int]@);
        if ty.mentions_param(formals[next].as_str()) {
            return true;
        }
        next += 1;
    }
    false
}

/// Whether a formal is recorded as lexically in scope at a call.
pub open spec fn fixed_at_call(
    recorded: Map<u32, Vec<String>>,
    call: ExprId,
    formal: Seq<char>,
) -> bool {
    recorded.contains_key(call.0) && views(recorded[call.0]@).contains(formal)
}

/// Record the type parameters that are lexically in scope at a call. A call without any has no
/// record.
pub fn record_call_site_lexical_formals(
    recorded: &mut HashMap<u32, Vec<String>>,
    call: ExprId,
    lexical: Vec<String>,
)
    ensures
        final(recorded)@ == if lexical@.len() == 0 {
            old(recorded)@.remove(call.0)
        } else {
            old(recorded)@.insert(call.0, lexical)
        },
        forall|formal: Seq<char>| #[trigger]
            fixed_at_call(final(recorded)@, call, formal) == views(lexical@).contains(formal),
{
    if lexical.len() == 0 {
        recorded.remove(&call.0);
    } else {
        recorded.insert(call.0, lexical);
    }
}

/// Whether a formal of a callee is lexically in scope at a call, and so names the fixed type of the
/// enclosing declaration there.
pub fn lexically_fixed_at_call(
    recorded: &HashMap<u32, Vec<String>>,
    call: ExprId,
    formal: &str,
) -> (fixed: bool)
    ensures
        fixed == fixed_at_call(recorded@, call, formal@),
{
    match recorded.get(&call.0) {
        Some(lexical) => holds_name(lexical, formal),
        None => false,
    }
}

/// A formal that is lexically in scope at a call of its own declaration, with the variable that
/// stands for it in that call.
#[derive(Debug)]
pub struct LexicalFormal {
    pub formal: String,
    pub fresh: String,
}

impl View for LexicalFormal {
    type V = (Seq<char>, Seq<char>);

    open spec fn view(&self) -> (Seq<char>, Seq<char>) {
        (self.formal@, self.fresh@)
    }
}

/// The variable that stands for a formal, where the formal is lexically in scope.
pub open spec fn fresh_for(lexical: Seq<(Seq<char>, Seq<char>)>, formal: Seq<char>) -> Option<
    Seq<char>,
>
    decreases lexical.len(),
{
    if lexical.len() == 0 {
        None
    } else if lexical[0].0 == formal {
        Some(lexical[0].1)
    } else {
        fresh_for(lexical.skip(1), formal)
    }
}

fn find_fresh<'a>(lexical: &'a Vec<LexicalFormal>, formal: &str) -> (found: Option<&'a String>)
    ensures
        fresh_for(views(lexical@), formal@) == match found {
            Some(fresh) => Some(fresh@),
            None => None,
        },
{
    let mut next: usize = 0;
    assert(views(lexical@).skip(0) =~= views(lexical@));
    while next < lexical.len()
        invariant
            next <= lexical@.len(),
            fresh_for(views(lexical@).skip(next as int), formal@) == fresh_for(
                views(lexical@),
                formal@,
            ),
        decreases lexical@.len() - next,
    {
        assert(views(lexical@).skip(next as int)[0] == lexical@[next as int]@);
        assert(views(lexical@).skip(next as int).skip(1) =~= views(lexical@).skip(next as int + 1));
        if same_text(lexical[next].formal.as_str(), formal) {
            return Some(&lexical[next].fresh);
        }
        next += 1;
    }
    None
}

/// What a type parameter is replaced by.
pub enum Rewrite<'a> {
    /// The variable that stands for it at a call.
    Fresh(&'a Vec<LexicalFormal>),
    /// Its declared bound.
    Fallback,
}

/// The model of a [`Rewrite`].
pub enum RewriteView {
    Fresh(Seq<(Seq<char>, Seq<char>)>),
    Fallback,
}

impl<'a> View for Rewrite<'a> {
    type V = RewriteView;

    open spec fn view(&self) -> RewriteView {
        match self {
            Rewrite::Fresh(lexical) => RewriteView::Fresh(views(lexical@)),
            Rewrite::Fallback => RewriteView::Fallback,
        }
    }
}

impl TyView {
    /// The type with its type parameters replaced.
    pub open spec fn rewritten(self, how: RewriteView) -> TyView
        decreases self,
    {
        match self {
            TyView::TyParam(name, bound) => match how {
                RewriteView::Fresh(lexical) => match fresh_for(lexical, name) {
                    Some(fresh) => TyView::TyParam(fresh, bound),
                    None => self,
                },
                RewriteView::Fallback => *bound,
            },
            TyView::Obj(name, arguments) => TyView::Obj(
                name,
                Seq::new(
                    arguments.len(),
                    |i: int|
                        if 0 <= i < arguments.len() {
                            arguments[i].rewritten(how)
                        } else {
                            TyView::Error
                        },
                ),
            ),
            TyView::Nullable(inner) => inner.rewritten(how).nullable(),
            TyView::PlatformNullable(inner) => TyView::PlatformNullable(
                Box::new(inner.rewritten(how)),
            ),
            TyView::InProjection(inner) => TyView::InProjection(Box::new(inner.rewritten(how))),
            TyView::OutProjection(inner) => TyView::OutProjection(Box::new(inner.rewritten(how))),
            TyView::StarProjection(inner) => TyView::StarProjection(
                Box::new(inner.rewritten(how)),
            ),
            TyView::Fun(sig) => TyView::Fun(
                Box::new(
                    FnSigView {
                        params: Seq::new(
                            sig.params.len(),
                            |i: int|
                                if 0 <= i < sig.params.len() {
                                    sig.params[i].rewritten(how)
                                } else {
                                    TyView::Error
                                },
                        ),
                        ret: sig.ret.rewritten(how),
                        ..*sig
                    },
                ),
            ),
            _ => self,
        }
    }
}

/// The types with their type parameters replaced.
pub open spec fn rewritten_all(types: Seq<TyView>, how: RewriteView) -> Seq<TyView> {
    Seq::new(types.len(), |i: int| types[i].rewritten(how))
}

/// The type with its type parameters replaced.
pub fn rewrite(ty: &Ty, how: &Rewrite<'_>) -> (out: Ty)
    ensures
        out@ == ty@.rewritten(how@),
    decreases ty,
{
    match ty {
        Ty::TyParam(name, bound) => match how {
            Rewrite::Fresh(lexical) => match find_fresh(lexical, name.as_str()) {
                Some(fresh) => Ty::TyParam(Box::new(fresh.clone()), Box::new((**bound).clone())),
                None => ty.clone(),
            },
            Rewrite::Fallback => (**bound).clone(),
        },
        Ty::Obj(name, arguments) => {
            let out = Ty::Obj(name.clone(), rewrite_all(arguments, how));
            assert(ty@->Obj_1 == views(arguments@));
            assert(out@->Obj_1 =~= ty@.rewritten(how@)->Obj_1);
            out
        },
        Ty::Nullable(inner) => Ty::nullable(rewrite(inner, how)),
        Ty::PlatformNullable(inner) => Ty::PlatformNullable(Box::new(rewrite(inner, how))),
        Ty::InProjection(inner) => Ty::InProjection(Box::new(rewrite(inner, how))),
        Ty::OutProjection(inner) => Ty::OutProjection(Box::new(rewrite(inner, how))),
        Ty::StarProjection(inner) => Ty::StarProjection(Box::new(rewrite(inner, how))),
        Ty::Fun(sig) => {
            let out = Ty::Fun(
                Box::new(
                    FnSig {
                        params: rewrite_all(&sig.params, how),
                        ret: rewrite(&sig.ret, how),
                        context_count: sig.context_count,
                        has_receiver: sig.has_receiver,
                        suspend: sig.suspend,
                    },
                ),
            );
            assert(ty@->Fun_0.params == views(sig.params@));
            assert(out@->Fun_0.params =~= ty@.rewritten(how@)->Fun_0.params);
            out
        },
        _ => ty.clone(),
    }
}

fn rewrite_all(types: &Vec<Ty>, how: &Rewrite<'_>) -> (out: Vec<Ty>)
    ensures
        views(out@) == rewritten_all(views(types@), how@),
    decreases types,
{
    let mut out: Vec<Ty> = Vec::new();
    let mut index: usize = 0;
    while index < types.len()
        invariant
            index <= types@.len(),
            out@.len() == index,
            forall|k: int| 0 <= k < index ==> out@[k]@ == types@[k]@.rewritten(how@),
        decreases types@.len() - index,
    {
        out.push(rewrite(&types[index], how));
        index += 1;
    }
    assert(views(out@) =~= rewritten_all(views(types@), how@));
    out
}

/// The formals as one call names them.
pub open spec fn call_site_formals(
    formals: Seq<Seq<char>>,
    lexical: Seq<(Seq<char>, Seq<char>)>,
) -> Seq<Seq<char>> {
    Seq::new(
        formals.len(),
        |i: int|
            match fresh_for(lexical, formals[i]) {
                Some(fresh) => fresh,
                None => formals[i],
            },
    )
}

/// A signature as the template of one call: the formals that are lexically in scope are renamed to
/// the variables of the call.
pub open spec fn call_site_template(
    signature: GenericSigView,
    lexical: Seq<(Seq<char>, Seq<char>)>,
) -> GenericSigView {
    let how = RewriteView::Fresh(lexical);
    GenericSigView {
        formals: call_site_formals(signature.formals, lexical),
        formal_bounds: Seq::new(
            signature.formal_bounds.len(),
            |i: int| rewritten_all(signature.formal_bounds[i], how),
        ),
        receiver: match signature.receiver {
            Some(receiver) => Some(receiver.rewritten(how)),
            None => None,
        },
        params: rewritten_all(signature.params, how),
        ret: signature.ret.rewritten(how),
        return_policy: signature.return_policy,
    }
}

fn rename_formals(formals: &Vec<String>, lexical: &Vec<LexicalFormal>) -> (out: Vec<String>)
    ensures
        views(out@) == call_site_formals(views(formals@), views(lexical@)),
{
    let mut out: Vec<String> = Vec::new();
    while out.len() < formals.len()
        invariant
            out@.len() <= formals@.len(),
            forall|k: int|
                0 <= k < out@.len() ==> (#[trigger] out@[k])@ == call_site_formals(
                    views(formals@),
                    views(lexical@),
                )[k],
        decreases formals@.len() - out@.len(),
    {
        let formal = &formals[out.len()];
        match find_fresh(lexical, formal.as_str()) {
            Some(fresh) => out.push(fresh.clone()),
            None => out.push(formal.clone()),
        }
    }
    assert(views(out@) =~= call_site_formals(views(formals@), views(lexical@)));
    out
}

/// A signature as the template of one call: the formals that are lexically in scope are renamed to
/// the variables of the call.
pub fn call_site_signature(signature: &GenericSig, lexical: &Vec<LexicalFormal>) -> (template:
    GenericSig)
    ensures
        template@ == call_site_template(signature@, views(lexical@)),
{
    let how = Rewrite::Fresh(lexical);
    let mut formal_bounds: Vec<Vec<Ty>> = Vec::new();
    while formal_bounds.len() < signature.formal_bounds.len()
        invariant
            formal_bounds@.len() <= signature.formal_bounds@.len(),
            forall|k: int|
                0 <= k < formal_bounds@.len() ==> views((#[trigger] formal_bounds@[k])@)
                    == rewritten_all(views(signature.formal_bounds@[k]@), how@),
        decreases signature.formal_bounds@.len() - formal_bounds@.len(),
    {
        let bounds = rewrite_all(&signature.formal_bounds[formal_bounds.len()], &how);
        formal_bounds.push(bounds);
    }
    let template = GenericSig {
        formals: rename_formals(&signature.formals, lexical),
        formal_bounds,
        receiver: match &signature.receiver {
            Some(receiver) => Some(rewrite(receiver, &how)),
            None => None,
        },
        params: rewrite_all(&signature.params, &how),
        ret: rewrite(&signature.ret, &how),
        return_policy: signature.return_policy,
    };
    assert(template@.formal_bounds =~= call_site_template(
        signature@,
        views(lexical@),
    ).formal_bounds);
    template
}

impl ResolvedCall {
    /// The generic signature that the selected callable retains. A member extension retains none.
    pub open spec fn signature(self) -> Option<GenericSigView> {
        match self {
            ResolvedCall::Member(callable) => option_view(callable.generic_sig),
            ResolvedCall::Companion(callable) => option_view(callable.generic_sig),
            ResolvedCall::TopLevel { callable, .. } => option_view(callable.generic_sig),
            ResolvedCall::Extension { callable, .. } => option_view(callable.generic_sig),
            ResolvedCall::LocalFunction(call) => option_view(call.generic_sig),
            ResolvedCall::MemberExtension { .. } => None,
        }
    }

    /// The generic signature that the selected callable retains. A member extension retains none.
    pub fn selected_generic_call_signature(&self) -> (signature: Option<&GenericSig>)
        ensures
            self.signature() == match signature {
                Some(found) => Some(found@),
                None => None,
            },
    {
        match self {
            ResolvedCall::Member(callable) => callable.generic_sig.as_ref(),
            ResolvedCall::Companion(callable) => callable.generic_sig.as_ref(),
            ResolvedCall::TopLevel { callable, .. } => callable.generic_sig.as_ref(),
            ResolvedCall::Extension { callable, .. } => callable.generic_sig.as_ref(),
            ResolvedCall::LocalFunction(call) => call.generic_sig.as_ref(),
            ResolvedCall::MemberExtension { .. } => None,
        }
    }
}

/// The formals of a constructed classifier.
#[derive(Debug)]
pub struct ClassifierFormals {
    pub names: Vec<String>,
    pub bounds: Vec<Vec<Ty>>,
}

/// The arguments of a constructor call against the parameters of the selected constructor.
#[derive(Debug)]
#[allow(inconsistent_fields)]
pub enum ConstructorArguments {
    /// A source constructor, with the parameter of each argument.
    Source { params: Vec<Ty>, argument_slots: Vec<usize> },
    /// A library constructor whose arguments stand in order, with its generic parameters.
    InOrder { params: Option<Vec<Ty>>, arguments: usize },
    /// A library constructor, with whether each parameter has an argument.
    Slots { params: Option<Vec<Ty>>, filled: Vec<bool> },
}

/// A call that was resolved to a constructor.
#[derive(Debug)]
pub struct ConstructorCall {
    pub owner: TypeName,
    /// The formals of the classifier, where the classifier is known.
    pub formals: Option<ClassifierFormals>,
    pub arguments: ConstructorArguments,
}

/// What is known of a checked call.
#[derive(Debug)]
pub struct CheckedCall {
    /// Whether the source writes type arguments.
    pub explicit_type_args: bool,
    /// The formals that are lexically in scope at the call.
    pub lexical: Vec<LexicalFormal>,
    /// The signature of a constructor that is called through an alias with open formals.
    pub contextual: Option<GenericSig>,
    pub resolved: Option<ResolvedCall>,
    pub constructor: Option<ConstructorCall>,
    /// The current result.
    pub actual: Ty,
    /// The type arguments that were solved.
    pub type_arguments: Option<Vec<Option<Ty>>>,
}

/// The type arguments of a classifier applied to its own formals.
pub open spec fn own_arguments(names: Seq<Seq<char>>, bounds: Seq<Seq<TyView>>) -> Seq<TyView> {
    Seq::new(
        names.len(),
        |i: int|
            TyView::TyParam(
                names[i],
                Box::new(
                    if i < bounds.len() && bounds[i].len() > 0 {
                        bounds[i][0]
                    } else {
                        any_nullable()
                    },
                ),
            ),
    )
}

/// The signature that a constructor call of `owner` instantiates: the classifier applied to its own
/// formals.
pub open spec fn constructor_template(owner: Seq<char>, formals: ClassifierFormals) -> GenericSigView {
    GenericSigView {
        formals: views(formals.names@),
        formal_bounds: deep_views(formals.bounds@),
        receiver: None,
        params: seq![],
        ret: TyView::Obj(owner, own_arguments(views(formals.names@), deep_views(formals.bounds@))),
        return_policy: GenericReturnPolicy::Exact,
    }
}

fn instantiate_constructor(owner: &TypeName, formals: &ClassifierFormals) -> (template: GenericSig)
    ensures
        template@ == constructor_template(owner@, *formals),
{
    let mut arguments: Vec<Ty> = Vec::new();
    while arguments.len() < formals.names.len()
        invariant
            arguments@.len() <= formals.names@.len(),
            forall|k: int|
                0 <= k < arguments@.len() ==> (#[trigger] arguments@[k])@ == own_arguments(
                    views(formals.names@),
                    deep_views(formals.bounds@),
                )[k],
        decreases formals.names@.len() - arguments@.len(),
    {
        let index: usize = arguments.len();
        let bound = if index < formals.bounds.len() && formals.bounds[index].len() > 0 {
            formals.bounds[index][0].clone()
        } else {
            Ty::nullable(Ty::obj("kotlin/Any"))
        };
        arguments.push(Ty::ty_param(formals.names[index].as_str(), bound));
    }
    let template = GenericSig {
        formals: copy_all(&formals.names),
        formal_bounds: copy_lists(&formals.bounds),
        receiver: None,
        params: Vec::new(),
        ret: Ty::Obj(owner.clone(), arguments),
        return_policy: GenericReturnPolicy::Exact,
    };
    assert(template@.ret->Obj_1 =~= own_arguments(
        views(formals.names@),
        deep_views(formals.bounds@),
    ));
    template
}

impl CheckedCall {
    /// The signature that the selected callable retains.
    pub open spec fn selected(self) -> Option<GenericSigView> {
        match self.resolved {
            Some(call) => call.signature(),
            None => None,
        }
    }

    /// The generic result that an enclosing constraint may solve.
    pub open spec fn template(self) -> Option<GenericSigView> {
        if self.explicit_type_args {
            None
        } else if self.contextual is Some {
            option_view(self.contextual)
        } else {
            match self.selected() {
                Some(signature) => if mentions_any(signature.ret, signature.formals) {
                    Some(call_site_template(signature, views(self.lexical@)))
                } else {
                    None
                },
                None => match self.constructor {
                    Some(constructor) => match constructor.formals {
                        Some(formals) => if formals.names@.len() > 0 {
                            Some(
                                call_site_template(
                                    constructor_template(constructor.owner@, formals),
                                    views(self.lexical@),
                                ),
                            )
                        } else {
                            None
                        },
                        None => None,
                    },
                    None => None,
                },
            }
        }
    }

    /// The generic result that an enclosing constraint may solve. A call whose arguments gave a
    /// concrete result is still contextual: an enclosing result may ask for another one.
    pub fn expected_type_callable_signature(&self) -> (template: Option<GenericSig>)
        ensures
            option_view(template) == self.template(),
    {
        if self.explicit_type_args {
            return None;
        }
        if let Some(signature) = &self.contextual {
            return Some(signature.duplicate());
        }
        if let Some(call) = &self.resolved {
            if let Some(signature) = call.selected_generic_call_signature() {
                return if ty_mentions_param(&signature.ret, &signature.formals) {
                    Some(call_site_signature(signature, &self.lexical))
                } else {
                    None
                };
            }
        }
        match &self.constructor {
            Some(constructor) => match &constructor.formals {
                Some(formals) => if formals.names.len() > 0 {
                    Some(
                        call_site_signature(
                            &instantiate_constructor(&constructor.owner, formals),
                            &self.lexical,
                        ),
                    )
                } else {
                    None
                },
                None => None,
            },
            None => None,
        }
    }
}

/// The formals that are not lexically in scope at a call.
pub open spec fn open_formals(
    formals: Seq<Seq<char>>,
    lexical: Seq<(Seq<char>, Seq<char>)>,
) -> Seq<Seq<char>>
    decreases formals.len(),
{
    if formals.len() == 0 {
        seq![]
    } else {
        let rest = open_formals(formals.drop_last(), lexical);
        if fresh_for(lexical, formals.last()) is None {
            rest.push(formals.last())
        } else {
            rest
        }
    }
}

fn still_open(formals: &Vec<String>, lexical: &Vec<LexicalFormal>) -> (out: Vec<String>)
    ensures
        views(out@) == open_formals(views(formals@), views(lexical@)),
{
    let mut out: Vec<String> = Vec::new();
    let mut next: usize = 0;
    assert(views(formals@).take(0) =~= seq![]);
    while next < formals.len()
        invariant
            next <= formals@.len(),
            views(out@) == open_formals(views(formals@).take(next as int), views(lexical@)),
        decreases formals@.len() - next,
    {
        let ghost grown = views(formals@).take(next as int + 1);
        assert(grown.drop_last() =~= views(formals@).take(next as int));
        assert(grown.last() == formals@[next as int]@);
        if find_fresh(lexical, formals[next].as_str()).is_none() {
            out.push(formals[next].clone());
        }
        next += 1;
    }
    assert(views(formals@).take(next as int) =~= views(formals@));
    out
}

/// Whether each formal that the result mentions was solved.
pub open spec fn settled(signature: GenericSigView, solved: Seq<Option<TyView>>) -> bool {
    forall|i: int|
        #![trigger signature.formals[i]]
        0 <= i < signature.formals.len() && signature.ret.mentions_param(signature.formals[i])
            ==> i < solved.len() && solved[i] is Some
}

/// The model of a list of solved type arguments.
pub open spec fn solved_views(solved: Seq<Option<Ty>>) -> Seq<Option<TyView>> {
    Seq::new(solved.len(), |i: int| option_view(solved[i]))
}

fn is_settled(signature: &GenericSig, solved: &Vec<Option<Ty>>) -> (yes: bool)
    ensures
        yes == settled(signature@, solved_views(solved@)),
{
    let mut next: usize = 0;
    while next < signature.formals.len()
        invariant
            next <= signature.formals@.len(),
            forall|i: int|
                #![trigger signature@.formals[i]]
                0 <= i < next && signature@.ret.mentions_param(signature@.formals[i]) ==> i
                    < solved@.len() && solved_views(solved@)[i] is Some,
        decreases signature.formals@.len() - next,
    {
        assert(signature@.formals[next as int] == signature.formals@[next as int]@);
        if signature.ret.mentions_param(signature.formals[next].as_str()) && (next >= solved.len()
            || solved[next].is_none()) {
            return false;
        }
        next += 1;
    }
    true
}

impl CheckedCall {
    /// Whether the current result still holds formals of the callee, or is only its fallback.
    pub open spec fn is_unbound(self, signature: GenericSigView) -> bool {
        let open = open_formals(signature.formals, views(self.lexical@));
        let live = mentions_any(self.actual@, open);
        let finished = match self.type_arguments {
            Some(solved) => settled(signature, solved_views(solved@)),
            None => false,
        };
        &&& !self.explicit_type_args
        &&& mentions_any(signature.ret, signature.formals)
        &&& live || !finished && (self.actual@ is Error || self.actual@ == signature.ret.rewritten(
            RewriteView::Fallback,
        ))
    }

    /// The signature of the selected callable where the result is still open.
    pub open spec fn unbound(self) -> Option<GenericSigView> {
        match self.selected() {
            Some(signature) => if self.is_unbound(signature) {
                Some(signature)
            } else {
                None
            },
            None => None,
        }
    }

    /// The signature of the selected callable where the result is still open. Solved type arguments
    /// do not close a result that again holds formals of the callee.
    pub fn unbound_call_result_signature(&self) -> (signature: Option<&GenericSig>)
        ensures
            self.unbound() == match signature {
                Some(found) => Some(found@),
                None => None,
            },
    {
        if self.explicit_type_args {
            return None;
        }
        let signature = match &self.resolved {
            Some(call) => match call.selected_generic_call_signature() {
                Some(signature) => signature,
                None => {
                    return None;
                },
            },
            None => {
                return None;
            },
        };
        if !ty_mentions_param(&signature.ret, &signature.formals) {
            return None;
        }
        let open = still_open(&signature.formals, &self.lexical);
        let live = ty_mentions_param(&self.actual, &open);
        let finished = match &self.type_arguments {
            Some(solved) => is_settled(signature, solved),
            None => false,
        };
        if live || !finished && (matches!(self.actual, Ty::Error) || self.actual == rewrite(
            &signature.ret,
            &Rewrite::Fallback,
        )) {
            Some(signature)
        } else {
            None
        }
    }
}

/// Whether a parameter mentions one of the formals of the result.
pub open spec fn shape_mentions(shape: TyView, formals: Seq<Seq<char>>, declared: Seq<Seq<char>>) -> bool {
    mentions_any(shape, formals) || mentions_any(shape, declared)
}

impl ConstructorArguments {
    /// Whether an argument of the call is given for a parameter that mentions one of the formals.
    pub open spec fn evident(self, formals: Seq<Seq<char>>, declared: Seq<Seq<char>>) -> bool {
        match self {
            ConstructorArguments::Source { params, argument_slots } => exists|k: int|
                0 <= k < argument_slots@.len() && (#[trigger] argument_slots@[k]) < params@.len()
                    && shape_mentions(params@[argument_slots@[k] as int]@, formals, declared),
            ConstructorArguments::InOrder { params: Some(params), arguments } => exists|k: int|
                0 <= k < params@.len() && k < arguments && shape_mentions(
                    (#[trigger] params@[k])@,
                    formals,
                    declared,
                ),
            ConstructorArguments::Slots { params: Some(params), filled } => exists|k: int|
                0 <= k < filled@.len() && k < params@.len() && (#[trigger] filled@[k])
                    && shape_mentions(params@[k]@, formals, declared),
            _ => false,
        }
    }

    /// Whether an argument of the call is given for a parameter that mentions one of the formals.
    #[verifier::loop_isolation(false)]
    pub fn has_input_evidence(&self, formals: &Vec<String>, declared: &Vec<String>) -> (yes: bool)
        ensures
            yes == self.evident(views(formals@), views(declared@)),
    {
        match self {
            ConstructorArguments::Source { params, argument_slots } => {
                let mut next: usize = 0;
                while next < argument_slots.len()
                    invariant
                        next <= argument_slots@.len(),
                        forall|k: int|
                            0 <= k < next ==> !((#[trigger] argument_slots@[k]) < params@.len()
                                && shape_mentions(
                                params@[argument_slots@[k] as int]@,
                                views(formals@),
                                views(declared@),
                            )),
                    decreases argument_slots@.len() - next,
                {
                    let slot: usize = argument_slots[next];
                    if slot < params.len() && (ty_mentions_param(&params[slot], formals)
                        || ty_mentions_param(&params[slot], declared)) {
                        return true;
                    }
                    next += 1;
                }
                false
            },
            ConstructorArguments::InOrder { params: Some(params), arguments } => {
                let mut next: usize = 0;
                while next < params.len() && next < *arguments
                    invariant
                        next <= params@.len(),
                        next <= *arguments,
                        forall|k: int|
                            0 <= k < next ==> !shape_mentions(
                                (#[trigger] params@[k])@,
                                views(formals@),
                                views(declared@),
                            ),
                    decreases params@.len() - next,
                {
                    if ty_mentions_param(&params[next], formals) || ty_mentions_param(
                        &params[next],
                        declared,
                    ) {
                        return true;
                    }
                    next += 1;
                }
                false
            },
            ConstructorArguments::Slots { params: Some(params), filled } => {
                let mut next: usize = 0;
                while next < params.len() && next < filled.len()
                    invariant
                        next <= params@.len(),
                        next <= filled@.len(),
                        forall|k: int|
                            0 <= k < next ==> !((#[trigger] filled@[k]) && shape_mentions(
                                params@[k]@,
                                views(formals@),
                                views(declared@),
                            )),
                    decreases params@.len() - next,
                {
                    if filled[next] && (ty_mentions_param(&params[next], formals)
                        || ty_mentions_param(&params[next], declared)) {
                        return true;
                    }
                    next += 1;
                }
                false
            },
            _ => false,
        }
    }
}

/// Whether an argument of a classifier type mentions one of the formals.
pub open spec fn some_mentions(types: Seq<TyView>, formals: Seq<Seq<char>>) -> bool {
    exists|i: int| 0 <= i < types.len() && mentions_any(#[trigger] types[i], formals)
}

/// Whether `actual` is what `symbolic` falls back to where none of its formals is inferred: each
/// formal is its bound, or the flexible form of it.
pub open spec fn is_fallback(symbolic: TyView, actual: TyView, formals: Seq<Seq<char>>) -> bool
    decreases symbolic, 1nat,
{
    match (symbolic, actual) {
        (TyView::TyParam(formal, bound), _) if formals.contains(formal) => actual == *bound || (
        actual is PlatformNullable && (*actual->PlatformNullable_0).nullable() == *bound),
        (TyView::Obj(declared, left), TyView::Obj(found, right)) => declared == found && (
        right.len() == 0 && some_mentions(left, formals) || all_fallback(left, right, formals)),
        (TyView::Nullable(left), TyView::Nullable(right)) => is_fallback(*left, *right, formals),
        (TyView::PlatformNullable(left), TyView::PlatformNullable(right)) => is_fallback(
            *left,
            *right,
            formals,
        ),
        (TyView::InProjection(left), TyView::InProjection(right)) => is_fallback(
            *left,
            *right,
            formals,
        ),
        (TyView::OutProjection(left), TyView::OutProjection(right)) => is_fallback(
            *left,
            *right,
            formals,
        ),
        (TyView::StarProjection(left), TyView::StarProjection(right)) => is_fallback(
            *left,
            *right,
            formals,
        ),
        _ => symbolic == actual,
    }
}

/// Whether each type is what the one in its place falls back to.
pub open spec fn all_fallback(
    symbolic: Seq<TyView>,
    actual: Seq<TyView>,
    formals: Seq<Seq<char>>,
) -> bool
    decreases symbolic, 0nat,
{
    symbolic.len() == actual.len() && forall|i: int|
        0 <= i < symbolic.len() ==> is_fallback(#[trigger] symbolic[i], actual[i], formals)
}

fn any_argument_mentions(types: &Vec<Ty>, formals: &Vec<String>) -> (found: bool)
    ensures
        found == some_mentions(views(types@), views(formals@)),
{
    let mut next: usize = 0;
    while next < types.len()
        invariant
            next <= types@.len(),
            forall|k: int|
                0 <= k < next ==> !mentions_any(#[trigger] views(types@)[k], views(formals@)),
        decreases types@.len() - next,
    {
        assert(views(types@)[next as int] == types@[next as int]@);
        if ty_mentions_param(&types[next], formals) {
            return true;
        }
        next += 1;
    }
    false
}

/// Whether `actual` is what `symbolic` falls back to where none of its formals is inferred.
pub fn is_declaration_fallback(symbolic: &Ty, actual: &Ty, formals: &Vec<String>) -> (yes: bool)
    ensures
        yes == is_fallback(symbolic@, actual@, views(formals@)),
    decreases symbolic,
{
    match (symbolic, actual) {
        (Ty::TyParam(formal, bound), _) if holds_name(formals, formal.as_str()) => {
            if *actual == **bound {
                return true;
            }
            match actual {
                Ty::PlatformNullable(inner) => Ty::nullable((**inner).clone()) == **bound,
                _ => false,
            }
        },
        (Ty::Obj(declared, left), Ty::Obj(found, right)) => {
            assert(symbolic@->Obj_1 == views(left@));
            assert(actual@->Obj_1 == views(right@));
            *declared == *found && (right.len() == 0 && any_argument_mentions(left, formals)
                || arguments_fall_back(left, right, formals))
        },
        (Ty::Nullable(left), Ty::Nullable(right)) => is_declaration_fallback(left, right, formals),
        (
            Ty::PlatformNullable(left),
            Ty::PlatformNullable(right),
        ) => is_declaration_fallback(left, right, formals),
        (Ty::InProjection(left), Ty::InProjection(right)) => is_declaration_fallback(
            left,
            right,
            formals,
        ),
        (Ty::OutProjection(left), Ty::OutProjection(right)) => is_declaration_fallback(
            left,
            right,
            formals,
        ),
        (Ty::StarProjection(left), Ty::StarProjection(right)) => is_declaration_fallback(
            left,
            right,
            formals,
        ),
        _ => *symbolic == *actual,
    }
}

fn arguments_fall_back(symbolic: &Vec<Ty>, actual: &Vec<Ty>, formals: &Vec<String>) -> (yes: bool)
    ensures
        yes == all_fallback(views(symbolic@), views(actual@), views(formals@)),
    decreases symbolic,
{
    if symbolic.len() != actual.len() {
        return false;
    }
    let mut next: usize = 0;
    while next < symbolic.len()
        invariant
            next <= symbolic@.len(),
            symbolic@.len() == actual@.len(),
            forall|k: int|
                0 <= k < next ==> is_fallback(
                    #[trigger] views(symbolic@)[k],
                    views(actual@)[k],
                    views(formals@),
                ),
        decreases symbolic@.len() - next,
    {
        assert(views(symbolic@)[next as int] == symbolic@[next as int]@);
        assert(views(actual@)[next as int] == actual@[next as int]@);
        if !is_declaration_fallback(&symbolic[next], &actual[next], formals) {
            return false;
        }
        next += 1;
    }
    true
}

impl CheckedCall {
    /// The formals that the constructed classifier declares.
    pub open spec fn declared_formals(self) -> Seq<Seq<char>> {
        match self.constructor {
            Some(constructor) => match constructor.formals {
                Some(formals) => views(formals.names@),
                None => seq![],
            },
            None => seq![],
        }
    }

    /// The template of a producer whose result says no more than its declaration does.
    pub open spec fn open_template(self) -> Option<GenericSigView> {
        match self.unbound() {
            Some(signature) => Some(signature),
            None => match (self.constructor, self.template()) {
                (Some(constructor), Some(signature)) => if self.actual@ is Error || mentions_any(
                    self.actual@,
                    signature.formals,
                ) || (!constructor.arguments.evident(signature.formals, self.declared_formals())
                    && is_fallback(signature.ret, self.actual@, signature.formals)) {
                    Some(signature)
                } else {
                    None
                },
                _ => None,
            },
        }
    }

    /// The template of a producer whose result says no more than its declaration does, so that an
    /// enclosing constraint may still complete it. A constructor keeps its result where one of its
    /// arguments speaks of the formals.
    pub fn unbound_contextual_result_signature(&self) -> (template: Option<GenericSig>)
        ensures
            option_view(template) == self.open_template(),
    {
        if let Some(signature) = self.unbound_call_result_signature() {
            return Some(signature.duplicate());
        }
        let constructor = match &self.constructor {
            Some(constructor) => constructor,
            None => {
                return None;
            },
        };
        let signature = match self.expected_type_callable_signature() {
            Some(signature) => signature,
            None => {
                return None;
            },
        };
        if matches!(self.actual, Ty::Error) || ty_mentions_param(&self.actual, &signature.formals) {
            return Some(signature);
        }
        let undeclared: Vec<String> = Vec::new();
        let declared: &Vec<String> = match &constructor.formals {
            Some(formals) => &formals.names,
            None => &undeclared,
        };
        assert(views(declared@) =~= self.declared_formals());
        if !constructor.arguments.has_input_evidence(&signature.formals, declared)
            && is_declaration_fallback(&signature.ret, &self.actual, &signature.formals) {
            Some(signature)
        } else {
            None
        }
    }
}

/// A call with written type arguments leaves nothing for an enclosing constraint to solve.
pub proof fn written_type_arguments_close_a_call(call: CheckedCall)
    requires
        call.explicit_type_args,
    ensures
        call.template() is None,
        call.unbound() is None,
        call.open_template() is None,
{
}

/// Where no formal of the callee is lexically in scope, a call is its own template.
pub proof fn a_template_outside_its_declaration_is_the_signature(signature: GenericSigView)
    ensures
        call_site_formals(signature.formals, seq![]) == signature.formals,
        open_formals(signature.formals, seq![]) == signature.formals,
    decreases signature.formals.len(),
{
    assert(call_site_formals(signature.formals, seq![]) =~= signature.formals);
    lemma_all_open(signature.formals);
}

proof fn lemma_all_open(formals: Seq<Seq<char>>)
    ensures
        open_formals(formals, seq![]) == formals,
    decreases formals.len(),
{
    if formals.len() > 0 {
        lemma_all_open(formals.drop_last());
        assert(formals.drop_last().push(formals.last()) =~= formals);
    } else {
        assert(formals =~= seq![]);
    }
}

/// A constructor call that was given no argument for a formal, and whose result is only what the
/// classifier falls back to, stays open for an enclosing constraint.
pub proof fn a_fallback_without_evidence_stays_open(call: CheckedCall)
    requires
        call.unbound() is None,
        call.constructor is Some,
        call.template() is Some,
        !call.constructor->0.arguments.evident(
            call.template()->0.formals,
            call.declared_formals(),
        ),
        is_fallback(call.template()->0.ret, call.actual@, call.template()->0.formals),
    ensures
        call.open_template() == call.template(),
{
}

} // verus!
