//! What holds of the types that a declaration is shown with somewhere else.

use vstd::prelude::*;

use crate::resolve::call_result_templates::{call_site_formals, fresh_for, RewriteView};
use crate::resolve::finalized_projection::{
    formal_spelled, functional, nominal, own_formal, relative_type,
};
use crate::resolve::source_table::parameter_source;
use crate::types::{MentionView, TyView};

verus! {

/// The name that a type parameter has at a call: its variable where it is lexically in scope.
pub open spec fn name_at_call(lexical: Seq<(Seq<char>, Seq<char>)>, name: Seq<char>) -> Seq<char> {
    match fresh_for(lexical, name) {
        Some(fresh) => fresh,
        None => name,
    }
}

/// A template mentions the type parameters that its signature mentions, each under the name that it
/// has at the call, and no others.
pub proof fn a_template_renames_what_it_mentions(
    ty: TyView,
    lexical: Seq<(Seq<char>, Seq<char>)>,
    name: Seq<char>,
)
    ensures
        ty.rewritten(RewriteView::Fresh(lexical)).mentions_param(name) <==> exists|source: Seq<char>| #[trigger]
            ty.mentions_param(source) && name_at_call(lexical, source) == name,
    decreases ty,
{
    let out = ty.rewritten(RewriteView::Fresh(lexical));
    match ty {
        TyView::TyParam(own, _) => {
            assert(ty.mentions_param(own));
        },
        TyView::Obj(_, arguments) => {
            assert forall|i: int| 0 <= i < arguments.len() implies (
            #[trigger] out->Obj_1[i]).mentions_param(name) == (exists|source: Seq<char>| #[trigger]
            arguments[i].mentions_param(source) && name_at_call(lexical, source) == name) by {
                a_template_renames_what_it_mentions(arguments[i], lexical, name);
            }
            if out.mentions_param(name) {
                let i = choose|i: int|
                    0 <= i < out->Obj_1.len() && (#[trigger] out->Obj_1[i]).mentions(
                        MentionView::Param(name),
                    );
                assert(out->Obj_1[i].mentions_param(name));
                let source = choose|source: Seq<char>| #[trigger]
                    arguments[i].mentions_param(source) && name_at_call(lexical, source) == name;
                assert(ty.mentions_param(source));
            }
            if exists|source: Seq<char>| #[trigger]
            ty.mentions_param(source) && name_at_call(lexical, source) == name {
                let source = choose|source: Seq<char>| #[trigger]
                    ty.mentions_param(source) && name_at_call(lexical, source) == name;
                let i = choose|i: int|
                    0 <= i < arguments.len() && (#[trigger] arguments[i]).mentions(
                        MentionView::Param(source),
                    );
                assert(arguments[i].mentions_param(source));
                assert(out->Obj_1[i].mentions_param(name));
            }
        },
        TyView::Nullable(inner)
        | TyView::PlatformNullable(inner)
        | TyView::InProjection(inner)
        | TyView::OutProjection(inner)
        | TyView::StarProjection(inner) => {
            a_template_renames_what_it_mentions(*inner, lexical, name);
            let inside = inner.rewritten(RewriteView::Fresh(lexical));
            reveal_with_fuel(TyView::mentions, 2);
            assert(out.mentions_param(name) == inside.mentions_param(name));
            if exists|source: Seq<char>| #[trigger]
            ty.mentions_param(source) && name_at_call(lexical, source) == name {
                let source = choose|source: Seq<char>| #[trigger]
                    ty.mentions_param(source) && name_at_call(lexical, source) == name;
                assert(inner.mentions_param(source));
            }
            if inside.mentions_param(name) {
                let source = choose|source: Seq<char>| #[trigger]
                    inner.mentions_param(source) && name_at_call(lexical, source) == name;
                assert(ty.mentions_param(source));
            }
        },
        TyView::Fun(sig) => {
            let params = out->Fun_0.params;
            assert forall|i: int| 0 <= i < sig.params.len() implies (
            #[trigger] params[i]).mentions_param(name) == (exists|source: Seq<char>| #[trigger]
            sig.params[i].mentions_param(source) && name_at_call(lexical, source) == name) by {
                a_template_renames_what_it_mentions(sig.params[i], lexical, name);
            }
            a_template_renames_what_it_mentions(sig.ret, lexical, name);
            if out.mentions_param(name) {
                if out->Fun_0.ret.mentions_param(name) {
                    let source = choose|source: Seq<char>| #[trigger]
                        sig.ret.mentions_param(source) && name_at_call(lexical, source) == name;
                    assert(ty.mentions_param(source));
                } else {
                    let i = choose|i: int|
                        0 <= i < params.len() && (#[trigger] params[i]).mentions(
                            MentionView::Param(name),
                        );
                    assert(params[i].mentions_param(name));
                    let source = choose|source: Seq<char>| #[trigger]
                        sig.params[i].mentions_param(source) && name_at_call(lexical, source) == name;
                    assert(ty.mentions_param(source));
                }
            }
            if exists|source: Seq<char>| #[trigger]
            ty.mentions_param(source) && name_at_call(lexical, source) == name {
                let source = choose|source: Seq<char>| #[trigger]
                    ty.mentions_param(source) && name_at_call(lexical, source) == name;
                if sig.ret.mentions_param(source) {
                    assert(out->Fun_0.ret.mentions_param(name));
                } else {
                    let i = choose|i: int|
                        0 <= i < sig.params.len() && (#[trigger] sig.params[i]).mentions(
                            MentionView::Param(source),
                        );
                    assert(sig.params[i].mentions_param(source));
                    assert(params[i].mentions_param(name));
                }
            }
        },
        _ => {},
    }
}

/// A type that is seen by a classifier mentions the type parameters that it mentioned, each as the
/// formal of the classifier that stands for it, and no others.
pub proof fn a_relative_type_mentions_the_own_formals(
    ty: TyView,
    formals: Seq<Seq<char>>,
    spellings: Seq<(String, String)>,
    name: Seq<char>,
)
    ensures
        relative_type(ty, formals, spellings).mentions_param(name) <==> exists|source: Seq<char>| #[trigger]
            ty.mentions_param(source) && own_formal(formals, spellings, source) == name,
    decreases ty,
{
    let out = relative_type(ty, formals, spellings);
    match ty {
        TyView::TyParam(own, _) => {
            assert(ty.mentions_param(own));
        },
        TyView::Obj(_, arguments) => {
            assert forall|i: int| 0 <= i < arguments.len() implies (
            #[trigger] out->Obj_1[i]).mentions_param(name) == (exists|source: Seq<char>| #[trigger]
            arguments[i].mentions_param(source) && own_formal(formals, spellings, source) == name) by {
                a_relative_type_mentions_the_own_formals(arguments[i], formals, spellings, name);
            }
            if out.mentions_param(name) {
                let i = choose|i: int|
                    0 <= i < out->Obj_1.len() && (#[trigger] out->Obj_1[i]).mentions(
                        MentionView::Param(name),
                    );
                assert(out->Obj_1[i].mentions_param(name));
                let source = choose|source: Seq<char>| #[trigger]
                    arguments[i].mentions_param(source) && own_formal(formals, spellings, source) == name;
                assert(ty.mentions_param(source));
            }
            if exists|source: Seq<char>| #[trigger]
            ty.mentions_param(source) && own_formal(formals, spellings, source) == name {
                let source = choose|source: Seq<char>| #[trigger]
                    ty.mentions_param(source) && own_formal(formals, spellings, source) == name;
                let i = choose|i: int|
                    0 <= i < arguments.len() && (#[trigger] arguments[i]).mentions(
                        MentionView::Param(source),
                    );
                assert(arguments[i].mentions_param(source));
                assert(out->Obj_1[i].mentions_param(name));
            }
        },
        TyView::Nullable(inner)
        | TyView::PlatformNullable(inner)
        | TyView::InProjection(inner)
        | TyView::OutProjection(inner)
        | TyView::StarProjection(inner) => {
            a_relative_type_mentions_the_own_formals(*inner, formals, spellings, name);
            let inside = relative_type(*inner, formals, spellings);
            reveal_with_fuel(TyView::mentions, 2);
            assert(out.mentions_param(name) == inside.mentions_param(name));
            if exists|source: Seq<char>| #[trigger]
            ty.mentions_param(source) && own_formal(formals, spellings, source) == name {
                let source = choose|source: Seq<char>| #[trigger]
                    ty.mentions_param(source) && own_formal(formals, spellings, source) == name;
                assert(inner.mentions_param(source));
            }
            if inside.mentions_param(name) {
                let source = choose|source: Seq<char>| #[trigger]
                    inner.mentions_param(source) && own_formal(formals, spellings, source) == name;
                assert(ty.mentions_param(source));
            }
        },
        TyView::Fun(sig) => {
            let params = out->Fun_0.params;
            assert forall|i: int| 0 <= i < sig.params.len() implies (
            #[trigger] params[i]).mentions_param(name) == (exists|source: Seq<char>| #[trigger]
            sig.params[i].mentions_param(source) && own_formal(formals, spellings, source) == name) by {
                a_relative_type_mentions_the_own_formals(sig.params[i], formals, spellings, name);
            }
            a_relative_type_mentions_the_own_formals(sig.ret, formals, spellings, name);
            if out.mentions_param(name) {
                if out->Fun_0.ret.mentions_param(name) {
                    let source = choose|source: Seq<char>| #[trigger]
                        sig.ret.mentions_param(source) && own_formal(formals, spellings, source) == name;
                    assert(ty.mentions_param(source));
                } else {
                    let i = choose|i: int|
                        0 <= i < params.len() && (#[trigger] params[i]).mentions(
                            MentionView::Param(name),
                        );
                    assert(params[i].mentions_param(name));
                    let source = choose|source: Seq<char>| #[trigger]
                        sig.params[i].mentions_param(source) && own_formal(formals, spellings, source) == name;
                    assert(ty.mentions_param(source));
                }
            }
            if exists|source: Seq<char>| #[trigger]
            ty.mentions_param(source) && own_formal(formals, spellings, source) == name {
                let source = choose|source: Seq<char>| #[trigger]
                    ty.mentions_param(source) && own_formal(formals, spellings, source) == name;
                if sig.ret.mentions_param(source) {
                    assert(out->Fun_0.ret.mentions_param(name));
                } else {
                    let i = choose|i: int|
                        0 <= i < sig.params.len() && (#[trigger] sig.params[i]).mentions(
                            MentionView::Param(source),
                        );
                    assert(sig.params[i].mentions_param(source));
                    assert(params[i].mentions_param(name));
                }
            }
        },
        _ => {},
    }
}

/// The formal that stands for a type parameter is spelled like it, and is a formal of the
/// classifier wherever one is spelled like it; the first such formal stands.
pub proof fn an_own_formal_is_spelled_like_what_it_stands_for(
    formals: Seq<Seq<char>>,
    spellings: Seq<(String, String)>,
    name: Seq<char>,
)
    ensures
        ({
            let own = own_formal(formals, spellings, name);
            let spelled = parameter_source(spellings, name);
            &&& parameter_source(spellings, own) == spelled
            &&& (exists|k: int|
                0 <= k < formals.len() && parameter_source(spellings, #[trigger] formals[k])
                    == spelled) ==> formals.contains(own)
            &&& !formals.contains(own) ==> own == name
        }),
{
    lemma_spelled(formals, spellings, parameter_source(spellings, name));
}

proof fn lemma_spelled(
    formals: Seq<Seq<char>>,
    spellings: Seq<(String, String)>,
    source: Seq<char>,
)
    ensures
        match formal_spelled(formals, spellings, source) {
            Some(found) => formals.contains(found) && parameter_source(spellings, found) == source,
            None => forall|k: int|
                0 <= k < formals.len() ==> parameter_source(spellings, #[trigger] formals[k])
                    != source,
        },
    decreases formals.len(),
{
    if formals.len() > 0 {
        let rest = formals.skip(1);
        lemma_spelled(rest, spellings, source);
        assert forall|k: int| 1 <= k < formals.len() implies (#[trigger] formals[k]) == rest[k
            - 1] by {}
        match formal_spelled(rest, spellings, source) {
            Some(found) => {
                let k = choose|k: int| 0 <= k < rest.len() && rest[k] == found;
                assert(formals[k + 1] == found);
            },
            None => {},
        }
        assert(formals[0] == formals.first());
    }
}

/// The parents that are classifiers and those that are function types keep their order, and every
/// such parent is kept.
pub proof fn parents_are_kept_in_order(parents: Seq<TyView>)
    ensures
        nominal(parents) == parents.filter(|parent: TyView| parent is Obj),
        functional(parents) == parents.filter(|parent: TyView| parent is Fun),
    decreases parents.len(),
{
    reveal(Seq::filter);
    if parents.len() > 0 {
        parents_are_kept_in_order(parents.drop_last());
    }
}

/// The formals of a template are those of the signature under the names that they have at the call.
pub proof fn a_template_keeps_the_order_of_its_formals(
    formals: Seq<Seq<char>>,
    lexical: Seq<(Seq<char>, Seq<char>)>,
    k: int,
)
    requires
        0 <= k < formals.len(),
    ensures
        call_site_formals(formals, lexical).len() == formals.len(),
        call_site_formals(formals, lexical)[k] == name_at_call(lexical, formals[k]),
        (forall|i: int| 0 <= i < lexical.len() ==> (#[trigger] lexical[i]).0 != formals[k])
            ==> call_site_formals(formals, lexical)[k] == formals[k],
{
    lemma_fresh(lexical, formals[k]);
}

proof fn lemma_fresh(lexical: Seq<(Seq<char>, Seq<char>)>, formal: Seq<char>)
    ensures
        fresh_for(lexical, formal) matches Some(fresh) ==> lexical.contains((formal, fresh)),
    decreases lexical.len(),
{
    if lexical.len() > 0 {
        let rest = lexical.skip(1);
        lemma_fresh(rest, formal);
        if lexical[0].0 == formal {
            assert(lexical[0] == (formal, lexical[0].1));
        } else if let Some(fresh) = fresh_for(rest, formal) {
            let k = choose|k: int| 0 <= k < rest.len() && rest[k] == (formal, fresh);
            assert(lexical[k + 1] == (formal, fresh));
        }
    }
}

} // verus!
