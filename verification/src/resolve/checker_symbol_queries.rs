//! The declaration queries of a body check, answered once per question where the declarations of the
//! module are final.

use vstd::prelude::*;

use crate::fir::DeclarationId;
use crate::libraries::{Callables, CallablesView};
use crate::model::{copy_all, same_all, Modelled};
use crate::names::TypeName;
use crate::resolve::for_loop_iteration::TypeTable;
use crate::text::{same_text, views};
use crate::types::{Ty, TyView};

verus! {

broadcast use {crate::text::group_views, crate::types::group_ty_views};

/// The answers of the ordinary resolver.
pub trait ReceiverCallables {
    /// The callables named `name` on a receiver, for a use inside the given classes.
    spec fn callables(
        &self,
        receiver: TyView,
        name: Seq<char>,
        classes: Seq<Seq<char>>,
    ) -> CallablesView;

    fn receiver_callables(&self, receiver: &Ty, name: &str, classes: &Vec<TypeName>) -> (found:
        Callables)
        ensures
            found@ == self.callables(receiver@, name@, views(classes@)),
    ;
}

/// A question with its answer.
#[derive(Debug)]
pub struct AnsweredQuery {
    pub receiver: Ty,
    pub name: String,
    pub classes: Vec<TypeName>,
    pub callables: Callables,
}

/// Answers listed one by one. A question that is not listed has the answer of nothing.
#[derive(Debug)]
pub struct ListedCallables {
    pub answers: Vec<AnsweredQuery>,
}

/// Whether an answer is that of a question.
pub open spec fn answers(
    query: AnsweredQuery,
    receiver: TyView,
    name: Seq<char>,
    classes: Seq<Seq<char>>,
) -> bool {
    query.receiver@ == receiver && query.name@ == name && views(query.classes@) == classes
}

/// The first answer of a question.
pub open spec fn first_answer(
    listed: Seq<AnsweredQuery>,
    receiver: TyView,
    name: Seq<char>,
    classes: Seq<Seq<char>>,
) -> Option<CallablesView>
    decreases listed.len(),
{
    if listed.len() == 0 {
        None
    } else if answers(listed[0], receiver, name, classes) {
        Some(listed[0].callables@)
    } else {
        first_answer(listed.skip(1), receiver, name, classes)
    }
}

fn find_answer<'a>(
    listed: &'a Vec<AnsweredQuery>,
    receiver: &Ty,
    name: &str,
    classes: &Vec<TypeName>,
) -> (found: Option<&'a Callables>)
    ensures
        first_answer(listed@, receiver@, name@, views(classes@)) == match found {
            Some(callables) => Some(callables@),
            None => None,
        },
{
    let mut next: usize = 0;
    assert(listed@.skip(0) =~= listed@);
    while next < listed.len()
        invariant
            next <= listed@.len(),
            first_answer(listed@.skip(next as int), receiver@, name@, views(classes@))
                == first_answer(listed@, receiver@, name@, views(classes@)),
        decreases listed@.len() - next,
    {
        assert(listed@.skip(next as int).skip(1) =~= listed@.skip(next as int + 1));
        let query = &listed[next];
        if query.receiver == *receiver && same_text(query.name.as_str(), name) && same_all(
            &query.classes,
            classes,
        ) {
            return Some(&query.callables);
        }
        next += 1;
    }
    None
}

impl ReceiverCallables for ListedCallables {
    open spec fn callables(
        &self,
        receiver: TyView,
        name: Seq<char>,
        classes: Seq<Seq<char>>,
    ) -> CallablesView {
        match first_answer(self.answers@, receiver, name, classes) {
            Some(found) => found,
            None => CallablesView::nothing(),
        }
    }

    fn receiver_callables(&self, receiver: &Ty, name: &str, classes: &Vec<TypeName>) -> (found:
        Callables) {
        match find_answer(&self.answers, receiver, name, classes) {
            Some(callables) => callables.duplicate(),
            None => Callables::nothing(),
        }
    }
}

/// The answers that are kept.
#[derive(Debug)]
pub struct ReceiverCallableCache {
    pub kept: Vec<AnsweredQuery>,
}

impl ReceiverCallableCache {
    /// Whether each kept answer is that of the resolver.
    pub open spec fn agrees<R: ReceiverCallables>(self, resolver: R) -> bool {
        forall|k: int|
            0 <= k < self.kept@.len() ==> (#[trigger] self.kept@[k]).callables@
                == resolver.callables(
                self.kept@[k].receiver@,
                self.kept@[k].name@,
                views(self.kept@[k].classes@),
            )
    }

    pub fn new() -> (cache: Self)
        ensures
            cache.kept@.len() == 0,
    {
        ReceiverCallableCache { kept: Vec::new() }
    }
}

proof fn lemma_kept_answer<R: ReceiverCallables>(
    kept: Seq<AnsweredQuery>,
    resolver: R,
    receiver: TyView,
    name: Seq<char>,
    classes: Seq<Seq<char>>,
)
    requires
        forall|k: int|
            0 <= k < kept.len() ==> (#[trigger] kept[k]).callables@ == resolver.callables(
                kept[k].receiver@,
                kept[k].name@,
                views(kept[k].classes@),
            ),
    ensures
        first_answer(kept, receiver, name, classes) matches Some(found) ==> found
            == resolver.callables(receiver, name, classes),
    decreases kept.len(),
{
    if kept.len() > 0 && !answers(kept[0], receiver, name, classes) {
        let rest = kept.skip(1);
        assert forall|k: int| 0 <= k < rest.len() implies (#[trigger] rest[k]).callables@
            == resolver.callables(rest[k].receiver@, rest[k].name@, views(rest[k].classes@)) by {
            assert(rest[k] == kept[k + 1]);
        }
        lemma_kept_answer(rest, resolver, receiver, name, classes);
    }
}

/// The callables named `name` on a receiver. Where the declarations of the module are final, the
/// answer is kept, and given again to the same question.
pub fn stable_receiver_callables<R: ReceiverCallables>(
    cache: &mut ReceiverCallableCache,
    resolver: &R,
    final_declarations: bool,
    receiver: &Ty,
    name: &str,
    classes: &Vec<TypeName>,
) -> (callables: Callables)
    requires
        old(cache).agrees(*resolver),
    ensures
        callables@ == resolver.callables(receiver@, name@, views(classes@)),
        final(cache).agrees(*resolver),
        !final_declarations ==> final(cache).kept@ == old(cache).kept@,
        final_declarations ==> first_answer(
            final(cache).kept@,
            receiver@,
            name@,
            views(classes@),
        ) is Some,
{
    if !final_declarations {
        return resolver.receiver_callables(receiver, name, classes);
    }
    proof {
        lemma_kept_answer(cache.kept@, *resolver, receiver@, name@, views(classes@));
    }
    if let Some(kept) = find_answer(&cache.kept, receiver, name, classes) {
        return kept.duplicate();
    }
    let callables = resolver.receiver_callables(receiver, name, classes);
    let ghost before = cache.kept@;
    cache.kept.insert(
        0,
        AnsweredQuery {
            receiver: receiver.clone(),
            name: name.to_owned(),
            classes: copy_all(classes),
            callables: callables.duplicate(),
        },
    );
    proof {
        assert forall|k: int| 0 <= k < cache.kept@.len() implies (#[trigger] cache.kept@[k]).callables@
            == resolver.callables(
            cache.kept@[k].receiver@,
            cache.kept@[k].name@,
            views(cache.kept@[k].classes@),
        ) by {
            if k > 0 {
                assert(cache.kept@[k] == before[k - 1]);
            }
        }
    }
    callables
}

/// The function types that classifiers implement, as the ordinary resolver finds them.
pub trait CallableSignatures {
    spec fn signatures(&self, ty: TyView) -> Seq<TyView>;

    fn classifier_callable_signatures(&self, ty: &Ty) -> (found: Vec<Ty>)
        ensures
            views(found@) == self.signatures(ty@),
    ;
}

/// The function types of the classifiers that are listed. A type that is not listed has none.
#[derive(Debug)]
pub struct ListedSignatures {
    pub listed: TypeTable<Vec<Ty>>,
}

impl CallableSignatures for ListedSignatures {
    open spec fn signatures(&self, ty: TyView) -> Seq<TyView> {
        if self.listed@.contains_key(ty) {
            views(self.listed@[ty]@)
        } else {
            seq![]
        }
    }

    fn classifier_callable_signatures(&self, ty: &Ty) -> (found: Vec<Ty>) {
        match self.listed.get(ty) {
            Some(signatures) => copy_all(signatures),
            None => {
                let none: Vec<Ty> = Vec::new();
                assert(views(none@) =~= seq![]);
                none
            },
        }
    }
}

/// The function types that were found for a type before.
#[derive(Debug)]
pub struct CallableShapeCache {
    pub kept: TypeTable<Vec<Ty>>,
}

impl CallableShapeCache {
    /// Whether each kept answer is that of the resolver.
    pub open spec fn agrees<R: CallableSignatures>(self, resolver: R) -> bool {
        forall|ty: TyView| #[trigger]
            self.kept@.contains_key(ty) ==> views(self.kept@[ty]@) == resolver.signatures(ty)
    }

    pub fn new() -> (cache: Self)
        ensures
            cache.kept@ == Map::<TyView, Vec<Ty>>::empty(),
    {
        CallableShapeCache { kept: TypeTable::new() }
    }
}

/// The function types that a type implements. Where the declarations of the module are final, the
/// answer is kept, and given again for the same type.
pub fn stable_classifier_callable_signatures<R: CallableSignatures>(
    cache: &mut CallableShapeCache,
    resolver: &R,
    final_declarations: bool,
    ty: &Ty,
) -> (signatures: Vec<Ty>)
    requires
        old(cache).agrees(*resolver),
    ensures
        views(signatures@) == resolver.signatures(ty@),
        final(cache).agrees(*resolver),
        !final_declarations ==> final(cache).kept@ == old(cache).kept@,
        final_declarations ==> final(cache).kept@.dom() == old(cache).kept@.dom().insert(ty@),
{
    if !final_declarations {
        return resolver.classifier_callable_signatures(ty);
    }
    if let Some(signatures) = cache.kept.get(ty) {
        assert(cache.kept@.dom() =~= old(cache).kept@.dom().insert(ty@));
        return copy_all(signatures);
    }
    let signatures = resolver.classifier_callable_signatures(ty);
    cache.kept.insert(ty.clone(), copy_all(&signatures));
    signatures
}

/// The places of the candidates that are declared in the module.
pub open spec fn stable_places(candidates: Seq<Option<DeclarationId>>) -> Seq<usize>
    decreases candidates.len(),
{
    if candidates.len() == 0 {
        seq![]
    } else {
        let rest = stable_places(candidates.drop_last());
        if candidates.last() is Some {
            rest.push((candidates.len() - 1) as usize)
        } else {
            rest
        }
    }
}

/// The one top-level candidate that is declared in the module, where there is just one.
pub fn stable_single_top_level_signature(candidates: &Vec<Option<DeclarationId>>) -> (place: Option<
    usize,
>)
    ensures
        place == (if stable_places(candidates@).len() == 1 {
            Some(stable_places(candidates@)[0])
        } else {
            None
        }),
        place matches Some(found) ==> found < candidates@.len(),
{
    let mut places: Vec<usize> = Vec::new();
    let mut next: usize = 0;
    assert(candidates@.take(0) =~= seq![]);
    while next < candidates.len()
        invariant
            next <= candidates@.len(),
            places@ == stable_places(candidates@.take(next as int)),
            forall|k: int| 0 <= k < places@.len() ==> (#[trigger] places@[k]) < next,
        decreases candidates@.len() - next,
    {
        assert(candidates@.take(next as int + 1).drop_last() =~= candidates@.take(next as int));
        if candidates[next].is_some() {
            places.push(next);
        }
        next += 1;
    }
    assert(candidates@.take(next as int) =~= candidates@);
    if places.len() == 1 {
        Some(places[0])
    } else {
        None
    }
}

} // verus!
