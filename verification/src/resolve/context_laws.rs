//! What holds of the context values that a body captures.

use vstd::prelude::*;

use crate::resolve::calls::{ContextArgumentView, ImplicitReceiverView};
use crate::resolve::context_capture::{
    at_boundary, captured_source, captured_sources, direct_receiver, direct_receivers, occurrences,
    with_new, SourceUse,
};

verus! {

/// The place of the binding that a name denotes in nested scopes, the innermost last: `depth`
/// further bindings of the name stand in the way.
pub open spec fn denoted(scopes: Seq<Seq<char>>, name: Seq<char>, depth: int) -> Option<int>
    decreases scopes.len(),
{
    if scopes.len() == 0 {
        None
    } else if scopes.last() != name {
        denoted(scopes.drop_last(), name, depth)
    } else if depth == 0 {
        Some(scopes.len() - 1)
    } else {
        denoted(scopes.drop_last(), name, depth - 1)
    }
}

proof fn lemma_denoted_outside(
    outer: Seq<Seq<char>>,
    inner: Seq<Seq<char>>,
    name: Seq<char>,
    depth: int,
)
    requires
        0 <= depth,
    ensures
        depth >= occurrences(inner, name) ==> denoted(outer + inner, name, depth) == denoted(
            outer,
            name,
            depth - occurrences(inner, name),
        ),
        depth < occurrences(inner, name) ==> (denoted(outer + inner, name, depth) matches Some(place)
            && outer.len() <= place),
    decreases inner.len(),
{
    let all = outer + inner;
    if inner.len() == 0 {
        assert(all =~= outer);
    } else {
        let front = inner.drop_last();
        assert(all.drop_last() =~= outer + front);
        assert(all.last() == inner.last());
        if inner.last() != name {
            lemma_denoted_outside(outer, front, name, depth);
        } else if depth > 0 {
            lemma_denoted_outside(outer, front, name, depth - 1);
        }
    }
}

/// A captured binding is the one that was used: counted from the boundary of the body it denotes,
/// in the scopes around the body, what it denoted where it was used. A binding that is not captured
/// is one of the body itself.
pub proof fn a_captured_binding_is_the_one_that_was_used(
    used: SourceUse,
    outer: Seq<Seq<char>>,
    name: Seq<char>,
    depth: int,
)
    requires
        0 <= depth,
        used.source == (ContextArgumentView::Binding { name, shadow_depth: depth }),
    ensures
        ({
            let there = denoted(outer + used.frame.bound, name, depth);
            match captured_source(used) {
                Some(ContextArgumentView::Binding { name: captured, shadow_depth }) => captured
                    == name && 0 <= shadow_depth && there == denoted(outer, name, shadow_depth),
                Some(_) => false,
                None => there matches Some(place) && outer.len() <= place,
            }
        }),
{
    lemma_denoted_outside(outer, used.frame.bound, name, depth);
}

/// A receiver that is bound by a name is counted in the same way, from the boundary of the body.
pub proof fn a_bound_receiver_is_the_one_that_was_used(
    used: SourceUse,
    selection: ImplicitReceiverView,
    outer: Seq<Seq<char>>,
    name: Seq<char>,
    depth: int,
)
    requires
        0 <= depth,
        name != "this"@,
        selection.context_binding == Some((name, depth)),
    ensures
        ({
            let there = denoted(outer + used.frame.bound, name, depth);
            match at_boundary(selection, used.frame) {
                Some(shown) => shown.context_binding matches Some((captured, shown_depth)) && captured
                    == name && there == denoted(outer, name, shown_depth),
                None => there matches Some(place) && outer.len() <= place,
            }
        }),
{
    lemma_denoted_outside(outer, used.frame.bound, name, depth);
}

/// A receiver that is reached through a nested body is the one that was used: the receivers of the
/// nested bodies are counted off, and one of theirs is not captured.
pub proof fn a_receiver_of_a_nested_body_is_not_captured(
    used: SourceUse,
    selection: ImplicitReceiverView,
)
    requires
        used.frame.nested,
        used.source == ContextArgumentView::ImplicitReceiver(selection),
        selection.context_binding is None,
        selection.singleton is None,
    ensures
        match captured_source(used) {
            Some(ContextArgumentView::ImplicitReceiver(shown)) => shown.receiver_depth
                + used.frame.receivers == selection.receiver_depth && 0 <= shown.receiver_depth
                && shown.current == (shown.receiver_depth == 0),
            Some(_) => false,
            None => selection.receiver_depth < used.frame.receivers,
        },
        direct_receiver(used) is None,
{
}

proof fn lemma_with_new<A>(items: Seq<A>, item: Option<A>, wanted: A)
    ensures
        with_new(items, item).contains(wanted) <==> items.contains(wanted) || item == Some(wanted),
        items.len() <= with_new(items, item).len(),
        with_new(items, item).take(items.len() as int) == items,
{
    let all = with_new(items, item);
    assert(all.take(items.len() as int) =~= items);
    if items.contains(wanted) {
        let k = choose|k: int| 0 <= k < items.len() && items[k] == wanted;
        assert(all[k] == wanted);
    }
    if item == Some(wanted) && !items.contains(wanted) {
        assert(all[items.len() as int] == wanted);
    }
}

/// What is captured is what the uses contribute, and everything that they contribute. What was
/// known stays in front.
pub proof fn what_is_used_is_captured(
    known: Seq<ContextArgumentView>,
    uses: Seq<SourceUse>,
    source: ContextArgumentView,
)
    ensures
        captured_sources(known, uses).contains(source) <==> known.contains(source) || exists|k: int|
            0 <= k < uses.len() && captured_source(#[trigger] uses[k]) == Some(source),
        known.len() <= captured_sources(known, uses).len(),
        captured_sources(known, uses).take(known.len() as int) == known,
    decreases uses.len(),
{
    if uses.len() == 0 {
        assert(known.take(known.len() as int) =~= known);
    } else {
        let front = uses.drop_last();
        let earlier = captured_sources(known, front);
        let last = captured_source(uses.last());
        what_is_used_is_captured(known, front, source);
        lemma_with_new(earlier, last, source);
        let all = captured_sources(known, uses);
        assert(all.take(known.len() as int) =~= all.take(earlier.len() as int).take(
            known.len() as int,
        ));
        if exists|k: int| 0 <= k < front.len() && captured_source(#[trigger] front[k]) == Some(source) {
            let k = choose|k: int|
                0 <= k < front.len() && captured_source(#[trigger] front[k]) == Some(source);
            assert(captured_source(uses[k]) == Some(source));
        }
        if exists|k: int| 0 <= k < uses.len() && captured_source(#[trigger] uses[k]) == Some(source) {
            let k = choose|k: int|
                0 <= k < uses.len() && captured_source(#[trigger] uses[k]) == Some(source);
            if k < front.len() {
                assert(captured_source(front[k]) == Some(source));
            }
        }
        if last == Some(source) {
            assert(captured_source(uses[uses.len() - 1]) == Some(source));
        }
    }
}

/// The direct receivers are those of the uses outside nested bodies, all of them and no others.
pub proof fn direct_receivers_are_those_of_the_body(
    known: Seq<ImplicitReceiverView>,
    uses: Seq<SourceUse>,
    receiver: ImplicitReceiverView,
)
    ensures
        direct_receivers(known, uses).contains(receiver) <==> known.contains(receiver)
            || exists|k: int|
            0 <= k < uses.len() && direct_receiver(#[trigger] uses[k]) == Some(receiver),
    decreases uses.len(),
{
    if uses.len() > 0 {
        let front = uses.drop_last();
        let earlier = direct_receivers(known, front);
        let last = direct_receiver(uses.last());
        direct_receivers_are_those_of_the_body(known, front, receiver);
        lemma_with_new(earlier, last, receiver);
        if exists|k: int|
            0 <= k < front.len() && direct_receiver(#[trigger] front[k]) == Some(receiver) {
            let k = choose|k: int|
                0 <= k < front.len() && direct_receiver(#[trigger] front[k]) == Some(receiver);
            assert(direct_receiver(uses[k]) == Some(receiver));
        }
        if exists|k: int|
            0 <= k < uses.len() && direct_receiver(#[trigger] uses[k]) == Some(receiver) {
            let k = choose|k: int|
                0 <= k < uses.len() && direct_receiver(#[trigger] uses[k]) == Some(receiver);
            if k < front.len() {
                assert(direct_receiver(front[k]) == Some(receiver));
            }
        }
        if last == Some(receiver) {
            assert(direct_receiver(uses[uses.len() - 1]) == Some(receiver));
        }
    }
}

} // verus!
