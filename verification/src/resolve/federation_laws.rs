//! What holds of the declarations that a compiled library and its source give together.

use vstd::prelude::*;

use crate::libraries::{
    FunctionInfoView, LibraryMemberView, LibraryTypeView, PropertyInfoView, Visibility,
};
use crate::names::nested_owner_of;
use crate::resolve::dependency_platform::{
    access_of, blocking_owner, covers, functions_match, matching, members_match, merged_functions,
    merged_members, merged_names, merged_type, params_match, properties_match, restored,
    source_visibility_of, with_source_function, with_source_property, without_declaration,
    FederationView, SemanticPlatform, SourceTypeAccess,
};
use crate::symbols::SymbolTable;

verus! {

/// Joined names are those of both sides: the first ones stay in front, and none is added that is
/// there already.
pub proof fn joined_names_are_those_of_both_sides(names: Seq<Seq<char>>, more: Seq<Seq<char>>)
    ensures
        ({
            let all = merged_names(names, more);
            &&& names.len() <= all.len()
            &&& all.take(names.len() as int) == names
            &&& forall|name: Seq<char>| #[trigger]
                all.contains(name) <==> names.contains(name) || more.contains(name)
            &&& names.no_duplicates() ==> all.no_duplicates()
        }),
    decreases more.len(),
{
    let all = merged_names(names, more);
    if more.len() == 0 {
        assert(all.take(names.len() as int) =~= names);
    } else {
        let next = if names.contains(more[0]) {
            names
        } else {
            names.push(more[0])
        };
        let rest = more.skip(1);
        joined_names_are_those_of_both_sides(next, rest);
        assert(all.take(names.len() as int) =~= all.take(next.len() as int).take(
            names.len() as int,
        ));
        assert(next.take(names.len() as int) =~= names);
        assert forall|name: Seq<char>| #[trigger] all.contains(name) <==> names.contains(name)
            || more.contains(name) by {
            if more.contains(name) {
                let k = choose|k: int| 0 <= k < more.len() && more[k] == name;
                if k > 0 {
                    assert(rest[k - 1] == name);
                } else if !names.contains(name) {
                    assert(next[names.len() as int] == name);
                }
            }
            if rest.contains(name) {
                let k = choose|k: int| 0 <= k < rest.len() && rest[k] == name;
                assert(more[k + 1] == name);
            }
            if names.contains(name) {
                let k = choose|k: int| 0 <= k < names.len() && names[k] == name;
                assert(next[k] == name);
            }
            if next.contains(name) && !names.contains(name) {
                let k = choose|k: int| 0 <= k < next.len() && next[k] == name;
                assert(k == names.len());
                assert(more[0] == name);
            }
        }
        if names.no_duplicates() {
            assert forall|i: int, j: int|
                0 <= i < next.len() && 0 <= j < next.len() && i != j implies next[i]
                != next[j] by {
                if i == names.len() && next[i] == next[j] {
                    assert(names[j] == more[0]);
                }
                if j == names.len() && next[i] == next[j] {
                    assert(names[i] == more[0]);
                }
            }
        }
    }
}

/// Whether a member of the same name and parameters is among some.
pub open spec fn has_member(members: Seq<LibraryMemberView>, member: LibraryMemberView) -> bool {
    exists|k: int| 0 <= k < members.len() && members_match(#[trigger] members[k], member)
}

/// Joined members are those of both sides: the compiled ones stay in front as they are, and each
/// one of the source is there or was there already.
pub proof fn joined_members_are_those_of_both_sides(
    primary: Seq<LibraryMemberView>,
    source: Seq<LibraryMemberView>,
)
    ensures
        ({
            let all = merged_members(primary, source);
            &&& primary.len() <= all.len()
            &&& all.take(primary.len() as int) == primary
            &&& forall|k: int| 0 <= k < source.len() ==> has_member(all, #[trigger] source[k])
            &&& forall|k: int|
                primary.len() <= k < all.len() ==> source.contains(#[trigger] all[k]) && !has_member(
                    primary,
                    all[k],
                )
        }),
    decreases source.len(),
{
    let all = merged_members(primary, source);
    if source.len() == 0 {
        assert(all.take(primary.len() as int) =~= primary);
    } else {
        let there = has_member(primary, source[0]);
        let next = if there {
            primary
        } else {
            primary.push(source[0])
        };
        let rest = source.skip(1);
        joined_members_are_those_of_both_sides(next, rest);
        assert(all == merged_members(next, rest));
        assert(all.take(primary.len() as int) =~= all.take(next.len() as int).take(
            primary.len() as int,
        ));
        assert(next.take(primary.len() as int) =~= primary);
        assert forall|k: int| 0 <= k < source.len() implies has_member(
            all,
            #[trigger] source[k],
        ) by {
            if k > 0 {
                assert(rest[k - 1] == source[k]);
            } else {
                let at = if there {
                    choose|i: int|
                        0 <= i < primary.len() && members_match(#[trigger] primary[i], source[0])
                } else {
                    primary.len() as int
                };
                assert(all[at] == all.take(next.len() as int)[at]);
                assert(members_match(all[at], source[k]));
            }
        }
        assert forall|k: int| primary.len() <= k < all.len() implies source.contains(
            #[trigger] all[k],
        ) && !has_member(primary, all[k]) by {
            if k < next.len() {
                assert(all[k] == all.take(next.len() as int)[k]);
                assert(all[k] == source[0]);
            } else {
                let i = choose|i: int| 0 <= i < rest.len() && rest[i] == all[k];
                assert(source[i + 1] == all[k]);
                if has_member(primary, all[k]) {
                    let at = choose|i: int|
                        0 <= i < primary.len() && members_match(#[trigger] primary[i], all[k]);
                    assert(members_match(next[at], all[k]));
                }
            }
        }
    }
}

/// Whether a function that `function` declares is among some.
pub open spec fn has_function(
    platform: SemanticPlatform,
    functions: Seq<FunctionInfoView>,
    function: FunctionInfoView,
) -> bool {
    exists|k: int|
        0 <= k < functions.len() && functions_match(platform, #[trigger] functions[k], function)
}

proof fn lemma_matching(
    platform: SemanticPlatform,
    functions: Seq<FunctionInfoView>,
    candidate: FunctionInfoView,
)
    ensures
        ({
            let at = matching(platform, functions, candidate);
            &&& -1 <= at < functions.len()
            &&& at >= 0 ==> functions_match(platform, functions[at], candidate)
            &&& at < 0 ==> !has_function(platform, functions, candidate)
            &&& forall|k: int|
                0 <= k < at ==> !functions_match(platform, #[trigger] functions[k], candidate)
        }),
    decreases functions.len(),
{
    if functions.len() > 0 {
        let front = functions.drop_last();
        lemma_matching(platform, front, candidate);
        let at = matching(platform, functions, candidate);
        if at < 0 && has_function(platform, functions, candidate) {
            let k = choose|k: int|
                0 <= k < functions.len() && functions_match(
                    platform,
                    #[trigger] functions[k],
                    candidate,
                );
            if k < front.len() {
                assert(functions_match(platform, front[k], candidate));
            }
        }
        assert forall|k: int| 0 <= k < at implies !functions_match(
            platform,
            #[trigger] functions[k],
            candidate,
        ) by {
            assert(front[k] == functions[k]);
            if at == functions.len() - 1 && functions_match(platform, functions[k], candidate) {
                assert(has_function(platform, front, candidate));
            }
        }
    }
}

/// A source function goes to the first function that it declares again, and changes no other; one
/// that declares none again is added behind them.
pub proof fn a_source_function_restores_the_first_it_declares(
    platform: SemanticPlatform,
    functions: Seq<FunctionInfoView>,
    candidate: FunctionInfoView,
)
    ensures
        ({
            let all = with_source_function(platform, functions, candidate);
            if has_function(platform, functions, candidate) {
                exists|at: int|
                    {
                        &&& 0 <= at < functions.len()
                        &&& functions_match(platform, #[trigger] functions[at], candidate)
                        &&& forall|k: int|
                            0 <= k < at ==> !functions_match(
                                platform,
                                #[trigger] functions[k],
                                candidate,
                            )
                        &&& all == functions.update(at, restored(functions[at], candidate))
                    }
            } else {
                all == functions.push(candidate)
            }
        }),
{
    lemma_matching(platform, functions, candidate);
    let at = matching(platform, functions, candidate);
    if has_function(platform, functions, candidate) {
        assert(functions_match(platform, functions[at], candidate));
    }
}

/// Whether the flags of a function say of suspension what its callable says.
pub open spec fn is_consistent(function: FunctionInfoView) -> bool {
    function.flags.suspend == function.callable.suspend
}

/// Every function of the source is there once the sides are joined, and so is every function that
/// was declared by a compiled one.
pub proof fn every_source_function_is_joined(
    platform: SemanticPlatform,
    primary: Seq<FunctionInfoView>,
    source: Seq<FunctionInfoView>,
    wanted: FunctionInfoView,
)
    requires
        forall|k: int| 0 <= k < source.len() ==> is_consistent(#[trigger] source[k]),
        has_function(platform, primary, wanted) || source.contains(wanted),
    ensures
        has_function(platform, merged_functions(platform, primary, source), wanted),
    decreases source.len(),
{
    if source.len() > 0 {
        let candidate = source[0];
        let next = with_source_function(platform, primary, candidate);
        let rest = source.skip(1);
        lemma_matching(platform, primary, candidate);
        let at = matching(platform, primary, candidate);
        assert(is_consistent(candidate));
        assert forall|k: int| 0 <= k < rest.len() implies is_consistent(#[trigger] rest[k]) by {
            assert(rest[k] == source[k + 1]);
        }
        if has_function(platform, primary, wanted) {
            let k = choose|k: int|
                0 <= k < primary.len() && functions_match(platform, #[trigger] primary[k], wanted);
            assert(functions_match(platform, next[k], wanted));
        } else {
            let k = choose|k: int| 0 <= k < source.len() && source[k] == wanted;
            if k == 0 {
                if at >= 0 {
                    assert(functions_match(platform, next[at], wanted));
                } else {
                    assert(functions_match(platform, next[primary.len() as int], wanted)) by {
                        assert forall|i: int| 0 <= i < wanted.callable.params.len() implies params_match(
                            platform,
                            #[trigger] wanted.callable.params[i],
                            wanted.callable.params[i],
                        ) by {}
                    }
                }
            } else {
                assert(rest[k - 1] == wanted);
            }
        }
        every_source_function_is_joined(platform, next, rest, wanted);
    }
}

proof fn lemma_without(properties: Seq<PropertyInfoView>, candidate: PropertyInfoView)
    ensures
        ({
            let left = without_declaration(properties, candidate);
            forall|property: PropertyInfoView| #[trigger]
                left.contains(property) <==> properties.contains(property) && !properties_match(
                    property,
                    candidate,
                )
        }),
    decreases properties.len(),
{
    if properties.len() > 0 {
        let front = properties.drop_last();
        let last = properties.last();
        lemma_without(front, candidate);
        let earlier = without_declaration(front, candidate);
        let left = without_declaration(properties, candidate);
        assert forall|property: PropertyInfoView| #[trigger]
            left.contains(property) <==> properties.contains(property) && !properties_match(
                property,
                candidate,
            ) by {
            if left.contains(property) {
                let k = choose|k: int| 0 <= k < left.len() && left[k] == property;
                if k < earlier.len() {
                    assert(earlier.contains(property));
                    let i = choose|i: int| 0 <= i < front.len() && front[i] == property;
                    assert(properties[i] == property);
                } else {
                    assert(properties[properties.len() - 1] == property);
                }
            }
            if properties.contains(property) && !properties_match(property, candidate) {
                let i = choose|i: int| 0 <= i < properties.len() && properties[i] == property;
                if i < front.len() {
                    assert(front[i] == property);
                    assert(earlier.contains(property));
                    let k = choose|k: int| 0 <= k < earlier.len() && earlier[k] == property;
                    assert(left[k] == property);
                } else {
                    assert(left[left.len() - 1] == property);
                }
            }
        }
    }
}

/// A source property is there or covered by a compiled one, a property that it does not declare
/// again stays, and nothing else is added. Where it is not covered it stands alone for what it
/// declares.
pub proof fn a_source_property_is_there_or_covered(
    platform: SemanticPlatform,
    properties: Seq<PropertyInfoView>,
    candidate: PropertyInfoView,
    property: PropertyInfoView,
)
    ensures
        ({
            let all = with_source_property(platform, properties, candidate);
            let covered = exists|k: int|
                0 <= k < properties.len() && covers(platform, #[trigger] properties[k], candidate);
            &&& covered ==> all == properties
            &&& !covered ==> (all.contains(property) <==> property == candidate || (
            properties.contains(property) && !properties_match(property, candidate)))
        }),
{
    lemma_without(properties, candidate);
    let left = without_declaration(properties, candidate);
    let all = left.push(candidate);
    if all.contains(property) {
        let k = choose|k: int| 0 <= k < all.len() && all[k] == property;
        if k < left.len() {
            assert(left[k] == property);
        }
    }
    if left.contains(property) {
        let k = choose|k: int| 0 <= k < left.len() && left[k] == property;
        assert(all[k] == property);
    }
    assert(all[left.len() as int] == candidate);
}

/// A classifier is hidden by its nearest owner that is not public, and only by an owner: one that
/// is not nested has the visibility that it declares.
pub proof fn an_owner_that_is_not_public_hides_what_is_inside(
    source: SymbolTable,
    name: Seq<char>,
)
    ensures
        nested_owner_of(name) is None ==> access_of(source, name) == match source_visibility_of(
            source,
            name,
        ) {
            Some(visibility) => SourceTypeAccess::Declared(visibility),
            None => SourceTypeAccess::Absent,
        },
        nested_owner_of(name) matches Some(owner) ==> (source_visibility_of(
            source,
            owner,
        ) matches Some(visibility) ==> visibility != Visibility::Public ==> access_of(source, name)
            == SourceTypeAccess::HiddenByOwner(visibility)),
        nested_owner_of(name) matches Some(owner) ==> source_visibility_of(source, owner) is None
            && source_visibility_of(source, name) is Some ==> access_of(source, name)
            == SourceTypeAccess::HiddenByOwner(Visibility::Private),
        nested_owner_of(name) matches Some(owner) ==> source_visibility_of(source, owner) == Some(
            Visibility::Public,
        ) && source_visibility_of(source, name) is Some ==> match access_of(source, owner) {
            SourceTypeAccess::HiddenByOwner(visibility) => access_of(source, name)
                == SourceTypeAccess::HiddenByOwner(visibility),
            _ => access_of(source, name) == SourceTypeAccess::Declared(
                source_visibility_of(source, name)->0,
            ),
        },
{
    reveal_with_fuel(blocking_owner, 2);
}

/// A classifier that both sides describe has what its source declares and what the compiled side
/// realizes.
pub proof fn a_joined_classifier_is_declared_by_its_source(
    platform: SemanticPlatform,
    primary: LibraryTypeView,
    source: LibraryTypeView,
)
    ensures
        ({
            let joined = merged_type(platform, primary, source);
            &&& joined.access == source.access
            &&& joined.enum_entries == source.enum_entries
            &&& source.type_params.len() > 0 ==> joined.type_params == source.type_params
            &&& joined.supertypes == primary.supertypes
            &&& joined.declared_callable_order.take(source.declared_callable_order.len() as int)
                == source.declared_callable_order
            &&& joined.members.take(primary.members.len() as int) == primary.members
            &&& joined.constructors.take(primary.constructors.len() as int)
                == primary.constructors
            &&& forall|k: int|
                0 <= k < source.members.len() ==> has_member(
                    joined.members,
                    #[trigger] source.members[k],
                )
        }),
{
    joined_names_are_those_of_both_sides(
        source.declared_callable_order,
        primary.declared_callable_order,
    );
    joined_members_are_those_of_both_sides(primary.members, source.members);
    joined_members_are_those_of_both_sides(primary.constructors, source.constructors);
}

/// An alias of the source stands before a compiled one of the same name.
pub proof fn a_source_alias_comes_first(federation: FederationView, name: Seq<char>)
    ensures
        federation.source_alias(name) matches Some(alias) ==> federation.type_alias(name) == Some(
            alias,
        ) && federation.alias_target(name) == Some(alias.target),
        federation.alias_target(name) matches Some(target) ==> federation.record(
            name,
        ).importable_declaration && federation.source_record(name).classifier_name == Some(target),
{
}

/// What the source claims about a path decides the visibility of the classifier there, whichever
/// side describes it.
pub proof fn a_claimed_visibility_decides(federation: FederationView, name: Seq<char>)
    ensures
        federation.record(name).classifier matches Some(shape) ==> (federation.access(
            name,
        ).claimed() matches Some(visibility) ==> shape.access == visibility),
        federation.platform.table.record(name).classifier is Some ==> federation.record(
            name,
        ).classifier is Some,
        federation.platform.table.record(name).classifier_name is Some ==> federation.record(
            name,
        ).classifier_name == federation.platform.table.record(name).classifier_name,
{
}

} // verus!
