//! Solving a call's generic formals from what the call site supplies.

use vstd::prelude::*;

use crate::bindings::{subst_all, ty_subst_keep_unbound, unified, unify_inferred_ty, Bindings};
use crate::libraries::GenericSig;
use crate::names::TypeName;
use crate::symbols::SymbolTable;
use crate::text::{option_view, views};
use crate::types::{Ty, TyView};

verus! {

broadcast use {crate::text::group_views, crate::types::group_ty_views};

/// The bindings of the formals to the types beside them.
pub open spec fn paired(formals: Seq<Seq<char>>, types: Seq<TyView>) -> Map<Seq<char>, TyView>
    decreases formals.len(),
{
    if formals.len() == 0 || types.len() == 0 {
        Map::empty()
    } else {
        let count = if formals.len() < types.len() {
            formals.len()
        } else {
            types.len()
        };
        paired(formals.take(count - 1), types.take(count - 1)).insert(
            formals[count - 1],
            types[count - 1],
        )
    }
}

/// Bind the formals of a signature to explicit type arguments.
pub fn seeded_bindings(formals: &Vec<String>, types: &[Ty]) -> (bindings: Bindings)
    ensures
        bindings@ == paired(views(formals@), views(types@)),
{
    let mut bindings = Bindings::new();
    let count: usize = if formals.len() < types.len() {
        formals.len()
    } else {
        types.len()
    };
    let mut index: usize = 0;
    let ghost f = views(formals@);
    let ghost t = views(types@);
    while index < count
        invariant
            index <= count,
            count <= formals@.len(),
            count <= types@.len(),
            f == views(formals@),
            t == views(types@),
            bindings@ == paired(f.take(index as int), t.take(index as int)),
        decreases count - index,
    {
        bindings.insert(formals[index].as_str(), types[index].clone());
        assert(f.take(index as int + 1).take(index as int) =~= f.take(index as int));
        assert(t.take(index as int + 1).take(index as int) =~= t.take(index as int));
        index += 1;
    }
    proof {
        if count > 0 {
            assert(f.take(count as int).take(count - 1) =~= f.take(count - 1));
            assert(t.take(count as int).take(count - 1) =~= t.take(count - 1));
        }
    }
    bindings
}

/// The bindings with what was inferred for the formals that they leave open.
pub open spec fn completed(
    formals: Seq<Seq<char>>,
    bindings: Map<Seq<char>, TyView>,
    inferred: Map<Seq<char>, TyView>,
) -> Map<Seq<char>, TyView>
    decreases formals.len(),
{
    if formals.len() == 0 {
        bindings
    } else {
        let earlier = completed(formals.drop_last(), bindings, inferred);
        let formal = formals.last();
        if !earlier.contains_key(formal) && inferred.contains_key(formal) {
            earlier.insert(formal, inferred[formal])
        } else {
            earlier
        }
    }
}

/// Add what was inferred for the formals that the bindings leave open.
pub fn merge_generic_bindings(formals: &Vec<String>, bindings: &mut Bindings, inferred: &Bindings)
    ensures
        final(bindings)@ == completed(views(formals@), old(bindings)@, inferred@),
{
    let ghost before = bindings@;
    let ghost f = views(formals@);
    let mut index: usize = 0;
    while index < formals.len()
        invariant
            index <= formals@.len(),
            f == views(formals@),
            bindings@ == completed(f.take(index as int), before, inferred@),
        decreases formals@.len() - index,
    {
        let formal = formals[index].as_str();
        assert(f.take(index as int + 1).drop_last() =~= f.take(index as int));
        if !bindings.contains(formal) {
            if let Some(ty) = inferred.get(formal) {
                bindings.insert(formal, ty.clone());
            }
        }
        index += 1;
    }
    assert(f.take(index as int) =~= f);
}

/// What is bound stays bound, and only formals of the signature are added.
pub proof fn completion_keeps_bindings(
    formals: Seq<Seq<char>>,
    bindings: Map<Seq<char>, TyView>,
    inferred: Map<Seq<char>, TyView>,
    name: Seq<char>,
)
    ensures
        bindings.contains_key(name) ==> completed(formals, bindings, inferred).contains_key(name)
            && completed(formals, bindings, inferred)[name] == bindings[name],
        completed(formals, bindings, inferred).contains_key(name) ==> bindings.contains_key(name)
            || (formals.contains(name) && inferred.contains_key(name)),
    decreases formals.len(),
{
    if formals.len() > 0 {
        completion_keeps_bindings(formals.drop_last(), bindings, inferred, name);
        let formal = formals.last();
        assert(formals[formals.len() - 1] == formal);
        if formals.drop_last().contains(name) {
            let k = choose|k: int|
                0 <= k < formals.drop_last().len() && formals.drop_last()[k] == name;
            assert(formals[k] == name);
        }
    }
}

/// `ty` as an instance of the classifier `wanted`: itself, or the first of its supertypes that leads
/// there within `steps` levels of the hierarchy.
pub open spec fn applied_supertype(
    source: SymbolTable,
    ty: TyView,
    wanted: Seq<char>,
    steps: nat,
) -> Option<TyView>
    decreases steps, 1nat, 0nat,
{
    match ty {
        TyView::Obj(name, arguments) => if name == wanted {
            Some(ty)
        } else if steps == 0 {
            None
        } else {
            match source.classifier_of(name) {
                Some(shape) => among_supertypes(
                    source,
                    subst_all(shape.supertypes, paired(shape.type_params, arguments)),
                    wanted,
                    steps,
                ),
                None => None,
            }
        },
        _ => None,
    }
}

/// The first of some types that leads to the classifier `wanted`.
pub open spec fn among_supertypes(
    source: SymbolTable,
    types: Seq<TyView>,
    wanted: Seq<char>,
    steps: nat,
) -> Option<TyView>
    decreases steps, 0nat, types.len(),
{
    if types.len() == 0 || steps == 0 {
        None
    } else {
        let first = applied_supertype(source, types[0], wanted, (steps - 1) as nat);
        if first is Some {
            first
        } else {
            among_supertypes(source, types.skip(1), wanted, steps)
        }
    }
}

fn find_supertype(source: &SymbolTable, ty: &Ty, wanted: &TypeName, steps: usize) -> (found: Option<Ty>)
    ensures
        option_view(found) == applied_supertype(*source, ty@, wanted@, steps as nat),
    decreases steps,
{
    match ty {
        Ty::Obj(name, arguments) => {
            assert(ty@->Obj_1 == views(arguments@));
            if name == wanted {
                return Some(ty.clone());
            }
            if steps == 0 {
                return None;
            }
            match source.classifier(name) {
                Some(shape) => {
                    let bindings = seeded_bindings(&shape.type_params, arguments.as_slice());
                    let ghost all = subst_all(views(shape.supertypes@), bindings@);
                    let mut index: usize = 0;
                    assert(all.skip(0) =~= all);
                    while index < shape.supertypes.len()
                        invariant
                            index <= shape.supertypes@.len(),
                            steps > 0,
                            all == subst_all(views(shape.supertypes@), bindings@),
                            applied_supertype(*source, ty@, wanted@, steps as nat)
                                == among_supertypes(*source, all, wanted@, steps as nat),
                            among_supertypes(
                                *source,
                                all.skip(index as int),
                                wanted@,
                                steps as nat,
                            ) == among_supertypes(*source, all, wanted@, steps as nat),
                        decreases shape.supertypes@.len() - index,
                    {
                        let applied = ty_subst_keep_unbound(&shape.supertypes[index], &bindings);
                        assert(all.skip(index as int)[0] == applied@);
                        assert(all.skip(index as int).skip(1) =~= all.skip(index as int + 1));
                        let found = find_supertype(source, &applied, wanted, steps - 1);
                        if found.is_some() {
                            return found;
                        }
                        index += 1;
                    }
                    None
                },
                None => None,
            }
        },
        _ => None,
    }
}

/// The actual type as it meets a formal one: where both name a classifier, the supertype of the
/// actual type that instantiates the formal's classifier.
pub open spec fn seen_as(source: SymbolTable, formal: TyView, actual: TyView) -> TyView {
    match (formal.non_null(), actual.non_null()) {
        (TyView::Obj(name, _), TyView::Obj(other, _)) if name != other => match applied_supertype(
            source,
            actual.non_null(),
            name,
            source.entries@.len(),
        ) {
            Some(applied) => applied,
            None => actual,
        },
        _ => actual,
    }
}

/// Add the bindings that make a formal type read as an actual one, through its supertypes.
pub fn unify_from_symbols(source: &SymbolTable, formal: &Ty, actual: &Ty, bindings: &mut Bindings)
    ensures
        final(bindings)@ == unified(
            formal@,
            seen_as(*source, formal@, actual@),
            old(bindings)@,
        ),
{
    if let (Ty::Obj(name, _), Ty::Obj(other, _)) = (formal.non_null(), actual.non_null()) {
        if name != other {
            if let Some(applied) = find_supertype(
                source,
                actual.non_null(),
                name,
                source.entries.len(),
            ) {
                unify_inferred_ty(formal, &applied, bindings);
                return ;
            }
        }
    }
    unify_inferred_ty(formal, actual, bindings);
}

/// One piece of evidence: what a call passes to a parameter.
#[derive(Debug)]
pub struct ArgumentEvidence {
    pub parameter: usize,
    pub actual: Ty,
    /// Whether the argument is the whole array of a vararg parameter.
    pub whole_array: bool,
}

/// The model of an [`ArgumentEvidence`].
pub struct ArgumentEvidenceView {
    pub parameter: usize,
    pub actual: TyView,
    pub whole_array: bool,
}

impl View for ArgumentEvidence {
    type V = ArgumentEvidenceView;

    open spec fn view(&self) -> ArgumentEvidenceView {
        ArgumentEvidenceView {
            parameter: self.parameter,
            actual: self.actual@,
            whole_array: self.whole_array,
        }
    }
}

/// The type that an argument is held against: the parameter's, the element's for one argument of a
/// vararg parameter.
pub open spec fn argument_formal(params: Seq<TyView>, vararg: Option<usize>, evidence: ArgumentEvidenceView) -> TyView {
    let declared = params[evidence.parameter as int];
    if vararg == Some(evidence.parameter) && !evidence.whole_array {
        match declared.array_elem() {
            Some(element) => element,
            None => declared,
        }
    } else {
        declared
    }
}

/// The bindings that the arguments of a call give, from the first to the last.
pub open spec fn inferred_from_arguments(
    source: SymbolTable,
    params: Seq<TyView>,
    vararg: Option<usize>,
    evidence: Seq<ArgumentEvidenceView>,
) -> Map<Seq<char>, TyView>
    decreases evidence.len(),
{
    if evidence.len() == 0 {
        Map::empty()
    } else {
        let earlier = inferred_from_arguments(source, params, vararg, evidence.drop_last());
        let last = evidence.last();
        if last.parameter < params.len() {
            let formal = argument_formal(params, vararg, last);
            unified(formal, seen_as(source, formal, last.actual), earlier)
        } else {
            earlier
        }
    }
}

/// Infer bindings from the arguments of a call.
pub fn infer_from_arguments(
    source: &SymbolTable,
    params: &Vec<Ty>,
    vararg: Option<usize>,
    evidence: &Vec<ArgumentEvidence>,
) -> (bindings: Bindings)
    ensures
        bindings@ == inferred_from_arguments(*source, views(params@), vararg, views(evidence@)),
{
    let mut bindings = Bindings::new();
    let ghost all = views(evidence@);
    let mut index: usize = 0;
    while index < evidence.len()
        invariant
            index <= evidence@.len(),
            all == views(evidence@),
            bindings@ == inferred_from_arguments(
                *source,
                views(params@),
                vararg,
                all.take(index as int),
            ),
        decreases evidence@.len() - index,
    {
        assert(all.take(index as int + 1).drop_last() =~= all.take(index as int));
        let piece = &evidence[index];
        if piece.parameter < params.len() {
            let declared = &params[piece.parameter];
            if vararg == Some(piece.parameter) && !piece.whole_array {
                match declared.array_elem() {
                    Some(element) => {
                        unify_from_symbols(source, &element, &piece.actual, &mut bindings);
                    },
                    None => {
                        unify_from_symbols(source, declared, &piece.actual, &mut bindings);
                    },
                }
            } else {
                unify_from_symbols(source, declared, &piece.actual, &mut bindings);
            }
        }
        index += 1;
    }
    assert(all.take(index as int) =~= all);
    bindings
}

/// What is known of an argument of a call site besides its type.
#[derive(Clone, Copy, Debug)]
pub struct SourceArgument {
    /// Whether the argument is itself a generic call whose result this call may still complete.
    pub contextual: bool,
    /// Whether it is written with a spread.
    pub spread: bool,
}

/// The evidence that the argument at `place` is: none where its type is not known or is still open.
pub open spec fn evidence_at(
    argument_map: Seq<usize>,
    arg_tys: Seq<Option<Ty>>,
    arguments: Seq<SourceArgument>,
    named_whole_arrays: Seq<bool>,
    place: int,
) -> Seq<ArgumentEvidenceView> {
    if place < arguments.len() && !arguments[place].contextual {
        match arg_tys[place] {
            Some(actual) => seq![
                ArgumentEvidenceView {
                    parameter: argument_map[place],
                    actual: actual@,
                    whole_array: (place < named_whole_arrays.len() && named_whole_arrays[place])
                        || arguments[place].spread,
                },
            ],
            None => seq![],
        }
    } else {
        seq![]
    }
}

/// The evidence that the first `count` arguments give.
pub open spec fn mapped_evidence(
    argument_map: Seq<usize>,
    arg_tys: Seq<Option<Ty>>,
    arguments: Seq<SourceArgument>,
    named_whole_arrays: Seq<bool>,
    count: nat,
) -> Seq<ArgumentEvidenceView>
    decreases count,
{
    if count == 0 {
        seq![]
    } else {
        mapped_evidence(
            argument_map,
            arg_tys,
            arguments,
            named_whole_arrays,
            (count - 1) as nat,
        ) + evidence_at(argument_map, arg_tys, arguments, named_whole_arrays, count - 1)
    }
}

/// How many arguments are mapped to a parameter and have a place for their type.
pub open spec fn mapped_count(argument_map: Seq<usize>, arg_tys: Seq<Option<Ty>>) -> nat {
    if argument_map.len() <= arg_tys.len() {
        argument_map.len()
    } else {
        arg_tys.len()
    }
}

/// The evidence that the arguments of a call give for its formals, each at the parameter that it is
/// mapped to.
pub fn mapped_argument_evidence(
    argument_map: &[usize],
    arg_tys: &[Option<Ty>],
    arguments: &[SourceArgument],
    named_whole_arrays: &[bool],
) -> (evidence: Vec<ArgumentEvidence>)
    ensures
        views(evidence@) == mapped_evidence(
            argument_map@,
            arg_tys@,
            arguments@,
            named_whole_arrays@,
            mapped_count(argument_map@, arg_tys@),
        ),
{
    let mut evidence: Vec<ArgumentEvidence> = Vec::new();
    let mut index: usize = 0;
    while index < argument_map.len() && index < arg_tys.len()
        invariant
            index <= argument_map@.len(),
            index <= arg_tys@.len(),
            views(evidence@) == mapped_evidence(
                argument_map@,
                arg_tys@,
                arguments@,
                named_whole_arrays@,
                index as nat,
            ),
        decreases argument_map@.len() - index,
    {
        let ghost before = views(evidence@);
        if index < arguments.len() && !arguments[index].contextual {
            if let Some(actual) = &arg_tys[index] {
                let named: bool = index < named_whole_arrays.len() && named_whole_arrays[index];
                evidence.push(
                    ArgumentEvidence {
                        parameter: argument_map[index],
                        actual: actual.clone(),
                        whole_array: named || arguments[index].spread,
                    },
                );
            }
        }
        assert(views(evidence@) =~= before + evidence_at(
            argument_map@,
            arg_tys@,
            arguments@,
            named_whole_arrays@,
            index as int,
        ));
        index += 1;
    }
    evidence
}

/// Complete the bindings of an overload's formals with what solving the mapped arguments and the
/// receiver together gave. The two belong in one solve: a receiver that were unified by itself
/// would either fix a formal before the arguments do or be passed over after them.
pub fn merge_mapped_generic_argument_bindings(
    signature: &GenericSig,
    solved: &Bindings,
    bindings: &mut Bindings,
)
    ensures
        final(bindings)@ == completed(signature@.formals, old(bindings)@, solved@),
{
    merge_generic_bindings(&signature.formals, bindings, solved);
}

/// Solve an overload's formals: the explicit type arguments first, then what solving the mapped
/// arguments and the receiver together gave.
pub fn mapped_generic_call_bindings(
    signature: &GenericSig,
    type_args: &[Ty],
    solved: &Bindings,
) -> (bindings: Bindings)
    ensures
        bindings@ == completed(
            signature@.formals,
            paired(signature@.formals, views(type_args@)),
            solved@,
        ),
{
    let mut bindings = seeded_bindings(&signature.formals, type_args);
    merge_mapped_generic_argument_bindings(signature, solved, &mut bindings);
    bindings
}

} // verus!
