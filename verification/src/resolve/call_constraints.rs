//! Receiver-call constraints shared by extension selection and rejected-call diagnostics.

use vstd::prelude::*;

use crate::bindings::{unified, unify_inferred_ty, Bindings};
use crate::libraries::{GenericSig, GenericSigView};
use crate::resolve::generic_call_bindings::{paired, seeded_bindings};
use crate::text::views;
use crate::types::{Ty, TyView};

verus! {

broadcast use {crate::text::group_views, crate::types::group_ty_views};

/// Facts fixed by a receiver call independently of its value arguments. Rejected generic candidates
/// also use these constraints when their specialized parameter types are rendered.
#[derive(Debug)]
pub struct CallConstraints<'a> {
    pub type_args: &'a [Ty],
    pub receiver: &'a Ty,
    pub expected: Option<&'a Ty>,
}

/// What the receiver and the expected result of a call say about the formals.
pub open spec fn observed(
    signature: GenericSigView,
    receiver: TyView,
    expected: Option<TyView>,
) -> Map<Seq<char>, TyView> {
    let from_receiver = match signature.receiver {
        Some(declared) => unified(declared, receiver, Map::empty()),
        None => Map::empty(),
    };
    match expected {
        Some(wanted) => unified(signature.ret, wanted, from_receiver),
        None => from_receiver,
    }
}

/// The bindings with what was observed of the open formals, as far as it is known.
pub open spec fn with_observed(
    formals: Seq<Seq<char>>,
    bindings: Map<Seq<char>, TyView>,
    found: Map<Seq<char>, TyView>,
) -> Map<Seq<char>, TyView>
    decreases formals.len(),
{
    if formals.len() == 0 {
        bindings
    } else {
        let earlier = with_observed(formals.drop_last(), bindings, found);
        let formal = formals.last();
        if !earlier.contains_key(formal) && found.contains_key(formal)
            && !found[formal].mentions_pending() && !(found[formal] is Error) {
            earlier.insert(formal, found[formal])
        } else {
            earlier
        }
    }
}

impl<'a> CallConstraints<'a> {
    /// The bindings of the formals that a call fixes before its value arguments are looked at:
    /// explicit type arguments alone where there are any, else what the receiver and the expected
    /// result show.
    pub fn bindings(&self, signature: &GenericSig) -> (bindings: Bindings)
        ensures
            bindings@ == (if self.type_args@.len() > 0 {
                paired(signature@.formals, views(self.type_args@))
            } else {
                with_observed(
                    signature@.formals,
                    Map::empty(),
                    observed(
                        signature@,
                        self.receiver@,
                        match self.expected {
                            Some(wanted) => Some(wanted@),
                            None => None,
                        },
                    ),
                )
            }),
    {
        let mut bindings = seeded_bindings(&signature.formals, self.type_args);
        if self.type_args.len() > 0 {
            return bindings;
        }
        assert(bindings@ =~= Map::empty());
        let mut found = Bindings::new();
        if let Some(declared) = &signature.receiver {
            unify_inferred_ty(declared, self.receiver, &mut found);
        }
        if let Some(wanted) = self.expected {
            unify_inferred_ty(&signature.ret, wanted, &mut found);
        }
        let ghost formals = views(signature.formals@);
        let mut index: usize = 0;
        while index < signature.formals.len()
            invariant
                index <= signature.formals@.len(),
                formals == views(signature.formals@),
                bindings@ == with_observed(formals.take(index as int), Map::empty(), found@),
            decreases signature.formals@.len() - index,
        {
            assert(formals.take(index as int + 1).drop_last() =~= formals.take(index as int));
            let formal = signature.formals[index].as_str();
            if !bindings.contains(formal) {
                if let Some(ty) = found.get(formal) {
                    let known = match ty {
                        Ty::Error => false,
                        _ => !ty.mentions_pending(),
                    };
                    if known {
                        bindings.insert(formal, ty.clone());
                    }
                }
            }
            index += 1;
        }
        assert(formals.take(index as int) =~= formals);
        bindings
    }
}

/// What is observed binds only formals of the signature, and only to types that are known.
pub proof fn observation_binds_known_types(
    formals: Seq<Seq<char>>,
    found: Map<Seq<char>, TyView>,
    formal: Seq<char>,
)
    ensures
        with_observed(formals, Map::empty(), found).contains_key(formal) ==> {
            let ty = with_observed(formals, Map::empty(), found)[formal];
            &&& formals.contains(formal)
            &&& found.contains_key(formal)
            &&& ty == found[formal]
            &&& !ty.mentions_pending()
            &&& !(ty is Error)
        },
    decreases formals.len(),
{
    if formals.len() > 0 {
        observation_binds_known_types(formals.drop_last(), found, formal);
        if formals.drop_last().contains(formal) {
            let k = choose|k: int| 0 <= k < formals.len() - 1 && formals.drop_last()[k] == formal;
            assert(formals[k] == formal);
        }
        assert(formals[formals.len() - 1] == formals.last());
    }
}

} // verus!
