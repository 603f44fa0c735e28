//! What is settled about the declarations of a module, by their stable identity.

use std::collections::HashMap;

use vstd::prelude::*;

use crate::libraries::LibConst;
use crate::model::Modelled;
use crate::text::views;
use crate::types::{copy_tys, same_tys, Ty, TyView};

verus! {

broadcast use {
    crate::text::group_views,
    crate::types::group_ty_views,
};

/// The stable identity of a declaration.
pub type DeclarationId = u32;

/// The identity of a settled property.
pub type PropertyId = u32;

/// The identity of a contract.
pub type ContractId = u32;

/// The settled signature of a callable.
#[derive(Debug)]
pub struct ResolvedSignature {
    pub result: Ty,
    pub parameters: Vec<Ty>,
}

/// What else is settled about a property.
#[derive(Debug)]
pub struct ResolvedProperty {
    pub storage_type: Option<Ty>,
    pub extension_receiver: Option<Ty>,
}

/// The settled direct parents of a classifier.
#[derive(Debug)]
pub struct ClassifierHeader {
    pub superclass: Option<Ty>,
    pub interfaces: Vec<Ty>,
}

/// Which checks of visibility a declaration leaves out.
#[derive(Clone, Copy, Debug, PartialEq, Eq, Structural)]
pub struct VisibilitySuppression {
    pub invisible_reference: bool,
    pub invisible_member: bool,
}

impl View for VisibilitySuppression {
    type V = VisibilitySuppression;

    open spec fn view(&self) -> VisibilitySuppression {
        *self
    }
}

impl Modelled for VisibilitySuppression {
    fn duplicate(&self) -> (copy: Self) {
        *self
    }

    fn same(&self, other: &Self) -> (same: bool) {
        *self == *other
    }
}

/// The ancestors of a classifier with their arguments.
#[derive(Debug)]
pub struct AppliedHierarchy {
    pub ancestors: Vec<Ty>,
}

impl View for AppliedHierarchy {
    type V = Seq<TyView>;

    open spec fn view(&self) -> Seq<TyView> {
        views(self.ancestors@)
    }
}

impl Modelled for AppliedHierarchy {
    fn duplicate(&self) -> (copy: Self) {
        AppliedHierarchy { ancestors: copy_tys(self.ancestors.as_slice()) }
    }

    fn same(&self, other: &Self) -> (same: bool) {
        same_tys(&self.ancestors, &other.ancestors)
    }
}

/// The settled facts of a module.
#[derive(Debug)]
pub struct ResolvedModuleIndex {
    pub signatures: HashMap<DeclarationId, ResolvedSignature>,
    pub contracts: HashMap<DeclarationId, ContractId>,
    pub classifier_headers: HashMap<DeclarationId, ClassifierHeader>,
    pub declared_properties: HashMap<DeclarationId, PropertyId>,
    pub properties: HashMap<PropertyId, ResolvedProperty>,
    pub classifier_hierarchies: HashMap<DeclarationId, AppliedHierarchy>,
    pub declaration_spellings: HashMap<DeclarationId, String>,
    pub visibility_suppressions: HashMap<DeclarationId, VisibilitySuppression>,
    pub compile_time_constants: HashMap<DeclarationId, LibConst>,
}

impl ResolvedModuleIndex {
    /// The settled signature of a declaration.
    pub open spec fn signature_of(self, declaration: Option<DeclarationId>) -> Option<
        ResolvedSignature,
    > {
        match declaration {
            Some(id) if self.signatures@.contains_key(id) => Some(self.signatures@[id]),
            _ => None,
        }
    }

    /// The settled property of a declaration.
    pub open spec fn property_of(self, declaration: Option<DeclarationId>) -> Option<
        ResolvedProperty,
    > {
        match declaration {
            Some(id) if self.declared_properties@.contains_key(id)
                && self.properties@.contains_key(self.declared_properties@[id]) => Some(
                self.properties@[self.declared_properties@[id]],
            ),
            _ => None,
        }
    }

    /// The settled parents of a classifier.
    pub open spec fn header_of(self, declaration: Option<DeclarationId>) -> Option<
        ClassifierHeader,
    > {
        match declaration {
            Some(id) if self.classifier_headers@.contains_key(id) => Some(
                self.classifier_headers@[id],
            ),
            _ => None,
        }
    }

    /// The contract of a declaration.
    pub open spec fn contract_of(self, declaration: Option<DeclarationId>) -> Option<ContractId> {
        match declaration {
            Some(id) if self.contracts@.contains_key(id) => Some(self.contracts@[id]),
            _ => None,
        }
    }

    pub fn signature(&self, declaration: Option<DeclarationId>) -> (found: Option<
        &ResolvedSignature,
    >)
        ensures
            self.signature_of(declaration) == match found {
                Some(signature) => Some(*signature),
                None => None,
            },
    {
        match declaration {
            Some(id) => self.signatures.get(&id),
            None => None,
        }
    }

    pub fn property(&self, declaration: Option<DeclarationId>) -> (found: Option<&ResolvedProperty>)
        ensures
            self.property_of(declaration) == match found {
                Some(property) => Some(*property),
                None => None,
            },
    {
        match declaration {
            Some(id) => match self.declared_properties.get(&id) {
                Some(property) => self.properties.get(property),
                None => None,
            },
            None => None,
        }
    }

    pub fn classifier_header(&self, declaration: Option<DeclarationId>) -> (found: Option<
        &ClassifierHeader,
    >)
        ensures
            self.header_of(declaration) == match found {
                Some(header) => Some(*header),
                None => None,
            },
    {
        match declaration {
            Some(id) => self.classifier_headers.get(&id),
            None => None,
        }
    }

    pub fn contract(&self, declaration: Option<DeclarationId>) -> (found: Option<ContractId>)
        ensures
            found == self.contract_of(declaration),
    {
        match declaration {
            Some(id) => match self.contracts.get(&id) {
                Some(contract) => Some(*contract),
                None => None,
            },
            None => None,
        }
    }

    /// Whether every settled parent is of a kind that a parent can be: a superclass is a
    /// classifier, and an interface a classifier or a function type.
    pub open spec fn parents_settled(self) -> bool {
        forall|id: DeclarationId| #[trigger]
            self.classifier_headers@.contains_key(id) ==> {
                let header = self.classifier_headers@[id];
                &&& header.superclass matches Some(parent) ==> parent@ is Obj
                &&& forall|k: int|
                    0 <= k < header.interfaces@.len() ==> #[trigger] header.interfaces@[k]@ is Obj
                        || header.interfaces@[k]@ is Fun
            }
    }
}

} // verus!
