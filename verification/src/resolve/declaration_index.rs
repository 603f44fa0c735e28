//! Every declaration of the source, by its stable identity.
//!
//! A declaration that more than one record claims is no declaration of any of them: readers are
//! told so, and are not handed the one that came last.

use std::collections::{HashMap, HashSet};

use vstd::prelude::*;

use crate::fir::DeclarationId;
use crate::resolve::source_table::{
    ClassSig, ExtensionProperty, MemberProperty, Signature, SourceProperty, SourceTable,
};

verus! {

/// What a declaration of the source is.
#[derive(Debug)]
pub enum ResolvedSourceDeclaration<'symbols> {
    Function(&'symbols Signature),
    Property(&'symbols SourceProperty),
    ExtensionProperty(&'symbols ExtensionProperty),
    Classifier(&'symbols ClassSig),
    MemberProperty(&'symbols MemberProperty),
    MemberExtensionProperty(&'symbols ExtensionProperty),
}

impl<'symbols> ResolvedSourceDeclaration<'symbols> {
    /// The identity that the record carries.
    pub open spec fn identity(self) -> Option<DeclarationId> {
        match self {
            ResolvedSourceDeclaration::Function(signature) => signature.origin.stable_declaration,
            ResolvedSourceDeclaration::Property(property) => property.origin.stable_declaration,
            ResolvedSourceDeclaration::ExtensionProperty(property) => {
                property.origin.stable_declaration
            },
            ResolvedSourceDeclaration::Classifier(class) => class.origin.stable_declaration,
            ResolvedSourceDeclaration::MemberProperty(property) => {
                property.origin.stable_declaration
            },
            ResolvedSourceDeclaration::MemberExtensionProperty(property) => {
                property.origin.stable_declaration
            },
        }
    }
}

/// The records among `records` that claim the identity `id`.
pub open spec fn claimants<'symbols>(
    records: Seq<ResolvedSourceDeclaration<'symbols>>,
    id: DeclarationId,
) -> Seq<ResolvedSourceDeclaration<'symbols>>
    decreases records.len(),
{
    if records.len() == 0 {
        seq![]
    } else {
        let rest = claimants(records.drop_last(), id);
        if records.last().identity() == Some(id) {
            rest.push(records.last())
        } else {
            rest
        }
    }
}

/// Functions as records.
pub open spec fn functions<'symbols>(signatures: Seq<Signature>) -> Seq<
    ResolvedSourceDeclaration<'symbols>,
> {
    Seq::new(
        signatures.len(),
        |k: int| ResolvedSourceDeclaration::Function(&signatures[k]),
    )
}

/// The records of a class and its members.
pub open spec fn class_records<'symbols>(class: ClassSig) -> Seq<
    ResolvedSourceDeclaration<'symbols>,
> {
    seq![ResolvedSourceDeclaration::Classifier(&class)] + functions(class.methods@) + functions(
        class.member_ext_funs@,
    ) + Seq::new(
        class.declared_props@.len(),
        |k: int| ResolvedSourceDeclaration::MemberProperty(&class.declared_props@[k]),
    ) + Seq::new(
        class.member_ext_props@.len(),
        |k: int| ResolvedSourceDeclaration::MemberExtensionProperty(&class.member_ext_props@[k]),
    )
}

/// The records of some classes and their members.
pub open spec fn classes_records<'symbols>(classes: Seq<ClassSig>) -> Seq<
    ResolvedSourceDeclaration<'symbols>,
>
    decreases classes.len(),
{
    if classes.len() == 0 {
        seq![]
    } else {
        classes_records(classes.drop_last()) + class_records(classes.last())
    }
}

/// Every record of a table.
pub open spec fn table_records<'symbols>(table: SourceTable) -> Seq<
    ResolvedSourceDeclaration<'symbols>,
> {
    functions(table.funs@) + functions(table.ext_funs@) + Seq::new(
        table.source_props@.len(),
        |k: int| ResolvedSourceDeclaration::Property(&table.source_props@[k]),
    ) + Seq::new(
        table.ext_props@.len(),
        |k: int| ResolvedSourceDeclaration::ExtensionProperty(&table.ext_props@[k]),
    ) + classes_records(table.classes@)
}

/// The declarations of the source by their identity.
#[derive(Debug)]
pub struct ResolvedSourceDeclarations<'symbols> {
    pub by_identity: HashMap<DeclarationId, ResolvedSourceDeclaration<'symbols>>,
    /// The identities that more than one record claims.
    pub conflicted: HashSet<DeclarationId>,
}

impl<'symbols> ResolvedSourceDeclarations<'symbols> {
    /// Whether this is the index of `records`.
    pub open spec fn indexes(self, records: Seq<ResolvedSourceDeclaration<'symbols>>) -> bool {
        &&& forall|id: DeclarationId|
            (#[trigger] self.by_identity@.contains_key(id)) == (claimants(records, id).len() > 0)
        &&& forall|id: DeclarationId| #[trigger]
            self.by_identity@.contains_key(id) ==> self.by_identity@[id] == claimants(
                records,
                id,
            ).last()
        &&& forall|id: DeclarationId|
            (#[trigger] self.conflicted@.contains(id)) == (claimants(records, id).len() > 1)
    }

    /// What the declaration `id` is: nothing where nothing, or more than one record, claims it.
    pub open spec fn answer(self, id: DeclarationId) -> Option<
        ResolvedSourceDeclaration<'symbols>,
    > {
        if !self.conflicted@.contains(id) && self.by_identity@.contains_key(id) {
            Some(self.by_identity@[id])
        } else {
            None
        }
    }

    /// Index every record of a table.
    pub fn publish(symbols: &'symbols SourceTable) -> (index: Self)
        ensures
            index.indexes(table_records(*symbols)),
    {
        let mut index = ResolvedSourceDeclarations {
            by_identity: HashMap::new(),
            conflicted: HashSet::new(),
        };
        let ghost none = Seq::<ResolvedSourceDeclaration<'symbols>>::empty();
        assert(index.indexes(none));
        index.enter_functions(&symbols.funs, Ghost(none));
        let ghost before = none + functions(symbols.funs@);
        index.enter_functions(&symbols.ext_funs, Ghost(before));
        let ghost before = before + functions(symbols.ext_funs@);
        let ghost listed: Seq<ResolvedSourceDeclaration<'symbols>> = Seq::new(
            symbols.source_props@.len(),
            |k: int| ResolvedSourceDeclaration::Property(&symbols.source_props@[k]),
        );
        let mut next: usize = 0;
        assert(before + listed.take(0) =~= before);
        while next < symbols.source_props.len()
            invariant
                next <= symbols.source_props@.len(),
                listed.len() == symbols.source_props@.len(),
                forall|k: int|
                    0 <= k < listed.len() ==> #[trigger] listed[k]
                        == ResolvedSourceDeclaration::Property(&symbols.source_props@[k]),
                index.indexes(before + listed.take(next as int)),
            decreases symbols.source_props@.len() - next,
        {
            let property = &symbols.source_props[next];
            index.enter(
                property.origin.stable_declaration,
                ResolvedSourceDeclaration::Property(property),
                Ghost(before + listed.take(next as int)),
            );
            assert((before + listed.take(next as int)).push(listed[next as int]) =~= before
                + listed.take(next as int + 1));
            next += 1;
        }
        assert(listed.take(next as int) =~= listed);
        let ghost before = before + listed;
        let ghost listed: Seq<ResolvedSourceDeclaration<'symbols>> = Seq::new(
            symbols.ext_props@.len(),
            |k: int| ResolvedSourceDeclaration::ExtensionProperty(&symbols.ext_props@[k]),
        );
        let mut next: usize = 0;
        assert(before + listed.take(0) =~= before);
        while next < symbols.ext_props.len()
            invariant
                next <= symbols.ext_props@.len(),
                listed.len() == symbols.ext_props@.len(),
                forall|k: int|
                    0 <= k < listed.len() ==> #[trigger] listed[k]
                        == ResolvedSourceDeclaration::ExtensionProperty(&symbols.ext_props@[k]),
                index.indexes(before + listed.take(next as int)),
            decreases symbols.ext_props@.len() - next,
        {
            let property = &symbols.ext_props[next];
            index.enter(
                property.origin.stable_declaration,
                ResolvedSourceDeclaration::ExtensionProperty(property),
                Ghost(before + listed.take(next as int)),
            );
            assert((before + listed.take(next as int)).push(listed[next as int]) =~= before
                + listed.take(next as int + 1));
            next += 1;
        }
        assert(listed.take(next as int) =~= listed);
        let ghost before = before + listed;
        let mut next: usize = 0;
        assert(before + classes_records::<'symbols>(symbols.classes@.take(0)) =~= before);
        while next < symbols.classes.len()
            invariant
                next <= symbols.classes@.len(),
                index.indexes(before + classes_records(symbols.classes@.take(next as int))),
            decreases symbols.classes@.len() - next,
        {
            let ghost seen = before + classes_records::<'symbols>(
                symbols.classes@.take(next as int),
            );
            index.enter_class(&symbols.classes[next], Ghost(seen));
            proof {
                assert(symbols.classes@.take(next as int + 1).drop_last() =~= symbols.classes@.take(
                    next as int,
                ));
                assert(seen + class_records::<'symbols>(symbols.classes@[next as int]) =~= before
                    + classes_records::<'symbols>(symbols.classes@.take(next as int + 1)));
            }
            next += 1;
        }
        assert(symbols.classes@.take(next as int) =~= symbols.classes@);
        assert(before + classes_records::<'symbols>(symbols.classes@) =~= table_records::<'symbols>(
            *symbols,
        ));
        index
    }

    fn enter_functions(
        &mut self,
        signatures: &'symbols Vec<Signature>,
        Ghost(before): Ghost<Seq<ResolvedSourceDeclaration<'symbols>>>,
    )
        requires
            old(self).indexes(before),
        ensures
            final(self).indexes(before + functions(signatures@)),
    {
        let ghost listed = functions::<'symbols>(signatures@);
        let mut next: usize = 0;
        assert(before + listed.take(0) =~= before);
        while next < signatures.len()
            invariant
                next <= signatures@.len(),
                listed == functions::<'symbols>(signatures@),
                self.indexes(before + listed.take(next as int)),
            decreases signatures@.len() - next,
        {
            let signature = &signatures[next];
            self.enter(
                signature.origin.stable_declaration,
                ResolvedSourceDeclaration::Function(signature),
                Ghost(before + listed.take(next as int)),
            );
            assert((before + listed.take(next as int)).push(listed[next as int]) =~= before
                + listed.take(next as int + 1));
            next += 1;
        }
        assert(listed.take(next as int) =~= listed);
    }

    fn enter_class(
        &mut self,
        class: &'symbols ClassSig,
        Ghost(before): Ghost<Seq<ResolvedSourceDeclaration<'symbols>>>,
    )
        requires
            old(self).indexes(before),
        ensures
            final(self).indexes(before + class_records(*class)),
    {
        let ghost start = before;
        self.enter(
            class.origin.stable_declaration,
            ResolvedSourceDeclaration::Classifier(class),
            Ghost(before),
        );
        let ghost before = before.push(ResolvedSourceDeclaration::Classifier(class));
        self.enter_functions(&class.methods, Ghost(before));
        let ghost before = before + functions(class.methods@);
        self.enter_functions(&class.member_ext_funs, Ghost(before));
        let ghost before = before + functions(class.member_ext_funs@);
        let ghost listed: Seq<ResolvedSourceDeclaration<'symbols>> = Seq::new(
            class.declared_props@.len(),
            |k: int| ResolvedSourceDeclaration::MemberProperty(&class.declared_props@[k]),
        );
        let mut next: usize = 0;
        assert(before + listed.take(0) =~= before);
        while next < class.declared_props.len()
            invariant
                next <= class.declared_props@.len(),
                listed.len() == class.declared_props@.len(),
                forall|k: int|
                    0 <= k < listed.len() ==> #[trigger] listed[k]
                        == ResolvedSourceDeclaration::MemberProperty(&class.declared_props@[k]),
                self.indexes(before + listed.take(next as int)),
            decreases class.declared_props@.len() - next,
        {
            let property = &class.declared_props[next];
            self.enter(
                property.origin.stable_declaration,
                ResolvedSourceDeclaration::MemberProperty(property),
                Ghost(before + listed.take(next as int)),
            );
            assert((before + listed.take(next as int)).push(listed[next as int]) =~= before
                + listed.take(next as int + 1));
            next += 1;
        }
        assert(listed.take(next as int) =~= listed);
        let ghost before = before + listed;
        let ghost listed: Seq<ResolvedSourceDeclaration<'symbols>> = Seq::new(
            class.member_ext_props@.len(),
            |k: int|
                ResolvedSourceDeclaration::MemberExtensionProperty(&class.member_ext_props@[k]),
        );
        let mut next: usize = 0;
        assert(before + listed.take(0) =~= before);
        while next < class.member_ext_props.len()
            invariant
                next <= class.member_ext_props@.len(),
                listed.len() == class.member_ext_props@.len(),
                forall|k: int|
                    0 <= k < listed.len() ==> #[trigger] listed[k]
                        == ResolvedSourceDeclaration::MemberExtensionProperty(
                        &class.member_ext_props@[k],
                    ),
                self.indexes(before + listed.take(next as int)),
            decreases class.member_ext_props@.len() - next,
        {
            let property = &class.member_ext_props[next];
            self.enter(
                property.origin.stable_declaration,
                ResolvedSourceDeclaration::MemberExtensionProperty(property),
                Ghost(before + listed.take(next as int)),
            );
            assert((before + listed.take(next as int)).push(listed[next as int]) =~= before
                + listed.take(next as int + 1));
            next += 1;
        }
        assert(listed.take(next as int) =~= listed);
        assert(before + listed =~= start + class_records::<'symbols>(*class));
    }

    /// Enter a record under the identity that it carries. One without an identity belongs to no
    /// declaration.
    fn enter(
        &mut self,
        declaration: Option<DeclarationId>,
        resolved: ResolvedSourceDeclaration<'symbols>,
        Ghost(before): Ghost<Seq<ResolvedSourceDeclaration<'symbols>>>,
    )
        requires
            old(self).indexes(before),
            declaration == resolved.identity(),
        ensures
            final(self).indexes(before.push(resolved)),
    {
        assert(before.push(resolved).drop_last() =~= before);
        let declaration: DeclarationId = match declaration {
            Some(declaration) => declaration,
            None => {
                return;
            },
        };
        if self.by_identity.contains_key(&declaration) {
            self.conflicted.insert(declaration);
        }
        self.by_identity.insert(declaration, resolved);
    }

    /// What the declaration is, where one record alone claims it.
    pub fn get(&self, declaration: DeclarationId) -> (found: Option<
        &ResolvedSourceDeclaration<'symbols>,
    >)
        ensures
            self.answer(declaration) == match found {
                Some(resolved) => Some(*resolved),
                None => None,
            },
    {
        if self.conflicted.contains(&declaration) {
            return None;
        }
        self.by_identity.get(&declaration)
    }

    /// Whether more than one record claims the declaration.
    pub fn is_conflicted(&self, declaration: DeclarationId) -> (yes: bool)
        ensures
            yes == self.conflicted@.contains(declaration),
    {
        self.conflicted.contains(&declaration)
    }
}

/// A declaration is answered where exactly one record claims it, and the answer is that record; an
/// identity that several records claim is told apart from one that nothing claims.
pub proof fn an_answer_is_the_only_claim<'symbols>(
    index: ResolvedSourceDeclarations<'symbols>,
    records: Seq<ResolvedSourceDeclaration<'symbols>>,
    id: DeclarationId,
)
    requires
        index.indexes(records),
    ensures
        index.answer(id) == if claimants(records, id).len() == 1 {
            Some(claimants(records, id)[0])
        } else {
            None
        },
        index.conflicted@.contains(id) == (claimants(records, id).len() > 1),
{
    assert(index.by_identity@.contains_key(id) == (claimants(records, id).len() > 0));
    assert(index.conflicted@.contains(id) == (claimants(records, id).len() > 1));
}

/// The class with the stable identity `declaration`.
pub open spec fn class_declared(classes: Seq<ClassSig>, declaration: DeclarationId) -> Option<
    ClassSig,
>
    decreases classes.len(),
{
    if classes.len() == 0 {
        None
    } else if classes[0].origin.stable_declaration == Some(declaration) {
        Some(classes[0])
    } else {
        class_declared(classes.skip(1), declaration)
    }
}

impl SourceTable {
    /// The class with the stable identity `declaration`.
    pub fn class_by_stable_declaration(&self, declaration: DeclarationId) -> (found: Option<
        &ClassSig,
    >)
        ensures
            class_declared(self.classes@, declaration) == match found {
                Some(class) => Some(*class),
                None => None,
            },
    {
        let mut next: usize = 0;
        assert(self.classes@.skip(0) =~= self.classes@);
        while next < self.classes.len()
            invariant
                next <= self.classes@.len(),
                class_declared(self.classes@.skip(next as int), declaration) == class_declared(
                    self.classes@,
                    declaration,
                ),
            decreases self.classes@.len() - next,
        {
            assert(self.classes@.skip(next as int).skip(1) =~= self.classes@.skip(
                next as int + 1,
            ));
            if self.classes[next].origin.stable_declaration == Some(declaration) {
                return Some(&self.classes[next]);
            }
            next += 1;
        }
        None
    }
}

} // verus!
