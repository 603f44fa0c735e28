//! The declarations of a file and what is recorded about them.

use std::collections::{HashMap, HashSet};

use vstd::prelude::*;

use crate::ir::annotations::{DeclarationAnnotations, FieldAnnotations};
use crate::ir::expr::{ClassId, ExprId, FunId, IrConst, IrExpr};
use crate::ir::generated::{IrGeneratedDeclarationDebug, IrGeneratedMemberPublication};
use crate::ir::tree::{grounded, tree, IrTree};
use crate::kt_string::KtString;
use crate::libraries::Visibility;
use crate::names::{qualified, TypeName};
use crate::text::{option_view, views};
use crate::types::{Ty, TyView};

verus! {

broadcast use {crate::text::group_views, crate::types::group_ty_views};

/// A backing field.
#[derive(Debug)]
pub struct IrField {
    pub name: String,
    pub ty: Ty,
    /// The constant that the field starts with, where it has one.
    pub default: Option<IrConst>,
    pub lateinit: bool,
}

impl IrField {
    pub fn new(name: String, ty: Ty) -> (field: Self)
        ensures
            field == (IrField { name, ty, default: None, lateinit: false }),
    {
        IrField { name, ty, default: None, lateinit: false }
    }
}

/// A property.
#[derive(Debug)]
pub struct IrProperty {
    pub ty: Ty,
    pub annotations: Vec<TypeName>,
    pub backing_field: Option<u32>,
}

/// A parameter of a primary constructor.
#[derive(Debug)]
pub struct IrCtorArg {
    pub ty: Ty,
    pub declared_ty: Option<Ty>,
    pub is_field: bool,
    pub field_index: Option<u32>,
    pub has_default: bool,
}

/// An entry of an enum.
#[derive(Debug)]
pub struct IrEnumEntry {
    pub name: String,
    pub args: Vec<ExprId>,
    pub decl_line: u32,
    pub subclass: Option<ClassId>,
}

/// What a secondary constructor calls first.
#[derive(Debug)]
pub enum CtorDelegateTarget {
    This {
        target_params: Vec<Ty>,
    },
    Super {
        owner: TypeName,
        target_params: Vec<Ty>,
        to_primary: bool,
    },
}

/// A secondary constructor.
#[derive(Debug)]
pub struct IrSecondaryCtor {
    pub source_order: u32,
    pub prefix_params: Vec<Ty>,
    pub vararg_index: Option<usize>,
    pub params: Vec<Ty>,
    pub named_params: Vec<(String, Ty)>,
    pub metadata_visibility: Option<Visibility>,
    pub generated_debug: IrGeneratedDeclarationDebug,
    pub defaults: Vec<Option<ExprId>>,
    /// What runs before the delegated constructor.
    pub delegate_prelude: Vec<ExprId>,
    pub delegate_args: Vec<ExprId>,
    pub delegate: CtorDelegateTarget,
    pub body: Option<ExprId>,
    pub synthetic: bool,
    /// Whether a parameter is a boxed value class.
    pub vc_params: bool,
}

/// A class.
#[derive(Debug)]
pub struct IrClass {
    pub name: TypeName,
    /// The qualified name in the source, where common lowering recorded one.
    pub source_name: Option<KtString>,
    pub superclass: TypeName,
    pub is_object: bool,
    pub is_interface: bool,
    pub is_abstract: bool,
    pub is_sealed: bool,
    pub is_value: bool,
    pub type_params: Vec<String>,
    pub captured_type_params: Vec<String>,
    pub enum_entries: Vec<IrEnumEntry>,
    pub fields: Vec<IrField>,
    pub properties: Vec<IrProperty>,
    pub methods: Vec<FunId>,
    pub companion_class: Option<ClassId>,
    pub has_primary_ctor: bool,
    pub constructor_prefix_count: usize,
    pub ctor_param_count: usize,
    pub ctor_args: Vec<IrCtorArg>,
    pub secondary_ctors: Vec<IrSecondaryCtor>,
    pub applied_annotations: DeclarationAnnotations,
    pub field_annotations: Vec<FieldAnnotations>,
    /// The line on which the declaration begins, annotations included; 0 where it is unknown.
    pub decl_start_line: u32,
    /// The line of the declaration keyword; 0 where it is unknown.
    pub decl_line: u32,
}

impl IrClass {
    /// A class with nothing in it.
    pub fn named(path: &str) -> (class: IrClass)
        ensures
            class.name@ == path@,
            class.source_name is None,
            class.superclass@ == "kotlin/Any"@,
            !class.is_object && !class.is_interface && !class.is_abstract && !class.is_sealed,
            !class.is_value,
            class.type_params@ == Seq::<String>::empty(),
            class.captured_type_params@ == Seq::<String>::empty(),
            class.enum_entries@ == Seq::<IrEnumEntry>::empty(),
            class.fields@ == Seq::<IrField>::empty(),
            class.properties@ == Seq::<IrProperty>::empty(),
            class.methods@ == Seq::<FunId>::empty(),
            class.companion_class is None,
            !class.has_primary_ctor,
            class.constructor_prefix_count == 0,
            class.ctor_param_count == 0,
            class.ctor_args@ == Seq::<IrCtorArg>::empty(),
            class.secondary_ctors@ == Seq::<IrSecondaryCtor>::empty(),
            class.applied_annotations@.len() == 0,
            class.field_annotations@ == Seq::<FieldAnnotations>::empty(),
            class.decl_start_line == 0,
            class.decl_line == 0,
    {
        IrClass {
            name: qualified(path),
            source_name: None,
            superclass: qualified("kotlin/Any"),
            is_object: false,
            is_interface: false,
            is_abstract: false,
            is_sealed: false,
            is_value: false,
            type_params: Vec::new(),
            captured_type_params: Vec::new(),
            enum_entries: Vec::new(),
            fields: Vec::new(),
            properties: Vec::new(),
            methods: Vec::new(),
            companion_class: None,
            has_primary_ctor: false,
            constructor_prefix_count: 0,
            ctor_param_count: 0,
            ctor_args: Vec::new(),
            secondary_ctors: Vec::new(),
            applied_annotations: DeclarationAnnotations::default(),
            field_annotations: Vec::new(),
            decl_start_line: 0,
            decl_line: 0,
        }
    }
}

/// A function.
#[derive(Debug)]
pub struct IrFunction {
    pub name: String,
    pub params: Vec<Ty>,
    pub ret: Ty,
    pub body: Option<ExprId>,
    pub is_static: bool,
    pub dispatch_receiver: Option<TypeName>,
    /// For each parameter, the name under which a null argument is rejected on entry.
    pub param_checks: Vec<Option<String>>,
}

/// The model of a function.
#[verifier::ext_equal]
pub struct IrFunctionView {
    pub name: Seq<char>,
    pub params: Seq<TyView>,
    pub ret: TyView,
    pub body: Option<ExprId>,
    pub is_static: bool,
    pub dispatch_receiver: Option<Seq<char>>,
    pub param_checks: Seq<Option<Seq<char>>>,
}

impl View for IrFunction {
    type V = IrFunctionView;

    open spec fn view(&self) -> IrFunctionView {
        IrFunctionView {
            name: self.name@,
            params: views(self.params@),
            ret: self.ret@,
            body: self.body,
            is_static: self.is_static,
            dispatch_receiver: option_view(self.dispatch_receiver),
            param_checks: Seq::new(
                self.param_checks@.len(),
                |k: int| option_view(self.param_checks@[k]),
            ),
        }
    }
}

/// A static field.
#[derive(Debug)]
pub struct IrStatic {
    pub name: String,
    pub ty: Ty,
    pub init: ExprId,
    pub is_var: bool,
    pub is_const: bool,
    pub owner: Option<TypeName>,
    pub visibility: Visibility,
    pub custom_accessor: bool,
    pub line: u32,
    pub source_order: u32,
}

/// The model of a static field.
#[verifier::ext_equal]
pub struct IrStaticView {
    pub name: Seq<char>,
    pub ty: TyView,
    pub init: ExprId,
    pub is_var: bool,
    pub is_const: bool,
    pub owner: Option<Seq<char>>,
    pub visibility: Visibility,
    pub custom_accessor: bool,
    pub line: u32,
    pub source_order: u32,
}

impl View for IrStatic {
    type V = IrStaticView;

    open spec fn view(&self) -> IrStaticView {
        IrStaticView {
            name: self.name@,
            ty: self.ty@,
            init: self.init,
            is_var: self.is_var,
            is_const: self.is_const,
            owner: option_view(self.owner),
            visibility: self.visibility,
            custom_accessor: self.custom_accessor,
            line: self.line,
            source_order: self.source_order,
        }
    }
}

/// Why a secondary constructor was generated.
#[derive(Clone, Copy, Debug, PartialEq, Eq, Structural)]
pub enum IrSecondaryConstructorRole {
    SerializationDeserialization,
    DefaultArguments,
}

/// A generated secondary constructor, by its position in its class.
#[derive(Clone, Copy, Debug, PartialEq, Eq, Structural)]
pub struct GeneratedConstructor {
    pub class: ClassId,
    pub role: IrSecondaryConstructorRole,
    pub ordinal: usize,
}

/// A checked property and where it is kept.
#[derive(Debug)]
pub struct CheckedProperty {
    pub initializer: Option<ExprId>,
    /// The class and the backing field, where it is a member property that has one.
    pub member: Option<(ClassId, u32)>,
}

/// A file of the intermediate representation.
#[derive(Debug)]
pub struct IrFile {
    pub exprs: Vec<IrExpr>,
    pub classes: Vec<IrClass>,
    pub functions: Vec<IrFunction>,
    pub statics: Vec<IrStatic>,
    /// Value classes of other files, each with its underlying type.
    pub external_value_classes: Vec<(TypeName, Ty)>,
    /// The semantic names of the type parameters of generic classes.
    pub class_signatures: Vec<(TypeName, Vec<String>)>,
    /// The defaults of the primary constructor parameters of classes.
    pub class_ctor_defaults: Vec<(TypeName, Vec<Option<ExprId>>)>,
    pub checked_properties: Vec<CheckedProperty>,
    /// The declaration line of properties, by owner and name.
    pub prop_decl_lines: Vec<(TypeName, String, u32)>,
    pub generated_constructors: Vec<GeneratedConstructor>,
    pub generated_constructor_calls: Vec<(ExprId, GeneratedConstructor)>,
    pub generated_members: Vec<(TypeName, IrGeneratedMemberPublication)>,
    pub function_annotations: HashMap<FunId, DeclarationAnnotations>,
    pub synthetic_statics: HashSet<usize>,
    pub synthetic_methods: HashSet<FunId>,
    pub private_methods: HashSet<FunId>,
    pub open_methods: HashSet<FunId>,
    pub bridge_methods: HashSet<FunId>,
    pub expr_lines: HashMap<ExprId, u32>,
    pub expr_source_lines: HashMap<ExprId, u32>,
    pub fn_close_lines: HashMap<FunId, u32>,
    pub fn_decl_lines: HashMap<FunId, u32>,
    pub fn_sig_lines: HashMap<FunId, u32>,
    pub fn_source_order: HashMap<FunId, u32>,
    /// The declared type of expressions whose target representation differs from it.
    pub logical_types: HashMap<ExprId, Ty>,
    /// The representation of expressions whose declared type differs from it.
    pub physical_types: HashMap<ExprId, Ty>,
}

impl Default for IrFile {
    fn default() -> (file: Self)
        ensures
            file.exprs@ == Seq::<IrExpr>::empty(),
            file.classes@ == Seq::<IrClass>::empty(),
            file.functions@ == Seq::<IrFunction>::empty(),
            file.statics@ == Seq::<IrStatic>::empty(),
            file.external_value_classes@ == Seq::<(TypeName, Ty)>::empty(),
            file.class_signatures@ == Seq::<(TypeName, Vec<String>)>::empty(),
            file.class_ctor_defaults@ == Seq::<(TypeName, Vec<Option<ExprId>>)>::empty(),
            file.checked_properties@ == Seq::<CheckedProperty>::empty(),
            file.prop_decl_lines@ == Seq::<(TypeName, String, u32)>::empty(),
            file.generated_constructors@ == Seq::<GeneratedConstructor>::empty(),
            file.generated_constructor_calls@ == Seq::<(ExprId, GeneratedConstructor)>::empty(),
            file.generated_members@ == Seq::<(TypeName, IrGeneratedMemberPublication)>::empty(),
            file.function_annotations@ == Map::<FunId, DeclarationAnnotations>::empty(),
            file.synthetic_statics@ == Set::<usize>::empty(),
            file.synthetic_methods@ == Set::<FunId>::empty(),
            file.private_methods@ == Set::<FunId>::empty(),
            file.open_methods@ == Set::<FunId>::empty(),
            file.bridge_methods@ == Set::<FunId>::empty(),
            file.expr_lines@ == Map::<ExprId, u32>::empty(),
            file.expr_source_lines@ == Map::<ExprId, u32>::empty(),
            file.fn_close_lines@ == Map::<FunId, u32>::empty(),
            file.fn_decl_lines@ == Map::<FunId, u32>::empty(),
            file.fn_sig_lines@ == Map::<FunId, u32>::empty(),
            file.fn_source_order@ == Map::<FunId, u32>::empty(),
            file.logical_types@ == Map::<ExprId, Ty>::empty(),
            file.physical_types@ == Map::<ExprId, Ty>::empty(),
    {
        IrFile {
            exprs: Vec::new(),
            classes: Vec::new(),
            functions: Vec::new(),
            statics: Vec::new(),
            external_value_classes: Vec::new(),
            class_signatures: Vec::new(),
            class_ctor_defaults: Vec::new(),
            checked_properties: Vec::new(),
            prop_decl_lines: Vec::new(),
            generated_constructors: Vec::new(),
            generated_constructor_calls: Vec::new(),
            generated_members: Vec::new(),
            function_annotations: HashMap::new(),
            synthetic_statics: HashSet::new(),
            synthetic_methods: HashSet::new(),
            private_methods: HashSet::new(),
            open_methods: HashSet::new(),
            bridge_methods: HashSet::new(),
            expr_lines: HashMap::new(),
            expr_source_lines: HashMap::new(),
            fn_close_lines: HashMap::new(),
            fn_decl_lines: HashMap::new(),
            fn_sig_lines: HashMap::new(),
            fn_source_order: HashMap::new(),
            logical_types: HashMap::new(),
            physical_types: HashMap::new(),
        }
    }
}

/// Whether `after` gives the function `function` of `before` a body that unfolds to `shown`, and
/// leaves every other function as it is.
pub open spec fn body_set(
    before: IrFile,
    after: IrFile,
    function: FunId,
    shown: IrTree,
) -> bool {
    &&& after.functions@[function as int].body matches Some(body) && grounded(after.exprs@, body)
        && tree(after.exprs@, body) == shown
    &&& after.functions@ == before.functions@.update(
        function as int,
        IrFunction {
            body: after.functions@[function as int].body,
            ..before.functions@[function as int]
        },
    )
}

/// The position of the secondary constructor that was generated for a class in a role.
pub open spec fn generated_ordinal(
    records: Seq<GeneratedConstructor>,
    class: ClassId,
    role: IrSecondaryConstructorRole,
) -> Option<usize>
    decreases records.len(),
{
    if records.len() == 0 {
        None
    } else if records[0].class == class && records[0].role == role {
        Some(records[0].ordinal)
    } else {
        generated_ordinal(records.skip(1), class, role)
    }
}

/// The position of the first class called `name`.
pub open spec fn class_named(classes: Seq<IrClass>, name: Seq<char>) -> Option<ClassId>
    decreases classes.len(),
{
    if classes.len() == 0 {
        None
    } else {
        match class_named(classes.drop_last(), name) {
            Some(class) => Some(class),
            None => if classes.last().name@ == name {
                Some((classes.len() - 1) as usize)
            } else {
                None
            },
        }
    }
}

/// The underlying type recorded for the value class `name` of another file.
pub open spec fn external_underlying(
    facts: Seq<(TypeName, Ty)>,
    name: Seq<char>,
) -> Option<TyView>
    decreases facts.len(),
{
    if facts.len() == 0 {
        None
    } else if facts[0].0@ == name {
        Some(facts[0].1@)
    } else {
        external_underlying(facts.skip(1), name)
    }
}

impl IrFile {
    /// The type that a value of the value class `ty` is represented by, one step down.
    pub open spec fn underlying(self, ty: TyView) -> Option<TyView> {
        match ty.obj_internal() {
            None => None,
            Some(name) => match class_named(self.classes@, name) {
                Some(class) => {
                    let class = self.classes@[class as int];
                    if class.is_value && class.fields@.len() > 0 {
                        Some(class.fields@[0].ty@)
                    } else {
                        external_underlying(self.external_value_classes@, name)
                    }
                },
                None => external_underlying(self.external_value_classes@, name),
            },
        }
    }

    /// The end of the chain of value classes that starts at `ty`, found within `steps` steps.
    pub open spec fn chain_end(self, ty: TyView, steps: nat) -> Option<TyView>
        decreases steps,
    {
        if steps == 0 {
            None
        } else {
            match self.underlying(ty) {
                None => None,
                Some(next) => match self.underlying(next) {
                    None => Some(next),
                    Some(_) => self.chain_end(next, (steps - 1) as nat),
                },
            }
        }
    }

    /// How a value of the value class `ty` is represented in the end. A chain that visits more
    /// value classes than there are goes round, and has no end.
    pub open spec fn terminal(self, ty: TyView) -> Option<TyView> {
        self.chain_end(ty, self.classes@.len() + self.external_value_classes@.len())
    }

    /// The expression at `id`.
    pub fn expr(&self, id: ExprId) -> (expr: &IrExpr)
        requires
            id < self.exprs@.len(),
        ensures
            *expr == self.exprs@[id as int],
    {
        &self.exprs[id]
    }

    pub fn add_expr(&mut self, expr: IrExpr) -> (id: ExprId)
        ensures
            id == old(self).exprs@.len(),
            final(self).exprs@ == old(self).exprs@.push(expr),
            *final(self) == (IrFile { exprs: final(self).exprs, ..*old(self) }),
    {
        let id: ExprId = self.exprs.len();
        self.exprs.push(expr);
        id
    }

    pub fn add_class(&mut self, class: IrClass) -> (id: ClassId)
        ensures
            id == old(self).classes@.len(),
            final(self).classes@ == old(self).classes@.push(class),
            *final(self) == (IrFile { classes: final(self).classes, ..*old(self) }),
    {
        let id: ClassId = self.classes.len();
        self.classes.push(class);
        id
    }

    pub fn add_fun(&mut self, function: IrFunction) -> (id: FunId)
        ensures
            id == old(self).functions@.len(),
            final(self).functions@ == old(self).functions@.push(function),
            *final(self) == (IrFile { functions: final(self).functions, ..*old(self) }),
    {
        let id: FunId = self.functions.len();
        self.functions.push(function);
        id
    }

    /// Publish generated functions of the class `owner`.
    pub fn publish_generated_members(
        &mut self,
        owner: &TypeName,
        publication: IrGeneratedMemberPublication,
    )
        ensures
            final(self).generated_members@.len() == old(self).generated_members@.len() + 1,
            final(self).generated_members@.drop_last() == old(self).generated_members@,
            final(self).generated_members@.last().0@ == owner@,
            final(self).generated_members@.last().1 == publication,
            *final(self) == (IrFile {
                generated_members: final(self).generated_members,
                ..*old(self)
            }),
    {
        self.generated_members.push((owner.clone(), publication));
        assert(self.generated_members@.drop_last() =~= old(self).generated_members@);
    }

    /// Give the function `function` the body `body`.
    pub fn set_body(&mut self, function: FunId, body: ExprId)
        requires
            function < old(self).functions@.len(),
        ensures
            final(self).functions@ == old(self).functions@.update(
                function as int,
                IrFunction { body: Some(body), ..old(self).functions@[function as int] },
            ),
            *final(self) == (IrFile { functions: final(self).functions, ..*old(self) }),
    {
        self.functions[function].body = Some(body);
    }

    /// The position of the secondary constructor that was generated for a class in a role.
    pub fn generated_secondary_constructor(
        &self,
        class: ClassId,
        role: IrSecondaryConstructorRole,
    ) -> (ordinal: Option<usize>)
        ensures
            ordinal == generated_ordinal(self.generated_constructors@, class, role),
    {
        let mut index: usize = 0;
        assert(self.generated_constructors@.skip(0) =~= self.generated_constructors@);
        while index < self.generated_constructors.len()
            invariant
                index <= self.generated_constructors@.len(),
                generated_ordinal(self.generated_constructors@.skip(index as int), class, role)
                    == generated_ordinal(self.generated_constructors@, class, role),
            decreases self.generated_constructors@.len() - index,
        {
            assert(self.generated_constructors@.skip(index as int).skip(1)
                =~= self.generated_constructors@.skip(index as int + 1));
            let record = self.generated_constructors[index];
            if record.class == class && record.role == role {
                return Some(record.ordinal);
            }
            index += 1;
        }
        None
    }

    /// The position of the first class called `name`.
    pub fn class_position(&self, name: &TypeName) -> (found: Option<ClassId>)
        ensures
            found == class_named(self.classes@, name@),
            found matches Some(class) ==> class < self.classes@.len(),
            found matches Some(class) ==> self.classes@[class as int].name@ == name@,
    {
        let mut index: usize = 0;
        while index < self.classes.len()
            invariant
                index <= self.classes@.len(),
                class_named(self.classes@.take(index as int), name@) is None,
            decreases self.classes@.len() - index,
        {
            assert(self.classes@.take(index as int + 1).drop_last() =~= self.classes@.take(
                index as int,
            ));
            if self.classes[index].name == *name {
                proof {
                    lemma_class_named_stays(self.classes@, index as int + 1, name@);
                }
                return Some(index);
            }
            index += 1;
        }
        assert(self.classes@.take(index as int) =~= self.classes@);
        None
    }

    /// Record the underlying type of a value class of another file.
    pub fn insert_external_value_class_name(&mut self, name: &TypeName, underlying: Ty)
        ensures
            final(self).external_value_classes@.len() == old(self).external_value_classes@.len()
                + 1,
            final(self).external_value_classes@.drop_last() == old(self).external_value_classes@,
            final(self).external_value_classes@.last().0@ == name@,
            final(self).external_value_classes@.last().1 == underlying,
            *final(self) == (IrFile {
                external_value_classes: final(self).external_value_classes,
                ..*old(self)
            }),
    {
        self.external_value_classes.push((name.clone(), underlying));
        assert(self.external_value_classes@.drop_last() =~= old(self).external_value_classes@);
    }

    fn external_underlying_type(&self, name: &TypeName) -> (found: Option<&Ty>)
        ensures
            external_underlying(self.external_value_classes@, name@) == match found {
                Some(ty) => Some(ty@),
                None => None,
            },
    {
        let mut index: usize = 0;
        assert(self.external_value_classes@.skip(0) =~= self.external_value_classes@);
        while index < self.external_value_classes.len()
            invariant
                index <= self.external_value_classes@.len(),
                external_underlying(self.external_value_classes@.skip(index as int), name@)
                    == external_underlying(self.external_value_classes@, name@),
            decreases self.external_value_classes@.len() - index,
        {
            assert(self.external_value_classes@.skip(index as int).skip(1)
                =~= self.external_value_classes@.skip(index as int + 1));
            if self.external_value_classes[index].0 == *name {
                return Some(&self.external_value_classes[index].1);
            }
            index += 1;
        }
        None
    }

    fn underlying_type(&self, ty: &Ty) -> (found: Option<&Ty>)
        ensures
            self.underlying(ty@) == match found {
                Some(next) => Some(next@),
                None => None,
            },
    {
        match ty.obj_internal() {
            None => None,
            Some(name) => match self.class_position(name) {
                Some(class) => {
                    if self.classes[class].is_value && self.classes[class].fields.len() > 0 {
                        Some(&self.classes[class].fields[0].ty)
                    } else {
                        self.external_underlying_type(name)
                    }
                },
                None => self.external_underlying_type(name),
            },
        }
    }

    /// How a value of the value class `ty` is represented in the end.
    pub fn terminal_value_class_underlying(&self, ty: &Ty) -> (found: Option<Ty>)
        ensures
            option_view(found) == self.terminal(ty@),
    {
        let mut local: usize = self.classes.len();
        let mut external: usize = self.external_value_classes.len();
        let mut current: Ty = ty.clone();
        while local > 0 || external > 0
            invariant
                self.chain_end(current@, (local + external) as nat) == self.terminal(ty@),
            decreases local + external,
        {
            match self.underlying_type(&current) {
                None => {
                    return None;
                },
                Some(next) => {
                    if self.underlying_type(next).is_none() {
                        return Some(next.clone());
                    }
                    current = next.clone();
                },
            }
            if local > 0 {
                local -= 1;
            } else {
                external -= 1;
            }
        }
        None
    }
}

/// A class that is found is one of the classes, and has the name.
pub proof fn lemma_class_named(classes: Seq<IrClass>, name: Seq<char>)
    requires
        classes.len() <= usize::MAX,
    ensures
        class_named(classes, name) matches Some(class) ==> class < classes.len()
            && classes[class as int].name@ == name,
    decreases classes.len(),
{
    if classes.len() > 0 {
        lemma_class_named(classes.drop_last(), name);
    }
}

proof fn lemma_class_named_stays(classes: Seq<IrClass>, seen: int, name: Seq<char>)
    requires
        0 <= seen <= classes.len(),
        class_named(classes.take(seen), name) is Some,
    ensures
        class_named(classes, name) == class_named(classes.take(seen), name),
    decreases classes.len() - seen,
{
    if seen < classes.len() {
        assert(classes.take(seen + 1).drop_last() =~= classes.take(seen));
        lemma_class_named_stays(classes, seen + 1, name);
    } else {
        assert(classes.take(seen) =~= classes);
    }
}

/// Value classes that represent each other have no end: where each step from `ty` leads to another
/// value class, no underlying type is chosen.
pub proof fn a_round_of_value_classes_has_no_end(file: IrFile, ty: TyView, steps: nat)
    requires
        forall|reached: TyView| (#[trigger] file.underlying(reached)) matches Some(next) ==> file.underlying(next) is Some,
    ensures
        file.chain_end(ty, steps) is None,
    decreases steps,
{
    if steps > 0 {
        if let Some(next) = file.underlying(ty) {
            a_round_of_value_classes_has_no_end(file, next, (steps - 1) as nat);
        }
    }
}

/// Only the classes and the recorded value classes say how a value is represented.
pub proof fn lemma_terminal_same(left: IrFile, right: IrFile, ty: TyView)
    requires
        left.classes == right.classes,
        left.external_value_classes == right.external_value_classes,
    ensures
        left.terminal(ty) == right.terminal(ty),
{
    lemma_chain_same(left, right, ty, left.classes@.len() + left.external_value_classes@.len());
}

proof fn lemma_chain_same(left: IrFile, right: IrFile, ty: TyView, steps: nat)
    requires
        left.classes == right.classes,
        left.external_value_classes == right.external_value_classes,
    ensures
        left.chain_end(ty, steps) == right.chain_end(ty, steps),
    decreases steps,
{
    if steps > 0 {
        if let Some(next) = left.underlying(ty) {
            lemma_chain_same(left, right, next, (steps - 1) as nat);
        }
    }
}

} // verus!
