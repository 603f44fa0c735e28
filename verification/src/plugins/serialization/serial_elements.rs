//! Which properties of a serializable class are its serial elements, and what the generators have
//! to know of each property.
//!
//! Every property with a backing field is an element, except a transient one. A transient property
//! is absent from the descriptor and from what is written and read; the deserialization constructor
//! takes no argument for it and runs its initializer. So element `i` need not be field `i`. What
//! writes or builds the object addresses fields, what describes the serial form addresses elements,
//! and [`SerialElements`] maps one to the other.

use vstd::prelude::*;

use crate::ir::expr::{ClassId, IrConst};
use crate::ir::file::{class_named, IrClass, IrFile, IrProperty};
use crate::model::{holds, Modelled};
use crate::names::{nested_name, qualified, TypeName};
use crate::plugins::serialization::annotations::transient_fq;
use crate::text::{option_view, views};
use crate::types::{Ty, TyView};

verus! {

broadcast use {crate::text::group_views, crate::types::group_ty_views};

/// The fields of the serial elements of a class, in declaration order.
#[derive(Debug)]
pub struct SerialElements {
    fields: Vec<usize>,
}

impl View for SerialElements {
    type V = Seq<usize>;

    closed spec fn view(&self) -> Seq<usize> {
        self.fields@
    }
}

/// Whether the field `field` belongs to a transient property.
pub open spec fn is_transient(class: IrClass, field: int) -> bool {
    exists|k: int|
        0 <= k < class.properties@.len() && views(
            (#[trigger] class.properties@[k]).annotations@,
        ).contains("kotlinx/serialization/Transient"@) && (class.properties@[k].backing_field
            matches Some(backing) && backing as int == field)
}

/// The fields of the serial elements among the first `count` fields.
pub open spec fn element_fields(class: IrClass, count: nat) -> Seq<usize>
    decreases count,
{
    if count == 0 {
        seq![]
    } else {
        let before = element_fields(class, (count - 1) as nat);
        if is_transient(class, count - 1) {
            before
        } else {
            before.push((count - 1) as usize)
        }
    }
}

/// The elements of a class are its fields that belong to no transient property, each once and in
/// declaration order.
pub proof fn elements_are_the_other_fields_in_order(class: IrClass, count: nat)
    requires
        count <= usize::MAX,
    ensures
        forall|i: int, j: int|
            0 <= i < j < element_fields(class, count).len() ==> element_fields(class, count)[i]
                < element_fields(class, count)[j],
        forall|field: usize|
            #[trigger] element_fields(class, count).contains(field) <==> field < count && !is_transient(
                class,
                field as int,
            ),
    decreases count,
{
    if count > 0 {
        let before = element_fields(class, (count - 1) as nat);
        elements_are_the_other_fields_in_order(class, (count - 1) as nat);
        assert forall|k: int| 0 <= k < before.len() implies before[k] < count - 1 by {
            assert(before.contains(before[k]));
        }
        if !is_transient(class, count - 1) {
            let all = element_fields(class, count);
            assert forall|field: usize| #[trigger]
                all.contains(field) <==> field < count && !is_transient(class, field as int) by {
                if field < count && !is_transient(class, field as int) {
                    if field == count - 1 {
                        assert(all[all.len() - 1] == field);
                    } else {
                        assert(before.contains(field));
                        let k = choose|k: int| 0 <= k < before.len() && before[k] == field;
                        assert(all[k] == field);
                    }
                }
                if all.contains(field) {
                    let k = choose|k: int| 0 <= k < all.len() && all[k] == field;
                    if k < before.len() {
                        assert(before[k] == field);
                        assert(before.contains(field));
                    }
                }
            }
        }
    }
}

fn field_is_transient(class: &IrClass, transient: &TypeName, field: usize) -> (yes: bool)
    requires
        transient@ == "kotlinx/serialization/Transient"@,
    ensures
        yes == is_transient(*class, field as int),
{
    let mut index: usize = 0;
    while index < class.properties.len()
        invariant
            index <= class.properties@.len(),
            transient@ == "kotlinx/serialization/Transient"@,
            forall|k: int|
                0 <= k < index ==> !(views((#[trigger] class.properties@[k]).annotations@).contains(
                    "kotlinx/serialization/Transient"@,
                ) && (class.properties@[k].backing_field matches Some(backing) && backing as int
                    == field)),
        decreases class.properties@.len() - index,
    {
        let property = &class.properties[index];
        if let Some(backing) = property.backing_field {
            if backing as usize == field && holds(&property.annotations, transient) {
                assert(class.properties@[index as int].backing_field == Some(backing));
                return true;
            }
        }
        index += 1;
    }
    false
}

impl SerialElements {
    /// Whether these are the elements of `class`.
    pub open spec fn are_of(self, class: IrClass) -> bool {
        self@ == element_fields(class, class.fields@.len())
    }

    /// The elements of a class. A property is transient by the resolved identity of its
    /// annotation, however the source spells it.
    pub fn of(ir: &IrFile, class_id: ClassId) -> (elements: Self)
        requires
            class_id < ir.classes@.len(),
        ensures
            elements.are_of(ir.classes@[class_id as int]),
    {
        let class = &ir.classes[class_id];
        let transient = qualified(transient_fq());
        let mut fields: Vec<usize> = Vec::new();
        let mut field: usize = 0;
        while field < class.fields.len()
            invariant
                field <= class.fields@.len(),
                transient@ == "kotlinx/serialization/Transient"@,
                fields@ == element_fields(*class, field as nat),
            decreases class.fields@.len() - field,
        {
            if !field_is_transient(class, &transient, field) {
                fields.push(field);
            }
            field += 1;
        }
        SerialElements { fields }
    }

    /// The field of each element.
    pub fn fields(&self) -> (fields: &[usize])
        ensures
            fields@ == self@,
    {
        self.fields.as_slice()
    }

    /// Facts about fields, restated in the order of the elements.
    pub fn select<T: Modelled>(&self, per_field: &[T]) -> (selected: Vec<T>)
        requires
            forall|k: int| 0 <= k < self@.len() ==> self@[k] < per_field@.len(),
        ensures
            views(selected@) == Seq::new(self@.len(), |k: int| per_field@[self@[k] as int]@),
    {
        let mut selected: Vec<T> = Vec::new();
        let mut index: usize = 0;
        while index < self.fields.len()
            invariant
                index <= self.fields@.len(),
                forall|k: int| 0 <= k < self@.len() ==> self@[k] < per_field@.len(),
                selected@.len() == index,
                forall|k: int|
                    0 <= k < index ==> (#[trigger] selected@[k])@ == per_field@[self@[k] as int]@,
            decreases self.fields@.len() - index,
        {
            assert(self@[index as int] == self.fields@[index as int]);
            selected.push(per_field[self.fields[index]].duplicate());
            index += 1;
        }
        assert(views(selected@) =~= Seq::new(
            self@.len(),
            |k: int| per_field@[self@[k] as int]@,
        ));
        selected
    }
}

/// What the generators have to know of each field of a serializable class.
#[derive(Debug)]
pub struct SerializedProperties {
    /// The name of each field and the type it is stored with. A field of a value class is stored
    /// with the underlying type, and written and read as that.
    pub fields: Vec<(String, Ty)>,
    /// The type of each field as its serializer sees it: that of the property, which is not always
    /// that of the field.
    pub serializer_types: Vec<Ty>,
    /// The constant that each field starts with, where it has one.
    pub constant_defaults: Vec<Option<IrConst>>,
    /// The generated serializer of each field whose type is a serializable class of this file.
    pub nested_serializers: Vec<Option<ClassId>>,
}

/// The type a value of `ty` is stored with.
pub open spec fn stored_type(ir: IrFile, ty: TyView) -> TyView {
    match ir.terminal(ty) {
        Some(underlying) => underlying,
        None => ty,
    }
}

/// The type of the first property backed by the field `field`.
pub open spec fn backed_type(properties: Seq<IrProperty>, field: u32) -> Option<TyView>
    decreases properties.len(),
{
    if properties.len() == 0 {
        None
    } else if properties[0].backing_field == Some(field) {
        Some(properties[0].ty@)
    } else {
        backed_type(properties.skip(1), field)
    }
}

/// The declared type behind the field `field`: that of its property, or its own.
pub open spec fn declared_type(class: IrClass, field: int) -> TyView {
    match backed_type(class.properties@, field as u32) {
        Some(ty) => ty,
        None => class.fields@[field].ty@,
    }
}

/// The generated serializer class for values of `ty`.
pub open spec fn nested_serializer(ir: IrFile, ty: TyView) -> Option<ClassId> {
    match ty.non_null().obj_internal() {
        Some(name) => class_named(ir.classes@, nested_name(name, "$serializer"@)),
        None => None,
    }
}

fn stored(ir: &IrFile, ty: &Ty) -> (out: Ty)
    ensures
        out@ == stored_type(*ir, ty@),
{
    match ir.terminal_value_class_underlying(ty) {
        Some(underlying) => underlying,
        None => ty.clone(),
    }
}

fn property_ty(class: &IrClass, field: u32) -> (found: Option<&Ty>)
    ensures
        backed_type(class.properties@, field) == match found {
            Some(ty) => Some(ty@),
            None => None,
        },
{
    let mut index: usize = 0;
    assert(class.properties@.skip(0) =~= class.properties@);
    while index < class.properties.len()
        invariant
            index <= class.properties@.len(),
            backed_type(class.properties@.skip(index as int), field) == backed_type(
                class.properties@,
                field,
            ),
        decreases class.properties@.len() - index,
    {
        assert(class.properties@.skip(index as int).skip(1) =~= class.properties@.skip(
            index as int + 1,
        ));
        let backing = class.properties[index].backing_field;
        if backing.is_some() && backing.unwrap() == field {
            return Some(&class.properties[index].ty);
        }
        index += 1;
    }
    None
}

impl SerializedProperties {
    /// Whether these are the facts of the fields of the class `class_id` of `ir`.
    pub open spec fn are_of(self, ir: IrFile, class_id: ClassId) -> bool {
        let class = ir.classes@[class_id as int];
        let count = class.fields@.len();
        &&& views(self.fields@) == Seq::new(
            count,
            |k: int| (class.fields@[k].name@, stored_type(ir, class.fields@[k].ty@)),
        )
        &&& views(self.serializer_types@) == Seq::new(
            count,
            |k: int| stored_type(ir, declared_type(class, k)),
        )
        &&& self.constant_defaults@.len() == count
        &&& forall|k: int|
            0 <= k < count ==> option_view(#[trigger] self.constant_defaults@[k]) == option_view(
                class.fields@[k].default,
            )
        &&& self.nested_serializers@ == Seq::new(
            count,
            |k: int| nested_serializer(ir, stored_type(ir, class.fields@[k].ty@)),
        )
    }

    pub fn of(ir: &IrFile, class_id: ClassId) -> (properties: Self)
        requires
            class_id < ir.classes@.len(),
        ensures
            properties.are_of(*ir, class_id),
    {
        let class = &ir.classes[class_id];
        let mut fields: Vec<(String, Ty)> = Vec::new();
        let mut serializer_types: Vec<Ty> = Vec::new();
        let mut constant_defaults: Vec<Option<IrConst>> = Vec::new();
        let mut nested_serializers: Vec<Option<ClassId>> = Vec::new();
        let mut index: usize = 0;
        while index < class.fields.len()
            invariant
                index <= class.fields@.len(),
                class_id < ir.classes@.len(),
                *class == ir.classes@[class_id as int],
                fields@.len() == index,
                serializer_types@.len() == index,
                constant_defaults@.len() == index,
                nested_serializers@.len() == index,
                forall|k: int|
                    0 <= k < index ==> (#[trigger] fields@[k])@ == (
                        class.fields@[k].name@,
                        stored_type(*ir, class.fields@[k].ty@),
                    ),
                forall|k: int|
                    0 <= k < index ==> (#[trigger] serializer_types@[k])@ == stored_type(
                        *ir,
                        declared_type(*class, k),
                    ),
                forall|k: int|
                    0 <= k < index ==> option_view(#[trigger] constant_defaults@[k])
                        == option_view(class.fields@[k].default),
                forall|k: int|
                    0 <= k < index ==> (#[trigger] nested_serializers@[k]) == nested_serializer(
                        *ir,
                        stored_type(*ir, class.fields@[k].ty@),
                    ),
            decreases class.fields@.len() - index,
        {
            let field = &class.fields[index];
            let ty = stored(ir, &field.ty);
            let nested = match ty.non_null().obj_internal() {
                Some(name) => ir.class_position(&name.nested_child("$serializer")),
                None => None,
            };
            let serializer_ty = match property_ty(class, index as u32) {
                Some(declared) => stored(ir, declared),
                None => stored(ir, &field.ty),
            };
            let default = match &field.default {
                Some(value) => Some(value.clone()),
                None => None,
            };
            fields.push((field.name.clone(), ty));
            serializer_types.push(serializer_ty);
            constant_defaults.push(default);
            nested_serializers.push(nested);
            index += 1;
        }
        assert(views(fields@) =~= Seq::new(
            class.fields@.len(),
            |k: int| (class.fields@[k].name@, stored_type(*ir, class.fields@[k].ty@)),
        ));
        assert(views(serializer_types@) =~= Seq::new(
            class.fields@.len(),
            |k: int| stored_type(*ir, declared_type(*class, k)),
        ));
        assert(nested_serializers@ =~= Seq::new(
            class.fields@.len(),
            |k: int| nested_serializer(*ir, stored_type(*ir, class.fields@[k].ty@)),
        ));
        SerializedProperties { fields, serializer_types, constant_defaults, nested_serializers }
    }
}

} // verus!
