//! The call that builds the serializer of an enum.

use vstd::prelude::*;

use crate::ir::annotations::{
    applied, value_for, AnnoValue, AnnoValueView, DeclarationAnnotations, FieldAnnotations,
};
use crate::ir::expr::{ClassId, ExprId, IrConst, IrConstView, IrExpr};
use crate::ir::file::{IrClass, IrFile};
use crate::ir::tree::{
    all_grounded, array_tree, const_tree, grounded, grows, lemma_listed, null_tree,
    plain_call_tree, plant_array, plant_const, plant_plain_call, tree, trees, IrTree,
};
use crate::kt_string::KtString;
use crate::plugins::serialization::annotations::serial_name_fq;
use crate::plugins::serialization::support::{class_ty, class_type, static_callee, static_member};
use crate::text::{option_view, same_text, views};
use crate::types::{Ty, TyView};

verus! {

broadcast use {
    crate::text::group_views,
    crate::types::group_ty_views,
    crate::ir::tree::group_growth,
};

/// The annotations of the field `field`.
pub open spec fn annotations_of_field(
    fields: Seq<FieldAnnotations>,
    field: Seq<char>,
) -> Option<DeclarationAnnotations>
    decreases fields.len(),
{
    if fields.len() == 0 {
        None
    } else if fields[0].field@ == field {
        Some(fields[0].annotations)
    } else {
        annotations_of_field(fields.skip(1), field)
    }
}

fn field_annotations<'a>(fields: &'a [FieldAnnotations], field: &str) -> (found: Option<
    &'a DeclarationAnnotations,
>)
    ensures
        annotations_of_field(fields@, field@) == match found {
            Some(annotations) => Some(*annotations),
            None => None,
        },
{
    let mut index: usize = 0;
    assert(fields@.skip(0) =~= fields@);
    while index < fields.len()
        invariant
            index <= fields@.len(),
            annotations_of_field(fields@.skip(index as int), field@) == annotations_of_field(
                fields@,
                field@,
            ),
        decreases fields@.len() - index,
    {
        assert(fields@.skip(index as int).skip(1) =~= fields@.skip(index as int + 1));
        if same_text(fields[index].field.as_str(), field) {
            return Some(&fields[index].annotations);
        }
        index += 1;
    }
    None
}

/// The name under which the entry `entry` is written, where the field of the entry is annotated
/// with one. The annotation is the resolved one, whatever another of its simple name says.
pub open spec fn entry_serial_name(
    fields: Seq<FieldAnnotations>,
    entry: Seq<char>,
) -> Option<Seq<u16>> {
    match annotations_of_field(fields, entry) {
        None => None,
        Some(annotations) => match applied(annotations@, "kotlinx/serialization/SerialName"@) {
            None => None,
            Some(application) => match value_for(application.values, "value"@) {
                Some(AnnoValueView::Const(IrConstView::String(name))) => Some(name),
                _ => None,
            },
        },
    }
}

fn written_name(fields: &[FieldAnnotations], entry: &str) -> (name: Option<KtString>)
    ensures
        option_view(name) == entry_serial_name(fields@, entry@),
{
    match field_annotations(fields, entry) {
        None => None,
        Some(annotations) => match annotations.application(serial_name_fq()) {
            None => None,
            Some(application) => match application.value("value") {
                Some(AnnoValue::Const(IrConst::String(name))) => Some(name.clone()),
                _ => None,
            },
        },
    }
}

/// The names under which the entries of an enum are written, where they have one of their own.
pub open spec fn entry_serial_names(class: IrClass) -> Seq<Option<Seq<u16>>> {
    Seq::new(
        class.enum_entries@.len(),
        |k: int| entry_serial_name(class.field_annotations@, class.enum_entries@[k].name@),
    )
}

fn written_names(class: &IrClass) -> (names: Vec<Option<KtString>>)
    ensures
        names@.len() == class.enum_entries@.len(),
        forall|k: int|
            0 <= k < names@.len() ==> option_view(#[trigger] names@[k]) == entry_serial_names(
                *class,
            )[k],
{
    let mut names: Vec<Option<KtString>> = Vec::new();
    while names.len() < class.enum_entries.len()
        invariant
            names@.len() <= class.enum_entries@.len(),
            forall|k: int|
                0 <= k < names@.len() ==> option_view(#[trigger] names@[k]) == entry_serial_names(
                    *class,
                )[k],
        decreases class.enum_entries@.len() - names@.len(),
    {
        let entry: &str = class.enum_entries[names.len()].name.as_str();
        names.push(written_name(class.field_annotations.as_slice(), entry));
    }
    names
}

/// A name as an argument; null stands for the spelling of the entry.
pub open spec fn name_argument(name: Option<Seq<u16>>) -> IrTree {
    match name {
        Some(name) => const_tree(IrConstView::String(name)),
        None => null_tree(),
    }
}

/// Whether no entry has a name of its own.
pub open spec fn unnamed(names: Seq<Option<Seq<u16>>>) -> bool {
    forall|k: int| 0 <= k < names.len() ==> #[trigger] names[k] is None
}

/// `Array<String?>`.
pub open spec fn names_type() -> TyView {
    TyView::Obj(
        "kotlin/Array"@,
        seq![TyView::Nullable(Box::new(class_type("kotlin/String"@)))],
    )
}

/// `Array<Array<Annotation>?>`.
pub open spec fn annotations_type() -> TyView {
    TyView::Obj(
        "kotlin/Array"@,
        seq![
            TyView::Nullable(
                Box::new(
                    TyView::Obj("kotlin/Array"@, seq![class_type("kotlin/Annotation"@)]),
                ),
            ),
        ],
    )
}

fn array_of(element: Ty) -> (ty: Ty)
    ensures
        ty@ == TyView::Obj("kotlin/Array"@, seq![element@]),
{
    let mut arguments: Vec<Ty> = Vec::new();
    arguments.push(element);
    assert(views(arguments@) =~= seq![element@]);
    Ty::obj_args("kotlin/Array", arguments.as_slice())
}

/// The factory call for an enum whose entries have the names `names`. The simple factory takes
/// every name from the spelling of its entry; a name of its own takes the factory that is given the
/// names. Other annotations of the entries and of the class are not passed on.
pub open spec fn enum_factory(
    names: Seq<Option<Seq<u16>>>,
    name: IrTree,
    enums: IrTree,
) -> IrTree {
    if unnamed(names) {
        plain_call_tree(
            static_member(
                "kotlinx/serialization/internal/EnumsKt"@,
                "createSimpleEnumSerializer"@,
                "(Ljava/lang/String;[Ljava/lang/Enum;)Lkotlinx/serialization/KSerializer;"@,
            ),
            seq![name, enums],
        )
    } else {
        plain_call_tree(
            static_member(
                "kotlinx/serialization/internal/EnumsKt"@,
                "createAnnotatedEnumSerializer"@,
                "(Ljava/lang/String;[Ljava/lang/Enum;[Ljava/lang/String;[[Ljava/lang/annotation/Annotation;[Ljava/lang/annotation/Annotation;)Lkotlinx/serialization/KSerializer;"@,
            ),
            seq![
                name,
                enums,
                array_tree(
                    names_type(),
                    Seq::new(names.len(), |k: int| name_argument(names[k])),
                ),
                array_tree(annotations_type(), Seq::new(names.len(), |k: int| null_tree())),
                null_tree(),
            ],
        )
    }
}

fn any_named(names: &Vec<Option<KtString>>) -> (yes: bool)
    ensures
        yes == exists|k: int| 0 <= k < names@.len() && #[trigger] names@[k] is Some,
{
    let mut index: usize = 0;
    while index < names.len()
        invariant
            index <= names@.len(),
            forall|k: int| 0 <= k < index ==> #[trigger] names@[k] is None,
        decreases names@.len() - index,
    {
        if names[index].is_some() {
            return true;
        }
        index += 1;
    }
    false
}

fn plant_names(exprs: &mut Vec<IrExpr>, names: &Vec<Option<KtString>>) -> (id: ExprId)
    ensures
        grows(old(exprs)@, final(exprs)@),
        grounded(final(exprs)@, id),
        tree(final(exprs)@, id) == array_tree(
            names_type(),
            Seq::new(names@.len(), |k: int| name_argument(option_view(names@[k]))),
        ),
{
    let ghost start = exprs@;
    let ghost shown = Seq::new(names@.len(), |k: int| name_argument(option_view(names@[k])));
    let mut elements: Vec<ExprId> = Vec::new();
    assert(trees(exprs@, elements@) =~= shown.take(0));
    while elements.len() < names.len()
        invariant
            elements@.len() <= names@.len(),
            grows(start, exprs@),
            shown == Seq::new(names@.len(), |k: int| name_argument(option_view(names@[k]))),
            all_grounded(exprs@, elements@),
            trees(exprs@, elements@) == shown.take(elements@.len() as int),
        decreases names@.len() - elements@.len(),
    {
        let ghost before = exprs@;
        let value = match &names[elements.len()] {
            Some(name) => IrConst::String(name.clone()),
            None => IrConst::Null,
        };
        let id: ExprId = plant_const(exprs, value);
        assert(grows(start, exprs@));
        proof {
            lemma_listed(before, exprs@, elements@, id);
            assert(shown.take(elements@.len() as int + 1) =~= shown.take(
                elements@.len() as int,
            ).push(shown[elements@.len() as int]));
        }
        elements.push(id);
    }
    assert(shown.take(shown.len() as int) =~= shown);
    plant_array(exprs, array_of(Ty::nullable(class_ty("kotlin/String"))), elements)
}

fn plant_empty_annotations(exprs: &mut Vec<IrExpr>, count: usize) -> (id: ExprId)
    ensures
        grows(old(exprs)@, final(exprs)@),
        grounded(final(exprs)@, id),
        tree(final(exprs)@, id) == array_tree(
            annotations_type(),
            Seq::new(count as nat, |k: int| null_tree()),
        ),
{
    let ghost start = exprs@;
    let ghost shown = Seq::new(count as nat, |k: int| null_tree());
    let mut elements: Vec<ExprId> = Vec::new();
    assert(trees(exprs@, elements@) =~= shown.take(0));
    while elements.len() < count
        invariant
            elements@.len() <= count,
            grows(start, exprs@),
            shown == Seq::new(count as nat, |k: int| null_tree()),
            all_grounded(exprs@, elements@),
            trees(exprs@, elements@) == shown.take(elements@.len() as int),
        decreases count - elements@.len(),
    {
        let ghost before = exprs@;
        let id: ExprId = plant_const(exprs, IrConst::Null);
        assert(grows(start, exprs@));
        proof {
            lemma_listed(before, exprs@, elements@, id);
            assert(shown.take(elements@.len() as int + 1) =~= shown.take(
                elements@.len() as int,
            ).push(shown[elements@.len() as int]));
        }
        elements.push(id);
    }
    assert(shown.take(shown.len() as int) =~= shown);
    plant_array(
        exprs,
        array_of(Ty::nullable(array_of(class_ty("kotlin/Annotation")))),
        elements,
    )
}

/// Build the factory call for the enum `class_id`, given its serial name and its entries.
pub fn factory_call(ir: &mut IrFile, class_id: ClassId, name: ExprId, enums: ExprId) -> (id: ExprId)
    requires
        class_id < old(ir).classes@.len(),
        grounded(old(ir).exprs@, name),
        grounded(old(ir).exprs@, enums),
    ensures
        grows(old(ir).exprs@, final(ir).exprs@),
        grounded(final(ir).exprs@, id),
        tree(final(ir).exprs@, id) == enum_factory(
            entry_serial_names(old(ir).classes@[class_id as int]),
            tree(old(ir).exprs@, name),
            tree(old(ir).exprs@, enums),
        ),
        *final(ir) == (IrFile { exprs: final(ir).exprs, ..*old(ir) }),
{
    let ghost start = ir.exprs@;
    let ghost wanted = entry_serial_names(ir.classes@[class_id as int]);
    let names = written_names(&ir.classes[class_id]);
    assert(forall|k: int|
        #![trigger names@[k]]
        #![trigger wanted[k]]
        0 <= k < names@.len() ==> (names@[k] is Some) == (wanted[k] is Some));
    let mut args: Vec<ExprId> = Vec::new();
    args.push(name);
    args.push(enums);
    if !any_named(&names) {
        assert(trees(start, args@) =~= seq![tree(start, name), tree(start, enums)]);
        return plant_plain_call(
            &mut ir.exprs,
            static_callee(
                "kotlinx/serialization/internal/EnumsKt",
                "createSimpleEnumSerializer",
                "(Ljava/lang/String;[Ljava/lang/Enum;)Lkotlinx/serialization/KSerializer;",
            ),
            args,
        );
    }
    let names_array: ExprId = plant_names(&mut ir.exprs, &names);
    let entry_annotations: ExprId = plant_empty_annotations(&mut ir.exprs, names.len());
    let class_annotations: ExprId = plant_const(&mut ir.exprs, IrConst::Null);
    args.push(names_array);
    args.push(entry_annotations);
    args.push(class_annotations);
    let ghost before = ir.exprs@;
    assert(grows(start, before));
    proof {
        let shown = Seq::new(names@.len(), |k: int| name_argument(option_view(names@[k])));
        assert(shown =~= Seq::new(wanted.len(), |k: int| name_argument(wanted[k])));
        assert(trees(before, args@) =~= seq![
            tree(start, name),
            tree(start, enums),
            array_tree(names_type(), shown),
            array_tree(annotations_type(), Seq::new(wanted.len(), |k: int| null_tree())),
            null_tree(),
        ]);
    }
    plant_plain_call(
        &mut ir.exprs,
        static_callee(
            "kotlinx/serialization/internal/EnumsKt",
            "createAnnotatedEnumSerializer",
            "(Ljava/lang/String;[Ljava/lang/Enum;[Ljava/lang/String;[[Ljava/lang/annotation/Annotation;[Ljava/lang/annotation/Annotation;)Lkotlinx/serialization/KSerializer;",
        ),
        args,
    )
}

} // verus!
