//! Pieces that several generators use.

use vstd::prelude::*;

use crate::ir::expr::{Callee, CalleeView, ClassId, ExprId, IrExpr, IrLabel};
use crate::ir::file::{class_named, IrClass, IrFile, IrFunction};
use crate::ir::tree::{
    adds, all_grounded, call_tree, external_new_tree, grounded, grows, instance_tree, leaf,
    local_instance_tree, plain_call_tree, plant, plant_call, plant_instance, plant_local_instance,
    plant_new, plant_plain_call, tree, trees, IrTree,
};
use crate::libraries::InlineKind;
use crate::names::{qualified, TypeName};
use crate::plugins::serialization::element_serializer::{builtin_key, builtin_element_key};
use crate::plugins::serialization::generated_classifier::{kserializer_of, serializer_type};
use crate::text::{concat, followed, repeat, repeated, same_text, views};
use crate::types::{Ty, TyView};

verus! {

broadcast use {
    crate::text::group_views,
    crate::types::group_ty_views,
    crate::ir::tree::group_growth,
};

/// A classifier without arguments, as a type.
pub open spec fn class_type(path: Seq<char>) -> TyView {
    TyView::Obj(path, seq![])
}

pub fn class_ty(path: &str) -> (ty: Ty)
    ensures
        ty@ == class_type(path@),
{
    Ty::obj(path)
}

/// A member of an interface.
pub open spec fn interface_member(
    owner: Seq<char>,
    name: Seq<char>,
    descriptor: Seq<char>,
) -> CalleeView {
    CalleeView::Virtual { owner, name, descriptor, params: None, interface: true }
}

pub fn virtual_iface(owner: &str, name: &str, descriptor: &str) -> (callee: Callee)
    ensures
        callee@ == interface_member(owner@, name@, descriptor@),
{
    Callee::Virtual {
        owner: qualified(owner),
        name: name.to_owned(),
        descriptor: descriptor.to_owned(),
        params: None,
        interface: true,
    }
}

/// A member of a class.
pub open spec fn class_member(
    owner: Seq<char>,
    name: Seq<char>,
    descriptor: Seq<char>,
) -> CalleeView {
    CalleeView::Virtual { owner, name, descriptor, params: None, interface: false }
}

pub fn virtual_class(owner: &TypeName, name: &str, descriptor: &str) -> (callee: Callee)
    ensures
        callee@ == class_member(owner@, name@, descriptor@),
{
    Callee::Virtual {
        owner: owner.clone(),
        name: name.to_owned(),
        descriptor: descriptor.to_owned(),
        params: None,
        interface: false,
    }
}

/// A static member.
pub open spec fn static_member(
    owner: Seq<char>,
    name: Seq<char>,
    descriptor: Seq<char>,
) -> CalleeView {
    CalleeView::Static { owner, name, descriptor, inline: InlineKind::NotInline }
}

pub fn static_callee(owner: &str, name: &str, descriptor: &str) -> (callee: Callee)
    ensures
        callee@ == static_member(owner@, name@, descriptor@),
{
    Callee::Static {
        owner: qualified(owner),
        name: name.to_owned(),
        descriptor: descriptor.to_owned(),
        inline: InlineKind::NotInline,
    }
}

/// The serializer of nullable values over a serializer of values.
pub open spec fn nullable_serializer(inner: IrTree) -> IrTree {
    plain_call_tree(
        static_member(
            "kotlinx/serialization/builtins/BuiltinSerializersKt"@,
            "getNullable"@,
            "(Lkotlinx/serialization/KSerializer;)Lkotlinx/serialization/KSerializer;"@,
        ),
        seq![inner],
    )
}

pub fn wrap_nullable_serializer(exprs: &mut Vec<IrExpr>, inner: ExprId) -> (id: ExprId)
    requires
        grounded(old(exprs)@, inner),
    ensures
        grows(old(exprs)@, final(exprs)@),
        grounded(final(exprs)@, id),
        tree(final(exprs)@, id) == nullable_serializer(tree(old(exprs)@, inner)),
        adds(old(exprs)@, final(exprs)@, id, 1),
{
    let ghost before = exprs@;
    let callee = static_callee(
        "kotlinx/serialization/builtins/BuiltinSerializersKt",
        "getNullable",
        "(Lkotlinx/serialization/KSerializer;)Lkotlinx/serialization/KSerializer;",
    );
    let mut args: Vec<ExprId> = Vec::new();
    args.push(inner);
    assert(trees(before, args@) =~= seq![tree(before, inner)]);
    plant_plain_call(exprs, callee, args)
}

/// `classifier::class`.
pub open spec fn literal_tree(classifier: Seq<char>) -> IrTree {
    leaf(IrLabel::ClassLiteral { classifier })
}

/// The serializer that looks the class up at run time.
pub open spec fn contextual_serializer(classifier: Seq<char>) -> IrTree {
    external_new_tree(
        "kotlinx/serialization/ContextualSerializer"@,
        "(Lkotlin/reflect/KClass;)V"@,
        seq![literal_tree(classifier)],
    )
}

/// The serializer that dispatches on the class of the value.
pub open spec fn polymorphic_serializer(classifier: Seq<char>) -> IrTree {
    external_new_tree(
        "kotlinx/serialization/PolymorphicSerializer"@,
        "(Lkotlin/reflect/KClass;)V"@,
        seq![literal_tree(classifier)],
    )
}

fn serializer_over_class(exprs: &mut Vec<IrExpr>, serializer: &str, classifier: &TypeName) -> (id:
    ExprId)
    ensures
        grows(old(exprs)@, final(exprs)@),
        grounded(final(exprs)@, id),
        tree(final(exprs)@, id) == external_new_tree(
            serializer@,
            "(Lkotlin/reflect/KClass;)V"@,
            seq![literal_tree(classifier@)],
        ),
        adds(old(exprs)@, final(exprs)@, id, 2),
{
    let ghost start = exprs@;
    let literal: ExprId = plant(exprs, IrExpr::ClassLiteral { classifier: classifier.clone() });
    assert(trees(start, Seq::<ExprId>::empty()) =~= Seq::<IrTree>::empty());
    let ghost before = exprs@;
    let mut args: Vec<ExprId> = Vec::new();
    args.push(literal);
    assert(trees(before, args@) =~= seq![literal_tree(classifier@)]);
    plant_new(exprs, serializer, "(Lkotlin/reflect/KClass;)V", args)
}

pub fn build_contextual_serializer(exprs: &mut Vec<IrExpr>, classifier: &TypeName) -> (id: ExprId)
    ensures
        grows(old(exprs)@, final(exprs)@),
        grounded(final(exprs)@, id),
        tree(final(exprs)@, id) == contextual_serializer(classifier@),
        adds(old(exprs)@, final(exprs)@, id, 2),
{
    serializer_over_class(exprs, "kotlinx/serialization/ContextualSerializer", classifier)
}

pub fn build_polymorphic_serializer(exprs: &mut Vec<IrExpr>, classifier: &TypeName) -> (id: ExprId)
    ensures
        grows(old(exprs)@, final(exprs)@),
        grounded(final(exprs)@, id),
        tree(final(exprs)@, id) == polymorphic_serializer(classifier@),
        adds(old(exprs)@, final(exprs)@, id, 2),
{
    serializer_over_class(exprs, "kotlinx/serialization/PolymorphicSerializer", classifier)
}

/// Whether one of `methods` is a `serializer` with `arity` parameters.
pub open spec fn has_accessor(
    methods: Seq<usize>,
    functions: Seq<IrFunction>,
    arity: nat,
) -> bool {
    exists|k: int|
        0 <= k < methods.len() && (#[trigger] methods[k]) < functions.len()
            && functions[methods[k] as int].name@ == "serializer"@
            && functions[methods[k] as int].params@.len() == arity
}

pub fn finds_accessor(methods: &Vec<usize>, functions: &Vec<IrFunction>, arity: usize) -> (found:
    Option<usize>)
    ensures
        found is Some == has_accessor(methods@, functions@, arity as nat),
        found matches Some(function) ==> function < functions@.len() && methods@.contains(function)
            && functions@[function as int].name@ == "serializer"@,
{
    let mut index: usize = 0;
    while index < methods.len()
        invariant
            index <= methods@.len(),
            forall|k: int|
                0 <= k < index ==> !((#[trigger] methods@[k]) < functions@.len()
                    && functions@[methods@[k] as int].name@ == "serializer"@
                    && functions@[methods@[k] as int].params@.len() == arity as nat),
        decreases methods@.len() - index,
    {
        let method: usize = methods[index];
        if method < functions.len() && same_text(functions[method].name.as_str(), "serializer")
            && functions[method].params.len() == arity {
            assert(methods@[index as int] == method);
            return Some(method);
        }
        index += 1;
    }
    None
}

/// Whether the class `classifier` of this file hands out its serializer itself.
pub open spec fn accessor_on_class(classes: Seq<IrClass>,
    functions: Seq<IrFunction>,
    classifier: Seq<char>, arity: nat) -> bool {
    class_named(classes, classifier) matches Some(class) && has_accessor(
        classes[class as int].methods@,
        functions,
        arity,
    )
}

/// Whether the companion of the class `classifier` of this file hands out its serializer.
pub open spec fn accessor_on_companion(classes: Seq<IrClass>,
    functions: Seq<IrFunction>,
    classifier: Seq<char>, arity: nat) -> bool {
    class_named(classes, classifier) matches Some(class)
        && classes[class as int].companion_class matches Some(companion) && companion
        < classes.len() && has_accessor(
        classes[companion as int].methods@,
        functions,
        arity,
    )
}

/// Whether the class `classifier` of this file has a generated accessor of its serializer: it is
/// then a serializable one.
pub fn generated_serializer_accessor(ir: &IrFile, classifier: &TypeName, arity: usize) -> (found:
    bool)
    ensures
        found == (accessor_on_class(ir.classes@, ir.functions@, classifier@, arity as nat)
            || accessor_on_companion(ir.classes@, ir.functions@, classifier@, arity as nat)),
{
    match ir.class_position(classifier) {
        None => false,
        Some(class) => {
            if finds_accessor(&ir.classes[class].methods, &ir.functions, arity).is_some() {
                return true;
            }
            match ir.classes[class].companion_class {
                None => false,
                Some(companion) => companion < ir.classes.len() && finds_accessor(
                    &ir.classes[companion].methods,
                    &ir.functions,
                    arity,
                ).is_some(),
            }
        },
    }
}

/// The companion through which the accessor of `classifier` is called: none where the class hands
/// out its serializer itself or has no companion.
pub open spec fn accessor_companion(classes: Seq<IrClass>,
    functions: Seq<IrFunction>,
    classifier: Seq<char>, arity: nat) -> Option<
    (ClassId, ClassId),
> {
    if accessor_on_class(classes, functions, classifier, arity) {
        None
    } else {
        match class_named(classes, classifier) {
            Some(class) => match classes[class as int].companion_class {
                Some(companion) if companion < classes.len() => Some((class, companion)),
                _ => None,
            },
            None => None,
        }
    }
}

/// The descriptor of an accessor that takes `arity` serializers.
pub open spec fn accessor_descriptor(arity: nat) -> Seq<char> {
    "("@ + repeated("Lkotlinx/serialization/KSerializer;"@, arity)
        + ")Lkotlinx/serialization/KSerializer;"@
}

/// The serializer that `classifier` hands out, given the serializers of its type arguments.
pub open spec fn accessor_call(classes: Seq<IrClass>,
    functions: Seq<IrFunction>,
    classifier: Seq<char>, args: Seq<IrTree>) -> IrTree {
    match accessor_companion(classes, functions, classifier, args.len()) {
        Some((class, companion)) => call_tree(
            CalleeView::Virtual {
                owner: classes[companion as int].name@,
                name: "serializer"@,
                descriptor: ""@,
                params: Some(
                    (
                        Seq::new(args.len(), |k: int| serializer_type(class_type("kotlin/Any"@))),
                        serializer_type(class_type(classifier)),
                    ),
                ),
                interface: false,
            },
            leaf(IrLabel::StaticInstance { owner: class, ty: companion, field: "Companion"@ }),
            args,
        ),
        None => plain_call_tree(
            static_member(classifier, "serializer"@, accessor_descriptor(args.len())),
            args,
        ),
    }
}

fn any_serializers(count: usize) -> (types: Vec<Ty>)
    ensures
        views(types@) == Seq::new(
            count as nat,
            |k: int| serializer_type(class_type("kotlin/Any"@)),
        ),
{
    let mut types: Vec<Ty> = Vec::new();
    while types.len() < count
        invariant
            types@.len() <= count,
            forall|k: int|
                0 <= k < types@.len() ==> (#[trigger] types@[k])@ == serializer_type(
                    class_type("kotlin/Any"@),
                ),
        decreases count - types@.len(),
    {
        types.push(kserializer_of(class_ty("kotlin/Any")));
    }
    assert(views(types@) =~= Seq::new(
        count as nat,
        |k: int| serializer_type(class_type("kotlin/Any"@)),
    ));
    types
}

pub fn descriptor_of_accessor(arity: usize) -> (descriptor: String)
    ensures
        descriptor@ == accessor_descriptor(arity as nat),
{
    concat(
        "(",
        repeat("Lkotlinx/serialization/KSerializer;", arity).as_str(),
        ")Lkotlinx/serialization/KSerializer;",
    )
}

pub fn serializer_of_name(ir: &mut IrFile, classifier: &TypeName, args: Vec<ExprId>) -> (id: ExprId)
    requires
        all_grounded(old(ir).exprs@, args@),
    ensures
        *final(ir) == (IrFile { exprs: final(ir).exprs, ..*old(ir) }),
        grows(old(ir).exprs@, final(ir).exprs@),
        grounded(final(ir).exprs@, id),
        tree(final(ir).exprs@, id) == accessor_call(
            old(ir).classes@,
            old(ir).functions@,
            classifier@,
            trees(old(ir).exprs@, args@),
        ),
        adds(
            old(ir).exprs@,
            final(ir).exprs@,
            id,
            if accessor_companion(
                old(ir).classes@,
                old(ir).functions@,
                classifier@,
                args@.len(),
            ) is Some {
                2
            } else {
                1
            },
        ),
{
    let arity: usize = args.len();
    let ghost start = ir.exprs@;
    let ghost shown = trees(start, args@);
    let companion = match ir.class_position(classifier) {
        None => None,
        Some(class) => {
            if finds_accessor(&ir.classes[class].methods, &ir.functions, arity).is_some() {
                None
            } else {
                match ir.classes[class].companion_class {
                    Some(companion) => if companion < ir.classes.len() {
                        Some((class, companion))
                    } else {
                        None
                    },
                    None => None,
                }
            }
        },
    };
    assert(companion == accessor_companion(ir.classes@, ir.functions@, classifier@, arity as nat));
    match companion {
        Some((class, companion)) => {
            let owner = ir.classes[companion].name.clone();
            let callee = Callee::Virtual {
                owner,
                name: "serializer".to_owned(),
                descriptor: "".to_owned(),
                params: Some((any_serializers(arity), kserializer_of(Ty::obj_name(classifier)))),
                interface: false,
            };
            let receiver: ExprId = plant(
                &mut ir.exprs,
                IrExpr::StaticInstance { owner: class, ty: companion, field: "Companion" },
            );
            assert(trees(start, Seq::<ExprId>::empty()) =~= Seq::<IrTree>::empty());
            assert forall|k: int| 0 <= k < args@.len() implies grounded(
                ir.exprs@,
                #[trigger] args@[k],
            ) by {
                assert(grounded(start, args@[k]));
            }
            assert(trees(ir.exprs@, args@) =~= shown);
            plant_call(&mut ir.exprs, callee, receiver, args)
        },
        None => {
            let callee = Callee::Static {
                owner: classifier.clone(),
                name: "serializer".to_owned(),
                descriptor: descriptor_of_accessor(arity),
                inline: InlineKind::NotInline,
            };
            plant_plain_call(&mut ir.exprs, callee, args)
        },
    }
}

/// The serializer that the companion of a classifier of another file hands out.
pub open spec fn external_accessor_call(
    classifier: Seq<char>,
    field: Seq<char>,
    companion: Seq<char>,
    args: Seq<IrTree>,
) -> IrTree {
    call_tree(
        class_member(companion, "serializer"@, accessor_descriptor(args.len())),
        leaf(IrLabel::ExternalStaticInstance { owner: classifier, ty: companion, field }),
        args,
    )
}

pub fn call_external_companion_serializer(
    exprs: &mut Vec<IrExpr>,
    classifier: &TypeName,
    field: &str,
    companion: &TypeName,
    args: Vec<ExprId>,
) -> (id: ExprId)
    requires
        all_grounded(old(exprs)@, args@),
    ensures
        grows(old(exprs)@, final(exprs)@),
        grounded(final(exprs)@, id),
        tree(final(exprs)@, id) == external_accessor_call(
            classifier@,
            field@,
            companion@,
            trees(old(exprs)@, args@),
        ),
        adds(old(exprs)@, final(exprs)@, id, 2),
{
    let ghost start = exprs@;
    let ghost shown = trees(start, args@);
    let callee = virtual_class(
        companion,
        "serializer",
        descriptor_of_accessor(args.len()).as_str(),
    );
    let receiver: ExprId = plant(
        exprs,
        IrExpr::ExternalStaticInstance {
            owner: classifier.clone(),
            ty: companion.clone(),
            field: field.to_owned(),
        },
    );
    assert(trees(start, Seq::<ExprId>::empty()) =~= Seq::<IrTree>::empty());
    assert forall|k: int| 0 <= k < args@.len() implies grounded(exprs@, #[trigger] args@[k]) by {
        assert(grounded(start, args@[k]));
    }
    assert(trees(exprs@, args@) =~= shown);
    plant_call(exprs, callee, receiver, args)
}

/// An instance of a serializer that a declaration names: the object, where it is one of this file
/// or of another file, and a new instance of a class of this file.
pub open spec fn named_serializer(ir: IrFile, serializer: Seq<char>) -> IrTree {
    match class_named(ir.classes@, serializer) {
        Some(class) => if ir.classes@[class as int].is_object {
            local_instance_tree(class)
        } else {
            external_new_tree(serializer, "()V"@, seq![])
        },
        None => instance_tree(serializer),
    }
}

pub fn build_field_serializer_instance(ir: &mut IrFile, serializer: &TypeName) -> (id: ExprId)
    ensures
        *final(ir) == (IrFile { exprs: final(ir).exprs, ..*old(ir) }),
        grows(old(ir).exprs@, final(ir).exprs@),
        grounded(final(ir).exprs@, id),
        tree(final(ir).exprs@, id) == named_serializer(*old(ir), serializer@),
{
    match ir.class_position(serializer) {
        Some(class) => {
            if ir.classes[class].is_object {
                plant_local_instance(&mut ir.exprs, class)
            } else {
                let args: Vec<ExprId> = Vec::new();
                assert(trees(ir.exprs@, args@) =~= Seq::<IrTree>::empty());
                plant_new(&mut ir.exprs, serializer.text(), "()V", args)
            }
        },
        None => plant_instance(&mut ir.exprs, serializer),
    }
}

/// The name and the descriptor that the encoder uses for values of a builtin type.
pub open spec fn primitive(classifier: Seq<char>) -> Option<(Seq<char>, Seq<char>)> {
    if classifier == "kotlin/Int"@ {
        Some(("Int"@, "I"@))
    } else if classifier == "kotlin/Long"@ {
        Some(("Long"@, "J"@))
    } else if classifier == "kotlin/Boolean"@ {
        Some(("Boolean"@, "Z"@))
    } else if classifier == "kotlin/Double"@ {
        Some(("Double"@, "D"@))
    } else if classifier == "kotlin/Float"@ {
        Some(("Float"@, "F"@))
    } else if classifier == "kotlin/Char"@ {
        Some(("Char"@, "C"@))
    } else if classifier == "kotlin/Byte"@ {
        Some(("Byte"@, "B"@))
    } else if classifier == "kotlin/Short"@ {
        Some(("Short"@, "S"@))
    } else if classifier == "kotlin/String"@ {
        Some(("String"@, "Ljava/lang/String;"@))
    } else {
        None
    }
}

/// The primitive that values of a type are written as.
pub open spec fn primitive_of(ty: TyView) -> Option<(Seq<char>, Seq<char>)> {
    match builtin_key(ty) {
        Some(classifier) => primitive(classifier),
        None => None,
    }
}

pub fn primitive_type(ty: &Ty) -> (found: Option<(&'static str, &'static str)>)
    ensures
        primitive_of(ty@) == match found {
            Some((name, descriptor)) => Some((name@, descriptor@)),
            None => None,
        },
{
    match builtin_element_key(ty) {
        None => None,
        Some(classifier) => {
            if classifier.matches("kotlin/Int") {
                Some(("Int", "I"))
            } else if classifier.matches("kotlin/Long") {
                Some(("Long", "J"))
            } else if classifier.matches("kotlin/Boolean") {
                Some(("Boolean", "Z"))
            } else if classifier.matches("kotlin/Double") {
                Some(("Double", "D"))
            } else if classifier.matches("kotlin/Float") {
                Some(("Float", "F"))
            } else if classifier.matches("kotlin/Char") {
                Some(("Char", "C"))
            } else if classifier.matches("kotlin/Byte") {
                Some(("Byte", "B"))
            } else if classifier.matches("kotlin/Short") {
                Some(("Short", "S"))
            } else if classifier.matches("kotlin/String") {
                Some(("String", "Ljava/lang/String;"))
            } else {
                None
            }
        },
    }
}

/// The member of the encoder that writes an element of a primitive type.
pub open spec fn element_encoder(ty: TyView) -> Option<(Seq<char>, Seq<char>)> {
    match primitive_of(ty) {
        Some((name, descriptor)) => Some(
            (
                "encode"@ + name + "Element"@,
                "(Lkotlinx/serialization/descriptors/SerialDescriptor;I"@ + descriptor + ")V"@,
            ),
        ),
        None => None,
    }
}

pub fn encode_element_method(ty: &Ty) -> (found: Option<(String, String)>)
    ensures
        element_encoder(ty@) == match found {
            Some((name, descriptor)) => Some((name@, descriptor@)),
            None => None,
        },
{
    match primitive_type(ty) {
        Some((name, descriptor)) => Some(
            (
                concat("encode", name, "Element"),
                concat(
                    "(Lkotlinx/serialization/descriptors/SerialDescriptor;I",
                    descriptor,
                    ")V",
                ),
            ),
        ),
        None => None,
    }
}

/// The member of the decoder that reads an element of a primitive type.
pub open spec fn element_decoder(ty: TyView) -> Option<(Seq<char>, Seq<char>)> {
    match primitive_of(ty) {
        Some((name, descriptor)) => Some(
            (
                "decode"@ + name + "Element"@,
                "(Lkotlinx/serialization/descriptors/SerialDescriptor;I)"@ + descriptor,
            ),
        ),
        None => None,
    }
}

pub fn decode_element_method(ty: &Ty) -> (found: Option<(String, String)>)
    ensures
        element_decoder(ty@) == match found {
            Some((name, descriptor)) => Some((name@, descriptor@)),
            None => None,
        },
{
    match primitive_type(ty) {
        Some((name, descriptor)) => Some(
            (
                concat("decode", name, "Element"),
                followed(
                    "(Lkotlinx/serialization/descriptors/SerialDescriptor;I)",
                    descriptor,
                ),
            ),
        ),
        None => None,
    }
}

/// The serializer of a contextual property, where its type has a classifier.
pub open spec fn contextual_for(contextual: bool, ty: TyView) -> Option<IrTree> {
    if contextual {
        match ty.kotlin_class_internal() {
            Some(classifier) => Some(contextual_serializer(classifier)),
            None => None,
        }
    } else {
        None
    }
}

pub fn contextual_serializer_for(exprs: &mut Vec<IrExpr>, contextual: bool, ty: &Ty) -> (id: Option<
    ExprId,
>)
    ensures
        grows(old(exprs)@, final(exprs)@),
        match (id, contextual_for(contextual, ty@)) {
            (Some(id), Some(shown)) => grounded(final(exprs)@, id) && tree(final(exprs)@, id)
                == shown,
            (None, None) => final(exprs)@ == old(exprs)@,
            _ => false,
        },
{
    if !contextual {
        return None;
    }
    match ty.kotlin_class_internal() {
        Some(classifier) => Some(build_contextual_serializer(exprs, &classifier)),
        None => None,
    }
}

} // verus!
