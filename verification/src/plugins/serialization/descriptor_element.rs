//! Calls that describe one element of a serialized class by its type alone.

use vstd::prelude::*;

use crate::ast;
use crate::ir::expr::{CalleeView, ExprId, IrConst, IrConstView, IrExpr, IrLabel};
use crate::ir::file::IrFile;
use crate::ir::tree::{
    call_tree, const_tree, grounded, grows, plain_call_tree, plant_call0, plant_const,
    plant_plain_call, tree, trees, IrTree,
};
use crate::names::qualified;
use crate::plugins::context::PluginContext;
use crate::plugins::frontend::{
    FrontendSelectedCall, PluginExpressionPlan, PluginExpressionPlanView,
};
use crate::plugins::serialization::element_serializer::{
    element_serializer_expr, element_tree, objects_named,
};
use crate::plugins::serialization::support::{
    class_member, interface_member, static_callee, static_member, virtual_class, virtual_iface,
};
use crate::plugins::serialization::type_parameter_serializers::ScopeView;
use crate::text::{option_view, same_text, views};
use crate::types::{Ty, TyView};

verus! {

broadcast use {
    crate::text::group_views,
    crate::types::group_ty_views,
    crate::ir::tree::group_growth,
};

/// Whether a type is that of a descriptor builder.
pub open spec fn is_builder(ty: TyView) -> bool {
    ty.kotlin_class_internal() == Some(
        "kotlinx/serialization/descriptors/ClassSerialDescriptorBuilder"@,
    )
}

fn builds_descriptors(ty: &Ty) -> (yes: bool)
    ensures
        yes == is_builder(ty@),
{
    match ty.kotlin_class_internal() {
        Some(name) => name.matches(
            "kotlinx/serialization/descriptors/ClassSerialDescriptorBuilder",
        ),
        None => false,
    }
}

/// Whether a call is the helper that describes an element by its type, with a name for it and with
/// an argument for its one type parameter.
pub open spec fn describes_element(call: FrontendSelectedCall) -> bool {
    &&& call.generic_sig matches Some(signature) && signature.formals@.len() == 1
        && (signature.receiver matches Some(receiver) && is_builder(receiver@))
    &&& call.owner@ == "kotlinx/serialization/descriptors/SerialDescriptorsKt"@
    &&& call.name@ == "element"@ || call.name@ == "element$default"@
    &&& call.inline.inlines()
    &&& call.params@.len() == 3
    &&& match call.explicit_receiver {
        Some((_, receiver)) => is_builder(receiver@),
        None => call.implicit_receiver matches Some(receiver) && is_builder(receiver@),
    }
    &&& call.argument_slots@.len() == 3
    &&& call.argument_slots@[0] is Some
    &&& call.type_arguments@.len() == 1
    &&& call.type_arguments@[0] is Some
}

/// The operation for a call, by which of the last two arguments are left to their defaults.
pub open spec fn element_operation(annotations: bool, is_optional: bool) -> Seq<char> {
    if annotations {
        if is_optional {
            "descriptorElement"@
        } else {
            "descriptorElementDefaultOptional"@
        }
    } else {
        if is_optional {
            "descriptorElementDefaultAnnotations"@
        } else {
            "descriptorElementDefaultBoth"@
        }
    }
}

/// An argument as a list of operands.
pub open spec fn given(argument: Option<ast::ExprId>, ty: TyView) -> Seq<(ast::ExprId, TyView)> {
    match argument {
        Some(id) => seq![(id, ty)],
        None => seq![],
    }
}

/// The operation that stands for a call: over the receiver where it is written, the name, and the
/// arguments that are given.
pub open spec fn element_plan(call: FrontendSelectedCall) -> Option<PluginExpressionPlanView> {
    if !describes_element(call) {
        None
    } else {
        let slots = call.argument_slots@;
        Some(
            PluginExpressionPlanView {
                plugin: "serialization"@,
                operation: element_operation(slots[1] is Some, slots[2] is Some),
                data: seq![],
                types: seq![call.type_arguments@[0]->0@],
                implicit_receiver: call.explicit_receiver is None,
                operands: match call.explicit_receiver {
                    Some((receiver, ty)) => seq![(receiver, ty@)],
                    None => seq![],
                } + seq![(slots[0]->0, call.params@[0]@)] + given(slots[1], call.params@[1]@)
                    + given(slots[2], call.params@[2]@),
            },
        )
    }
}

fn is_element_call(call: &FrontendSelectedCall) -> (yes: bool)
    ensures
        yes == describes_element(*call),
{
    match &call.generic_sig {
        None => {
            return false;
        },
        Some(signature) => {
            if signature.formals.len() != 1 {
                return false;
            }
            match &signature.receiver {
                None => {
                    return false;
                },
                Some(receiver) => {
                    if !builds_descriptors(receiver) {
                        return false;
                    }
                },
            }
        },
    }
    if !call.owner.matches("kotlinx/serialization/descriptors/SerialDescriptorsKt")
        || !(same_text(call.name.as_str(), "element") || same_text(
        call.name.as_str(),
        "element$default",
    )) || !call.inline.can_inline() || call.params.len() != 3 {
        return false;
    }
    let received = match &call.explicit_receiver {
        Some((_, receiver)) => builds_descriptors(receiver),
        None => match &call.implicit_receiver {
            Some(receiver) => builds_descriptors(receiver),
            None => false,
        },
    };
    received && call.argument_slots.len() == 3 && call.argument_slots[0].is_some()
        && call.type_arguments.len() == 1 && call.type_arguments[0].is_some()
}

/// Plan the operation for a call whose target and arguments the frontend has selected. Nothing is
/// looked up again from its spelling.
pub fn plan(call: &FrontendSelectedCall) -> (planned: Option<PluginExpressionPlan>)
    ensures
        option_view(planned) == element_plan(*call),
{
    if !is_element_call(call) {
        return None;
    }
    let operation: &'static str = match (
        call.argument_slots[1].is_some(),
        call.argument_slots[2].is_some(),
    ) {
        (true, true) => "descriptorElement",
        (false, true) => "descriptorElementDefaultAnnotations",
        (true, false) => "descriptorElementDefaultOptional",
        (false, false) => "descriptorElementDefaultBoth",
    };
    let mut operands: Vec<(ast::ExprId, Ty)> = Vec::new();
    if let Some((receiver, ty)) = &call.explicit_receiver {
        operands.push((*receiver, ty.clone()));
    }
    if let Some(name) = call.argument_slots[0] {
        operands.push((name, call.params[0].clone()));
    }
    if let Some(annotations) = call.argument_slots[1] {
        operands.push((annotations, call.params[1].clone()));
    }
    if let Some(is_optional) = call.argument_slots[2] {
        operands.push((is_optional, call.params[2].clone()));
    }
    let mut types: Vec<Ty> = Vec::new();
    if let Some(element) = &call.type_arguments[0] {
        types.push(element.clone());
    }
    let planned = PluginExpressionPlan {
        plugin: "serialization",
        operation,
        data: Vec::new(),
        types,
        implicit_receiver: call.explicit_receiver.is_none(),
        operands,
    };
    proof {
        let shown = element_plan(*call)->0;
        assert(planned@.data =~= shown.data);
        assert(planned@.types =~= shown.types);
        assert(planned@.operands =~= shown.operands);
    }
    Some(planned)
}

/// Which of the last two arguments an operation leaves to their defaults.
pub open spec fn element_defaults(kind: Seq<char>) -> Option<(bool, bool)> {
    if kind == "descriptorElement"@ {
        Some((false, false))
    } else if kind == "descriptorElementDefaultAnnotations"@ {
        Some((true, false))
    } else if kind == "descriptorElementDefaultOptional"@ {
        Some((false, true))
    } else if kind == "descriptorElementDefaultBoth"@ {
        Some((true, true))
    } else {
        None
    }
}

fn defaults_of(kind: &str) -> (found: Option<(bool, bool)>)
    ensures
        found == element_defaults(kind@),
{
    if same_text(kind, "descriptorElement") {
        Some((false, false))
    } else if same_text(kind, "descriptorElementDefaultAnnotations") {
        Some((true, false))
    } else if same_text(kind, "descriptorElementDefaultOptional") {
        Some((false, true))
    } else if same_text(kind, "descriptorElementDefaultBoth") {
        Some((true, true))
    } else {
        None
    }
}

/// How many operands an operation has, its receiver and its name among them.
pub open spec fn operand_count(defaults: (bool, bool)) -> nat {
    (4 - if defaults.0 {
        1int
    } else {
        0
    } - if defaults.1 {
        1int
    } else {
        0
    }) as nat
}

/// Whether an operation can be realized: it has its operands and one type that has a serializer.
pub open spec fn realizable(
    ir: IrFile,
    ctx: PluginContext,
    defaults: (bool, bool),
    exprs: Seq<ExprId>,
    types: Seq<TyView>,
) -> bool {
    &&& types.len() == 1
    &&& exprs.len() == operand_count(defaults)
    &&& element_tree(ir, ctx, types[0], ScopeView::none()) is Some
}

/// The call of the builder that the operation is realized as.
pub open spec fn builder_element() -> CalleeView {
    class_member(
        "kotlinx/serialization/descriptors/ClassSerialDescriptorBuilder"@,
        "element"@,
        "(Ljava/lang/String;Lkotlinx/serialization/descriptors/SerialDescriptor;Ljava/util/List;Z)V"@,
    )
}

/// The descriptor of what `serializer` handles.
pub open spec fn descriptor_of(serializer: IrTree) -> IrTree {
    call_tree(
        interface_member(
            "kotlinx/serialization/KSerializer"@,
            "getDescriptor"@,
            "()Lkotlinx/serialization/descriptors/SerialDescriptor;"@,
        ),
        serializer,
        seq![],
    )
}

/// `emptyList()`.
pub open spec fn empty_list() -> IrTree {
    plain_call_tree(
        static_member(
            "kotlin/collections/CollectionsKt"@,
            "emptyList"@,
            "()Ljava/util/List;"@,
        ),
        seq![],
    )
}

/// Whether the operation at `index` was realized: with the expressions that were added before it
/// was replaced, the call takes the given operands and, for the others, their defaults.
pub open spec fn realized(
    before: IrFile,
    after: IrFile,
    ctx: PluginContext,
    index: int,
    defaults: (bool, bool),
    exprs: Seq<ExprId>,
    ty: TyView,
) -> bool {
    let grown = after.exprs@.update(index, before.exprs@[index]);
    let call = after.exprs@[index];
    let operands = call.operands();
    &&& after.exprs@.len() >= before.exprs@.len()
    &&& grows(before.exprs@, grown)
    &&& call.label() == (IrLabel::Call { callee: builder_element(), has_receiver: true })
    &&& operands.len() == 5
    &&& operands[0] == exprs[0]
    &&& operands[1] == exprs[1]
    &&& grounded(grown, operands[2])
    &&& tree(grown, operands[2]) == descriptor_of(
        element_tree(before, ctx, ty, ScopeView::none())->0,
    )
    &&& if defaults.0 {
        grounded(grown, operands[3]) && tree(grown, operands[3]) == empty_list()
    } else {
        operands[3] == exprs[2]
    }
    &&& if defaults.1 {
        grounded(grown, operands[4]) && tree(grown, operands[4]) == const_tree(
            IrConstView::Boolean(false),
        )
    } else {
        operands[4] == exprs.last()
    }
}

/// Realize the planned operation at `index`. The result says whether the operation is one of these;
/// one that cannot be realized stays as it is, and the file is declined.
pub fn specialize(
    ir: &mut IrFile,
    ctx: &PluginContext,
    index: usize,
    kind: &str,
    exprs: &[ExprId],
    types: &[Ty],
) -> (known: bool)
    requires
        index < old(ir).exprs@.len(),
        objects_named(*old(ir), *ctx),
    ensures
        known == (element_defaults(kind@) is Some),
        match element_defaults(kind@) {
            Some(defaults) if realizable(
                *old(ir),
                *ctx,
                defaults,
                exprs@,
                views(types@),
            ) => realized(
                *old(ir),
                *final(ir),
                *ctx,
                index as int,
                defaults,
                exprs@,
                types@[0]@,
            ) && *final(ir) == (IrFile { exprs: final(ir).exprs, ..*old(ir) }),
            _ => *final(ir) == *old(ir),
        },
{
    let ghost start = *ir;
    let (default_annotations, default_optional) = match defaults_of(kind) {
        Some(defaults) => defaults,
        None => {
            return false;
        },
    };
    if types.len() != 1 {
        return true;
    }
    let count: usize = 2 + if default_annotations {
        0
    } else {
        1usize
    } + if default_optional {
        0
    } else {
        1usize
    };
    if exprs.len() != count {
        return true;
    }
    let serializer: ExprId = match element_serializer_expr(ir, ctx, &types[0]) {
        Some(serializer) => serializer,
        None => {
            return true;
        },
    };
    let descriptor: ExprId = plant_call0(
        &mut ir.exprs,
        virtual_iface(
            "kotlinx/serialization/KSerializer",
            "getDescriptor",
            "()Lkotlinx/serialization/descriptors/SerialDescriptor;",
        ),
        serializer,
    );
    let ghost described = ir.exprs@;
    assert(grows(start.exprs@, described));
    let annotations: ExprId = if default_annotations {
        let none: Vec<ExprId> = Vec::new();
        assert(trees(ir.exprs@, none@) =~= Seq::<IrTree>::empty());
        plant_plain_call(
            &mut ir.exprs,
            static_callee("kotlin/collections/CollectionsKt", "emptyList", "()Ljava/util/List;"),
            none,
        )
    } else {
        exprs[2]
    };
    let ghost annotated = ir.exprs@;
    assert(grows(described, annotated));
    let is_optional: ExprId = if default_optional {
        plant_const(&mut ir.exprs, IrConst::Boolean(false))
    } else {
        exprs[exprs.len() - 1]
    };
    let ghost grown = ir.exprs@;
    assert(grows(annotated, grown));
    assert(grows(start.exprs@, grown));
    let mut args: Vec<ExprId> = Vec::new();
    args.push(exprs[1]);
    args.push(descriptor);
    args.push(annotations);
    args.push(is_optional);
    let call = IrExpr::Call {
        callee: virtual_class(
            &qualified("kotlinx/serialization/descriptors/ClassSerialDescriptorBuilder"),
            "element",
            "(Ljava/lang/String;Lkotlinx/serialization/descriptors/SerialDescriptor;Ljava/util/List;Z)V",
        ),
        dispatch_receiver: Some(exprs[0]),
        args,
    };
    assert(call.operands() =~= seq![exprs@[0], exprs@[1], descriptor, annotations, is_optional]);
    ir.exprs.set(index, call);
    assert(ir.exprs@.update(index as int, start.exprs@[index as int]) =~= grown);
    true
}

/// What is planned can be taken up again: the operation is known, and once the receiver is among
/// them it has as many operands as are asked for.
pub proof fn a_planned_operation_is_known(call: FrontendSelectedCall)
    requires
        describes_element(call),
    ensures
        element_defaults(element_plan(call)->0.operation) == Some(
            (call.argument_slots@[1] is None, call.argument_slots@[2] is None),
        ),
        operand_count(element_defaults(element_plan(call)->0.operation)->0)
            == element_plan(call)->0.operands.len() + if element_plan(
            call,
        )->0.implicit_receiver {
            1nat
        } else {
            0nat
        },
{
    reveal_strlit("descriptorElement");
    reveal_strlit("descriptorElementDefaultAnnotations");
    reveal_strlit("descriptorElementDefaultOptional");
    reveal_strlit("descriptorElementDefaultBoth");
    assert("descriptorElement"@.len() == 17);
    assert("descriptorElementDefaultAnnotations"@.len() == 35);
    assert("descriptorElementDefaultOptional"@.len() == 32);
    assert("descriptorElementDefaultBoth"@.len() == 28);
}

} // verus!
