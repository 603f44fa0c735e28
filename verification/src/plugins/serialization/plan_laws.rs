//! What holds of the serializers that elements are given.

use vstd::prelude::*;

use crate::ir::expr::{CalleeView, IrIntrinsic, IrLabel};
use crate::ir::file::IrFile;
use crate::ir::run::{ask, run, run_operands, Datum, Machine, Outcome, World};
use crate::ir::tree::{int_tree, value_tree};
use crate::model::{first_place, lemma_first_place};
use crate::plugins::context::PluginContext;
use crate::plugins::serialization::body_laws::lemma_leaf_values;
use crate::plugins::serialization::child_serializer_cache::slot_value;
use crate::plugins::serialization::element_serializer::{
    argument_plan, argument_plans, builtin_serializer, element_plan, given_plan,
    nullability_does_not_change_the_plan, readable, PlanView,
};
use crate::plugins::serialization::support::{
    element_decoder, element_encoder, primitive, primitive_of,
};
use crate::plugins::serialization::type_parameter_serializers::ScopeView;
use crate::types::TyView;

verus! {

/// A primitive type is called by its simple name, and its descriptor is the first letter of that
/// where no other type has claimed it.
pub proof fn a_primitive_type_is_called_by_its_name(classifier: Seq<char>)
    ensures
        primitive(classifier) matches Some((name, descriptor)) ==> {
            &&& classifier == "kotlin/"@ + name
            &&& if name == "String"@ {
                descriptor == "Ljava/lang/"@ + name + ";"@
            } else if name == "Long"@ {
                descriptor == "J"@
            } else if name == "Boolean"@ {
                descriptor == "Z"@
            } else {
                descriptor == name.take(1)
            }
        },
{
    if let Some((name, descriptor)) = primitive(classifier) {
        reveal_strlit("kotlin/");
        reveal_strlit("kotlin/Int");
        reveal_strlit("kotlin/Long");
        reveal_strlit("kotlin/Boolean");
        reveal_strlit("kotlin/Double");
        reveal_strlit("kotlin/Float");
        reveal_strlit("kotlin/Char");
        reveal_strlit("kotlin/Byte");
        reveal_strlit("kotlin/Short");
        reveal_strlit("kotlin/String");
        reveal_strlit("Int");
        reveal_strlit("Long");
        reveal_strlit("Boolean");
        reveal_strlit("Double");
        reveal_strlit("Float");
        reveal_strlit("Char");
        reveal_strlit("Byte");
        reveal_strlit("Short");
        reveal_strlit("String");
        reveal_strlit("I");
        reveal_strlit("J");
        reveal_strlit("Z");
        reveal_strlit("D");
        reveal_strlit("F");
        reveal_strlit("C");
        reveal_strlit("B");
        reveal_strlit("S");
        reveal_strlit("Ljava/lang/");
        reveal_strlit(";");
        reveal_strlit("Ljava/lang/String;");
        assert(classifier =~= "kotlin/"@ + name);
        assert(descriptor =~= "Ljava/lang/"@ + name + ";"@ || descriptor =~= name.take(1)
            || descriptor == "J"@ || descriptor == "Z"@);
        lemma_letters(name);
    }
}

proof fn lemma_letters(name: Seq<char>)
    ensures
        name == "Long"@ ==> name.len() == 4 && name[0] == 'L',
        name == "Boolean"@ ==> name.len() == 7 && name[0] == 'B',
        name == "String"@ ==> name.len() == 6 && name[0] == 'S' && name[1] == 't',
{
    reveal_strlit("Long");
    reveal_strlit("Boolean");
    reveal_strlit("String");
}

/// A type is written and read by members of one name, which take and give one descriptor.
pub proof fn what_is_written_is_read_under_the_same_name(ty: TyView)
    ensures
        element_encoder(ty) is Some <==> element_decoder(ty) is Some,
        element_encoder(ty) matches Some(encoder) ==> exists|name: Seq<char>, value: Seq<char>|
            {
                &&& #[trigger] are_members_for(encoder, element_decoder(ty)->0, name, value)
                &&& ty.kotlin_class_internal() == Some("kotlin/"@ + name)
            },
{
    if let Some((name, value)) = primitive_of(ty) {
        a_primitive_type_is_called_by_its_name(ty.kotlin_class_internal()->0);
        assert(are_members_for(element_encoder(ty)->0, element_decoder(ty)->0, name, value));
    }
}

/// Whether two members write and read values of one name and one descriptor.
pub open spec fn are_members_for(
    encoder: (Seq<char>, Seq<char>),
    decoder: (Seq<char>, Seq<char>),
    name: Seq<char>,
    value: Seq<char>,
) -> bool {
    &&& encoder.0 == "encode"@ + name + "Element"@
    &&& decoder.0 == "decode"@ + name + "Element"@
    &&& encoder.1 == written_descriptor(value)
    &&& decoder.1 == read_descriptor(value)
}

/// The descriptor of a member that writes a value.
pub open spec fn written_descriptor(value: Seq<char>) -> Seq<char> {
    "(Lkotlinx/serialization/descriptors/SerialDescriptor;I"@ + value + ")V"@
}

/// The descriptor of a member that reads a value.
pub open spec fn read_descriptor(value: Seq<char>) -> Seq<char> {
    "(Lkotlinx/serialization/descriptors/SerialDescriptor;I)"@ + value
}

/// The serializer of a builtin type is called after the type.
pub proof fn a_builtin_serializer_is_called_after_its_type(classifier: Seq<char>)
    ensures
        builtin_serializer(classifier) matches Some((serializer, _)) ==> exists|package: Seq<
            char,
        >, name: Seq<char>|
            {
                &&& classifier == #[trigger] in_package(package, name)
                &&& serializer == "kotlinx/serialization/internal/"@ + name + "Serializer"@
            },
{
    if let Some((serializer, _)) = builtin_serializer(classifier) {
        reveal_strlit("/");
        reveal_strlit("Serializer");
        reveal_strlit("kotlinx/serialization/internal/");
        reveal_strlit("kotlin/String");
        reveal_strlit("kotlin/Int");
        reveal_strlit("kotlin/Long");
        reveal_strlit("kotlin/Boolean");
        reveal_strlit("kotlin/Double");
        reveal_strlit("kotlin/Float");
        reveal_strlit("kotlin/Char");
        reveal_strlit("kotlin/Byte");
        reveal_strlit("kotlin/Short");
        reveal_strlit("kotlin/uuid/Uuid");
        reveal_strlit("kotlin/time/Instant");
        reveal_strlit("kotlinx/serialization/internal/StringSerializer");
        reveal_strlit("kotlinx/serialization/internal/IntSerializer");
        reveal_strlit("kotlinx/serialization/internal/LongSerializer");
        reveal_strlit("kotlinx/serialization/internal/BooleanSerializer");
        reveal_strlit("kotlinx/serialization/internal/DoubleSerializer");
        reveal_strlit("kotlinx/serialization/internal/FloatSerializer");
        reveal_strlit("kotlinx/serialization/internal/CharSerializer");
        reveal_strlit("kotlinx/serialization/internal/ByteSerializer");
        reveal_strlit("kotlinx/serialization/internal/ShortSerializer");
        reveal_strlit("kotlinx/serialization/internal/UuidSerializer");
        reveal_strlit("kotlinx/serialization/internal/InstantSerializer");
        let length = serializer.len() - 41;
        let name = serializer.subrange(31, 31 + length);
        let package = classifier.take(classifier.len() - length - 1);
        assert(classifier =~= in_package(package, name));
        assert(serializer =~= "kotlinx/serialization/internal/"@ + name + "Serializer"@);
    }
}

/// A name in a package.
pub open spec fn in_package(package: Seq<char>, name: Seq<char>) -> Seq<char> {
    package + "/"@ + name
}

/// Each argument of a type has the plan for what it reads as, in its own place, and there are plans
/// only where every argument has one.
pub proof fn each_argument_has_its_own_plan(
    ir: IrFile,
    ctx: PluginContext,
    name: Seq<char>,
    arguments: Seq<TyView>,
    scope: ScopeView,
)
    ensures
        ({
            let ty = TyView::Obj(name, arguments);
            let plans = argument_plans(ir, ctx, ty, arguments.len(), false, scope);
            match plans {
                Some(found) => found.len() == arguments.len() && forall|k: int|
                    0 <= k < arguments.len() ==> argument_plan(
                        ir,
                        ctx,
                        #[trigger] arguments[k],
                        scope,
                    ) == Some(found[k]),
                None => exists|k: int|
                    0 <= k < arguments.len() && argument_plan(
                        ir,
                        ctx,
                        #[trigger] arguments[k],
                        scope,
                    ) is None,
            }
        }),
{
    let ty = TyView::Obj(name, arguments);
    reveal_with_fuel(argument_plans, 2);
    reveal_with_fuel(given_plan, 2);
    assert(ty.non_null() == ty);
    assert forall|k: int| 0 <= k < arguments.len() implies given_plan(
        ir,
        ctx,
        #[trigger] arguments[k],
        false,
        scope,
    ) == argument_plan(ir, ctx, arguments[k], scope) by {}
    let plans = argument_plans(ir, ctx, ty, arguments.len(), false, scope);
    if plans is Some {
        assert forall|k: int| 0 <= k < arguments.len() implies argument_plan(
            ir,
            ctx,
            #[trigger] arguments[k],
            scope,
        ) == Some(plans->0[k]) by {
            assert(given_plan(ir, ctx, arguments[k], false, scope) is Some);
        }
    } else {
        let k = choose|k: int|
            0 <= k < arguments.len() && given_plan(
                ir,
                ctx,
                #[trigger] arguments[k],
                false,
                scope,
            ) is None;
        assert(argument_plan(ir, ctx, arguments[k], scope) is None);
    }
}

/// A nullable argument has the plan of its type inside one for nullable values, and an argument
/// that does not admit null has it as it is.
pub proof fn a_nullable_argument_is_wrapped_once(
    ir: IrFile,
    ctx: PluginContext,
    argument: TyView,
    scope: ScopeView,
)
    requires
        !argument.admits_null(),
        argument.projection_inner() is None,
    ensures
        argument_plan(ir, ctx, argument, scope) == element_plan(ir, ctx, argument, scope),
        argument_plan(ir, ctx, argument.nullable(), scope) == match element_plan(
            ir,
            ctx,
            argument,
            scope,
        ) {
            Some(plan) => Some(PlanView::Nullable(Box::new(plan))),
            None => None,
        },
        argument_plan(ir, ctx, TyView::InProjection(Box::new(argument)), scope) is None,
        argument_plan(ir, ctx, TyView::OutProjection(Box::new(argument)), scope) == argument_plan(
            ir,
            ctx,
            argument,
            scope,
        ),
{
    reveal_with_fuel(argument_plan, 2);
    nullability_does_not_change_the_plan(ir, ctx, argument, scope);
    assert(argument.nullable() == TyView::Nullable(Box::new(argument)));
    assert(readable(argument) == Some(argument));
    assert(readable(argument.nullable()) == Some(argument.nullable()));
}

/// The serializer of a type parameter is the one that stands in its place among those that the
/// serializer hands out.
pub proof fn a_type_parameter_has_the_serializer_in_its_place(scope: ScopeView, k: int)
    requires
        0 <= k < scope.identities.len(),
        scope.identities.no_duplicates(),
        scope.fits(),
    ensures
        scope.field(scope.identities[k]) matches Some(field) && field == k + 1
            && scope.array().operands[k].label == (IrLabel::GetField {
            class: scope.serializer_class,
            index: field,
        }),
{
    lemma_first(scope.identities, k);
}

proof fn lemma_first(names: Seq<Seq<char>>, k: int)
    requires
        0 <= k < names.len(),
        names.no_duplicates(),
    ensures
        first_place(names, names[k]) == Some(k as nat),
    decreases names.len(),
{
    lemma_first_place(names, names[k]);
    let found = first_place(names, names[k]);
    assert(names[k] == names[k]);
    assert(found is Some);
    assert(names[found->0 as int] == names[k]);
}

/// Whether an operation reads an array.
pub open spec fn is_array_read(label: IrLabel) -> bool {
    &&& label matches IrLabel::Call { callee, .. }
    &&& callee matches CalleeView::Intrinsic { operation, .. }
    &&& operation == IrIntrinsic::ArrayGet
}

/// The cached serializer of an element is read from the slot at its place.
pub proof fn a_cached_serializer_is_read_from_its_slot(
    local: u32,
    k: usize,
    world: World,
    rounds: nat,
    machine: Machine,
)
    requires
        k <= i32::MAX,
    ensures
        ({
            let after = run(world, rounds, slot_value(local, k), machine);
            let log = after.machine.log;
            let first = machine.log.len() as int;
            &&& after.machine.locals == machine.locals
            &&& log.len() == first + 2
            &&& log.take(first) == machine.log
            &&& is_array_read(log[first].label)
            &&& log[first].operands == seq![machine.locals[local], Datum::Int(k as i32)]
            &&& log[first + 1].operands == seq![(world.answers)(machine.log, log[first])]
            &&& after.outcome == Outcome::Value((world.answers)(log.take(first + 1), log[first + 1]))
        }),
{
    let tree = slot_value(local, k);
    let slot = tree.operands[0];
    assert(slot.operands =~= seq![value_tree(local), int_tree(k as i32)]);
    lemma_leaf_values(world, rounds, slot, 2, machine);
    let values = run_operands(world, rounds, slot, 2, machine).outcome->Ok_0;
    assert(values =~= seq![machine.locals[local], Datum::Int(k as i32)]);
    let got = run(world, rounds, slot, machine);
    assert(got == ask(world, slot.label, values, machine));
    let none = run_operands(world, rounds, tree, 0, machine);
    assert(none.outcome == Ok::<Seq<Datum>, Outcome>(seq![]) && none.machine == machine);
    let one = run_operands(world, rounds, tree, 1, machine);
    assert(one.outcome->Ok_0 =~= seq![got.outcome->Value_0]);
    assert(one.machine == got.machine);
    let after = run(world, rounds, tree, machine);
    assert(after == ask(world, tree.label, one.outcome->Ok_0, got.machine));
    let first = machine.log.len() as int;
    assert(after.machine.log.take(first) =~= machine.log);
    assert(after.machine.log.take(first + 1) =~= got.machine.log);
}

} // verus!
