//! The rule for a transient property of a serializable class: it has to have an initializer.
//!
//! A transient property is no serial element, so the deserialization constructor has no argument
//! for it and runs its initializer. A transient property that stores a value, has no initializer
//! and is not `lateinit` is rejected. The rule is for the classes whose serializer the plugin
//! builds from their properties, abstract and sealed ones too.

use vstd::prelude::*;

use crate::libraries::TypeKind;
use crate::model::holds;
use crate::names::qualified;
use crate::plugins::frontend::{
    FrontendClassCheckContext, FrontendPluginDiagnostic, FrontendPropertyFacts, Span,
};
use crate::plugins::serialization::annotations::transient_fq;
use crate::plugins::serialization::generated_classifier::{built_by_plugin, serializable_by_plugin};
use crate::plugins::serialization::plugin_release::PluginRelease;
use crate::text::views;

verus! {

broadcast use crate::text::group_views;

/// Whether the messages of a release end with a full stop. Where the release is not known, it is
/// taken for the newest.
pub open spec fn full_stop(release: Option<PluginRelease>) -> bool {
    match release {
        Some(release) => release.not_before(PluginRelease { major: 2, minor: 4, patch: 20 }),
        None => true,
    }
}

/// The wording of the complaint.
pub fn transient_missing_initializer(release: Option<PluginRelease>) -> (message: &'static str)
    ensures
        message@ == if full_stop(release) {
            "this property is marked as @Transient and therefore must have an initializing expression."@
        } else {
            "this property is marked as @Transient and therefore must have an initializing expression"@
        },
{
    let newest = match release {
        Some(release) => release.at_least(&PluginRelease::v2_4_20()),
        None => true,
    };
    if newest {
        "this property is marked as @Transient and therefore must have an initializing expression."
    } else {
        "this property is marked as @Transient and therefore must have an initializing expression"
    }
}

/// Whether a property is transient and nothing gives it a value.
pub open spec fn lacks_value(property: FrontendPropertyFacts) -> bool {
    &&& views(property.annotations@).contains("kotlinx/serialization/Transient"@)
    &&& property.has_backing_field
    &&& !property.has_initializer
    &&& !property.is_lateinit
}

/// The places of the properties that are complained about, in order.
pub open spec fn rejected(properties: Seq<FrontendPropertyFacts>) -> Seq<Span>
    decreases properties.len(),
{
    if properties.len() == 0 {
        seq![]
    } else if lacks_value(properties.last()) {
        rejected(properties.drop_last()).push(properties.last().declaration_span)
    } else {
        rejected(properties.drop_last())
    }
}

/// Whether the rule is for the class.
pub open spec fn checked(ctx: FrontendClassCheckContext<'_>) -> bool {
    ctx.kind == TypeKind::Class && built_by_plugin(
        views(ctx.annotations@),
        ctx.annotation_class_arguments@,
    )
}

/// The complaints about the properties of a class.
pub fn missing_initializers(
    ctx: &FrontendClassCheckContext<'_>,
    release: Option<PluginRelease>,
) -> (complaints: Vec<FrontendPluginDiagnostic>)
    ensures
        !checked(*ctx) ==> complaints@.len() == 0,
        checked(*ctx) ==> Seq::new(complaints@.len(), |k: int| complaints@[k].span) == rejected(
            ctx.properties@,
        ),
        forall|k: int|
            0 <= k < complaints@.len() ==> (#[trigger] complaints@[k]).message@ == (
            if full_stop(release) {
                "this property is marked as @Transient and therefore must have an initializing expression."@
            } else {
                "this property is marked as @Transient and therefore must have an initializing expression"@
            }),
{
    let message = transient_missing_initializer(release);
    let mut complaints: Vec<FrontendPluginDiagnostic> = Vec::new();
    if ctx.kind != TypeKind::Class || !serializable_by_plugin(
        ctx.annotations,
        ctx.annotation_class_arguments,
    ) {
        return complaints;
    }
    let transient = qualified(transient_fq());
    let mut index: usize = 0;
    assert(ctx.properties@.take(0) =~= seq![]);
    assert(Seq::new(complaints@.len(), |k: int| complaints@[k].span) =~= seq![]);
    while index < ctx.properties.len()
        invariant
            index <= ctx.properties@.len(),
            transient@ == "kotlinx/serialization/Transient"@,
            Seq::new(complaints@.len(), |k: int| complaints@[k].span) == rejected(
                ctx.properties@.take(index as int),
            ),
            forall|k: int|
                0 <= k < complaints@.len() ==> (#[trigger] complaints@[k]).message@ == message@,
        decreases ctx.properties@.len() - index,
    {
        let property = &ctx.properties[index];
        let ghost before = Seq::new(complaints@.len(), |k: int| complaints@[k].span);
        assert(ctx.properties@.take(index as int + 1).drop_last() =~= ctx.properties@.take(
            index as int,
        ));
        if holds(&property.annotations, &transient) && property.has_backing_field
            && !property.has_initializer && !property.is_lateinit {
            complaints.push(
                FrontendPluginDiagnostic { span: property.declaration_span, message },
            );
            assert(Seq::new(complaints@.len(), |k: int| complaints@[k].span) =~= before.push(
                property.declaration_span,
            ));
        }
        index += 1;
    }
    assert(ctx.properties@.take(index as int) =~= ctx.properties@);
    complaints
}

} // verus!
