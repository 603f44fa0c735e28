//! The members that generated classes declare, and what is published of them.

use vstd::prelude::*;

use crate::ir::annotations::{AnnoValueView, AnnotationRetention, AppliedAnnotationView};
use crate::ir::expr::{Callee, CalleeView, ExprId, FunId, IrExpr, IrSuperCallKind};
use crate::ir::file::{IrFile, IrFunction, IrFunctionView};
use crate::ir::generated::{
    IrGeneratedDeclarationDebug, IrGeneratedFunctionMetadata, IrGeneratedFunctionMetadataScope,
    IrGeneratedFunctionMetadataView, IrGeneratedFunctionPublication,
    IrGeneratedFunctionPublicationView, IrGeneratedMemberPublication,
    IrGeneratedMemberPublicationView,
};
use crate::ir::tree::{
    block_tree, call_tree, grounded, grows, plant_block1, plant_call0, plant_return, plant_value,
    return_tree, tree, value_tree, IrTree,
};
use crate::libraries::{MemberRealization, Visibility};
use crate::names::{qualified, TypeName};
use crate::plugins::serialization::annotations::write_self_annotations;
use crate::plugins::serialization::generated_classifier::{kserializer_of, serializer_type};
use crate::plugins::serialization::support::{class_ty, class_type};
use crate::text::{option_view, views};
use crate::types::{Ty, TyView};

verus! {

broadcast use {
    crate::text::group_views,
    crate::types::group_ty_views,
    crate::ir::tree::group_growth,
};

/// A published function. One without metadata is not for Kotlin callers.
pub open spec fn published(
    function: FunId,
    parameter_names: Seq<Seq<char>>,
    metadata: Option<(Seq<char>, Visibility)>,
    debug: IrGeneratedDeclarationDebug,
) -> IrGeneratedFunctionPublicationView {
    IrGeneratedFunctionPublicationView {
        function,
        parameter_names,
        metadata: match metadata {
            Some((source_name, visibility)) => Some(
                IrGeneratedFunctionMetadataView { source_name, visibility },
            ),
            None => None,
        },
        debug,
    }
}

fn publish(
    function: FunId,
    parameter_names: Vec<String>,
    metadata: Option<(&str, Visibility)>,
    debug: IrGeneratedDeclarationDebug,
) -> (out: IrGeneratedFunctionPublication)
    ensures
        out@ == published(
            function,
            views(parameter_names@),
            match metadata {
                Some((source_name, visibility)) => Some((source_name@, visibility)),
                None => None,
            },
            debug,
        ),
{
    IrGeneratedFunctionPublication {
        function,
        parameter_names,
        metadata: match metadata {
            Some((source_name, visibility)) => Some(
                IrGeneratedFunctionMetadata { source_name: source_name.to_owned(), visibility },
            ),
            None => None,
        },
        debug,
    }
}

/// What is published of the write helper of a class: it is added to what the class shows, and only
/// its module may call it.
pub open spec fn write_self_published(
    function: FunId,
    owner_line: u32,
) -> IrGeneratedMemberPublicationView {
    IrGeneratedMemberPublicationView {
        metadata_scope: IrGeneratedFunctionMetadataScope::Additive,
        functions: seq![
            published(
                function,
                seq!["self"@, "output"@, "serialDesc"@],
                Some(("write$Self"@, Visibility::Internal)),
                IrGeneratedDeclarationDebug::DeclarationLine { line: owner_line },
            ),
        ],
    }
}

pub fn write_self_publication(function: FunId, owner_line: u32) -> (out:
    IrGeneratedMemberPublication)
    ensures
        out@ == write_self_published(function, owner_line),
{
    let mut names: Vec<String> = Vec::new();
    names.push("self".to_owned());
    names.push("output".to_owned());
    names.push("serialDesc".to_owned());
    assert(views(names@) =~= seq!["self"@, "output"@, "serialDesc"@]);
    let mut functions: Vec<IrGeneratedFunctionPublication> = Vec::new();
    functions.push(
        publish(
            function,
            names,
            Some(("write$Self", Visibility::Internal)),
            IrGeneratedDeclarationDebug::declaration_line(owner_line),
        ),
    );
    let out = IrGeneratedMemberPublication {
        metadata_scope: IrGeneratedFunctionMetadataScope::Additive,
        functions,
    };
    assert(out@.functions =~= write_self_published(function, owner_line).functions);
    out
}

/// Publish the write helper `function` of `owner`, a static member for Kotlin callers too.
pub fn publish_write_self(ir: &mut IrFile, owner: &TypeName, function: FunId, owner_line: u32)
    ensures
        final(ir).generated_members@.len() == old(ir).generated_members@.len() + 1,
        final(ir).generated_members@.drop_last() == old(ir).generated_members@,
        final(ir).generated_members@.last().0@ == owner@,
        final(ir).generated_members@.last().1@ == write_self_published(function, owner_line),
        final(ir).function_annotations@.contains_key(function),
        final(ir).function_annotations@[function]@ == seq![
            (
                AnnotationRetention::Runtime,
                AppliedAnnotationView {
                    internal: "kotlin/jvm/JvmStatic"@,
                    values: Seq::<(Seq<char>, AnnoValueView)>::empty(),
                },
            ),
        ],
        final(ir).function_annotations@ == old(ir).function_annotations@.insert(
            function,
            final(ir).function_annotations@[function],
        ),
        *final(ir) == (IrFile {
            generated_members: final(ir).generated_members,
            function_annotations: final(ir).function_annotations,
            ..*old(ir)
        }),
{
    ir.function_annotations.insert(function, write_self_annotations());
    ir.publish_generated_members(owner, write_self_publication(function, owner_line));
}

/// The members of a generated serializer.
#[derive(Clone, Copy, Debug, PartialEq, Eq, Structural)]
pub struct GeneratedSerializerMembers {
    pub descriptor: FunId,
    pub serialize: FunId,
    pub deserialize: FunId,
    pub child_serializers: FunId,
    pub type_parameter_serializers: FunId,
}

impl GeneratedSerializerMembers {
    /// What is published of the members: all that the class shows. The serializers of type
    /// parameters are for Kotlin callers where the class is generic, and the descriptor never is.
    pub open spec fn published(
        self,
        generic: bool,
        owner_line: u32,
        owner_end_line: u32,
    ) -> IrGeneratedMemberPublicationView {
        let line = IrGeneratedDeclarationDebug::DeclarationLine { line: owner_line };
        let shown = seq![
            published(
                self.child_serializers,
                seq![],
                Some(("childSerializers"@, Visibility::Public)),
                line,
            ),
            published(
                self.deserialize,
                seq!["decoder"@],
                Some(("deserialize"@, Visibility::Public)),
                line,
            ),
            published(
                self.serialize,
                seq!["encoder"@, "value"@],
                Some(("serialize"@, Visibility::Public)),
                IrGeneratedDeclarationDebug::DeclarationLineWithFallthrough {
                    line: owner_line,
                    end: owner_end_line,
                },
            ),
        ];
        let descriptor = published(
            self.descriptor,
            seq![],
            None,
            IrGeneratedDeclarationDebug::LocalsOnly,
        );
        IrGeneratedMemberPublicationView {
            metadata_scope: IrGeneratedFunctionMetadataScope::Exclusive,
            functions: if generic {
                shown.push(
                    published(
                        self.type_parameter_serializers,
                        seq![],
                        Some(("typeParametersSerializers"@, Visibility::Public)),
                        line,
                    ),
                ).push(descriptor)
            } else {
                shown.push(descriptor).push(
                    published(self.type_parameter_serializers, seq![], None, line),
                )
            },
        }
    }

    pub fn publication(&self, generic: bool, owner_line: u32, owner_end_line: u32) -> (out:
        IrGeneratedMemberPublication)
        ensures
            out@ == self.published(generic, owner_line, owner_end_line),
    {
        let line = IrGeneratedDeclarationDebug::declaration_line(owner_line);
        let decoder = deserialize_names();
        let encoder = serialize_names();
        let mut functions: Vec<IrGeneratedFunctionPublication> = Vec::new();
        functions.push(
            publish(
                self.child_serializers,
                no_names(),
                Some(("childSerializers", Visibility::Public)),
                line,
            ),
        );
        functions.push(
            publish(self.deserialize, decoder, Some(("deserialize", Visibility::Public)), line),
        );
        functions.push(
            publish(
                self.serialize,
                encoder,
                Some(("serialize", Visibility::Public)),
                IrGeneratedDeclarationDebug::declaration_line_with_fallthrough(
                    owner_line,
                    owner_end_line,
                ),
            ),
        );
        if generic {
            functions.push(
                publish(
                    self.type_parameter_serializers,
                    no_names(),
                    Some(("typeParametersSerializers", Visibility::Public)),
                    line,
                ),
            );
        }
        functions.push(
            publish(self.descriptor, no_names(), None, IrGeneratedDeclarationDebug::LocalsOnly),
        );
        if !generic {
            functions.push(publish(self.type_parameter_serializers, no_names(), None, line));
        }
        let out = IrGeneratedMemberPublication {
            metadata_scope: IrGeneratedFunctionMetadataScope::Exclusive,
            functions,
        };
        assert(out@.functions =~= self.published(generic, owner_line, owner_end_line).functions);
        out
    }
}

fn no_names() -> (names: Vec<String>)
    ensures
        views(names@) == Seq::<Seq<char>>::empty(),
{
    let names: Vec<String> = Vec::new();
    assert(views(names@) =~= Seq::<Seq<char>>::empty());
    names
}

fn serialize_names() -> (names: Vec<String>)
    ensures
        views(names@) == seq!["encoder"@, "value"@],
{
    let mut names: Vec<String> = Vec::new();
    names.push("encoder".to_owned());
    names.push("value".to_owned());
    assert(views(names@) =~= seq!["encoder"@, "value"@]);
    names
}

fn deserialize_names() -> (names: Vec<String>)
    ensures
        views(names@) == seq!["decoder"@],
{
    let mut names: Vec<String> = Vec::new();
    names.push("decoder".to_owned());
    assert(views(names@) =~= seq!["decoder"@]);
    names
}

/// A generated instance method of `owner`. Null arguments are rejected under the names `guards`,
/// where there are any.
pub open spec fn instance_method(
    owner: Seq<char>,
    name: Seq<char>,
    params: Seq<TyView>,
    ret: TyView,
    body: Option<ExprId>,
    guards: Seq<Seq<char>>,
) -> IrFunctionView {
    IrFunctionView {
        name,
        params,
        ret,
        body,
        is_static: false,
        dispatch_receiver: Some(owner),
        param_checks: Seq::new(guards.len(), |k: int| Some(guards[k])),
    }
}

/// Add an instance method to a generated class.
pub fn add_instance_method(
    ir: &mut IrFile,
    owner: &TypeName,
    name: &str,
    params: Vec<Ty>,
    ret: Ty,
    body: Option<ExprId>,
) -> (function: FunId)
    ensures
        function == old(ir).functions@.len(),
        final(ir).functions@.len() == function + 1,
        final(ir).functions@.drop_last() == old(ir).functions@,
        final(ir).functions@.last()@ == instance_method(
            owner@,
            name@,
            views(params@),
            ret@,
            body,
            seq![],
        ),
        *final(ir) == (IrFile { functions: final(ir).functions, ..*old(ir) }),
{
    let function = IrFunction {
        name: name.to_owned(),
        params,
        ret,
        body,
        is_static: false,
        dispatch_receiver: Some(owner.clone()),
        param_checks: Vec::new(),
    };
    assert(function@ =~= instance_method(owner@, name@, views(params@), ret@, body, seq![]));
    let id: FunId = ir.add_fun(function);
    assert(ir.functions@.drop_last() =~= old(ir).functions@);
    id
}

/// A parameter that is not null, with the name under which a null argument is rejected. The type
/// and the name belong to one position.
#[derive(Debug)]
pub struct GuardedParameter {
    ty: Ty,
    name: &'static str,
}

/// The model of a guarded parameter.
pub struct GuardedParameterView {
    pub ty: TyView,
    pub name: Seq<char>,
}

impl View for GuardedParameter {
    type V = GuardedParameterView;

    closed spec fn view(&self) -> GuardedParameterView {
        GuardedParameterView { ty: self.ty@, name: self.name@ }
    }
}

impl GuardedParameter {
    pub fn new(ty: Ty, name: &'static str) -> (parameter: Self)
        ensures
            parameter@ == (GuardedParameterView { ty: ty@, name: name@ }),
    {
        GuardedParameter { ty, name }
    }
}

/// The types of guarded parameters.
pub open spec fn guarded_types(params: Seq<GuardedParameter>) -> Seq<TyView> {
    Seq::new(params.len(), |k: int| params[k]@.ty)
}

/// The names of guarded parameters.
pub open spec fn guarded_names(params: Seq<GuardedParameter>) -> Seq<Seq<char>> {
    Seq::new(params.len(), |k: int| params[k]@.name)
}

/// Add an instance method that rejects null for each of its parameters on entry.
pub fn add_guarded_instance_method(
    ir: &mut IrFile,
    owner: &TypeName,
    name: &str,
    params: Vec<GuardedParameter>,
    ret: Ty,
    body: Option<ExprId>,
) -> (function: FunId)
    ensures
        function == old(ir).functions@.len(),
        final(ir).functions@.len() == function + 1,
        final(ir).functions@.drop_last() == old(ir).functions@,
        final(ir).functions@.last()@ == instance_method(
            owner@,
            name@,
            guarded_types(params@),
            ret@,
            body,
            guarded_names(params@),
        ),
        *final(ir) == (IrFile { functions: final(ir).functions, ..*old(ir) }),
{
    let mut types: Vec<Ty> = Vec::new();
    let mut param_checks: Vec<Option<String>> = Vec::new();
    let mut index: usize = 0;
    while index < params.len()
        invariant
            index <= params@.len(),
            types@.len() == index,
            param_checks@.len() == index,
            forall|k: int| 0 <= k < index ==> (#[trigger] types@[k])@ == params@[k]@.ty,
            forall|k: int|
                0 <= k < index ==> option_view(#[trigger] param_checks@[k]) == Some(
                    params@[k]@.name,
                ),
        decreases params@.len() - index,
    {
        types.push(params[index].ty.clone());
        param_checks.push(Some(params[index].name.to_owned()));
        index += 1;
    }
    let ghost shown = instance_method(
        owner@,
        name@,
        guarded_types(params@),
        ret@,
        body,
        guarded_names(params@),
    );
    let function = IrFunction {
        name: name.to_owned(),
        params: types,
        ret,
        body,
        is_static: false,
        dispatch_receiver: Some(owner.clone()),
        param_checks,
    };
    assert(function@.params =~= shown.params);
    assert(function@.param_checks =~= shown.param_checks);
    let id: FunId = ir.add_fun(function);
    assert(ir.functions@.drop_last() =~= old(ir).functions@);
    id
}

/// `Array<KSerializer<*>>`: the serializers in it are of unrelated types.
pub open spec fn serializer_array() -> TyView {
    TyView::Obj(
        "kotlin/Array"@,
        seq![
            serializer_type(
                TyView::StarProjection(
                    Box::new(TyView::Nullable(Box::new(class_type("kotlin/Any"@)))),
                ),
            ),
        ],
    )
}

fn serializer_array_ty() -> (ty: Ty)
    ensures
        ty@ == serializer_array(),
{
    let mut arguments: Vec<Ty> = Vec::new();
    arguments.push(kserializer_of(Ty::star_projection(Ty::nullable(class_ty("kotlin/Any")))));
    assert(views(arguments@) =~= seq![
        serializer_type(
            TyView::StarProjection(
                Box::new(TyView::Nullable(Box::new(class_type("kotlin/Any"@)))),
            ),
        ),
    ]);
    Ty::obj_args("kotlin/Array", arguments.as_slice())
}

/// The inherited serializers of type parameters, returned. The call names the inherited member; how
/// it is called is left to the target.
pub open spec fn inherited_result(owner: Seq<char>) -> IrTree {
    block_tree(
        seq![
            return_tree(
                call_tree(
                    CalleeView::Super {
                        owner: "kotlinx/serialization/internal/GeneratedSerializer"@,
                        dispatch_owner: owner,
                        enclosing_dispatch: false,
                        kind: IrSuperCallKind::Function,
                        name: "typeParametersSerializers"@,
                        params: seq![],
                        ret: serializer_array(),
                        interface: true,
                        realization: MemberRealization::Dispatch,
                        descriptor: ""@,
                    },
                    value_tree(0),
                    seq![],
                ),
            ),
        ],
    )
}

/// The five members of the generated serializer `owner` of values of the type `serialized`, the
/// functions from `first` on.
pub open spec fn serializer_functions(
    functions: Seq<IrFunction>,
    exprs: Seq<IrExpr>,
    first: int,
    owner: Seq<char>,
    serialized: TyView,
) -> bool {
    &&& functions.len() == first + 5
    &&& functions[first]@ == instance_method(
        owner,
        "getDescriptor"@,
        seq![],
        class_type("kotlinx/serialization/descriptors/SerialDescriptor"@),
        None,
        seq![],
    )
    &&& functions[first + 1]@ == instance_method(
        owner,
        "serialize"@,
        seq![class_type("kotlinx/serialization/encoding/Encoder"@), serialized],
        TyView::Unit,
        None,
        seq!["encoder"@, "value"@],
    )
    &&& functions[first + 2]@ == instance_method(
        owner,
        "deserialize"@,
        seq![class_type("kotlinx/serialization/encoding/Decoder"@)],
        serialized,
        None,
        seq!["decoder"@],
    )
    &&& functions[first + 3]@ == instance_method(
        owner,
        "childSerializers"@,
        seq![],
        serializer_array(),
        None,
        seq![],
    )
    &&& functions[first + 4]@ == instance_method(
        owner,
        "typeParametersSerializers"@,
        seq![],
        serializer_array(),
        functions[first + 4].body,
        seq![],
    )
    &&& functions[first + 4].body matches Some(body) && grounded(exprs, body) && tree(exprs, body)
        == inherited_result(owner)
}

/// Declare the members of the generated serializer `owner`. Where there are no type parameters, the
/// last of them passes on the inherited default and is an open bridge; where there are, it is to be
/// a final override.
pub fn add_serializer_members(
    ir: &mut IrFile,
    owner: &TypeName,
    serialized_type: &Ty,
    owner_line: u32,
    owner_end_line: u32,
    has_type_parameters: bool,
) -> (members: GeneratedSerializerMembers)
    requires
        old(ir).functions@.len() + 4 <= usize::MAX,
    ensures
        members == (GeneratedSerializerMembers {
            descriptor: old(ir).functions@.len() as usize,
            serialize: (old(ir).functions@.len() + 1) as usize,
            deserialize: (old(ir).functions@.len() + 2) as usize,
            child_serializers: (old(ir).functions@.len() + 3) as usize,
            type_parameter_serializers: (old(ir).functions@.len() + 4) as usize,
        }),
        grows(old(ir).exprs@, final(ir).exprs@),
        final(ir).functions@.take(old(ir).functions@.len() as int) == old(ir).functions@,
        serializer_functions(
            final(ir).functions@,
            final(ir).exprs@,
            old(ir).functions@.len() as int,
            owner@,
            serialized_type@,
        ),
        final(ir).open_methods@ == if has_type_parameters {
            old(ir).open_methods@
        } else {
            old(ir).open_methods@.insert(members.type_parameter_serializers)
        },
        final(ir).bridge_methods@ == if has_type_parameters {
            old(ir).bridge_methods@
        } else {
            old(ir).bridge_methods@.insert(members.type_parameter_serializers)
        },
        final(ir).generated_members@.len() == old(ir).generated_members@.len() + 1,
        final(ir).generated_members@.drop_last() == old(ir).generated_members@,
        final(ir).generated_members@.last().0@ == owner@,
        final(ir).generated_members@.last().1@ == members.published(
            has_type_parameters,
            owner_line,
            owner_end_line,
        ),
        *final(ir) == (IrFile {
            exprs: final(ir).exprs,
            functions: final(ir).functions,
            open_methods: final(ir).open_methods,
            bridge_methods: final(ir).bridge_methods,
            generated_members: final(ir).generated_members,
            ..*old(ir)
        }),
{
    let ghost first = ir.functions@.len() as int;
    let descriptor: FunId = add_instance_method(
        ir,
        owner,
        "getDescriptor",
        no_types(),
        class_ty("kotlinx/serialization/descriptors/SerialDescriptor"),
        None,
    );
    let ghost one = ir.functions@;
    let mut inputs: Vec<GuardedParameter> = Vec::new();
    inputs.push(
        GuardedParameter::new(class_ty("kotlinx/serialization/encoding/Encoder"), "encoder"),
    );
    inputs.push(GuardedParameter::new(serialized_type.clone(), "value"));
    assert(guarded_types(inputs@) =~= seq![
        class_type("kotlinx/serialization/encoding/Encoder"@),
        serialized_type@,
    ]);
    assert(guarded_names(inputs@) =~= seq!["encoder"@, "value"@]);
    let serialize: FunId = add_guarded_instance_method(
        ir,
        owner,
        "serialize",
        inputs,
        Ty::Unit,
        None,
    );
    let ghost two = ir.functions@;
    let mut inputs: Vec<GuardedParameter> = Vec::new();
    inputs.push(
        GuardedParameter::new(class_ty("kotlinx/serialization/encoding/Decoder"), "decoder"),
    );
    assert(guarded_types(inputs@) =~= seq![
        class_type("kotlinx/serialization/encoding/Decoder"@),
    ]);
    assert(guarded_names(inputs@) =~= seq!["decoder"@]);
    let deserialize: FunId = add_guarded_instance_method(
        ir,
        owner,
        "deserialize",
        inputs,
        serialized_type.clone(),
        None,
    );
    let ghost three = ir.functions@;
    let child_serializers: FunId = add_instance_method(
        ir,
        owner,
        "childSerializers",
        no_types(),
        serializer_array_ty(),
        None,
    );
    let ghost four = ir.functions@;
    let this: ExprId = plant_value(&mut ir.exprs, 0);
    let inherited: ExprId = plant_call0(
        &mut ir.exprs,
        Callee::Super {
            owner: qualified("kotlinx/serialization/internal/GeneratedSerializer"),
            dispatch_owner: owner.clone(),
            enclosing_dispatch: false,
            kind: IrSuperCallKind::Function,
            name: "typeParametersSerializers".to_owned(),
            params: no_types(),
            ret: serializer_array_ty(),
            interface: true,
            realization: MemberRealization::Dispatch,
            descriptor: "".to_owned(),
        },
        this,
    );
    let returned: ExprId = plant_return(&mut ir.exprs, inherited);
    let body: ExprId = plant_block1(&mut ir.exprs, returned);
    let type_parameter_serializers: FunId = add_instance_method(
        ir,
        owner,
        "typeParametersSerializers",
        no_types(),
        serializer_array_ty(),
        Some(body),
    );
    proof {
        let all = ir.functions@;
        assert(forall|k: int| 0 <= k < four.len() ==> #[trigger] all[k] == all.drop_last()[k]);
        assert(forall|k: int| 0 <= k < three.len() ==> #[trigger] four[k] == four.drop_last()[k]);
        assert(forall|k: int| 0 <= k < two.len() ==> #[trigger] three[k] == three.drop_last()[k]);
        assert(forall|k: int| 0 <= k < one.len() ==> #[trigger] two[k] == two.drop_last()[k]);
        assert(forall|k: int| 0 <= k < first ==> #[trigger] one[k] == one.drop_last()[k]);
        assert(all.take(first) =~= old(ir).functions@);
        assert(all[first] == four[first] && four[first] == three[first] && three[first]
            == two[first]);
        assert(all[first + 1] == four[first + 1] && four[first + 1] == three[first + 1]);
        assert(all[first + 2] == four[first + 2]);
        assert(all[first + 4].body == all.last()@.body);
    }
    if !has_type_parameters {
        ir.open_methods.insert(type_parameter_serializers);
        ir.bridge_methods.insert(type_parameter_serializers);
    }
    let members = GeneratedSerializerMembers {
        descriptor,
        serialize,
        deserialize,
        child_serializers,
        type_parameter_serializers,
    };
    ir.publish_generated_members(
        owner,
        members.publication(has_type_parameters, owner_line, owner_end_line),
    );
    members
}

fn no_types() -> (types: Vec<Ty>)
    ensures
        views(types@) == Seq::<TyView>::empty(),
{
    let types: Vec<Ty> = Vec::new();
    assert(views(types@) =~= Seq::<TyView>::empty());
    types
}

} // verus!
