//! The serializers of type parameters, which a generated generic serializer holds in its fields.

use vstd::prelude::*;

use crate::ir::expr::{ClassId, ExprId, FunId};
use crate::ir::file::{body_set, IrFile};
use crate::ir::tree::{
    array_tree, block_tree, field_tree, grounded, grows, plant_array, plant_block1, plant_field,
    plant_return, plant_value, return_tree, tree, trees, value_tree, IrTree,
};
use crate::model::{copy_all, first_place, lemma_first_place};
use crate::names::TypeName;
use crate::plugins::serialization::support::{class_ty, class_type};
use crate::text::views;
use crate::types::{Ty, TyView};

verus! {

broadcast use {
    crate::text::group_views,
    crate::types::group_ty_views,
    crate::ir::tree::group_growth,
};

/// The serializers that a generic serializer is constructed with, one for each type parameter of
/// the class it serves. An element whose type mentions a parameter reads its serializer off the
/// generic serializer, so only code that runs on that instance can use it.
#[derive(Clone, Copy, Debug)]
pub struct TypeParameterSerializers<'a> {
    serializer_class: ClassId,
    /// The semantic identities of the parameters, in declaration order. The serializer of parameter
    /// `k` is field `1 + k`; field 0 is the descriptor.
    identities: &'a [String],
}

/// The model of the serializers of type parameters.
pub struct ScopeView {
    pub serializer_class: ClassId,
    pub identities: Seq<Seq<char>>,
}

impl<'a> View for TypeParameterSerializers<'a> {
    type V = ScopeView;

    closed spec fn view(&self) -> ScopeView {
        ScopeView {
            serializer_class: self.serializer_class,
            identities: views(self.identities@),
        }
    }
}

impl ScopeView {
    /// No type parameter has a serializer.
    pub open spec fn none() -> ScopeView {
        ScopeView { serializer_class: 0, identities: seq![] }
    }

    /// The field that holds the serializer of the type parameter `identity`.
    pub open spec fn field(self, identity: Seq<char>) -> Option<u32> {
        match first_place(self.identities, identity) {
            Some(place) => Some((place + 1) as u32),
            None => None,
        }
    }

    /// Whether every field can be numbered.
    pub open spec fn fits(self) -> bool {
        self.identities.len() < u32::MAX
    }

    /// The array of the held serializers.
    pub open spec fn array(self) -> IrTree {
        array_tree(
            TyView::Obj(
                "kotlin/Array"@,
                seq![class_type("kotlinx/serialization/KSerializer"@)],
            ),
            Seq::new(
                self.identities.len(),
                |k: int| field_tree(value_tree(0), self.serializer_class, (k + 1) as u32),
            ),
        )
    }
}

impl<'a> TypeParameterSerializers<'a> {
    /// No type parameter has a serializer: the class is not generic, or the code does not run on
    /// the generic serializer.
    pub fn none() -> (scope: TypeParameterSerializers<'a>)
        ensures
            scope@ == ScopeView::none(),
    {
        let scope = TypeParameterSerializers { serializer_class: 0, identities: &[] };
        assert(scope@.identities =~= seq![]);
        scope
    }

    pub fn new(serializer_class: ClassId, identities: &'a [String]) -> (scope:
        TypeParameterSerializers<'a>)
        ensures
            scope@ == (ScopeView { serializer_class, identities: views(identities@) }),
    {
        TypeParameterSerializers { serializer_class, identities }
    }

    /// The field that holds the serializer of the type parameter `identity`.
    pub fn field(&self, identity: &str) -> (field: Option<u32>)
        requires
            self@.fits(),
        ensures
            field == self@.field(identity@),
    {
        let wanted = identity.to_owned();
        proof {
            lemma_first_place(self@.identities, identity@);
        }
        match crate::model::position(self.identities, &wanted) {
            Some(place) => Some(place as u32 + 1),
            None => None,
        }
    }

    pub fn serializer_class(&self) -> (class: ClassId)
        ensures
            class == self@.serializer_class,
    {
        self.serializer_class
    }

    /// Give `function` a body that returns the held serializers, in declaration order.
    pub fn install_member_body(&self, ir: &mut IrFile, function: FunId)
        requires
            self@.fits(),
            function < old(ir).functions@.len(),
        ensures
            *final(ir) == (IrFile {
                exprs: final(ir).exprs,
                functions: final(ir).functions,
                ..*old(ir)
            }),
            grows(old(ir).exprs@, final(ir).exprs@),
            body_set(
                *old(ir),
                *final(ir),
                function,
                block_tree(seq![return_tree(self@.array())]),
            ),
    {
        let ghost start = ir.exprs@;
        let mut elements: Vec<ExprId> = Vec::new();
        let mut index: usize = 0;
        while index < self.identities.len()
            invariant
                index <= self.identities@.len(),
                self@.identities.len() == self.identities@.len(),
                self@.fits(),
                *ir == (IrFile { exprs: ir.exprs, ..*old(ir) }),
                grows(start, ir.exprs@),
                start == old(ir).exprs@,
                elements@.len() == index,
                forall|k: int|
                    0 <= k < index ==> grounded(ir.exprs@, #[trigger] elements@[k]) && tree(
                        ir.exprs@,
                        elements@[k],
                    ) == field_tree(value_tree(0), self@.serializer_class, (k + 1) as u32),
            decreases self.identities@.len() - index,
        {
            let ghost before = ir.exprs@;
            let receiver: ExprId = plant_value(&mut ir.exprs, 0);
            let element: ExprId = plant_field(
                &mut ir.exprs,
                receiver,
                self.serializer_class,
                index as u32 + 1,
            );
            assert(grows(before, ir.exprs@));
            elements.push(element);
            index += 1;
        }
        let mut arguments: Vec<Ty> = Vec::new();
        arguments.push(class_ty("kotlinx/serialization/KSerializer"));
        assert(views(arguments@) =~= seq![class_type("kotlinx/serialization/KSerializer"@)]);
        let ghost shown = trees(ir.exprs@, elements@);
        assert(shown =~= Seq::new(
            self@.identities.len(),
            |k: int| field_tree(value_tree(0), self@.serializer_class, (k + 1) as u32),
        ));
        let array: ExprId = plant_array(
            &mut ir.exprs,
            Ty::obj_args("kotlin/Array", arguments.as_slice()),
            elements,
        );
        assert(tree(ir.exprs@, array) == self@.array());
        let returned: ExprId = plant_return(&mut ir.exprs, array);
        let body: ExprId = plant_block1(&mut ir.exprs, returned);
        assert(tree(ir.exprs@, body) == block_tree(seq![return_tree(self@.array())]));
        ir.set_body(function, body);
    }
}

/// The names recorded for the type parameters of the class `name`.
pub open spec fn recorded_signature(
    signatures: Seq<(TypeName, Vec<String>)>,
    name: Seq<char>,
) -> Option<Seq<Seq<char>>>
    decreases signatures.len(),
{
    if signatures.len() == 0 {
        None
    } else if signatures[0].0@ == name {
        Some(views(signatures[0].1@))
    } else {
        recorded_signature(signatures.skip(1), name)
    }
}

/// The semantic identities of the type parameters of a class, in declaration order. A generic class
/// has a recorded signature; without it the fields of its serializer could not be addressed.
pub fn identities(ir: &IrFile, serialized_class: ClassId) -> (names: Vec<String>)
    requires
        serialized_class < ir.classes@.len(),
        ir.classes@[serialized_class as int].type_params@.len() > 0 ==> recorded_signature(
            ir.class_signatures@,
            ir.classes@[serialized_class as int].name@,
        ) is Some,
    ensures
        views(names@) == if ir.classes@[serialized_class as int].type_params@.len() == 0 {
            Seq::<Seq<char>>::empty()
        } else {
            recorded_signature(
                ir.class_signatures@,
                ir.classes@[serialized_class as int].name@,
            )->0
        },
{
    let class = &ir.classes[serialized_class];
    if class.type_params.len() == 0 {
        return Vec::new();
    }
    let mut index: usize = 0;
    assert(ir.class_signatures@.skip(0) =~= ir.class_signatures@);
    while index < ir.class_signatures.len()
        invariant
            index <= ir.class_signatures@.len(),
            recorded_signature(ir.class_signatures@.skip(index as int), class.name@)
                == recorded_signature(ir.class_signatures@, class.name@),
            serialized_class < ir.classes@.len(),
            *class == ir.classes@[serialized_class as int],
            class.type_params@.len() > 0,
        decreases ir.class_signatures@.len() - index,
    {
        assert(ir.class_signatures@.skip(index as int).skip(1) =~= ir.class_signatures@.skip(
            index as int + 1,
        ));
        if ir.class_signatures[index].0 == class.name {
            return copy_all(&ir.class_signatures[index].1);
        }
        index += 1;
    }
    Vec::new()
}

} // verus!
