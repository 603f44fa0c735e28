//! What holds of types, their substitution and their inference.

use vstd::prelude::*;

use crate::bindings::{subst_all, unified, unified_all, well_nested};
use crate::kt_string::{letter_units, text_units};
use crate::types::{builtin_named, primitive_array_element, MentionView, TyView};

verus! {

/// Whether two sets of bindings agree on every formal that both bind.
pub open spec fn agree(left: Map<Seq<char>, TyView>, right: Map<Seq<char>, TyView>) -> bool {
    forall|name: Seq<char>|
        #![trigger left.contains_key(name)]
        #![trigger right.contains_key(name)]
        left.contains_key(name) && right.contains_key(name) ==> left[name] == right[name]
}

/// Inference finds what was put in: where the actual type is the formal one with its type
/// parameters replaced, inference binds every type parameter of the formal type, each to what it
/// was replaced by. A replacement that admits null cannot be told from the nullability around it.
pub proof fn inference_finds_what_was_put_in(
    formal: TyView,
    replaced: Map<Seq<char>, TyView>,
    known: Map<Seq<char>, TyView>,
)
    requires
        well_nested(formal),
        forall|name: Seq<char>| #[trigger]
            replaced.contains_key(name) ==> !replaced[name].admits_null(),
        agree(replaced, known),
    ensures
        agree(replaced, unified(formal, formal.subst(replaced), known)),
        forall|name: Seq<char>| #[trigger]
            formal.mentions_param(name) ==> unified(
                formal,
                formal.subst(replaced),
                known,
            ).contains_key(name),
        forall|name: Seq<char>| #[trigger]
            known.contains_key(name) ==> unified(
                formal,
                formal.subst(replaced),
                known,
            ).contains_key(name),
    decreases formal, 1nat,
{
    let actual = formal.subst(replaced);
    match formal {
        TyView::Nullable(inner) => {
            let inside = inner.subst(replaced);
            assert(!inside.admits_null());
            assert(actual.non_null() == inside);
            inference_finds_what_was_put_in(*inner, replaced, known);
        },
        TyView::PlatformNullable(inner) => {
            inference_finds_what_was_put_in(*inner, replaced, known);
        },
        TyView::InProjection(inner)
        | TyView::OutProjection(inner)
        | TyView::StarProjection(inner) => {
            inference_finds_what_was_put_in(*inner, replaced, known);
        },
        TyView::Obj(_, arguments) => {
            assert(actual->Obj_1 =~= subst_all(arguments, replaced));
            lemma_found_in_all(arguments, replaced, known);
        },
        TyView::Fun(sig) => {
            assert(actual->Fun_0.params =~= subst_all(sig.params, replaced));
            lemma_found_in_all(sig.params, replaced, known);
            inference_finds_what_was_put_in(
                sig.ret,
                replaced,
                unified_all(sig.params, subst_all(sig.params, replaced), known),
            );
        },
        _ => {},
    }
    assert forall|name: Seq<char>| #[trigger] formal.mentions_param(name) implies unified(
        formal,
        actual,
        known,
    ).contains_key(name) by {
        match formal {
            TyView::Nullable(inner)
            | TyView::PlatformNullable(inner)
            | TyView::InProjection(inner)
            | TyView::OutProjection(inner)
            | TyView::StarProjection(inner) => {
                assert(inner.mentions_param(name));
            },
            TyView::Obj(_, arguments) => {
                lemma_mentioned_in_arguments(formal, name);
            },
            TyView::Fun(sig) => {
                if sig.ret.mentions_param(name) {
                } else {
                    let i = choose|i: int|
                        0 <= i < sig.params.len() && (#[trigger] sig.params[i]).mentions(
                            MentionView::Param(name),
                        );
                    assert(sig.params[i].mentions_param(name));
                }
            },
            _ => {},
        }
    }
}

proof fn lemma_found_in_all(
    formals: Seq<TyView>,
    replaced: Map<Seq<char>, TyView>,
    known: Map<Seq<char>, TyView>,
)
    requires
        forall|i: int| 0 <= i < formals.len() ==> well_nested(#[trigger] formals[i]),
        forall|name: Seq<char>| #[trigger]
            replaced.contains_key(name) ==> !replaced[name].admits_null(),
        agree(replaced, known),
    ensures
        ({
            let found = unified_all(formals, subst_all(formals, replaced), known);
            &&& agree(replaced, found)
            &&& forall|name: Seq<char>| #[trigger]
                known.contains_key(name) ==> found.contains_key(name)
            &&& forall|i: int, name: Seq<char>|
                0 <= i < formals.len() && #[trigger] formals[i].mentions_param(name)
                    ==> found.contains_key(name)
        }),
    decreases formals, 0nat,
{
    if formals.len() > 0 {
        let front = formals.drop_last();
        let last = formals.last();
        assert(subst_all(formals, replaced).drop_last() =~= subst_all(front, replaced));
        assert(last == formals[formals.len() - 1]);
        lemma_found_in_all(front, replaced, known);
        let earlier = unified_all(front, subst_all(front, replaced), known);
        inference_finds_what_was_put_in(last, replaced, earlier);
        let found = unified_all(formals, subst_all(formals, replaced), known);
        assert forall|i: int, name: Seq<char>|
            0 <= i < formals.len() && #[trigger] formals[i].mentions_param(
                name,
            ) implies found.contains_key(name) by {
            if i < formals.len() - 1 {
                assert(front[i] == formals[i]);
                assert(front[i].mentions_param(name));
            }
        }
    }
}

/// A type parameter is gone once it was replaced, where no replacement mentions it; and a type
/// parameter that was not replaced stays.
pub proof fn a_replaced_parameter_is_gone(
    ty: TyView,
    replaced: Map<Seq<char>, TyView>,
    name: Seq<char>,
)
    requires
        forall|other: Seq<char>| #[trigger]
            replaced.contains_key(other) ==> !replaced[other].mentions_param(name),
    ensures
        ty.subst(replaced).mentions_param(name) <==> ty.mentions_param(name)
            && !replaced.contains_key(name),
    decreases ty,
{
    let out = ty.subst(replaced);
    match ty {
        TyView::Obj(_, arguments) => {
            assert forall|i: int| 0 <= i < arguments.len() implies (
            #[trigger] out->Obj_1[i]).mentions_param(name) == (arguments[i].mentions_param(name)
                && !replaced.contains_key(name)) by {
                a_replaced_parameter_is_gone(arguments[i], replaced, name);
            }
            lemma_mentioned_in_arguments(ty, name);
            lemma_mentioned_in_arguments(out, name);
            if ty.mentions_param(name) && !replaced.contains_key(name) {
                let i = choose|i: int|
                    0 <= i < arguments.len() && (#[trigger] arguments[i]).mentions_param(name);
                assert(out->Obj_1[i].mentions_param(name));
            }
            if out.mentions_param(name) {
                let i = choose|i: int|
                    0 <= i < out->Obj_1.len() && (#[trigger] out->Obj_1[i]).mentions_param(name);
                assert(arguments[i].mentions_param(name));
            }
        },
        TyView::Nullable(inner)
        | TyView::PlatformNullable(inner)
        | TyView::InProjection(inner)
        | TyView::OutProjection(inner)
        | TyView::StarProjection(inner) => {
            a_replaced_parameter_is_gone(*inner, replaced, name);
            reveal_with_fuel(TyView::mentions, 2);
        },
        TyView::Fun(sig) => {
            let params = out->Fun_0.params;
            assert forall|i: int| 0 <= i < sig.params.len() implies (
            #[trigger] params[i]).mentions_param(name) == (sig.params[i].mentions_param(name)
                && !replaced.contains_key(name)) by {
                a_replaced_parameter_is_gone(sig.params[i], replaced, name);
            }
            a_replaced_parameter_is_gone(sig.ret, replaced, name);
            if ty.mentions_param(name) && !sig.ret.mentions_param(name) {
                let i = choose|i: int|
                    0 <= i < sig.params.len() && (#[trigger] sig.params[i]).mentions(
                        MentionView::Param(name),
                    );
                assert(sig.params[i].mentions_param(name));
                assert(params[i].mentions_param(name) == !replaced.contains_key(name));
            }
            if out.mentions_param(name) && !out->Fun_0.ret.mentions_param(name) {
                let i = choose|i: int|
                    0 <= i < params.len() && (#[trigger] params[i]).mentions(
                        MentionView::Param(name),
                    );
                assert(params[i].mentions_param(name));
                assert(sig.params[i].mentions_param(name));
            }
        },
        _ => {},
    }
}

proof fn lemma_mentioned_in_arguments(ty: TyView, name: Seq<char>)
    requires
        ty is Obj,
    ensures
        ty.mentions_param(name) <==> exists|i: int|
            0 <= i < ty->Obj_1.len() && (#[trigger] ty->Obj_1[i]).mentions_param(name),
{
    if ty.mentions_param(name) {
        let i = choose|i: int|
            0 <= i < ty->Obj_1.len() && (#[trigger] ty->Obj_1[i]).mentions(
                MentionView::Param(name),
            );
        assert(ty->Obj_1[i].mentions_param(name));
    }
}

/// Nullability is put on and taken off again: a type that does not admit null is what is left of
/// its nullable type, and taking nullability off leaves nothing that admits null where it was put
/// on once.
pub proof fn nullability_comes_off_again(ty: TyView)
    ensures
        !ty.admits_null() ==> ty.nullable().non_null() == ty && ty.non_null() == ty,
        ty.nullable().is_nullable(),
        ty.is_nullable() ==> ty.admits_null(),
        ty is Nullable || ty is PlatformNullable ==> ty.nullable().non_null() == ty.non_null(),
        ty.nullable() == ty <==> ty.is_nullable(),
{
    if let TyView::Nullable(inner) = ty {
        assert(ty.nullable() == ty);
    }
}

/// A builtin type is the one that its classifier names.
pub proof fn a_builtin_type_has_the_name_it_is_found_by(name: Seq<char>)
    ensures
        builtin_named(name) matches Some(ty) ==> ty.kotlin_class_internal() == Some(name)
            && !ty.admits_null() && ty.obj_internal() is None,
{
}

/// The array of a primitive type is called after it.
pub proof fn a_primitive_array_is_called_after_its_element(name: Seq<char>)
    ensures
        primitive_array_element(name) matches Some(element)
            ==> element.kotlin_class_internal() is Some && name
            == element.kotlin_class_internal()->0 + "Array"@,
{
    if let Some(element) = primitive_array_element(name) {
        let class = element.kotlin_class_internal()->0;
        reveal_strlit("Array");
        reveal_strlit("kotlin/Boolean");
        reveal_strlit("kotlin/Byte");
        reveal_strlit("kotlin/Short");
        reveal_strlit("kotlin/Int");
        reveal_strlit("kotlin/Long");
        reveal_strlit("kotlin/Float");
        reveal_strlit("kotlin/Double");
        reveal_strlit("kotlin/Char");
        reveal_strlit("kotlin/UByte");
        reveal_strlit("kotlin/UShort");
        reveal_strlit("kotlin/UInt");
        reveal_strlit("kotlin/ULong");
        reveal_strlit("kotlin/BooleanArray");
        reveal_strlit("kotlin/ByteArray");
        reveal_strlit("kotlin/ShortArray");
        reveal_strlit("kotlin/IntArray");
        reveal_strlit("kotlin/LongArray");
        reveal_strlit("kotlin/FloatArray");
        reveal_strlit("kotlin/DoubleArray");
        reveal_strlit("kotlin/CharArray");
        reveal_strlit("kotlin/UByteArray");
        reveal_strlit("kotlin/UShortArray");
        reveal_strlit("kotlin/UIntArray");
        reveal_strlit("kotlin/ULongArray");
        assert(name =~= class + "Array"@);
    }
}

/// Spelling a builtin classifier out names the same classifier, and doing it again changes nothing.
pub proof fn a_canonical_type_names_the_same_classifier(ty: TyView)
    ensures
        ty.canonical_semantic().kotlin_class_internal() == ty.kotlin_class_internal(),
        ty.canonical_semantic().canonical_semantic() == ty.canonical_semantic(),
        ty.canonical_semantic().admits_null() == ty.admits_null(),
    decreases ty,
{
    match ty {
        TyView::Nullable(inner) | TyView::PlatformNullable(inner) => {
            a_canonical_type_names_the_same_classifier(*inner);
            if let TyView::Obj(name, _) = *inner {
                a_builtin_type_has_the_name_it_is_found_by(name);
            }
        },
        TyView::Obj(name, arguments) => {
            a_builtin_type_has_the_name_it_is_found_by(name);
        },
        _ => {},
    }
}

/// The code of the character that the last code units spell: two units of a pair, or one.
pub open spec fn last_code(units: Seq<u16>) -> int {
    let last = units.last() as int;
    if 0xdc00 <= last < 0xe000 && units.len() >= 2 {
        0x10000 + (units[units.len() - 2] as int - 0xd800) * 0x400 + (last - 0xdc00)
    } else {
        last
    }
}

proof fn lemma_scalar(letter: char)
    ensures
        (letter as int) < 0xd800 || 0xe000 <= letter as int,
        0 <= letter as int <= 0x10ffff,
{
}

/// A text is read back from its code units: the last units spell the code of its last character,
/// and those in front of them the text in front of it.
pub proof fn a_text_is_read_back_from_its_units(text: Seq<char>)
    requires
        text.len() > 0,
    ensures
        last_code(text_units(text)) == text.last() as int,
        text_units(text).take(
            text_units(text).len() - if text.last() as int >= 0x10000 { 2int } else { 1 },
        ) == text_units(text.drop_last()),
{
    let front = text_units(text.drop_last());
    let last = letter_units(text.last());
    let letter = text.last();
    let code = letter as int;
    let units = text_units(text);
    assert(units == front + last);
    assert(units.take(front.len() as int) =~= front);
    lemma_scalar(letter);
    if code >= 0x10000 {
        assert((code - 0x10000) == ((code - 0x10000) / 0x400) * 0x400 + (code - 0x10000) % 0x400);
        assert(units[units.len() - 2] == last[0]);
        assert(units.last() == last[1]);
    } else {
        assert(units.last() == last[0]);
    }
}

} // verus!
