//! How types are spelled for the author of the source.

use vstd::prelude::*;

use crate::names::simple_name_of;
use crate::text::{join, joined, views};
use crate::types::{Ty, TyView};

verus! {

broadcast use {crate::text::group_views, crate::types::group_ty_views};

/// The spelling of a type that holds no other, where it is such a type.
pub open spec fn plain_name(ty: TyView) -> Seq<char> {
    match ty {
        TyView::Unit => "Unit"@,
        TyView::Nothing => "Nothing"@,
        TyView::Null => "Nothing?"@,
        TyView::Error => "<error>"@,
        TyView::Pending => "<pending>"@,
        TyView::Boolean => "Boolean"@,
        TyView::Byte => "Byte"@,
        TyView::Short => "Short"@,
        TyView::Int => "Int"@,
        TyView::Long => "Long"@,
        TyView::UByte => "UByte"@,
        TyView::UShort => "UShort"@,
        TyView::UInt => "UInt"@,
        TyView::ULong => "ULong"@,
        TyView::Float => "Float"@,
        TyView::Double => "Double"@,
        TyView::Char => "Char"@,
        TyView::String => "String"@,
        _ => "*"@,
    }
}

fn plain_text(ty: &Ty) -> (text: &'static str)
    ensures
        text@ == plain_name(ty@),
{
    match ty {
        Ty::Unit => "Unit",
        Ty::Nothing => "Nothing",
        Ty::Null => "Nothing?",
        Ty::Error => "<error>",
        Ty::Pending => "<pending>",
        Ty::Boolean => "Boolean",
        Ty::Byte => "Byte",
        Ty::Short => "Short",
        Ty::Int => "Int",
        Ty::Long => "Long",
        Ty::UByte => "UByte",
        Ty::UShort => "UShort",
        Ty::UInt => "UInt",
        Ty::ULong => "ULong",
        Ty::Float => "Float",
        Ty::Double => "Double",
        Ty::Char => "Char",
        Ty::String => "String",
        _ => "*",
    }
}

/// How a type is spelled: classifiers by their simple names.
pub open spec fn source_name(ty: TyView) -> Seq<char>
    decreases ty,
{
    match ty {
        TyView::Obj(name, arguments) => if arguments.len() == 0 {
            simple_name_of(name)
        } else {
            simple_name_of(name) + "<"@ + joined(source_names(arguments), ", "@) + ">"@
        },
        TyView::TyParam(name, _) => name,
        TyView::Nullable(inner) => match *inner {
            TyView::Fun(_) => "("@ + source_name(*inner) + ")?"@,
            _ => source_name(*inner) + "?"@,
        },
        TyView::PlatformNullable(inner) => source_name(*inner) + "!"@,
        TyView::InProjection(inner) => "in "@ + source_name(*inner),
        TyView::OutProjection(inner) => "out "@ + source_name(*inner),
        TyView::Fun(sig) => (if sig.suspend {
            "suspend "@
        } else {
            ""@
        }) + "("@ + joined(source_names(sig.params), ", "@) + ") -> "@ + source_name(sig.ret),
        _ => plain_name(ty),
    }
}

/// How some types are spelled.
pub open spec fn source_names(types: Seq<TyView>) -> Seq<Seq<char>>
    decreases types,
{
    if types.len() == 0 {
        seq![]
    } else {
        source_names(types.drop_last()).push(source_name(types.last()))
    }
}

/// Spell a type.
pub fn spell(ty: &Ty) -> (text: String)
    ensures
        text@ == source_name(ty@),
    decreases ty,
{
    match ty {
        Ty::Obj(name, arguments) => {
            let mut text = name.simple_name();
            assert(ty@->Obj_1 == views(arguments@));
            if arguments.len() == 0 {
                return text;
            }
            let parts = spell_all(arguments);
            text.append("<");
            text.append(join(&parts, ", ").as_str());
            text.append(">");
            text
        },
        Ty::TyParam(name, _) => name.as_str().to_owned(),
        Ty::Nullable(inner) => {
            let spelled = spell(inner);
            match **inner {
                Ty::Fun(_) => {
                    let mut text = "(".to_owned();
                    text.append(spelled.as_str());
                    text.append(")?");
                    text
                },
                _ => {
                    let mut text = spelled;
                    text.append("?");
                    text
                },
            }
        },
        Ty::PlatformNullable(inner) => {
            let mut text = spell(inner);
            text.append("!");
            text
        },
        Ty::InProjection(inner) => {
            let mut text = "in ".to_owned();
            text.append(spell(inner).as_str());
            text
        },
        Ty::OutProjection(inner) => {
            let mut text = "out ".to_owned();
            text.append(spell(inner).as_str());
            text
        },
        Ty::Fun(sig) => {
            let mut text = (if sig.suspend {
                "suspend "
            } else {
                ""
            }).to_owned();
            let parts = spell_all(&sig.params);
            text.append("(");
            text.append(join(&parts, ", ").as_str());
            text.append(") -> ");
            text.append(spell(&sig.ret).as_str());
            assert(ty@->Fun_0.params == views(sig.params@));
            text
        },
        _ => plain_text(ty).to_owned(),
    }
}

/// Spell some types.
pub fn spell_all(types: &Vec<Ty>) -> (texts: Vec<String>)
    ensures
        views(texts@) == source_names(views(types@)),
    decreases types,
{
    let mut texts: Vec<String> = Vec::new();
    let mut index: usize = 0;
    while index < types.len()
        invariant
            index <= types@.len(),
            views(texts@) == source_names(views(types@).take(index as int)),
        decreases types@.len() - index,
    {
        let ghost shown = views(types@);
        assert(shown.take(index as int + 1).drop_last() =~= shown.take(index as int));
        proof {
            reveal_with_fuel(source_names, 2);
        }
        texts.push(spell(&types[index]));
        index += 1;
    }
    assert(views(types@).take(index as int) =~= views(types@));
    texts
}

} // verus!
