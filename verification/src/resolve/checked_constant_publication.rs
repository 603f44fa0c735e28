//! Publication of the values of compile-time constants.

use vstd::prelude::*;

use crate::ast::{Decl, ExprId, File, Node, PropDecl};
use crate::libraries::{LibConst, LibConstView};
use crate::model::Modelled;
use crate::resolve::constant_evaluation::{literal, source_literal_constant};
use crate::resolve::source_table::{ClassSig, MemberProperty, SourceProperty, SourceTable};
use crate::text::{option_view, same_text, views};
use crate::types::{Ty, TyView};

verus! {

broadcast use {crate::text::group_views, crate::types::group_ty_views};

/// A constant property of an object, with its initializer.
#[derive(Debug)]
pub struct MemberConstant {
    pub file: usize,
    pub declaration: u32,
    pub name: String,
    pub initializer: ExprId,
}

/// The model of a [`MemberConstant`].
pub struct MemberConstantView {
    pub file: usize,
    pub declaration: u32,
    pub name: Seq<char>,
    pub initializer: ExprId,
}

impl View for MemberConstant {
    type V = MemberConstantView;

    open spec fn view(&self) -> MemberConstantView {
        MemberConstantView {
            file: self.file,
            declaration: self.declaration,
            name: self.name@,
            initializer: self.initializer,
        }
    }
}

/// The first `count` properties in the body of a class that are constants with an initializer.
pub open spec fn class_constants(
    file: usize,
    declaration: u32,
    properties: Seq<PropDecl>,
    count: nat,
) -> Seq<MemberConstantView>
    decreases count,
{
    if count == 0 {
        seq![]
    } else {
        let before = class_constants(file, declaration, properties, (count - 1) as nat);
        let property = properties[count - 1];
        match property.init {
            Some(initializer) if property.is_const => before.push(
                MemberConstantView { file, declaration, name: property.name@, initializer },
            ),
            _ => before,
        }
    }
}

/// The constants of the classes among the first `count` declarations of a file outside of others.
pub open spec fn file_constants(file: File, place: usize, count: nat) -> Seq<MemberConstantView>
    decreases count,
{
    if count == 0 {
        seq![]
    } else {
        let before = file_constants(file, place, (count - 1) as nat);
        let declaration = file.decls@[count - 1];
        match file.declarations@[declaration.0 as int] {
            Decl::Class(class) => before + class_constants(
                place,
                declaration.0,
                class.body_props@,
                class.body_props@.len(),
            ),
            _ => before,
        }
    }
}

/// The constants of the classes of the first `count` files, in the order of the source.
pub open spec fn member_constants(files: Seq<File>, count: nat) -> Seq<MemberConstantView>
    decreases count,
{
    if count == 0 {
        seq![]
    } else {
        let file = files[count - 1];
        member_constants(files, (count - 1) as nat) + file_constants(
            file,
            (count - 1) as usize,
            file.decls@.len(),
        )
    }
}

/// Whether the declarations of a file outside of others are in its arena, and the initializers in
/// the bodies of classes too.
pub open spec fn declarations_known(file: File) -> bool {
    &&& file.well_formed()
    &&& forall|k: int|
        0 <= k < file.decls@.len() ==> ((#[trigger] file.decls@[k]).0 as int)
            < file.declarations@.len()
    &&& forall|d: int, k: int|
        0 <= d < file.declarations@.len() && file.declarations@[d] is Class && 0 <= k
            < (file.declarations@[d]->Class_0).body_props@.len() ==> initializer_known(
            file,
            #[trigger] (file.declarations@[d]->Class_0).body_props@[k],
        )
}

/// Whether the initializer of a property is in the arena.
pub open spec fn initializer_known(file: File, property: PropDecl) -> bool {
    property.init matches Some(initializer) ==> file.has(Node::Expr(initializer))
}

/// Whether the declarations of every file are in their arenas. Files are numbered by `u32`.
pub open spec fn all_known(files: Seq<File>) -> bool {
    &&& files.len() <= u32::MAX
    &&& forall|k: int| 0 <= k < files.len() ==> declarations_known(#[trigger] files[k])
}

fn push_class_constants(
    out: &mut Vec<MemberConstant>,
    file: usize,
    declaration: u32,
    properties: &Vec<PropDecl>,
)
    ensures
        views(final(out)@) == views(old(out)@) + class_constants(
            file,
            declaration,
            properties@,
            properties@.len(),
        ),
{
    let ghost held = views(out@);
    let mut next: usize = 0;
    assert(held =~= held + class_constants(file, declaration, properties@, 0));
    while next < properties.len()
        invariant
            next <= properties@.len(),
            views(out@) == held + class_constants(file, declaration, properties@, next as nat),
        decreases properties@.len() - next,
    {
        let property = &properties[next];
        if property.is_const {
            if let Some(initializer) = property.init {
                out.push(
                    MemberConstant { file, declaration, name: property.name.clone(), initializer },
                );
                assert(views(out@) =~= held + class_constants(
                    file,
                    declaration,
                    properties@,
                    next as nat + 1,
                ));
            }
        }
        next += 1;
    }
}

/// The constants of the classes of the files, in the order of the source.
pub fn list_member_constants(files: &Vec<File>) -> (members: Vec<MemberConstant>)
    requires
        all_known(files@),
    ensures
        views(members@) == member_constants(files@, files@.len()),
{
    let mut members: Vec<MemberConstant> = Vec::new();
    let mut place: usize = 0;
    while place < files.len()
        invariant
            place <= files@.len(),
            all_known(files@),
            views(members@) == member_constants(files@, place as nat),
        decreases files@.len() - place,
    {
        let file = &files[place];
        let ghost held = views(members@);
        let mut next: usize = 0;
        assert(declarations_known(files@[place as int]));
        assert(held =~= held + file_constants(*file, place, 0));
        while next < file.decls.len()
            invariant
                next <= file.decls@.len(),
                declarations_known(*file),
                views(members@) == held + file_constants(*file, place, next as nat),
            decreases file.decls@.len() - next,
        {
            let declaration = file.decls[next];
            let ghost before = views(members@);
            if let Decl::Class(class) = file.decl(declaration) {
                push_class_constants(&mut members, place, declaration.0, &class.body_props);
                assert(views(members@) =~= held + file_constants(*file, place, next as nat + 1));
            }
            next += 1;
        }
        place += 1;
    }
    members
}

proof fn lemma_members_fit(files: Seq<File>, count: nat)
    requires
        all_known(files),
        count <= files.len(),
    ensures
        members_fit(files, member_constants(files, count)),
    decreases count,
{
    if count > 0 {
        lemma_members_fit(files, (count - 1) as nat);
        assert(declarations_known(files[count - 1]));
        lemma_file_fits(files, count - 1, files[count - 1].decls@.len());
        let earlier = member_constants(files, (count - 1) as nat);
        let added = file_constants(
            files[count - 1],
            (count - 1) as usize,
            files[count - 1].decls@.len(),
        );
        lemma_fit_together(files, earlier, added);
    }
}

proof fn lemma_fit_together(
    files: Seq<File>,
    first: Seq<MemberConstantView>,
    second: Seq<MemberConstantView>,
)
    requires
        members_fit(files, first),
        members_fit(files, second),
    ensures
        members_fit(files, first + second),
{
    let both = first + second;
    assert forall|k: int| 0 <= k < both.len() implies member_fits(files, #[trigger] both[k]) by {
        if k < first.len() {
            assert(both[k] == first[k]);
        } else {
            assert(both[k] == second[k - first.len()]);
        }
    }
}

proof fn lemma_file_fits(files: Seq<File>, place: int, count: nat)
    requires
        all_known(files),
        0 <= place < files.len(),
        count <= files[place].decls@.len(),
    ensures
        members_fit(files, file_constants(files[place], place as usize, count)),
    decreases count,
{
    if count > 0 {
        lemma_file_fits(files, place, (count - 1) as nat);
        let file = files[place];
        assert(declarations_known(file));
        let declaration = file.decls@[count - 1];
        if let Decl::Class(class) = file.declarations@[declaration.0 as int] {
            assert forall|k: int| 0 <= k < class.body_props@.len() implies initializer_known(
                file,
                #[trigger] class.body_props@[k],
            ) by {
                assert(initializer_known(
                    file,
                    (file.declarations@[declaration.0 as int]->Class_0).body_props@[k],
                ));
            }
            lemma_class_fits(
                files,
                place,
                declaration.0,
                class.body_props@,
                class.body_props@.len(),
            );
            lemma_fit_together(
                files,
                file_constants(file, place as usize, (count - 1) as nat),
                class_constants(
                    place as usize,
                    declaration.0,
                    class.body_props@,
                    class.body_props@.len(),
                ),
            );
        }
    }
}

proof fn lemma_class_fits(
    files: Seq<File>,
    place: int,
    declaration: u32,
    properties: Seq<PropDecl>,
    count: nat,
)
    requires
        all_known(files),
        0 <= place < files.len(),
        count <= properties.len(),
        forall|k: int|
            0 <= k < properties.len() ==> initializer_known(
                files[place],
                #[trigger] properties[k],
            ),
    ensures
        members_fit(
            files,
            class_constants(place as usize, declaration, properties, count),
        ),
    decreases count,
{
    if count > 0 {
        lemma_class_fits(files, place, declaration, properties, (count - 1) as nat);
        assert(declarations_known(files[place]));
        assert(initializer_known(files[place], properties[count - 1]));
    }
}

/// Whether a class is the object declared at a place.
pub open spec fn object_declared_at(class: ClassSig, file: u32, declaration: u32) -> bool {
    class.is_object && class.origin.source_file == Some(file) && class.origin.source_decl == Some(
        declaration,
    )
}

/// The first object declared at a place.
pub open spec fn object_at(classes: Seq<ClassSig>, file: u32, declaration: u32) -> Option<int>
    decreases classes.len(),
{
    if classes.len() == 0 {
        None
    } else {
        match object_at(classes.drop_last(), file, declaration) {
            Some(place) => Some(place),
            None => if object_declared_at(classes.last(), file, declaration) {
                Some(classes.len() - 1)
            } else {
                None
            },
        }
    }
}

proof fn lemma_object_stays(classes: Seq<ClassSig>, seen: int, file: u32, declaration: u32)
    requires
        0 <= seen <= classes.len(),
        object_at(classes.take(seen), file, declaration) is Some,
    ensures
        object_at(classes, file, declaration) == object_at(
            classes.take(seen),
            file,
            declaration,
        ),
    decreases classes.len() - seen,
{
    if seen < classes.len() {
        assert(classes.take(seen + 1).drop_last() =~= classes.take(seen));
        lemma_object_stays(classes, seen + 1, file, declaration);
    } else {
        assert(classes.take(seen) =~= classes);
    }
}

fn find_object(classes: &Vec<ClassSig>, file: u32, declaration: u32) -> (found: Option<usize>)
    ensures
        object_at(classes@, file, declaration) == match found {
            Some(place) => Some(place as int),
            None => None,
        },
        found matches Some(place) ==> place < classes@.len(),
{
    let mut next: usize = 0;
    while next < classes.len()
        invariant
            next <= classes@.len(),
            object_at(classes@.take(next as int), file, declaration) is None,
        decreases classes@.len() - next,
    {
        assert(classes@.take(next as int + 1).drop_last() =~= classes@.take(next as int));
        let class = &classes[next];
        if class.is_object && class.origin.source_file == Some(file) && class.origin.source_decl
            == Some(declaration) {
            proof {
                lemma_object_stays(classes@, next as int + 1, file, declaration);
            }
            return Some(next);
        }
        next += 1;
    }
    assert(classes@.take(next as int) =~= classes@);
    None
}

/// The type of the declared property `name`.
pub open spec fn declared_type(properties: Seq<MemberProperty>, name: Seq<char>) -> Option<TyView>
    decreases properties.len(),
{
    if properties.len() == 0 {
        None
    } else if properties[0].name@ == name {
        Some(properties[0].ty@)
    } else {
        declared_type(properties.skip(1), name)
    }
}

fn find_type<'a>(properties: &'a Vec<MemberProperty>, name: &str) -> (found: Option<&'a Ty>)
    ensures
        declared_type(properties@, name@) == match found {
            Some(ty) => Some(ty@),
            None => None,
        },
{
    let mut next: usize = 0;
    assert(properties@.skip(0) =~= properties@);
    while next < properties.len()
        invariant
            next <= properties@.len(),
            declared_type(properties@.skip(next as int), name@) == declared_type(
                properties@,
                name@,
            ),
        decreases properties@.len() - next,
    {
        assert(properties@.skip(next as int).skip(1) =~= properties@.skip(next as int + 1));
        if same_text(properties[next].name.as_str(), name) {
            return Some(&properties[next].ty);
        }
        next += 1;
    }
    None
}

/// The value that a constant of an object publishes: that of its literal initializer.
pub open spec fn member_value(
    files: Seq<File>,
    class: ClassSig,
    member: MemberConstantView,
) -> Option<LibConstView> {
    match declared_type(class.declared_props@, member.name) {
        None => None,
        Some(ty) => match literal(files[member.file as int], member.initializer, ty) {
            Some(constant) => Some(constant.value),
            None => None,
        },
    }
}

/// What constants read as.
pub open spec fn shown_constants(constants: Seq<(String, LibConst)>) -> Seq<
    (Seq<char>, LibConstView),
> {
    Seq::new(constants.len(), |k: int| (constants[k].0@, constants[k].1@))
}

/// The constants of the class at `place` once the first `count` members were published.
pub open spec fn constants_after(
    files: Seq<File>,
    classes: Seq<ClassSig>,
    place: int,
    members: Seq<MemberConstantView>,
    count: nat,
) -> Seq<(Seq<char>, LibConstView)>
    decreases count,
{
    if count == 0 {
        shown_constants(classes[place].constants@)
    } else {
        let before = constants_after(files, classes, place, members, (count - 1) as nat);
        let member = members[count - 1];
        if object_at(classes, member.file as u32, member.declaration) == Some(place) {
            match member_value(files, classes[place], member) {
                Some(value) => before.push((member.name, value)),
                None => before,
            }
        } else {
            before
        }
    }
}

/// Whether a member names an expression of the files.
pub open spec fn member_fits(files: Seq<File>, member: MemberConstantView) -> bool {
    &&& member.file < files.len()
    &&& member.file <= u32::MAX
    &&& files[member.file as int].well_formed()
    &&& files[member.file as int].has(Node::Expr(member.initializer))
}

/// Whether the members name expressions of the files.
pub open spec fn members_fit(files: Seq<File>, members: Seq<MemberConstantView>) -> bool {
    forall|k: int| 0 <= k < members.len() ==> member_fits(files, #[trigger] members[k])
}

/// Whether the classes of `after` are those of `before` but for their constants.
pub open spec fn same_but_constants(before: Seq<ClassSig>, after: Seq<ClassSig>) -> bool {
    &&& after.len() == before.len()
    &&& forall|k: int|
        0 <= k < before.len() ==> #[trigger] after[k] == (ClassSig {
            constants: after[k].constants,
            ..before[k]
        })
}

proof fn lemma_object_same(
    before: Seq<ClassSig>,
    after: Seq<ClassSig>,
    file: u32,
    declaration: u32,
)
    requires
        same_but_constants(before, after),
    ensures
        object_at(after, file, declaration) == object_at(before, file, declaration),
    decreases before.len(),
{
    if before.len() > 0 {
        assert(same_but_constants(before.drop_last(), after.drop_last())) by {
            assert forall|k: int| 0 <= k < before.drop_last().len() implies #[trigger]
                after.drop_last()[k] == (ClassSig {
                constants: after.drop_last()[k].constants,
                ..before.drop_last()[k]
            }) by {
                assert(after[k] == (ClassSig { constants: after[k].constants, ..before[k] }));
            }
        }
        lemma_object_same(before.drop_last(), after.drop_last(), file, declaration);
        let last = before.len() - 1;
        assert(after[last] == (ClassSig { constants: after[last].constants, ..before[last] }));
    }
}

/// Publish those of the members that are constants of objects and whose initializer is a literal.
pub fn publish_listed_members(
    files: &Vec<File>,
    table: &mut SourceTable,
    members: &Vec<MemberConstant>,
)
    requires
        members_fit(files@, views(members@)),
    ensures
        same_but_constants(old(table).classes@, final(table).classes@),
        forall|place: int|
            0 <= place < old(table).classes@.len() ==> shown_constants(
                (#[trigger] final(table).classes@[place]).constants@,
            ) == constants_after(
                files@,
                old(table).classes@,
                place,
                views(members@),
                members@.len(),
            ),
        *final(table) == (SourceTable { classes: final(table).classes, ..*old(table) }),
{
    let ghost start = *table;
    let mut next: usize = 0;
    while next < members.len()
        invariant
            next <= members@.len(),
            members_fit(files@, views(members@)),
            *table == (SourceTable { classes: table.classes, ..start }),
            same_but_constants(start.classes@, table.classes@),
            forall|place: int|
                0 <= place < start.classes@.len() ==> shown_constants(
                    (#[trigger] table.classes@[place]).constants@,
                ) == constants_after(files@, start.classes@, place, views(members@), next as nat),
        decreases members@.len() - next,
    {
        let member = &members[next];
        assert(views(members@)[next as int] == member@);
        let ghost before = table.classes@;
        let file: u32 = member.file as u32;
        proof {
            lemma_object_same(start.classes@, before, file, member.declaration);
        }
        if let Some(place) = find_object(&table.classes, file, member.declaration) {
            assert(before[place as int] == (ClassSig {
                constants: before[place as int].constants,
                ..start.classes@[place as int]
            }));
            let value = match find_type(
                &table.classes[place].declared_props,
                member.name.as_str(),
            ) {
                Some(ty) => match source_literal_constant(
                    &files[member.file],
                    member.initializer,
                    ty,
                ) {
                    Some(constant) => Some(constant.value),
                    None => None,
                },
                None => None,
            };
            if let Some(value) = value {
                let ghost held = before[place as int].constants@;
                table.classes[place].constants.push((member.name.clone(), value));
                assert(shown_constants(table.classes@[place as int].constants@)
                    =~= shown_constants(held).push((member.name@, value@)));
            }
        }
        assert forall|place: int| 0 <= place < start.classes@.len() implies shown_constants(
            (#[trigger] table.classes@[place]).constants@,
        ) == constants_after(files@, start.classes@, place, views(members@), (next + 1) as nat) by {
            assert(shown_constants(before[place].constants@) == constants_after(
                files@,
                start.classes@,
                place,
                views(members@),
                next as nat,
            ));
        }
        assert forall|k: int| 0 <= k < start.classes@.len() implies #[trigger] table.classes@[k]
            == (ClassSig { constants: table.classes@[k].constants, ..start.classes@[k] }) by {
            assert(before[k] == (ClassSig { constants: before[k].constants, ..start.classes@[k] }));
        }
        next += 1;
    }
}

/// Publish the constants of the objects of the files whose initializer is a literal: those that are
/// declared `const` in the body of an object.
pub fn publish_member_constants(files: &Vec<File>, table: &mut SourceTable)
    requires
        all_known(files@),
    ensures
        same_but_constants(old(table).classes@, final(table).classes@),
        forall|place: int|
            0 <= place < old(table).classes@.len() ==> shown_constants(
                (#[trigger] final(table).classes@[place]).constants@,
            ) == constants_after(
                files@,
                old(table).classes@,
                place,
                member_constants(files@, files@.len()),
                member_constants(files@, files@.len()).len(),
            ),
        *final(table) == (SourceTable { classes: final(table).classes, ..*old(table) }),
{
    let members = list_member_constants(files);
    proof {
        lemma_members_fit(files@, files@.len());
    }
    publish_listed_members(files, table, &members);
}

/// The published values of properties.
pub open spec fn published(properties: Seq<SourceProperty>) -> Seq<Option<LibConstView>> {
    Seq::new(properties.len(), |k: int| option_view(properties[k].compile_time_constant))
}

/// Who finds the value of a constant from the values that are published.
pub trait ConstantFolder {
    /// The value of the initializer of the constant at `place`.
    spec fn folds(&self, values: Seq<Option<LibConstView>>, place: int) -> Option<LibConstView>;

    fn fold(&self, properties: &Vec<SourceProperty>, place: usize) -> (value: Option<LibConst>)
        requires
            place < properties@.len(),
        ensures
            option_view(value) == self.folds(published(properties@), place as int),
    ;
}

/// An initializer that is a literal, or that reads another constant.
#[derive(Debug)]
pub enum ConstantInitializer {
    Literal(LibConst),
    Read(usize),
}

/// The initializers of constants.
#[derive(Debug)]
pub struct ConstantInitializers {
    pub initializers: Vec<ConstantInitializer>,
}

impl ConstantFolder for ConstantInitializers {
    open spec fn folds(&self, values: Seq<Option<LibConstView>>, place: int) -> Option<
        LibConstView,
    > {
        if 0 <= place < self.initializers@.len() {
            match self.initializers@[place] {
                ConstantInitializer::Literal(value) => Some(value@),
                ConstantInitializer::Read(other) => if other < values.len() {
                    values[other as int]
                } else {
                    None
                },
            }
        } else {
            None
        }
    }

    fn fold(&self, properties: &Vec<SourceProperty>, place: usize) -> (value: Option<LibConst>) {
        if place >= self.initializers.len() {
            return None;
        }
        match &self.initializers[place] {
            ConstantInitializer::Literal(value) => Some(value.duplicate()),
            ConstantInitializer::Read(other) => {
                if *other >= properties.len() {
                    return None;
                }
                match &properties[*other].compile_time_constant {
                    Some(value) => Some(value.duplicate()),
                    None => None,
                }
            },
        }
    }
}

/// The values once the first `count` declarations were looked at in turn: each that had none has the
/// value that its initializer has by then.
pub open spec fn round_values<C: ConstantFolder>(
    folder: C,
    values: Seq<Option<LibConstView>>,
    declarations: Seq<usize>,
    count: nat,
) -> Seq<Option<LibConstView>>
    decreases count,
{
    if count == 0 {
        values
    } else {
        let before = round_values(folder, values, declarations, (count - 1) as nat);
        let place = declarations[count - 1] as int;
        if before[place] is None {
            before.update(place, folder.folds(before, place))
        } else {
            before
        }
    }
}

/// The values after some rounds over all declarations.
pub open spec fn values_after<C: ConstantFolder>(
    folder: C,
    values: Seq<Option<LibConstView>>,
    declarations: Seq<usize>,
    rounds: nat,
) -> Seq<Option<LibConstView>>
    decreases rounds,
{
    if rounds == 0 {
        values
    } else {
        round_values(
            folder,
            values_after(folder, values, declarations, (rounds - 1) as nat),
            declarations,
            declarations.len(),
        )
    }
}

/// Whether no further constant has a value: each has one, or its initializer has none.
pub open spec fn settled<C: ConstantFolder>(
    folder: C,
    values: Seq<Option<LibConstView>>,
    declarations: Seq<usize>,
) -> bool {
    forall|k: int|
        0 <= k < declarations.len() ==> values[#[trigger] declarations[k] as int] is Some
            || folder.folds(values, declarations[k] as int) is None
}

/// Whether declarations are those of properties.
pub open spec fn declared_in(declarations: Seq<usize>, properties: nat) -> bool {
    forall|k: int| 0 <= k < declarations.len() ==> (#[trigger] declarations[k] as int) < properties
}

/// How many of the first `count` declarations have no value yet.
spec fn pending(
    values: Seq<Option<LibConstView>>,
    declarations: Seq<usize>,
    count: nat,
) -> nat
    decreases count,
{
    if count == 0 {
        0
    } else {
        pending(values, declarations, (count - 1) as nat) + if values[declarations[count - 1]
            as int] is None {
            1nat
        } else {
            0nat
        }
    }
}

/// Whether the values of `after` are those of `before` and more.
pub open spec fn extends(
    before: Seq<Option<LibConstView>>,
    after: Seq<Option<LibConstView>>,
) -> bool {
    &&& after.len() == before.len()
    &&& forall|k: int|
        0 <= k < before.len() && (#[trigger] before[k]) is Some ==> after[k] == before[k]
}

proof fn lemma_round_extends<C: ConstantFolder>(
    folder: C,
    values: Seq<Option<LibConstView>>,
    declarations: Seq<usize>,
    count: nat,
)
    requires
        count <= declarations.len(),
        declared_in(declarations, values.len()),
    ensures
        extends(values, round_values(folder, values, declarations, count)),
        round_values(folder, values, declarations, count) == values ==> forall|k: int|
            0 <= k < count ==> values[#[trigger] declarations[k] as int] is Some || folder.folds(
                values,
                declarations[k] as int,
            ) is None,
        round_values(folder, values, declarations, count) != values ==> exists|k: int|
            0 <= k < count && values[#[trigger] declarations[k] as int] is None && round_values(
                folder,
                values,
                declarations,
                count,
            )[declarations[k] as int] is Some,
    decreases count,
{
    if count > 0 {
        lemma_round_extends(folder, values, declarations, (count - 1) as nat);
        let before = round_values(folder, values, declarations, (count - 1) as nat);
        let after = round_values(folder, values, declarations, count);
        let place = declarations[count - 1] as int;
        if before == values {
            if after != values {
                assert(values[place] is None);
                assert(after[place] is Some) by {
                    if after[place] is None {
                        assert(after =~= values);
                    }
                }
            } else {
                if values[place] is None {
                    assert(after[place] == folder.folds(values, place));
                }
            }
        } else {
            let k = choose|k: int|
                0 <= k < count - 1 && values[#[trigger] declarations[k] as int] is None
                    && before[declarations[k] as int] is Some;
            assert(after[declarations[k] as int] is Some);
            assert(after != values);
        }
    }
}

proof fn lemma_pending_falls(
    before: Seq<Option<LibConstView>>,
    after: Seq<Option<LibConstView>>,
    declarations: Seq<usize>,
    count: nat,
)
    requires
        extends(before, after),
        count <= declarations.len(),
        declared_in(declarations, before.len()),
    ensures
        pending(after, declarations, count) <= pending(before, declarations, count),
        (exists|k: int|
            0 <= k < count && before[#[trigger] declarations[k] as int] is None
                && after[declarations[k] as int] is Some) ==> pending(after, declarations, count)
            < pending(before, declarations, count),
    decreases count,
{
    if count > 0 {
        lemma_pending_falls(before, after, declarations, (count - 1) as nat);
    }
}

proof fn lemma_pending_bounded(
    values: Seq<Option<LibConstView>>,
    declarations: Seq<usize>,
    count: nat,
)
    ensures
        pending(values, declarations, count) <= count,
        pending(values, declarations, count) == 0 ==> forall|k: int|
            0 <= k < count ==> values[#[trigger] declarations[k] as int] is Some,
    decreases count,
{
    if count > 0 {
        lemma_pending_bounded(values, declarations, (count - 1) as nat);
    }
}

proof fn lemma_rounds<C: ConstantFolder>(
    folder: C,
    values: Seq<Option<LibConstView>>,
    declarations: Seq<usize>,
    rounds: nat,
)
    requires
        declared_in(declarations, values.len()),
    ensures
        extends(values, values_after(folder, values, declarations, rounds)),
        settled(folder, values_after(folder, values, declarations, rounds), declarations)
            || pending(
            values_after(folder, values, declarations, rounds),
            declarations,
            declarations.len(),
        ) + rounds <= declarations.len(),
    decreases rounds,
{
    let count = declarations.len();
    if rounds == 0 {
        lemma_pending_bounded(values, declarations, count);
    } else {
        lemma_rounds(folder, values, declarations, (rounds - 1) as nat);
        let before = values_after(folder, values, declarations, (rounds - 1) as nat);
        let after = values_after(folder, values, declarations, rounds);
        lemma_round_extends(folder, before, declarations, count);
        if after == before {
            assert(settled(folder, after, declarations));
        } else {
            lemma_pending_falls(before, after, declarations, count);
            if settled(folder, before, declarations) {
                lemma_settled_stays(folder, before, declarations, count);
            }
        }
    }
}

proof fn lemma_settled_stays<C: ConstantFolder>(
    folder: C,
    values: Seq<Option<LibConstView>>,
    declarations: Seq<usize>,
    count: nat,
)
    requires
        settled(folder, values, declarations),
        count <= declarations.len(),
        declared_in(declarations, values.len()),
    ensures
        round_values(folder, values, declarations, count) == values,
    decreases count,
{
    if count > 0 {
        lemma_settled_stays(folder, values, declarations, (count - 1) as nat);
        let place = declarations[count - 1] as int;
        if values[place] is None {
            assert(values.update(place, folder.folds(values, place)) =~= values);
        }
    }
}

proof fn lemma_settled_rounds<C: ConstantFolder>(
    folder: C,
    values: Seq<Option<LibConstView>>,
    declarations: Seq<usize>,
    rounds: nat,
    more: nat,
)
    requires
        settled(folder, values_after(folder, values, declarations, rounds), declarations),
        declared_in(declarations, values.len()),
        rounds <= more,
    ensures
        values_after(folder, values, declarations, more) == values_after(
            folder,
            values,
            declarations,
            rounds,
        ),
    decreases more - rounds,
{
    if rounds < more {
        lemma_rounds(folder, values, declarations, rounds);
        lemma_settled_stays(
            folder,
            values_after(folder, values, declarations, rounds),
            declarations,
            declarations.len(),
        );
        lemma_settled_rounds(folder, values, declarations, rounds + 1, more);
    }
}

/// As many rounds as there are constants find every value that can be found: a constant that is
/// left without one has an initializer without a value. What was published before stays.
pub proof fn every_constant_that_has_a_value_is_found<C: ConstantFolder>(
    folder: C,
    values: Seq<Option<LibConstView>>,
    declarations: Seq<usize>,
)
    requires
        declared_in(declarations, values.len()),
    ensures
        settled(
            folder,
            values_after(folder, values, declarations, declarations.len()),
            declarations,
        ),
        extends(values, values_after(folder, values, declarations, declarations.len())),
{
    let count = declarations.len();
    lemma_rounds(folder, values, declarations, count);
    lemma_pending_bounded(
        values_after(folder, values, declarations, count),
        declarations,
        count,
    );
}

/// Whether the properties of `after` are those of `before` but for their constants.
pub open spec fn same_but_values(
    before: Seq<SourceProperty>,
    after: Seq<SourceProperty>,
) -> bool {
    &&& after.len() == before.len()
    &&& forall|k: int|
        0 <= k < before.len() ==> #[trigger] after[k] == (SourceProperty {
            compile_time_constant: after[k].compile_time_constant,
            ..before[k]
        })
}

fn publish_round<C: ConstantFolder>(
    folder: &C,
    properties: &mut Vec<SourceProperty>,
    declarations: &Vec<usize>,
) -> (changed: bool)
    requires
        declared_in(declarations@, old(properties)@.len()),
    ensures
        same_but_values(old(properties)@, final(properties)@),
        published(final(properties)@) == round_values(
            *folder,
            published(old(properties)@),
            declarations@,
            declarations@.len(),
        ),
        !changed ==> published(final(properties)@) == published(old(properties)@),
{
    let ghost start = properties@;
    let ghost values = published(start);
    let mut changed = false;
    let mut next: usize = 0;
    while next < declarations.len()
        invariant
            next <= declarations@.len(),
            declared_in(declarations@, start.len()),
            values == published(start),
            same_but_values(start, properties@),
            published(properties@) == round_values(*folder, values, declarations@, next as nat),
            !changed ==> published(properties@) == values,
        decreases declarations@.len() - next,
    {
        let place: usize = declarations[next];
        let ghost before = properties@;
        if properties[place].compile_time_constant.is_none() {
            assert(published(before)[place as int] is None);
            match folder.fold(properties, place) {
                Some(value) => {
                    properties[place].compile_time_constant = Some(value);
                    changed = true;
                    assert(published(properties@) =~= published(before).update(
                        place as int,
                        Some(value@),
                    ));
                    assert forall|k: int| 0 <= k < start.len() implies #[trigger] properties@[k]
                        == (SourceProperty {
                        compile_time_constant: properties@[k].compile_time_constant,
                        ..start[k]
                    }) by {
                        assert(before[k] == (SourceProperty {
                            compile_time_constant: before[k].compile_time_constant,
                            ..start[k]
                        }));
                    }
                },
                None => {
                    assert(published(before).update(place as int, None) =~= published(before));
                },
            }
        }
        next += 1;
    }
    changed
}

/// Publish the values of the constants at `declarations`. A constant may read one that is declared
/// later, so this is repeated until nothing changes, at most as often as there are constants.
pub fn publish_listed_constants<C: ConstantFolder>(
    folder: &C,
    properties: &mut Vec<SourceProperty>,
    declarations: &Vec<usize>,
)
    requires
        declared_in(declarations@, old(properties)@.len()),
    ensures
        same_but_values(old(properties)@, final(properties)@),
        published(final(properties)@) == values_after(
            *folder,
            published(old(properties)@),
            declarations@,
            declarations@.len(),
        ),
{
    let ghost start = properties@;
    let ghost values = published(start);
    let mut round: usize = 0;
    while round < declarations.len()
        invariant
            round <= declarations@.len(),
            start == old(properties)@,
            values == published(start),
            declared_in(declarations@, start.len()),
            same_but_values(start, properties@),
            published(properties@) == values_after(*folder, values, declarations@, round as nat),
        decreases declarations@.len() - round,
    {
        let ghost before = properties@;
        let changed = publish_round(folder, properties, declarations);
        assert forall|k: int| 0 <= k < start.len() implies #[trigger] properties@[k]
            == (SourceProperty {
            compile_time_constant: properties@[k].compile_time_constant,
            ..start[k]
        }) by {
            assert(before[k] == (SourceProperty {
                compile_time_constant: before[k].compile_time_constant,
                ..start[k]
            }));
        }
        if !changed {
            proof {
                lemma_round_extends(
                    *folder,
                    published(before),
                    declarations@,
                    declarations@.len(),
                );
                lemma_settled_rounds(
                    *folder,
                    values,
                    declarations@,
                    round as nat,
                    declarations@.len(),
                );
            }
            return;
        }
        round += 1;
    }
}

/// The first property that was declared at a place.
pub open spec fn property_at(properties: Seq<SourceProperty>, file: u32, declaration: u32) -> Option<
    int,
>
    decreases properties.len(),
{
    if properties.len() == 0 {
        None
    } else {
        match property_at(properties.drop_last(), file, declaration) {
            Some(place) => Some(place),
            None => if properties.last().origin.source_file == Some(file)
                && properties.last().origin.source_decl == Some(declaration) {
                Some(properties.len() - 1)
            } else {
                None
            },
        }
    }
}

proof fn lemma_property_stays(
    properties: Seq<SourceProperty>,
    seen: int,
    file: u32,
    declaration: u32,
)
    requires
        0 <= seen <= properties.len(),
        property_at(properties.take(seen), file, declaration) is Some,
    ensures
        property_at(properties, file, declaration) == property_at(
            properties.take(seen),
            file,
            declaration,
        ),
    decreases properties.len() - seen,
{
    if seen < properties.len() {
        assert(properties.take(seen + 1).drop_last() =~= properties.take(seen));
        lemma_property_stays(properties, seen + 1, file, declaration);
    } else {
        assert(properties.take(seen) =~= properties);
    }
}

fn find_property(properties: &Vec<SourceProperty>, file: u32, declaration: u32) -> (found: Option<
    usize,
>)
    ensures
        property_at(properties@, file, declaration) == match found {
            Some(place) => Some(place as int),
            None => None,
        },
        found matches Some(place) ==> place < properties@.len(),
{
    let mut next: usize = 0;
    while next < properties.len()
        invariant
            next <= properties@.len(),
            property_at(properties@.take(next as int), file, declaration) is None,
        decreases properties@.len() - next,
    {
        assert(properties@.take(next as int + 1).drop_last() =~= properties@.take(next as int));
        let origin = &properties[next].origin;
        if origin.source_file == Some(file) && origin.source_decl == Some(declaration) {
            proof {
                lemma_property_stays(properties@, next as int + 1, file, declaration);
            }
            return Some(next);
        }
        next += 1;
    }
    assert(properties@.take(next as int) =~= properties@);
    None
}

/// Whether a declaration outside of classes is a constant: a `const` property with an initializer
/// that is no extension.
pub open spec fn is_constant(declaration: Decl) -> bool {
    declaration matches Decl::Property(property) && property.is_const && !property.has_receiver
        && property.init is Some
}

/// Which of the properties are declared as constants by the first `count` declarations of a file
/// outside of others.
pub open spec fn file_places(
    properties: Seq<SourceProperty>,
    file: File,
    place: u32,
    count: nat,
) -> Seq<usize>
    decreases count,
{
    if count == 0 {
        seq![]
    } else {
        let before = file_places(properties, file, place, (count - 1) as nat);
        let declaration = file.decls@[count - 1];
        match property_at(properties, place, declaration.0) {
            Some(found) if is_constant(file.declarations@[declaration.0 as int]) => before.push(
                found as usize,
            ),
            _ => before,
        }
    }
}

/// Which of the properties are declared as constants in the first `count` files, in the order of the
/// source.
pub open spec fn constant_places(
    properties: Seq<SourceProperty>,
    files: Seq<File>,
    count: nat,
) -> Seq<usize>
    decreases count,
{
    if count == 0 {
        seq![]
    } else {
        let file = files[count - 1];
        constant_places(properties, files, (count - 1) as nat) + file_places(
            properties,
            file,
            (count - 1) as u32,
            file.decls@.len(),
        )
    }
}

/// Which of the properties are declared as constants, in the order of the source.
pub fn list_constants(properties: &Vec<SourceProperty>, files: &Vec<File>) -> (places: Vec<usize>)
    requires
        all_known(files@),
    ensures
        places@ == constant_places(properties@, files@, files@.len()),
        declared_in(places@, properties@.len()),
{
    let mut places: Vec<usize> = Vec::new();
    let mut place: usize = 0;
    while place < files.len()
        invariant
            place <= files@.len(),
            all_known(files@),
            places@ == constant_places(properties@, files@, place as nat),
            declared_in(places@, properties@.len()),
        decreases files@.len() - place,
    {
        let file = &files[place];
        let ghost held = places@;
        let mut next: usize = 0;
        assert(declarations_known(files@[place as int]));
        assert(held =~= held + file_places(properties@, *file, place as u32, 0));
        while next < file.decls.len()
            invariant
                next <= file.decls@.len(),
                declarations_known(*file),
                places@ == held + file_places(properties@, *file, place as u32, next as nat),
                declared_in(places@, properties@.len()),
            decreases file.decls@.len() - next,
        {
            let declaration = file.decls[next];
            let constant = match file.decl(declaration) {
                Decl::Property(property) => property.is_const && !property.has_receiver
                    && property.init.is_some(),
                _ => false,
            };
            if constant {
                if let Some(found) = find_property(properties, place as u32, declaration.0) {
                    places.push(found);
                    assert(places@ =~= held + file_places(
                        properties@,
                        *file,
                        place as u32,
                        next as nat + 1,
                    ));
                }
            }
            next += 1;
        }
        place += 1;
    }
    places
}

/// Publish the values of the constants that the files declare outside of classes. A constant may
/// read one that is declared later, so this is repeated until nothing changes.
pub fn publish_checked_compile_time_constants<C: ConstantFolder>(
    folder: &C,
    files: &Vec<File>,
    properties: &mut Vec<SourceProperty>,
)
    requires
        all_known(files@),
    ensures
        same_but_values(old(properties)@, final(properties)@),
        ({
            let places = constant_places(old(properties)@, files@, files@.len());
            published(final(properties)@) == values_after(
                *folder,
                published(old(properties)@),
                places,
                places.len(),
            )
        }),
{
    let places = list_constants(properties, files);
    publish_listed_constants(folder, properties, &places);
}

} // verus!
