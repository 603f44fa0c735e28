//! Qualified classifier names.
//!
//! A name is written with `/` between packages and `.` between a classifier and the classifiers
//! nested in it: `kotlin/collections/Map.Entry`. A `$` is an ordinary identifier character, so it
//! never separates an owner from a nested classifier.

use vstd::prelude::*;

use crate::text::{find_last, last_position, lemma_last_position, same_text};

verus! {

/// The qualified name of a classifier, a package or a member owner.
#[derive(Debug)]
pub struct TypeName {
    path: Box<String>,
}

impl View for TypeName {
    type V = Seq<char>;

    closed spec fn view(&self) -> Seq<char> {
        self.path@
    }
}

impl Clone for TypeName {
    fn clone(&self) -> (copy: Self)
        ensures
            copy@ == self@,
    {
        TypeName { path: Box::new(self.path.as_str().to_owned()) }
    }
}

impl PartialEq for TypeName {
    fn eq(&self, other: &Self) -> (same: bool) {
        same_text(self.path.as_str(), other.path.as_str())
    }
}

impl vstd::std_specs::cmp::PartialEqSpecImpl for TypeName {
    open spec fn obeys_eq_spec() -> bool {
        true
    }

    open spec fn eq_spec(&self, other: &Self) -> bool {
        self@ == other@
    }
}

/// The name spelled by `path`.
pub fn qualified(path: &str) -> (name: TypeName)
    ensures
        name@ == path@,
{
    TypeName { path: Box::new(path.to_owned()) }
}

/// The owner of the classifier `name`, where it is nested in another one.
pub open spec fn nested_owner_of(name: Seq<char>) -> Option<Seq<char>> {
    let dot = last_position(name, '.');
    if dot > last_position(name, '/') {
        Some(name.take(dot))
    } else {
        None
    }
}

/// The name that encloses `name`: its owner where it is nested, else its package. A name of the
/// root package has the empty parent.
pub open spec fn parent_of(name: Seq<char>) -> Seq<char> {
    match nested_owner_of(name) {
        Some(owner) => owner,
        None => {
            let slash = last_position(name, '/');
            if slash < 0 {
                Seq::empty()
            } else {
                name.take(slash)
            }
        },
    }
}

/// The last segment of `name`.
pub open spec fn simple_name_of(name: Seq<char>) -> Seq<char> {
    let dot = last_position(name, '.');
    let slash = last_position(name, '/');
    name.skip(1 + if dot > slash { dot } else { slash })
}

/// The name of the classifier `child` nested in `owner`.
pub open spec fn nested_name(owner: Seq<char>, child: Seq<char>) -> Seq<char> {
    owner + "."@ + child
}

impl TypeName {
    /// The spelling of the name.
    pub fn text(&self) -> (text: &str)
        ensures
            text@ == self@,
    {
        self.path.as_str()
    }

    /// Whether the name is spelled `path`.
    pub fn matches(&self, path: &str) -> (same: bool)
        ensures
            same == (self@ == path@),
    {
        same_text(self.path.as_str(), path)
    }

    /// The name of the root package.
    pub fn root() -> (name: TypeName)
        ensures
            name@ == Seq::<char>::empty(),
    {
        TypeName { path: Box::new(String::new()) }
    }

    /// The classifier `child` nested in this one.
    pub fn nested_child(&self, child: &str) -> (name: TypeName)
        ensures
            name@ == nested_name(self@, child@),
    {
        let mut path = self.path.as_str().to_owned();
        path.append(".");
        path.append(child);
        TypeName { path: Box::new(path) }
    }

    /// The classifier or package `child` of this package.
    pub fn package_child(&self, child: &str) -> (name: TypeName)
        ensures
            name@ == (if self@.len() == 0 {
                child@
            } else {
                self@ + "/"@ + child@
            }),
    {
        if self.path.as_str().is_empty() {
            return qualified(child);
        }
        let mut path = self.path.as_str().to_owned();
        path.append("/");
        path.append(child);
        TypeName { path: Box::new(path) }
    }

    /// The classifier that this one is nested in.
    pub fn nested_owner(&self) -> (owner: Option<TypeName>)
        ensures
            match owner {
                Some(name) => nested_owner_of(self@) == Some(name@),
                None => nested_owner_of(self@) is None,
            },
    {
        proof {
            lemma_last_position(self@, '.');
            lemma_last_position(self@, '/');
        }
        let slash = find_last(self.path.as_str(), '/');
        match find_last(self.path.as_str(), '.') {
            Some(dot) => {
                let nested = match slash {
                    Some(position) => dot > position,
                    None => true,
                };
                if nested {
                    Some(TypeName { path: Box::new(self.path.as_str().substring_char(0, dot).to_owned()) })
                } else {
                    None
                }
            },
            None => None,
        }
    }

    /// The name that encloses this one.
    pub fn parent(&self) -> (name: TypeName)
        ensures
            name@ == parent_of(self@),
    {
        match self.nested_owner() {
            Some(owner) => owner,
            None => {
                proof {
                    lemma_last_position(self@, '/');
                }
                match find_last(self.path.as_str(), '/') {
                    Some(slash) => TypeName {
                        path: Box::new(self.path.as_str().substring_char(0, slash).to_owned()),
                    },
                    None => TypeName::root(),
                }
            },
        }
    }

    /// The last segment of the name.
    pub fn simple_name(&self) -> (name: String)
        ensures
            name@ == simple_name_of(self@),
    {
        proof {
            lemma_last_position(self@, '.');
            lemma_last_position(self@, '/');
        }
        let text = self.path.as_str();
        let length: usize = text.unicode_len();
        let after_slash: usize = match find_last(text, '/') {
            Some(slash) => slash + 1,
            None => 0,
        };
        let after_dot: usize = match find_last(text, '.') {
            Some(dot) => dot + 1,
            None => 0,
        };
        let start: usize = if after_dot > after_slash { after_dot } else { after_slash };
        text.substring_char(start, length).to_owned()
    }
}

/// A nested classifier's owner is the classifier that it was named under.
pub proof fn nested_child_returns_to_its_owner(owner: Seq<char>, child: Seq<char>)
    requires
        last_position(child, '.') == -1,
        last_position(child, '/') == -1,
    ensures
        nested_owner_of(nested_name(owner, child)) == Some(owner),
        parent_of(nested_name(owner, child)) == owner,
        simple_name_of(nested_name(owner, child)) == child,
{
    reveal_strlit(".");
    let name = nested_name(owner, child);
    lemma_last_position(name, '.');
    lemma_last_position(name, '/');
    lemma_last_position(child, '.');
    lemma_last_position(child, '/');
    let at = owner.len() as int;
    assert(name[at] == '.');
    assert forall|k: int| at < k < name.len() implies name[k] != '.' && name[k] != '/' by {
        assert(name[k] == child[k - at - 1]);
    }
    assert(last_position(name, '.') == at);
    assert(name.take(at) =~= owner);
    assert(name.skip(at + 1) =~= child);
}

/// Whether a name starts like that of a Boolean getter: with `is`, and with no lower-case letter
/// behind it.
pub open spec fn has_is_prefix(name: Seq<char>) -> bool {
    name.len() > 2 && name[0] == 'i' && name[1] == 's' && !('a' <= name[2] && name[2] <= 'z')
}

/// A letter in upper case, where it is a lower-case letter of the basic alphabet.
pub open spec fn capital(letter: char) -> Seq<char> {
    if 'a' <= letter && letter <= 'z' {
        let place = letter as int - 'a' as int;
        "ABCDEFGHIJKLMNOPQRSTUVWXYZ"@.subrange(place, place + 1)
    } else {
        seq![letter]
    }
}

/// The name of the getter of a property.
pub open spec fn getter_name(property: Seq<char>) -> Seq<char> {
    if has_is_prefix(property) {
        property
    } else if property.len() == 0 {
        "get"@
    } else {
        "get"@ + capital(property[0]) + property.skip(1)
    }
}

/// The name of the getter of a property.
pub fn property_getter_name(property: &str) -> (name: String)
    ensures
        name@ == getter_name(property@),
{
    let length: usize = property.unicode_len();
    if length == 0 {
        return "get".to_owned();
    }
    if length > 2 && property.get_char(0) == 'i' && property.get_char(1) == 's' {
        let third: char = property.get_char(2);
        if !('a' <= third && third <= 'z') {
            return property.to_owned();
        }
    }
    let first: char = property.get_char(0);
    let mut name = "get".to_owned();
    if 'a' <= first && first <= 'z' {
        let place: usize = (first as u32 - 'a' as u32) as usize;
        let alphabet = "ABCDEFGHIJKLMNOPQRSTUVWXYZ";
        proof {
            reveal_strlit("ABCDEFGHIJKLMNOPQRSTUVWXYZ");
        }
        assert(alphabet@.len() == 26);
        name.append(alphabet.substring_char(place, place + 1));
    } else {
        name.append(property.substring_char(0, 1));
        assert(property@.subrange(0, 1) =~= capital(first));
    }
    name.append(property.substring_char(1, length));
    assert(property@.subrange(1, length as int) =~= property@.skip(1));
    name
}

} // verus!
