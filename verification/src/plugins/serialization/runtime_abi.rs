//! The shape of generated members that the serialization runtime expects.

use vstd::prelude::*;

use crate::text::{
    after_prefix, before_suffix, characters, find_last, last_position, lemma_last_position, number,
    option_view, parse_number, split, split_letters, strip_prefix, strip_suffix,
};

verus! {

/// The binary interface that generated code has to match. The shape of generated members changed
/// from one runtime release to another, and code generated for one does not link with the other.
#[derive(Clone, Copy, Debug, PartialEq, Eq, Default, Structural)]
pub enum SerializationAbi {
    /// Before 1.6: the write helper of a class is called `write$Self`.
    V1_0,
    /// From 1.6 on: the module is part of the helper's name, so that modules do not clash.
    #[default]
    V1_6Plus,
}

/// The number in part `index`, where there is such a part and it is a number, and 0 otherwise.
pub open spec fn part_value(parts: Seq<Seq<char>>, index: int) -> u32 {
    if index < parts.len() {
        match number(parts[index]) {
            Some(value) => value,
            None => 0u32,
        }
    } else {
        0u32
    }
}

/// The interface of the runtime of the given version.
pub open spec fn abi_of_version(version: Seq<char>) -> SerializationAbi {
    let parts = split(version, '.');
    let major = part_value(parts, 0);
    let minor = part_value(parts, 1);
    if major < 1 || major == 1 && minor < 6 {
        SerializationAbi::V1_0
    } else {
        SerializationAbi::V1_6Plus
    }
}

/// The text after the last slash.
pub open spec fn file_name(path: Seq<char>) -> Seq<char> {
    path.skip(last_position(path, '/') + 1)
}

/// The version in the name of a core runtime jar; none where the path names another file.
pub open spec fn core_version(path: Seq<char>) -> Option<Seq<char>> {
    match before_suffix(file_name(path), ".jar"@) {
        None => None,
        Some(stem) => match after_prefix(stem, "kotlinx-serialization-core"@) {
            None => None,
            Some(rest) => {
                let rest = match after_prefix(rest, "-jvm"@) {
                    Some(platform_free) => platform_free,
                    None => rest,
                };
                after_prefix(rest, "-"@)
            },
        },
    }
}

/// The interface of the first core runtime jar among `jars`.
pub open spec fn abi_of_classpath(jars: Seq<String>) -> Option<SerializationAbi>
    decreases jars.len(),
{
    if jars.len() == 0 {
        None
    } else {
        match core_version(jars[0]@) {
            Some(version) => Some(abi_of_version(version)),
            None => abi_of_classpath(jars.skip(1)),
        }
    }
}

fn jar_version(path: &str) -> (version: Option<String>)
    ensures
        option_view(version) == core_version(path@),
{
    proof {
        lemma_last_position(path@, '/');
    }
    let length: usize = path.unicode_len();
    let start: usize = match find_last(path, '/') {
        Some(position) => position + 1,
        None => 0,
    };
    let name = path.substring_char(start, length);
    assert(name@ =~= file_name(path@));
    match strip_suffix(name, ".jar") {
        None => None,
        Some(stem) => match strip_prefix(stem.as_str(), "kotlinx-serialization-core") {
            None => None,
            Some(rest) => match strip_prefix(rest.as_str(), "-jvm") {
                Some(platform_free) => strip_prefix(platform_free.as_str(), "-"),
                None => strip_prefix(rest.as_str(), "-"),
            },
        },
    }
}

impl SerializationAbi {
    /// The interface of the runtime of the given version. A part that is no number counts as 0.
    pub fn from_core_version(version: &str) -> (abi: SerializationAbi)
        ensures
            abi == abi_of_version(version@),
    {
        let parts = split_letters(&characters(version), '.');
        let major: u32 = match parse_number(&parts[0]) {
            Some(value) => value,
            None => 0,
        };
        let minor: u32 = if parts.len() > 1 {
            match parse_number(&parts[1]) {
                Some(value) => value,
                None => 0,
            }
        } else {
            0
        };
        if major < 1 || major == 1 && minor < 6 {
            SerializationAbi::V1_0
        } else {
            SerializationAbi::V1_6Plus
        }
    }

    /// The interface of the first core runtime jar on the classpath; none where there is no such
    /// jar.
    pub fn from_classpath(cp_jars: &[String]) -> (abi: Option<SerializationAbi>)
        ensures
            abi == abi_of_classpath(cp_jars@),
    {
        let mut index: usize = 0;
        assert(cp_jars@.skip(0) =~= cp_jars@);
        while index < cp_jars.len()
            invariant
                index <= cp_jars@.len(),
                abi_of_classpath(cp_jars@.skip(index as int)) == abi_of_classpath(cp_jars@),
            decreases cp_jars@.len() - index,
        {
            assert(cp_jars@.skip(index as int).skip(1) =~= cp_jars@.skip(index as int + 1));
            if let Some(version) = jar_version(cp_jars[index].as_str()) {
                return Some(SerializationAbi::from_core_version(version.as_str()));
            }
            index += 1;
        }
        None
    }
}

/// Jars that are no core runtime have no say, and neither has a second core runtime.
pub proof fn the_first_core_runtime_decides(before: Seq<String>, jar: String, after: Seq<String>)
    requires
        forall|k: int| 0 <= k < before.len() ==> core_version((#[trigger] before[k])@) is None,
        core_version(jar@) is Some,
    ensures
        abi_of_classpath(before + seq![jar] + after) == Some(
            abi_of_version(core_version(jar@)->0),
        ),
    decreases before.len(),
{
    let all = before + seq![jar] + after;
    if before.len() > 0 {
        the_first_core_runtime_decides(before.skip(1), jar, after);
        assert(all.skip(1) =~= before.skip(1) + seq![jar] + after);
        assert(all[0] == before[0]);
    } else {
        assert(all[0] == jar);
    }
}

} // verus!
