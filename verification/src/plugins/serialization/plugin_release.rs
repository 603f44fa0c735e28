//! Releases of the serialization compiler plugin.

use vstd::prelude::*;

use crate::text::{characters, number, parse_number, split, split_letters, until};

verus! {

/// The release of the plugin whose behaviour is reproduced. The plugin is released together with
/// the compiler, so this is the compiler release the plugin came from; the wording of its messages
/// follows it, whatever language version is compiled.
#[derive(Clone, Copy, Debug, PartialEq, Eq, PartialOrd, Ord, Structural)]
pub struct PluginRelease {
    pub major: u32,
    pub minor: u32,
    pub patch: u32,
}

/// The release that the text names by its leading numbers. A build suffix counts for nothing.
pub open spec fn named_release(release: Seq<char>) -> Option<PluginRelease> {
    let parts = split(until(release, seq!['-', '+']), '.');
    if parts.len() < 2 {
        None
    } else {
        let patch = if parts.len() > 2 {
            number(parts[2])
        } else {
            Some(0u32)
        };
        match (number(parts[0]), number(parts[1]), patch) {
            (Some(major), Some(minor), Some(patch)) => Some(PluginRelease { major, minor, patch }),
            _ => None,
        }
    }
}

impl PluginRelease {
    /// From this release on, the messages of the plugin's checkers end with a full stop.
    pub fn v2_4_20() -> (release: PluginRelease)
        ensures
            release == (PluginRelease { major: 2, minor: 4, patch: 20 }),
    {
        PluginRelease { major: 2, minor: 4, patch: 20 }
    }

    pub fn new(major: u32, minor: u32, patch: u32) -> (release: PluginRelease)
        ensures
            release == (PluginRelease { major, minor, patch }),
    {
        PluginRelease { major, minor, patch }
    }

    /// The order of releases: by major number, then minor number, then patch.
    pub open spec fn not_before(self, other: PluginRelease) -> bool {
        ||| self.major > other.major
        ||| self.major == other.major && self.minor > other.minor
        ||| self.major == other.major && self.minor == other.minor && self.patch >= other.patch
    }

    /// Whether this release is `other` or a later one.
    pub fn at_least(&self, other: &PluginRelease) -> (yes: bool)
        ensures
            yes == self.not_before(*other),
    {
        self.major > other.major || self.major == other.major && (self.minor > other.minor
            || self.minor == other.minor && self.patch >= other.patch)
    }

    /// Read a release by its leading `major.minor.patch`, where the patch may be absent. There is
    /// none where those parts are not numbers.
    pub fn parse(release: &str) -> (found: Option<PluginRelease>)
        ensures
            found == named_release(release@),
    {
        let letters = leading(release);
        let parts = split_letters(&letters, '.');
        let major = match parse_number(&parts[0]) {
            Some(value) => value,
            None => {
                return None;
            },
        };
        if parts.len() < 2 {
            return None;
        }
        let minor = match parse_number(&parts[1]) {
            Some(value) => value,
            None => {
                return None;
            },
        };
        let patch = if parts.len() > 2 {
            match parse_number(&parts[2]) {
                Some(value) => value,
                None => {
                    return None;
                },
            }
        } else {
            0
        };
        Some(PluginRelease::new(major, minor, patch))
    }
}

/// The letters before the first `-` or `+`.
fn leading(release: &str) -> (letters: Vec<char>)
    ensures
        letters@ == until(release@, seq!['-', '+']),
{
    let all = characters(release);
    let mut letters: Vec<char> = Vec::new();
    let mut index: usize = 0;
    let ghost stops = seq!['-', '+'];
    assert(release@.skip(0) =~= release@);
    assert(letters@ + until(release@, stops) =~= until(release@, stops));
    while index < all.len()
        invariant
            index <= all@.len(),
            all@ == release@,
            stops == seq!['-', '+'],
            letters@ + until(release@.skip(index as int), stops) == until(release@, stops),
        decreases all@.len() - index,
    {
        let letter = all[index];
        let ghost rest = release@.skip(index as int);
        proof {
            assert(stops[0] == '-' && stops[1] == '+');
            assert(stops.contains(letter) == (letter == '-' || letter == '+'));
        }
        if letter == '-' || letter == '+' {
            assert(until(rest, stops) =~= Seq::<char>::empty());
            assert(letters@ + Seq::<char>::empty() =~= letters@);
            return letters;
        }
        proof {
            assert(rest.skip(1) =~= release@.skip(index as int + 1));
            assert(letters@ + (seq![letter] + until(rest.skip(1), stops)) =~= letters@.push(letter)
                + until(rest.skip(1), stops));
        }
        letters.push(letter);
        index += 1;
    }
    assert(letters@ + Seq::<char>::empty() =~= letters@);
    letters
}

proof fn lemma_until_ignores(release: Seq<char>, suffix: Seq<char>, stops: Seq<char>)
    requires
        suffix.len() == 0 || stops.contains(suffix[0]),
    ensures
        until(release + suffix, stops) == until(release, stops),
    decreases release.len(),
{
    if release.len() == 0 {
        assert(release + suffix =~= suffix);
    } else {
        lemma_until_ignores(release.skip(1), suffix, stops);
        assert((release + suffix).skip(1) =~= release.skip(1) + suffix);
    }
}

/// What follows a `-` or a `+` has no say in which release is named.
pub proof fn a_build_suffix_counts_for_nothing(release: Seq<char>, suffix: Seq<char>)
    requires
        suffix.len() > 0,
        suffix[0] == '-' || suffix[0] == '+',
    ensures
        named_release(release + suffix) == named_release(release),
{
    let stops = seq!['-', '+'];
    assert(stops[0] == '-' && stops[1] == '+');
    lemma_until_ignores(release, suffix, stops);
}

/// Any two releases stand in order, and two that stand in either order are one.
pub proof fn releases_are_ordered(left: PluginRelease, right: PluginRelease)
    ensures
        left.not_before(right) || right.not_before(left),
        left.not_before(right) && right.not_before(left) ==> left == right,
{
}

} // verus!
