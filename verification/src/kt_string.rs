//! Kotlin strings: sequences of UTF-16 code units.

use vstd::prelude::*;

use crate::text::characters;

verus! {

/// The contents of a Kotlin string.
#[derive(Debug)]
pub struct KtString {
    pub units: Vec<u16>,
}

impl View for KtString {
    type V = Seq<u16>;

    open spec fn view(&self) -> Seq<u16> {
        self.units@
    }
}

impl Clone for KtString {
    fn clone(&self) -> (copy: Self)
        ensures
            copy@ == self@,
    {
        let mut units: Vec<u16> = Vec::new();
        push_units(&mut units, &self.units);
        assert(units@ =~= self@);
        KtString { units }
    }
}

impl PartialEq for KtString {
    fn eq(&self, other: &Self) -> (same: bool) {
        if self.units.len() != other.units.len() {
            return false;
        }
        let mut index: usize = 0;
        while index < self.units.len()
            invariant
                index <= self@.len(),
                self@.len() == other@.len(),
                forall|k: int| 0 <= k < index ==> self@[k] == other@[k],
            decreases self@.len() - index,
        {
            if self.units[index] != other.units[index] {
                return false;
            }
            index += 1;
        }
        assert(self@ =~= other@);
        true
    }
}

impl vstd::std_specs::cmp::PartialEqSpecImpl for KtString {
    open spec fn obeys_eq_spec() -> bool {
        true
    }

    open spec fn eq_spec(&self, other: &Self) -> bool {
        self@ == other@
    }
}

fn push_units(out: &mut Vec<u16>, units: &Vec<u16>)
    ensures
        final(out)@ == old(out)@ + units@,
{
    let ghost before = out@;
    let mut index: usize = 0;
    while index < units.len()
        invariant
            index <= units@.len(),
            out@ == before + units@.take(index as int),
        decreases units@.len() - index,
    {
        out.push(units[index]);
        assert(units@.take(index as int + 1) =~= units@.take(index as int).push(units@[index as int]));
        index += 1;
    }
    assert(units@.take(index as int) =~= units@);
}

/// The UTF-16 code units of one character.
pub open spec fn letter_units(letter: char) -> Seq<u16> {
    let code = letter as int;
    if code < 0x10000 {
        seq![code as u16]
    } else {
        seq![
            (0xd800 + (code - 0x10000) / 0x400) as u16,
            (0xdc00 + (code - 0x10000) % 0x400) as u16,
        ]
    }
}

/// The UTF-16 code units of a text.
pub open spec fn text_units(text: Seq<char>) -> Seq<u16>
    decreases text.len(),
{
    if text.len() == 0 {
        Seq::empty()
    } else {
        text_units(text.drop_last()) + letter_units(text.last())
    }
}

/// A Kotlin string under construction.
#[derive(Debug)]
pub struct KtStringBuf {
    units: Vec<u16>,
}

impl View for KtStringBuf {
    type V = Seq<u16>;

    closed spec fn view(&self) -> Seq<u16> {
        self.units@
    }
}

impl KtStringBuf {
    pub fn new() -> (out: Self)
        ensures
            out@ == Seq::<u16>::empty(),
    {
        KtStringBuf { units: Vec::new() }
    }

    /// Append a Kotlin string.
    pub fn push_kt(&mut self, value: &KtString)
        ensures
            final(self)@ == old(self)@ + value@,
    {
        push_units(&mut self.units, &value.units);
    }

    /// Append one code unit.
    pub fn push_unit(&mut self, unit: u16)
        ensures
            final(self)@ == old(self)@.push(unit),
    {
        self.units.push(unit);
    }

    fn push_letter(&mut self, letter: char)
        ensures
            final(self)@ == old(self)@ + letter_units(letter),
    {
        let code: u32 = letter as u32;
        if code < 0x10000 {
            self.units.push(code as u16);
        } else {
            self.units.push((0xd800 + (code - 0x10000) / 0x400) as u16);
            self.units.push((0xdc00 + (code - 0x10000) % 0x400) as u16);
        }
    }

    /// Append a text.
    pub fn push_str(&mut self, text: &str)
        ensures
            final(self)@ == old(self)@ + text_units(text@),
    {
        let letters = characters(text);
        let mut index: usize = 0;
        let ghost before = self@;
        while index < letters.len()
            invariant
                index <= letters@.len(),
                self@ == before + text_units(letters@.take(index as int)),
            decreases letters@.len() - index,
        {
            self.push_letter(letters[index]);
            assert(letters@.take(index as int + 1).drop_last() =~= letters@.take(index as int));
            assert(self@ =~= before + text_units(letters@.take(index as int + 1)));
            index += 1;
        }
        assert(letters@.take(index as int) =~= letters@);
    }

    /// The finished string.
    pub fn finish(self) -> (out: KtString)
        ensures
            out@ == self@,
    {
        KtString { units: self.units }
    }
}

impl KtString {
    /// The string that `text` spells.
    pub fn from(text: &str) -> (out: KtString)
        ensures
            out@ == text_units(text@),
    {
        let mut buffer = KtStringBuf::new();
        buffer.push_str(text);
        assert(Seq::<u16>::empty() + text_units(text@) =~= text_units(text@));
        buffer.finish()
    }
}

} // verus!
