//! Text helpers whose contracts speak of the characters of a string.

use vstd::prelude::*;

verus! {

/// The views of the elements of a sequence, in order.
pub open spec fn views<T: View>(items: Seq<T>) -> Seq<T::V> {
    Seq::new(items.len(), |i: int| items[i]@)
}

/// The view of an optional value.
pub open spec fn option_view<T: View>(value: Option<T>) -> Option<T::V> {
    match value {
        Some(inner) => Some(inner@),
        None => None,
    }
}

pub broadcast proof fn lemma_views_push<T: View>(items: Seq<T>, item: T)
    ensures
        #[trigger] views(items.push(item)) == views(items).push(item@),
{
    assert(views(items.push(item)) =~= views(items).push(item@));
}

pub broadcast proof fn lemma_views_add<T: View>(left: Seq<T>, right: Seq<T>)
    ensures
        #[trigger] views(left + right) == views(left) + views(right),
{
    assert(views(left + right) =~= views(left) + views(right));
}

pub broadcast proof fn lemma_views_empty<T: View>()
    ensures
        #[trigger] views(Seq::<T>::empty()) == Seq::<T::V>::empty(),
{
    assert(views(Seq::<T>::empty()) =~= Seq::<T::V>::empty());
}

pub broadcast group group_views {
    lemma_views_push,
    lemma_views_add,
    lemma_views_empty,
}

/// Whether two strings hold the same characters.
pub fn same_text(left: &str, right: &str) -> (same: bool)
    ensures
        same == (left@ == right@),
{
    left.to_owned() == right.to_owned()
}

/// The characters of a string, in order.
pub fn characters(text: &str) -> (out: Vec<char>)
    ensures
        out@ == text@,
{
    let length: usize = text.unicode_len();
    let mut out: Vec<char> = Vec::new();
    let mut index: usize = 0;
    while index < length
        invariant
            index <= length,
            length == text@.len(),
            out@ == text@.take(index as int),
        decreases length - index,
    {
        out.push(text.get_char(index));
        assert(text@.take(index as int + 1) =~= text@.take(index as int).push(text@[index as int]));
        index += 1;
    }
    assert(text@.take(length as int) =~= text@);
    out
}

/// Whether `text` begins with `prefix`.
pub open spec fn has_prefix(text: Seq<char>, prefix: Seq<char>) -> bool {
    prefix.len() <= text.len() && text.take(prefix.len() as int) == prefix
}

/// Whether `text` ends with `suffix`.
pub open spec fn has_suffix(text: Seq<char>, suffix: Seq<char>) -> bool {
    suffix.len() <= text.len() && text.skip(text.len() - suffix.len()) == suffix
}

pub fn starts_with(text: &str, prefix: &str) -> (found: bool)
    ensures
        found == has_prefix(text@, prefix@),
{
    let wanted: usize = prefix.unicode_len();
    if text.unicode_len() < wanted {
        return false;
    }
    same_text(text.substring_char(0, wanted), prefix)
}

pub fn ends_with(text: &str, suffix: &str) -> (found: bool)
    ensures
        found == has_suffix(text@, suffix@),
{
    let wanted: usize = suffix.unicode_len();
    let length: usize = text.unicode_len();
    if length < wanted {
        return false;
    }
    same_text(text.substring_char(length - wanted, length), suffix)
}

/// The text after `prefix`, where `text` begins with it.
pub open spec fn after_prefix(text: Seq<char>, prefix: Seq<char>) -> Option<Seq<char>> {
    if has_prefix(text, prefix) {
        Some(text.skip(prefix.len() as int))
    } else {
        None
    }
}

pub fn strip_prefix(text: &str, prefix: &str) -> (rest: Option<String>)
    ensures
        option_view(rest) == after_prefix(text@, prefix@),
{
    if starts_with(text, prefix) {
        Some(text.substring_char(prefix.unicode_len(), text.unicode_len()).to_owned())
    } else {
        None
    }
}

/// The text before `suffix`, where `text` ends with it.
pub open spec fn before_suffix(text: Seq<char>, suffix: Seq<char>) -> Option<Seq<char>> {
    if has_suffix(text, suffix) {
        Some(text.take(text.len() - suffix.len()))
    } else {
        None
    }
}

pub fn strip_suffix(text: &str, suffix: &str) -> (rest: Option<String>)
    ensures
        option_view(rest) == before_suffix(text@, suffix@),
{
    if ends_with(text, suffix) {
        Some(text.substring_char(0, text.unicode_len() - suffix.unicode_len()).to_owned())
    } else {
        None
    }
}

/// The last position of `wanted` in `text`, or -1.
pub open spec fn last_position(text: Seq<char>, wanted: char) -> int
    decreases text.len(),
{
    if text.len() == 0 {
        -1
    } else if text.last() == wanted {
        text.len() - 1
    } else {
        last_position(text.drop_last(), wanted)
    }
}

pub proof fn lemma_last_position(text: Seq<char>, wanted: char)
    ensures
        -1 <= last_position(text, wanted) < text.len(),
        last_position(text, wanted) >= 0 ==> text[last_position(text, wanted)] == wanted,
        forall|k: int| last_position(text, wanted) < k < text.len() ==> text[k] != wanted,
    decreases text.len(),
{
    if text.len() != 0 && text.last() != wanted {
        lemma_last_position(text.drop_last(), wanted);
        assert forall|k: int| last_position(text, wanted) < k < text.len() implies text[k] != wanted by {
            if k < text.len() - 1 {
                assert(text.drop_last()[k] == text[k]);
            }
        }
    }
}

/// The last position of `wanted` in `text`.
pub fn find_last(text: &str, wanted: char) -> (position: Option<usize>)
    ensures
        match position {
            Some(found) => found == last_position(text@, wanted),
            None => last_position(text@, wanted) == -1,
        },
{
    let letters = characters(text);
    let mut end: usize = letters.len();
    assert(text@.take(end as int) =~= text@);
    while end > 0
        invariant
            end <= letters@.len(),
            letters@ == text@,
            last_position(text@, wanted) == last_position(text@.take(end as int), wanted),
        decreases end,
    {
        if letters[end - 1] == wanted {
            return Some(end - 1);
        }
        assert(text@.take(end as int).drop_last() =~= text@.take(end as int - 1));
        end -= 1;
    }
    None
}

/// The digits of a natural number in base ten, most significant first.
pub open spec fn decimal(value: nat) -> Seq<char>
    decreases value,
{
    if value < 10 {
        seq![digit(value)]
    } else {
        decimal(value / 10).push(digit(value % 10))
    }
}

/// The character of one decimal digit.
pub open spec fn digit(value: nat) -> char {
    (('0' as nat) + value) as char
}

/// The number of one decimal digit, for any other character `None`.
pub open spec fn digit_value(letter: char) -> Option<nat> {
    if '0' <= letter <= '9' {
        Some((letter as nat - '0' as nat) as nat)
    } else {
        None
    }
}

fn digit_text(value: u8) -> (out: &'static str)
    requires
        value < 10,
    ensures
        out@ == seq![digit(value as nat)],
{
    proof {
        reveal_strlit("0");
        reveal_strlit("1");
        reveal_strlit("2");
        reveal_strlit("3");
        reveal_strlit("4");
        reveal_strlit("5");
        reveal_strlit("6");
        reveal_strlit("7");
        reveal_strlit("8");
        reveal_strlit("9");
    }
    match value {
        0 => "0",
        1 => "1",
        2 => "2",
        3 => "3",
        4 => "4",
        5 => "5",
        6 => "6",
        7 => "7",
        8 => "8",
        _ => "9",
    }
}

/// Render a natural number in base ten.
pub fn decimal_text(value: u64) -> (out: String)
    ensures
        out@ == decimal(value as nat),
    decreases value,
{
    if value < 10 {
        digit_text(value as u8).to_owned()
    } else {
        let mut out = decimal_text(value / 10);
        out.append(digit_text((value % 10) as u8));
        out
    }
}

/// A number is read back from its digits, which have no zero in front of them.
pub proof fn a_number_is_read_back_from_its_digits(value: nat)
    ensures
        digits_value(decimal(value)) == Some(value),
        decimal(value).len() >= 1,
        decimal(value)[0] == '0' ==> value == 0 && decimal(value).len() == 1,
        forall|k: int|
            0 <= k < decimal(value).len() ==> '0' <= #[trigger] decimal(value)[k] <= '9',
    decreases value,
{
    reveal_with_fuel(digits_value, 2);
    if value >= 10 {
        let above = decimal(value / 10);
        a_number_is_read_back_from_its_digits(value / 10);
        assert(decimal(value).drop_last() =~= above);
        assert(digit_value(digit(value % 10)) == Some(value % 10));
        assert(decimal(value)[0] == above[0]);
        assert forall|k: int| 0 <= k < decimal(value).len() implies '0' <= #[trigger] decimal(
            value,
        )[k] <= '9' by {
            if k < above.len() {
                assert(decimal(value)[k] == above[k]);
            }
        }
    } else {
        assert(decimal(value) =~= seq![digit(value)]);
        assert(decimal(value).drop_last() =~= Seq::<char>::empty());
        assert(digit_value(digit(value)) == Some(value));
    }
}

/// The integer that a text spells: digits, behind a minus sign where it is negative.
pub open spec fn spelled_integer(text: Seq<char>) -> Option<int> {
    if text.len() > 0 && text[0] == '-' {
        match digits_value(text.skip(1)) {
            Some(value) => Some(-(value as int)),
            None => None,
        }
    } else {
        match digits_value(text) {
            Some(value) => Some(value as int),
            None => None,
        }
    }
}

/// An integer is read back from how it is spelled.
pub proof fn an_integer_is_read_back_from_its_spelling(value: int)
    ensures
        spelled_integer(signed_decimal(value)) == Some(value),
{
    if value < 0 {
        let digits = decimal((-value) as nat);
        a_number_is_read_back_from_its_digits((-value) as nat);
        assert(signed_decimal(value).skip(1) =~= digits);
    } else {
        a_number_is_read_back_from_its_digits(value as nat);
        assert(decimal(value as nat)[0] != '-');
    }
}

/// An integer in base ten, with a leading minus sign where it is negative.
pub open spec fn signed_decimal(value: int) -> Seq<char> {
    if value < 0 {
        seq!['-'] + decimal((-value) as nat)
    } else {
        decimal(value as nat)
    }
}

/// Render a signed integer in base ten.
pub fn signed_decimal_text(value: i64) -> (out: String)
    ensures
        out@ == signed_decimal(value as int),
{
    if value < 0 {
        let mut out = "-".to_owned();
        proof {
            reveal_strlit("-");
        }
        let magnitude: u64 = (-(value + 1)) as u64 + 1;
        out.append(decimal_text(magnitude).as_str());
        out
    } else {
        decimal_text(value as u64)
    }
}

/// The parts joined by a separator.
pub open spec fn joined(parts: Seq<Seq<char>>, separator: Seq<char>) -> Seq<char>
    decreases parts.len(),
{
    if parts.len() == 0 {
        Seq::empty()
    } else if parts.len() == 1 {
        parts[0]
    } else {
        joined(parts.drop_last(), separator) + separator + parts.last()
    }
}

/// Join strings with a separator.
pub fn join(parts: &Vec<String>, separator: &str) -> (out: String)
    ensures
        out@ == joined(views(parts@), separator@),
{
    let mut out = String::new();
    let mut index: usize = 0;
    while index < parts.len()
        invariant
            index <= parts@.len(),
            out@ == joined(views(parts@).take(index as int), separator@),
        decreases parts@.len() - index,
    {
        if index > 0 {
            out.append(separator);
        }
        out.append(parts[index].as_str());
        proof {
            let shown = views(parts@);
            assert(shown.take(index as int + 1).drop_last() =~= shown.take(index as int));
            assert(joined(shown.take(index as int + 1), separator@) =~= out@);
        }
        index += 1;
    }
    assert(views(parts@).take(index as int) =~= views(parts@));
    out
}

/// Spelling order: the order of the characters' code points, a prefix first.
pub open spec fn spelled_before(left: Seq<char>, right: Seq<char>) -> bool
    decreases left.len(),
{
    if right.len() == 0 {
        false
    } else if left.len() == 0 {
        true
    } else if left[0] != right[0] {
        left[0] < right[0]
    } else {
        spelled_before(left.skip(1), right.skip(1))
    }
}

/// Whether `left` comes before `right` in spelling order.
pub fn precedes(left: &str, right: &str) -> (before: bool)
    ensures
        before == spelled_before(left@, right@),
{
    let a = characters(left);
    let b = characters(right);
    let mut index: usize = 0;
    assert(a@.skip(0) =~= a@);
    assert(b@.skip(0) =~= b@);
    while index < a.len() && index < b.len() && a[index] == b[index]
        invariant
            index <= a@.len(),
            index <= b@.len(),
            a@ == left@,
            b@ == right@,
            spelled_before(a@, b@) == spelled_before(a@.skip(index as int), b@.skip(index as int)),
        decreases a@.len() - index,
    {
        assert(a@.skip(index as int).skip(1) =~= a@.skip(index as int + 1));
        assert(b@.skip(index as int).skip(1) =~= b@.skip(index as int + 1));
        index += 1;
    }
    if index >= b.len() {
        false
    } else if index >= a.len() {
        true
    } else {
        a[index] < b[index]
    }
}

/// Whether one of the names is `wanted`.
pub fn holds_name(names: &Vec<String>, wanted: &str) -> (found: bool)
    ensures
        found == views(names@).contains(wanted@),
{
    let mut index: usize = 0;
    while index < names.len()
        invariant
            index <= names@.len(),
            forall|k: int| 0 <= k < index ==> names@[k]@ != wanted@,
        decreases names@.len() - index,
    {
        if same_text(names[index].as_str(), wanted) {
            assert(views(names@)[index as int] == wanted@);
            return true;
        }
        index += 1;
    }
    false
}

/// A copy of a list of names.
pub fn copy_names(names: &Vec<String>) -> (out: Vec<String>)
    ensures
        views(out@) == views(names@),
{
    let mut out: Vec<String> = Vec::new();
    let mut index: usize = 0;
    while index < names.len()
        invariant
            index <= names@.len(),
            out@.len() == index,
            forall|k: int| 0 <= k < index ==> out@[k]@ == names@[k]@,
        decreases names@.len() - index,
    {
        out.push(names[index].clone());
        index += 1;
    }
    assert(views(out@) =~= views(names@));
    out
}

/// The pieces of `text` between the occurrences of `separator`.
pub open spec fn split(text: Seq<char>, separator: char) -> Seq<Seq<char>>
    decreases text.len(),
{
    if text.len() == 0 {
        seq![Seq::<char>::empty()]
    } else {
        let before = split(text.drop_last(), separator);
        if text.last() == separator {
            before.push(Seq::<char>::empty())
        } else {
            before.drop_last().push(before.last().push(text.last()))
        }
    }
}

/// The pieces of `text` between the occurrences of `separator`.
pub fn split_letters(text: &Vec<char>, separator: char) -> (pieces: Vec<Vec<char>>)
    ensures
        pieces@.len() == split(text@, separator).len(),
        forall|k: int| 0 <= k < pieces@.len() ==> (#[trigger] pieces@[k])@ == split(text@, separator)[k],
        pieces@.len() > 0,
{
    let mut pieces: Vec<Vec<char>> = Vec::new();
    let mut piece: Vec<char> = Vec::new();
    let mut index: usize = 0;
    proof {
        assert(text@.take(0) =~= Seq::<char>::empty());
        reveal_with_fuel(split, 1);
        assert(split(text@.take(0), separator) =~= seq![Seq::<char>::empty()]);
    }
    while index < text.len()
        invariant
            index <= text@.len(),
            split(text@.take(index as int), separator).len() == pieces@.len() + 1,
            forall|k: int|
                0 <= k < pieces@.len() ==> (#[trigger] pieces@[k])@ == split(
                    text@.take(index as int),
                    separator,
                )[k],
            piece@ == split(text@.take(index as int), separator).last(),
        decreases text@.len() - index,
    {
        assert(text@.take(index as int + 1).drop_last() =~= text@.take(index as int));
        if text[index] == separator {
            pieces.push(piece);
            piece = Vec::new();
        } else {
            piece.push(text[index]);
        }
        index += 1;
    }
    assert(text@.take(index as int) =~= text@);
    pieces.push(piece);
    pieces
}

/// The part of `text` before the first letter among `stops`.
pub open spec fn until(text: Seq<char>, stops: Seq<char>) -> Seq<char>
    decreases text.len(),
{
    if text.len() == 0 || stops.contains(text[0]) {
        Seq::<char>::empty()
    } else {
        seq![text[0]] + until(text.skip(1), stops)
    }
}

/// The number spelled by `digits`, read as decimal digits.
pub open spec fn digits_value(digits: Seq<char>) -> Option<nat>
    decreases digits.len(),
{
    if digits.len() == 0 {
        Some(0)
    } else {
        match (digits_value(digits.drop_last()), digit_value(digits.last())) {
            (Some(above), Some(unit)) => Some(above * 10 + unit),
            _ => None,
        }
    }
}

/// The 32-bit number spelled by `text`: decimal digits, perhaps behind a plus sign.
pub open spec fn number(text: Seq<char>) -> Option<u32> {
    let digits = if text.len() > 0 && text[0] == '+' {
        text.skip(1)
    } else {
        text
    };
    if digits.len() == 0 {
        None
    } else {
        match digits_value(digits) {
            Some(value) if value <= u32::MAX => Some(value as u32),
            _ => None,
        }
    }
}

fn letter_digit(letter: char) -> (value: Option<u64>)
    ensures
        match value {
            Some(unit) => digit_value(letter) == Some(unit as nat) && unit <= 9,
            None => digit_value(letter) is None,
        },
{
    if '0' <= letter && letter <= '9' {
        Some(letter as u64 - '0' as u64)
    } else {
        None
    }
}

proof fn lemma_digits_grow(digits: Seq<char>, seen: int)
    requires
        0 <= seen <= digits.len(),
    ensures
        digits_value(digits.take(seen)) is None ==> digits_value(digits) is None,
        digits_value(digits) matches Some(all) ==> digits_value(digits.take(seen)) matches Some(part)
            && part <= all,
    decreases digits.len() - seen,
{
    if seen < digits.len() {
        lemma_digits_grow(digits, seen + 1);
        assert(digits.take(seen + 1).drop_last() =~= digits.take(seen));
    } else {
        assert(digits.take(seen) =~= digits);
    }
}

/// The 32-bit number spelled by `text`: decimal digits, perhaps behind a plus sign.
pub fn parse_number(text: &Vec<char>) -> (value: Option<u32>)
    ensures
        value == number(text@),
{
    let start: usize = if text.len() > 0 && text[0] == '+' {
        1
    } else {
        0
    };
    let ghost digits = text@.skip(start as int);
    assert(text@.skip(0) =~= text@);
    if start == text.len() {
        return None;
    }
    let mut total: u64 = 0;
    let mut index: usize = start;
    assert(digits.take(0) =~= Seq::<char>::empty());
    while index < text.len()
        invariant
            start <= index <= text@.len(),
            digits == text@.skip(start as int),
            digits_value(digits.take(index - start)) == Some(total as nat),
            total <= u32::MAX,
            start < text@.len(),
            number(text@) == match digits_value(digits) {
                Some(value) if value <= u32::MAX => Some(value as u32),
                _ => None,
            },
        decreases text@.len() - index,
    {
        let ghost seen = index - start;
        proof {
            assert(digits.take(seen + 1).drop_last() =~= digits.take(seen));
            assert(digits.take(seen + 1).last() == text@[index as int]);
            lemma_digits_grow(digits, seen + 1);
        }
        match letter_digit(text[index]) {
            None => {
                return None;
            },
            Some(unit) => {
                total = total * 10 + unit;
            },
        }
        if total > u32::MAX as u64 {
            return None;
        }
        index += 1;
    }
    assert(digits.take(index - start) =~= digits);
    Some(total as u32)
}

/// `text` written `count` times.
pub open spec fn repeated(text: Seq<char>, count: nat) -> Seq<char>
    decreases count,
{
    if count == 0 {
        Seq::<char>::empty()
    } else {
        repeated(text, (count - 1) as nat) + text
    }
}

pub fn repeat(text: &str, count: usize) -> (out: String)
    ensures
        out@ == repeated(text@, count as nat),
{
    let mut out = String::new();
    let mut done: usize = 0;
    while done < count
        invariant
            done <= count,
            out@ == repeated(text@, done as nat),
        decreases count - done,
    {
        out.append(text);
        done += 1;
    }
    out
}

/// Two texts one after the other.
pub fn followed(first: &str, second: &str) -> (out: String)
    ensures
        out@ == first@ + second@,
{
    let mut out = first.to_owned();
    out.append(second);
    out
}

/// Three texts one after the other.
pub fn concat(first: &str, second: &str, third: &str) -> (out: String)
    ensures
        out@ == first@ + second@ + third@,
{
    let mut out = first.to_owned();
    out.append(second);
    out.append(third);
    out
}

} // verus!
