//! Text: searching, trimming, splitting, ordering, reading and writing numbers.
//!
//! A text is the sequence of its characters.

use vstd::prelude::*;
use vstd::string::*;

verus! {

/// `part` stands in `text` from position `at` on.
pub open spec fn occurs_at(text: Seq<char>, part: Seq<char>, at: int) -> bool {
    &&& 0 <= at
    &&& at + part.len() <= text.len()
    &&& text.subrange(at, at + part.len()) == part
}

/// `at` is the first position at which `part` stands in `text`.
pub open spec fn first_occurs_at(text: Seq<char>, part: Seq<char>, at: int) -> bool {
    &&& occurs_at(text, part, at)
    &&& forall|before: int| 0 <= before < at ==> !occurs_at(text, part, before)
}

/// `part` stands somewhere in `text`.
pub open spec fn occurs_in(text: Seq<char>, part: Seq<char>) -> bool {
    exists|at: int| occurs_at(text, part, at)
}

/// The first position at which `part` stands in `text`.
pub open spec fn first_position(text: Seq<char>, part: Seq<char>) -> Option<int> {
    if occurs_in(text, part) {
        Some(choose|at: int| first_occurs_at(text, part, at))
    } else {
        None
    }
}

/// There is only one first position.
pub proof fn lemma_first_position(text: Seq<char>, part: Seq<char>, at: int)
    requires
        first_occurs_at(text, part, at),
    ensures
        first_position(text, part) == Some(at),
{
    let found = choose|found: int| first_occurs_at(text, part, found);
    assert(first_occurs_at(text, part, found));
    if found < at {
        assert(!occurs_at(text, part, found));
    } else if at < found {
        assert(!occurs_at(text, part, at));
    }
}

/// What stands somewhere has a first position.
pub proof fn lemma_has_first_position(text: Seq<char>, part: Seq<char>, at: int)
    requires
        occurs_at(text, part, at),
    ensures
        first_position(text, part) matches Some(first) && first <= at && first_occurs_at(
            text,
            part,
            first,
        ),
    decreases at,
{
    if exists|before: int| 0 <= before < at && occurs_at(text, part, before) {
        let before = choose|before: int| 0 <= before < at && occurs_at(text, part, before);
        lemma_has_first_position(text, part, before);
    } else {
        assert(first_occurs_at(text, part, at));
        lemma_first_position(text, part, at);
    }
}

/// The characters of a text, one after the other.
pub fn chars_of(text: &str) -> (chars: Vec<char>)
    ensures
        chars@ == text@,
{
    let mut chars: Vec<char> = Vec::new();
    for c in it: text.chars()
        invariant
            it.seq() == text@,
            chars@ == text@.take(it.index() as int),
    {
        chars.push(c);
    }
    assert(text@.take(text@.len() as int) == text@);
    chars
}

/// Whether two texts have the same characters.
pub fn same_text(a: &str, b: &str) -> (same: bool)
    ensures
        same == (a@ == b@),
{
    a.to_string() == b.to_string()
}

/// Whether `part` stands at position `at`.
fn stands_at(text: &Vec<char>, part: &Vec<char>, at: usize) -> (found: bool)
    requires
        at + part@.len() <= text@.len(),
    ensures
        found == occurs_at(text@, part@, at as int),
{
    let mut i: usize = 0;
    while i < part.len()
        invariant
            i <= part.len(),
            at + part.len() <= text.len(),
            forall|j: int| 0 <= j < i ==> text@[at + j] == part@[j],
        decreases part@.len() - i,
    {
        if text[at + i] != part[i] {
            assert(text@.subrange(at as int, at + part@.len())[i as int] != part@[i as int]);
            return false;
        }
        i = i + 1;
    }
    assert(text@.subrange(at as int, at + part@.len()) =~= part@);
    true
}

/// The first position at which `part` stands in `text`.
pub fn position_of(text: &str, part: &str) -> (found: Option<usize>)
    ensures
        match found {
            Some(at) => first_position(text@, part@) == Some(at as int) && first_occurs_at(
                text@,
                part@,
                at as int,
            ),
            None => first_position(text@, part@) is None,
        },
{
    let text_chars: Vec<char> = chars_of(text);
    let part_chars: Vec<char> = chars_of(part);
    if part_chars.len() > text_chars.len() {
        return None;
    }
    let last: usize = text_chars.len() - part_chars.len();
    let mut at: usize = 0;
    loop
        invariant
            text_chars@ == text@,
            part_chars@ == part@,
            last == text@.len() - part@.len(),
            at <= last,
            forall|before: int| 0 <= before < at ==> !occurs_at(text@, part@, before),
        decreases last - at,
    {
        if stands_at(&text_chars, &part_chars, at) {
            proof {
                lemma_first_position(text@, part@, at as int);
            }
            return Some(at);
        }
        if at == last {
            return None;
        }
        at = at + 1;
    }
}

/// Whether `part` stands somewhere in `text`.
pub fn contains_text(text: &str, part: &str) -> (found: bool)
    ensures
        found == occurs_in(text@, part@),
{
    match position_of(text, part) {
        Some(at) => {
            assert(occurs_at(text@, part@, at as int));
            true
        },
        None => false,
    }
}

/// The two texts one after the other.
pub fn joined(a: &str, b: &str) -> (text: String)
    ensures
        text@ == a@ + b@,
{
    a.to_string().concat(b)
}

/// The characters that Unicode lists as white space.
pub open spec fn is_white_space(c: char) -> bool {
    let code = c as u32;
    ||| 0x09 <= code <= 0x0d
    ||| code == 0x20
    ||| code == 0x85
    ||| code == 0xa0
    ||| code == 0x1680
    ||| 0x2000 <= code <= 0x200a
    ||| 0x2028 <= code <= 0x2029
    ||| code == 0x202f
    ||| code == 0x205f
    ||| code == 0x3000
}

/// Whether a character is white space.
pub fn white_space(c: char) -> (white: bool)
    ensures
        white == is_white_space(c),
{
    let code: u32 = c as u32;
    (0x09 <= code && code <= 0x0d) || code == 0x20 || code == 0x85 || code == 0xa0 || code == 0x1680
        || (0x2000 <= code && code <= 0x200a) || (0x2028 <= code && code <= 0x2029) || code
        == 0x202f || code == 0x205f || code == 0x3000
}

/// A text without the white space that it starts with.
pub open spec fn trimmed_start(text: Seq<char>) -> Seq<char>
    decreases text.len(),
{
    if text.len() > 0 && is_white_space(text.first()) {
        trimmed_start(text.drop_first())
    } else {
        text
    }
}

/// A text without the white space that it ends with.
pub open spec fn trimmed_end(text: Seq<char>) -> Seq<char>
    decreases text.len(),
{
    if text.len() > 0 && is_white_space(text.last()) {
        trimmed_end(text.drop_last())
    } else {
        text
    }
}

/// A text without the white space around it.
pub open spec fn trimmed(text: Seq<char>) -> Seq<char> {
    trimmed_end(trimmed_start(text))
}

/// There is nothing but white space in a text.
pub open spec fn all_white_space(text: Seq<char>) -> bool {
    forall|i: int| 0 <= i < text.len() ==> is_white_space(#[trigger] text[i])
}

/// White space around a text is what trimming takes off, where the text neither
/// starts nor ends with some.
pub proof fn lemma_trimmed(before: Seq<char>, text: Seq<char>, after: Seq<char>)
    requires
        all_white_space(before),
        all_white_space(after),
        text.len() > 0,
        !is_white_space(text.first()),
        !is_white_space(text.last()),
    ensures
        trimmed(before + text + after) == text,
    decreases before.len() + after.len(),
{
    let whole = before + text + after;
    if before.len() > 0 {
        let rest = before.drop_first();
        assert forall|i: int| 0 <= i < rest.len() implies is_white_space(#[trigger] rest[i]) by {
            assert(rest[i] == before[i + 1]);
        }
        assert(is_white_space(before[0]));
        assert(whole.drop_first() =~= rest + text + after);
        lemma_trimmed(rest, text, after);
    } else if after.len() > 0 {
        let rest = after.drop_last();
        assert forall|i: int| 0 <= i < rest.len() implies is_white_space(#[trigger] rest[i]) by {
            assert(rest[i] == after[i]);
        }
        assert(is_white_space(after[after.len() - 1]));
        assert(whole.first() == text.first());
        assert(whole.drop_last() =~= before + text + rest);
        assert((before + text + rest).first() == text.first());
        lemma_trimmed(before, text, rest);
    } else {
        assert(whole =~= text);
    }
}

/// The text without the white space around it.
pub fn trim(text: &str) -> (res: String)
    ensures
        res@ == trimmed(text@),
{
    let chars: Vec<char> = chars_of(text);
    let mut from: usize = 0;
    assert(text@.skip(0) == text@);
    while from < chars.len() && white_space(chars[from])
        invariant
            chars@ == text@,
            from <= chars.len(),
            trimmed_start(text@) == trimmed_start(text@.skip(from as int)),
        decreases chars.len() - from,
    {
        assert(text@.skip(from as int).drop_first() == text@.skip(from + 1));
        from = from + 1;
    }
    assert(trimmed_start(text@) == text@.skip(from as int));
    let mut to: usize = chars.len();
    assert(text@.skip(from as int) == text@.subrange(from as int, to as int));
    while to > from && white_space(chars[to - 1])
        invariant
            chars@ == text@,
            from <= to <= chars.len(),
            trimmed(text@) == trimmed_end(text@.subrange(from as int, to as int)),
        decreases to,
    {
        assert(text@.subrange(from as int, to as int).drop_last() == text@.subrange(
            from as int,
            to - 1,
        ));
        to = to - 1;
    }
    text.substring_char(from, to).to_string()
}

/// The parts of a text between its separators.
pub open spec fn parts_between(text: Seq<char>, separator: char) -> Seq<Seq<char>>
    decreases text.len(),
{
    if text.len() == 0 {
        seq![Seq::<char>::empty()]
    } else {
        let before = parts_between(text.drop_last(), separator);
        if text.last() == separator {
            before.push(Seq::<char>::empty())
        } else {
            before.drop_last().push(before.last().push(text.last()))
        }
    }
}

/// What a list of texts with separators between them holds: each part without
/// the white space around it, and no part that is then empty.
pub open spec fn listed_parts(text: Seq<char>, separator: char) -> Seq<Seq<char>> {
    nonempty_trimmed(parts_between(text, separator))
}

/// The texts without the white space around them that are then not empty.
pub open spec fn nonempty_trimmed(parts: Seq<Seq<char>>) -> Seq<Seq<char>>
    decreases parts.len(),
{
    if parts.len() == 0 {
        Seq::empty()
    } else {
        let before = nonempty_trimmed(parts.drop_last());
        if trimmed(parts.last()).len() == 0 {
            before
        } else {
            before.push(trimmed(parts.last()))
        }
    }
}

/// The characters of each text of a list.
pub open spec fn texts(list: Seq<String>) -> Seq<Seq<char>> {
    list.map_values(|text: String| text@)
}

/// The parts of a list with separators between them, each without the white
/// space around it, and no empty ones.
pub fn split_list(text: &str, separator: char) -> (parts: Vec<String>)
    ensures
        texts(parts@) == listed_parts(text@, separator),
{
    let chars: Vec<char> = chars_of(text);
    let mut parts: Vec<String> = Vec::new();
    let mut from: usize = 0;
    let mut at: usize = 0;
    assert(text@.take(0) == Seq::<char>::empty());
    assert(text@.subrange(0, 0) == Seq::<char>::empty());
    assert(parts_between(text@.take(0), separator).drop_last() =~= Seq::<Seq<char>>::empty());
    assert(texts(parts@) =~= Seq::<Seq<char>>::empty());
    loop
        invariant
            chars@ == text@,
            from <= at <= chars.len(),
            parts_between(text@.take(at as int), separator).len() > 0,
            parts_between(text@.take(at as int), separator).last() == text@.subrange(
                from as int,
                at as int,
            ),
            texts(parts@) == nonempty_trimmed(
                parts_between(text@.take(at as int), separator).drop_last(),
            ),
        decreases chars.len() - at,
    {
        let ghost done = parts_between(text@.take(at as int), separator);
        if at == chars.len() || chars[at] == separator {
            let part: String = trim(text.substring_char(from, at));
            let ghost before = texts(parts@);
            if !part.as_str().is_empty() {
                parts.push(part);
                assert(texts(parts@) =~= before.push(part@));
            }
            assert(texts(parts@) == nonempty_trimmed(done));
            if at == chars.len() {
                assert(text@.take(at as int) == text@);
                return parts;
            }
            proof {
                assert(text@.take(at + 1).drop_last() == text@.take(at as int));
                assert(parts_between(text@.take(at + 1), separator) == done.push(
                    Seq::<char>::empty(),
                ));
                assert(done.push(Seq::<char>::empty()).drop_last() == done);
                assert(text@.subrange(at + 1, at + 1) == Seq::<char>::empty());
            }
            from = at + 1;
        } else {
            proof {
                assert(text@.take(at + 1).drop_last() == text@.take(at as int));
                let next = done.drop_last().push(done.last().push(text@[at as int]));
                assert(parts_between(text@.take(at + 1), separator) == next);
                assert(next.drop_last() == done.drop_last());
                assert(text@.subrange(from as int, at + 1) == text@.subrange(
                    from as int,
                    at as int,
                ).push(text@[at as int]));
            }
        }
        at = at + 1;
    }
}

/// The character that stands for a digit.
pub open spec fn digit_char(digit: nat) -> char {
    (48 + digit) as char
}

/// A number in decimal digits, without leading zeros.
pub open spec fn decimal(number: nat) -> Seq<char>
    decreases number,
{
    if number < 10 {
        seq![digit_char(number)]
    } else {
        decimal(number / 10).push(digit_char(number % 10))
    }
}

/// The text of one digit.
fn digit_text(digit: u64) -> (text: &'static str)
    requires
        digit < 10,
    ensures
        text@ == seq![digit_char(digit as nat)],
{
    proof {
        reveal_strlit("0");
        reveal_strlit("1");
        reveal_strlit("2");
        reveal_strlit("3");
        reveal_strlit("4");
        reveal_strlit("5");
        reveal_strlit("6");
        reveal_strlit("7");
        reveal_strlit("8");
        reveal_strlit("9");
    }
    match digit {
        0 => "0",
        1 => "1",
        2 => "2",
        3 => "3",
        4 => "4",
        5 => "5",
        6 => "6",
        7 => "7",
        8 => "8",
        _ => "9",
    }
}

/// A number written in decimal digits.
pub fn decimal_text(number: u64) -> (text: String)
    ensures
        text@ == decimal(number as nat),
    decreases number,
{
    if number < 10 {
        digit_text(number).to_string()
    } else {
        let text: String = decimal_text(number / 10).concat(digit_text(number % 10));
        assert(text@ =~= decimal((number / 10) as nat).push(digit_char((number % 10) as nat)));
        text
    }
}

/// Why a text is not a number.
#[derive(Clone, Copy, Debug, PartialEq, Eq, Structural)]
pub enum NumberError {
    /// There is no character in it.
    Empty,
    /// A character in it is no digit.
    InvalidDigit,
    /// The number is over the largest one that is asked for.
    TooLarge,
}

impl NumberError {
    /// What is wrong, in words.
    pub open spec fn words(self) -> Seq<char> {
        match self {
            NumberError::Empty => "cannot parse integer from empty string"@,
            NumberError::InvalidDigit => "invalid digit found in string"@,
            NumberError::TooLarge => "number too large to fit in target type"@,
        }
    }

    /// What is wrong, in words.
    pub fn message(&self) -> (text: &'static str)
        ensures
            text@ == self.words(),
    {
        match self {
            NumberError::Empty => "cannot parse integer from empty string",
            NumberError::InvalidDigit => "invalid digit found in string",
            NumberError::TooLarge => "number too large to fit in target type",
        }
    }
}

/// The number that digits stand for, read from the left. The first character
/// that is no digit, or that brings the number over `max`, decides the error.
pub open spec fn number_of(digits: Seq<char>, radix: nat, max: nat) -> Result<nat, NumberError>
    decreases digits.len(),
{
    if digits.len() == 0 {
        Ok(0)
    } else {
        match number_of(digits.drop_last(), radix, max) {
            Err(error) => Err(error),
            Ok(before) => {
                let digit = digits.last() as u32 - 48;
                if !(0 <= digit < radix) {
                    Err(NumberError::InvalidDigit)
                } else if before * radix + digit > max {
                    Err(NumberError::TooLarge)
                } else {
                    Ok((before * radix + digit) as nat)
                }
            },
        }
    }
}

/// What a text is as a number of at most `max` in the given radix: digits, with
/// one `+` before them or none.
pub open spec fn parsed_number(text: Seq<char>, radix: nat, max: nat) -> Result<nat, NumberError> {
    if text.len() == 0 {
        Err(NumberError::Empty)
    } else if text.len() > 1 && text.first() == '+' {
        number_of(text.drop_first(), radix, max)
    } else {
        number_of(text, radix, max)
    }
}

/// An error of the start of a text is an error of the whole.
proof fn lemma_number_error_stays(digits: Seq<char>, len: int, radix: nat, max: nat)
    requires
        0 <= len <= digits.len(),
        number_of(digits.take(len), radix, max) is Err,
    ensures
        number_of(digits, radix, max) == number_of(digits.take(len), radix, max),
    decreases digits.len(),
{
    if len == digits.len() {
        assert(digits.take(len) == digits);
    } else {
        assert(digits.drop_last().take(len) == digits.take(len));
        lemma_number_error_stays(digits.drop_last(), len, radix, max);
    }
}

/// A number that is read is not over the largest one asked for.
pub proof fn lemma_number_of_bound(digits: Seq<char>, radix: nat, max: nat)
    ensures
        number_of(digits, radix, max) matches Ok(number) ==> number <= max,
    decreases digits.len(),
{
    if digits.len() > 0 {
        lemma_number_of_bound(digits.drop_last(), radix, max);
    }
}

/// The number of at most `max` that a text stands for, in a radix up to ten.
pub fn parse_number(text: &str, radix: u64, max: u64) -> (res: Result<u64, NumberError>)
    requires
        1 <= radix <= 10,
    ensures
        match (res, parsed_number(text@, radix as nat, max as nat)) {
            (Ok(number), Ok(expected)) => number == expected,
            (Err(error), Err(expected)) => error == expected,
            _ => false,
        },
{
    let chars: Vec<char> = chars_of(text);
    if chars.len() == 0 {
        return Err(NumberError::Empty);
    }
    let start: usize = if chars.len() > 1 && chars[0] == '+' { 1 } else { 0 };
    let ghost digits = text@.skip(start as int);
    assert(start == 1 ==> digits == text@.drop_first());
    assert(start == 0 ==> digits == text@);
    let mut number: u64 = 0;
    let mut at: usize = start;
    assert(digits.take(0) == Seq::<char>::empty());
    while at < chars.len()
        invariant
            1 <= radix <= 10,
            chars@ == text@,
            start <= at <= chars.len(),
            digits == text@.skip(start as int),
            parsed_number(text@, radix as nat, max as nat) == number_of(
                digits,
                radix as nat,
                max as nat,
            ),
            number_of(digits.take(at - start), radix as nat, max as nat) == Ok::<nat, NumberError>(
                number as nat,
            ),
        decreases chars.len() - at,
    {
        let c: char = chars[at];
        let code: u32 = c as u32;
        proof {
            assert(digits.take(at - start + 1).drop_last() == digits.take(at - start));
            assert(digits.take(at - start + 1).last() == c);
            if number_of(digits.take(at - start + 1), radix as nat, max as nat) is Err {
                lemma_number_error_stays(digits, at - start + 1, radix as nat, max as nat);
            }
        }
        if code < 48 || (code - 48) as u64 >= radix {
            return Err(NumberError::InvalidDigit);
        }
        let digit: u64 = (code - 48) as u64;
        assert(0 <= number * radix) by (nonlinear_arith);
        match number.checked_mul(radix) {
            None => {
                return Err(NumberError::TooLarge);
            },
            Some(shifted) => {
                match shifted.checked_add(digit) {
                    None => {
                        return Err(NumberError::TooLarge);
                    },
                    Some(next) => {
                        if next > max {
                            return Err(NumberError::TooLarge);
                        }
                        number = next;
                    },
                }
            },
        }
        at = at + 1;
    }
    assert(digits.take(at - start) == digits);
    Ok(number)
}

/// The order of texts: character by character, by code point.
pub open spec fn text_less(a: Seq<char>, b: Seq<char>) -> bool
    decreases a.len(),
{
    if b.len() == 0 {
        false
    } else if a.len() == 0 {
        true
    } else if a.first() != b.first() {
        (a.first() as u32) < (b.first() as u32)
    } else {
        text_less(a.drop_first(), b.drop_first())
    }
}

/// Whether one text comes before the other.
pub fn comes_before(a: &str, b: &str) -> (less: bool)
    ensures
        less == text_less(a@, b@),
{
    let left: Vec<char> = chars_of(a);
    let right: Vec<char> = chars_of(b);
    let mut at: usize = 0;
    assert(a@.skip(0) == a@ && b@.skip(0) == b@);
    while at < left.len() && at < right.len()
        invariant
            left@ == a@,
            right@ == b@,
            at <= left.len(),
            at <= right.len(),
            text_less(a@, b@) == text_less(a@.skip(at as int), b@.skip(at as int)),
        decreases left.len() - at,
    {
        if left[at] != right[at] {
            return (left[at] as u32) < (right[at] as u32);
        }
        assert(a@.skip(at as int).drop_first() == a@.skip(at + 1));
        assert(b@.skip(at as int).drop_first() == b@.skip(at + 1));
        at = at + 1;
    }
    at < right.len()
}

/// The code point of a character, that of the small letter for an ASCII
/// capital.
pub open spec fn small_code(c: char) -> int {
    if 65 <= c as u32 <= 90 {
        c as u32 + 32
    } else {
        c as u32 as int
    }
}

/// Two texts are the same but for the case of ASCII letters.
pub open spec fn same_but_case(a: Seq<char>, b: Seq<char>) -> bool {
    &&& a.len() == b.len()
    &&& forall|i: int| 0 <= i < a.len() ==> #[trigger] small_code(a[i]) == small_code(b[i])
}

/// The code point of a character, that of the small letter for an ASCII
/// capital.
fn small_code_of(c: char) -> (code: u32)
    ensures
        code == small_code(c),
{
    let code: u32 = c as u32;
    if 65 <= code && code <= 90 {
        code + 32
    } else {
        code
    }
}

/// Whether two texts are the same but for the case of ASCII letters.
pub fn same_text_but_case(a: &str, b: &str) -> (same: bool)
    ensures
        same == same_but_case(a@, b@),
{
    let left: Vec<char> = chars_of(a);
    let right: Vec<char> = chars_of(b);
    if left.len() != right.len() {
        return false;
    }
    let mut at: usize = 0;
    while at < left.len()
        invariant
            left@ == a@,
            right@ == b@,
            left.len() == right.len(),
            at <= left.len(),
            forall|i: int| 0 <= i < at ==> #[trigger] small_code(a@[i]) == small_code(b@[i]),
        decreases left.len() - at,
    {
        if small_code_of(left[at]) != small_code_of(right[at]) {
            assert(small_code(a@[at as int]) != small_code(b@[at as int]));
            return false;
        }
        at = at + 1;
    }
    true
}

/// A number in decimal digits is read back.
pub proof fn law_decimal_is_read_back(number: nat, max: nat)
    requires
        number <= max,
    ensures
        number_of(decimal(number), 10, max) == Ok::<nat, NumberError>(number),
        parsed_number(decimal(number), 10, max) == Ok::<nat, NumberError>(number),
        decimal(number).len() > 0,
        forall|i: int|
            0 <= i < decimal(number).len() ==> 48 <= #[trigger] decimal(number)[i] as u32 <= 57,
    decreases number,
{
    let digits = decimal(number);
    if number >= 10 {
        law_decimal_is_read_back(number / 10, max);
        assert(digits.drop_last() =~= decimal(number / 10));
        assert(digits.last() == digit_char(number % 10));
    } else {
        assert(digits.drop_last() =~= Seq::<char>::empty());
        assert(number_of(digits.drop_last(), 10, max) == Ok::<nat, NumberError>(0));
    }
    assert(48 <= digits[0] as u32 <= 57);
}

/// No two numbers have the same decimal digits.
pub proof fn law_decimal_is_injective(a: nat, b: nat)
    requires
        decimal(a) == decimal(b),
    ensures
        a == b,
{
    let max = if a < b {
        b
    } else {
        a
    };
    law_decimal_is_read_back(a, max);
    law_decimal_is_read_back(b, max);
}

/// A character is a digit in the given radix, which is ten at most.
pub open spec fn is_digit(c: char, radix: nat) -> bool {
    48 <= c as u32 && (c as u32) < 48 + radix
}

/// Where digits are a number, each of them is a digit, and the number is not over the
/// largest one.
proof fn lemma_digits_only(digits: Seq<char>, radix: nat, max: nat)
    ensures
        number_of(digits, radix, max) matches Ok(number) ==> number <= max && forall|i: int|
            0 <= i < digits.len() ==> is_digit(#[trigger] digits[i], radix),
        number_of(digits, radix, max) is Err && (forall|i: int|
            0 <= i < digits.len() ==> is_digit(#[trigger] digits[i], radix))
            ==> number_of(digits, radix, max) == Err::<nat, NumberError>(NumberError::TooLarge),
    decreases digits.len(),
{
    if digits.len() > 0 {
        let start = digits.drop_last();
        lemma_digits_only(start, radix, max);
        assert(digits[digits.len() - 1] == digits.last());
        if forall|i: int| 0 <= i < digits.len() ==> is_digit(#[trigger] digits[i], radix) {
            assert forall|i: int| 0 <= i < start.len() implies is_digit(#[trigger] start[i], radix) by {
                assert(start[i] == digits[i]);
            }
        }
        if number_of(digits, radix, max) is Ok {
            assert forall|i: int| 0 <= i < digits.len() implies is_digit(#[trigger] digits[i], radix) by {
                if i < start.len() {
                    assert(start[i] == digits[i]);
                }
            }
        }
    }
}

/// A text that is a number is made of digits, with one plus sign before them or none,
/// and what is made of digits is a number unless it is too large. A text without
/// characters is none.
pub proof fn law_numbers_are_digits(text: Seq<char>, radix: nat, max: nat)
    ensures
        parsed_number(text, radix, max) matches Ok(number) ==> {
            &&& number <= max
            &&& text.len() > 0
            &&& forall|i: int|
                0 <= i < text.len() ==> is_digit(#[trigger] text[i], radix) || (i == 0
                    && text[i] == '+' && text.len() > 1)
        },
        text.len() > 0 && (forall|i: int|
            0 <= i < text.len() ==> is_digit(#[trigger] text[i], radix)) && radix <= 10
            ==> parsed_number(text, radix, max) != Err::<nat, NumberError>(
            NumberError::InvalidDigit,
        ) && parsed_number(text, radix, max) != Err::<nat, NumberError>(NumberError::Empty),
        parsed_number(text, radix, max) == Err::<nat, NumberError>(NumberError::Empty) <==> text.len()
            == 0,
{
    lemma_digits_only(text, radix, max);
    lemma_never_empty(text, radix, max);
    if text.len() > 0 {
        let rest = text.drop_first();
        lemma_digits_only(rest, radix, max);
        lemma_never_empty(rest, radix, max);
        if text.len() > 1 && text.first() == '+' && parsed_number(text, radix, max) is Ok {
            assert forall|i: int| 0 <= i < text.len() implies is_digit(#[trigger] text[i], radix) || (i == 0 && text[i] == '+' && text.len() > 1) by {
                if i > 0 {
                    assert(rest[i - 1] == text[i]);
                }
            }
        }
        assert(text[0] == text.first());
    }
}

/// Digits are never told to be missing.
proof fn lemma_never_empty(digits: Seq<char>, radix: nat, max: nat)
    ensures
        number_of(digits, radix, max) != Err::<nat, NumberError>(NumberError::Empty),
    decreases digits.len(),
{
    if digits.len() > 0 {
        lemma_never_empty(digits.drop_last(), radix, max);
    }
}

/// Of two texts with the same start, the characters behind it decide the order: where
/// they differ, the one with the smaller code point comes first, and where one text
/// ends, it comes first.
pub proof fn law_text_order(start: Seq<char>, a: char, b: char, x: Seq<char>, y: Seq<char>)
    ensures
        (a as u32) < (b as u32) ==> text_less(start.push(a) + x, start.push(b) + y),
        text_less(start, start.push(a) + x),
        !text_less(start.push(a) + x, start),
        !text_less(start, start),
    decreases start.len(),
{
    let left = start.push(a) + x;
    let right = start.push(b) + y;
    if start.len() > 0 {
        let rest = start.drop_first();
        law_text_order(rest, a, b, x, y);
        assert(left.drop_first() =~= rest.push(a) + x);
        assert(right.drop_first() =~= rest.push(b) + y);
    } else {
        assert(left.first() == a && right.first() == b);
    }
}

/// Nothing but white space is left with nothing when it is trimmed.
pub proof fn law_white_space_is_trimmed_away(text: Seq<char>)
    requires
        all_white_space(text),
    ensures
        trimmed(text) == Seq::<char>::empty(),
    decreases text.len(),
{
    if text.len() > 0 {
        let rest = text.drop_first();
        assert(is_white_space(text[0]));
        assert forall|i: int| 0 <= i < rest.len() implies is_white_space(#[trigger] rest[i]) by {
            assert(rest[i] == text[i + 1]);
        }
        law_white_space_is_trimmed_away(rest);
    } else {
        assert(text =~= Seq::<char>::empty());
    }
}

/// The parts of a text are at least one.
proof fn lemma_some_part(text: Seq<char>, separator: char)
    ensures
        parts_between(text, separator).len() > 0,
    decreases text.len(),
{
    if text.len() > 0 {
        lemma_some_part(text.drop_last(), separator);
    }
}

/// A text without separators is one part, and a separator parts what stands before it
/// from what stands behind it.
pub proof fn law_parts_between(a: Seq<char>, b: Seq<char>, separator: char)
    ensures
        !a.contains(separator) ==> parts_between(a, separator) == seq![a],
        parts_between(a.push(separator) + b, separator) == parts_between(a, separator)
            + parts_between(b, separator),
    decreases a.len() + b.len(),
{
    lemma_some_part(a, separator);
    lemma_some_part(b, separator);
    if !a.contains(separator) {
        if a.len() > 0 {
            let start = a.drop_last();
            assert(a[a.len() - 1] == a.last());
            if start.contains(separator) {
                let i = choose|i: int| 0 <= i < start.len() && start[i] == separator;
                assert(a[i] == separator);
            }
            law_parts_between(start, Seq::empty(), separator);
            assert(start.push(a.last()) =~= a);
            assert(parts_between(a, separator) =~= seq![a]);
        } else {
            assert(a =~= Seq::<char>::empty());
        }
    }
    let whole = a.push(separator) + b;
    let before = parts_between(a, separator);
    if b.len() == 0 {
        assert(whole.drop_last() =~= a);
        assert(parts_between(whole, separator) =~= before + parts_between(b, separator));
    } else {
        let start = b.drop_last();
        law_parts_between(a, start, separator);
        lemma_some_part(start, separator);
        assert(whole.drop_last() =~= a.push(separator) + start);
        assert(whole.last() == b.last());
        assert(parts_between(whole, separator) =~= before + parts_between(b, separator));
    }
}

/// What is left of parts is left of each of them.
proof fn lemma_nonempty_trimmed(a: Seq<Seq<char>>, b: Seq<Seq<char>>)
    ensures
        nonempty_trimmed(a + b) == nonempty_trimmed(a) + nonempty_trimmed(b),
    decreases b.len(),
{
    if b.len() == 0 {
        assert(a + b =~= a);
        assert(nonempty_trimmed(a) + nonempty_trimmed(b) =~= nonempty_trimmed(a));
    } else {
        lemma_nonempty_trimmed(a, b.drop_last());
        assert((a + b).drop_last() =~= a + b.drop_last());
        assert(nonempty_trimmed(a + b) =~= nonempty_trimmed(a) + nonempty_trimmed(b));
    }
}

/// A list holds what the lists before and behind a separator hold, and one without
/// separators holds its text without the white space around it, or nothing where
/// nothing is left of that.
pub proof fn law_listed_parts(a: Seq<char>, b: Seq<char>, separator: char)
    ensures
        listed_parts(a.push(separator) + b, separator) == listed_parts(a, separator)
            + listed_parts(b, separator),
        !a.contains(separator) ==> listed_parts(a, separator) == (if trimmed(a).len() == 0 {
            Seq::empty()
        } else {
            seq![trimmed(a)]
        }),
{
    law_parts_between(a, b, separator);
    lemma_nonempty_trimmed(parts_between(a, separator), parts_between(b, separator));
    if !a.contains(separator) {
        let parts = seq![a];
        assert(parts.drop_last() =~= Seq::<Seq<char>>::empty());
        assert(nonempty_trimmed(parts.drop_last()) =~= Seq::<Seq<char>>::empty());
        assert(nonempty_trimmed(parts) =~= (if trimmed(a).len() == 0 {
            Seq::empty()
        } else {
            seq![trimmed(a)]
        }));
    }
}

/// Two characters are the same but for their case where they are the same, or one is
/// the ASCII capital of the other, and only there.
pub proof fn law_case(a: char, b: char)
    ensures
        small_code(a) == small_code(b) <==> {
            ||| a == b
            ||| 65 <= a as u32 <= 90 && b as u32 == a as u32 + 32
            ||| 65 <= b as u32 <= 90 && a as u32 == b as u32 + 32
        },
        same_but_case(seq![a], seq![b]) <==> small_code(a) == small_code(b),
{
    if same_but_case(seq![a], seq![b]) {
        assert(small_code(seq![a][0]) == small_code(seq![b][0]));
    }
    if small_code(a) == small_code(b) {
        assert(seq![a][0] == a && seq![b][0] == b);
    }
}

/// Of the ASCII characters, white space is the space and those from the tab to the
/// carriage return.
pub proof fn law_ascii_white_space(c: char)
    requires
        c as u32 <= 127,
    ensures
        is_white_space(c) <==> c == ' ' || 9 <= c as u32 <= 13,
{
}

} // verus!
