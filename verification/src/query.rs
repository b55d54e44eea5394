//! Which texts the parser of queries can be given.
//!
//! The parser of `tantivy` reads a group in round brackets by calling itself, and so
//! it does with what stands behind a `NOT`: each takes some of the stack. A leaf is a
//! word, a phrase, a range, a set, a star or a group, with what stands before it. The
//! parser may read the first leaf of a group twice, so that the time doubles with each
//! group that is the first leaf of another. A name before a group may have tabs and
//! line ends in it, and each `NOT` in front of a tab or a line end may be the start of
//! such a name: where a group does not end well, it is read once for each of them. The
//! parser panics where a sign in front of a leaf is followed by white space and a lone
//! star.
//!
//! A scan from left to right counts all of this. It does not tell whether the text is
//! a query, which is for the parser to say: it counts what the parser does at most.

use vstd::prelude::*;

use crate::text::{chars_of, is_white_space, white_space};

verus! {

/// The most work that a text may take: as much as reading so many characters. With
/// more the parser is busy for minutes.
pub const MOST_WORK: u64 = 0x1_0000_0000;

/// How many characters reading a group is like, besides those in it.
pub const GROUP_WORK: u64 = 64;

/// The most of the stack that a text may take, in units of what a `NOT` takes. Without
/// optimisation that is up to 2600 bytes, so that a fifth of the two mebibytes that a
/// thread has is left to the callers.
pub const MOST_STACK: u64 = 640;

/// How much of the stack a group takes.
pub const GROUP_STACK: u64 = 5;

/// The groups around a place of a text.
#[derive(Clone, Copy, Debug, PartialEq, Eq, Structural)]
pub struct Level {
    /// How often the parser may read the innermost one.
    pub readings: u64,
    /// What they take of the stack.
    pub stack: u64,
}

/// How much of a sign, white space and a star stands before a place.
#[derive(Clone, Copy, Debug, PartialEq, Eq, Structural)]
pub enum Lone {
    Nothing,
    Sign,
    Space,
    Star,
}

/// What is known at a place of a text.
#[derive(Clone, Copy, Debug, PartialEq, Eq)]
pub struct Scan {
    /// The text cannot be given to the parser.
    pub refused: bool,
    /// The work up to here.
    pub work: u64,
    /// The groups around this place.
    pub level: Level,
    /// The quotation mark that ends the phrase around this place.
    pub quote: Option<char>,
    /// A backslash stands before.
    pub skipping: bool,
    /// A character of a range has come, in which other characters are plain.
    pub ranged: bool,
    /// It is not known any more what is plain.
    pub lost: bool,
    /// No leaf of the innermost group has ended.
    pub first: bool,
    /// A word goes on.
    pub word: bool,
    /// A word of this leaf has begun, which may be a name.
    pub begun: bool,
    /// Behind a word of this leaf a tab or a line end has come: it was the leaf, or it
    /// is the start of a name.
    pub several: bool,
    /// The colon of a name stands before.
    pub named: bool,
    /// A number of a leaf goes on: digits are no word.
    pub number: bool,
    /// How many letters of `NOT` stand before.
    pub letters: u64,
    /// The `NOT`s that this leaf stands behind.
    pub chain: u64,
    /// The `NOT`s that a name may start with.
    pub nots: u64,
    /// The tabs and line ends that a name may have in it.
    pub breaks: u64,
    /// How often more the parser may read what stands behind a name.
    pub again: u64,
    /// How much of a lone star behind a sign has come.
    pub lone: Lone,
}

/// What a character is at its place.
#[derive(Clone, Copy, Debug, PartialEq, Eq, Structural)]
pub enum Role {
    /// Plain: it stands in a phrase or behind a backslash.
    Inside,
    Escape,
    Quote,
    Unquote,
    /// It may be plain, if it stands in a range.
    Lose,
    Open,
    Close,
    /// A space.
    Blank,
    /// A tab or a line end.
    Break,
    Colon,
    /// A sign in front of a leaf.
    Sign,
    /// The sign of a number.
    Negative,
    Star,
    Boost,
    /// A bracket of a range or a set, or a backtick.
    Bracket,
    /// A character of a word.
    Plain,
}

/// A tab or a line end.
pub open spec fn is_break(c: char) -> bool {
    c == '\t' || c == '\r' || c == '\n'
}

/// A bracket of a range or a set, or a backtick.
pub open spec fn is_bracket(c: char) -> bool {
    c == '[' || c == ']' || c == '{' || c == '}' || c == '`'
}

/// A character that ends a word.
pub open spec fn ends_word(c: char) -> bool {
    is_bracket(c) || c == '^' || c == ':' || c == '"' || c == '\'' || c == '(' || c == ')' || c
        == '\\'
}

/// A character of a number behind a phrase, a boost sign or a minus sign.
pub open spec fn is_number_char(c: char) -> bool {
    48 <= c as u32 <= 57 || c == '.' || c == '~'
}

/// What a character is at its place.
pub open spec fn role(s: Scan, c: char) -> Role {
    if s.skipping {
        Role::Inside
    } else if s.quote is Some {
        if c == '\\' {
            Role::Escape
        } else if s.quote == Some(c) {
            Role::Unquote
        } else {
            Role::Inside
        }
    } else if c == '(' {
        Role::Open
    } else if c == ' ' {
        Role::Blank
    } else if is_break(c) {
        Role::Break
    } else if s.lost {
        if c == '+' || c == '-' {
            Role::Sign
        } else {
            Role::Plain
        }
    } else if s.ranged && (c == '\'' || c == '\\') {
        Role::Lose
    } else if c == '\\' {
        Role::Escape
    } else if c == '"' || c == '\'' {
        Role::Quote
    } else if c == ')' {
        Role::Close
    } else if c == ':' {
        Role::Colon
    } else if c == '+' || c == '-' {
        if c == '-' && (s.lone == Lone::Sign || (s.named && !s.ranged)) {
            Role::Negative
        } else if ((s.word || s.named) && !s.ranged) || s.lone == Lone::Sign {
            Role::Plain
        } else {
            Role::Sign
        }
    } else if c == '*' && !s.word {
        Role::Star
    } else if c == '^' {
        Role::Boost
    } else if is_bracket(c) {
        Role::Bracket
    } else {
        Role::Plain
    }
}

/// A `NOT` with white space behind it ends here.
pub open spec fn negates(s: Scan, c: char) -> bool {
    s.letters == 3 && (role(s, c) == Role::Blank || role(s, c) == Role::Break)
}

/// How often the parser may read a group that opens here.
pub open spec fn group_readings(s: Scan) -> int {
    if s.lost {
        s.level.readings * 2 * (1 + s.nots)
    } else if s.named {
        s.level.readings * (if s.first {
            2int
        } else {
            1
        }) * (1 + s.nots)
    } else if s.first && !s.begun {
        s.level.readings * 2
    } else {
        s.level.readings as int
    }
}

/// The work that a character adds. The parser looks for a name wherever a word of the
/// name may be a leaf.
pub open spec fn work_of(s: Scan, c: char) -> int {
    s.level.readings * (1 + s.breaks + s.again) + if role(s, c) == Role::Open {
        GROUP_WORK * group_readings(s)
    } else {
        0
    }
}

/// The `NOT`s that a leaf stands behind with one more. Where that one begins the leaf,
/// it is the only one.
pub open spec fn longer_chain(s: Scan) -> int {
    if s.several && s.chain > 0 {
        s.chain as int
    } else {
        s.chain + 1
    }
}

/// What has been taken of the stack behind a character.
pub open spec fn stack_of(s: Scan, c: char) -> int {
    s.level.stack + if role(s, c) == Role::Open {
        s.chain + GROUP_STACK
    } else if negates(s, c) {
        longer_chain(s)
    } else {
        s.chain as int
    }
}

/// The parser panics here: the star behind the sign is a lone one.
pub open spec fn ends_lone_star(s: Scan, c: char) -> bool {
    s.lone == Lone::Star && (is_white_space(c) || ends_word(c))
}

/// With this character the text cannot be given to the parser.
pub open spec fn is_too_much(s: Scan, c: char) -> bool {
    ||| ends_lone_star(s, c)
    ||| s.work + work_of(s, c) > MOST_WORK
    ||| stack_of(s, c) > MOST_STACK
}

/// How many letters of `NOT` have come.
pub open spec fn letters_after(s: Scan, c: char) -> u64 {
    if c == 'N' {
        1
    } else if c == 'O' && s.letters == 1 {
        2
    } else if c == 'T' && s.letters == 2 {
        3
    } else {
        0
    }
}

/// How much of a lone star behind a sign has come.
pub open spec fn lone_after(s: Scan, c: char) -> Lone {
    if role(s, c) == Role::Sign {
        Lone::Sign
    } else if (role(s, c) == Role::Blank || role(s, c) == Role::Break) && (s.lone == Lone::Sign
        || s.lone == Lone::Space) {
        Lone::Space
    } else if c == '*' && s.lone == Lone::Space {
        Lone::Star
    } else {
        Lone::Nothing
    }
}

/// How often more the parser may read what stands here.
pub open spec fn again_after(s: Scan) -> u64 {
    if s.named && s.nots > s.again {
        s.nots
    } else {
        s.again
    }
}

/// A leaf has ended.
pub open spec fn leaf_ended(s: Scan) -> Scan {
    Scan {
        first: false,
        word: false,
        begun: false,
        several: false,
        named: false,
        number: false,
        chain: 0,
        nots: 0,
        breaks: 0,
        again: again_after(s),
        ..s
    }
}

/// A name cannot go on.
pub open spec fn name_ended(s: Scan) -> Scan {
    Scan { nots: 0, breaks: 0, ..s }
}

/// A word goes on. Behind a name it is the whole leaf.
pub open spec fn word_goes_on(s: Scan) -> Scan {
    let s = if s.named {
        Scan { first: false, named: false, again: again_after(s), ..name_ended(s) }
    } else {
        s
    };
    Scan { word: true, begun: true, number: false, ..s }
}

/// White space has come.
pub open spec fn spaced(s: Scan, c: char) -> Scan {
    if s.lost {
        let s = Scan { breaks: (s.breaks + 1) as u64, ..s };
        if s.letters == 3 {
            Scan { chain: longer_chain(s) as u64, nots: (s.nots + 1) as u64, ..s }
        } else {
            s
        }
    } else if s.letters == 3 {
        let s = Scan {
            chain: longer_chain(s) as u64,
            word: false,
            begun: false,
            several: false,
            number: false,
            ..s
        };
        if c == ' ' {
            name_ended(s)
        } else {
            Scan { nots: (s.nots + 1) as u64, breaks: (s.breaks + 1) as u64, ..s }
        }
    } else if s.named {
        s
    } else if c == ' ' {
        if s.begun {
            leaf_ended(s)
        } else {
            Scan { word: false, number: false, ..name_ended(s) }
        }
    } else {
        Scan {
            word: false,
            several: s.begun,
            number: false,
            breaks: (s.breaks + 1) as u64,
            ..s
        }
    }
}

/// A group has opened.
pub open spec fn group_opened(s: Scan) -> Scan {
    let level = Level {
        readings: group_readings(s) as u64,
        stack: (s.level.stack + s.chain + GROUP_STACK) as u64,
    };
    if s.lost {
        Scan { level, chain: 0, ..s }
    } else {
        Scan { level, first: true, again: 0, ..leaf_ended(s) }
    }
}

/// What a character of a word does.
pub open spec fn word_read(s: Scan, c: char) -> Scan {
    if s.number && is_number_char(c) {
        s
    } else {
        let s = word_goes_on(s);
        let s = Scan { ranged: s.ranged || c == '<' || c == '>', ..s };
        if c == '!' || c == '+' || c == '*' {
            name_ended(s)
        } else {
            s
        }
    }
}

/// What is known of the groups and leaves behind a character, where `level` is the one
/// that it is in when it closes a group.
pub open spec fn turned(level: Level, s: Scan, c: char) -> Scan {
    match role(s, c) {
        Role::Inside => Scan { skipping: false, ..s },
        Role::Escape => if s.quote is Some {
            Scan { skipping: true, ..s }
        } else {
            Scan { skipping: true, ..word_goes_on(s) }
        },
        Role::Quote => Scan { quote: Some(c), ..leaf_ended(s) },
        Role::Unquote => Scan { quote: None, number: true, ..s },
        Role::Lose => Scan { lost: true, several: false, ..s },
        Role::Open => group_opened(s),
        Role::Close => Scan { level, again: 0, ..leaf_ended(s) },
        Role::Blank | Role::Break => spaced(s, c),
        Role::Colon => Scan { named: true, word: false, begun: true, number: false, ..s },
        Role::Sign => if s.lost {
            s
        } else if c == '+' {
            Scan { word: false, number: false, ..name_ended(s) }
        } else {
            Scan { word: false, number: s.chain > 0 && !s.begun, ..s }
        },
        Role::Negative | Role::Boost => Scan { number: true, ..leaf_ended(s) },
        Role::Star => leaf_ended(s),
        Role::Bracket => Scan {
            ranged: s.ranged || c == '[' || c == '{',
            ..leaf_ended(s)
        },
        Role::Plain => if s.lost {
            s
        } else {
            word_read(s, c)
        },
    }
}

/// What is known behind a character.
pub open spec fn scan_after(outer: Seq<Level>, s: Scan, c: char) -> Scan {
    if s.refused || is_too_much(s, c) {
        Scan { refused: true, ..s }
    } else {
        Scan {
            work: (s.work + work_of(s, c)) as u64,
            letters: letters_after(s, c),
            lone: lone_after(s, c),
            ..turned(
                if outer.len() > 0 {
                    outer.last()
                } else {
                    s.level
                },
                s,
                c,
            )
        }
    }
}

/// The groups around the innermost one, behind a character.
pub open spec fn outer_after(outer: Seq<Level>, s: Scan, c: char) -> Seq<Level> {
    if s.refused || is_too_much(s, c) {
        outer
    } else if role(s, c) == Role::Open {
        outer.push(s.level)
    } else if role(s, c) == Role::Close && outer.len() > 0 {
        outer.drop_last()
    } else {
        outer
    }
}

/// What is known at the start of a text.
pub open spec fn at_start() -> Scan {
    Scan {
        refused: false,
        work: 0,
        level: Level { readings: 1, stack: 0 },
        quote: None,
        skipping: false,
        ranged: false,
        lost: false,
        first: true,
        word: false,
        begun: false,
        several: false,
        named: false,
        number: false,
        letters: 0,
        chain: 0,
        nots: 0,
        breaks: 0,
        again: 0,
        lone: Lone::Nothing,
    }
}

/// What is known behind a text, and the groups around the innermost one.
pub open spec fn scanned(text: Seq<char>) -> (Seq<Level>, Scan)
    decreases text.len(),
{
    if text.len() == 0 {
        (Seq::empty(), at_start())
    } else {
        let (outer, s) = scanned(text.drop_last());
        (outer_after(outer, s, text.last()), scan_after(outer, s, text.last()))
    }
}

/// The parser can be given a text: it neither panics on it, nor needs more than the
/// stack or the time that there is.
pub open spec fn is_readable(text: Seq<char>) -> bool {
    !scanned(text).1.refused && scanned(text).1.lone != Lone::Star
}

/// What is known is within bounds.
spec fn is_bounded(s: Scan) -> bool {
    &&& level_is_bounded(s.level)
    &&& s.work <= MOST_WORK
    &&& s.level.stack + s.chain <= MOST_STACK
    &&& s.nots <= s.breaks <= MOST_WORK
    &&& s.again <= MOST_WORK
}

/// The groups around a place are within bounds.
spec fn level_is_bounded(level: Level) -> bool {
    1 <= level.readings && level.readings * GROUP_WORK <= MOST_WORK && level.stack <= MOST_STACK
}

/// What a character is at its place.
fn role_of(s: &Scan, c: char) -> (res: Role)
    ensures
        res == role(*s, c),
{
    if s.skipping {
        return Role::Inside;
    }
    if let Some(mark) = s.quote {
        return if c == '\\' {
            Role::Escape
        } else if c == mark {
            Role::Unquote
        } else {
            Role::Inside
        };
    }
    if c == '(' {
        Role::Open
    } else if c == ' ' {
        Role::Blank
    } else if c == '\t' || c == '\r' || c == '\n' {
        Role::Break
    } else if s.lost {
        if c == '+' || c == '-' {
            Role::Sign
        } else {
            Role::Plain
        }
    } else if s.ranged && (c == '\'' || c == '\\') {
        Role::Lose
    } else if c == '\\' {
        Role::Escape
    } else if c == '"' || c == '\'' {
        Role::Quote
    } else if c == ')' {
        Role::Close
    } else if c == ':' {
        Role::Colon
    } else if c == '+' || c == '-' {
        if c == '-' && (s.lone == Lone::Sign || (s.named && !s.ranged)) {
            Role::Negative
        } else if ((s.word || s.named) && !s.ranged) || s.lone == Lone::Sign {
            Role::Plain
        } else {
            Role::Sign
        }
    } else if c == '*' && !s.word {
        Role::Star
    } else if c == '^' {
        Role::Boost
    } else if bracket(c) {
        Role::Bracket
    } else {
        Role::Plain
    }
}

/// Whether a character is a bracket of a range or a set, or a backtick.
fn bracket(c: char) -> (res: bool)
    ensures
        res == is_bracket(c),
{
    c == '[' || c == ']' || c == '{' || c == '}' || c == '`'
}

/// How often the parser may read a group that opens here.
fn readings_of_group(s: &Scan) -> (readings: u64)
    requires
        is_bounded(*s),
    ensures
        readings == group_readings(*s),
        readings >= 1,
{
    let times: u64 = if s.lost || s.named {
        1 + s.nots
    } else {
        1
    };
    let doubled: u64 = if s.lost || (s.first && (s.named || !s.begun)) {
        2
    } else {
        1
    };
    proof {
        let readings = s.level.readings as int;
        assert(1 <= readings * doubled * times <= 0x800_0000 * 0x1_0000_0001) by (nonlinear_arith)
            requires
                1 <= readings <= 0x400_0000,
                1 <= doubled <= 2,
                1 <= times <= 0x1_0000_0001,
        ;
        assert(readings * doubled >= 1) by (nonlinear_arith)
            requires
                1 <= readings,
                1 <= doubled,
        ;
        assert(readings * doubled * 1 == readings * doubled);
    }
    s.level.readings * doubled * times
}

/// The `NOT`s that a leaf stands behind with one more.
fn lengthened(s: &Scan) -> (chain: u64)
    requires
        s.chain <= MOST_STACK,
    ensures
        chain == longer_chain(*s),
{
    if s.several && s.chain > 0 {
        s.chain
    } else {
        s.chain + 1
    }
}

/// Whether with this character the text cannot be given to the parser, and if it can,
/// the work that it adds.
fn added_work(s: &Scan, role_here: Role, c: char) -> (added: Option<u64>)
    requires
        is_bounded(*s),
        role_here == role(*s, c),
    ensures
        added is None <==> is_too_much(*s, c),
        added matches Some(work) ==> work == work_of(*s, c),
        added is Some ==> s.breaks < MOST_WORK,
        added is Some && role_here == Role::Open ==> group_readings(*s) * GROUP_WORK <= MOST_WORK,
{
    if s.lone == Lone::Star && (white_space(c) || bracket(c) || c == '^' || c == ':' || c == '"' || c
        == '\'' || c == '(' || c == ')' || c == '\\') {
        return None;
    }
    let spaced: bool = role_here == Role::Blank || role_here == Role::Break;
    let taken: u64 = if role_here == Role::Open {
        s.chain + GROUP_STACK
    } else if spaced && s.letters == 3 {
        lengthened(s)
    } else {
        s.chain
    };
    if s.level.stack + taken > MOST_STACK {
        return None;
    }
    proof {
        let readings = s.level.readings as int;
        let times = 1 + s.breaks + s.again;
        assert(times <= readings * times <= 0x400_0000 * 0x2_0000_0001) by (nonlinear_arith)
            requires
                1 <= readings <= 0x400_0000,
                1 <= times <= 0x2_0000_0001,
        ;
    }
    let plain: u64 = s.level.readings * (1 + s.breaks + s.again);
    if plain > MOST_WORK {
        return None;
    }
    let work: u64 = if role_here == Role::Open {
        let readings: u64 = readings_of_group(s);
        if readings > MOST_WORK / GROUP_WORK {
            return None;
        }
        plain + GROUP_WORK * readings
    } else {
        plain
    };
    if s.work + work > MOST_WORK {
        None
    } else {
        Some(work)
    }
}

/// What is known when a leaf has ended.
fn end_leaf(s: Scan) -> (res: Scan)
    ensures
        res == leaf_ended(s),
{
    Scan {
        first: false,
        word: false,
        begun: false,
        several: false,
        named: false,
        number: false,
        chain: 0,
        nots: 0,
        breaks: 0,
        again: if s.named && s.nots > s.again {
            s.nots
        } else {
            s.again
        },
        ..s
    }
}

/// What is known when a word goes on.
fn go_on(s: Scan) -> (res: Scan)
    ensures
        res == word_goes_on(s),
{
    let mut res: Scan = s;
    if s.named {
        res.first = false;
        res.named = false;
        res.nots = 0;
        res.breaks = 0;
        if s.nots > s.again {
            res.again = s.nots;
        }
    }
    res.word = true;
    res.begun = true;
    res.number = false;
    res
}

/// What is known when white space has come.
fn space(s: Scan, c: char) -> (res: Scan)
    requires
        is_bounded(s),
        s.breaks < MOST_WORK,
        s.letters == 3 ==> s.level.stack + longer_chain(s) <= MOST_STACK,
    ensures
        res == spaced(s, c),
        is_bounded(res),
{
    let mut res: Scan = s;
    if s.lost {
        res.breaks = s.breaks + 1;
        if s.letters == 3 {
            res.chain = lengthened(&s);
            res.nots = s.nots + 1;
        }
    } else if s.letters == 3 {
        res.chain = lengthened(&s);
        res.word = false;
        res.begun = false;
        res.several = false;
        res.number = false;
        if c == ' ' {
            res.nots = 0;
            res.breaks = 0;
        } else {
            res.nots = s.nots + 1;
            res.breaks = s.breaks + 1;
        }
    } else if s.named {
        return res;
    } else if c == ' ' {
        if s.begun {
            return end_leaf(s);
        }
        res.word = false;
        res.number = false;
        res.nots = 0;
        res.breaks = 0;
    } else {
        res.word = false;
        res.several = s.begun;
        res.number = false;
        res.breaks = s.breaks + 1;
    }
    res
}

/// What is known when a group has opened.
fn open_group(s: Scan) -> (res: Scan)
    requires
        is_bounded(s),
        group_readings(s) * GROUP_WORK <= MOST_WORK,
        s.level.stack + s.chain + GROUP_STACK <= MOST_STACK,
    ensures
        res == group_opened(s),
        is_bounded(res),
{
    let level = Level {
        readings: readings_of_group(&s),
        stack: s.level.stack + s.chain + GROUP_STACK,
    };
    if s.lost {
        Scan { level, chain: 0, ..s }
    } else {
        Scan { level, first: true, again: 0, ..end_leaf(s) }
    }
}

/// What is known when a character of a word has come.
fn read_word(s: Scan, c: char) -> (res: Scan)
    requires
        is_bounded(s),
    ensures
        res == word_read(s, c),
        is_bounded(res),
{
    let digit: bool = 48 <= c as u32 && c as u32 <= 57;
    if s.number && (digit || c == '.' || c == '~') {
        return s;
    }
    let mut res: Scan = go_on(s);
    if c == '<' || c == '>' {
        res.ranged = true;
    }
    if c == '!' || c == '+' || c == '*' {
        res.nots = 0;
        res.breaks = 0;
    }
    res
}

/// What is known of the groups and leaves behind a character, where `level` is the one
/// that it is in when it closes a group.
fn turn(level: Level, s: Scan, role_here: Role, c: char) -> (res: Scan)
    requires
        is_bounded(s),
        level_is_bounded(level),
        role_here == role(s, c),
        !s.refused,
        !is_too_much(s, c),
        s.breaks < MOST_WORK,
        role_here == Role::Open ==> group_readings(s) * GROUP_WORK <= MOST_WORK,
    ensures
        res == turned(level, s, c),
        is_bounded(res),
{
    match role_here {
        Role::Inside => Scan { skipping: false, ..s },
        Role::Escape => if s.quote.is_some() {
            Scan { skipping: true, ..s }
        } else {
            Scan { skipping: true, ..go_on(s) }
        },
        Role::Quote => Scan { quote: Some(c), ..end_leaf(s) },
        Role::Unquote => Scan { quote: None, number: true, ..s },
        Role::Lose => Scan { lost: true, several: false, ..s },
        Role::Open => open_group(s),
        Role::Close => Scan { level, again: 0, ..end_leaf(s) },
        Role::Blank => space(s, c),
        Role::Break => space(s, c),
        Role::Colon => Scan { named: true, word: false, begun: true, number: false, ..s },
        Role::Sign => if s.lost {
            s
        } else if c == '+' {
            Scan { word: false, number: false, nots: 0, breaks: 0, ..s }
        } else {
            Scan { word: false, number: s.chain > 0 && !s.begun, ..s }
        },
        Role::Negative => Scan { number: true, ..end_leaf(s) },
        Role::Boost => Scan { number: true, ..end_leaf(s) },
        Role::Star => end_leaf(s),
        Role::Bracket => Scan { ranged: s.ranged || c == '[' || c == '{', ..end_leaf(s) },
        Role::Plain => if s.lost {
            s
        } else {
            read_word(s, c)
        },
    }
}

/// What is known behind a character, where that can still be given to the parser.
fn step(outer: &mut Vec<Level>, s: Scan, c: char) -> (res: Scan)
    requires
        is_bounded(s),
        !s.refused,
        forall|i: int| 0 <= i < old(outer)@.len() ==> level_is_bounded(#[trigger] old(outer)@[i]),
    ensures
        res == scan_after(old(outer)@, s, c),
        final(outer)@ == outer_after(old(outer)@, s, c),
        is_bounded(res),
        forall|i: int| 0 <= i < final(outer)@.len() ==> level_is_bounded(
            #[trigger] final(outer)@[i],
        ),
{
    let role_here: Role = role_of(&s, c);
    let added: u64 = match added_work(&s, role_here, c) {
        Some(added) => added,
        None => {
            return Scan { refused: true, ..s };
        },
    };
    let letters: u64 = if c == 'N' {
        1
    } else if c == 'O' && s.letters == 1 {
        2
    } else if c == 'T' && s.letters == 2 {
        3
    } else {
        0
    };
    let spaced: bool = role_here == Role::Blank || role_here == Role::Break;
    let lone: Lone = if role_here == Role::Sign {
        Lone::Sign
    } else if spaced && (s.lone == Lone::Sign || s.lone == Lone::Space) {
        Lone::Space
    } else if c == '*' && s.lone == Lone::Space {
        Lone::Star
    } else {
        Lone::Nothing
    };
    let around: Level = if outer.len() > 0 {
        outer[outer.len() - 1]
    } else {
        s.level
    };
    if role_here == Role::Open {
        outer.push(s.level);
    } else if role_here == Role::Close {
        let _ = outer.pop();
    }
    let turned: Scan = turn(around, s, role_here, c);
    Scan { work: s.work + added, letters, lone, ..turned }
}

/// A text that is refused stays so, whatever follows.
proof fn lemma_refused_stays(text: Seq<char>, len: int)
    requires
        0 <= len <= text.len(),
        scanned(text.take(len)).1.refused,
    ensures
        scanned(text).1.refused,
    decreases text.len(),
{
    if len == text.len() {
        assert(text.take(len) =~= text);
    } else {
        assert(text.drop_last().take(len) =~= text.take(len));
        lemma_refused_stays(text.drop_last(), len);
    }
}

/// Whether the parser can be given a text.
pub fn readable(text: &str) -> (res: bool)
    ensures
        res == is_readable(text@),
{
    let chars: Vec<char> = chars_of(text);
    let mut outer: Vec<Level> = Vec::new();
    let mut s: Scan = Scan {
        refused: false,
        work: 0,
        level: Level { readings: 1, stack: 0 },
        quote: None,
        skipping: false,
        ranged: false,
        lost: false,
        first: true,
        word: false,
        begun: false,
        several: false,
        named: false,
        number: false,
        letters: 0,
        chain: 0,
        nots: 0,
        breaks: 0,
        again: 0,
        lone: Lone::Nothing,
    };
    let mut i: usize = 0;
    assert(text@.take(0) =~= Seq::<char>::empty());
    while i < chars.len()
        invariant
            chars@ == text@,
            i <= chars.len(),
            outer@ == scanned(text@.take(i as int)).0,
            s == scanned(text@.take(i as int)).1,
            is_bounded(s),
            !s.refused,
            forall|j: int| 0 <= j < outer@.len() ==> level_is_bounded(#[trigger] outer@[j]),
        decreases chars.len() - i,
    {
        assert(text@.take(i + 1).drop_last() =~= text@.take(i as int));
        assert(text@.take(i + 1).last() == chars@[i as int]);
        s = step(&mut outer, s, chars[i]);
        i = i + 1;
        if s.refused {
            proof {
                lemma_refused_stays(text@, i as int);
            }
            return false;
        }
    }
    assert(text@.take(i as int) =~= text@);
    s.lone != Lone::Star
}

/// What is known behind a short text without opening brackets and stars.
proof fn lemma_short_text(text: Seq<char>)
    requires
        text.len() <= MOST_STACK,
        !text.contains('('),
        !text.contains('*'),
    ensures
        ({
            let (outer, s) = scanned(text);
            &&& outer.len() == 0
            &&& !s.refused
            &&& s.level == at_start().level
            &&& s.work <= text.len() * (2 * MOST_STACK + 1)
            &&& s.chain <= text.len()
            &&& s.nots <= text.len()
            &&& s.breaks <= text.len()
            &&& s.again <= text.len()
            &&& s.lone != Lone::Star
        }),
    decreases text.len(),
{
    if text.len() > 0 {
        let start = text.drop_last();
        let c = text.last();
        assert forall|d: char| !text.contains(d) implies !start.contains(d) by {
            if start.contains(d) {
                let i = choose|i: int| 0 <= i < start.len() && start[i] == d;
                assert(text[i] == d);
            }
        }
        lemma_short_text(start);
        assert(text[text.len() - 1] == c);
        let (outer, s) = scanned(start);
        assert(role(s, c) != Role::Open);
        assert(s.level.readings * (1 + s.breaks + s.again) == 1 + s.breaks + s.again)
            by (nonlinear_arith)
            requires
                s.level.readings == 1,
        ;
        assert(start.len() * (2 * MOST_STACK + 1) + 2 * MOST_STACK + 1 == text.len() * (2
            * MOST_STACK + 1)) by (nonlinear_arith)
            requires
                start.len() + 1 == text.len(),
        ;
        assert(text.len() * (2 * MOST_STACK + 1) <= 640 * 1281) by (nonlinear_arith)
            requires
                text.len() <= MOST_STACK,
                MOST_STACK == 640,
        ;
    }
}

/// The parser can be given each short text without opening brackets and stars.
pub proof fn law_short_texts_are_readable(text: Seq<char>)
    requires
        text.len() <= MOST_STACK,
        !text.contains('('),
        !text.contains('*'),
    ensures
        is_readable(text),
{
    lemma_short_text(text);
}

/// What is known in a phrase, which stands at the start of a text.
proof fn lemma_in_phrase(text: Seq<char>)
    requires
        text.len() < MOST_WORK,
        !text.contains('"'),
        !text.contains('\\'),
    ensures
        ({
            let s = scanned(seq!['"'] + text).1;
            &&& !s.refused
            &&& s.work == text.len() + 1
            &&& s.level == at_start().level
            &&& s.quote == Some('"')
            &&& !s.skipping
            &&& s.chain == 0
            &&& s.breaks == 0
            &&& s.again == 0
            &&& s.lone == Lone::Nothing
        }),
    decreases text.len(),
{
    let phrase = seq!['"'] + text;
    if text.len() == 0 {
        assert(phrase.drop_last() =~= Seq::<char>::empty());
        assert(phrase.last() == '"');
        let s = at_start();
        assert(scanned(phrase.drop_last()).1 == s);
        assert(role(s, '"') == Role::Quote);
        let outer = scanned(phrase.drop_last()).0;
        assert(scanned(phrase).1 == scan_after(outer, s, '"'));
        assert(s.level.readings * (1 + s.breaks + s.again) == 1) by (nonlinear_arith)
            requires
                s.level.readings == 1,
                s.breaks == 0,
                s.again == 0,
        ;
    } else {
        let start = text.drop_last();
        let c = text.last();
        assert forall|d: char| !text.contains(d) implies !start.contains(d) by {
            if start.contains(d) {
                let i = choose|i: int| 0 <= i < start.len() && start[i] == d;
                assert(text[i] == d);
            }
        }
        lemma_in_phrase(start);
        assert(phrase.drop_last() =~= seq!['"'] + start);
        assert(phrase.last() == c);
        assert(text[text.len() - 1] == c);
        let (outer, s) = scanned(seq!['"'] + start);
        assert(role(s, c) == Role::Inside);
        assert(scanned(phrase).1 == scan_after(outer, s, c));
        assert(s.level.readings * (1 + s.breaks + s.again) == 1) by (nonlinear_arith)
            requires
                s.level.readings == 1,
                s.breaks == 0,
                s.again == 0,
        ;
    }
}

/// The parser can be given each text without quotation marks and backslashes, whatever
/// else is in it, once it stands in quotation marks.
pub proof fn law_phrases_are_readable(text: Seq<char>)
    requires
        text.len() + 2 <= MOST_WORK,
        !text.contains('"'),
        !text.contains('\\'),
    ensures
        is_readable(seq!['"'] + text + seq!['"']),
{
    let phrase = seq!['"'] + text + seq!['"'];
    lemma_in_phrase(text);
    assert(phrase.drop_last() =~= seq!['"'] + text);
    assert(phrase.last() == '"');
    let s = scanned(seq!['"'] + text).1;
    assert(role(s, '"') == Role::Unquote);
    assert(s.level.readings * (1 + s.breaks + s.again) == 1) by (nonlinear_arith)
        requires
            s.level.readings == 1,
            s.breaks == 0,
            s.again == 0,
    ;
}

/// What is known behind a text without characters of a meaning.
proof fn lemma_plain_text(text: Seq<char>)
    requires
        text.len() <= MOST_WORK,
        forall|i: int| 0 <= i < text.len() ==> is_plain(#[trigger] text[i]),
    ensures
        ({
            let s = scanned(text).1;
            &&& !s.refused
            &&& s.level == at_start().level
            &&& s.work == text.len()
            &&& s.chain == 0
            &&& s.breaks == 0
            &&& s.again == 0
            &&& s.nots == 0
            &&& s.letters < 3
            &&& s.quote is None
            &&& !s.skipping
            &&& !s.lost
            &&& !s.ranged
            &&& !s.named
            &&& s.lone != Lone::Star
        }),
    decreases text.len(),
{
    if text.len() > 0 {
        let start = text.drop_last();
        let c = text.last();
        assert forall|i: int| 0 <= i < start.len() implies is_plain(#[trigger] start[i]) by {
            assert(start[i] == text[i]);
        }
        lemma_plain_text(start);
        assert(is_plain(text[text.len() - 1]));
        let s = scanned(start).1;
        assert(s.level.readings * (1 + s.breaks + s.again) == 1) by (nonlinear_arith)
            requires
                s.level.readings == 1,
                s.breaks == 0,
                s.again == 0,
        ;
    }
}

/// A character that has no meaning of its own in a query, nor is the last of `NOT`.
pub open spec fn is_plain(c: char) -> bool {
    &&& !ends_word(c)
    &&& !is_break(c)
    &&& c != '*'
    &&& c != '<'
    &&& c != '>'
    &&& c != 'T'
}

/// The parser can be given each text without characters of a meaning, but for signs, as
/// long as it may be.
pub proof fn law_plain_texts_are_readable(text: Seq<char>)
    requires
        text.len() <= MOST_WORK,
        forall|i: int| 0 <= i < text.len() ==> is_plain(#[trigger] text[i]),
    ensures
        is_readable(text),
{
    lemma_plain_text(text);
}

} // verus!
