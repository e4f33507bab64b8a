//! Places in a source text: the cursor that the lexer moves over the
//! characters, and what it knows of each place.

use vstd::prelude::*;
use vstd::string::StrSliceExecFns;
use crate::text::{byte_offset, chars_of, lemma_byte_offset_step, utf8_width};
use crate::tokens::Position;

verus! {

// ---------------------------------------------------------------------
// Places in the text
// ---------------------------------------------------------------------
/// The line of the place behind the first `i` characters, counted from 1.
pub open spec fn line_at(s: Seq<char>, i: int) -> int
    decreases i,
{
    if i <= 0 || i > s.len() {
        1
    } else if s[i - 1] == '\n' {
        line_at(s, i - 1) + 1
    } else {
        line_at(s, i - 1)
    }
}

/// How many characters stand between the last line end before the place
/// behind the first `i` characters and that place.
pub open spec fn column_at(s: Seq<char>, i: int) -> int
    decreases i,
{
    if i <= 0 || i > s.len() {
        0
    } else if s[i - 1] == '\n' {
        0
    } else {
        column_at(s, i - 1) + 1
    }
}

/// The place behind the first `i` characters.
pub open spec fn position_at(s: Seq<char>, i: int) -> Position {
    Position { line: line_at(s, i) as usize, column: column_at(s, i) as usize }
}

/// A place is on line 1 at the earliest and on no later line than there
/// are characters before it and one; its column counts no more characters
/// than stand before it.
pub proof fn lemma_position_bounds(s: Seq<char>, i: int)
    requires
        0 <= i <= s.len(),
    ensures
        1 <= line_at(s, i) <= i + 1,
        0 <= column_at(s, i) <= i,
    decreases i,
{
    if i > 0 {
        lemma_position_bounds(s, i - 1);
    }
}

/// The end of the longest run of characters with a property that starts
/// at `start`.
pub open spec fn run_end(s: Seq<char>, start: int, property: spec_fn(char) -> bool) -> int
    decreases s.len() - start,
{
    if start < 0 || start >= s.len() || !property(s[start]) {
        start
    } else {
        run_end(s, start + 1, property)
    }
}

/// A run ends where it starts or later, and inside the text.
pub proof fn lemma_run_end(s: Seq<char>, start: int, property: spec_fn(char) -> bool)
    requires
        0 <= start <= s.len(),
    ensures
        start <= run_end(s, start, property) <= s.len(),
    decreases s.len() - start,
{
    if start < s.len() && property(s[start]) {
        lemma_run_end(s, start + 1, property);
    }
}

/// Every character of a run has the property, and the character behind
/// the run has it not.
pub proof fn lemma_run_contents(s: Seq<char>, start: int, property: spec_fn(char) -> bool)
    requires
        0 <= start <= s.len(),
    ensures
        forall|k: int| start <= k < run_end(s, start, property) ==> property(#[trigger] s[k]),
        run_end(s, start, property) < s.len() ==> !property(s[run_end(s, start, property)]),
    decreases s.len() - start,
{
    if start < s.len() && property(s[start]) {
        lemma_run_contents(s, start + 1, property);
    }
}

/// The text holds `pattern` at place `i`.
pub open spec fn holds_at(s: Seq<char>, i: int, pattern: Seq<char>) -> bool {
    0 <= i && i + pattern.len() <= s.len() && s.subrange(i, i + pattern.len()) == pattern
}

// ---------------------------------------------------------------------
// The text and a place in it
// ---------------------------------------------------------------------
/// A source text with its characters laid out one by one.
pub struct Source<'a> {
    pub text: &'a str,
    pub chars: Vec<char>,
}

impl<'a> Source<'a> {
    /// The characters are those of the text, and there are few enough of
    /// them for lines, columns and byte offsets to be counted.
    pub open spec fn wf(&self) -> bool {
        &&& self.chars@ == self.text@
        &&& self.text@.len() < usize::MAX
        &&& byte_offset(self.text@, self.text@.len() as int) <= usize::MAX
    }

    /// Lays out a text that is shorter than the largest index.
    pub fn new(text: &'a str) -> (source: Self)
        requires
            text@.len() < usize::MAX,
        ensures
            source.wf(),
            source.text == text,
    {
        // The bytes of the text are counted by an index, so every offset is one.
        let _length = text.as_bytes().len();
        assert(text@.take(text@.len() as int) =~= text@);
        Source { text, chars: chars_of(text) }
    }
}

/// A place in a source text: which character is next, at which byte it
/// starts, and on which line and in which column it stands.
#[derive(Clone, Copy)]
pub struct Cursor<'s, 'a> {
    pub source: &'s Source<'a>,
    pub index: usize,
    pub offset: usize,
    pub position: Position,
}

impl<'s, 'a> Cursor<'s, 'a> {
    /// The characters of the text that the cursor moves over.
    pub open spec fn text(&self) -> Seq<char> {
        self.source.text@
    }

    /// The cursor stands inside a text that is laid out, and what it says
    /// of its place is true.
    pub open spec fn wf(&self) -> bool {
        &&& self.source.wf()
        &&& self.index <= self.text().len()
        &&& self.offset == byte_offset(self.text(), self.index as int)
        &&& self.position == position_at(self.text(), self.index as int)
    }

    /// The same text, at place `index`.
    pub open spec fn at(&self, source: &Source<'a>, index: int) -> bool {
        self.wf() && *self.source == *source && self.index == index
    }

    /// The place before the first character.
    pub fn from_beginning(source: &'s Source<'a>) -> (begin: Self)
        requires
            source.wf(),
        ensures
            begin.at(source, 0),
    {
        Cursor { source, index: 0, offset: 0, position: Position::begin() }
    }

    /// Whether the place is behind the last character.
    pub fn is_end(&self) -> (end: bool)
        requires
            self.wf(),
        ensures
            end == (self.index == self.text().len()),
    {
        self.index >= self.source.chars.len()
    }

    /// The next character and the place behind it, or nothing at the end.
    pub fn next(&self) -> (step: Option<(char, Self)>)
        requires
            self.wf(),
        ensures
            match step {
                Some((c, rest)) => self.index < self.text().len()
                    && c == self.text()[self.index as int] && rest.at(self.source, self.index + 1),
                None => self.index == self.text().len(),
            },
    {
        if self.index >= self.source.chars.len() {
            return None;
        }
        let c = self.source.chars[self.index];
        proof {
            lemma_byte_offset_step(self.text(), self.index as int);
            lemma_position_bounds(self.text(), self.index as int);
        }
        let rest = Cursor {
            source: self.source,
            index: self.index + 1,
            offset: self.offset + utf8_width(c),
            position: self.position.advance(c == '\n'),
        };
        Some((c, rest))
    }

    /// The next character, or nothing at the end.
    pub fn lookup(&self) -> (c: Option<char>)
        requires
            self.wf(),
        ensures
            match c {
                Some(c) => self.index < self.text().len() && c == self.text()[self.index as int],
                None => self.index == self.text().len(),
            },
    {
        match self.next() {
            Some((c, _)) => Some(c),
            None => None,
        }
    }

    /// The text between two places.
    pub fn slice_to_str(start: &Self, end: &Self) -> (slice: &'a str)
        requires
            start.wf(),
            end.at(start.source, end.index as int),
            start.index <= end.index,
        ensures
            slice@ == start.text().subrange(start.index as int, end.index as int),
    {
        start.source.text.substring_char(start.index, end.index)
    }

    /// The place behind the longest run of characters that the predicate
    /// accepts.
    pub fn skip<F: Fn(char) -> bool>(
        &self,
        predicate: F,
        Ghost(property): Ghost<spec_fn(char) -> bool>,
    ) -> (end: Self)
        requires
            self.wf(),
            forall|c: char| call_requires(predicate, (c,)),
            forall|c: char, accepted: bool|
                call_ensures(predicate, (c,), accepted) ==> accepted == property(c),
        ensures
            end.at(self.source, run_end(self.text(), self.index as int, property)),
            self.index <= end.index,
    {
        let mut copy = *self;
        loop
            invariant
                copy.at(self.source, copy.index as int),
                self.index <= copy.index,
                forall|c: char| call_requires(predicate, (c,)),
                forall|c: char, accepted: bool|
                    call_ensures(predicate, (c,), accepted) ==> accepted == property(c),
                run_end(self.text(), self.index as int, property) == run_end(
                    self.text(),
                    copy.index as int,
                    property,
                ),
            ensures
                copy.at(self.source, run_end(self.text(), self.index as int, property)),
                self.index <= copy.index,
            decreases self.text().len() - copy.index,
        {
            match copy.next() {
                None => {
                    break ;
                },
                Some((c, rest)) => {
                    if !predicate(c) {
                        break ;
                    }
                    copy = rest;
                },
            }
        }
        copy
    }

    /// The place `n` characters further, if the text has as many.
    pub fn skip_n(&self, n: usize) -> (end: Option<Self>)
        requires
            self.wf(),
        ensures
            match end {
                Some(end) => end.at(self.source, self.index + n),
                None => self.index + n > self.text().len(),
            },
    {
        let mut copy = *self;
        let mut done: usize = 0;
        while done < n
            invariant
                done <= n,
                copy.at(self.source, self.index + done),
            decreases n - done,
        {
            match copy.next() {
                None => {
                    return None;
                },
                Some((_, rest)) => {
                    copy = rest;
                },
            }
            done += 1;
        }
        Some(copy)
    }

    /// The longest run of characters that the predicate accepts, and the
    /// place behind it.
    pub fn take_while<F: Fn(char) -> bool>(
        &self,
        predicate: F,
        Ghost(property): Ghost<spec_fn(char) -> bool>,
    ) -> (run: (&'a str, Self))
        requires
            self.wf(),
            forall|c: char| call_requires(predicate, (c,)),
            forall|c: char, accepted: bool|
                call_ensures(predicate, (c,), accepted) ==> accepted == property(c),
        ensures
            run.1.at(self.source, run_end(self.text(), self.index as int, property)),
            self.index <= run.1.index,
            run.0@ == self.text().subrange(self.index as int, run.1.index as int),
    {
        let end = self.skip(predicate, Ghost(property));
        (Self::slice_to_str(self, &end), end)
    }

    /// The place behind `value`, if the text goes on with it.
    pub fn starts_with(&self, value: &str) -> (end: Option<Self>)
        requires
            self.wf(),
        ensures
            match end {
                Some(end) => holds_at(self.text(), self.index as int, value@) && end.at(
                    self.source,
                    self.index + value@.len(),
                ),
                None => !holds_at(self.text(), self.index as int, value@),
            },
    {
        let mut copy = *self;
        let mut matched = true;
        let expected_chars = value.chars();
        for expected in it: expected_chars
            invariant
                it.seq() == value@,
                self.wf(),
                matched ==> copy.at(self.source, self.index + it.index()),
                matched ==> self.text().subrange(self.index as int, self.index + it.index())
                    == value@.take(it.index()),
                !matched ==> !holds_at(self.text(), self.index as int, value@),
        {
            if matched {
                match copy.next() {
                    None => {
                        matched = false;
                    },
                    Some((c, rest)) => {
                        if c != expected {
                            matched = false;
                        } else {
                            copy = rest;
                        }
                    },
                }
            }
        }
        if matched {
            assert(value@.take(value@.len() as int) =~= value@);
            Some(copy)
        } else {
            None
        }
    }
}

/// Whether a list of characters is a given text.
pub fn text_equals(chars: &Vec<char>, text: &str) -> (equal: bool)
    ensures
        equal == (chars@ == text@),
{
    let mut equal = true;
    let mut count: usize = 0;
    let letters = text.chars();
    for c in it: letters
        invariant
            it.seq() == text@,
            equal ==> count == it.index() && count <= chars@.len() && chars@.take(count as int)
                == text@.take(count as int),
            !equal ==> chars@ != text@,
    {
        if equal {
            if count < chars.len() && chars[count] == c {
                count += 1;
            } else {
                equal = false;
            }
        }
    }
    proof {
        assert(text@.take(text@.len() as int) =~= text@);
        if equal && count == chars@.len() {
            assert(chars@.take(count as int) =~= chars@);
        }
    }
    equal && count == chars.len()
}

} // verus!
