//! The text of a token, built without copying for as long as it is the source
//! text itself.
use std::borrow::Cow;
use vstd::prelude::*;
use vstd::string::*;
use vstd::utf8::encode_utf8;

use crate::lexer::Lexer;
use crate::utf8::{
    byte_offset, len_utf8, lemma_byte_offset_end, lemma_byte_offset_monotone,
    lemma_byte_offset_step, substring,
};

verus! {

/// `String::push` appends the given character to the end of the string.
pub assume_specification[ std::string::String::push ](text: &mut std::string::String, c: char)
    ensures
        final(text)@ == old(text)@.push(c),
;

/// The decoded text of one token.
///
/// It starts out borrowed: it only keeps count of how much of the source it
/// has matched, from the place where it was made. The first time the text has
/// to differ from the source, because an escape was decoded, what was matched
/// is copied into an owned buffer, and from then on every character is
/// appended to that.
pub struct AutoCow<'a> {
    /// The source text.
    source: &'a str,
    /// Byte offset of the first matched character.
    start: usize,
    /// Byte offset just past the last matched character.
    end: usize,
    /// Character position of `start`.
    first: Ghost<int>,
    /// Character position of `end`.
    next: Ghost<int>,
    /// The owned text, once the builder has been forced to allocate.
    value: Option<String>,
}

impl<'a> View for AutoCow<'a> {
    type V = Seq<char>;

    /// The text built so far.
    closed spec fn view(&self) -> Seq<char> {
        match self.value {
            Some(text) => text@,
            None => self.source@.subrange(self.first@, self.next@),
        }
    }
}

impl<'a> AutoCow<'a> {
    /// The characters of the source text that the builder reads from.
    pub closed spec fn source(&self) -> Seq<char> {
        self.source@
    }

    /// The character position at which the builder was made.
    pub closed spec fn anchor(&self) -> int {
        self.first@
    }

    /// The character position up to which the source has been matched.
    pub closed spec fn cursor(&self) -> int {
        self.next@
    }

    /// Whether the builder has been forced into an owned buffer.
    pub closed spec fn spec_has_escape(&self) -> bool {
        self.value is Some
    }

    /// The invariant of the builder: what it has matched lies within the
    /// source, between the byte offsets that it keeps.
    pub closed spec fn wf(&self) -> bool {
        &&& 0 <= self.first@ <= self.next@ <= self.source@.len()
        &&& self.start == byte_offset(self.source@, self.first@)
        &&& self.end == byte_offset(self.source@, self.next@)
        &&& encode_utf8(self.source@).len() <= usize::MAX
    }

    /// An empty builder that borrows from the source of `lexer`, from the
    /// position of its cursor on.
    pub fn new(lexer: &Lexer<'a>) -> (builder: AutoCow<'a>)
        requires
            lexer.wf(),
        ensures
            builder.wf(),
            builder.source() == lexer.source(),
            builder.anchor() == lexer.position(),
            builder.cursor() == lexer.position(),
            !builder.spec_has_escape(),
            builder@ == Seq::<char>::empty(),
    {
        let offset = lexer.offset();
        proof {
            lexer.lemma_cursor_within_source();
        }
        AutoCow {
            source: lexer.source_text(),
            start: offset,
            end: offset,
            first: Ghost(lexer.position()),
            next: Ghost(lexer.position()),
            value: None,
        }
    }

    /// Appends `c`. While the builder borrows, `c` must be the next character
    /// of the source, and only the count of matched characters moves on.
    pub fn push_matching(&mut self, c: char)
        requires
            old(self).wf(),
            !old(self).spec_has_escape() ==> old(self).cursor() < old(self).source().len()
                && old(self).source()[old(self).cursor()] == c,
        ensures
            final(self).wf(),
            final(self).source() == old(self).source(),
            final(self).anchor() == old(self).anchor(),
            final(self).spec_has_escape() == old(self).spec_has_escape(),
            final(self).cursor() == if old(self).spec_has_escape() {
                old(self).cursor()
            } else {
                old(self).cursor() + 1
            },
            final(self)@ == old(self)@.push(c),
    {
        match self.value.take() {
            Some(mut text) => {
                text.push(c);
                self.value = Some(text);
            },
            None => {
                proof {
                    let s = self.source@;
                    lemma_byte_offset_step(s, self.next@);
                    lemma_byte_offset_monotone(s, self.next@ + 1, s.len() as int);
                    lemma_byte_offset_end(s);
                    assert(s.subrange(self.first@, self.next@ + 1) =~= s.subrange(
                        self.first@,
                        self.next@,
                    ).push(c));
                }
                self.end = self.end + len_utf8(c);
                self.next = Ghost(self.next@ + 1);
            },
        }
    }

    /// Forces the builder into an owned buffer that holds what was matched so
    /// far. The text stays what it was.
    pub fn force_allocation(&mut self)
        requires
            old(self).wf(),
        ensures
            final(self).wf(),
            final(self).source() == old(self).source(),
            final(self).anchor() == old(self).anchor(),
            final(self).cursor() == old(self).cursor(),
            final(self).spec_has_escape(),
            final(self)@ == old(self)@,
    {
        if self.value.is_none() {
            let matched = substring(self.source, self.start, self.end, self.first, self.next);
            self.value = Some(matched.to_owned());
        }
    }

    /// Whether the builder has been forced into an owned buffer, which happens
    /// when the token holds an escape.
    #[verifier::when_used_as_spec(spec_has_escape)]
    pub fn has_escape(&self) -> (b: bool)
        ensures
            b == self.spec_has_escape(),
    {
        self.value.is_some()
    }

    /// The text: a slice of the source while the builder borrows, the owned
    /// buffer once it was forced to allocate.
    pub fn finish(self) -> (text: Cow<'a, str>)
        requires
            self.wf(),
        ensures
            text@ == self@,
            (text is Owned) == self.spec_has_escape(),
    {
        match self.value {
            Some(text) => Cow::Owned(text),
            None => Cow::Borrowed(
                substring(self.source, self.start, self.end, self.first, self.next),
            ),
        }
    }
}

} // verus!
