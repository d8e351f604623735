use vstd::prelude::*;
use vstd::std_specs::iter::IteratorSpec;
use vstd::string::*;

verus! {

broadcast use vstd::string::group_string_axioms;

/// A forward-only cursor over the characters of a source text.
///
/// The cursor remembers where the current lexeme began (the checkpoint), so
/// that the text consumed since then can be taken out as one slice.
pub struct Source<'a> {
    source: &'a str,
    chars: Vec<char>,
    current_index: usize,
    lexeme_start: usize,
}

impl<'a> Source<'a> {
    /// The characters of the whole text.
    pub closed spec fn text(&self) -> Seq<char> {
        self.chars@
    }

    /// How many characters have been consumed.
    pub closed spec fn offset(&self) -> int {
        self.current_index as int
    }

    /// Where the current lexeme began.
    pub closed spec fn checkpoint(&self) -> int {
        self.lexeme_start as int
    }

    pub closed spec fn wf(&self) -> bool {
        &&& self.chars@ == self.source@
        &&& self.lexeme_start <= self.current_index <= self.chars.len()
    }

    pub fn new(source: &'a str) -> (r: Source<'a>)
        ensures
            r.wf(),
            r.text() == source@,
            r.offset() == 0,
            r.checkpoint() == 0,
    {
        let mut chars: Vec<char> = Vec::new();
        let mut it = source.chars();
        proof {
            assert(it.remaining() == source@);
            assert(chars@ + it.remaining() =~= source@);
        }
        loop
            invariant
                chars@ + it.remaining() == source@,
                it.obeys_prophetic_iter_laws(),
                it.decrease() is Some,
            ensures
                chars@ == source@,
            decreases it.decrease()->0,
        {
            let ghost before = it;
            match it.next() {
                Some(c) => {
                    proof {
                        assert(chars@.push(c) + it.remaining() =~= chars@ + before.remaining());
                    }
                    chars.push(c);
                },
                None => {
                    proof {
                        assert(chars@ =~= source@);
                    }
                    break ;
                },
            }
        }
        Source { source, chars, current_index: 0, lexeme_start: 0 }
    }

    /// The text consumed since the checkpoint; the checkpoint moves to the
    /// current offset.
    pub fn pop_lexeme(&mut self) -> (r: &'a str)
        requires
            old(self).wf(),
        ensures
            final(self).wf(),
            r@ == old(self).text().subrange(old(self).checkpoint(), old(self).offset()),
            final(self).text() == old(self).text(),
            final(self).offset() == old(self).offset(),
            final(self).checkpoint() == old(self).offset(),
    {
        let text: &'a str = self.source;
        let lexeme = text.substring_char(self.lexeme_start, self.current_index);
        self.lexeme_start = self.current_index;
        lexeme
    }

    /// The next character, without consuming it.
    pub fn peek(&self) -> (r: Option<char>)
        requires
            self.wf(),
        ensures
            r == (if self.offset() < self.text().len() {
                Some(self.text()[self.offset()])
            } else {
                None
            }),
    {
        if self.current_index < self.chars.len() {
            Some(self.chars[self.current_index])
        } else {
            None
        }
    }

    /// Consumes and returns the next character; at the end of the text the
    /// cursor stays where it is.
    pub fn next(&mut self) -> (r: Option<char>)
        requires
            old(self).wf(),
        ensures
            final(self).wf(),
            final(self).text() == old(self).text(),
            final(self).checkpoint() == old(self).checkpoint(),
            r == (if old(self).offset() < old(self).text().len() {
                Some(old(self).text()[old(self).offset()])
            } else {
                None
            }),
            final(self).offset() == (if old(self).offset() < old(self).text().len() {
                old(self).offset() + 1
            } else {
                old(self).offset()
            }),
    {
        if self.current_index < self.chars.len() {
            let c = self.chars[self.current_index];
            self.current_index = self.current_index + 1;
            Some(c)
        } else {
            None
        }
    }
}

/// A well-formed cursor stands within its text, with the checkpoint behind it.
pub broadcast proof fn lemma_source_bounds(s: Source)
    ensures
        #[trigger] s.wf() ==> 0 <= s.checkpoint() <= s.offset() <= s.text().len(),
{
}

} // verus!
