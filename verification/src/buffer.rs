//! Text while it is being written, with its length in bytes.
use vstd::prelude::*;

use crate::strings::{end_without_spaces, repeated, trimmed_end};
use crate::text::{
    byte_len, copy_range, index_at, is_boundary, lemma_boundary_index, lemma_byte_len_at_least_len,
    lemma_byte_len_push, lemma_index_of_offset, lemma_no_boundary_inside, lemma_offset_ends,
    lemma_offset_step, offset_at, width_of,
};

verus! {

/// The text without the blanks and tabs at its end.
pub open spec fn without_blanks(s: Seq<char>) -> Seq<char>
    decreases s.len(),
{
    if s.len() > 0 && (s.last() == ' ' || s.last() == '\t') {
        without_blanks(s.drop_last())
    } else {
        s
    }
}

/// The number of line feeds at the end of the text.
pub open spec fn trailing_feeds(s: Seq<char>) -> nat
    decreases s.len(),
{
    if s.len() > 0 && s.last() == '\n' {
        1 + trailing_feeds(s.drop_last())
    } else {
        0
    }
}

/// The text with as many line feeds at its end as to make `count` of them.
pub open spec fn with_feeds(s: Seq<char>, count: int) -> Seq<char> {
    if trailing_feeds(s) < count {
        s + repeated(seq!['\n'], (count - trailing_feeds(s)) as nat)
    } else {
        s
    }
}

/// The text at the start of a line, after `count` line feeds where there is anything before.
pub open spec fn with_line_start(s: Seq<char>, count: int) -> Seq<char> {
    if without_blanks(s).len() == 0 {
        seq![]
    } else {
        with_feeds(without_blanks(s), count)
    }
}

/// The text from the byte `offset` on; nothing where no character starts there.
pub open spec fn text_after(s: Seq<char>, offset: int) -> Seq<char> {
    if is_boundary(s, offset) {
        s.skip(index_at(s, offset))
    } else {
        seq![]
    }
}

/// Text while it is being written.
pub struct TextBuffer {
    characters: Vec<char>,
    bytes: u128,
}

impl View for TextBuffer {
    type V = Seq<char>;

    closed spec fn view(&self) -> Seq<char> {
        self.characters@
    }
}

impl TextBuffer {
    #[verifier::type_invariant]
    spec fn counted(self) -> bool {
        self.bytes == byte_len(self.characters@)
    }

    pub fn new() -> (buffer: Self)
        ensures
            buffer@ == Seq::<char>::empty(),
    {
        TextBuffer { characters: Vec::new(), bytes: 0 }
    }

    /// The length in bytes.
    pub fn bytes(&self) -> (bytes: u128)
        ensures
            bytes == byte_len(self@),
            bytes <= 4 * usize::MAX,
    {
        proof {
            use_type_invariant(self);
            lemma_byte_len_at_least_len(self.characters@);
        }
        assert(self.characters.len() == self.characters@.len());
        self.bytes
    }

    /// The number of characters.
    pub fn len(&self) -> (length: usize)
        ensures
            length == self@.len(),
    {
        self.characters.len()
    }

    /// The characters.
    pub fn characters(&self) -> (characters: &Vec<char>)
        ensures
            characters@ == self@,
    {
        &self.characters
    }

    /// The last character.
    pub fn last(&self) -> (last: Option<char>)
        ensures
            last == (if self@.len() > 0 {
                Some(self@.last())
            } else {
                None
            }),
    {
        let length: usize = self.characters.len();
        if length > 0 {
            Some(self.characters[length - 1])
        } else {
            None
        }
    }

    pub fn push(&mut self, c: char)
        ensures
            final(self)@ == old(self)@.push(c),
    {
        let mut taken = TextBuffer::new();
        std::mem::swap(&mut taken, self);
        proof {
            use_type_invariant(&taken);
            lemma_byte_len_at_least_len(taken.characters@);
            lemma_byte_len_push(taken.characters@, c);
        }
        let TextBuffer { mut characters, bytes } = taken;
        assert(characters.len() == characters@.len());
        characters.push(c);
        *self = TextBuffer { characters, bytes: bytes + width_of(c) as u128 };
    }

    pub fn push_all(&mut self, more: &[char])
        ensures
            final(self)@ == old(self)@ + more@,
    {
        let mut i: usize = 0;
        while i < more.len()
            invariant
                i <= more.len(),
                self@ == old(self)@ + more@.take(i as int),
            decreases more.len() - i,
        {
            self.push(more[i]);
            assert(more@.take(i + 1) =~= more@.take(i as int).push(more@[i as int]));
            i += 1;
        }
        assert(more@.take(i as int) =~= more@);
    }

    /// Takes the last character away.
    pub fn pop(&mut self)
        requires
            old(self)@.len() > 0,
        ensures
            final(self)@ == old(self)@.drop_last(),
    {
        let mut taken = TextBuffer::new();
        std::mem::swap(&mut taken, self);
        proof {
            use_type_invariant(&taken);
        }
        let TextBuffer { mut characters, bytes } = taken;
        let ghost before = characters@;
        let length: usize = characters.len();
        let c = characters[length - 1];
        characters.truncate(length - 1);
        assert(characters@ =~= before.drop_last());
        *self = TextBuffer { characters, bytes: bytes - width_of(c) as u128 };
    }

    /// Takes the white space at the end away.
    pub fn trim_end(&mut self)
        ensures
            final(self)@ == trimmed_end(old(self)@),
    {
        let end: usize = end_without_spaces(&self.characters);
        let ghost s = self@;
        while self.len() > end
            invariant
                end <= self@.len() <= s.len(),
                self@ == s.take(self@.len() as int),
            decreases self@.len(),
        {
            self.pop();
        }
        assert(self@ =~= trimmed_end(s));
    }

    /// Goes to the start of a line, after `count` line feeds.
    pub fn start_line(&mut self, count: usize)
        ensures
            final(self)@ == with_line_start(old(self)@, count as int),
    {
        let ghost start = self@;
        loop
            invariant
                without_blanks(self@) == without_blanks(start),
            ensures
                self@ == without_blanks(start),
            decreases self@.len(),
        {
            match self.last() {
                Some(c) => {
                    if c == ' ' || c == '\t' {
                        self.pop();
                    } else {
                        break;
                    }
                },
                None => {
                    break;
                },
            }
        }
        if self.len() == 0 {
            return;
        }
        let ghost s = self@;
        let length: usize = self.len();
        let mut existing: usize = 0;
        assert(s.take(length as int) =~= s);
        while existing < length && self.characters[length - 1 - existing] == '\n'
            invariant
                existing <= length == self@.len(),
                s == self@,
                trailing_feeds(s) == existing + trailing_feeds(s.take(length - existing)),
            decreases length - existing,
        {
            assert(s.take(length - existing).drop_last() =~= s.take(length - existing - 1));
            existing += 1;
        }
        let mut made: usize = existing;
        assert(self@ =~= s + repeated(seq!['\n'], 0));
        while made < count
            invariant
                existing <= made,
                existing < count ==> made <= count,
                existing >= count ==> made == existing,
                self@ == s + repeated(seq!['\n'], (made - existing) as nat),
            decreases count - made,
        {
            self.push('\n');
            made += 1;
            assert(self@ =~= s + repeated(seq!['\n'], (made - existing) as nat));
        }
        assert(self@ =~= with_feeds(s, count as int));
    }

    /// The text from the byte `offset` on.
    pub fn after(&self, offset: u128) -> (rest: Vec<char>)
        ensures
            rest@ == text_after(self@, offset as int),
    {
        proof {
            use_type_invariant(self);
            lemma_offset_ends(self@);
        }
        let ghost s = self@;
        let length: usize = self.characters.len();
        let mut i: usize = length;
        let mut at: u128 = self.bytes;
        while i > 0 && at > offset
            invariant
                i <= length,
                length == s.len(),
                s == self.characters@,
                at == offset_at(s, i as int),
                i < length ==> offset_at(s, i + 1) > offset,
            decreases i,
        {
            proof {
                lemma_offset_step(s, i - 1);
            }
            at -= width_of(self.characters[i - 1]) as u128;
            i -= 1;
        }
        proof {
            lemma_index_of_offset(s, i as int);
            lemma_offset_ends(s);
            if at != offset {
                if i < length {
                    lemma_no_boundary_inside(s, i as int, offset as int);
                } else if is_boundary(s, offset as int) {
                    lemma_boundary_index(s, offset as int);
                }
            }
        }
        if at == offset {
            copy_range(&self.characters, i, length)
        } else {
            Vec::new()
        }
    }
}

} // verus!
