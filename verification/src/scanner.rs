//! A cursor over text that keeps track of the line and the column.

use vstd::prelude::*;
use vstd::string::*;
use vstd::utf8::*;
use crate::chars::{first_or_nul, len_utf8, lemma_utf8_len_is_encoding_len,
    lemma_utf8_size_is_encoding_len, lemma_utf8_size_push, utf8_len, utf8_size};

verus! {

/// The line and column after the character `c` was read at `pos`: a line
/// feed starts the next line at column 1, anything else moves one column on.
pub open spec fn step_position(pos: (int, int), c: char) -> (int, int) {
    if c == '\n' {
        (pos.0 + 1, 1)
    } else {
        (pos.0, pos.1 + 1)
    }
}

/// The line and column after `text` was read from `pos` on.
pub open spec fn walk_position(pos: (int, int), text: Seq<char>) -> (int, int)
    decreases text.len(),
{
    if text.len() == 0 {
        pos
    } else {
        step_position(walk_position(pos, text.drop_last()), text.last())
    }
}

/// Reading one text after another moves the position as reading the two as
/// one text does.
pub proof fn lemma_walk_concat(pos: (int, int), first: Seq<char>, second: Seq<char>)
    ensures
        walk_position(walk_position(pos, first), second) == walk_position(pos, first + second),
    decreases second.len(),
{
    if second.len() == 0 {
        assert(first + second =~= first);
    } else {
        assert((first + second).drop_last() =~= first + second.drop_last());
        assert((first + second).last() == second.last());
        lemma_walk_concat(pos, first, second.drop_last());
    }
}

/// Whether the cursor `after` is the cursor `before` moved over `n`
/// characters: it has the rest of the text and the position that reading the
/// `n` characters leads to.
pub open spec fn moved(before: Scanner, after: Scanner, n: int) -> bool {
    &&& 0 <= n <= before.remaining().len()
    &&& after.remaining() == before.remaining().skip(n)
    &&& after.spec_position() == walk_position(before.spec_position(), before.remaining().take(n))
}

/// A cursor that has not moved.
pub proof fn lemma_moved_none(at: Scanner)
    ensures
        moved(at, at, 0),
{
    assert(at.remaining().skip(0) =~= at.remaining());
    assert(at.remaining().take(0) =~= Seq::<char>::empty());
}

/// Two moves in a row are one move over the sum.
pub proof fn lemma_moved_twice(first: Scanner, second: Scanner, third: Scanner, n: int, m: int)
    requires
        moved(first, second, n),
        moved(second, third, m),
    ensures
        moved(first, third, n + m),
        first.remaining().take(n + m) == first.remaining().take(n) + second.remaining().take(m),
{
    let text = first.remaining();
    assert(text.skip(n).skip(m) =~= text.skip(n + m));
    assert(text.take(n + m) =~= text.take(n) + text.skip(n).take(m));
    lemma_walk_concat(first.spec_position(), text.take(n), text.skip(n).take(m));
}

/// A cursor over a text. It knows the character under it and the line and
/// column of that character, both counted from 1.
pub struct Scanner<'a> {
    current: &'a str,
    top: char,
    position: (usize, usize),
}

/// The first character of `value`, or NUL if it is empty.
fn get_top(value: &str) -> (c: char)
    ensures
        c == first_or_nul(value@),
{
    let mut chars = value.chars();
    proof {
        broadcast use {axiom_spec_iter, next_postcondition};
    }
    match chars.next() {
        Some(c) => c,
        None => '\0',
    }
}

impl<'a> Scanner<'a> {
    #[verifier::type_invariant]
    spec fn well_formed(&self) -> bool {
        &&& self.top == first_or_nul(self.current@)
        &&& self.position.0 + self.current@.len() <= usize::MAX
        &&& self.position.1 + self.current@.len() <= usize::MAX
        &&& utf8_size(self.current@) <= usize::MAX
    }

    /// The text from the cursor to the end.
    pub closed spec fn remaining(&self) -> Seq<char> {
        self.current@
    }

    /// The line and the column of the cursor.
    pub closed spec fn spec_position(&self) -> (int, int) {
        (self.position.0 as int, self.position.1 as int)
    }

    /// A cursor at the start of `value`, on line 1 and column 1.
    pub fn new(value: &'a str) -> (r: Scanner<'a>)
        requires
            value@.len() < usize::MAX,
        ensures
            r.remaining() == value@,
            r.spec_position() == (1int, 1int),
    {
        let bytes = value.as_bytes();
        proof {
            broadcast use vstd::slice::axiom_spec_len;

            lemma_utf8_size_is_encoding_len(value@);
            assert(bytes@.len() == vstd::slice::spec_slice_len(bytes));
        }
        Scanner { current: value, top: get_top(value), position: (1, 1) }
    }

    /// The text from the cursor to the end.
    pub fn get(&self) -> (r: &'a str)
        ensures
            r@ == self.remaining(),
    {
        self.current
    }

    /// The character under the cursor, or NUL at the end of the text.
    pub fn top(&self) -> (r: char)
        ensures
            r == first_or_nul(self.remaining()),
    {
        proof {
            use_type_invariant(self);
        }
        self.top
    }

    /// The line and the column of the cursor.
    pub fn position(&self) -> (r: (usize, usize))
        ensures
            (r.0 as int, r.1 as int) == self.spec_position(),
    {
        (self.position.0, self.position.1)
    }

    /// Whether the cursor is at the end of the text. The rest of the text
    /// always fits the address space.
    pub fn eol(&self) -> (r: bool)
        ensures
            r == (self.remaining().len() == 0),
            utf8_size(self.remaining()) <= usize::MAX,
    {
        proof {
            use_type_invariant(self);
        }
        self.current.is_empty()
    }

    /// A copy of the cursor, to come back to.
    pub fn backup(&self) -> (r: Scanner<'a>)
        ensures
            r == *self,
    {
        proof {
            use_type_invariant(self);
        }
        Scanner { current: self.current, top: self.top, position: self.position }
    }

    /// Puts the cursor back where `other` is.
    pub fn restore<'b>(&mut self, other: &'b Scanner<'a>)
        ensures
            *final(self) == *other,
    {
        proof {
            use_type_invariant(other);
        }
        *self = Scanner { current: other.current, top: other.top, position: other.position };
    }

    /// Moves over one character and returns the number of bytes that it
    /// takes in UTF-8; at the end of the text nothing moves and the result
    /// is 0.
    pub fn advance(&mut self) -> (r: usize)
        ensures
            old(self).remaining().len() == 0 ==> r == 0 && *final(self) == *old(self),
            old(self).remaining().len() > 0 ==> {
                &&& r == utf8_len(old(self).remaining()[0])
                &&& final(self).remaining() == old(self).remaining().drop_first()
                &&& final(self).spec_position() == step_position(
                    old(self).spec_position(),
                    old(self).remaining()[0],
                )
                &&& moved(*old(self), *final(self), 1)
            },
    {
        proof {
            use_type_invariant(&*self);
        }
        if self.current.is_empty() {
            return 0;
        }
        let c: char = self.top;
        let shift = len_utf8(c);
        let ghost text = self.current@;
        let ghost bytes = self.current.spec_bytes();
        proof {
            broadcast use encode_utf8_valid_utf8;

            lemma_utf8_len_is_encoding_len(c);
            encode_utf8_first_scalar(text);
            assert(pop_first_scalar(bytes) =~= encode_utf8(text.drop_first()));
            assert(is_char_boundary(pop_first_scalar(bytes), 0));
            assert(is_char_boundary(bytes, shift as int));
        }
        let (_, rest) = self.current.split_at(shift);
        proof {
            broadcast use encode_utf8_decode_utf8;

            assert(rest.spec_bytes() == encode_utf8(text.drop_first()));
            assert(decode_utf8(encode_utf8(rest@)) == rest@);
            assert(rest@ == text.drop_first());
        }
        let position = match c {
            '\n' => (self.position.0 + 1, 1),
            _ => (self.position.0, self.position.1 + 1),
        };
        proof {
            let start = self.spec_position();
            assert(text.take(1).drop_last() =~= Seq::<char>::empty());
            assert(text.take(1).last() == c);
            assert(walk_position(start, Seq::<char>::empty()) == start);
            assert(walk_position(start, text.take(1)) == step_position(start, c));
            assert(text.skip(1) =~= text.drop_first());
        }
        *self = Scanner { current: rest, top: get_top(rest), position };
        shift
    }

    /// Moves over `count` characters, or to the end of the text if fewer
    /// are left.
    pub fn jump(&mut self, count: usize)
        ensures
            moved(*old(self), *final(self), jump_length(old(self).remaining(), count)),
    {
        let ghost text = self.remaining();
        let ghost start = self.spec_position();
        let mut i: usize = 0;
        proof {
            assert(text.skip(0) =~= text);
            assert(text.take(0) =~= Seq::<char>::empty());
        }
        while i < count && !self.eol()
            invariant
                i <= count,
                i <= text.len(),
                self.remaining() == text.skip(i as int),
                self.spec_position() == walk_position(start, text.take(i as int)),
            decreases count - i,
        {
            proof {
                assert(text.skip(i as int).drop_first() =~= text.skip(i + 1));
                assert(text.take(i + 1).drop_last() =~= text.take(i as int));
            }
            self.advance();
            i += 1;
        }
    }

    /// Moves over the characters that `predic` accepts, up to the first one
    /// that it refuses or to the end of the text, and returns the number of
    /// bytes that they take in UTF-8.
    pub fn advance_while<F: Fn(char) -> bool>(&mut self, predic: F) -> (r: usize)
        requires
            forall|c: char| predic.requires((c,)),
        ensures
            accepted_run(
                predic,
                old(self).remaining(),
                old(self).remaining().len() - final(self).remaining().len(),
            ),
            moved(
                *old(self),
                *final(self),
                old(self).remaining().len() - final(self).remaining().len(),
            ),
            r == utf8_size(
                old(self).remaining().take(
                    old(self).remaining().len() - final(self).remaining().len(),
                ),
            ),
    {
        let ghost text = self.remaining();
        let ghost start = self.spec_position();
        let ghost mut n: int = 0;
        let mut count: usize = 0;
        proof {
            use_type_invariant(&*self);
            assert(text.skip(0) =~= text);
            assert(text.take(0) =~= Seq::<char>::empty());
        }
        loop
            invariant
                0 <= n <= text.len(),
                forall|c: char| predic.requires((c,)),
                self.remaining() == text.skip(n),
                self.spec_position() == walk_position(start, text.take(n)),
                count == utf8_size(text.take(n)),
                count + utf8_size(text.skip(n)) <= usize::MAX,
                forall|i: int| 0 <= i < n ==> predic.ensures((#[trigger] text[i],), true),
            ensures
                accepted_run(predic, text, n),
                self.remaining() == text.skip(n),
                self.spec_position() == walk_position(start, text.take(n)),
                count == utf8_size(text.take(n)),
            decreases text.len() - n,
        {
            if self.eol() {
                break;
            }
            let accepted = predic(self.top());
            if !accepted {
                break;
            }
            proof {
                assert(text.skip(n).drop_first() =~= text.skip(n + 1));
                assert(text.take(n + 1).drop_last() =~= text.take(n));
                assert(text.take(n + 1) =~= text.take(n).push(text[n]));
                lemma_utf8_size_push(text.take(n), text[n]);
            }
            let shift = self.advance();
            count += shift;
            proof {
                n = n + 1;
            }
        }
        count
    }
}

/// The number of characters that a jump of `count` moves over in `text`.
pub open spec fn jump_length(text: Seq<char>, count: usize) -> int {
    if count <= text.len() {
        count as int
    } else {
        text.len() as int
    }
}

/// Whether `predic` accepts the first `n` characters of `text` and refuses
/// the one after them, if there is one.
pub open spec fn accepted_run<F: Fn(char) -> bool>(predic: F, text: Seq<char>, n: int) -> bool {
    &&& 0 <= n <= text.len()
    &&& forall|i: int| 0 <= i < n ==> predic.ensures((#[trigger] text[i],), true)
    &&& n < text.len() ==> predic.ensures((text[n],), false)
}

} // verus!
