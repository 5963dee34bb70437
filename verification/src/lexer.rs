//! The lexer: a cursor that steps over the input rune by rune, an emitter that cuts
//! tokens out of it, and the states that drive both.

use crate::chars::{is_alphanumeric, is_end_of_line, is_space};
use crate::grammar::{
    accept_end, accepts, fault, number_end, number_ok, number_stop, remaining, run_end, step,
    terminator, token, Class, Mark, Outcome, Source,
};
use crate::machine::{lemma_step_progress, lex_from, mark_ok, state_ok, state_rank};
use crate::runes::{
    boundary, is_char_boundary, lemma_boundary_agrees, lemma_rune_step, lemma_rune_width_range,
    rune_at, rune_width, text,
};
use crate::token::{Channel, Item, ItemType, ItemView, Pos, State};
use std::rc::Rc;
use vstd::prelude::*;
use vstd::string::StrSliceExecFns;
use vstd::string::StringSliceAdditionalSpecFns;
use vstd::utf8::encode_utf8;

verus! {

/// The rune of `s` that starts at the boundary `pos`.
pub fn rune_of(s: &str, pos: usize) -> (c: char)
    requires
        pos < s.spec_bytes().len(),
        boundary(s.spec_bytes(), pos as int),
    ensures
        rune_at(s.spec_bytes(), pos as int) == Some(c),
{
    proof {
        vstd::utf8::encode_utf8_valid_utf8(s@);
        lemma_boundary_agrees(s.spec_bytes(), pos as int);
    }
    let (_, rest) = s.split_at(pos);
    proof {
        if rest@.len() == 0 {
            assert(encode_utf8(rest@).len() == 0);
        }
        vstd::utf8::encode_utf8_first_scalar(rest@);
        vstd::utf8::char_u32_cast(rest@[0], rest@[0] as u32);
    }
    rest.get_char(0)
}

/// The part of `s` between the boundaries `from` and `to`.
pub fn slice_of<'a>(s: &'a str, from: usize, to: usize) -> (r: &'a str)
    requires
        from <= to <= s.spec_bytes().len(),
        boundary(s.spec_bytes(), from as int),
        boundary(s.spec_bytes(), to as int),
    ensures
        r@ == text(s.spec_bytes(), from as int, to as int),
        r.spec_bytes() == s.spec_bytes().subrange(from as int, to as int),
{
    proof {
        vstd::utf8::encode_utf8_valid_utf8(s@);
        lemma_boundary_agrees(s.spec_bytes(), from as int);
        lemma_boundary_agrees(s.spec_bytes(), to as int);
        vstd::utf8::valid_utf8_split(s.spec_bytes(), to as int);
    }
    let (head, _) = s.split_at(to);
    proof {
        vstd::utf8::encode_utf8_valid_utf8(head@);
        lemma_boundary_agrees(head.spec_bytes(), from as int);
    }
    let (_, mid) = head.split_at(from);
    proof {
        assert(mid.spec_bytes() =~= s.spec_bytes().subrange(from as int, to as int));
        vstd::utf8::encode_utf8_decode_utf8(mid@);
    }
    mid
}

/// Tells whether `c` is one of the characters of `valid`.
pub fn contains_char(valid: &str, c: char) -> (r: bool)
    ensures
        r == valid@.contains(c),
{
    let n = valid.unicode_len();
    let mut i: usize = 0;
    while i < n
        invariant
            n == valid@.len(),
            i <= n,
            forall|k: int| 0 <= k < i ==> valid@[k] != c,
        decreases n - i,
    {
        if valid.get_char(i) == c {
            return true;
        }
        i += 1;
    }
    false
}

/// Tells whether two texts are the same.
pub fn same_text(a: &str, b: &str) -> (r: bool)
    ensures
        r == (a@ == b@),
{
    let x = a.as_bytes();
    let y = b.as_bytes();
    proof {
        vstd::utf8::encode_utf8_decode_utf8(a@);
        vstd::utf8::encode_utf8_decode_utf8(b@);
    }
    if x.len() != y.len() {
        return false;
    }
    let mut i: usize = 0;
    while i < x.len()
        invariant
            x@.len() == y@.len(),
            x@ == a.spec_bytes(),
            y@ == b.spec_bytes(),
            i <= x@.len(),
            forall|k: int| 0 <= k < i ==> x@[k] == y@[k],
        decreases x.len() - i,
    {
        if x[i] != y[i] {
            proof {
                assert(a.spec_bytes()[i as int] != b.spec_bytes()[i as int]);
            }
            return false;
        }
        i += 1;
    }
    proof {
        assert(x@ =~= y@);
    }
    true
}

/// How many line feeds are among the first `upto` bytes of `b`.
pub open spec fn newlines(b: Seq<u8>, upto: int) -> nat
    decreases upto,
{
    if upto <= 0 {
        0
    } else {
        newlines(b, upto - 1) + if b[upto - 1] == 0x0a {
            1nat
        } else {
            0nat
        }
    }
}

/// A lexer over one input text.
#[derive(Debug)]
pub struct Lexer {
    /// A name for the input, for diagnostics.
    pub name: &'static str,
    /// The text to lex.
    pub input: &'static str,
    /// The marker that opens an action.
    pub left_delim: &'static str,
    /// The marker that closes an action.
    pub right_delim: &'static str,
    /// Where the pending token starts.
    pub start: Pos,
    /// The cursor.
    pub pos: Pos,
    /// The byte width of the rune read last; 0 at the end of input.
    pub width: Pos,
    /// Where the token handed out last starts.
    pub last_pos: Pos,
    /// How many parentheses are open in the action.
    pub paren_depth: usize,
    /// The tokens produced so far.
    pub items: Channel,
}

impl Lexer {
    /// The bytes of the input.
    pub open spec fn bytes(&self) -> Seq<u8> {
        self.input.spec_bytes()
    }

    /// What this lexer lexes.
    pub open spec fn src(&self) -> Source {
        Source {
            input: self.input.spec_bytes(),
            left: self.left_delim.spec_bytes(),
            right: self.right_delim.spec_bytes(),
        }
    }

    /// Where this lexer stands.
    pub open spec fn mark(&self) -> Mark {
        Mark { start: self.start as int, pos: self.pos as int, depth: self.paren_depth as int }
    }

    /// The tokens produced so far.
    pub open spec fn tokens(&self) -> Seq<ItemView> {
        self.items.tokens()
    }

    /// The delimiters are not empty, the input's length fits in `usize`, the marks are in order
    /// and on boundaries, and every token starts in the input.
    pub open spec fn wf(&self) -> bool {
        &&& self.left_delim.spec_bytes().len() > 0
        &&& self.right_delim.spec_bytes().len() > 0
        &&& mark_ok(self.src(), self.mark())
        &&& self.items.wf()
        &&& self.bytes().len() <= usize::MAX
        &&& self.last_pos <= self.bytes().len()
        &&& forall|i: int|
            0 <= i < self.items.items@.len() ==> (#[trigger] self.items.items@[i]).pos
                <= self.bytes().len()
    }

    /// The last rune read can be given back.
    pub open spec fn can_backup(&self) -> bool {
        &&& self.start + self.width <= self.pos
        &&& self.paren_depth + self.width <= self.pos
        &&& boundary(self.bytes(), self.pos - self.width)
    }

    /// Nothing but the cursor and the width differs from `old`.
    pub open spec fn moved_from(&self, old: &Lexer) -> bool {
        *self == (Lexer { pos: self.pos, width: self.width, ..*old })
    }

    /// The input, the delimiters, the name and the consumer's side are those of `old`.
    pub open spec fn keeps(&self, old: &Lexer) -> bool {
        &&& self.name == old.name
        &&& self.input == old.input
        &&& self.left_delim == old.left_delim
        &&& self.right_delim == old.right_delim
        &&& self.last_pos == old.last_pos
        &&& self.items.index == old.items.index
    }

    /// This lexer is what the outcome `o` makes of `old`: it holds the tokens of `o`, and
    /// stands where `o` leads unless `o` halts.
    pub open spec fn follows(&self, old: &Lexer, o: Outcome, next: Option<State>) -> bool {
        &&& self.wf()
        &&& self.keeps(old)
        &&& match o {
            Outcome::Halt(out) => next is None && self.tokens() =~= old.tokens() + out,
            Outcome::Go(n, m, out) => next == Some(n) && self.mark() == m && self.tokens()
                =~= old.tokens() + out,
        }
    }

    /// This lexer is what state `st` makes of `old`.
    pub open spec fn stepped(&self, old: &Lexer, st: State, next: Option<State>) -> bool {
        self.follows(old, step(old.src(), st, old.mark()), next)
    }

    /// This lexer is what a run makes of `old`: it holds, after the tokens of `old`, the
    /// tokens that the text state produces from where `old` stands.
    pub open spec fn ran_from(&self, old: &Lexer) -> bool {
        &&& self.wf()
        &&& self.keeps(old)
        &&& self.tokens() == old.tokens() + lex_from(old.src(), State::Text, old.mark())
    }

    /// A well-formed lexer lexes well-formed UTF-8.
    pub proof fn lemma_src_wf(&self)
        requires
            self.wf(),
        ensures
            self.src().wf(),
    {
        vstd::utf8::encode_utf8_valid_utf8(self.input@);
        vstd::utf8::encode_utf8_valid_utf8(self.left_delim@);
        vstd::utf8::encode_utf8_valid_utf8(self.right_delim@);
    }

    /// Reads the rune at the cursor and steps over it. At the end of input there is none,
    /// and the cursor stays.
    pub fn next(&mut self) -> (r: Option<char>)
        requires
            old(self).wf(),
        ensures
            final(self).wf(),
            final(self).moved_from(old(self)),
            r == rune_at(old(self).bytes(), old(self).pos as int),
            final(self).width == rune_width(old(self).bytes(), old(self).pos as int),
            final(self).pos == old(self).pos + final(self).width,
            final(self).can_backup(),
    {
        let length = self.input.as_bytes().len();
        if self.pos >= length {
            self.width = 0;
            return None;
        }
        proof {
            self.lemma_src_wf();
            lemma_rune_step(self.bytes(), self.pos as int);
        }
        let ghost w = rune_width(self.bytes(), self.pos as int);
        let mut i: usize = 1;
        while !is_char_boundary(self.input, self.pos + i)
            invariant
                *self == *old(self),
                1 <= i <= w,
                self.pos + w <= self.bytes().len() <= usize::MAX,
                boundary(self.bytes(), self.pos + w),
            decreases w - i,
        {
            i = i + 1;
        }
        let c = rune_of(self.input, self.pos);
        self.width = i;
        self.pos = self.pos + i;
        Some(c)
    }

    /// Steps back over the rune read last.
    pub fn backup(&mut self)
        requires
            old(self).wf(),
            old(self).can_backup(),
        ensures
            final(self).wf(),
            final(self).moved_from(old(self)),
            final(self).width == old(self).width,
            final(self).pos == old(self).pos - old(self).width,
    {
        self.pos = self.pos - self.width;
    }

    /// Reads the rune at the cursor and leaves the cursor where it is.
    pub fn peek(&mut self) -> (r: Option<char>)
        requires
            old(self).wf(),
        ensures
            final(self).wf(),
            final(self).moved_from(old(self)),
            r == rune_at(old(self).bytes(), old(self).pos as int),
            final(self).width == rune_width(old(self).bytes(), old(self).pos as int),
            final(self).pos == old(self).pos,
    {
        let r = self.next();
        self.backup();
        r
    }

    /// Hands the pending span to the consumer as a token of kind `t`; the next token
    /// starts at the cursor.
    pub fn emit(&mut self, t: ItemType)
        requires
            old(self).wf(),
        ensures
            final(self).wf(),
            final(self).keeps(old(self)),
            final(self).start == old(self).pos,
            final(self).pos == old(self).pos,
            final(self).width == old(self).width,
            final(self).paren_depth == old(self).paren_depth,
            final(self).tokens() == old(self).tokens().push(
                token(old(self).src(), t, old(self).start as int, old(self).pos as int),
            ),
    {
        let val = slice_of(self.input, self.start, self.pos).to_owned();
        let item = Item { typ: t, pos: self.start, val };
        self.items.push(item);
        self.start = self.pos;
    }

    /// Hands the consumer an error token at the start of the pending span.
    pub fn errorf(&mut self, error: String)
        requires
            old(self).wf(),
        ensures
            final(self).wf(),
            final(self).keeps(old(self)),
            final(self).mark() == old(self).mark(),
            final(self).width == old(self).width,
            final(self).tokens() == old(self).tokens().push(fault(old(self).start as int, error@)),
    {
        let item = Item { typ: ItemType::ItemError, pos: self.start, val: error };
        self.items.push(item);
    }

    /// Drops the pending span: the next token starts at the cursor.
    pub fn ignore(&mut self)
        requires
            old(self).wf(),
        ensures
            final(self).wf(),
            *final(self) == (Lexer { start: old(self).pos, ..*old(self) }),
    {
        self.start = self.pos;
    }

    /// Steps over the rune at the cursor if it is one of `valid`, and tells whether it did.
    pub fn accept(&mut self, valid: &str) -> (r: bool)
        requires
            old(self).wf(),
        ensures
            final(self).wf(),
            final(self).moved_from(old(self)),
            r == accepts(old(self).bytes(), old(self).pos as int, Class::In(valid@)),
            final(self).pos == accept_end(old(self).bytes(), old(self).pos as int, Class::In(valid@)),
            final(self).width == rune_width(old(self).bytes(), old(self).pos as int),
    {
        match self.next() {
            None => {
                self.backup();
                false
            },
            Some(r) => {
                if contains_char(valid, r) {
                    true
                } else {
                    self.backup();
                    false
                }
            },
        }
    }

    /// Steps over the runes at the cursor for as long as they are among `valid`.
    pub fn accept_run(&mut self, valid: &str)
        requires
            old(self).wf(),
        ensures
            final(self).wf(),
            final(self).moved_from(old(self)),
            final(self).pos == run_end(old(self).bytes(), old(self).pos as int, Class::In(valid@)),
            final(self).width == rune_width(old(self).bytes(), final(self).pos as int),
    {
        loop
            invariant_except_break
                self.wf(),
                self.moved_from(old(self)),
                run_end(self.bytes(), self.pos as int, Class::In(valid@)) == run_end(
                    old(self).bytes(),
                    old(self).pos as int,
                    Class::In(valid@),
                ),
            ensures
                self.wf(),
                self.moved_from(old(self)),
                self.can_backup(),
                self.pos - self.width == run_end(
                    old(self).bytes(),
                    old(self).pos as int,
                    Class::In(valid@),
                ),
                self.width == rune_width(self.bytes(), self.pos - self.width),
            decreases self.bytes().len() - self.pos,
        {
            proof {
                lemma_rune_width_range(self.bytes(), self.pos as int);
            }
            match self.next() {
                None => {
                    break ;
                },
                Some(r) => {
                    if !contains_char(valid, r) {
                        break ;
                    }
                },
            }
        }
        self.backup();
    }

    /// Tells whether the rune at the cursor may follow a field, a variable or an identifier.
    pub fn at_terminator(&mut self) -> (r: bool)
        requires
            old(self).wf(),
        ensures
            final(self).wf(),
            final(self).moved_from(old(self)),
            final(self).pos == old(self).pos,
            final(self).width == rune_width(old(self).bytes(), old(self).pos as int),
            r == terminator(old(self).src(), old(self).pos as int),
    {
        match self.peek() {
            None => true,
            Some(c) => {
                if is_space(c) || is_end_of_line(c) {
                    true
                } else if c == '.' || c == ',' || c == '|' || c == ':' || c == ')' || c == '(' {
                    true
                } else {
                    proof {
                        self.lemma_src_wf();
                        vstd::utf8::is_char_boundary_start_end_of_seq(self.right_delim.spec_bytes());
                        lemma_boundary_agrees(self.right_delim.spec_bytes(), 0);
                    }
                    rune_of(self.right_delim, 0) == c
                }
            },
        }
    }

    /// Scans a numeric literal from the cursor and tells whether it is well formed. The
    /// cursor stops after the literal, or after the rune that spoils it.
    pub fn scan_number(&mut self) -> (r: bool)
        requires
            old(self).wf(),
        ensures
            final(self).wf(),
            final(self).moved_from(old(self)),
            r == number_ok(old(self).bytes(), old(self).pos as int),
            final(self).pos == number_stop(old(self).bytes(), old(self).pos as int),
            final(self).width == rune_width(
                old(self).bytes(),
                number_end(old(self).bytes(), old(self).pos as int),
            ),
    {
        self.accept("+-");
        let mut digits = "0123456789";
        if self.accept("0") && self.accept("xX") {
            digits = "0123456789abcdefABCDEF";
        }
        self.accept_run(digits);
        if self.accept(".") {
            self.accept_run(digits);
        }
        if self.accept("eE") {
            self.accept("+-");
            self.accept_run("0123456789");
        }
        self.accept("i");
        if is_alphanumeric(self.peek()) {
            self.next();
            return false;
        }
        true
    }

    /// The number of the line on which the token handed out last starts: one more than the
    /// line feeds before it.
    pub fn line_number(&self) -> (r: usize)
        requires
            self.wf(),
            self.last_pos < usize::MAX,
        ensures
            r == 1 + newlines(self.bytes(), self.last_pos as int),
    {
        let bytes = self.input.as_bytes();
        let mut count: usize = 0;
        let mut i: usize = 0;
        while i < self.last_pos
            invariant
                bytes@ == self.bytes(),
                i <= self.last_pos <= bytes@.len(),
                count <= i,
                count == newlines(bytes@, i as int),
            decreases self.last_pos - i,
        {
            if bytes[i] == 0x0a {
                count = count + 1;
            }
            i = i + 1;
        }
        1 + count
    }

    /// Hands out the next token, if one is left, and remembers where it starts.
    pub fn next_item(&mut self) -> (r: Option<Rc<Item>>)
        requires
            old(self).wf(),
        ensures
            final(self).wf(),
            final(self).items.items == old(self).items.items,
            old(self).items.pending() > 0 ==> r == Some(
                old(self).items.items@[old(self).items.index as int],
            ) && final(self).items.index == old(self).items.index + 1 && final(self).last_pos
                == r->0.pos,
            old(self).items.pending() <= 0 ==> r is None && final(self).items.index == old(
                self,
            ).items.index && final(self).last_pos == old(self).last_pos,
            *final(self) == (Lexer {
                last_pos: final(self).last_pos,
                items: final(self).items,
                ..*old(self)
            }),
    {
        let item = self.items.next();
        match item {
            None => None,
            Some(em) => {
                self.last_pos = em.pos;
                Some(em)
            },
        }
    }

    /// Skips the tokens that are left.
    pub fn drain(&mut self)
        requires
            old(self).wf(),
        ensures
            final(self).wf(),
            final(self).items.items == old(self).items.items,
            final(self).items.index == old(self).items.items@.len(),
            *final(self) == (Lexer { items: final(self).items, ..*old(self) }),
    {
        loop
            invariant_except_break
                self.wf(),
                self.items.items == old(self).items.items,
                *self == (Lexer { items: self.items, ..*old(self) }),
            ensures
                self.wf(),
                self.items.items == old(self).items.items,
                self.items.index == old(self).items.items@.len(),
                *self == (Lexer { items: self.items, ..*old(self) }),
            decreases self.items.pending(),
        {
            match self.items.next() {
                None => {
                    break ;
                },
                _ => {},
            }
        }
    }

    /// Runs the state machine from the text state at the cursor until it halts, and queues
    /// the tokens it produces.
    pub fn run(&mut self)
        requires
            old(self).wf(),
        ensures
            final(self).ran_from(old(self)),
    {
        let mut state = State::Text;
        proof {
            self.lemma_src_wf();
            assert(self.tokens() + lex_from(self.src(), state, self.mark()) =~= old(self).tokens()
                + lex_from(old(self).src(), State::Text, old(self).mark()));
        }
        loop
            invariant_except_break
                self.wf(),
                self.keeps(old(self)),
                self.src() == old(self).src(),
                self.src().wf(),
                state_ok(self.src(), state, self.mark()),
                self.tokens() + lex_from(self.src(), state, self.mark()) == old(self).tokens()
                    + lex_from(old(self).src(), State::Text, old(self).mark()),
            ensures
                self.wf(),
                self.keeps(old(self)),
                self.tokens() == old(self).tokens() + lex_from(
                    old(self).src(),
                    State::Text,
                    old(self).mark(),
                ),
            decreases remaining(self.bytes(), self.pos as int), state_rank(state),
        {
            let ghost before = *self;
            proof {
                lemma_step_progress(self.src(), state, self.mark());
            }
            let st = self.scan(state);
            proof {
                match step(before.src(), state, before.mark()) {
                    Outcome::Halt(out) => {
                        assert(self.tokens() =~= before.tokens() + out);
                    },
                    Outcome::Go(n, m, out) => {
                        assert(self.tokens() + lex_from(self.src(), n, m) =~= before.tokens() + (out
                            + lex_from(before.src(), n, m)));
                    },
                }
            }
            match st {
                None => {
                    break ;
                },
                Some(next) => {
                    state = next;
                },
            }
        }
    }
}

/// The marker that opens an action where none is given.
pub fn default_left() -> (r: &'static str)
    ensures
        r@ == "{{"@,
        r.spec_bytes().len() == 2,
{
    let r = "{{";
    proof {
        reveal_strlit("{{");
        vstd::utf8::is_ascii_chars_encode_utf8(r@);
    }
    r
}

/// The marker that closes an action where none is given.
pub fn default_right() -> (r: &'static str)
    ensures
        r@ == "}}"@,
        r.spec_bytes().len() == 2,
{
    let r = "}}";
    proof {
        reveal_strlit("}}");
        vstd::utf8::is_ascii_chars_encode_utf8(r@);
    }
    r
}

/// Text that is not empty has bytes.
pub proof fn lemma_bytes_of_text(chars: Seq<char>)
    ensures
        (encode_utf8(chars).len() == 0) == (chars.len() == 0),
{
    if chars.len() > 0 {
        vstd::utf8::encode_utf8_first_scalar(chars);
    }
}

/// Makes a lexer for `input`. An empty `left` or `right` stands for `{{` or `}}`.
pub fn lex(name: &'static str, input: &'static str, left: &'static str, right: &'static str) -> (l:
    Lexer)
    ensures
        l.wf(),
        l.name == name,
        l.input == input,
        l.left_delim@ == (if left@.len() == 0 {
            "{{"@
        } else {
            left@
        }),
        l.right_delim@ == (if right@.len() == 0 {
            "}}"@
        } else {
            right@
        }),
        left@.len() > 0 ==> l.left_delim == left,
        right@.len() > 0 ==> l.right_delim == right,
        l.start == 0,
        l.pos == 0,
        l.width == 0,
        l.last_pos == 0,
        l.paren_depth == 0,
        l.items.index == 0,
        l.items.items@.len() == 0,
{
    let mut leftdelim = left;
    if left.is_empty() {
        leftdelim = default_left();
    }
    let mut rightdelim = right;
    if right.is_empty() {
        rightdelim = default_right();
    }
    let length = input.as_bytes().len();
    proof {
        lemma_bytes_of_text(left@);
        lemma_bytes_of_text(right@);
        vstd::utf8::encode_utf8_valid_utf8(input@);
        vstd::utf8::is_char_boundary_start_end_of_seq(input.spec_bytes());
        lemma_boundary_agrees(input.spec_bytes(), 0);
    }
    let items: Vec<Rc<Item>> = Vec::new();
    let ch = Channel { index: 0, items };
    Lexer {
        name,
        input,
        left_delim: leftdelim,
        right_delim: rightdelim,
        start: 0,
        pos: 0,
        width: 0,
        last_pos: 0,
        paren_depth: 0,
        items: ch,
    }
}

} // verus!
