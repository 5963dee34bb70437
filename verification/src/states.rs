//! The states of the lexer, one function each.

use crate::chars::{is_alphanumeric, is_digit, is_end_of_line, is_print, is_space};
use crate::grammar::{
    comment_close, comment_open, field_or_variable_step, keyword, msg_bad_number, quote_end,
    run_end, Class,
};
use crate::lexer::{same_text, slice_of, Lexer};
use crate::machine::{
    lemma_ascii_rune_width, lemma_number_end, lemma_run_end, lemma_step_progress, state_ok,
};
use crate::runes::{
    boundary, find_bytes, find_from, has_prefix_at, lemma_find_from, lemma_find_from_skip,
    lemma_match_is_at_boundary, lemma_rune_ascii, lemma_rune_step, lemma_rune_width_range,
    lemma_text_of_rune, rune_at, rune_width, starts_with_at,
};
use crate::token::{ItemType, State};
use vstd::prelude::*;
use vstd::string::StrSliceExecFns;
use vstd::string::StringExecFns;
use vstd::string::StringSliceAdditionalSpecFns;

verus! {

/// The marker that opens a comment.
pub fn left_comment() -> (r: &'static str)
    ensures
        r.spec_bytes() == comment_open(),
{
    let r = "/*";
    proof {
        reveal_strlit("/*");
        vstd::utf8::is_ascii_chars_encode_utf8(r@);
        assert(r.spec_bytes() =~= comment_open());
    }
    r
}

/// The marker that closes a comment.
pub fn right_comment() -> (r: &'static str)
    ensures
        r.spec_bytes() == comment_close(),
{
    let r = "*/";
    proof {
        reveal_strlit("*/");
        vstd::utf8::is_ascii_chars_encode_utf8(r@);
        assert(r.spec_bytes() =~= comment_close());
    }
    r
}

/// The reserved word that `key` spells, if any.
pub fn is_keyword(key: &str) -> (r: Option<ItemType>)
    ensures
        r == keyword(key@),
{
    if same_text(key, ".") {
        Some(ItemType::ItemDot)
    } else if same_text(key, "define") {
        Some(ItemType::ItemDefine)
    } else if same_text(key, "else") {
        Some(ItemType::ItemElse)
    } else if same_text(key, "if") {
        Some(ItemType::ItemIf)
    } else if same_text(key, "range") {
        Some(ItemType::ItemRange)
    } else if same_text(key, "nil") {
        Some(ItemType::ItemNil)
    } else if same_text(key, "template") {
        Some(ItemType::ItemTemplate)
    } else if same_text(key, "with") {
        Some(ItemType::ItemWith)
    } else if same_text(key, "end") {
        Some(ItemType::ItemEnd)
    } else {
        None
    }
}

/// A field or a variable whose `.` or `$` has been read.
pub fn state_field_or_variable(l: &mut Lexer, typ: ItemType) -> (next: Option<State>)
    requires
        old(l).wf(),
    ensures
        final(l).follows(old(l), field_or_variable_step(old(l).src(), old(l).mark(), typ), next),
{
    if l.at_terminator() {
        if typ == ItemType::ItemVariable {
            l.emit(ItemType::ItemVariable);
        } else {
            l.emit(ItemType::ItemDot);
        }
        return Some(State::InsideAction);
    }
    l.skip_word();
    if !l.at_terminator() {
        proof {
            l.lemma_src_wf();
            lemma_rune_step(l.bytes(), l.pos as int);
        }
        let msg = l.rune_message("bad character ", l.pos, l.pos + l.width);
        l.errorf(msg);
        return None;
    }
    l.emit(typ);
    Some(State::InsideAction)
}

impl Lexer {
    /// Steps over the letters, digits and underscores at the cursor.
    pub fn skip_word(&mut self)
        requires
            old(self).wf(),
        ensures
            final(self).wf(),
            final(self).moved_from(old(self)),
            final(self).pos == run_end(old(self).bytes(), old(self).pos as int, Class::Word),
    {
        loop
            invariant_except_break
                self.wf(),
                self.moved_from(old(self)),
                run_end(self.bytes(), self.pos as int, Class::Word) == run_end(
                    self.bytes(),
                    old(self).pos as int,
                    Class::Word,
                ),
            ensures
                self.wf(),
                self.moved_from(old(self)),
                self.pos == run_end(self.bytes(), old(self).pos as int, Class::Word),
            decreases self.bytes().len() - self.pos,
        {
            proof {
                lemma_rune_width_range(self.bytes(), self.pos as int);
            }
            let r = self.next();
            if !is_alphanumeric(r) {
                self.backup();
                break ;
            }
        }
    }

    /// The message `prefix` followed by the rune between `from` and `to`.
    pub fn rune_message(&self, prefix: &str, from: usize, to: usize) -> (r: String)
        requires
            self.wf(),
            from < self.bytes().len(),
            boundary(self.bytes(), from as int),
            to == from + rune_width(self.bytes(), from as int),
        ensures
            r@ == prefix@.push(rune_at(self.bytes(), from as int)->0),
    {
        proof {
            self.lemma_src_wf();
            lemma_rune_step(self.bytes(), from as int);
            lemma_text_of_rune(self.bytes(), from as int);
        }
        let mut s = String::from_str(prefix);
        s.append(slice_of(self.input, from, to));
        proof {
            assert(s@ =~= prefix@.push(rune_at(self.bytes(), from as int)->0));
        }
        s
    }

    /// The message that quotes the malformed number between the start mark and the cursor.
    pub fn number_message(&self) -> (r: String)
        requires
            self.wf(),
        ensures
            r@ == msg_bad_number(self.src(), self.start as int, self.pos as int),
    {
        let mut s = String::from_str("bad number syntax: \"");
        s.append(slice_of(self.input, self.start, self.pos));
        s.append("\"");
        s
    }

    /// Text: up to the next left delimiter, or to the end of input.
    pub fn lex_text(&mut self) -> (next: Option<State>)
        requires
            old(self).wf(),
            state_ok(old(self).src(), State::Text, old(self).mark()),
        ensures
            final(self).stepped(old(self), State::Text, next),
    {
        let bytes = self.input.as_bytes();
        let left = self.left_delim.as_bytes();
        proof {
            self.lemma_src_wf();
            lemma_find_from(bytes@, self.pos as int, left@);
        }
        loop
            invariant_except_break
                self.wf(),
                self.moved_from(old(self)),
                bytes@ == self.bytes(),
                left@ == self.src().left,
                self.src().wf(),
                find_from(bytes@, self.pos as int, left@) == find_from(
                    bytes@,
                    old(self).pos as int,
                    left@,
                ),
            ensures
                self.wf(),
                self.moved_from(old(self)),
                self.pos == bytes@.len(),
                find_from(bytes@, old(self).pos as int, left@) == bytes@.len(),
            decreases bytes@.len() - self.pos,
        {
            if has_prefix_at(bytes, self.pos, left) {
                if self.pos > self.start {
                    self.emit(ItemType::ItemText);
                }
                return Some(State::LeftDelim);
            }
            proof {
                let p = self.pos as int;
                lemma_rune_width_range(bytes@, p);
                if p < bytes@.len() {
                    lemma_rune_step(bytes@, p);
                    let w = rune_width(bytes@, p);
                    assert forall|j: int| p <= j < p + w implies !starts_with_at(
                        bytes@,
                        j,
                        left@,
                    ) by {
                        if j > p && starts_with_at(bytes@, j, left@) {
                            lemma_match_is_at_boundary(bytes@, j, left@);
                        }
                    }
                    lemma_find_from_skip(bytes@, p, p + w, left@);
                }
            }
            match self.next() {
                None => {
                    break ;
                },
                _ => {},
            }
        }
        if self.pos > self.start {
            self.emit(ItemType::ItemText);
        }
        self.emit(ItemType::ItemEOF);
        None
    }

    /// The left delimiter: it opens a comment or an action.
    pub fn lex_left_delim(&mut self) -> (next: Option<State>)
        requires
            old(self).wf(),
            state_ok(old(self).src(), State::LeftDelim, old(self).mark()),
        ensures
            final(self).stepped(old(self), State::LeftDelim, next),
    {
        proof {
            self.lemma_src_wf();
            lemma_step_progress(self.src(), State::LeftDelim, self.mark());
        }
        let bytes = self.input.as_bytes();
        self.pos = self.pos + self.left_delim.as_bytes().len();
        if has_prefix_at(bytes, self.pos, left_comment().as_bytes()) {
            return Some(State::Comment);
        }
        self.emit(ItemType::ItemLeftDelim);
        self.paren_depth = 0;
        Some(State::InsideAction)
    }

    /// The right delimiter: it closes an action.
    pub fn lex_right_delim(&mut self) -> (next: Option<State>)
        requires
            old(self).wf(),
            state_ok(old(self).src(), State::RightDelim, old(self).mark()),
        ensures
            final(self).stepped(old(self), State::RightDelim, next),
    {
        proof {
            self.lemma_src_wf();
            lemma_step_progress(self.src(), State::RightDelim, self.mark());
        }
        self.pos = self.pos + self.right_delim.as_bytes().len();
        self.emit(ItemType::ItemRightDelim);
        Some(State::Text)
    }

    /// A comment: it must be closed, and the right delimiter must follow the close at once.
    pub fn lex_comment(&mut self) -> (next: Option<State>)
        requires
            old(self).wf(),
            state_ok(old(self).src(), State::Comment, old(self).mark()),
        ensures
            final(self).stepped(old(self), State::Comment, next),
    {
        proof {
            self.lemma_src_wf();
            lemma_step_progress(self.src(), State::Comment, self.mark());
        }
        let bytes = self.input.as_bytes();
        let from = self.pos + left_comment().as_bytes().len();
        proof {
            lemma_find_from(bytes@, from as int, comment_close());
        }
        match find_bytes(bytes, from, right_comment().as_bytes()) {
            None => {
                self.errorf(String::from_str("unclosed comment"));
                None
            },
            Some(i) => {
                let close = i + right_comment().as_bytes().len();
                if !has_prefix_at(bytes, close, self.right_delim.as_bytes()) {
                    self.errorf(String::from_str("comment ends before closing delimiter"));
                    return None;
                }
                self.pos = close + self.right_delim.as_bytes().len();
                self.ignore();
                Some(State::Text)
            },
        }
    }

    /// A run of blanks.
    pub fn lex_space(&mut self) -> (next: Option<State>)
        requires
            old(self).wf(),
            state_ok(old(self).src(), State::Space, old(self).mark()),
        ensures
            final(self).stepped(old(self), State::Space, next),
    {
        loop
            invariant_except_break
                self.wf(),
                self.moved_from(old(self)),
                run_end(self.bytes(), self.pos as int, Class::Space) == run_end(
                    self.bytes(),
                    old(self).pos as int,
                    Class::Space,
                ),
            ensures
                self.wf(),
                self.moved_from(old(self)),
                self.pos == run_end(self.bytes(), old(self).pos as int, Class::Space),
            decreases self.bytes().len() - self.pos,
        {
            proof {
                lemma_rune_width_range(self.bytes(), self.pos as int);
            }
            match self.peek() {
                Some(r) => {
                    if is_space(r) {
                        self.next();
                    } else {
                        break ;
                    }
                },
                _ => {
                    break ;
                },
            }
        }
        self.emit(ItemType::ItemSpace);
        Some(State::InsideAction)
    }

    /// A quoted literal whose opening quote `q` has been read. It becomes a token of kind
    /// `typ`, or the fault `msg` if it is not closed.
    pub fn lex_quoted(&mut self, q: char, typ: ItemType, msg: &str) -> (next: Option<State>)
        requires
            old(self).wf(),
        ensures
            final(self).wf(),
            final(self).keeps(old(self)),
            match quote_end(old(self).bytes(), old(self).pos as int, q) {
                None => next is None && final(self).tokens() == old(self).tokens().push(
                    crate::grammar::fault(old(self).start as int, msg@),
                ),
                Some(e) => next == Some(State::InsideAction) && final(self).mark()
                    == crate::grammar::after(e, old(self).paren_depth as int) && final(self).tokens()
                    == old(self).tokens().push(
                    crate::grammar::token(old(self).src(), typ, old(self).start as int, e),
                ),
            },
    {
        loop
            invariant_except_break
                self.wf(),
                self.moved_from(old(self)),
                quote_end(self.bytes(), self.pos as int, q) == quote_end(
                    self.bytes(),
                    old(self).pos as int,
                    q,
                ),
            ensures
                self.wf(),
                self.moved_from(old(self)),
                quote_end(self.bytes(), old(self).pos as int, q) == Some(self.pos as int),
            decreases self.bytes().len() - self.pos,
        {
            proof {
                lemma_rune_width_range(self.bytes(), self.pos as int);
            }
            match self.next() {
                None => {
                    self.errorf(String::from_str(msg));
                    return None;
                },
                Some(c) => {
                    if c == '\\' {
                        let r = self.next();
                        let escaped = match r {
                            Some(x) => x != '\n',
                            None => false,
                        };
                        if !escaped {
                            self.errorf(String::from_str(msg));
                            return None;
                        }
                    } else if c == '\n' {
                        self.errorf(String::from_str(msg));
                        return None;
                    } else if c == q {
                        break ;
                    }
                },
            }
        }
        self.emit(typ);
        Some(State::InsideAction)
    }

    /// A string in double quotes.
    pub fn lex_quote(&mut self) -> (next: Option<State>)
        requires
            old(self).wf(),
            state_ok(old(self).src(), State::Quote, old(self).mark()),
        ensures
            final(self).stepped(old(self), State::Quote, next),
    {
        self.lex_quoted('"', ItemType::ItemString, "unterminated quoted string")
    }

    /// A character constant in single quotes.
    pub fn lex_char(&mut self) -> (next: Option<State>)
        requires
            old(self).wf(),
            state_ok(old(self).src(), State::Char, old(self).mark()),
        ensures
            final(self).stepped(old(self), State::Char, next),
    {
        self.lex_quoted('\'', ItemType::ItemCharConstant, "unterminated character constant")
    }

    /// A variable whose `$` has been read.
    pub fn lex_variable(&mut self) -> (next: Option<State>)
        requires
            old(self).wf(),
            state_ok(old(self).src(), State::Variable, old(self).mark()),
        ensures
            final(self).stepped(old(self), State::Variable, next),
    {
        state_field_or_variable(self, ItemType::ItemVariable)
    }

    /// A field whose `.` has been read.
    pub fn lex_field(&mut self) -> (next: Option<State>)
        requires
            old(self).wf(),
            state_ok(old(self).src(), State::Field, old(self).mark()),
        ensures
            final(self).stepped(old(self), State::Field, next),
    {
        state_field_or_variable(self, ItemType::ItemField)
    }

    /// A number, or the two parts of a complex constant.
    pub fn lex_number(&mut self) -> (next: Option<State>)
        requires
            old(self).wf(),
            state_ok(old(self).src(), State::Number, old(self).mark()),
        ensures
            final(self).stepped(old(self), State::Number, next),
    {
        proof {
            self.lemma_src_wf();
        }
        if !self.scan_number() {
            let msg = self.number_message();
            self.errorf(msg);
            return None;
        }
        let signed = match self.peek() {
            Some(sign) => sign == '+' || sign == '-',
            None => false,
        };
        if signed {
            proof {
                lemma_number_end(self.bytes(), self.pos as int);
            }
            let ok = self.scan_number();
            if !ok || self.input.as_bytes()[self.pos - 1] != 0x69 {
                let msg = self.number_message();
                self.errorf(msg);
                return None;
            }
            self.emit(ItemType::ItemComplex);
        } else {
            self.emit(ItemType::ItemNumber);
        }
        Some(State::InsideAction)
    }

    /// A word: a boolean, a reserved word or an identifier.
    pub fn lex_identifier(&mut self) -> (next: Option<State>)
        requires
            old(self).wf(),
            state_ok(old(self).src(), State::Identifier, old(self).mark()),
        ensures
            final(self).stepped(old(self), State::Identifier, next),
    {
        self.skip_word();
        if !self.at_terminator() {
            proof {
                self.lemma_src_wf();
                lemma_rune_step(self.bytes(), self.pos as int);
            }
            let msg = self.rune_message("bad character ", self.pos, self.pos + self.width);
            self.errorf(msg);
            return None;
        }
        let word = slice_of(self.input, self.start, self.pos);
        if word.unicode_len() > 0 && word.get_char(0) == '.' {
            self.emit(ItemType::ItemField);
        } else if same_text(word, "true") || same_text(word, "false") {
            self.emit(ItemType::ItemBool);
        } else {
            match is_keyword(word) {
                None => self.emit(ItemType::ItemIdentifier),
                Some(k) => {
                    if k.is_reserved() {
                        self.emit(k);
                    } else {
                        self.emit(ItemType::ItemIdentifier);
                    }
                },
            }
        }
        Some(State::InsideAction)
    }

    /// Inside an action: the right delimiter, or the start of the next token.
    #[verifier::rlimit(40)]
    pub fn lex_inside_action(&mut self) -> (next: Option<State>)
        requires
            old(self).wf(),
            state_ok(old(self).src(), State::InsideAction, old(self).mark()),
        ensures
            final(self).stepped(old(self), State::InsideAction, next),
    {
        proof {
            self.lemma_src_wf();
        }
        let bytes = self.input.as_bytes();
        if has_prefix_at(bytes, self.pos, self.right_delim.as_bytes()) {
            if self.paren_depth == 0 {
                return Some(State::RightDelim);
            }
            self.errorf(String::from_str("unclosed left paren"));
            return None;
        }
        let r = match self.next() {
            None => {
                self.errorf(String::from_str("unclosed action"));
                return None;
            },
            Some(r) => r,
        };
        proof {
            lemma_rune_step(self.bytes(), old(self).pos as int);
        }
        if is_end_of_line(r) {
            self.errorf(String::from_str("unclosed action"));
            return None;
        } else if is_space(r) {
            return Some(State::Space);
        } else if r == ':' {
            proof {
                if rune_at(self.bytes(), self.pos as int) == Some('=') {
                    lemma_ascii_rune_width(self.bytes(), self.pos as int);
                }
            }
            let assign = match self.next() {
                Some(c) => c == '=',
                None => false,
            };
            if !assign {
                self.errorf(String::from_str("expected :="));
                return None;
            }
            self.emit(ItemType::ItemColonEquals);
        } else if r == '|' {
            self.emit(ItemType::ItemPipe);
        } else if r == '"' {
            return Some(State::Quote);
        } else if r == '`' {
            return Some(State::RawQuote);
        } else if r == '$' {
            return Some(State::Variable);
        } else if r == '\'' {
            return Some(State::Char);
        } else if r == '.' {
            if self.pos < bytes.len() {
                let d = bytes[self.pos];
                proof {
                    lemma_rune_ascii(self.bytes(), self.pos as int);
                }
                if d < 0x30 || 0x39 < d {
                    return Some(State::Field);
                }
            }
            self.backup();
            return Some(State::Number);
        } else if r == '+' || r == '-' || is_digit(r) {
            self.backup();
            return Some(State::Number);
        } else if r == '(' {
            self.emit(ItemType::ItemLeftParen);
            self.paren_depth = self.paren_depth + 1;
        } else if r == ')' {
            self.emit(ItemType::ItemRightParen);
            if self.paren_depth == 0 {
                self.errorf(String::from_str("unexpected right paren ')'"));
                return None;
            }
            self.paren_depth = self.paren_depth - 1;
        } else if is_alphanumeric(Some(r)) {
            self.backup();
            return Some(State::Identifier);
        } else if r < '\u{7f}' && is_print(r) {
            self.emit(ItemType::ItemChar);
            return Some(State::InsideAction);
        } else {
            let msg = self.rune_message(
                "unrecognized character in action: ",
                self.pos - self.width,
                self.pos,
            );
            self.errorf(msg);
            return None;
        }
        Some(State::InsideAction)
    }

    /// Runs state `st` once.
    pub fn scan(&mut self, st: State) -> (next: Option<State>)
        requires
            old(self).wf(),
            state_ok(old(self).src(), st, old(self).mark()),
        ensures
            final(self).stepped(old(self), st, next),
    {
        match st {
            State::Text => self.lex_text(),
            State::LeftDelim => self.lex_left_delim(),
            State::RightDelim => self.lex_right_delim(),
            State::Comment => self.lex_comment(),
            State::Space => self.lex_space(),
            State::InsideAction => self.lex_inside_action(),
            State::Quote => self.lex_quote(),
            State::RawQuote => self.lex_raw_quote(),
            State::Variable => self.lex_variable(),
            State::Char => self.lex_char(),
            State::Field => self.lex_field(),
            State::Number => self.lex_number(),
            State::Identifier => self.lex_identifier(),
        }
    }

    /// A raw string whose opening back quote has been read.
    pub fn lex_raw_quote(&mut self) -> (next: Option<State>)
        requires
            old(self).wf(),
            state_ok(old(self).src(), State::RawQuote, old(self).mark()),
        ensures
            final(self).stepped(old(self), State::RawQuote, next),
    {
        proof {
            self.lemma_src_wf();
            lemma_run_end(self.bytes(), self.pos as int, Class::Not('`'));
        }
        loop
            invariant_except_break
                self.wf(),
                self.moved_from(old(self)),
                self.src().wf(),
                run_end(self.bytes(), self.pos as int, Class::Not('`')) == run_end(
                    self.bytes(),
                    old(self).pos as int,
                    Class::Not('`'),
                ),
            ensures
                self.wf(),
                self.moved_from(old(self)),
                run_end(self.bytes(), old(self).pos as int, Class::Not('`')) < self.bytes().len(),
                self.pos == run_end(self.bytes(), old(self).pos as int, Class::Not('`')) + 1,
            decreases self.bytes().len() - self.pos,
        {
            proof {
                lemma_rune_width_range(self.bytes(), self.pos as int);
                if rune_at(self.bytes(), self.pos as int) == Some('`') {
                    lemma_ascii_rune_width(self.bytes(), self.pos as int);
                }
            }
            match self.next() {
                None => {
                    self.errorf(String::from_str("unterminated raw quoted string"));
                    return None;
                },
                Some(c) => {
                    if c == '`' {
                        break ;
                    }
                },
            }
        }
        self.emit(ItemType::ItemRawString);
        Some(State::InsideAction)
    }
}

} // verus!
