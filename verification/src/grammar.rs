//! The token grammar: what each state of the lexer does to the input, stated over
//! the bytes of the input and the two delimiters.

use crate::chars::{digit_char, end_of_line_char, print_char, space_char, word_char, word_rune};
use crate::runes::{find_from, rune_at, rune_width, starts_with_at, text};
use crate::token::{ItemType, ItemView, State};
use vstd::prelude::*;
use vstd::utf8::valid_utf8;

verus! {

/// What is lexed: the UTF-8 bytes of the input and of the two delimiters.
pub struct Source {
    pub input: Seq<u8>,
    pub left: Seq<u8>,
    pub right: Seq<u8>,
}

impl Source {
    /// All three are well-formed UTF-8 and neither delimiter is empty.
    pub open spec fn wf(self) -> bool {
        &&& valid_utf8(self.input)
        &&& valid_utf8(self.left)
        &&& valid_utf8(self.right)
        &&& self.left.len() > 0
        &&& self.right.len() > 0
    }
}

/// Where the lexer stands: the start of the pending token, the cursor, and how many
/// parentheses are open.
pub struct Mark {
    pub start: int,
    pub pos: int,
    pub depth: int,
}

/// What one state does: it halts with its last tokens, or goes on to the next state
/// from a new place with the tokens it emitted.
pub enum Outcome {
    Halt(Seq<ItemView>),
    Go(State, Mark, Seq<ItemView>),
}

/// A set of characters.
pub enum Class {
    /// Space and tab.
    Space,
    /// Underscore, letters and digits.
    Word,
    /// Every character but the given one.
    Not(char),
    /// The characters of the given text.
    In(Seq<char>),
}

impl Class {
    /// Whether `c` is in the set.
    pub open spec fn has(self, c: char) -> bool {
        match self {
            Class::Space => space_char(c),
            Class::Word => word_char(c),
            Class::Not(x) => c != x,
            Class::In(s) => s.contains(c),
        }
    }
}

/// The bytes that open a comment right after the left delimiter: `/*`.
pub open spec fn comment_open() -> Seq<u8> {
    seq![0x2fu8, 0x2au8]
}

/// The bytes that close a comment right before the right delimiter: `*/`.
pub open spec fn comment_close() -> Seq<u8> {
    seq![0x2au8, 0x2fu8]
}

/// How many bytes of `b` lie at or after `pos`.
pub open spec fn remaining(b: Seq<u8>, pos: int) -> nat {
    if 0 <= pos <= b.len() {
        (b.len() - pos) as nat
    } else {
        0
    }
}

/// The rune at `pos` exists and belongs to `cls`.
pub open spec fn accepts(b: Seq<u8>, pos: int, cls: Class) -> bool {
    rune_at(b, pos) is Some && cls.has(rune_at(b, pos)->0)
}

/// The position after the rune at `pos` if it belongs to `cls`, else `pos`.
pub open spec fn accept_end(b: Seq<u8>, pos: int, cls: Class) -> int {
    if accepts(b, pos, cls) {
        pos + rune_width(b, pos)
    } else {
        pos
    }
}

/// The end of the longest run of runes of `cls` that starts at `pos`.
pub open spec fn run_end(b: Seq<u8>, pos: int, cls: Class) -> int
    decreases remaining(b, pos),
{
    if accepts(b, pos, cls) {
        run_end(b, pos + rune_width(b, pos), cls)
    } else {
        pos
    }
}

/// The position after the closing quote `q` of a quoted literal whose body starts at `pos`.
/// A backslash takes the next rune with it unless that rune is a line feed; a line feed or the
/// end of input before the closing quote leaves the literal unterminated.
pub open spec fn quote_end(b: Seq<u8>, pos: int, q: char) -> Option<int>
    decreases remaining(b, pos),
{
    if rune_at(b, pos) is None {
        None
    } else {
        let c = rune_at(b, pos)->0;
        let p = pos + rune_width(b, pos);
        if c == '\\' {
            if rune_at(b, p) is Some && rune_at(b, p)->0 != '\n' {
                quote_end(b, p + rune_width(b, p), q)
            } else {
                None
            }
        } else if c == '\n' {
            None
        } else if c == q {
            Some(p)
        } else {
            quote_end(b, p, q)
        }
    }
}

/// The rune at `pos` may legally follow a field, a variable or an identifier: the end of
/// input, a blank, a line break, one of `. , | : ) (`, or the first rune of the right delimiter.
pub open spec fn terminator(src: Source, pos: int) -> bool {
    match rune_at(src.input, pos) {
        None => true,
        Some(c) => space_char(c) || end_of_line_char(c) || c == '.' || c == ',' || c == '|' || c
            == ':' || c == ')' || c == '(' || rune_at(src.right, 0) == Some(c),
    }
}

/// The end of the numeric literal that starts at `pos`: an optional sign, digits (hexadecimal
/// after `0x` or `0X`), an optional fraction, an optional exponent and an optional `i`.
pub open spec fn number_end(b: Seq<u8>, pos: int) -> int {
    let after_sign = accept_end(b, pos, Class::In("+-"@));
    let after_zero = accept_end(b, after_sign, Class::In("0"@));
    let hex = accepts(b, after_sign, Class::In("0"@)) && accepts(b, after_zero, Class::In("xX"@));
    let after_mark = if hex {
        accept_end(b, after_zero, Class::In("xX"@))
    } else {
        after_zero
    };
    let digits = if hex {
        "0123456789abcdefABCDEF"@
    } else {
        "0123456789"@
    };
    let after_digits = run_end(b, after_mark, Class::In(digits));
    let after_fraction = if accepts(b, after_digits, Class::In("."@)) {
        run_end(b, accept_end(b, after_digits, Class::In("."@)), Class::In(digits))
    } else {
        after_digits
    };
    let after_exponent = if accepts(b, after_fraction, Class::In("eE"@)) {
        run_end(
            b,
            accept_end(b, accept_end(b, after_fraction, Class::In("eE"@)), Class::In("+-"@)),
            Class::In("0123456789"@),
        )
    } else {
        after_fraction
    };
    accept_end(b, after_exponent, Class::In("i"@))
}

/// The numeric literal at `pos` is not followed at once by a letter, a digit or an underscore.
pub open spec fn number_ok(b: Seq<u8>, pos: int) -> bool {
    !word_rune(rune_at(b, number_end(b, pos)))
}

/// Where scanning a number from `pos` stops: at the end of the literal, or after the rune
/// that spoils it.
pub open spec fn number_stop(b: Seq<u8>, pos: int) -> int {
    let e = number_end(b, pos);
    if number_ok(b, pos) {
        e
    } else {
        e + rune_width(b, e)
    }
}

/// The reserved word that `word` spells, if any.
pub open spec fn keyword(word: Seq<char>) -> Option<ItemType> {
    if word == "."@ {
        Some(ItemType::ItemDot)
    } else if word == "define"@ {
        Some(ItemType::ItemDefine)
    } else if word == "else"@ {
        Some(ItemType::ItemElse)
    } else if word == "if"@ {
        Some(ItemType::ItemIf)
    } else if word == "range"@ {
        Some(ItemType::ItemRange)
    } else if word == "nil"@ {
        Some(ItemType::ItemNil)
    } else if word == "template"@ {
        Some(ItemType::ItemTemplate)
    } else if word == "with"@ {
        Some(ItemType::ItemWith)
    } else if word == "end"@ {
        Some(ItemType::ItemEnd)
    } else {
        None
    }
}

/// The kind of a word: a field if it starts with a dot, a boolean, a reserved word,
/// or else an identifier.
pub open spec fn classify(word: Seq<char>) -> ItemType {
    if word.len() > 0 && word[0] == '.' {
        ItemType::ItemField
    } else if word == "true"@ || word == "false"@ {
        ItemType::ItemBool
    } else {
        match keyword(word) {
            Some(k) => if k.rank() > ItemType::ItemKeyword.rank() {
                k
            } else {
                ItemType::ItemIdentifier
            },
            None => ItemType::ItemIdentifier,
        }
    }
}

/// The token of kind `typ` that spans the input from `start` to `pos`.
pub open spec fn token(src: Source, typ: ItemType, start: int, pos: int) -> ItemView {
    ItemView { typ, pos: start, val: text(src.input, start, pos) }
}

/// The error token at `start` that carries `msg`.
pub open spec fn fault(start: int, msg: Seq<char>) -> ItemView {
    ItemView { typ: ItemType::ItemError, pos: start, val: msg }
}

/// The place right after a token that ends at `pos`.
pub open spec fn after(pos: int, depth: int) -> Mark {
    Mark { start: pos, pos, depth }
}

/// The message for the rune `r` that may not follow a name.
pub open spec fn msg_bad_character(r: char) -> Seq<char> {
    "bad character "@.push(r)
}

/// The message for the rune `r` that no token starts with.
pub open spec fn msg_unrecognized(r: char) -> Seq<char> {
    "unrecognized character in action: "@.push(r)
}

/// The message that quotes the malformed number between `start` and `pos`.
pub open spec fn msg_bad_number(src: Source, start: int, pos: int) -> Seq<char> {
    "bad number syntax: \""@ + text(src.input, start, pos) + "\""@
}

/// Text: up to the next left delimiter, or to the end of input.
pub open spec fn text_step(src: Source, m: Mark) -> Outcome {
    let e = find_from(src.input, m.pos, src.left);
    let pending = if e > m.start {
        seq![token(src, ItemType::ItemText, m.start, e)]
    } else {
        seq![]
    };
    if e < src.input.len() {
        Outcome::Go(State::LeftDelim, after(e, m.depth), pending)
    } else {
        Outcome::Halt(pending.push(token(src, ItemType::ItemEOF, e, e)))
    }
}

/// The left delimiter: it opens a comment or an action.
pub open spec fn left_delim_step(src: Source, m: Mark) -> Outcome {
    let p = m.pos + src.left.len();
    if starts_with_at(src.input, p, comment_open()) {
        Outcome::Go(State::Comment, Mark { start: m.start, pos: p, depth: m.depth }, seq![])
    } else {
        Outcome::Go(
            State::InsideAction,
            after(p, 0),
            seq![token(src, ItemType::ItemLeftDelim, m.start, p)],
        )
    }
}

/// The right delimiter: it closes an action.
pub open spec fn right_delim_step(src: Source, m: Mark) -> Outcome {
    let p = m.pos + src.right.len();
    Outcome::Go(
        State::Text,
        after(p, m.depth),
        seq![token(src, ItemType::ItemRightDelim, m.start, p)],
    )
}

/// A comment: it must be closed, and the right delimiter must follow the close at once.
/// The whole of it is dropped.
pub open spec fn comment_step(src: Source, m: Mark) -> Outcome {
    let p = m.pos + comment_open().len();
    let c = find_from(src.input, p, comment_close());
    let q = c + comment_close().len();
    if c >= src.input.len() {
        Outcome::Halt(seq![fault(m.start, "unclosed comment"@)])
    } else if !starts_with_at(src.input, q, src.right) {
        Outcome::Halt(seq![fault(m.start, "comment ends before closing delimiter"@)])
    } else {
        Outcome::Go(State::Text, after(q + src.right.len(), m.depth), seq![])
    }
}

/// A run of blanks.
pub open spec fn space_step(src: Source, m: Mark) -> Outcome {
    let e = run_end(src.input, m.pos, Class::Space);
    Outcome::Go(State::InsideAction, after(e, m.depth), seq![token(src, ItemType::ItemSpace, m.start, e)])
}

/// A rune that may start a number: a sign, a digit or a dot.
pub open spec fn number_start(r: Option<char>) -> bool {
    r is Some && (r->0 == '+' || r->0 == '-' || r->0 == '.' || digit_char(r->0))
}

/// Inside an action: the right delimiter, or the start of the next token. The tests on the
/// first rune are made in the order in which they stand; the parentheses come before the
/// letters and digits, and what is left is a lone character or a fault.
pub open spec fn inside_action_step(src: Source, m: Mark) -> Outcome {
    let b = src.input;
    if starts_with_at(b, m.pos, src.right) {
        if m.depth == 0 {
            Outcome::Go(State::RightDelim, m, seq![])
        } else {
            Outcome::Halt(seq![fault(m.start, "unclosed left paren"@)])
        }
    } else if rune_at(b, m.pos) is None {
        Outcome::Halt(seq![fault(m.start, "unclosed action"@)])
    } else {
        let r = rune_at(b, m.pos)->0;
        let p = m.pos + rune_width(b, m.pos);
        let taken = Mark { start: m.start, pos: p, depth: m.depth };
        if end_of_line_char(r) {
            Outcome::Halt(seq![fault(m.start, "unclosed action"@)])
        } else if space_char(r) {
            Outcome::Go(State::Space, taken, seq![])
        } else if r == ':' {
            if rune_at(b, p) == Some('=') {
                Outcome::Go(
                    State::InsideAction,
                    after(p + 1, m.depth),
                    seq![token(src, ItemType::ItemColonEquals, m.start, p + 1)],
                )
            } else {
                Outcome::Halt(seq![fault(m.start, "expected :="@)])
            }
        } else if r == '|' {
            Outcome::Go(
                State::InsideAction,
                after(p, m.depth),
                seq![token(src, ItemType::ItemPipe, m.start, p)],
            )
        } else if r == '"' {
            Outcome::Go(State::Quote, taken, seq![])
        } else if r == '`' {
            Outcome::Go(State::RawQuote, taken, seq![])
        } else if r == '$' {
            Outcome::Go(State::Variable, taken, seq![])
        } else if r == '\'' {
            Outcome::Go(State::Char, taken, seq![])
        } else if r == '.' {
            if rune_at(b, p) is Some && !digit_char(rune_at(b, p)->0) {
                Outcome::Go(State::Field, taken, seq![])
            } else {
                Outcome::Go(State::Number, m, seq![])
            }
        } else if r == '+' || r == '-' || digit_char(r) {
            Outcome::Go(State::Number, m, seq![])
        } else if r == '(' {
            Outcome::Go(
                State::InsideAction,
                after(p, m.depth + 1),
                seq![token(src, ItemType::ItemLeftParen, m.start, p)],
            )
        } else if r == ')' {
            if m.depth == 0 {
                Outcome::Halt(
                    seq![
                        token(src, ItemType::ItemRightParen, m.start, p),
                        fault(p, "unexpected right paren ')'"@),
                    ],
                )
            } else {
                Outcome::Go(
                    State::InsideAction,
                    after(p, m.depth - 1),
                    seq![token(src, ItemType::ItemRightParen, m.start, p)],
                )
            }
        } else if word_char(r) {
            Outcome::Go(State::Identifier, m, seq![])
        } else if print_char(r) {
            Outcome::Go(
                State::InsideAction,
                after(p, m.depth),
                seq![token(src, ItemType::ItemChar, m.start, p)],
            )
        } else {
            Outcome::Halt(seq![fault(m.start, msg_unrecognized(r))])
        }
    }
}

/// A quoted literal whose opening quote `q` has been taken: a string or a character constant.
pub open spec fn quoted_step(src: Source, m: Mark, q: char, typ: ItemType, msg: Seq<char>) -> Outcome {
    match quote_end(src.input, m.pos, q) {
        None => Outcome::Halt(seq![fault(m.start, msg)]),
        Some(e) => Outcome::Go(State::InsideAction, after(e, m.depth), seq![token(src, typ, m.start, e)]),
    }
}

/// A raw string whose opening back quote has been taken: everything up to the next back quote.
pub open spec fn raw_quote_step(src: Source, m: Mark) -> Outcome {
    let e = run_end(src.input, m.pos, Class::Not('`'));
    if e >= src.input.len() {
        Outcome::Halt(seq![fault(m.start, "unterminated raw quoted string"@)])
    } else {
        Outcome::Go(
            State::InsideAction,
            after(e + 1, m.depth),
            seq![token(src, ItemType::ItemRawString, m.start, e + 1)],
        )
    }
}

/// A field or a variable whose `.` or `$` has been taken. Alone before a terminator it is a
/// lone dot or a bare variable; else its name runs on and must end before a terminator.
pub open spec fn field_or_variable_step(src: Source, m: Mark, typ: ItemType) -> Outcome {
    if terminator(src, m.pos) {
        let lone = if typ == ItemType::ItemVariable {
            ItemType::ItemVariable
        } else {
            ItemType::ItemDot
        };
        Outcome::Go(State::InsideAction, after(m.pos, m.depth), seq![token(src, lone, m.start, m.pos)])
    } else {
        let e = run_end(src.input, m.pos, Class::Word);
        if !terminator(src, e) {
            Outcome::Halt(seq![fault(m.start, msg_bad_character(rune_at(src.input, e)->0))])
        } else {
            Outcome::Go(State::InsideAction, after(e, m.depth), seq![token(src, typ, m.start, e)])
        }
    }
}

/// A number, or the two parts of a complex constant. The second part, which starts with a
/// sign, must end in `i`.
pub open spec fn number_step(src: Source, m: Mark) -> Outcome {
    let b = src.input;
    let e1 = number_stop(b, m.pos);
    if !number_ok(b, m.pos) {
        Outcome::Halt(seq![fault(m.start, msg_bad_number(src, m.start, e1))])
    } else if rune_at(b, e1) == Some('+') || rune_at(b, e1) == Some('-') {
        let e2 = number_stop(b, e1);
        if !number_ok(b, e1) || b[e2 - 1] != 0x69 {
            Outcome::Halt(seq![fault(m.start, msg_bad_number(src, m.start, e2))])
        } else {
            Outcome::Go(
                State::InsideAction,
                after(e2, m.depth),
                seq![token(src, ItemType::ItemComplex, m.start, e2)],
            )
        }
    } else {
        Outcome::Go(
            State::InsideAction,
            after(e1, m.depth),
            seq![token(src, ItemType::ItemNumber, m.start, e1)],
        )
    }
}

/// A word: it must end before a terminator, and its spelling gives its kind.
pub open spec fn identifier_step(src: Source, m: Mark) -> Outcome {
    let e = run_end(src.input, m.pos, Class::Word);
    if !terminator(src, e) {
        Outcome::Halt(seq![fault(m.start, msg_bad_character(rune_at(src.input, e)->0))])
    } else {
        Outcome::Go(
            State::InsideAction,
            after(e, m.depth),
            seq![token(src, classify(text(src.input, m.start, e)), m.start, e)],
        )
    }
}

/// What state `st` does at `m`.
pub open spec fn step(src: Source, st: State, m: Mark) -> Outcome {
    match st {
        State::Text => text_step(src, m),
        State::LeftDelim => left_delim_step(src, m),
        State::RightDelim => right_delim_step(src, m),
        State::Comment => comment_step(src, m),
        State::Space => space_step(src, m),
        State::InsideAction => inside_action_step(src, m),
        State::Quote => quoted_step(src, m, '"', ItemType::ItemString, "unterminated quoted string"@),
        State::RawQuote => raw_quote_step(src, m),
        State::Variable => field_or_variable_step(src, m, ItemType::ItemVariable),
        State::Char => quoted_step(
            src,
            m,
            '\'',
            ItemType::ItemCharConstant,
            "unterminated character constant"@,
        ),
        State::Field => field_or_variable_step(src, m, ItemType::ItemField),
        State::Number => number_step(src, m),
        State::Identifier => identifier_step(src, m),
    }
}

} // verus!
