//! The state machine as a whole: which places each state may be entered at, why every
//! step makes progress, and the tokens that a run produces.

use crate::chars::{digit_char, word_rune};
use crate::grammar::{
    accept_end, accepts, comment_close, comment_open, number_end, number_start, number_stop,
    quote_end, remaining, run_end, step, Class, Mark, Outcome, Source,
};
use crate::runes::{
    boundary, find_from, lemma_find_from, lemma_match_ends_at_boundary, lemma_match_is_at_boundary,
    lemma_rune_ascii, lemma_rune_step, rune_at, rune_width, starts_with_at,
};
use crate::token::{ItemView, State};
use vstd::prelude::*;
use vstd::utf8::valid_utf8;

verus! {

/// The marks lie in the input, on boundaries, in order; no more parentheses are open than
/// bytes were read.
pub open spec fn mark_ok(src: Source, m: Mark) -> bool {
    &&& 0 <= m.start <= m.pos <= src.input.len()
    &&& boundary(src.input, m.start)
    &&& boundary(src.input, m.pos)
    &&& 0 <= m.depth <= m.pos
}

/// State `st` may be entered at `m`.
pub open spec fn state_ok(src: Source, st: State, m: Mark) -> bool {
    &&& mark_ok(src, m)
    &&& match st {
        State::LeftDelim => m.start == m.pos && starts_with_at(src.input, m.pos, src.left),
        State::RightDelim => m.start == m.pos && starts_with_at(src.input, m.pos, src.right),
        State::Comment => starts_with_at(src.input, m.pos, comment_open()),
        State::InsideAction => m.start == m.pos,
        State::Number => m.start == m.pos && number_start(rune_at(src.input, m.pos)),
        State::Identifier => m.start == m.pos && word_rune(rune_at(src.input, m.pos)),
        _ => true,
    }
}

/// The order in which states that do not move the cursor follow one another.
pub open spec fn state_rank(st: State) -> nat {
    match st {
        State::Space | State::Variable | State::Field => 2,
        State::Text | State::InsideAction => 1,
        _ => 0,
    }
}

/// The two comment marks are well-formed UTF-8.
pub proof fn lemma_comment_marks()
    ensures
        valid_utf8(comment_open()),
        valid_utf8(comment_close()),
{
    reveal_with_fuel(valid_utf8, 3);
    let o = comment_open();
    let c = comment_close();
    assert(vstd::utf8::pop_first_scalar(o) =~= seq![0x2au8]);
    assert(vstd::utf8::pop_first_scalar(seq![0x2au8]) =~= Seq::<u8>::empty());
    assert(vstd::utf8::pop_first_scalar(c) =~= seq![0x2fu8]);
    assert(vstd::utf8::pop_first_scalar(seq![0x2fu8]) =~= Seq::<u8>::empty());
    assert((0x2fu8 & 0x7f) as u32 == 0x2f) by (bit_vector);
    assert((0x2au8 & 0x7f) as u32 == 0x2a) by (bit_vector);
}

/// Taking one rune of a class leaves the cursor in the input, on a boundary.
pub proof fn lemma_accept_end(b: Seq<u8>, pos: int, cls: Class)
    requires
        valid_utf8(b),
        boundary(b, pos),
        0 <= pos <= b.len(),
    ensures
        pos <= accept_end(b, pos, cls) <= b.len(),
        boundary(b, accept_end(b, pos, cls)),
        accepts(b, pos, cls) ==> accept_end(b, pos, cls) > pos,
{
    if pos < b.len() {
        lemma_rune_step(b, pos);
    }
}

/// A run of a class ends in the input, on a boundary, before a rune that is not of the class.
pub proof fn lemma_run_end(b: Seq<u8>, pos: int, cls: Class)
    requires
        valid_utf8(b),
        boundary(b, pos),
        0 <= pos <= b.len(),
    ensures
        pos <= run_end(b, pos, cls) <= b.len(),
        boundary(b, run_end(b, pos, cls)),
        !accepts(b, run_end(b, pos, cls), cls),
        accepts(b, pos, cls) ==> run_end(b, pos, cls) > pos,
    decreases remaining(b, pos),
{
    if accepts(b, pos, cls) {
        lemma_rune_step(b, pos);
        lemma_run_end(b, pos + rune_width(b, pos), cls);
    }
}

/// A quoted literal that is closed ends after its start, in the input, on a boundary.
pub proof fn lemma_quote_end(b: Seq<u8>, pos: int, q: char)
    requires
        valid_utf8(b),
        boundary(b, pos),
        0 <= pos <= b.len(),
    ensures
        quote_end(b, pos, q) is Some ==> pos < quote_end(b, pos, q)->0 <= b.len() && boundary(
            b,
            quote_end(b, pos, q)->0,
        ),
    decreases remaining(b, pos),
{
    if rune_at(b, pos) is Some {
        lemma_rune_step(b, pos);
        let c = rune_at(b, pos)->0;
        let p = pos + rune_width(b, pos);
        if c == '\\' {
            if rune_at(b, p) is Some && rune_at(b, p)->0 != '\n' {
                lemma_rune_step(b, p);
                lemma_quote_end(b, p + rune_width(b, p), q);
            }
        } else if c == '\n' {
        } else if c == q {
        } else {
            lemma_quote_end(b, p, q);
        }
    }
}

/// A rune below U+0080 is one byte wide.
pub proof fn lemma_ascii_rune_width(b: Seq<u8>, pos: int)
    requires
        valid_utf8(b),
        boundary(b, pos),
        rune_at(b, pos) is Some,
        (rune_at(b, pos)->0 as u32) < 0x80,
    ensures
        rune_width(b, pos) == 1,
        b[pos] as u32 == rune_at(b, pos)->0 as u32,
        boundary(b, pos + 1),
{
    lemma_rune_ascii(b, pos);
    lemma_rune_step(b, pos);
}

/// Every decimal digit is among the digits that a number may hold.
pub proof fn lemma_digits(c: char)
    requires
        digit_char(c),
    ensures
        "0123456789"@.contains(c),
{
    reveal_strlit("0123456789");
    let s = "0123456789"@;
    let i = c as int - '0' as int;
    assert(0 <= i < 10);
    assert(s[i] == c);
}

/// A numeric literal ends in the input, on a boundary; so does the scan that reads it. A rune
/// that may start a number is part of the literal.
pub proof fn lemma_number_end(b: Seq<u8>, pos: int)
    requires
        valid_utf8(b),
        boundary(b, pos),
        0 <= pos <= b.len(),
    ensures
        pos <= number_end(b, pos) <= number_stop(b, pos) <= b.len(),
        boundary(b, number_end(b, pos)),
        boundary(b, number_stop(b, pos)),
        number_start(rune_at(b, pos)) ==> number_end(b, pos) > pos,
{
    let sign = Class::In("+-"@);
    let zero = Class::In("0"@);
    let mark = Class::In("xX"@);
    let dot = Class::In("."@);
    let exp = Class::In("eE"@);
    let imag = Class::In("i"@);
    let dec = Class::In("0123456789"@);
    let after_sign = accept_end(b, pos, sign);
    lemma_accept_end(b, pos, sign);
    let after_zero = accept_end(b, after_sign, zero);
    lemma_accept_end(b, after_sign, zero);
    let hex = accepts(b, after_sign, zero) && accepts(b, after_zero, mark);
    let after_mark = if hex {
        accept_end(b, after_zero, mark)
    } else {
        after_zero
    };
    lemma_accept_end(b, after_zero, mark);
    let digits = Class::In(
        if hex {
            "0123456789abcdefABCDEF"@
        } else {
            "0123456789"@
        },
    );
    let after_digits = run_end(b, after_mark, digits);
    lemma_run_end(b, after_mark, digits);
    lemma_accept_end(b, after_digits, dot);
    let after_fraction = if accepts(b, after_digits, dot) {
        run_end(b, accept_end(b, after_digits, dot), digits)
    } else {
        after_digits
    };
    lemma_run_end(b, accept_end(b, after_digits, dot), digits);
    lemma_accept_end(b, after_fraction, exp);
    lemma_accept_end(b, accept_end(b, after_fraction, exp), sign);
    lemma_run_end(b, accept_end(b, accept_end(b, after_fraction, exp), sign), dec);
    let after_exponent = if accepts(b, after_fraction, exp) {
        run_end(b, accept_end(b, accept_end(b, after_fraction, exp), sign), dec)
    } else {
        after_fraction
    };
    lemma_accept_end(b, after_exponent, imag);
    let e = accept_end(b, after_exponent, imag);
    assert(e == number_end(b, pos));
    if e < b.len() {
        lemma_rune_step(b, e);
    }
    if number_start(rune_at(b, pos)) {
        let r = rune_at(b, pos)->0;
        reveal_strlit("+-");
        reveal_strlit("0");
        reveal_strlit(".");
        if r == '+' {
            assert("+-"@[0] == r);
        } else if r == '-' {
            assert("+-"@[1] == r);
        } else if r == '.' {
            assert(after_sign == pos);
            assert(after_mark == pos);
            assert("."@[0] == r);
            assert(accepts(b, after_digits, dot) ==> after_fraction > after_digits);
            if after_digits == pos {
                assert(accepts(b, after_digits, dot));
            }
        } else {
            assert(after_sign == pos);
            if r == '0' {
                assert("0"@[0] == r);
            } else {
                assert(after_mark == pos);
                lemma_digits(r);
                assert(accepts(b, after_mark, digits));
            }
        }
    }
}

/// The outcome `o` of state `st` at `m`, if it goes on, enters the next state at a place where
/// that state may be entered, and either moves the cursor forward or hands over to a state of
/// lower rank.
pub open spec fn progresses(src: Source, st: State, m: Mark, o: Outcome) -> bool {
    o matches Outcome::Go(next, m2, _) ==> state_ok(src, next, m2) && (m2.pos > m.pos || (m2.pos
        == m.pos && state_rank(next) < state_rank(st)))
}

/// The text state makes progress.
proof fn lemma_progress_text(src: Source, m: Mark)
    requires
        src.wf(),
        state_ok(src, State::Text, m),
    ensures
        progresses(src, State::Text, m, step(src, State::Text, m)),
{
    let b = src.input;
    lemma_find_from(b, m.pos, src.left);
    let e = find_from(b, m.pos, src.left);
    if e < b.len() {
        lemma_match_is_at_boundary(b, e, src.left);
    }
}

/// The two delimiter states make progress.
proof fn lemma_progress_delims(src: Source, st: State, m: Mark)
    requires
        src.wf(),
        state_ok(src, st, m),
        st == State::LeftDelim || st == State::RightDelim,
    ensures
        progresses(src, st, m, step(src, st, m)),
{
    if st == State::LeftDelim {
        lemma_match_ends_at_boundary(src.input, m.pos, src.left);
    } else {
        lemma_match_ends_at_boundary(src.input, m.pos, src.right);
    }
}

/// The comment state makes progress.
proof fn lemma_progress_comment(src: Source, m: Mark)
    requires
        src.wf(),
        state_ok(src, State::Comment, m),
    ensures
        progresses(src, State::Comment, m, step(src, State::Comment, m)),
{
    let b = src.input;
    lemma_comment_marks();
    lemma_match_ends_at_boundary(b, m.pos, comment_open());
    let p = m.pos + 2;
    lemma_find_from(b, p, comment_close());
    let c = find_from(b, p, comment_close());
    if c < b.len() {
        lemma_match_is_at_boundary(b, c, comment_close());
        lemma_match_ends_at_boundary(b, c, comment_close());
        if starts_with_at(b, c + 2, src.right) {
            lemma_match_ends_at_boundary(b, c + 2, src.right);
        }
    }
}

/// The state inside an action makes progress.
proof fn lemma_progress_inside_action(src: Source, m: Mark)
    requires
        src.wf(),
        state_ok(src, State::InsideAction, m),
    ensures
        progresses(src, State::InsideAction, m, step(src, State::InsideAction, m)),
{
    let b = src.input;
    if rune_at(b, m.pos) is Some {
        lemma_rune_step(b, m.pos);
        let p = m.pos + rune_width(b, m.pos);
        if rune_at(b, p) == Some('=') {
            lemma_ascii_rune_width(b, p);
        }
    }
}

/// The states that read a run of runes make progress.
proof fn lemma_progress_runs(src: Source, st: State, m: Mark)
    requires
        src.wf(),
        state_ok(src, st, m),
        st == State::Space || st == State::Variable || st == State::Field || st
            == State::Identifier || st == State::RawQuote,
    ensures
        progresses(src, st, m, step(src, st, m)),
{
    let b = src.input;
    if st == State::Space {
        lemma_run_end(b, m.pos, Class::Space);
    } else if st == State::RawQuote {
        lemma_run_end(b, m.pos, Class::Not('`'));
        let e = run_end(b, m.pos, Class::Not('`'));
        if e < b.len() {
            lemma_ascii_rune_width(b, e);
        }
    } else {
        lemma_run_end(b, m.pos, Class::Word);
    }
}

/// The states that read a quoted literal make progress.
proof fn lemma_progress_quoted(src: Source, st: State, m: Mark)
    requires
        src.wf(),
        state_ok(src, st, m),
        st == State::Quote || st == State::Char,
    ensures
        progresses(src, st, m, step(src, st, m)),
{
    lemma_quote_end(src.input, m.pos, '"');
    lemma_quote_end(src.input, m.pos, '\'');
}

/// The number state makes progress.
proof fn lemma_progress_number(src: Source, m: Mark)
    requires
        src.wf(),
        state_ok(src, State::Number, m),
    ensures
        progresses(src, State::Number, m, step(src, State::Number, m)),
{
    let b = src.input;
    lemma_number_end(b, m.pos);
    lemma_number_end(b, number_stop(b, m.pos));
    let e1 = number_stop(b, m.pos);
    if rune_at(b, e1) == Some('+') || rune_at(b, e1) == Some('-') {
        assert(number_start(rune_at(b, e1)));
    }
}

/// Every state that goes on enters the next state at a place where that state may be
/// entered, and either moves the cursor forward or hands over to a state of lower rank.
pub proof fn lemma_step_progress(src: Source, st: State, m: Mark)
    requires
        src.wf(),
        state_ok(src, st, m),
    ensures
        progresses(src, st, m, step(src, st, m)),
{
    match st {
        State::Text => lemma_progress_text(src, m),
        State::LeftDelim | State::RightDelim => lemma_progress_delims(src, st, m),
        State::Comment => lemma_progress_comment(src, m),
        State::InsideAction => lemma_progress_inside_action(src, m),
        State::Quote | State::Char => lemma_progress_quoted(src, st, m),
        State::Number => lemma_progress_number(src, m),
        _ => lemma_progress_runs(src, st, m),
    }
}

/// The tokens that the lexer produces when it enters state `st` at `m` and runs until it halts.
pub open spec fn lex_from(src: Source, st: State, m: Mark) -> Seq<ItemView>
    decreases remaining(src.input, m.pos), state_rank(st),
    when src.wf() && state_ok(src, st, m)
    via lex_from_decreases
{
    match step(src, st, m) {
        Outcome::Halt(out) => out,
        Outcome::Go(next, m2, out) => out + lex_from(src, next, m2),
    }
}

/// Why the recursion of `lex_from` ends.
#[via_fn]
proof fn lex_from_decreases(src: Source, st: State, m: Mark) {
    lemma_step_progress(src, st, m);
}

/// The run from state `st` at `m` drops no comment: it never leaves the comment state
/// to go on.
pub open spec fn drops_no_comment(src: Source, st: State, m: Mark) -> bool
    decreases remaining(src.input, m.pos), state_rank(st),
    when src.wf() && state_ok(src, st, m)
    via drops_no_comment_decreases
{
    match step(src, st, m) {
        Outcome::Halt(_) => true,
        Outcome::Go(next, m2, _) => st != State::Comment && drops_no_comment(src, next, m2),
    }
}

/// Why the recursion of `drops_no_comment` ends.
#[via_fn]
proof fn drops_no_comment_decreases(src: Source, st: State, m: Mark) {
    lemma_step_progress(src, st, m);
}

/// Where lexing starts: at the first byte, with no parenthesis open.
pub open spec fn origin() -> Mark {
    Mark { start: 0, pos: 0, depth: 0 }
}

/// The tokens of a whole input: those of the text state at its start.
pub open spec fn lex_all(src: Source) -> Seq<ItemView> {
    lex_from(src, State::Text, origin())
}

} // verus!
