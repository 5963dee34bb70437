//! Laws of the token grammar.

use crate::grammar::{
    after, comment_close, comment_open, fault, remaining, step, token, Mark, Outcome, Source,
};
use crate::lexer::Lexer;
use crate::machine::{
    drops_no_comment, lemma_step_progress, lex_all, lex_from, origin, state_ok, state_rank,
};
use crate::runes::{
    boundary, find_from, lemma_boundary_agrees, lemma_find_from, lemma_find_from_skip,
    lemma_tail_valid, rune_at, starts_with_at, tail, text,
};
use crate::token::{ItemType, ItemView, State};
use vstd::prelude::*;
use vstd::utf8::{decode_utf8, valid_utf8};

verus! {

/// The text state may be entered at the start of every input.
pub proof fn lemma_origin_ok(src: Source)
    requires
        src.wf(),
    ensures
        state_ok(src, State::Text, origin()),
{
    vstd::utf8::is_char_boundary_start_end_of_seq(src.input);
    lemma_boundary_agrees(src.input, 0);
}

/// The search from `pos` finds `c` where `c` is the first occurrence at or after `pos`.
pub proof fn lemma_find_from_first(b: Seq<u8>, pos: int, pat: Seq<u8>, c: int)
    requires
        0 <= pos <= c < b.len(),
        starts_with_at(b, c, pat),
        forall|j: int| pos <= j < c ==> !starts_with_at(b, j, pat),
    ensures
        find_from(b, pos, pat) == c,
{
    lemma_find_from_skip(b, pos, c, pat);
}

/// Input that is not empty and holds no left delimiter is one text token that spans it,
/// followed by the end of input.
pub proof fn lemma_plain_text(src: Source)
    requires
        src.wf(),
        src.input.len() > 0,
        forall|i: int| 0 <= i < src.input.len() ==> !starts_with_at(src.input, i, src.left),
    ensures
        lex_all(src) == seq![
            token(src, ItemType::ItemText, 0, src.input.len() as int),
            token(src, ItemType::ItemEOF, src.input.len() as int, src.input.len() as int),
        ],
{
    lemma_origin_ok(src);
    lemma_find_from(src.input, 0, src.left);
    let n = src.input.len() as int;
    assert(find_from(src.input, 0, src.left) == n);
    assert(lex_all(src) =~= seq![
        token(src, ItemType::ItemText, 0, n),
        token(src, ItemType::ItemEOF, n, n),
    ]);
}

/// Empty input is the end of input and nothing else.
pub proof fn lemma_empty_input(src: Source)
    requires
        src.wf(),
        src.input.len() == 0,
    ensures
        lex_all(src) == seq![token(src, ItemType::ItemEOF, 0, 0)],
{
    lemma_origin_ok(src);
    assert(lex_all(src) =~= seq![token(src, ItemType::ItemEOF, 0, 0)]);
}

/// A comment stands at `at`: the left delimiter and `/*`, then the first `*/` at `close`,
/// then the right delimiter.
pub open spec fn comment_at(src: Source, at: int, close: int) -> bool {
    &&& starts_with_at(src.input, at, src.left)
    &&& starts_with_at(src.input, at + src.left.len(), comment_open())
    &&& at + src.left.len() + comment_open().len() <= close
    &&& starts_with_at(src.input, close, comment_close())
    &&& forall|j: int|
        at + src.left.len() + comment_open().len() <= j < close ==> !starts_with_at(
            src.input,
            j,
            comment_close(),
        )
    &&& starts_with_at(src.input, close + comment_close().len(), src.right)
}

/// The end of the comment whose `*/` stands at `close`.
pub open spec fn comment_end(src: Source, close: int) -> int {
    close + comment_close().len() + src.right.len()
}

/// A well-formed comment leaves no token: the tokens from its left delimiter on are the
/// tokens of the text after its right delimiter.
pub proof fn lemma_comment_leaves_no_token(src: Source, m: Mark, close: int)
    requires
        src.wf(),
        state_ok(src, State::LeftDelim, m),
        comment_at(src, m.pos, close),
    ensures
        lex_from(src, State::LeftDelim, m) == lex_from(
            src,
            State::Text,
            after(comment_end(src, close), m.depth),
        ),
{
    let p = m.pos + src.left.len();
    let inside = Mark { start: m.start, pos: p, depth: m.depth };
    lemma_step_progress(src, State::LeftDelim, m);
    lemma_find_from_first(src.input, p + 2, comment_close(), close);
    lemma_step_progress(src, State::Comment, inside);
    let rest = after(comment_end(src, close), m.depth);
    assert(step(src, State::LeftDelim, m) == Outcome::Go(State::Comment, inside, seq![]));
    assert(step(src, State::Comment, inside) == Outcome::Go(State::Text, rest, seq![]));
    assert(lex_from(src, State::Comment, inside) =~= lex_from(src, State::Text, rest));
    assert(lex_from(src, State::LeftDelim, m) =~= lex_from(src, State::Comment, inside));
}

/// No token of a run starts before the start mark of the run.
pub proof fn lemma_tokens_start_after(src: Source, st: State, m: Mark)
    requires
        src.wf(),
        state_ok(src, st, m),
    ensures
        forall|i: int|
            0 <= i < lex_from(src, st, m).len() ==> (#[trigger] lex_from(src, st, m)[i]).pos
                >= m.start,
    decreases remaining(src.input, m.pos), state_rank(st),
{
    lemma_step_progress(src, st, m);
    lemma_step_covers_start(src, st, m);
    match step(src, st, m) {
        Outcome::Halt(out) => {},
        Outcome::Go(next, m2, out) => {
            lemma_tokens_start_after(src, next, m2);
            let rest = lex_from(src, next, m2);
            assert forall|i: int| 0 <= i < (out + rest).len() implies (#[trigger] (out + rest)[i]).pos
                >= m.start by {
                if i >= out.len() {
                    assert((out + rest)[i] == rest[i - out.len()]);
                }
            }
        },
    }
}

/// No token of a step starts before the start mark, and the start mark does not move back.
pub proof fn lemma_step_covers_start(src: Source, st: State, m: Mark)
    requires
        src.wf(),
        state_ok(src, st, m),
    ensures
        forall|i: int|
            0 <= i < tokens_of(step(src, st, m)).len() ==> (#[trigger] tokens_of(
                step(src, st, m),
            )[i]).pos >= m.start,
        step(src, st, m) matches Outcome::Go(_, m2, _) ==> m2.start >= m.start,
{
    lemma_step_progress(src, st, m);
    lemma_find_from(src.input, m.pos, src.left);
    if rune_at(src.input, m.pos) is Some {
        crate::runes::lemma_rune_step(src.input, m.pos);
    }
}

/// Text in front of a well-formed comment is a text token of its own, and the text after
/// the comment is lexed as if the comment were not there: no token starts in the comment.
pub proof fn lemma_text_around_comment(src: Source, m: Mark, at: int, close: int)
    requires
        src.wf(),
        state_ok(src, State::Text, m),
        m.pos <= at,
        forall|j: int| m.pos <= j < at ==> !starts_with_at(src.input, j, src.left),
        comment_at(src, at, close),
    ensures
        ({
            let rest = lex_from(src, State::Text, after(comment_end(src, close), m.depth));
            &&& lex_from(src, State::Text, m) == (if at > m.start {
                seq![token(src, ItemType::ItemText, m.start, at)]
            } else {
                Seq::<ItemView>::empty()
            }) + rest
            &&& forall|i: int| 0 <= i < rest.len() ==> (#[trigger] rest[i]).pos >= comment_end(src, close)
        }),
{
    lemma_find_from_first(src.input, m.pos, src.left, at);
    lemma_step_progress(src, State::Text, m);
    let opened = after(at, m.depth);
    lemma_comment_leaves_no_token(src, opened, close);
    lemma_comment_is_passed(src, opened, close);
    lemma_tokens_start_after(src, State::Text, after(comment_end(src, close), m.depth));
}

/// The text state may be entered after a well-formed comment.
pub proof fn lemma_comment_is_passed(src: Source, m: Mark, close: int)
    requires
        src.wf(),
        state_ok(src, State::LeftDelim, m),
        comment_at(src, m.pos, close),
    ensures
        state_ok(src, State::Text, after(comment_end(src, close), m.depth)),
{
    let p = m.pos + src.left.len();
    let inside = Mark { start: m.start, pos: p, depth: m.depth };
    lemma_step_progress(src, State::LeftDelim, m);
    lemma_find_from_first(src.input, p + 2, comment_close(), close);
    lemma_step_progress(src, State::Comment, inside);
}

/// The count of open parentheses never falls below zero while the lexer goes on.
pub proof fn lemma_depth_not_negative(src: Source, st: State, m: Mark)
    requires
        src.wf(),
        state_ok(src, st, m),
    ensures
        step(src, st, m) matches Outcome::Go(_, m2, _) ==> m2.depth >= 0,
{
    lemma_step_progress(src, st, m);
}

/// A right parenthesis with none open is a token, and the error follows it at once.
pub proof fn lemma_unexpected_right_paren(src: Source, m: Mark)
    requires
        src.wf(),
        state_ok(src, State::InsideAction, m),
        !starts_with_at(src.input, m.pos, src.right),
        rune_at(src.input, m.pos) == Some(')'),
        m.depth == 0,
    ensures
        lex_from(src, State::InsideAction, m) == seq![
            token(src, ItemType::ItemRightParen, m.start, m.pos + 1),
            fault(m.pos + 1, "unexpected right paren ')'"@),
        ],
{
    crate::machine::lemma_ascii_rune_width(src.input, m.pos);
    assert(lex_from(src, State::InsideAction, m) =~= seq![
        token(src, ItemType::ItemRightParen, m.start, m.pos + 1),
        fault(m.pos + 1, "unexpected right paren ')'"@),
    ]);
}

/// A lexer that is run from the start of its input with no token queued holds the tokens
/// of the input.
pub proof fn lemma_fresh_run(before: Lexer, after: Lexer)
    requires
        after.ran_from(&before),
        before.mark() == origin(),
        before.tokens().len() == 0,
    ensures
        after.tokens() == lex_all(before.src()),
{
    assert(before.tokens() + lex_all(before.src()) =~= lex_all(before.src()));
}

/// Lexing is a function of the input and the delimiters: two lexers that stand at the same
/// place over the same input hold, after a run, the same new tokens.
pub proof fn lemma_same_input_same_tokens(a0: Lexer, a1: Lexer, b0: Lexer, b1: Lexer)
    requires
        a1.ran_from(&a0),
        b1.ran_from(&b0),
        a0.src() == b0.src(),
        a0.mark() == b0.mark(),
        a0.tokens() == b0.tokens(),
    ensures
        a1.tokens() == b1.tokens(),
{
}

/// The text that a token stands for in the input: its own text, or nothing where it is
/// the end of input or an error.
pub open spec fn piece(t: ItemView) -> Seq<char> {
    if t.typ.synthetic() {
        Seq::empty()
    } else {
        t.val
    }
}

/// The texts of the tokens that stand for input, joined in order.
pub open spec fn joined(ts: Seq<ItemView>) -> Seq<char>
    decreases ts.len(),
{
    if ts.len() == 0 {
        Seq::empty()
    } else {
        joined(ts.drop_last()) + piece(ts.last())
    }
}

/// One more token adds its piece.
pub proof fn lemma_joined_push(ts: Seq<ItemView>, t: ItemView)
    ensures
        joined(ts.push(t)) == joined(ts) + piece(t),
{
    assert(ts.push(t).drop_last() =~= ts);
}

/// The join of two runs of tokens is the join of the first and then the join of the second.
pub proof fn lemma_joined_concat(a: Seq<ItemView>, b: Seq<ItemView>)
    ensures
        joined(a + b) == joined(a) + joined(b),
    decreases b.len(),
{
    if b.len() == 0 {
        assert(a + b =~= a);
        assert(joined(a) + joined(b) =~= joined(a));
    } else {
        lemma_joined_concat(a, b.drop_last());
        assert((a + b).drop_last() =~= a + b.drop_last());
        assert((a + b).last() == b.last());
        assert(joined(a + b) =~= joined(a) + joined(b));
    }
}

/// The text of two spans that meet is the text of the span that they make up.
pub proof fn lemma_text_concat(b: Seq<u8>, x: int, y: int, z: int)
    requires
        valid_utf8(b),
        0 <= x <= y <= z <= b.len(),
        boundary(b, x),
        boundary(b, y),
        boundary(b, z),
    ensures
        text(b, x, y) + text(b, y, z) == text(b, x, z),
{
    lemma_tail_valid(b, x);
    let t = tail(b, x);
    assert(boundary(t, z - x)) by {
        if z < b.len() {
            assert(t[z - x] == b[z]);
        }
    }
    lemma_tail_valid(t, z - x);
    let sub = b.subrange(x, z);
    assert(t.subrange(0, z - x) =~= sub);
    assert(boundary(sub, y - x)) by {
        if y < z {
            assert(sub[y - x] == b[y]);
        }
    }
    lemma_boundary_agrees(sub, y - x);
    vstd::utf8::decode_utf8_split(sub, y - x);
    assert(sub.subrange(0, y - x) =~= b.subrange(x, y));
    assert(sub.subrange(y - x, sub.len() as int) =~= b.subrange(y, z));
}

/// An empty span has no text.
pub proof fn lemma_text_empty(b: Seq<u8>, x: int)
    requires
        0 <= x <= b.len(),
    ensures
        text(b, x, x) == Seq::<char>::empty(),
{
    assert(b.subrange(x, x) =~= Seq::<u8>::empty());
}

/// The tokens of the outcome `o` of a step from `m` stand for the input from the start mark
/// of `m` up to the start mark that `o` leads to; where `o` halts, up to its last token, which
/// is the end of input at the end of the input, or an error.
pub open spec fn covers(src: Source, m: Mark, o: Outcome) -> bool {
    match o {
        Outcome::Halt(out) => {
            &&& out.len() > 0
            &&& out.last().typ.synthetic()
            &&& m.start <= out.last().pos <= src.input.len()
            &&& boundary(src.input, out.last().pos)
            &&& joined(out) == text(src.input, m.start, out.last().pos)
            &&& (out.last().typ == ItemType::ItemEOF ==> out.last().pos == src.input.len())
        },
        Outcome::Go(_, m2, out) => {
            &&& m.start <= m2.start
            &&& joined(out) == text(src.input, m.start, m2.start)
        },
    }
}

/// What `joined` makes of at most two tokens.
pub proof fn lemma_joined_short(out: Seq<ItemView>)
    requires
        out.len() <= 2,
    ensures
        out.len() == 0 ==> joined(out) == Seq::<char>::empty(),
        out.len() == 1 ==> joined(out) == piece(out[0]),
        out.len() == 2 ==> joined(out) == piece(out[0]) + piece(out[1]),
{
    let none = Seq::<ItemView>::empty();
    assert(joined(none) == Seq::<char>::empty());
    if out.len() == 1 {
        assert(out =~= none.push(out[0]));
        lemma_joined_push(none, out[0]);
        assert(joined(out) =~= piece(out[0]));
    } else if out.len() == 2 {
        assert(out =~= none.push(out[0]).push(out[1]));
        lemma_joined_push(none, out[0]);
        lemma_joined_push(none.push(out[0]), out[1]);
        assert(joined(out) =~= piece(out[0]) + piece(out[1]));
    }
}

/// The tokens of a step: there are at most two of them.
pub open spec fn tokens_of(o: Outcome) -> Seq<ItemView> {
    match o {
        Outcome::Halt(out) => out,
        Outcome::Go(_, _, out) => out,
    }
}

/// Every step but the one that drops a comment covers the input that it passes.
#[verifier::rlimit(40)]
pub proof fn lemma_step_covers(src: Source, st: State, m: Mark)
    requires
        src.wf(),
        state_ok(src, st, m),
        st == State::Comment ==> step(src, st, m) is Halt,
    ensures
        covers(src, m, step(src, st, m)),
{
    lemma_step_progress(src, st, m);
    lemma_text_empty(src.input, m.start);
    let o = step(src, st, m);
    lemma_joined_short(tokens_of(o));
    match st {
        State::Text => {
            lemma_find_from(src.input, m.pos, src.left);
            assert(covers(src, m, o));
        },
        State::InsideAction => {
            if rune_at(src.input, m.pos) is Some {
                crate::runes::lemma_rune_step(src.input, m.pos);
            }
            assert(covers(src, m, o));
        },
        State::LeftDelim | State::RightDelim | State::Comment | State::Space => {
            assert(covers(src, m, o));
        },
        State::Quote | State::Char | State::RawQuote => {
            assert(covers(src, m, o));
        },
        State::Variable | State::Field | State::Identifier => {
            assert(covers(src, m, o));
        },
        State::Number => {
            assert(covers(src, m, o));
        },
    }
}

/// Where the run drops no comment, its tokens tile the input: joined in order, their texts
/// are the input from the start mark up to the last token. The last token is the end of
/// input, which stands at the end of the input, or an error.
pub proof fn lemma_tokens_tile(src: Source, st: State, m: Mark)
    requires
        src.wf(),
        state_ok(src, st, m),
        drops_no_comment(src, st, m),
    ensures
        covers(src, m, Outcome::Halt(lex_from(src, st, m))),
    decreases remaining(src.input, m.pos), state_rank(st),
{
    lemma_step_progress(src, st, m);
    lemma_step_covers(src, st, m);
    match step(src, st, m) {
        Outcome::Halt(out) => {},
        Outcome::Go(next, m2, out) => {
            lemma_tokens_tile(src, next, m2);
            let rest = lex_from(src, next, m2);
            lemma_joined_concat(out, rest);
            assert((out + rest).last() == rest.last());
            lemma_text_concat(src.input, m.start, m2.start, rest.last().pos);
        },
    }
}

/// Round trip: where lexing drops no comment and its last token stands at the end of the
/// input, the texts of the tokens that stand for input, joined in order, are the input.
pub proof fn lemma_round_trip(src: Source)
    requires
        src.wf(),
        drops_no_comment(src, State::Text, origin()),
        lex_all(src).last().pos == src.input.len(),
    ensures
        joined(lex_all(src)) == decode_utf8(src.input),
{
    lemma_origin_ok(src);
    lemma_tokens_tile(src, State::Text, origin());
    assert(src.input.subrange(0, src.input.len() as int) =~= src.input);
}

/// Lexing that drops no comment and ends with the end of input gives the input back.
pub proof fn lemma_round_trip_to_eof(src: Source)
    requires
        src.wf(),
        drops_no_comment(src, State::Text, origin()),
        lex_all(src).last().typ == ItemType::ItemEOF,
    ensures
        joined(lex_all(src)) == decode_utf8(src.input),
{
    lemma_origin_ok(src);
    lemma_tokens_tile(src, State::Text, origin());
    lemma_round_trip(src);
}

/// A span that is not empty has text.
pub proof fn lemma_text_not_empty(b: Seq<u8>, x: int, y: int)
    requires
        valid_utf8(b),
        0 <= x < y <= b.len(),
        boundary(b, x),
        boundary(b, y),
    ensures
        text(b, x, y).len() > 0,
{
    lemma_tail_valid(b, x);
    let t = tail(b, x);
    assert(boundary(t, y - x)) by {
        if y < b.len() {
            assert(t[y - x] == b[y]);
        }
    }
    lemma_tail_valid(t, y - x);
    assert(t.subrange(0, y - x) =~= b.subrange(x, y));
}

/// The tokens of a run never hold more text than the input that the run passes, and hold
/// less where the run drops a comment.
pub proof fn lemma_tokens_fit(src: Source, st: State, m: Mark)
    requires
        src.wf(),
        state_ok(src, st, m),
    ensures
        ({
            let ts = lex_from(src, st, m);
            &&& ts.len() > 0
            &&& ts.last().typ.synthetic()
            &&& m.start <= ts.last().pos <= src.input.len()
            &&& boundary(src.input, ts.last().pos)
            &&& joined(ts).len() <= text(src.input, m.start, ts.last().pos).len()
            &&& (!drops_no_comment(src, st, m) ==> joined(ts).len() < text(
                src.input,
                m.start,
                ts.last().pos,
            ).len())
        }),
    decreases remaining(src.input, m.pos), state_rank(st),
{
    lemma_step_progress(src, st, m);
    match step(src, st, m) {
        Outcome::Halt(out) => {
            lemma_step_covers(src, st, m);
        },
        Outcome::Go(next, m2, out) => {
            lemma_tokens_fit(src, next, m2);
            let rest = lex_from(src, next, m2);
            lemma_joined_concat(out, rest);
            assert((out + rest).last() == rest.last());
            if st == State::Comment {
                lemma_joined_short(out);
                lemma_text_not_empty(src.input, m.start, m2.start);
            } else {
                lemma_step_covers(src, st, m);
            }
            lemma_text_concat(src.input, m.start, m2.start, rest.last().pos);
        },
    }
}

/// Round trip, both ways: the texts of the tokens that stand for input, joined in order,
/// are the input if and only if lexing drops no comment and its last token stands at the
/// end of the input.
pub proof fn lemma_round_trip_exactly(src: Source)
    requires
        src.wf(),
    ensures
        joined(lex_all(src)) == decode_utf8(src.input) <==> drops_no_comment(
            src,
            State::Text,
            origin(),
        ) && lex_all(src).last().pos == src.input.len(),
{
    lemma_origin_ok(src);
    lemma_tokens_fit(src, State::Text, origin());
    let n = src.input.len() as int;
    let end = lex_all(src).last().pos;
    assert(src.input.subrange(0, n) =~= src.input);
    vstd::utf8::is_char_boundary_start_end_of_seq(src.input);
    lemma_boundary_agrees(src.input, n);
    lemma_text_concat(src.input, 0, end, n);
    if end < n {
        lemma_text_not_empty(src.input, end, n);
    }
    if drops_no_comment(src, State::Text, origin()) && end == n {
        lemma_round_trip(src);
    }
}

} // verus!
