use std::rc::Rc;
use template_lexer::{lex, Item, ItemType};

fn tokens(input: &'static str, left: &'static str, right: &'static str) -> Vec<Rc<Item>> {
    let mut l = lex("scenario", input, left, right);
    l.run();
    let mut out = Vec::new();
    while let Some(item) = l.next_item() {
        out.push(item);
    }
    out
}

fn shape(items: &Vec<Rc<Item>>) -> Vec<(ItemType, usize, String)> {
    items.iter().map(|i| (i.typ, i.pos, i.val.clone())).collect()
}

fn t(typ: ItemType, pos: usize, val: &str) -> (ItemType, usize, String) {
    (typ, pos, String::from(val))
}

fn joined(items: &Vec<Rc<Item>>) -> String {
    let mut s = String::new();
    for i in items {
        if i.typ != ItemType::ItemEOF && i.typ != ItemType::ItemError {
            s.push_str(&i.val);
        }
    }
    s
}

#[test]
fn punctuation_in_action() {
    assert_eq!(
        shape(&tokens("{{,@% }}", "", "")),
        vec![
            t(ItemType::ItemLeftDelim, 0, "{{"),
            t(ItemType::ItemChar, 2, ","),
            t(ItemType::ItemChar, 3, "@"),
            t(ItemType::ItemChar, 4, "%"),
            t(ItemType::ItemSpace, 5, " "),
            t(ItemType::ItemRightDelim, 6, "}}"),
            t(ItemType::ItemEOF, 8, ""),
        ]
    );
}

#[test]
fn numbers_separated_by_spaces() {
    assert_eq!(
        shape(&tokens("{{1 02 0x14 -7.2i}}", "", "")),
        vec![
            t(ItemType::ItemLeftDelim, 0, "{{"),
            t(ItemType::ItemNumber, 2, "1"),
            t(ItemType::ItemSpace, 3, " "),
            t(ItemType::ItemNumber, 4, "02"),
            t(ItemType::ItemSpace, 6, " "),
            t(ItemType::ItemNumber, 7, "0x14"),
            t(ItemType::ItemSpace, 11, " "),
            t(ItemType::ItemNumber, 12, "-7.2i"),
            t(ItemType::ItemRightDelim, 17, "}}"),
            t(ItemType::ItemEOF, 19, ""),
        ]
    );
}

#[test]
fn line_break_in_action_is_unclosed_action() {
    assert_eq!(
        shape(&tokens("{{\n}}", "", "")),
        vec![t(ItemType::ItemLeftDelim, 0, "{{"), t(ItemType::ItemError, 2, "unclosed action")]
    );
}

#[test]
fn extra_right_paren_is_an_error_at_once() {
    assert_eq!(
        shape(&tokens("{{3)}}", "", "")),
        vec![
            t(ItemType::ItemLeftDelim, 0, "{{"),
            t(ItemType::ItemNumber, 2, "3"),
            t(ItemType::ItemRightParen, 3, ")"),
            t(ItemType::ItemError, 4, "unexpected right paren ')'"),
        ]
    );
}

#[test]
fn right_paren_alone_leaves_depth_at_zero() {
    let mut l = lex("depth", "{{)}}", "", "");
    l.run();
    assert_eq!(l.paren_depth, 0);
    let mut kinds = Vec::new();
    while let Some(i) = l.next_item() {
        kinds.push(i.typ);
    }
    assert_eq!(
        kinds,
        vec![ItemType::ItemLeftDelim, ItemType::ItemRightParen, ItemType::ItemError]
    );
}

#[test]
fn malformed_comment_is_unclosed() {
    assert_eq!(
        shape(&tokens("hello-{{/*/}}-world", "", "")),
        vec![t(ItemType::ItemText, 0, "hello-"), t(ItemType::ItemError, 6, "unclosed comment")]
    );
}

#[test]
fn plain_text_is_one_token() {
    assert_eq!(
        shape(&tokens("no actions here, just { and }", "", "")),
        vec![
            t(ItemType::ItemText, 0, "no actions here, just { and }"),
            t(ItemType::ItemEOF, 29, ""),
        ]
    );
}

#[test]
fn empty_input_is_only_the_end() {
    assert_eq!(shape(&tokens("", "", "")), vec![t(ItemType::ItemEOF, 0, "")]);
}

#[test]
fn comment_leaves_no_token() {
    assert_eq!(
        shape(&tokens("a{{/* c */}}b", "", "")),
        vec![
            t(ItemType::ItemText, 0, "a"),
            t(ItemType::ItemText, 12, "b"),
            t(ItemType::ItemEOF, 13, ""),
        ]
    );
    assert_eq!(shape(&tokens("{{/**/}}", "", "")), vec![t(ItemType::ItemEOF, 8, "")]);
}

#[test]
fn comment_must_touch_the_right_delimiter() {
    assert_eq!(
        shape(&tokens("{{/* c */ }}", "", "")),
        vec![t(ItemType::ItemError, 0, "comment ends before closing delimiter")]
    );
}

#[test]
fn token_texts_give_the_input_back() {
    let inputs: Vec<&'static str> = vec![
        "",
        "plain",
        "intro {{echo hi 1.2 |noargs|args 1 \"hi\"}} outro",
        "{{$c := printf $ $hello $23 .Field}}",
        "{{'本' `raw\nstring` (.X).Y 1+2i}}",
        "ünïcödé {{ñ}} tèxt",
        "{{",
    ];
    for input in inputs {
        let items = tokens(input, "", "");
        assert_eq!(joined(&items), input);
    }
}

#[test]
fn token_texts_stop_at_the_fault() {
    let items = tokens("ab{{3k}}cd", "", "");
    assert_eq!(items.last().unwrap().typ, ItemType::ItemError);
    assert_eq!(joined(&items), "ab{{");
    let with_comment = tokens("ab{{/* c */}}cd", "", "");
    assert_eq!(joined(&with_comment), "abcd");
}

#[test]
fn same_input_gives_same_tokens() {
    for input in ["{{range .x}}y{{end}}", "a{{3k}}", "{{\"s\" 'c' `r`}}"] {
        assert_eq!(shape(&tokens(input, "", "")), shape(&tokens(input, "", "")));
    }
}

#[test]
fn delimiters_can_be_chosen() {
    assert_eq!(
        shape(&tokens("a<<.x>>b{{", "<<", ">>")),
        vec![
            t(ItemType::ItemText, 0, "a"),
            t(ItemType::ItemLeftDelim, 1, "<<"),
            t(ItemType::ItemField, 3, ".x"),
            t(ItemType::ItemRightDelim, 5, ">>"),
            t(ItemType::ItemText, 7, "b{{"),
            t(ItemType::ItemEOF, 10, ""),
        ]
    );
    let l = lex("defaults", "", "", "");
    assert_eq!(l.left_delim, "{{");
    assert_eq!(l.right_delim, "}}");
    let l = lex("left only", "", "[[", "");
    assert_eq!(l.left_delim, "[[");
    assert_eq!(l.right_delim, "}}");
    assert_eq!(l.name, "left only");
}

#[test]
fn comment_with_chosen_delimiters() {
    assert_eq!(
        shape(&tokens("a<</* c */>>b", "<<", ">>")),
        vec![
            t(ItemType::ItemText, 0, "a"),
            t(ItemType::ItemText, 12, "b"),
            t(ItemType::ItemEOF, 13, ""),
        ]
    );
    assert_eq!(
        shape(&tokens("a<</* c */}}b", "<<", ">>")),
        vec![
            t(ItemType::ItemText, 0, "a"),
            t(ItemType::ItemError, 1, "comment ends before closing delimiter"),
        ]
    );
}

#[test]
fn first_rune_of_right_delimiter_ends_a_word(){
    assert_eq!(
        shape(&tokens("<<x>>", "<<", ">>")),
        vec![
            t(ItemType::ItemLeftDelim, 0, "<<"),
            t(ItemType::ItemIdentifier, 2, "x"),
            t(ItemType::ItemRightDelim, 3, ">>"),
            t(ItemType::ItemEOF, 5, ""),
        ]
    );
    assert_eq!(
        shape(&tokens("{{x>}}", "", "")),
        vec![t(ItemType::ItemLeftDelim, 0, "{{"), t(ItemType::ItemError, 2, "bad character >")]
    );
}

#[test]
fn positions_are_byte_offsets() {
    assert_eq!(
        shape(&tokens("héé{{本本 é}}", "", "")),
        vec![
            t(ItemType::ItemText, 0, "héé"),
            t(ItemType::ItemLeftDelim, 5, "{{"),
            t(ItemType::ItemIdentifier, 7, "本本"),
            t(ItemType::ItemSpace, 13, " "),
            t(ItemType::ItemIdentifier, 14, "é"),
            t(ItemType::ItemRightDelim, 16, "}}"),
            t(ItemType::ItemEOF, 18, ""),
        ]
    );
}

#[test]
fn field_may_start_with_a_wide_rune() {
    assert_eq!(
        shape(&tokens("{{.本}}", "", "")),
        vec![
            t(ItemType::ItemLeftDelim, 0, "{{"),
            t(ItemType::ItemField, 2, ".本"),
            t(ItemType::ItemRightDelim, 6, "}}"),
            t(ItemType::ItemEOF, 8, ""),
        ]
    );
}

#[test]
fn colon_must_be_followed_by_equals() {
    assert_eq!(
        shape(&tokens("{{:", "", "")),
        vec![t(ItemType::ItemLeftDelim, 0, "{{"), t(ItemType::ItemError, 2, "expected :=")]
    );
    assert_eq!(
        shape(&tokens("{{:x}}", "", "")),
        vec![t(ItemType::ItemLeftDelim, 0, "{{"), t(ItemType::ItemError, 2, "expected :=")]
    );
}

#[test]
fn dot_at_end_of_input_is_a_number() {
    assert_eq!(
        shape(&tokens("{{.", "", "")),
        vec![
            t(ItemType::ItemLeftDelim, 0, "{{"),
            t(ItemType::ItemNumber, 2, "."),
            t(ItemType::ItemError, 3, "unclosed action"),
        ]
    );
}

#[test]
fn number_forms() {
    for good in ["0x1F", "1e+5", "+.5", "-0", "12.", "0X0i", "7i", "1e5i"] {
        let input: &'static str = Box::leak(format!("{{{{{}}}}}", good).into_boxed_str());
        assert_eq!(
            shape(&tokens(input, "", "")),
            vec![
                t(ItemType::ItemLeftDelim, 0, "{{"),
                t(ItemType::ItemNumber, 2, good),
                t(ItemType::ItemRightDelim, 2 + good.len(), "}}"),
                t(ItemType::ItemEOF, 4 + good.len(), ""),
            ]
        );
    }
}

#[test]
fn second_part_of_complex_must_end_in_i() {
    assert_eq!(
        shape(&tokens("{{1+2i}}", "", "")),
        vec![
            t(ItemType::ItemLeftDelim, 0, "{{"),
            t(ItemType::ItemComplex, 2, "1+2i"),
            t(ItemType::ItemRightDelim, 6, "}}"),
            t(ItemType::ItemEOF, 8, ""),
        ]
    );
    assert_eq!(
        shape(&tokens("{{1+2}}", "", "")),
        vec![
            t(ItemType::ItemLeftDelim, 0, "{{"),
            t(ItemType::ItemError, 2, "bad number syntax: \"1+2\""),
        ]
    );
    assert_eq!(
        shape(&tokens("{{1i-2x}}", "", "")),
        vec![
            t(ItemType::ItemLeftDelim, 0, "{{"),
            t(ItemType::ItemError, 2, "bad number syntax: \"1i-2x\""),
        ]
    );
}

#[test]
fn bad_number_quotes_the_wide_rune_that_spoils_it() {
    assert_eq!(
        shape(&tokens("{{3é}}", "", "")),
        vec![
            t(ItemType::ItemLeftDelim, 0, "{{"),
            t(ItemType::ItemError, 2, "bad number syntax: \"3é\""),
        ]
    );
}

#[test]
fn bad_character_after_a_name() {
    assert_eq!(
        shape(&tokens("{{$x=}}", "", "")),
        vec![t(ItemType::ItemLeftDelim, 0, "{{"), t(ItemType::ItemError, 2, "bad character =")]
    );
    assert_eq!(
        shape(&tokens("{{abc€}}", "", "")),
        vec![t(ItemType::ItemLeftDelim, 0, "{{"), t(ItemType::ItemError, 2, "bad character €")]
    );
    assert_eq!(
        shape(&tokens("{{.f\"}}", "", "")),
        vec![t(ItemType::ItemLeftDelim, 0, "{{"), t(ItemType::ItemError, 2, "bad character \"")]
    );
}

#[test]
fn characters_that_no_token_starts_with() {
    assert_eq!(
        shape(&tokens("{{~}}", "", "")),
        vec![
            t(ItemType::ItemLeftDelim, 0, "{{"),
            t(ItemType::ItemError, 2, "unrecognized character in action: ~"),
        ]
    );
    assert_eq!(
        shape(&tokens("{{€}}", "", "")),
        vec![
            t(ItemType::ItemLeftDelim, 0, "{{"),
            t(ItemType::ItemError, 2, "unrecognized character in action: €"),
        ]
    );
    assert_eq!(
        shape(&tokens("{{}", "", "")),
        vec![
            t(ItemType::ItemLeftDelim, 0, "{{"),
            t(ItemType::ItemChar, 2, "}"),
            t(ItemType::ItemError, 3, "unclosed action"),
        ]
    );
}

#[test]
fn unterminated_literals() {
    assert_eq!(
        shape(&tokens("{{\"abc", "", "")),
        vec![
            t(ItemType::ItemLeftDelim, 0, "{{"),
            t(ItemType::ItemError, 2, "unterminated quoted string"),
        ]
    );
    assert_eq!(
        shape(&tokens("{{\"abc\\\n\"}}", "", "")),
        vec![
            t(ItemType::ItemLeftDelim, 0, "{{"),
            t(ItemType::ItemError, 2, "unterminated quoted string"),
        ]
    );
    assert_eq!(
        shape(&tokens("{{'a\\", "", "")),
        vec![
            t(ItemType::ItemLeftDelim, 0, "{{"),
            t(ItemType::ItemError, 2, "unterminated character constant"),
        ]
    );
    assert_eq!(
        shape(&tokens("{{`abc", "", "")),
        vec![
            t(ItemType::ItemLeftDelim, 0, "{{"),
            t(ItemType::ItemError, 2, "unterminated raw quoted string"),
        ]
    );
}

#[test]
fn unclosed_left_paren() {
    assert_eq!(
        shape(&tokens("{{(}}", "", "")),
        vec![
            t(ItemType::ItemLeftDelim, 0, "{{"),
            t(ItemType::ItemLeftParen, 2, "("),
            t(ItemType::ItemError, 3, "unclosed left paren"),
        ]
    );
}

#[test]
fn paren_depth_is_reset_by_the_next_action() {
    let mut l = lex("depth", "{{(1)}}{{((", "", "");
    l.run();
    assert_eq!(l.paren_depth, 2);
    l.drain();
    assert!(l.next_item().is_none());
}

#[test]
fn words_and_their_kinds() {
    assert_eq!(
        shape(&tokens("{{define template nil truex _a1 true}}", "", "")),
        vec![
            t(ItemType::ItemLeftDelim, 0, "{{"),
            t(ItemType::ItemDefine, 2, "define"),
            t(ItemType::ItemSpace, 8, " "),
            t(ItemType::ItemTemplate, 9, "template"),
            t(ItemType::ItemSpace, 17, " "),
            t(ItemType::ItemNil, 18, "nil"),
            t(ItemType::ItemSpace, 21, " "),
            t(ItemType::ItemIdentifier, 22, "truex"),
            t(ItemType::ItemSpace, 27, " "),
            t(ItemType::ItemIdentifier, 28, "_a1"),
            t(ItemType::ItemSpace, 31, " "),
            t(ItemType::ItemBool, 32, "true"),
            t(ItemType::ItemRightDelim, 36, "}}"),
            t(ItemType::ItemEOF, 38, ""),
        ]
    );
}

#[test]
fn tabs_and_spaces_are_one_space_token() {
    assert_eq!(
        shape(&tokens("{{ \t x}}", "", "")),
        vec![
            t(ItemType::ItemLeftDelim, 0, "{{"),
            t(ItemType::ItemSpace, 2, " \t "),
            t(ItemType::ItemIdentifier, 5, "x"),
            t(ItemType::ItemRightDelim, 6, "}}"),
            t(ItemType::ItemEOF, 8, ""),
        ]
    );
}

fn all_strings(alphabet: &[&str], len: usize) -> Vec<String> {
    let mut out = vec![String::new()];
    let mut last = vec![String::new()];
    for _ in 0..len {
        let mut next = Vec::new();
        for s in &last {
            for a in alphabet {
                next.push(format!("{}{}", s, a));
            }
        }
        out.extend(next.iter().cloned());
        last = next;
    }
    out
}

#[test]
fn short_inputs_are_tiled_by_their_tokens() {
    let alphabet = ["{{", "}}", "/*", "*/", " ", "x", "1", ".", "$", "\"", "(", ")", "é", "\n", "+"];
    for body in all_strings(&alphabet, 4) {
        let input: &'static str = Box::leak(body.into_boxed_str());
        let items = tokens(input, "", "");
        let last = items.last().unwrap();
        assert!(last.typ == ItemType::ItemEOF || last.typ == ItemType::ItemError, "{:?}", input);
        let mut at = 0;
        let mut dropped = false;
        for (k, i) in items.iter().enumerate() {
            let synthetic = i.typ == ItemType::ItemEOF || i.typ == ItemType::ItemError;
            assert_eq!(synthetic, k + 1 == items.len(), "{:?}", input);
            assert!(at <= i.pos && i.pos <= input.len(), "{:?}", input);
            if i.pos > at {
                dropped = true;
                assert!(input[at..i.pos].starts_with("{{/*"), "{:?}", input);
                assert!(input[at..i.pos].ends_with("*/}}"), "{:?}", input);
            }
            if synthetic {
                at = i.pos;
            } else {
                assert_eq!(&input[i.pos..i.pos + i.val.len()], i.val.as_str(), "{:?}", input);
                assert!(!i.val.is_empty(), "{:?}", input);
                at = i.pos + i.val.len();
            }
        }
        if last.typ == ItemType::ItemEOF {
            assert_eq!(last.pos, input.len(), "{:?}", input);
        }
        if !dropped {
            assert_eq!(joined(&items), &input[..last.pos], "{:?}", input);
        }
    }
}
