use template_lexer::chars::{is_alphanumeric, is_digit, is_end_of_line, is_print, is_space};
use template_lexer::lexer::{contains_char, rune_of, same_text, slice_of};
use template_lexer::node::{NodeType, TextNode};
use template_lexer::runes::{find_bytes, has_prefix_at};
use template_lexer::states::{is_keyword, left_comment, right_comment, state_field_or_variable};
use template_lexer::{is_char_boundary, lex, Channel, Item, ItemType, State};

#[test]
fn next_steps_over_whole_runes() {
    let mut l = lex("runes", "a本本é", "", "");
    assert_eq!(l.next(), Some('a'));
    assert_eq!((l.pos, l.width), (1, 1));
    assert_eq!(l.next(), Some('本'));
    assert_eq!((l.pos, l.width), (4, 3));
    assert_eq!(l.next(), Some('本'));
    assert_eq!((l.pos, l.width), (7, 3));
    assert_eq!(l.next(), Some('é'));
    assert_eq!((l.pos, l.width), (9, 2));
    assert_eq!(l.next(), None);
    assert_eq!((l.pos, l.width), (9, 0));
}

#[test]
fn next_reads_four_byte_runes() {
    let mut l = lex("runes", "😀x", "", "");
    assert_eq!(l.next(), Some('😀'));
    assert_eq!((l.pos, l.width), (4, 4));
    assert_eq!(l.next(), Some('x'));
    assert_eq!((l.pos, l.width), (5, 1));
}

#[test]
fn backup_gives_the_last_rune_back() {
    let mut l = lex("runes", "é!", "", "");
    assert_eq!(l.next(), Some('é'));
    l.backup();
    assert_eq!(l.pos, 0);
    assert_eq!(l.next(), Some('é'));
    assert_eq!(l.next(), Some('!'));
    l.backup();
    assert_eq!(l.pos, 2);
    assert_eq!(l.next(), Some('!'));
    assert_eq!(l.next(), None);
    l.backup();
    assert_eq!(l.pos, 3);
}

#[test]
fn peek_leaves_the_cursor() {
    let mut l = lex("runes", "本", "", "");
    assert_eq!(l.peek(), Some('本'));
    assert_eq!((l.pos, l.width), (0, 3));
    assert_eq!(l.next(), Some('本'));
    assert_eq!(l.peek(), None);
    assert_eq!((l.pos, l.width), (3, 0));
}

#[test]
fn emit_cuts_the_pending_span() {
    let mut l = lex("emit", "héllo", "", "");
    l.next();
    l.next();
    l.emit(ItemType::ItemText);
    assert_eq!((l.start, l.pos), (3, 3));
    l.next();
    l.ignore();
    assert_eq!((l.start, l.pos), (4, 4));
    l.next();
    l.emit(ItemType::ItemIdentifier);
    l.errorf(String::from("stop"));
    assert_eq!((l.start, l.pos), (5, 5));
    let a = l.next_item().unwrap();
    assert_eq!((a.typ, a.pos, a.val.as_str()), (ItemType::ItemText, 0, "hé"));
    let b = l.next_item().unwrap();
    assert_eq!((b.typ, b.pos, b.val.as_str()), (ItemType::ItemIdentifier, 4, "l"));
    let c = l.next_item().unwrap();
    assert_eq!((c.typ, c.pos, c.val.as_str()), (ItemType::ItemError, 5, "stop"));
    assert!(l.next_item().is_none());
}

#[test]
fn accept_takes_one_rune_of_a_set() {
    let mut l = lex("accept", "+12ab", "", "");
    assert!(l.accept("+-"));
    assert_eq!(l.pos, 1);
    assert!(!l.accept("+-"));
    assert_eq!(l.pos, 1);
    l.accept_run("0123456789");
    assert_eq!(l.pos, 3);
    l.accept_run("0123456789");
    assert_eq!(l.pos, 3);
    l.accept_run("ab");
    assert_eq!((l.pos, l.width), (5, 0));
    assert!(!l.accept("ab"));
}

#[test]
fn scan_number_stops_after_the_literal() {
    let mut l = lex("number", "0x1fg", "", "");
    assert!(!l.scan_number());
    assert_eq!(l.pos, 5);
    let mut l = lex("number", "-1.5e-3i)", "", "");
    assert!(l.scan_number());
    assert_eq!(l.pos, 8);
    let mut l = lex("number", "08.e", "", "");
    assert!(l.scan_number());
    assert_eq!(l.pos, 4);
}

#[test]
fn terminators() {
    for (input, want) in [
        ("", true),
        (" ", true),
        ("\t", true),
        ("\r", true),
        ("\n", true),
        (".", true),
        (",", true),
        ("|", true),
        (":", true),
        (")", true),
        ("(", true),
        ("}", true),
        ("x", false),
        ("=", false),
        ("{", false),
        ("本", false),
    ] {
        let mut l = lex("terminator", input, "", "");
        assert_eq!(l.at_terminator(), want, "{:?}", input);
        assert_eq!(l.pos, 0);
    }
    let mut l = lex("terminator", "本", "", "本本");
    assert!(l.at_terminator());
}

#[test]
fn field_or_variable_alone_or_named() {
    let mut l = lex("field", ". ", "", "");
    l.next();
    assert_eq!(state_field_or_variable(&mut l, ItemType::ItemField), Some(State::InsideAction));
    assert_eq!(l.next_item().unwrap().typ, ItemType::ItemDot);
    let mut l = lex("variable", "$ ", "", "");
    l.next();
    assert_eq!(state_field_or_variable(&mut l, ItemType::ItemVariable), Some(State::InsideAction));
    assert_eq!(l.next_item().unwrap().typ, ItemType::ItemVariable);
    let mut l = lex("field", ".ab!", "", "");
    l.next();
    assert_eq!(state_field_or_variable(&mut l, ItemType::ItemField), None);
    let e = l.next_item().unwrap();
    assert_eq!((e.typ, e.val.as_str()), (ItemType::ItemError, "bad character !"));
}

#[test]
fn scan_runs_one_state() {
    let mut l = lex("scan", "ab{{x}}", "", "");
    assert_eq!(l.scan(State::Text), Some(State::LeftDelim));
    assert_eq!((l.start, l.pos), (2, 2));
    assert_eq!(l.scan(State::LeftDelim), Some(State::InsideAction));
    assert_eq!(l.scan(State::InsideAction), Some(State::Identifier));
    assert_eq!(l.pos, 4);
    assert_eq!(l.scan(State::Identifier), Some(State::InsideAction));
    assert_eq!(l.scan(State::InsideAction), Some(State::RightDelim));
    assert_eq!(l.scan(State::RightDelim), Some(State::Text));
    assert_eq!(l.scan(State::Text), None);
    assert_eq!(l.items.items.len(), 5);
}

#[test]
fn line_number_counts_line_feeds_before_the_last_token() {
    let mut l = lex("lines", "a\nb\n{{x\n", "", "");
    assert_eq!(l.line_number(), 1);
    l.run();
    let text = l.next_item().unwrap();
    assert_eq!(text.pos, 0);
    assert_eq!(l.line_number(), 1);
    let left = l.next_item().unwrap();
    assert_eq!((left.typ, left.pos), (ItemType::ItemLeftDelim, 4));
    assert_eq!(l.last_pos, 4);
    assert_eq!(l.line_number(), 3);
    l.next_item();
    let err = l.next_item().unwrap();
    assert_eq!((err.typ, err.pos), (ItemType::ItemError, 7));
    assert_eq!(l.line_number(), 3);
}

#[test]
fn next_item_hands_out_in_order_and_then_nothing() {
    let mut l = lex("queue", "a{{b}}", "", "");
    l.run();
    let first = l.next_item().unwrap();
    assert_eq!((first.typ, first.val.as_str()), (ItemType::ItemText, "a"));
    assert_eq!(l.items.index, 1);
    let again = l.items.items[0].clone();
    assert_eq!(again.val, first.val);
    l.drain();
    assert_eq!(l.items.index, 5);
    assert!(l.next_item().is_none());
    assert_eq!(l.items.index, 5);
}

#[test]
fn channel_is_first_in_first_out() {
    let mut c = Channel { index: 0, items: Vec::new() };
    assert!(c.next().is_none());
    c.push(Item { typ: ItemType::ItemText, pos: 0, val: String::from("a") });
    c.push(Item { typ: ItemType::ItemEOF, pos: 1, val: String::new() });
    assert_eq!(c.next().unwrap().val, "a");
    assert_eq!(c.next().unwrap().typ, ItemType::ItemEOF);
    assert!(c.next().is_none());
    assert_eq!(c.index, 2);
}

#[test]
fn char_boundaries() {
    let s = "aé本";
    let want = [true, true, false, true, false, false, true, false];
    for (i, w) in want.iter().enumerate() {
        assert_eq!(is_char_boundary(s, i), *w, "{}", i);
        assert_eq!(is_char_boundary(s, i), s.is_char_boundary(i));
    }
}

#[test]
fn byte_patterns() {
    let b = "ab*/ab*/".as_bytes();
    assert!(has_prefix_at(b, 2, "*/".as_bytes()));
    assert!(!has_prefix_at(b, 3, "*/".as_bytes()));
    assert!(!has_prefix_at(b, 7, "*/".as_bytes()));
    assert!(has_prefix_at(b, 8, "".as_bytes()));
    assert!(!has_prefix_at(b, 9, "".as_bytes()));
    assert_eq!(find_bytes(b, 0, "*/".as_bytes()), Some(2));
    assert_eq!(find_bytes(b, 3, "*/".as_bytes()), Some(6));
    assert_eq!(find_bytes(b, 7, "*/".as_bytes()), None);
    assert_eq!(left_comment(), "/*");
    assert_eq!(right_comment(), "*/");
}

#[test]
fn texts_and_runes() {
    assert!(contains_char("0123456789", '7'));
    assert!(!contains_char("0123456789", 'a'));
    assert!(!contains_char("", 'a'));
    assert!(same_text("end", "end"));
    assert!(!same_text("end", "ends"));
    assert!(!same_text("end", "enz"));
    assert!(same_text("", ""));
    assert_eq!(slice_of("a本b", 1, 4), "本");
    assert_eq!(slice_of("a本b", 4, 4), "");
    assert_eq!(rune_of("a本b", 1), '本');
    assert_eq!(rune_of("a本b", 4), 'b');
}

#[test]
fn character_classes() {
    assert!(is_space(' ') && is_space('\t') && !is_space('\n') && !is_space('x'));
    assert!(is_end_of_line('\r') && is_end_of_line('\n') && !is_end_of_line(' '));
    assert!(is_print('!') && is_print('}') && !is_print(' ') && !is_print('~'));
    assert!(!is_print('\u{7f}') && !is_print('é'));
    assert!(is_digit('0') && is_digit('9') && !is_digit('a') && !is_digit('/'));
    assert!(is_alphanumeric(Some('_')) && is_alphanumeric(Some('x')) && is_alphanumeric(Some('7')));
    assert!(is_alphanumeric(Some('é')) && is_alphanumeric(Some('本')));
    assert!(!is_alphanumeric(Some('-')) && !is_alphanumeric(Some('€')) && !is_alphanumeric(None));
}

#[test]
fn reserved_words() {
    assert_eq!(is_keyword("."), Some(ItemType::ItemDot));
    assert_eq!(is_keyword("define"), Some(ItemType::ItemDefine));
    assert_eq!(is_keyword("else"), Some(ItemType::ItemElse));
    assert_eq!(is_keyword("if"), Some(ItemType::ItemIf));
    assert_eq!(is_keyword("range"), Some(ItemType::ItemRange));
    assert_eq!(is_keyword("nil"), Some(ItemType::ItemNil));
    assert_eq!(is_keyword("template"), Some(ItemType::ItemTemplate));
    assert_eq!(is_keyword("with"), Some(ItemType::ItemWith));
    assert_eq!(is_keyword("end"), Some(ItemType::ItemEnd));
    assert_eq!(is_keyword("for"), None);
    assert_eq!(is_keyword("End"), None);
    assert!(ItemType::ItemWith.is_reserved() && ItemType::ItemDot.is_reserved());
    assert!(!ItemType::ItemKeyword.is_reserved() && !ItemType::ItemIdentifier.is_reserved());
    assert_eq!(ItemType::ItemWith > ItemType::ItemKeyword, ItemType::ItemWith.is_reserved());
    assert_eq!(ItemType::ItemText > ItemType::ItemKeyword, ItemType::ItemText.is_reserved());
}

#[test]
fn names_of_kinds() {
    assert_eq!(ItemType::ItemError.to_string(), "error");
    assert_eq!(ItemType::ItemColonEquals.to_string(), ":=");
    assert_eq!(ItemType::ItemLeftDelim.to_string(), "left delim");
    assert_eq!(ItemType::ItemRawString.to_string(), "raw string");
    assert_eq!(ItemType::ItemDot.to_string(), ".");
    assert_eq!(ItemType::ItemWith.to_string(), "with");
    assert_eq!(ItemType::ItemText.to_string(), "item ItemText");
    assert_eq!(ItemType::ItemKeyword.to_string(), "item ItemKeyword");
}

#[test]
fn tokens_in_diagnostics() {
    let item = |typ, val: &str| Item { typ, pos: 0, val: String::from(val) };
    assert_eq!(item(ItemType::ItemEOF, "").to_string(), "EOF");
    assert_eq!(item(ItemType::ItemError, "unclosed action").to_string(), "unclosed action");
    assert_eq!(item(ItemType::ItemKeyword, "range").to_string(), "<range>");
    assert_eq!(item(ItemType::ItemText, "abc").to_string(), "\"abc\"");
    assert_eq!(item(ItemType::ItemString, "\"a\"").to_string(), "\"\\\"a\\\"\"");
    assert_eq!(
        item(ItemType::ItemText, "0123456789abc").to_string(),
        format!("{:.10?}", "0123456789abc")
    );
}

#[test]
fn text_nodes() {
    let n = TextNode::new(7, "some text");
    assert_eq!(n.Type(), NodeType::NodeText);
    assert_eq!(n.position(), 7);
    assert_eq!(n.string(), "some text");
    let c = n.copy();
    assert_eq!((c.Type(), c.position(), c.string()), (NodeType::NodeText, 7, String::from("some text")));
    assert_eq!(NodeType::NodePipe.Type(), NodeType::NodePipe);
}
