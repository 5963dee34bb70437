//! Tokens and the queue that carries them from the lexer to its consumer.

use std::rc::Rc;
use vstd::prelude::*;
use vstd::string::StringExecFns;

verus! {

/// A byte offset into the input text.
pub type Pos = usize;

/// The kinds of token.
///
/// The kinds after `ItemKeyword` are the reserved words and the lone dot.
#[derive(Clone, Copy, Debug, PartialEq, Eq, Structural, Hash, PartialOrd)]
pub enum ItemType {
    ItemError,
    ItemBool,
    ItemChar,
    ItemCharConstant,
    ItemComplex,
    ItemColonEquals,
    ItemEOF,
    ItemField,
    ItemIdentifier,
    ItemLeftDelim,
    ItemLeftParen,
    ItemNumber,
    ItemPipe,
    ItemRawString,
    ItemRightDelim,
    ItemRightParen,
    ItemSpace,
    ItemString,
    ItemText,
    ItemVariable,
    ItemKeyword,
    ItemDot,
    ItemDefine,
    ItemElse,
    ItemEnd,
    ItemIf,
    ItemNil,
    ItemRange,
    ItemTemplate,
    ItemWith,
}

impl ItemType {
    /// The place of a kind in the order of the declaration.
    pub open spec fn rank(self) -> int {
        match self {
            ItemType::ItemError => 0,
            ItemType::ItemBool => 1,
            ItemType::ItemChar => 2,
            ItemType::ItemCharConstant => 3,
            ItemType::ItemComplex => 4,
            ItemType::ItemColonEquals => 5,
            ItemType::ItemEOF => 6,
            ItemType::ItemField => 7,
            ItemType::ItemIdentifier => 8,
            ItemType::ItemLeftDelim => 9,
            ItemType::ItemLeftParen => 10,
            ItemType::ItemNumber => 11,
            ItemType::ItemPipe => 12,
            ItemType::ItemRawString => 13,
            ItemType::ItemRightDelim => 14,
            ItemType::ItemRightParen => 15,
            ItemType::ItemSpace => 16,
            ItemType::ItemString => 17,
            ItemType::ItemText => 18,
            ItemType::ItemVariable => 19,
            ItemType::ItemKeyword => 20,
            ItemType::ItemDot => 21,
            ItemType::ItemDefine => 22,
            ItemType::ItemElse => 23,
            ItemType::ItemEnd => 24,
            ItemType::ItemIf => 25,
            ItemType::ItemNil => 26,
            ItemType::ItemRange => 27,
            ItemType::ItemTemplate => 28,
            ItemType::ItemWith => 29,
        }
    }

    /// The name of a kind in diagnostics.
    pub open spec fn name(self) -> Seq<char> {
        match self {
            ItemType::ItemError => "error"@,
            ItemType::ItemBool => "bool"@,
            ItemType::ItemChar => "char"@,
            ItemType::ItemCharConstant => "charconst"@,
            ItemType::ItemComplex => "complex"@,
            ItemType::ItemColonEquals => ":="@,
            ItemType::ItemEOF => "EOF"@,
            ItemType::ItemField => "field"@,
            ItemType::ItemIdentifier => "identifier"@,
            ItemType::ItemLeftDelim => "left delim"@,
            ItemType::ItemLeftParen => "("@,
            ItemType::ItemNumber => "number"@,
            ItemType::ItemPipe => "pipe"@,
            ItemType::ItemRawString => "raw string"@,
            ItemType::ItemRightDelim => "right delim"@,
            ItemType::ItemRightParen => ")"@,
            ItemType::ItemSpace => "space"@,
            ItemType::ItemString => "string"@,
            ItemType::ItemText => "item ItemText"@,
            ItemType::ItemVariable => "variable"@,
            ItemType::ItemKeyword => "item ItemKeyword"@,
            ItemType::ItemDot => "."@,
            ItemType::ItemDefine => "define"@,
            ItemType::ItemElse => "else"@,
            ItemType::ItemEnd => "end"@,
            ItemType::ItemIf => "if"@,
            ItemType::ItemNil => "nil"@,
            ItemType::ItemRange => "range"@,
            ItemType::ItemTemplate => "template"@,
            ItemType::ItemWith => "with"@,
        }
    }

    /// The name of the kind in diagnostics.
    pub fn to_string(&self) -> (r: String)
        ensures
            r@ == self.name(),
    {
        let s = match self {
            ItemType::ItemError => "error",
            ItemType::ItemBool => "bool",
            ItemType::ItemChar => "char",
            ItemType::ItemCharConstant => "charconst",
            ItemType::ItemComplex => "complex",
            ItemType::ItemColonEquals => ":=",
            ItemType::ItemEOF => "EOF",
            ItemType::ItemField => "field",
            ItemType::ItemIdentifier => "identifier",
            ItemType::ItemLeftDelim => "left delim",
            ItemType::ItemLeftParen => "(",
            ItemType::ItemNumber => "number",
            ItemType::ItemPipe => "pipe",
            ItemType::ItemRawString => "raw string",
            ItemType::ItemRightDelim => "right delim",
            ItemType::ItemRightParen => ")",
            ItemType::ItemSpace => "space",
            ItemType::ItemString => "string",
            ItemType::ItemText => "item ItemText",
            ItemType::ItemVariable => "variable",
            ItemType::ItemKeyword => "item ItemKeyword",
            ItemType::ItemDot => ".",
            ItemType::ItemDefine => "define",
            ItemType::ItemElse => "else",
            ItemType::ItemEnd => "end",
            ItemType::ItemIf => "if",
            ItemType::ItemNil => "nil",
            ItemType::ItemRange => "range",
            ItemType::ItemTemplate => "template",
            ItemType::ItemWith => "with",
        };
        String::from_str(s)
    }

    /// A kind that stands for no span of the input: the end of input, or a fault.
    pub open spec fn synthetic(self) -> bool {
        self == ItemType::ItemEOF || self == ItemType::ItemError
    }

    /// Tells whether the kind comes after the `ItemKeyword` marker.
    pub fn is_reserved(self) -> (r: bool)
        ensures
            r == (self.rank() > ItemType::ItemKeyword.rank()),
    {
        match self {
            ItemType::ItemDot
            | ItemType::ItemDefine
            | ItemType::ItemElse
            | ItemType::ItemEnd
            | ItemType::ItemIf
            | ItemType::ItemNil
            | ItemType::ItemRange
            | ItemType::ItemTemplate
            | ItemType::ItemWith => true,
            _ => false,
        }
    }
}

/// A token: its kind, where it starts, and its text.
#[derive(Debug)]
pub struct Item {
    pub typ: ItemType,
    pub pos: Pos,
    pub val: String,
}

/// What a token is, as plain values.
pub struct ItemView {
    pub typ: ItemType,
    pub pos: int,
    pub val: Seq<char>,
}

impl View for Item {
    type V = ItemView;

    open spec fn view(&self) -> ItemView {
        ItemView { typ: self.typ, pos: self.pos as int, val: self.val@ }
    }
}

/// What `{:?}` makes of a text: the text in double quotes, with escapes.
pub uninterp spec fn debug_quoted(s: Seq<char>) -> Seq<char>;

/// What `{:.10?}` makes of a text.
pub uninterp spec fn debug_quoted_short(s: Seq<char>) -> Seq<char>;

/// `format!` of the standard library with `{:?}` on a text: the result depends on the text
/// alone, and is given the name `debug_quoted`.
#[verifier::external_body]
fn quote(s: &str) -> (r: String)
    ensures
        r@ == debug_quoted(s@),
{
    format!("{:?}", s)
}

/// `format!` of the standard library with `{:.10?}` on a text: the result depends on the text
/// alone, and is given the name `debug_quoted_short`.
#[verifier::external_body]
fn quote_short(s: &str) -> (r: String)
    ensures
        r@ == debug_quoted_short(s@),
{
    format!("{:.10?}", s)
}

impl Item {
    /// How the token reads in diagnostics.
    pub open spec fn display(self) -> Seq<char> {
        match self.typ {
            ItemType::ItemEOF => "EOF"@,
            ItemType::ItemError => self.val@,
            ItemType::ItemKeyword => "<"@ + self.val@ + ">"@,
            _ => if vstd::utf8::encode_utf8(self.val@).len() > 10 {
                debug_quoted_short(self.val@)
            } else {
                debug_quoted(self.val@)
            },
        }
    }

    /// Renders the token for diagnostics: `EOF` for the end of input, the message of an
    /// error, a keyword in angle brackets, and any other text quoted.
    pub fn to_string(&self) -> (r: String)
        ensures
            r@ == self.display(),
    {
        match self.typ {
            ItemType::ItemEOF => String::from_str("EOF"),
            ItemType::ItemError => self.val.clone(),
            ItemType::ItemKeyword => {
                let mut s = String::from_str("<");
                s.append(self.val.as_str());
                s.append(">");
                s
            },
            _ => {
                if self.val.as_str().as_bytes().len() > 10 {
                    quote_short(self.val.as_str())
                } else {
                    quote(self.val.as_str())
                }
            },
        }
    }
}

/// `Rc::clone` of the standard library: the new handle refers to the value of the old one.
#[verifier::external_body]
fn share(item: &Rc<Item>) -> (r: Rc<Item>)
    ensures
        r == *item,
{
    item.clone()
}

/// An append-only queue of tokens with one read cursor.
#[derive(Debug)]
pub struct Channel {
    pub index: usize,
    pub items: Vec<Rc<Item>>,
}

impl Channel {
    /// The tokens in the queue, read or not, in the order in which they were pushed.
    pub open spec fn tokens(&self) -> Seq<ItemView> {
        Seq::new(self.items@.len(), |i: int| self.items@[i]@)
    }

    /// The read cursor is within the queue.
    pub open spec fn wf(&self) -> bool {
        self.index <= self.items@.len()
    }

    /// The number of tokens not yet read.
    pub open spec fn pending(&self) -> int {
        self.items@.len() - self.index
    }

    /// Adds `item` at the end of the queue.
    pub fn push(&mut self, item: Item)
        ensures
            final(self).index == old(self).index,
            final(self).items@.len() == old(self).items@.len() + 1,
            final(self).items@ == old(self).items@.push(final(self).items@.last()),
            final(self).items@.last()@ == item@,
            final(self).tokens() == old(self).tokens().push(item@),
    {
        self.items.push(Rc::new(item));
        assert(self.tokens() =~= old(self).tokens().push(item@));
    }

    /// Hands out the token under the read cursor and moves the cursor on; nothing where the queue is read to its end.
    pub fn next(&mut self) -> (r: Option<Rc<Item>>)
        ensures
            final(self).items == old(self).items,
            old(self).index < old(self).items@.len() ==> r == Some(old(self).items@[old(self).index as int])
                && final(self).index == old(self).index + 1,
            old(self).index >= old(self).items@.len() ==> r is None && final(self).index == old(
                self,
            ).index,
    {
        if self.items.len() > self.index {
            let item = share(&self.items[self.index]);
            self.index = self.index + 1;
            return Some(item);
        }
        None
    }
}

/// The states of the lexer.
#[derive(Clone, Copy, Debug, PartialEq, Eq, Structural)]
pub enum State {
    Text,
    LeftDelim,
    RightDelim,
    Comment,
    Space,
    InsideAction,
    Quote,
    RawQuote,
    Variable,
    Char,
    Field,
    Number,
    Identifier,
}

} // verus!
