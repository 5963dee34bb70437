//! The tree that a parser builds for one template.

use crate::lexer::Lexer;
use crate::node::{copied, list_shape, ListNode};
use crate::token::Item;
use vstd::prelude::*;
use vstd::string::StringExecFns;

verus! {

/// A parsed template: its name, its root, and what the parser keeps while it works.
pub struct Tree {
    /// The name of the template.
    pub name: String,
    /// The name of the top-level template during parsing, for error messages.
    pub parse_name: String,
    /// The top of the tree.
    pub root: Box<ListNode>,
    /// The text that was parsed.
    pub text: String,
    /// The lexer, while the parser works.
    pub lex: Option<Box<Lexer>>,
    /// The tokens looked ahead at.
    pub token: [Option<Item>; 3],
    /// How many tokens were looked ahead at.
    pub peek_count: i8,
    /// The variables defined at the moment.
    pub vars: Vec<String>,
}

impl Tree {
    /// A tree named `name` over `text`, with `root` as its top and no parser at work.
    pub fn new(name: &str, text: &str, root: ListNode) -> (r: Tree)
        ensures
            r.name@ == name@,
            r.parse_name@ == name@,
            r.text@ == text@,
            *r.root == root,
            r.lex is None,
            r.token[0] is None && r.token[1] is None && r.token[2] is None,
            r.peek_count == 0,
            r.vars@.len() == 0,
    {
        Tree {
            name: String::from_str(name),
            parse_name: String::from_str(name),
            root: Box::new(root),
            text: String::from_str(text),
            lex: None,
            token: [None, None, None],
            peek_count: 0,
            vars: Vec::new(),
        }
    }

    /// A tree of its own with the same name and text and a deep copy of the root, with no
    /// parser at work. Its parse name is the name.
    pub fn copy(&self) -> (r: Box<Tree>)
        ensures
            r.name@ == self.name@,
            r.parse_name@ == self.name@,
            r.text@ == self.text@,
            list_shape(*r.root) == copied(list_shape(*self.root)),
            r.lex is None,
            r.token[0] is None && r.token[1] is None && r.token[2] is None,
            r.peek_count == 0,
            r.vars@.len() == 0,
    {
        let tree = Tree {
            name: self.name.clone(),
            parse_name: self.name.clone(),
            root: Box::new(self.root.copy_list()),
            text: self.text.clone(),
            lex: None,
            token: [None, None, None],
            peek_count: 0,
            vars: Vec::new(),
        };
        Box::new(tree)
    }
}

} // verus!
