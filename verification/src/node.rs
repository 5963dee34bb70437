//! The nodes of the syntax tree that a parser builds from the tokens: a closed set of
//! kinds, each with its text form and a deep copy.

use crate::token::Pos;
use vstd::prelude::*;
use vstd::string::StrSliceExecFns;
use vstd::string::StringExecFns;

verus! {

/// The kinds of node.
#[derive(Copy, Clone, Debug, PartialEq, Eq, Structural)]
pub enum NodeType {
    NodeText,
    NodeAction,
    NodeBool,
    NodeChain,
    NodeCommand,
    NodeDot,
    NodeElse,
    NodeEnd,
    NodeField,
    NodeIdentifier,
    NodeIf,
    NodeList,
    NodeNil,
    NodeNumber,
    NodePipe,
    NodeRange,
    NodeString,
    NodeTemplate,
    NodeVariable,
    NodeWith,
}

impl NodeType {
    /// The kind itself.
    #[allow(non_snake_case)]
    pub fn Type(self) -> (r: NodeType)
        ensures
            r == self,
    {
        self
    }
}

/// A sequence of nodes.
#[derive(Debug)]
pub struct ListNode {
    pub node_type: NodeType,
    pub pos: Pos,
    pub nodes: Vec<Node>,
}

/// Literal text between actions.
#[derive(Debug)]
pub struct TextNode {
    pub node_type: NodeType,
    pub pos: Pos,
    pub text: String,
}

/// A pipeline: the variables it declares and the commands it chains.
#[derive(Debug)]
pub struct PipeNode {
    pub node_type: NodeType,
    pub pos: Pos,
    pub line: i32,
    pub decl: Vec<VariableNode>,
    pub cmds: Vec<CommandNode>,
}

/// A variable with the fields that are taken of it: `$x.a.b` is `$x`, `a`, `b`.
#[derive(Debug)]
pub struct VariableNode {
    pub node_type: NodeType,
    pub pos: Pos,
    pub ident: Vec<String>,
}

/// A command: its arguments in order.
#[derive(Debug)]
pub struct CommandNode {
    pub node_type: NodeType,
    pub pos: Pos,
    pub args: Vec<Node>,
}

/// An action: a pipeline between delimiters.
#[derive(Debug)]
pub struct ActionNode {
    pub node_type: NodeType,
    pub pos: Pos,
    pub line: i32,
    pub pipe: PipeNode,
}

/// A node of any kind.
#[derive(Debug)]
pub enum Node {
    List(ListNode),
    Text(TextNode),
    Pipe(PipeNode),
    Variable(VariableNode),
    Command(CommandNode),
    Action(ActionNode),
}

/// What a node is, as plain values.
pub enum Shape {
    List { kind: NodeType, pos: int, nodes: Seq<Shape> },
    Text { kind: NodeType, pos: int, text: Seq<char> },
    Pipe { kind: NodeType, pos: int, line: int, decl: Seq<Shape>, cmds: Seq<Shape> },
    Variable { kind: NodeType, pos: int, ident: Seq<Seq<char>> },
    Command { kind: NodeType, pos: int, args: Seq<Shape> },
    Action { kind: NodeType, pos: int, line: int, pipe: Box<Shape> },
}

impl Shape {
    /// The kind that the node carries.
    pub open spec fn kind(self) -> NodeType {
        match self {
            Shape::List { kind, .. } => kind,
            Shape::Text { kind, .. } => kind,
            Shape::Pipe { kind, .. } => kind,
            Shape::Variable { kind, .. } => kind,
            Shape::Command { kind, .. } => kind,
            Shape::Action { kind, .. } => kind,
        }
    }

    /// Where the node starts in the input.
    pub open spec fn pos(self) -> int {
        match self {
            Shape::List { pos, .. } => pos,
            Shape::Text { pos, .. } => pos,
            Shape::Pipe { pos, .. } => pos,
            Shape::Variable { pos, .. } => pos,
            Shape::Command { pos, .. } => pos,
            Shape::Action { pos, .. } => pos,
        }
    }
}

/// The texts of `s`.
pub open spec fn words(s: Seq<String>) -> Seq<Seq<char>> {
    Seq::new(s.len(), |i: int| s[i]@)
}

/// What a text node is.
pub open spec fn text_shape(t: TextNode) -> Shape {
    Shape::Text { kind: t.node_type, pos: t.pos as int, text: t.text@ }
}

/// What a variable node is.
pub open spec fn variable_shape(v: VariableNode) -> Shape {
    Shape::Variable { kind: v.node_type, pos: v.pos as int, ident: words(v.ident@) }
}

/// What the variable nodes of `s` are.
pub open spec fn variable_shapes(s: Seq<VariableNode>) -> Seq<Shape> {
    Seq::new(s.len(), |i: int| variable_shape(s[i]))
}

/// What a node is.
pub open spec fn node_shape(n: Node) -> Shape
    decreases n, 0nat,
{
    match n {
        Node::List(l) => list_shape(l),
        Node::Text(t) => text_shape(t),
        Node::Pipe(p) => pipe_shape(p),
        Node::Variable(v) => variable_shape(v),
        Node::Command(c) => command_shape(c),
        Node::Action(a) => action_shape(a),
    }
}

/// What a list node is.
pub open spec fn list_shape(l: ListNode) -> Shape
    decreases l, 0nat,
{
    Shape::List { kind: l.node_type, pos: l.pos as int, nodes: node_shapes(l.nodes@) }
}

/// What a command node is.
pub open spec fn command_shape(c: CommandNode) -> Shape
    decreases c, 0nat,
{
    Shape::Command { kind: c.node_type, pos: c.pos as int, args: node_shapes(c.args@) }
}

/// What a pipeline node is.
pub open spec fn pipe_shape(p: PipeNode) -> Shape
    decreases p, 0nat,
{
    Shape::Pipe {
        kind: p.node_type,
        pos: p.pos as int,
        line: p.line as int,
        decl: variable_shapes(p.decl@),
        cmds: command_shapes(p.cmds@),
    }
}

/// What an action node is.
pub open spec fn action_shape(a: ActionNode) -> Shape
    decreases a, 0nat,
{
    Shape::Action {
        kind: a.node_type,
        pos: a.pos as int,
        line: a.line as int,
        pipe: Box::new(pipe_shape(a.pipe)),
    }
}

/// What the nodes of `s` are.
pub open spec fn node_shapes(s: Seq<Node>) -> Seq<Shape>
    decreases s, s.len(),
{
    if s.len() == 0 {
        Seq::empty()
    } else {
        node_shapes(s.drop_last()).push(node_shape(s.last()))
    }
}

/// What the command nodes of `s` are.
pub open spec fn command_shapes(s: Seq<CommandNode>) -> Seq<Shape>
    decreases s, s.len(),
{
    if s.len() == 0 {
        Seq::empty()
    } else {
        command_shapes(s.drop_last()).push(command_shape(s.last()))
    }
}

/// The parts in order with `sep` between them.
pub open spec fn join(parts: Seq<Seq<char>>, sep: Seq<char>) -> Seq<char>
    decreases parts.len(),
{
    if parts.len() == 0 {
        Seq::empty()
    } else if parts.len() == 1 {
        parts[0]
    } else {
        join(parts.drop_last(), sep) + sep + parts.last()
    }
}

/// The text form of a node.
pub open spec fn rendered(s: Shape) -> Seq<char>
    decreases s, 0nat,
{
    match s {
        Shape::List { nodes, .. } => join(rendered_all(nodes), Seq::empty()),
        Shape::Text { text, .. } => text,
        Shape::Pipe { decl, cmds, .. } => (if decl.len() > 0 {
            join(rendered_all(decl), ", "@) + " :="@
        } else {
            Seq::empty()
        }) + join(rendered_all(cmds), " | "@),
        Shape::Variable { ident, .. } => join(ident, "."@),
        Shape::Command { args, .. } => join(rendered_args(args), " "@),
        Shape::Action { pipe, .. } => "{{ "@ + rendered(*pipe) + " }}"@,
    }
}

/// The text forms of the nodes of `s`.
pub open spec fn rendered_all(s: Seq<Shape>) -> Seq<Seq<char>>
    decreases s, s.len(),
{
    if s.len() == 0 {
        Seq::empty()
    } else {
        rendered_all(s.drop_last()).push(rendered(s.last()))
    }
}

/// The text form of an argument: a pipeline stands in parentheses.
pub open spec fn rendered_arg(s: Shape) -> Seq<char>
    decreases s, 1nat,
{
    if s is Pipe {
        "("@ + rendered(s) + ")"@
    } else {
        rendered(s)
    }
}

/// The text forms of the arguments `s`.
pub open spec fn rendered_args(s: Seq<Shape>) -> Seq<Seq<char>>
    decreases s, s.len(),
{
    if s.len() == 0 {
        Seq::empty()
    } else {
        rendered_args(s.drop_last()).push(rendered_arg(s.last()))
    }
}


/// What a deep copy makes of a node: the same contents, with the kind of every list,
/// text and action set to the kind that such a node is made with.
pub open spec fn copied(s: Shape) -> Shape
    decreases s, 0nat,
{
    match s {
        Shape::List { kind, pos, nodes } => Shape::List {
            kind: NodeType::NodeList,
            pos,
            nodes: copied_all(nodes),
        },
        Shape::Text { kind, pos, text } => Shape::Text { kind: NodeType::NodeText, pos, text },
        Shape::Pipe { kind, pos, line, decl, cmds } => Shape::Pipe {
            kind,
            pos,
            line,
            decl,
            cmds: copied_all(cmds),
        },
        Shape::Variable { kind, pos, ident } => s,
        Shape::Command { kind, pos, args } => Shape::Command { kind, pos, args: copied_all(args) },
        Shape::Action { kind, pos, line, pipe } => Shape::Action {
            kind: NodeType::NodeAction,
            pos,
            line,
            pipe: Box::new(copied(*pipe)),
        },
    }
}

/// What a deep copy makes of each node of `s`.
pub open spec fn copied_all(s: Seq<Shape>) -> Seq<Shape>
    decreases s, s.len(),
{
    if s.len() == 0 {
        Seq::empty()
    } else {
        copied_all(s.drop_last()).push(copied(s.last()))
    }
}

/// One more part adds the separator, unless it is the first, and then itself.
pub proof fn lemma_join_push(parts: Seq<Seq<char>>, sep: Seq<char>, p: Seq<char>)
    ensures
        join(parts.push(p), sep) == (if parts.len() == 0 {
            p
        } else {
            join(parts, sep) + sep + p
        }),
{
    assert(parts.push(p).drop_last() =~= parts);
}

/// One more node adds its shape.
pub proof fn lemma_node_shapes_push(s: Seq<Node>, n: Node)
    ensures
        node_shapes(s.push(n)) == node_shapes(s).push(node_shape(n)),
{
    assert(s.push(n).drop_last() =~= s);
}

/// One more command adds its shape.
pub proof fn lemma_command_shapes_push(s: Seq<CommandNode>, n: CommandNode)
    ensures
        command_shapes(s.push(n)) == command_shapes(s).push(command_shape(n)),
{
    assert(s.push(n).drop_last() =~= s);
}

/// One more shape adds its text form, and its copy.
pub proof fn lemma_rendered_all_push(s: Seq<Shape>, n: Shape)
    ensures
        rendered_all(s.push(n)) == rendered_all(s).push(rendered(n)),
        rendered_args(s.push(n)) == rendered_args(s).push(rendered_arg(n)),
        copied_all(s.push(n)) == copied_all(s).push(copied(n)),
{
    assert(s.push(n).drop_last() =~= s);
}

/// The lists of shapes and of texts are as long as the list of nodes.
pub proof fn lemma_lengths(s: Seq<Node>)
    ensures
        node_shapes(s).len() == s.len(),
    decreases s.len(),
{
    if s.len() > 0 {
        lemma_lengths(s.drop_last());
    }
}

/// The list of shapes is as long as the list of commands.
pub proof fn lemma_command_lengths(s: Seq<CommandNode>)
    ensures
        command_shapes(s).len() == s.len(),
    decreases s.len(),
{
    if s.len() > 0 {
        lemma_command_lengths(s.drop_last());
    }
}

/// The lists of text forms and of copies are as long as the list of shapes.
pub proof fn lemma_rendered_lengths(s: Seq<Shape>)
    ensures
        rendered_all(s).len() == s.len(),
        rendered_args(s).len() == s.len(),
        copied_all(s).len() == s.len(),
    decreases s.len(),
{
    if s.len() > 0 {
        lemma_rendered_lengths(s.drop_last());
    }
}

impl TextNode {
    /// A text node at `pos` that holds `text`.
    pub fn new(pos: Pos, text: &str) -> (r: TextNode)
        ensures
            text_shape(r) == (Shape::Text { kind: NodeType::NodeText, pos: pos as int, text: text@ }),
    {
        TextNode { node_type: NodeType::NodeText, pos, text: String::from_str(text) }
    }

    /// The text as it stands in the source.
    pub fn string(&self) -> (r: String)
        ensures
            r@ == rendered(text_shape(*self)),
    {
        self.text.clone()
    }

    /// A text node of its own with the same position and text.
    pub fn copy(&self) -> (r: TextNode)
        ensures
            text_shape(r) == copied(text_shape(*self)),
    {
        TextNode { node_type: NodeType::NodeText, pos: self.pos, text: self.text.clone() }
    }

    /// The kind that the node carries.
    #[allow(non_snake_case)]
    pub fn Type(&self) -> (r: NodeType)
        ensures
            r == self.node_type,
    {
        self.node_type
    }

    /// Where the node starts in the input.
    pub fn position(&self) -> (r: Pos)
        ensures
            r == self.pos,
    {
        self.pos
    }
}

/// The index of the last dot of `s`, or -1 where it has none.
pub open spec fn last_dot(s: Seq<char>) -> int
    decreases s.len(),
{
    if s.len() == 0 {
        -1
    } else if s.last() == '.' {
        s.len() - 1
    } else {
        last_dot(s.drop_last())
    }
}

/// The parts of `s` between its dots; one part more than it has dots.
pub open spec fn split_dots(s: Seq<char>) -> Seq<Seq<char>>
    decreases s.len(),
{
    let k = last_dot(s);
    if 0 <= k < s.len() {
        split_dots(s.subrange(0, k)).push(s.subrange(k + 1, s.len() as int))
    } else {
        seq![s]
    }
}

/// Where `k` holds a dot and no dot follows, `k` is the last dot.
pub proof fn lemma_last_dot_is(s: Seq<char>, k: int)
    requires
        -1 <= k < s.len(),
        k >= 0 ==> s[k] == '.',
        forall|j: int| k < j < s.len() ==> s[j] != '.',
    ensures
        last_dot(s) == k,
    decreases s.len(),
{
    if s.len() > 0 && s.last() != '.' {
        lemma_last_dot_is(s.drop_last(), k);
    }
}

impl VariableNode {
    /// Makes a variable node of a dotted name: its parts are the texts between the dots.
    pub fn new(pos: Pos, ident: &str) -> (r: VariableNode)
        ensures
            variable_shape(r) == (Shape::Variable {
                kind: NodeType::NodeVariable,
                pos: pos as int,
                ident: split_dots(ident@),
            }),
    {
        let n = ident.unicode_len();
        let mut parts: Vec<String> = Vec::new();
        let mut from: usize = 0;
        let mut i: usize = 0;
        while i < n
            invariant
                n == ident@.len(),
                from <= i <= n,
                forall|j: int| from <= j < i ==> ident@[j] != '.',
                from > 0 ==> ident@[from - 1] == '.',
                from == 0 ==> parts@.len() == 0,
                from > 0 ==> words(parts@) == split_dots(ident@.subrange(0, from - 1)),
            decreases n - i,
        {
            if ident.get_char(i) == '.' {
                let part = String::from_str(ident.substring_char(from, i));
                proof {
                    let head = ident@.subrange(0, i as int);
                    lemma_last_dot_is(head, from as int - 1);
                    if from > 0 {
                        assert(head.subrange(0, from as int - 1) =~= ident@.subrange(
                            0,
                            from as int - 1,
                        ));
                        assert(head.subrange(from as int, i as int) =~= ident@.subrange(
                            from as int,
                            i as int,
                        ));
                        assert(words(parts@.push(part)) =~= words(parts@).push(part@));
                    } else {
                        assert(words(parts@.push(part)) =~= seq![head]);
                    }
                }
                parts.push(part);
                from = i + 1;
            }
            i += 1;
        }
        let part = String::from_str(ident.substring_char(from, n));
        proof {
            let whole = ident@;
            lemma_last_dot_is(whole, from as int - 1);
            assert(whole.subrange(0, n as int) =~= whole);
            if from > 0 {
                assert(words(parts@.push(part)) =~= words(parts@).push(part@));
            } else {
                assert(words(parts@.push(part)) =~= seq![whole]);
            }
        }
        parts.push(part);
        VariableNode { node_type: NodeType::NodeVariable, pos, ident: parts }
    }

    /// The parts of the name with dots between them.
    pub fn string(&self) -> (r: String)
        ensures
            r@ == rendered(variable_shape(*self)),
    {
        let mut s = String::new();
        let mut i: usize = 0;
        while i < self.ident.len()
            invariant
                i <= self.ident@.len(),
                s@ == join(words(self.ident@).subrange(0, i as int), "."@),
            decreases self.ident@.len() - i,
        {
            proof {
                let w = words(self.ident@);
                lemma_join_push(w.subrange(0, i as int), "."@, w[i as int]);
                assert(w.subrange(0, i as int).push(w[i as int]) =~= w.subrange(0, i + 1));
            }
            if i > 0 {
                s.append(".");
            }
            s.append(self.ident[i].as_str());
            i += 1;
            proof {
                assert(s@ =~= join(words(self.ident@).subrange(0, i as int), "."@));
            }
        }
        proof {
            let w = words(self.ident@);
            assert(w.subrange(0, w.len() as int) =~= w);
        }
        s
    }

    /// A variable node of its own with the same kind, position and parts.
    pub fn copy(&self) -> (r: VariableNode)
        ensures
            variable_shape(r) == copied(variable_shape(*self)),
    {
        let mut v: Vec<String> = Vec::new();
        let mut i: usize = 0;
        while i < self.ident.len()
            invariant
                i <= self.ident@.len(),
                v@.len() == i,
                forall|k: int| 0 <= k < i ==> v@[k]@ == self.ident@[k]@,
            decreases self.ident@.len() - i,
        {
            v.push(self.ident[i].clone());
            i += 1;
        }
        proof {
            assert(words(v@) =~= words(self.ident@));
        }
        VariableNode { node_type: self.node_type, pos: self.pos, ident: v }
    }

    /// The kind that the node carries.
    #[allow(non_snake_case)]
    pub fn Type(&self) -> (r: NodeType)
        ensures
            r == self.node_type,
    {
        self.node_type
    }

    /// Where the node starts in the input.
    pub fn position(&self) -> (r: Pos)
        ensures
            r == self.pos,
    {
        self.pos
    }
}

/// The text forms of the nodes of `v`, one after the other.
pub fn nodes_string(v: &Vec<Node>) -> (r: String)
    ensures
        r@ == join(rendered_all(node_shapes(v@)), Seq::empty()),
    decreases v,
{
    let mut s = String::new();
    let mut i: usize = 0;
    while i < v.len()
        invariant
            i <= v@.len(),
            s@ == join(rendered_all(node_shapes(v@.subrange(0, i as int))), Seq::empty()),
        decreases v@.len() - i,
    {
        let piece = v[i].string();
        proof {
            let head = v@.subrange(0, i as int);
            lemma_node_shapes_push(head, v@[i as int]);
            lemma_rendered_all_push(node_shapes(head), node_shape(v@[i as int]));
            lemma_join_push(rendered_all(node_shapes(head)), Seq::empty(), piece@);
            lemma_lengths(head);
            lemma_rendered_lengths(node_shapes(head));
            assert(head.push(v@[i as int]) =~= v@.subrange(0, i + 1));
        }
        s.append(piece.as_str());
        i += 1;
        proof {
            assert(s@ =~= join(rendered_all(node_shapes(v@.subrange(0, i as int))), Seq::empty()));
        }
    }
    proof {
        assert(v@.subrange(0, v@.len() as int) =~= v@);
    }
    s
}

/// The text forms of the arguments `v` with blanks between them; a pipeline stands in
/// parentheses.
pub fn args_string(v: &Vec<Node>) -> (r: String)
    ensures
        r@ == join(rendered_args(node_shapes(v@)), " "@),
    decreases v,
{
    let mut s = String::new();
    let mut i: usize = 0;
    while i < v.len()
        invariant
            i <= v@.len(),
            s@ == join(rendered_args(node_shapes(v@.subrange(0, i as int))), " "@),
        decreases v@.len() - i,
    {
        let ghost before = s@;
        if i > 0 {
            s.append(" ");
        }
        match &v[i] {
            Node::Pipe(p) => {
                let inner = p.string();
                s.append("(");
                s.append(inner.as_str());
                s.append(")");
            },
            other => {
                let piece = other.string();
                s.append(piece.as_str());
            },
        }
        proof {
            let head = v@.subrange(0, i as int);
            let piece = rendered_arg(node_shape(v@[i as int]));
            lemma_node_shapes_push(head, v@[i as int]);
            lemma_rendered_all_push(node_shapes(head), node_shape(v@[i as int]));
            lemma_join_push(rendered_args(node_shapes(head)), " "@, piece);
            lemma_lengths(head);
            lemma_rendered_lengths(node_shapes(head));
            assert(head.push(v@[i as int]) =~= v@.subrange(0, i + 1));
            assert(s@ =~= if i > 0 {
                before + " "@ + piece
            } else {
                before + piece
            });
            assert(s@ =~= join(rendered_args(node_shapes(v@.subrange(0, i + 1))), " "@));
        }
        i += 1;
    }
    proof {
        assert(v@.subrange(0, v@.len() as int) =~= v@);
    }
    s
}

/// Deep copies of the nodes of `v`, in order.
pub fn copy_nodes(v: &Vec<Node>) -> (r: Vec<Node>)
    ensures
        node_shapes(r@) == copied_all(node_shapes(v@)),
    decreases v,
{
    let mut out: Vec<Node> = Vec::new();
    let mut i: usize = 0;
    while i < v.len()
        invariant
            i <= v@.len(),
            node_shapes(out@) == copied_all(node_shapes(v@.subrange(0, i as int))),
        decreases v@.len() - i,
    {
        let c = v[i].copy();
        proof {
            let head = v@.subrange(0, i as int);
            lemma_node_shapes_push(out@, c);
            lemma_node_shapes_push(head, v@[i as int]);
            lemma_rendered_all_push(node_shapes(head), node_shape(v@[i as int]));
            assert(head.push(v@[i as int]) =~= v@.subrange(0, i + 1));
        }
        out.push(c);
        i += 1;
    }
    proof {
        assert(v@.subrange(0, v@.len() as int) =~= v@);
    }
    out
}

impl ListNode {
    /// An empty list at `pos`.
    pub fn new(pos: Pos) -> (r: ListNode)
        ensures
            list_shape(r) == (Shape::List {
                kind: NodeType::NodeList,
                pos: pos as int,
                nodes: Seq::empty(),
            }),
            r.nodes@.len() == 0,
    {
        ListNode { node_type: NodeType::NodeList, pos, nodes: Vec::new() }
    }

    /// Adds `node` at the end of the list.
    pub fn append(&mut self, node: Node)
        ensures
            final(self).node_type == old(self).node_type,
            final(self).pos == old(self).pos,
            final(self).nodes@ == old(self).nodes@.push(node),
            list_shape(*final(self)) == (Shape::List {
                kind: old(self).node_type,
                pos: old(self).pos as int,
                nodes: node_shapes(old(self).nodes@).push(node_shape(node)),
            }),
    {
        proof {
            lemma_node_shapes_push(self.nodes@, node);
        }
        self.nodes.push(node);
    }

    /// The text forms of the nodes, one after the other.
    pub fn string(&self) -> (r: String)
        ensures
            r@ == rendered(list_shape(*self)),
        decreases self,
    {
        nodes_string(&self.nodes)
    }

    /// A list of its own that holds deep copies of the nodes.
    pub fn copy_list(&self) -> (r: ListNode)
        ensures
            list_shape(r) == copied(list_shape(*self)),
        decreases self,
    {
        let mut ln = ListNode::new(self.pos);
        ln.nodes = copy_nodes(&self.nodes);
        ln
    }

    /// A list of its own that holds deep copies of the nodes.
    pub fn copy(&self) -> (r: ListNode)
        ensures
            list_shape(r) == copied(list_shape(*self)),
        decreases self,
    {
        self.copy_list()
    }

    /// The kind that the node carries.
    #[allow(non_snake_case)]
    pub fn Type(&self) -> (r: NodeType)
        ensures
            r == self.node_type,
    {
        self.node_type
    }

    /// Where the node starts in the input.
    pub fn position(&self) -> (r: Pos)
        ensures
            r == self.pos,
    {
        self.pos
    }
}

impl CommandNode {
    /// A command at `pos` without arguments.
    pub fn new(pos: Pos) -> (r: CommandNode)
        ensures
            command_shape(r) == (Shape::Command {
                kind: NodeType::NodeCommand,
                pos: pos as int,
                args: Seq::empty(),
            }),
            r.args@.len() == 0,
    {
        CommandNode { node_type: NodeType::NodeCommand, pos, args: Vec::new() }
    }

    /// The arguments with blanks between them; a pipeline stands in parentheses.
    pub fn string(&self) -> (r: String)
        ensures
            r@ == rendered(command_shape(*self)),
        decreases self,
    {
        args_string(&self.args)
    }

    /// A command of its own that holds deep copies of the arguments.
    pub fn copy(&self) -> (r: CommandNode)
        ensures
            command_shape(r) == copied(command_shape(*self)),
        decreases self,
    {
        CommandNode { node_type: self.node_type, pos: self.pos, args: copy_nodes(&self.args) }
    }

    /// The kind that the node carries.
    #[allow(non_snake_case)]
    pub fn Type(&self) -> (r: NodeType)
        ensures
            r == self.node_type,
    {
        self.node_type
    }

    /// Where the node starts in the input.
    pub fn position(&self) -> (r: Pos)
        ensures
            r == self.pos,
    {
        self.pos
    }
}

/// The text forms of the commands `v` with ` | ` between them.
pub fn commands_string(v: &Vec<CommandNode>) -> (r: String)
    ensures
        r@ == join(rendered_all(command_shapes(v@)), " | "@),
    decreases v,
{
    let mut s = String::new();
    let mut i: usize = 0;
    while i < v.len()
        invariant
            i <= v@.len(),
            s@ == join(rendered_all(command_shapes(v@.subrange(0, i as int))), " | "@),
        decreases v@.len() - i,
    {
        let ghost before = s@;
        let piece = v[i].string();
        if i > 0 {
            s.append(" | ");
        }
        s.append(piece.as_str());
        proof {
            let head = v@.subrange(0, i as int);
            lemma_command_shapes_push(head, v@[i as int]);
            lemma_rendered_all_push(command_shapes(head), command_shape(v@[i as int]));
            lemma_join_push(rendered_all(command_shapes(head)), " | "@, piece@);
            lemma_command_lengths(head);
            lemma_rendered_lengths(command_shapes(head));
            assert(head.push(v@[i as int]) =~= v@.subrange(0, i + 1));
            assert(s@ =~= if i > 0 {
                before + " | "@ + piece@
            } else {
                before + piece@
            });
            assert(s@ =~= join(rendered_all(command_shapes(v@.subrange(0, i + 1))), " | "@));
        }
        i += 1;
    }
    proof {
        assert(v@.subrange(0, v@.len() as int) =~= v@);
    }
    s
}

/// Deep copies of the commands of `v`, in order.
pub fn copy_commands(v: &Vec<CommandNode>) -> (r: Vec<CommandNode>)
    ensures
        command_shapes(r@) == copied_all(command_shapes(v@)),
    decreases v,
{
    let mut out: Vec<CommandNode> = Vec::new();
    let mut i: usize = 0;
    while i < v.len()
        invariant
            i <= v@.len(),
            command_shapes(out@) == copied_all(command_shapes(v@.subrange(0, i as int))),
        decreases v@.len() - i,
    {
        let c = v[i].copy();
        proof {
            let head = v@.subrange(0, i as int);
            lemma_command_shapes_push(out@, c);
            lemma_command_shapes_push(head, v@[i as int]);
            lemma_rendered_all_push(command_shapes(head), command_shape(v@[i as int]));
            assert(head.push(v@[i as int]) =~= v@.subrange(0, i + 1));
        }
        out.push(c);
        i += 1;
    }
    proof {
        assert(v@.subrange(0, v@.len() as int) =~= v@);
    }
    out
}

/// The text forms of the variables `v` with `, ` between them.
pub fn variables_string(v: &Vec<VariableNode>) -> (r: String)
    ensures
        r@ == join(rendered_all(variable_shapes(v@)), ", "@),
{
    let mut s = String::new();
    let mut i: usize = 0;
    while i < v.len()
        invariant
            i <= v@.len(),
            s@ == join(rendered_all(variable_shapes(v@.subrange(0, i as int))), ", "@),
        decreases v@.len() - i,
    {
        let ghost before = s@;
        let piece = v[i].string();
        if i > 0 {
            s.append(", ");
        }
        s.append(piece.as_str());
        proof {
            let head = v@.subrange(0, i as int);
            let shapes = variable_shapes(head);
            assert(variable_shapes(v@.subrange(0, i + 1)) =~= shapes.push(
                variable_shape(v@[i as int]),
            ));
            lemma_rendered_all_push(shapes, variable_shape(v@[i as int]));
            lemma_join_push(rendered_all(shapes), ", "@, piece@);
            lemma_rendered_lengths(shapes);
            assert(s@ =~= if i > 0 {
                before + ", "@ + piece@
            } else {
                before + piece@
            });
            assert(s@ =~= join(rendered_all(variable_shapes(v@.subrange(0, i + 1))), ", "@));
        }
        i += 1;
    }
    proof {
        assert(v@.subrange(0, v@.len() as int) =~= v@);
    }
    s
}

impl PipeNode {
    /// A pipeline at `pos` on line `line` that declares `decl` and has no command yet.
    pub fn new(pos: Pos, line: i32, decl: Vec<VariableNode>) -> (r: PipeNode)
        ensures
            pipe_shape(r) == (Shape::Pipe {
                kind: NodeType::NodePipe,
                pos: pos as int,
                line: line as int,
                decl: variable_shapes(decl@),
                cmds: Seq::empty(),
            }),
            r.decl == decl,
            r.cmds@.len() == 0,
    {
        PipeNode { node_type: NodeType::NodePipe, pos, line, decl, cmds: Vec::new() }
    }

    /// A pipeline of its own that holds copies of the variables and deep copies of the
    /// commands.
    pub fn copy_pipe(&self) -> (r: PipeNode)
        ensures
            pipe_shape(r) == copied(pipe_shape(*self)),
        decreases self,
    {
        let mut decl: Vec<VariableNode> = Vec::new();
        let mut i: usize = 0;
        while i < self.decl.len()
            invariant
                i <= self.decl@.len(),
                decl@.len() == i,
                forall|k: int|
                    0 <= k < i ==> variable_shape(decl@[k]) == variable_shape(self.decl@[k]),
            decreases self.decl@.len() - i,
        {
            decl.push(self.decl[i].copy());
            i += 1;
        }
        proof {
            assert(variable_shapes(decl@) =~= variable_shapes(self.decl@));
        }
        let cmds = copy_commands(&self.cmds);
        PipeNode { node_type: self.node_type, pos: self.pos, line: self.line, decl, cmds }
    }

    /// A pipeline of its own that holds copies of the variables and deep copies of the
    /// commands.
    pub fn copy(&self) -> (r: PipeNode)
        ensures
            pipe_shape(r) == copied(pipe_shape(*self)),
        decreases self,
    {
        self.copy_pipe()
    }

    /// The declared variables with `, ` between them and ` :=` after them, if there are
    /// any; then the commands with ` | ` between them.
    pub fn string(&self) -> (r: String)
        ensures
            r@ == rendered(pipe_shape(*self)),
        decreases self,
    {
        let mut s = String::new();
        if self.decl.len() > 0 {
            let d = variables_string(&self.decl);
            s.append(d.as_str());
            s.append(" :=");
        }
        let c = commands_string(&self.cmds);
        s.append(c.as_str());
        proof {
            assert(variable_shapes(self.decl@).len() == self.decl@.len());
            assert(s@ =~= rendered(pipe_shape(*self)));
        }
        s
    }

    /// The kind that the node carries.
    #[allow(non_snake_case)]
    pub fn Type(&self) -> (r: NodeType)
        ensures
            r == self.node_type,
    {
        self.node_type
    }

    /// Where the node starts in the input.
    pub fn position(&self) -> (r: Pos)
        ensures
            r == self.pos,
    {
        self.pos
    }
}

impl ActionNode {
    /// An action at `pos` on line `line` around `pipe`.
    pub fn new(pos: Pos, line: i32, pipe: PipeNode) -> (r: ActionNode)
        ensures
            r.node_type == NodeType::NodeAction,
            r.pos == pos,
            r.line == line,
            r.pipe == pipe,
    {
        ActionNode { node_type: NodeType::NodeAction, pos, line, pipe }
    }

    /// The pipeline between `{{ ` and ` }}`.
    pub fn string(&self) -> (r: String)
        ensures
            r@ == rendered(action_shape(*self)),
        decreases self,
    {
        let mut s = String::from_str("{{ ");
        let p = self.pipe.string();
        s.append(p.as_str());
        s.append(" }}");
        s
    }

    /// An action of its own that holds a deep copy of the pipeline.
    pub fn copy(&self) -> (r: ActionNode)
        ensures
            action_shape(r) == copied(action_shape(*self)),
        decreases self,
    {
        ActionNode::new(self.pos, self.line, self.pipe.copy_pipe())
    }

    /// The kind that the node carries.
    #[allow(non_snake_case)]
    pub fn Type(&self) -> (r: NodeType)
        ensures
            r == self.node_type,
    {
        self.node_type
    }

    /// Where the node starts in the input.
    pub fn position(&self) -> (r: Pos)
        ensures
            r == self.pos,
    {
        self.pos
    }
}

impl Node {
    /// The kind that the node carries.
    #[allow(non_snake_case)]
    pub fn Type(&self) -> (r: NodeType)
        ensures
            r == node_shape(*self).kind(),
    {
        match self {
            Node::List(n) => n.node_type,
            Node::Text(n) => n.node_type,
            Node::Pipe(n) => n.node_type,
            Node::Variable(n) => n.node_type,
            Node::Command(n) => n.node_type,
            Node::Action(n) => n.node_type,
        }
    }

    /// Where the node starts in the input.
    pub fn position(&self) -> (r: Pos)
        ensures
            r == node_shape(*self).pos(),
    {
        match self {
            Node::List(n) => n.pos,
            Node::Text(n) => n.pos,
            Node::Pipe(n) => n.pos,
            Node::Variable(n) => n.pos,
            Node::Command(n) => n.pos,
            Node::Action(n) => n.pos,
        }
    }

    /// The text form of the node.
    pub fn string(&self) -> (r: String)
        ensures
            r@ == rendered(node_shape(*self)),
        decreases self,
    {
        match self {
            Node::List(n) => n.string(),
            Node::Text(n) => n.string(),
            Node::Pipe(n) => n.string(),
            Node::Variable(n) => n.string(),
            Node::Command(n) => n.string(),
            Node::Action(n) => n.string(),
        }
    }

    /// A deep copy: a node of its own, of the same variant, with the same contents.
    pub fn copy(&self) -> (r: Node)
        ensures
            node_shape(r) == copied(node_shape(*self)),
        decreases self,
    {
        match self {
            Node::List(n) => Node::List(n.copy_list()),
            Node::Text(n) => Node::Text(n.copy()),
            Node::Pipe(n) => Node::Pipe(n.copy_pipe()),
            Node::Variable(n) => Node::Variable(n.copy()),
            Node::Command(n) => Node::Command(n.copy()),
            Node::Action(n) => Node::Action(n.copy()),
        }
    }
}

/// A deep copy has the text form of the node that it was made of.
pub proof fn lemma_copy_renders_same(s: Shape)
    ensures
        rendered(copied(s)) == rendered(s),
        rendered_arg(copied(s)) == rendered_arg(s),
    decreases s, 0nat,
{
    match s {
        Shape::List { nodes, .. } => {
            lemma_copies_render_same(nodes);
        },
        Shape::Pipe { cmds, .. } => {
            lemma_copies_render_same(cmds);
        },
        Shape::Command { args, .. } => {
            lemma_copies_render_same(args);
        },
        Shape::Action { pipe, .. } => {
            lemma_copy_renders_same(*pipe);
        },
        _ => {},
    }
}

/// Deep copies have the text forms of the nodes that they were made of.
pub proof fn lemma_copies_render_same(s: Seq<Shape>)
    ensures
        rendered_all(copied_all(s)) == rendered_all(s),
        rendered_args(copied_all(s)) == rendered_args(s),
    decreases s, s.len(),
{
    if s.len() > 0 {
        lemma_copies_render_same(s.drop_last());
        lemma_copy_renders_same(s.last());
        lemma_rendered_all_push(copied_all(s.drop_last()), copied(s.last()));
    }
}

/// The parts of a dotted name, joined with dots, are the name.
pub proof fn lemma_join_split(s: Seq<char>)
    ensures
        join(split_dots(s), "."@) == s,
        split_dots(s).len() >= 1,
    decreases s.len(),
{
    reveal_strlit(".");
    let k = last_dot(s);
    if 0 <= k < s.len() {
        lemma_last_dot_at(s);
        let head = s.subrange(0, k);
        let tail = s.subrange(k + 1, s.len() as int);
        lemma_join_split(head);
        lemma_join_push(split_dots(head), "."@, tail);
        assert("."@ =~= seq!['.']);
        assert(head + seq!['.'] + tail =~= s);
    } else {
        assert(join(seq![s], "."@) == s);
    }
}

/// The last dot, where there is one, is a dot.
pub proof fn lemma_last_dot_at(s: Seq<char>)
    ensures
        -1 <= last_dot(s) < s.len(),
        last_dot(s) >= 0 ==> s[last_dot(s)] == '.',
    decreases s.len(),
{
    if s.len() > 0 && s.last() != '.' {
        lemma_last_dot_at(s.drop_last());
    }
}

} // verus!
