use template_lexer::node::{
    ActionNode, CommandNode, ListNode, Node, NodeType, PipeNode, TextNode, VariableNode,
};
use template_lexer::parse::Tree;

fn text(pos: usize, s: &str) -> Node {
    Node::Text(TextNode::new(pos, s))
}

fn sample_pipe() -> PipeNode {
    let mut pipe = PipeNode::new(
        3,
        1,
        vec![VariableNode::new(3, "$x"), VariableNode::new(7, "$y.f")],
    );
    let mut first = CommandNode::new(12);
    first.args.push(text(12, "printf"));
    first.args.push(Node::Variable(VariableNode::new(19, "$v.a.b")));
    let mut inner = PipeNode::new(26, 1, vec![]);
    let mut len = CommandNode::new(27);
    len.args.push(text(27, "len"));
    len.args.push(text(31, ".x"));
    inner.cmds.push(len);
    first.args.push(Node::Pipe(inner));
    let mut second = CommandNode::new(37);
    second.args.push(text(37, "upper"));
    pipe.cmds.push(first);
    pipe.cmds.push(second);
    pipe
}

#[test]
fn variable_names_are_split_at_dots() {
    let v = VariableNode::new(4, "$x.Field.sub");
    assert_eq!(v.ident, vec!["$x", "Field", "sub"]);
    assert_eq!((v.Type(), v.position()), (NodeType::NodeVariable, 4));
    assert_eq!(v.string(), "$x.Field.sub");
    assert_eq!(VariableNode::new(0, "$").ident, vec!["$"]);
    assert_eq!(VariableNode::new(0, "").ident, vec![""]);
    assert_eq!(VariableNode::new(0, "a.").ident, vec!["a", ""]);
    assert_eq!(VariableNode::new(0, ".a").ident, vec!["", "a"]);
    assert_eq!(VariableNode::new(0, "..").ident, vec!["", "", ""]);
    assert_eq!(VariableNode::new(0, "é.本").ident, vec!["é", "本"]);
    for s in ["", "$", "a.", ".a", "..", "é.本", "$x.y.z"] {
        let want: Vec<String> = s.split(".").map(String::from).collect();
        assert_eq!(VariableNode::new(0, s).ident, want);
        assert_eq!(VariableNode::new(0, s).string(), s);
    }
}

#[test]
fn variable_copy_is_its_own() {
    let v = VariableNode::new(4, "$x.y");
    let mut c = v.copy();
    assert_eq!((c.Type(), c.position(), c.string()), (NodeType::NodeVariable, 4, String::from("$x.y")));
    c.ident.push(String::from("z"));
    assert_eq!(v.string(), "$x.y");
    assert_eq!(c.string(), "$x.y.z");
}

#[test]
fn command_puts_blanks_between_arguments() {
    let mut c = CommandNode::new(2);
    assert_eq!(c.string(), "");
    c.args.push(text(2, "printf"));
    assert_eq!(c.string(), "printf");
    c.args.push(text(9, "\"%d\""));
    c.args.push(Node::Variable(VariableNode::new(14, "$n.len")));
    assert_eq!(c.string(), "printf \"%d\" $n.len");
    assert_eq!((c.Type(), c.position()), (NodeType::NodeCommand, 2));
}

#[test]
fn pipe_in_a_command_stands_in_parentheses() {
    let pipe = sample_pipe();
    assert_eq!(pipe.cmds[0].string(), "printf $v.a.b (len .x)");
}

#[test]
fn pipe_lists_declarations_and_commands() {
    let pipe = sample_pipe();
    assert_eq!(pipe.string(), "$x, $y.f :=printf $v.a.b (len .x) | upper");
    assert_eq!((pipe.Type(), pipe.position(), pipe.line), (NodeType::NodePipe, 3, 1));
    let bare = PipeNode::new(0, 1, vec![]);
    assert_eq!(bare.string(), "");
    let one = PipeNode::new(0, 1, vec![VariableNode::new(0, "$a")]);
    assert_eq!(one.string(), "$a :=");
}

#[test]
fn action_stands_between_delimiters() {
    let a = ActionNode::new(0, 2, sample_pipe());
    assert_eq!(a.string(), "{{ $x, $y.f :=printf $v.a.b (len .x) | upper }}");
    assert_eq!((a.Type(), a.position(), a.line), (NodeType::NodeAction, 0, 2));
}

#[test]
fn list_joins_its_nodes() {
    let mut l = ListNode::new(0);
    assert_eq!(l.string(), "");
    l.append(text(0, "hello "));
    l.append(Node::Action(ActionNode::new(6, 1, sample_pipe())));
    l.append(text(50, " world"));
    let mut nested = ListNode::new(56);
    nested.append(text(56, "!"));
    l.append(Node::List(nested));
    assert_eq!(l.nodes.len(), 4);
    assert_eq!(l.string(), "hello {{ $x, $y.f :=printf $v.a.b (len .x) | upper }} world!");
    assert_eq!((l.Type(), l.position()), (NodeType::NodeList, 0));
}

#[test]
fn copies_are_deep() {
    let mut l = ListNode::new(0);
    l.append(text(0, "a"));
    l.append(Node::Pipe(sample_pipe()));
    let mut c = l.copy_list();
    assert_eq!(c.string(), l.string());
    assert_eq!(c.nodes.len(), 2);
    if let Node::Pipe(p) = &mut c.nodes[1] {
        p.cmds[0].args.push(text(0, "more"));
        p.decl[0].ident.push(String::from("f"));
    } else {
        panic!("a pipe was copied to something else");
    }
    if let Node::Text(t) = &mut c.nodes[0] {
        t.text.push('b');
    }
    assert_eq!(l.string(), "a$x, $y.f :=printf $v.a.b (len .x) | upper");
    assert_eq!(c.string(), "ab$x.f, $y.f :=printf $v.a.b (len .x) more | upper");
    let again = l.copy();
    assert_eq!(again.string(), l.string());
}

#[test]
fn copies_keep_or_set_the_kind() {
    let mut odd = TextNode::new(1, "t");
    odd.node_type = NodeType::NodeString;
    assert_eq!(odd.Type(), NodeType::NodeString);
    assert_eq!(odd.copy().Type(), NodeType::NodeText);
    let mut v = VariableNode::new(1, "$v");
    v.node_type = NodeType::NodeField;
    assert_eq!(v.copy().Type(), NodeType::NodeField);
    let mut c = CommandNode::new(1);
    c.node_type = NodeType::NodeChain;
    assert_eq!(c.copy().Type(), NodeType::NodeChain);
    let mut p = PipeNode::new(1, 1, vec![]);
    p.node_type = NodeType::NodeChain;
    assert_eq!(p.copy_pipe().Type(), NodeType::NodeChain);
    assert_eq!(p.copy().Type(), NodeType::NodeChain);
    let mut l = ListNode::new(1);
    l.node_type = NodeType::NodeChain;
    assert_eq!(l.copy_list().Type(), NodeType::NodeList);
    let mut a = ActionNode::new(1, 1, PipeNode::new(1, 1, vec![]));
    a.node_type = NodeType::NodeChain;
    assert_eq!(a.copy().Type(), NodeType::NodeAction);
}

#[test]
fn node_of_any_kind() {
    let nodes = vec![
        text(1, "t"),
        Node::Variable(VariableNode::new(2, "$v")),
        Node::Command(CommandNode::new(3)),
        Node::Pipe(PipeNode::new(4, 1, vec![])),
        Node::List(ListNode::new(5)),
        Node::Action(ActionNode::new(6, 1, PipeNode::new(6, 1, vec![]))),
    ];
    let kinds = [
        NodeType::NodeText,
        NodeType::NodeVariable,
        NodeType::NodeCommand,
        NodeType::NodePipe,
        NodeType::NodeList,
        NodeType::NodeAction,
    ];
    let texts = ["t", "$v", "", "", "", "{{  }}"];
    for (i, n) in nodes.iter().enumerate() {
        assert_eq!(n.Type(), kinds[i]);
        assert_eq!(n.position(), i + 1);
        assert_eq!(n.string(), texts[i]);
        let c = n.copy();
        assert_eq!((c.Type(), c.position(), c.string()), (kinds[i], i + 1, String::from(texts[i])));
    }
}

#[test]
fn tree_copy_starts_afresh() {
    let mut root = ListNode::new(0);
    root.append(text(0, "body"));
    let mut tree = Tree::new("page", "body", root);
    tree.parse_name = String::from("site");
    tree.peek_count = 2;
    tree.vars.push(String::from("$"));
    let copy = tree.copy();
    assert_eq!(copy.name, "page");
    assert_eq!(copy.parse_name, "page");
    assert_eq!(copy.text, "body");
    assert_eq!(copy.root.string(), "body");
    assert!(copy.lex.is_none());
    assert!(copy.token.iter().all(|t| t.is_none()));
    assert_eq!(copy.peek_count, 0);
    assert!(copy.vars.is_empty());
    tree.root.append(text(4, "!"));
    assert_eq!(copy.root.string(), "body");
    assert_eq!(tree.root.string(), "body!");
}
