//! Syntax of the command language.

use vstd::prelude::*;
use super::commands::{CommandKind, kind_of_letter, kind_triggers_change};

verus! {

/// An argument: plain text up to `:` or `;`, or a literal in double quotes.
#[derive(Debug, Clone, PartialEq)]
pub enum Arg {
    Plain(String),
    Literal(String),
}

/// Direction of a motion.
#[derive(Debug, Clone, Copy, PartialEq, Eq, Structural)]
pub enum MotionDir {
    Up,
    Down,
}

/// A parsed command-language item.
#[derive(Debug, PartialEq)]
pub enum Node {
    Command { letter: char, args: Vec<Arg> },
    Motion { dir: MotionDir, n: usize },
    Block { items: Vec<Node> },
    Repeat { target: Box<Node>, n: usize },
    Force { target: Box<Node> },
    Help { target: Box<Node> },
    HelpRoot,
}

/// The model of an argument.
pub enum SArg {
    Plain(Seq<char>),
    Literal(Seq<char>),
}

/// The model of a node.
pub enum SNode {
    Command { letter: char, args: Seq<SArg> },
    Motion { dir: MotionDir, n: usize },
    Block { items: Seq<SNode> },
    Repeat { target: Box<SNode>, n: usize },
    Force { target: Box<SNode> },
    Help { target: Box<SNode> },
    HelpRoot,
}

pub open spec fn arg_view(a: Arg) -> SArg {
    match a {
        Arg::Plain(s) => SArg::Plain(s@),
        Arg::Literal(s) => SArg::Literal(s@),
    }
}

pub open spec fn args_view(v: Seq<Arg>) -> Seq<SArg> {
    v.map_values(|a: Arg| arg_view(a))
}

/// `nodes_view` is the view of each node.
pub proof fn lemma_nodes_view_index(s: Seq<Node>)
    ensures
        nodes_view(s).len() == s.len(),
        forall|i: int| 0 <= i < s.len() ==> #[trigger] nodes_view(s)[i] == node_view(s[i]),
    decreases s.len(),
{
    if s.len() > 0 {
        lemma_nodes_view_index(s.drop_last());
        assert forall|i: int| 0 <= i < s.len() implies #[trigger] nodes_view(s)[i] == node_view(s[i]) by {
            if i < s.len() - 1 {
                assert(s.drop_last()[i] == s[i]);
            }
        }
    }
}

/// The text of an argument.
pub open spec fn arg_text(a: SArg) -> Seq<char> {
    match a {
        SArg::Plain(s) => s,
        SArg::Literal(s) => s,
    }
}

pub open spec fn node_view(n: Node) -> SNode
    decreases n,
{
    match n {
        Node::Command { letter, args } => SNode::Command { letter, args: args_view(args@) },
        Node::Motion { dir, n } => SNode::Motion { dir, n },
        Node::Block { items } => SNode::Block { items: nodes_view(items@) },
        Node::Repeat { target, n } => SNode::Repeat { target: Box::new(node_view(*target)), n },
        Node::Force { target } => SNode::Force { target: Box::new(node_view(*target)) },
        Node::Help { target } => SNode::Help { target: Box::new(node_view(*target)) },
        Node::HelpRoot => SNode::HelpRoot,
    }
}

pub open spec fn nodes_view(s: Seq<Node>) -> Seq<SNode>
    decreases s,
{
    if s.len() == 0 {
        Seq::empty()
    } else {
        nodes_view(s.drop_last()).push(node_view(s.last()))
    }
}

impl Node {
    /// Whether running the node can change a document.
    pub fn trigger_change(&self) -> (r: bool)
        ensures
            r == node_triggers_change(node_view(*self)),
        decreases self,
    {
        match self {
            Node::Command { letter, .. } => match CommandKind::from_char(*letter) {
                Some(kind) => kind.trigger_change(),
                None => false,
            },
            Node::Block { items } => {
                let ghost vs = nodes_view(items@);
                let mut any = false;
                let mut i: usize = 0;
                while i < items.len()
                    invariant
                        i <= items@.len(),
                        vs == nodes_view(items@),
                        *self == (Node::Block { items: *items }),
                        any == items_trigger_change(nodes_view(items@.take(i as int))),
                    decreases items@.len() - i,
                {
                    proof {
                        let t1 = items@.take(i as int + 1);
                        assert(t1.drop_last() =~= items@.take(i as int));
                        assert(nodes_view(t1) == nodes_view(t1.drop_last()).push(node_view(t1.last())));
                        assert(nodes_view(t1).drop_last() =~= nodes_view(t1.drop_last()));
                        assert(self->items == *items);
                        assert(decreases_to!(*self => self->items));
                        assert(decreases_to!(*items => items@));
                        assert(decreases_to!(items@ => items@[i as int]));
                    }
                    let t = items[i].trigger_change();
                    any = any || t;
                    i = i + 1;
                }
                proof {
                    assert(items@.take(items@.len() as int) =~= items@);
                }
                any
            },
            Node::Repeat { target, .. } => target.trigger_change(),
            Node::Force { target } => target.trigger_change(),
            Node::Help { target } => target.trigger_change(),
            Node::Motion { .. } => false,
            Node::HelpRoot => false,
        }
    }
}

impl Arg {
    /// The text of the argument.
    pub fn as_str(&self) -> (r: &str)
        ensures
            r@ == arg_text(arg_view(*self)),
    {
        match self {
            Arg::Plain(s) => s.as_str(),
            Arg::Literal(s) => s.as_str(),
        }
    }
}

/// Whether running the node can change a document.
pub open spec fn node_triggers_change(n: SNode) -> bool
    decreases n,
{
    match n {
        SNode::Command { letter, .. } => match kind_of_letter(letter) {
            Some(k) => kind_triggers_change(k),
            None => false,
        },
        SNode::Block { items } => items_trigger_change(items),
        SNode::Repeat { target, .. } => node_triggers_change(*target),
        SNode::Force { target } => node_triggers_change(*target),
        SNode::Help { target } => node_triggers_change(*target),
        SNode::Motion { .. } => false,
        SNode::HelpRoot => false,
    }
}

pub open spec fn items_trigger_change(s: Seq<SNode>) -> bool
    decreases s,
{
    if s.len() == 0 {
        false
    } else {
        items_trigger_change(s.drop_last()) || node_triggers_change(s.last())
    }
}

/// The letters of the commands written anywhere inside a node, in order
/// (inside blocks, repetitions, forcing and help alike).
pub open spec fn letters_in(n: SNode) -> Seq<char>
    decreases n,
{
    match n {
        SNode::Command { letter, .. } => seq![letter],
        SNode::Block { items } => items_letters(items),
        SNode::Repeat { target, .. } => letters_in(*target),
        SNode::Force { target } => letters_in(*target),
        SNode::Help { target } => letters_in(*target),
        SNode::Motion { .. } => Seq::empty(),
        SNode::HelpRoot => Seq::empty(),
    }
}

pub open spec fn items_letters(s: Seq<SNode>) -> Seq<char>
    decreases s,
{
    if s.len() == 0 {
        Seq::empty()
    } else {
        items_letters(s.drop_last()) + letters_in(s.last())
    }
}

/// The letter names a command that edits a document.
pub open spec fn editing_letter(c: char) -> bool {
    kind_of_letter(c) matches Some(k) && kind_triggers_change(k)
}

/// A node counts as changing a document exactly when an editing command is
/// written somewhere inside it.
pub proof fn lemma_trigger_change_iff_editing_command(n: SNode)
    ensures
        node_triggers_change(n) <==> exists|i: int| 0 <= i < letters_in(n).len() && editing_letter(#[trigger] letters_in(n)[i]),
    decreases n,
{
    match n {
        SNode::Command { letter, .. } => {
            let l = letters_in(n);
            assert(l =~= seq![letter]);
            assert(node_triggers_change(n) == editing_letter(letter));
            assert forall|i: int| 0 <= i < l.len() && editing_letter(#[trigger] l[i]) implies editing_letter(letter) by {
                assert(i == 0);
            }
            if editing_letter(letter) {
                assert(0 <= 0 < letters_in(n).len() && editing_letter(letters_in(n)[0]));
                assert(exists|i: int| 0 <= i < letters_in(n).len() && editing_letter(#[trigger] letters_in(n)[i]));
            } else {
                assert(!node_triggers_change(n));
                assert(!exists|i: int| 0 <= i < letters_in(n).len() && editing_letter(#[trigger] letters_in(n)[i]));
            }
        },
        SNode::Block { items } => {
            lemma_items_trigger_change(items);
            let l = letters_in(n);
            let m = items_letters(items);
            assert(l == m);
            assert(node_triggers_change(n) == items_trigger_change(items));
            if items_trigger_change(items) {
                let i = choose|i: int| 0 <= i < m.len() && editing_letter(#[trigger] m[i]);
                assert(editing_letter(l[i]));
            }
            if exists|i: int| 0 <= i < l.len() && editing_letter(#[trigger] l[i]) {
                let i = choose|i: int| 0 <= i < l.len() && editing_letter(#[trigger] l[i]);
                assert(editing_letter(m[i]));
            }
        },
        SNode::Repeat { target, .. } => {
            lemma_trigger_change_iff_editing_command(*target);
            let l = letters_in(n);
            let m = letters_in(*target);
            assert(l == m);
            assert(node_triggers_change(n) == node_triggers_change(*target));
            if node_triggers_change(*target) {
                let i = choose|i: int| 0 <= i < m.len() && editing_letter(#[trigger] m[i]);
                assert(editing_letter(l[i]));
            }
            if exists|i: int| 0 <= i < l.len() && editing_letter(#[trigger] l[i]) {
                let i = choose|i: int| 0 <= i < l.len() && editing_letter(#[trigger] l[i]);
                assert(editing_letter(m[i]));
            }
        },
        SNode::Force { target } => {
            lemma_trigger_change_iff_editing_command(*target);
            let l = letters_in(n);
            let m = letters_in(*target);
            assert(l == m);
            assert(node_triggers_change(n) == node_triggers_change(*target));
            if node_triggers_change(*target) {
                let i = choose|i: int| 0 <= i < m.len() && editing_letter(#[trigger] m[i]);
                assert(editing_letter(l[i]));
            }
            if exists|i: int| 0 <= i < l.len() && editing_letter(#[trigger] l[i]) {
                let i = choose|i: int| 0 <= i < l.len() && editing_letter(#[trigger] l[i]);
                assert(editing_letter(m[i]));
            }
        },
        SNode::Help { target } => {
            lemma_trigger_change_iff_editing_command(*target);
            let l = letters_in(n);
            let m = letters_in(*target);
            assert(l == m);
            assert(node_triggers_change(n) == node_triggers_change(*target));
            if node_triggers_change(*target) {
                let i = choose|i: int| 0 <= i < m.len() && editing_letter(#[trigger] m[i]);
                assert(editing_letter(l[i]));
            }
            if exists|i: int| 0 <= i < l.len() && editing_letter(#[trigger] l[i]) {
                let i = choose|i: int| 0 <= i < l.len() && editing_letter(#[trigger] l[i]);
                assert(editing_letter(m[i]));
            }
        },
        _ => {},
    }
}

proof fn lemma_items_trigger_change(s: Seq<SNode>)
    ensures
        items_trigger_change(s) <==> exists|i: int| 0 <= i < items_letters(s).len() && editing_letter(#[trigger] items_letters(s)[i]),
    decreases s,
{
    if s.len() > 0 {
        let p = s.drop_last();
        lemma_items_trigger_change(p);
        lemma_trigger_change_iff_editing_command(s.last());
        let a = items_letters(p);
        let b = letters_in(s.last());
        let all = items_letters(s);
        assert(all == a + b);
        if items_trigger_change(s) {
            if items_trigger_change(p) {
                let i = choose|i: int| 0 <= i < a.len() && editing_letter(#[trigger] a[i]);
                assert(all[i] == a[i]);
            } else {
                let i = choose|i: int| 0 <= i < b.len() && editing_letter(#[trigger] b[i]);
                assert(all[a.len() + i] == b[i]);
            }
        }
        if exists|i: int| 0 <= i < all.len() && editing_letter(#[trigger] all[i]) {
            let i = choose|i: int| 0 <= i < all.len() && editing_letter(#[trigger] all[i]);
            if i < a.len() {
                assert(all[i] == a[i]);
            } else {
                assert(all[i] == b[i - a.len()]);
            }
        }
    }
}

} // verus!
