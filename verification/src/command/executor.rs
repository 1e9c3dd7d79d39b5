//! Running parsed commands.
//!
//! A parsed command line is a tree of nodes. Running it means running a
//! sequence of steps in order: the commands and motions at its leaves, each
//! repetition and forcing spelled out, and each help request turned into
//! the help text it opens. `expand_all` states that sequence; the
//! `Executor` produces it one step at a time, and `run` applies the steps
//! to an `ExecContext` until one needs work in the outside world.

use vstd::prelude::*;
use super::ast::{
    Arg, MotionDir, Node, SArg, SNode, node_view, nodes_view, arg_view, args_view,
    lemma_nodes_view_index,
};
use super::commands::{
    CommandKind, kind_of_letter, kind_help, ExecContext, CtxView, Outcome, SOutcome, outcome_view,
    ctx_ok, spec_run, warned, on_doc, cur, with_editor, spec_open_text, prefixed,
};
use super::help::HELP;
use crate::document::Document;
use crate::document::model::{spec_move_up, spec_move_down, max_lines, fresh};
use crate::editor::spec_open;
use crate::text::text_lines;

verus! {

/// One unit of work of a command line.
pub enum Step {
    /// Run the command named by `letter`.
    Command { letter: char, args: Vec<Arg>, forced: bool },
    /// Move the cursor `n` lines.
    Motion { dir: MotionDir, n: usize },
    /// Open a help page holding `text`.
    Help { text: String },
}

pub enum SStep {
    Command { letter: char, args: Seq<SArg>, forced: bool },
    Motion { dir: MotionDir, n: usize },
    Help { text: Seq<char> },
}

pub open spec fn step_view(s: Step) -> SStep {
    match s {
        Step::Command { letter, args, forced } => SStep::Command { letter, args: args_view(args@), forced },
        Step::Motion { dir, n } => SStep::Motion { dir, n },
        Step::Help { text } => SStep::Help { text: text@ },
    }
}

/// The letters of the commands among `items`.
pub open spec fn command_letters(items: Seq<SNode>) -> Seq<char>
    decreases items.len(),
{
    if items.len() == 0 {
        Seq::empty()
    } else {
        command_letters(items.drop_last()) + match items.last() {
            SNode::Command { letter, .. } => seq![letter],
            _ => Seq::<char>::empty(),
        }
    }
}

/// The letters separated by `", "`.
pub open spec fn joined_letters(ls: Seq<char>) -> Seq<char>
    decreases ls.len(),
{
    if ls.len() == 0 {
        Seq::empty()
    } else if ls.len() == 1 {
        seq![ls[0]]
    } else {
        joined_letters(ls.drop_last()) + ", "@ + seq![ls.last()]
    }
}

/// The help text for a node.
pub open spec fn spec_help_text(n: SNode) -> Seq<char> {
    match n {
        SNode::Command { letter, .. } => match kind_of_letter(letter) {
            Some(k) => kind_help(k),
            None => "no help available for '"@ + seq![letter] + "'"@,
        },
        SNode::Block { items } => "block: "@ + joined_letters(command_letters(items)),
        SNode::Motion { dir, .. } => match dir {
            MotionDir::Up => "move up N line(s)"@,
            MotionDir::Down => "move down N line(s)"@,
        },
        SNode::HelpRoot => HELP@,
        _ => "no help available"@,
    }
}

/// `s` repeated `n` times.
pub open spec fn repeat(s: Seq<SStep>, n: nat) -> Seq<SStep>
    decreases n,
{
    if n == 0 {
        Seq::empty()
    } else {
        s + repeat(s, (n - 1) as nat)
    }
}

/// The steps that running a node carries out, `forced` when a `!` applies.
pub open spec fn expand(n: SNode, forced: bool) -> Seq<SStep>
    decreases n,
{
    match n {
        SNode::Command { letter, args } => seq![SStep::Command { letter, args, forced }],
        SNode::Motion { dir, n } => seq![SStep::Motion { dir, n }],
        SNode::Block { items } => expand_all(items, forced),
        SNode::Repeat { target, n } => repeat(expand(*target, forced), n as nat),
        SNode::Force { target } => expand(*target, true),
        SNode::Help { target } => seq![SStep::Help { text: spec_help_text(*target) }],
        SNode::HelpRoot => Seq::empty(),
    }
}

/// The steps of a sequence of nodes, in order.
pub open spec fn expand_all(items: Seq<SNode>, forced: bool) -> Seq<SStep>
    decreases items,
{
    if items.len() == 0 {
        Seq::empty()
    } else {
        expand(items[0], forced) + expand_all(items.drop_first(), forced)
    }
}


/// A copy of an argument.
pub fn copy_arg(a: &Arg) -> (r: Arg)
    ensures
        arg_view(r) == arg_view(*a),
{
    match a {
        Arg::Plain(s) => Arg::Plain(s.clone()),
        Arg::Literal(s) => Arg::Literal(s.clone()),
    }
}

/// A copy of a list of arguments.
pub fn copy_args(v: &Vec<Arg>) -> (r: Vec<Arg>)
    ensures
        args_view(r@) == args_view(v@),
{
    let mut out: Vec<Arg> = Vec::new();
    let mut i: usize = 0;
    while i < v.len()
        invariant
            i <= v@.len(),
            out@.len() == i,
            forall|k: int| 0 <= k < i ==> arg_view(#[trigger] out@[k]) == arg_view(v@[k]),
        decreases v@.len() - i,
    {
        out.push(copy_arg(&v[i]));
        i = i + 1;
    }
    assert(args_view(out@) =~= args_view(v@));
    out
}

/// A copy of a node.
pub fn copy_node(n: &Node) -> (r: Node)
    ensures
        node_view(r) == node_view(*n),
    decreases n,
{
    match n {
        Node::Command { letter, args } => Node::Command { letter: *letter, args: copy_args(args) },
        Node::Motion { dir, n } => Node::Motion { dir: *dir, n: *n },
        Node::Block { items } => {
            let mut out: Vec<Node> = Vec::new();
            let mut i: usize = 0;
            while i < items.len()
                invariant
                    i <= items@.len(),
                    *n == (Node::Block { items: *items }),
                    out@.len() == i,
                    forall|k: int| 0 <= k < i ==> node_view(#[trigger] out@[k]) == node_view(items@[k]),
                decreases items@.len() - i,
            {
                proof {
                    assert(decreases_to!(*n => n->items));
                    assert(decreases_to!(*items => items@));
                    assert(decreases_to!(items@ => items@[i as int]));
                }
                let c = copy_node(&items[i]);
                out.push(c);
                i = i + 1;
            }
            proof {
                lemma_nodes_view_index(out@);
                lemma_nodes_view_index(items@);
                assert(nodes_view(out@) =~= nodes_view(items@));
            }
            Node::Block { items: out }
        },
        Node::Repeat { target, n: k } => Node::Repeat { target: Box::new(copy_node(target)), n: *k },
        Node::Force { target } => Node::Force { target: Box::new(copy_node(target)) },
        Node::Help { target } => Node::Help { target: Box::new(copy_node(target)) },
        Node::HelpRoot => Node::HelpRoot,
    }
}

/// The help text for a node.
pub fn help_text(n: &Node) -> (r: String)
    ensures
        r@ == spec_help_text(node_view(*n)),
{
    match n {
        Node::Command { letter, .. } => match CommandKind::from_char(*letter) {
            Some(k) => String::from_str(k.help()),
            None => {
                let mut m = String::from_str("no help available for '");
                m.push(*letter);
                m.append("'");
                m
            },
        },
        Node::Block { items } => {
            let ghost nv = nodes_view(items@);
            let mut out = String::from_str("block: ");
            let mut none_yet = true;
            let mut i: usize = 0;
            proof {
                lemma_nodes_view_index(items@);
            }
            while i < items.len()
                invariant
                    i <= items@.len(),
                    nv == nodes_view(items@),
                    nv.len() == items@.len(),
                    forall|k: int| 0 <= k < items@.len() ==> #[trigger] nv[k] == node_view(items@[k]),
                    out@ == "block: "@ + joined_letters(command_letters(nv.take(i as int))),
                    none_yet == (command_letters(nv.take(i as int)).len() == 0),
                decreases items@.len() - i,
            {
                let ghost before = command_letters(nv.take(i as int));
                proof {
                    assert(nv.take(i as int + 1).drop_last() =~= nv.take(i as int));
                    assert(nv.take(i as int + 1).last() == node_view(items@[i as int]));
                }
                match &items[i] {
                    Node::Command { letter, .. } => {
                        proof {
                            let after = command_letters(nv.take(i as int + 1));
                            assert(after == before + seq![*letter]);
                            assert(after.drop_last() =~= before);
                        }
                        if !none_yet {
                            out.append(", ");
                        }
                        out.push(*letter);
                        none_yet = false;
                        proof {
                            let after = command_letters(nv.take(i as int + 1));
                            if before.len() == 0 {
                                assert(after =~= seq![*letter]);
                            }
                            assert(out@ =~= "block: "@ + joined_letters(after));
                        }
                    },
                    _ => {
                        proof {
                            assert(command_letters(nv.take(i as int + 1)) =~= before);
                        }
                    },
                }
                i = i + 1;
            }
            proof {
                assert(nv.take(items@.len() as int) =~= nv);
            }
            out
        },
        Node::Motion { dir, .. } => match dir {
            MotionDir::Up => String::from_str("move up N line(s)"),
            MotionDir::Down => String::from_str("move down N line(s)"),
        },
        Node::HelpRoot => String::from_str(HELP),
        _ => String::from_str("no help available"),
    }
}

// ---------------------------------------------------------------------
// The executor
// ---------------------------------------------------------------------

/// Work left in one level of the run: nodes still to run in order, or a
/// node still to run `left` more times.
enum Frame {
    Items { items: Vec<Node>, forced: bool },
    Repeat { target: Node, left: usize, forced: bool },
}

spec fn frame_steps(f: Frame) -> Seq<SStep> {
    match f {
        Frame::Items { items, forced } => expand_all(nodes_view(items@), forced),
        Frame::Repeat { target, left, forced } => repeat(expand(node_view(target), forced), left as nat),
    }
}

/// The steps left, the innermost level (the last frame) first.
spec fn frames_steps(fs: Seq<Frame>) -> Seq<SStep>
    decreases fs.len(),
{
    if fs.len() == 0 {
        Seq::empty()
    } else {
        frame_steps(fs.last()) + frames_steps(fs.drop_last())
    }
}

/// How many internal moves the executor makes for a node: one to take it,
/// and for a node that opens a level, the moves of that level.
pub open spec fn node_ticks(n: SNode) -> nat
    decreases n,
{
    match n {
        SNode::Block { items } => items_ticks(items) + 2,
        SNode::Repeat { target, n } => (n as nat) * (node_ticks(*target) + 2) + 2,
        SNode::Force { target } => node_ticks(*target) + 2,
        _ => 1,
    }
}

pub open spec fn items_ticks(items: Seq<SNode>) -> nat
    decreases items,
{
    if items.len() == 0 {
        0
    } else {
        node_ticks(items[0]) + items_ticks(items.drop_first())
    }
}

spec fn frame_ticks(f: Frame) -> nat {
    match f {
        Frame::Items { items, .. } => items_ticks(nodes_view(items@)) + 1,
        Frame::Repeat { target, left, .. } => (left as nat) * (node_ticks(node_view(target)) + 2) + 1,
    }
}

spec fn frames_ticks(fs: Seq<Frame>) -> nat
    decreases fs.len(),
{
    if fs.len() == 0 {
        0
    } else {
        frame_ticks(fs.last()) + frames_ticks(fs.drop_last())
    }
}

/// Produces the steps of a command line one at a time.
pub struct Executor {
    frames: Vec<Frame>,
}

impl View for Executor {
    /// The steps not produced yet.
    type V = Seq<SStep>;

    closed spec fn view(&self) -> Seq<SStep> {
        frames_steps(self.frames@)
    }
}

/// What one internal move of the executor did.
enum Tick {
    Emit(Step),
    Skip,
    Done,
}

proof fn lemma_nodes_view_drop_first(v: Seq<Node>)
    requires
        v.len() > 0,
    ensures
        nodes_view(v.drop_first()) == nodes_view(v).drop_first(),
        nodes_view(v)[0] == node_view(v[0]),
        nodes_view(v).len() == v.len(),
{
    lemma_nodes_view_index(v);
    lemma_nodes_view_index(v.drop_first());
    assert(nodes_view(v.drop_first()) =~= nodes_view(v).drop_first());
}

proof fn lemma_frames_push(fs: Seq<Frame>, f: Frame)
    ensures
        frames_steps(fs.push(f)) == frame_steps(f) + frames_steps(fs),
        frames_ticks(fs.push(f)) == frame_ticks(f) + frames_ticks(fs),
{
    assert(fs.push(f).drop_last() =~= fs);
}

proof fn lemma_nodes_view_single(n: Node)
    ensures
        nodes_view(seq![n]) == seq![node_view(n)],
{
    lemma_nodes_view_index(seq![n]);
    assert(nodes_view(seq![n]) =~= seq![node_view(n)]);
}

impl Executor {
    /// The number of internal moves left; it bounds the steps left.
    pub closed spec fn measure(&self) -> nat {
        frames_ticks(self.frames@)
    }

    /// An executor for a parsed command line.
    pub fn new(nodes: Vec<Node>) -> (r: Self)
        ensures
            r@ == expand_all(nodes_view(nodes@), false),
    {
        let mut frames: Vec<Frame> = Vec::new();
        frames.push(Frame::Items { items: nodes, forced: false });
        let r = Executor { frames };
        proof {
            lemma_frames_push(Seq::empty(), r.frames@[0]);
            assert(r.frames@ =~= Seq::<Frame>::empty().push(r.frames@[0]));
            assert(r@ =~= expand_all(nodes_view(nodes@), false));
        }
        r
    }

    /// Take the first of `items` (not empty), the rest staying as a level.
    fn tick_items(&mut self, items: Vec<Node>, forced: bool) -> (r: Tick)
        requires
            items@.len() > 0,
        ensures
            ({
                let before = frame_steps(Frame::Items { items, forced }) + old(self)@;
                match r {
                    Tick::Emit(s) => before == seq![step_view(s)] + final(self)@,
                    Tick::Skip => final(self)@ == before,
                    Tick::Done => false,
                }
            }),
            final(self).measure() + 1 == frame_ticks(Frame::Items { items, forced }) + old(self).measure(),
    {
        let ghost rest = self.frames@;
        let ghost iv = items@;
        let ghost f0 = Frame::Items { items, forced };
        let mut items = items;
        let node = items.remove(0);
        proof {
            lemma_nodes_view_drop_first(iv);
            assert(iv.drop_first() =~= items@);
        }
        let ghost mid = Frame::Items { items, forced };
        self.frames.push(Frame::Items { items, forced });
        proof {
            lemma_frames_push(rest, mid);
        }
        let ghost fs2 = self.frames@;
        proof {
            let nv = nodes_view(iv);
            assert(node == iv[0]);
            assert(expand_all(nv, forced) == expand(nv[0], forced) + expand_all(nv.drop_first(), forced));
            assert(items_ticks(nv) == node_ticks(nv[0]) + items_ticks(nv.drop_first()));
            assert(frame_steps(f0) + frames_steps(rest) =~= expand(node_view(node), forced) + frames_steps(fs2));
            assert(frame_ticks(f0) + frames_ticks(rest) == node_ticks(node_view(node)) + frames_ticks(fs2));
        }
        match node {
            Node::Command { letter, args } => {
                let st = Step::Command { letter, args, forced };
                proof {
                    assert(expand(node_view(node), forced) =~= seq![step_view(st)]);
                }
                Tick::Emit(st)
            },
            Node::Motion { dir, n } => {
                let st = Step::Motion { dir, n };
                proof {
                    assert(expand(node_view(node), forced) =~= seq![step_view(st)]);
                }
                Tick::Emit(st)
            },
            Node::Block { items: inner } => {
                proof {
                    lemma_frames_push(fs2, Frame::Items { items: inner, forced });
                }
                self.frames.push(Frame::Items { items: inner, forced });
                Tick::Skip
            },
            Node::Repeat { target, n } => {
                proof {
                    lemma_frames_push(fs2, Frame::Repeat { target: *target, left: n, forced });
                }
                self.frames.push(Frame::Repeat { target: *target, left: n, forced });
                Tick::Skip
            },
            Node::Force { target } => {
                let mut v: Vec<Node> = Vec::new();
                v.push(*target);
                proof {
                    lemma_nodes_view_single(v@[0]);
                    assert(v@ =~= seq![v@[0]]);
                    let nv = nodes_view(v@);
                    assert(nv.drop_first() =~= Seq::<SNode>::empty());
                    assert(nv[0] == node_view(v@[0]));
                    assert(expand_all(nv.drop_first(), true) == Seq::<SStep>::empty());
                    assert(items_ticks(nv.drop_first()) == 0);
                    assert(expand_all(nv, true) == expand(nv[0], true) + expand_all(nv.drop_first(), true));
                    assert(expand_all(nv, true) =~= expand(node_view(v@[0]), true));
                    assert(items_ticks(nv) == node_ticks(node_view(v@[0])));
                    lemma_frames_push(fs2, Frame::Items { items: v, forced: true });
                }
                self.frames.push(Frame::Items { items: v, forced: true });
                Tick::Skip
            },
            Node::Help { target } => {
                let st = Step::Help { text: help_text(&target) };
                proof {
                    assert(expand(node_view(node), forced) =~= seq![step_view(st)]);
                }
                Tick::Emit(st)
            },
            Node::HelpRoot => {
                proof {
                    assert(frames_steps(fs2) =~= expand(node_view(node), forced) + frames_steps(fs2));
                }
                Tick::Skip
            },
        }
    }

    /// Start one more run of `target` (`left` > 0 runs to go).
    fn tick_repeat(&mut self, target: Node, left: usize, forced: bool) -> (r: Tick)
        requires
            left > 0,
        ensures
            r is Skip,
            final(self)@ == frame_steps(Frame::Repeat { target, left, forced }) + old(self)@,
            final(self).measure() + 1 == frame_ticks(Frame::Repeat { target, left, forced }) + old(self).measure(),
    {
        let ghost rest = self.frames@;
        let copy = copy_node(&target);
        let ghost k = node_ticks(node_view(target));
        let ghost e = expand(node_view(target), forced);
        let ghost fr = Frame::Repeat { target, left: (left - 1) as usize, forced };
        self.frames.push(Frame::Repeat { target, left: left - 1, forced });
        let mut v: Vec<Node> = Vec::new();
        v.push(copy);
        proof {
            lemma_frames_push(rest, fr);
            lemma_nodes_view_single(copy);
            assert(v@ =~= seq![copy]);
            let nv = nodes_view(v@);
            assert(nv.drop_first() =~= Seq::<SNode>::empty());
            assert(expand_all(nv.drop_first(), forced) == Seq::<SStep>::empty());
            assert(items_ticks(nv.drop_first()) == 0);
            assert(expand_all(nv, forced) == expand(nv[0], forced) + expand_all(nv.drop_first(), forced));
            assert(expand_all(nv, forced) =~= e);
            assert(items_ticks(nv) == k);
            lemma_frames_push(rest.push(fr), Frame::Items { items: v, forced });
            assert(repeat(e, left as nat) == e + repeat(e, (left - 1) as nat));
            let l: nat = left as nat;
            assert(l * (k + 2) == ((l - 1) as nat) * (k + 2) + (k + 2)) by (nonlinear_arith)
                requires
                    l >= 1,
            ;
        }
        self.frames.push(Frame::Items { items: v, forced });
        Tick::Skip
    }

    fn tick(&mut self) -> (r: Tick)
        ensures
            match r {
                Tick::Emit(s) => old(self)@ == seq![step_view(s)] + final(self)@,
                Tick::Skip => final(self)@ == old(self)@,
                Tick::Done => old(self)@.len() == 0 && final(self)@.len() == 0,
            },
            r is Done ==> final(self).measure() == old(self).measure(),
            !(r is Done) ==> final(self).measure() + 1 == old(self).measure(),
    {
        let ghost fs = self.frames@;
        let top = self.frames.pop();
        proof {
            if fs.len() > 0 {
                lemma_frames_push(fs.drop_last(), fs.last());
                assert(fs.drop_last().push(fs.last()) =~= fs);
            }
        }
        let ghost rest = self.frames@;
        match top {
            None => Tick::Done,
            Some(Frame::Items { items, forced }) => {
                if items.len() == 0 {
                    proof {
                        assert(nodes_view(items@) =~= Seq::<SNode>::empty());
                        assert(frames_steps(fs) =~= frames_steps(rest));
                    }
                    return Tick::Skip;
                }
                self.tick_items(items, forced)
            },
            Some(Frame::Repeat { target, left, forced }) => {
                if left == 0 {
                    proof {
                        let kk = node_ticks(node_view(target)) + 2;
                        assert((left as nat) * kk == 0) by (nonlinear_arith)
                            requires
                                left == 0,
                        ;
                        assert(frames_steps(fs) =~= frames_steps(rest));
                    }
                    return Tick::Skip;
                }
                self.tick_repeat(target, left, forced)
            },
        }
    }
}

impl Executor {
    /// The next step, if any is left.
    pub fn next_step(&mut self) -> (r: Option<Step>)
        ensures
            match r {
                Some(s) => old(self)@ == seq![step_view(s)] + final(self)@
                    && final(self).measure() < old(self).measure(),
                None => old(self)@.len() == 0 && final(self)@.len() == 0,
            },
    {
        loop
            invariant
                self@ == old(self)@,
                self.measure() <= old(self).measure(),
            decreases self.measure(),
        {
            match self.tick() {
                Tick::Emit(s) => return Some(s),
                Tick::Skip => {},
                Tick::Done => return None,
            }
        }
    }
}

// ---------------------------------------------------------------------
// Applying steps
// ---------------------------------------------------------------------

/// What applying one step does to the context, and how it ends.
pub open spec fn spec_apply(st: SStep, c: CtxView) -> (CtxView, SOutcome) {
    match st {
        SStep::Command { letter, args, forced } => match kind_of_letter(letter) {
            Some(k) => spec_run(k, args, forced, c),
            None => (warned(c, "unknown command '"@ + seq![letter] + "'"@), SOutcome::Done),
        },
        SStep::Motion { dir, n } => if c.editor.docs.len() == 0 {
            (c, SOutcome::Halted)
        } else {
            match dir {
                MotionDir::Up => (on_doc(c, spec_move_up(cur(c), n as int)), SOutcome::Done),
                MotionDir::Down => (on_doc(c, spec_move_down(cur(c), n as int)), SOutcome::Done),
            }
        },
        SStep::Help { text } => spec_open_text(c, "help"@, text, true),
    }
}

/// Apply steps in order until one does not end as `Done`: the context
/// then, the number of steps applied, and how the last one ended.
pub open spec fn spec_drive(steps: Seq<SStep>, c: CtxView) -> (CtxView, nat, SOutcome)
    decreases steps.len(),
{
    if steps.len() == 0 {
        (c, 0, SOutcome::Done)
    } else {
        let (c1, o) = spec_apply(steps[0], c);
        match o {
            SOutcome::Done => {
                let (c2, k, o2) = spec_drive(steps.drop_first(), c1);
                (c2, k + 1, o2)
            },
            _ => (c1, 1, o),
        }
    }
}

impl ExecContext {
    /// Apply one step.
    pub fn apply(&mut self, step: Step) -> (r: Outcome)
        requires
            ctx_ok(old(self)@),
        ensures
            (final(self)@, outcome_view(r)) == spec_apply(step_view(step), old(self)@),
            ctx_ok(final(self)@),
    {
        match step {
            Step::Command { letter, args, forced } => match CommandKind::from_char(letter) {
                Some(kind) => kind.run(args.as_slice(), forced, self),
                None => {
                    let mut m = String::from_str("unknown command '");
                    m.push(letter);
                    m.append("'");
                    assert(m@ =~= "unknown command '"@ + seq![letter] + "'"@);
                    let t = self.now_ns;
                    self.warn.show(m, t);
                    Outcome::Done
                },
            },
            Step::Motion { dir, n } => {
                if self.editor.get_docs_len() == 0 {
                    return Outcome::Halted;
                }
                match dir {
                    MotionDir::Up => {
                        self.editor.doc_mut().move_up(n);
                        Outcome::Done
                    },
                    MotionDir::Down => {
                        self.editor.doc_mut().move_down(n);
                        Outcome::Done
                    },
                }
            },
            Step::Help { text } => self.open_text(String::from_str("help"), text, true),
        }
    }
}

/// Apply the executor's steps to the context until one needs work in the
/// outside world (`Effect`), cannot be carried out (`Halted`), or none is
/// left (`Done`). After an effect has been carried out and finished, a
/// further call goes on with the next step.
pub fn run(exec: &mut Executor, ctx: &mut ExecContext) -> (r: Outcome)
    requires
        ctx_ok(old(ctx)@),
    ensures
        ({
            let (c2, k, o) = spec_drive(old(exec)@, old(ctx)@);
            &&& final(ctx)@ == c2
            &&& outcome_view(r) == o
            &&& final(exec)@ == old(exec)@.skip(k as int)
        }),
        ctx_ok(final(ctx)@),
{
    let ghost s0 = exec@;
    let ghost c0 = ctx@;
    let ghost mut k: nat = 0;
    loop
        invariant
            ctx_ok(ctx@),
            s0 == old(exec)@,
            c0 == old(ctx)@,
            k <= s0.len(),
            exec@ == s0.skip(k as int),
            spec_drive(s0, c0).0 == spec_drive(exec@, ctx@).0,
            spec_drive(s0, c0).1 == spec_drive(exec@, ctx@).1 + k,
            spec_drive(s0, c0).2 == spec_drive(exec@, ctx@).2,
        decreases exec.measure(),
    {
        let ghost before = exec@;
        let ghost cb = ctx@;
        match exec.next_step() {
            None => {
                proof {
                    assert(spec_drive(before, cb) == (cb, 0nat, SOutcome::Done));
                    assert(exec@ =~= s0.skip(k as int));
                }
                return Outcome::Done;
            },
            Some(st) => {
                proof {
                    assert(before.drop_first() =~= exec@);
                    assert(before[0] == step_view(st));
                }
                let o = ctx.apply(st);
                proof {
                    let (c1, o1) = spec_apply(before[0], cb);
                    assert(c1 == ctx@ && o1 == outcome_view(o));
                    if !(o1 is Done) {
                        assert(spec_drive(before, cb) == (c1, 1nat, o1));
                    }
                }
                match o {
                    Outcome::Done => {
                        proof {
                            k = k + 1;
                            assert(exec@ =~= s0.skip(k as int));
                        }
                    },
                    _ => {
                        proof {
                            assert(exec@ =~= s0.skip(k as int + 1));
                        }
                        return o;
                    },
                }
            },
        }
    }
}
// ---------------------------------------------------------------------
// Laws of the command language
// ---------------------------------------------------------------------

proof fn lemma_repeat_len(e: Seq<SStep>, n: nat)
    ensures
        repeat(e, n).len() == n * e.len(),
    decreases n,
{
    if n > 0 {
        lemma_repeat_len(e, (n - 1) as nat);
        assert(n * e.len() == (n - 1) as nat * e.len() + e.len()) by (nonlinear_arith)
            requires
                n > 0,
        ;
    } else {
        assert(n * e.len() == 0) by (nonlinear_arith)
            requires
                n == 0,
        ;
    }
}

proof fn lemma_repeat_index(e: Seq<SStep>, n: nat, i: int)
    requires
        0 <= i < repeat(e, n).len(),
        e.len() > 0,
    ensures
        repeat(e, n)[i] == e[i % (e.len() as int)],
    decreases n,
{
    lemma_repeat_len(e, n);
    if n > 0 {
        if i >= e.len() {
            lemma_repeat_len(e, (n - 1) as nat);
            lemma_repeat_index(e, (n - 1) as nat, i - e.len());
            assert((i - e.len()) % (e.len() as int) == i % (e.len() as int)) by (nonlinear_arith)
                requires
                    i >= e.len(),
                    e.len() > 0,
            ;
        } else {
            assert(i % (e.len() as int) == i) by (nonlinear_arith)
                requires
                    0 <= i < e.len(),
            ;
        }
    }
}

/// `*N` runs its target `N` times: the steps of the repetition are those of
/// the target, `N` times over in order.
pub proof fn lemma_repeat_runs_n_times(target: SNode, n: usize, forced: bool)
    ensures
        expand(SNode::Repeat { target: Box::new(target), n }, forced).len() == n * expand(target, forced).len(),
        forall|i: int| 0 <= i < expand(SNode::Repeat { target: Box::new(target), n }, forced).len() ==>
            #[trigger] expand(SNode::Repeat { target: Box::new(target), n }, forced)[i]
                == expand(target, forced)[i % (expand(target, forced).len() as int)],
{
    let e = expand(target, forced);
    lemma_repeat_len(e, n as nat);
    assert forall|i: int| 0 <= i < repeat(e, n as nat).len() implies #[trigger] repeat(e, n as nat)[i] == e[i % (e.len() as int)] by {
        if e.len() == 0 {
            assert(repeat(e, n as nat).len() == 0) by (nonlinear_arith)
                requires
                    repeat(e, n as nat).len() == (n as nat) * e.len(),
                    e.len() == 0,
            ;
        } else {
            lemma_repeat_index(e, n as nat, i);
        }
    }
}

proof fn lemma_repeat_forced(e: Seq<SStep>, n: nat)
    requires
        forall|i: int| 0 <= i < e.len() ==> (#[trigger] e[i] matches SStep::Command { forced, .. } ==> forced),
    ensures
        forall|i: int| 0 <= i < repeat(e, n).len() ==> (#[trigger] repeat(e, n)[i] matches SStep::Command { forced, .. } ==> forced),
    decreases n,
{
    if n > 0 {
        lemma_repeat_forced(e, (n - 1) as nat);
        let r = repeat(e, n);
        assert forall|i: int| 0 <= i < r.len() implies (#[trigger] r[i] matches SStep::Command { forced, .. } ==> forced) by {
            if i < e.len() {
                assert(r[i] == e[i]);
            } else {
                assert(r[i] == repeat(e, (n - 1) as nat)[i - e.len()]);
            }
        }
    }
}

/// `!` forces every command it applies to: all command steps of a forced
/// node are forced.
pub proof fn lemma_force_reaches_all(n: SNode)
    ensures
        forall|i: int| 0 <= i < expand(n, true).len() ==> (#[trigger] expand(n, true)[i] matches SStep::Command { forced, .. } ==> forced),
    decreases n,
{
    match n {
        SNode::Block { items } => {
            lemma_force_reaches_all_items(items);
        },
        SNode::Repeat { target, n: k } => {
            lemma_force_reaches_all(*target);
            lemma_repeat_forced(expand(*target, true), k as nat);
        },
        SNode::Force { target } => {
            lemma_force_reaches_all(*target);
        },
        _ => {},
    }
}

proof fn lemma_force_reaches_all_items(items: Seq<SNode>)
    ensures
        forall|i: int| 0 <= i < expand_all(items, true).len() ==> (#[trigger] expand_all(items, true)[i] matches SStep::Command { forced, .. } ==> forced),
    decreases items,
{
    if items.len() > 0 {
        lemma_force_reaches_all(items[0]);
        lemma_force_reaches_all_items(items.drop_first());
        let a = expand(items[0], true);
        let b = expand_all(items.drop_first(), true);
        let all = expand_all(items, true);
        assert forall|i: int| 0 <= i < all.len() implies (#[trigger] all[i] matches SStep::Command { forced, .. } ==> forced) by {
            if i < a.len() {
                assert(all[i] == a[i]);
            } else {
                assert(all[i] == b[i - a.len()]);
            }
        }
    }
}

/// Running `steps` `n` times over from `c`, each run starting where the
/// one before ended, until a run does not end as `Done`: the context then,
/// the number of steps applied in all, and how the last one ended.
pub open spec fn drive_times(steps: Seq<SStep>, c: CtxView, n: nat) -> (CtxView, nat, SOutcome)
    decreases n,
{
    if n == 0 {
        (c, 0, SOutcome::Done)
    } else {
        let (c1, k, o) = spec_drive(steps, c);
        match o {
            SOutcome::Done => {
                let (c2, k2, o2) = drive_times(steps, c1, (n - 1) as nat);
                (c2, k + k2, o2)
            },
            _ => (c1, k, o),
        }
    }
}

/// Driving two runs of steps one after the other is driving the first,
/// then, when it ends as `Done`, the second from where it left off.
proof fn lemma_drive_concat(a: Seq<SStep>, b: Seq<SStep>, c: CtxView)
    ensures
        spec_drive(a + b, c) == ({
            let (c1, k, o) = spec_drive(a, c);
            match o {
                SOutcome::Done => {
                    let (c2, k2, o2) = spec_drive(b, c1);
                    (c2, k + k2, o2)
                },
                _ => (c1, k, o),
            }
        }),
    decreases a.len(),
{
    if a.len() == 0 {
        assert(a + b =~= b);
    } else {
        assert((a + b)[0] == a[0]);
        assert((a + b).drop_first() =~= a.drop_first() + b);
        let (c1, o) = spec_apply(a[0], c);
        lemma_drive_concat(a.drop_first(), b, c1);
    }
}

/// `*N` is `N` runs of its target: running a repetition from a context is
/// running the target's steps `N` times over, each run from where the one
/// before left off, stopping at the first run that does not end as `Done`.
pub proof fn lemma_repeat_is_n_runs(target: SNode, n: usize, forced: bool, c: CtxView)
    ensures
        spec_drive(expand(SNode::Repeat { target: Box::new(target), n }, forced), c)
            == drive_times(expand(target, forced), c, n as nat),
{
    lemma_repeat_drive(expand(target, forced), n as nat, c);
}

proof fn lemma_repeat_drive(s: Seq<SStep>, n: nat, c: CtxView)
    ensures
        spec_drive(repeat(s, n), c) == drive_times(s, c, n),
    decreases n,
{
    if n > 0 {
        lemma_drive_concat(s, repeat(s, (n - 1) as nat), c);
        let (c1, k, o) = spec_drive(s, c);
        lemma_repeat_drive(s, (n - 1) as nat, c1);
    }
}

/// `!` runs its target forced: running a forced node from a context is
/// running the target's steps with every command forced.
pub proof fn lemma_force_runs_target_forced(target: SNode, forced: bool, c: CtxView)
    ensures
        spec_drive(expand(SNode::Force { target: Box::new(target) }, forced), c)
            == spec_drive(expand(target, true), c),
{
}

} // verus!
