//! The parser of the command language.
//!
//! Grammar (over characters):
//!
//! ```text
//! sequence := ( block | item modifier )*
//! block    := ',' ( item modifier )* [','] modifier     -- at least one item
//! item     := letter [args] | ('>' | '<') digits* | '?' (help, with no target)
//! args     := ';' ';' | ';' arg (':' arg)* ';'
//! arg      := '"' (any but '"')* '"' | (any but ':' and ';')*
//! modifier := '*' digits+ | '!' | '?' | nothing
//! ```
//!
//! The spec functions below give, for input characters `cs` and a position,
//! the result of each rule: the value and the position after it, or the
//! error with its message and position.

use vstd::prelude::*;
use super::ast::{Arg, MotionDir, Node, SArg, SNode, node_view, nodes_view, arg_view, args_view};
use crate::text::{decimal, push_decimal};

verus! {

/// A parse error: what went wrong, and at which character.
#[derive(Debug, Clone, PartialEq)]
pub struct ParseError {
    pub message: String,
    pub position: usize,
}

impl ParseError {
    /// The error as shown to the user.
    pub fn to_string(&self) -> (r: String)
        ensures
            r@ == "parse error at "@ + decimal(self.position as nat) + ": "@ + self.message@,
    {
        let mut out = String::from_str("parse error at ");
        push_decimal(&mut out, self.position);
        out.append(": ");
        out.append(self.message.as_str());
        out
    }
}

/// The model of a parse error.
pub struct SErr {
    pub message: Seq<char>,
    pub position: int,
}

pub open spec fn err_view(e: ParseError) -> SErr {
    SErr { message: e.message@, position: e.position as int }
}

pub open spec fn peek(cs: Seq<char>, p: int) -> Option<char> {
    if 0 <= p < cs.len() { Some(cs[p]) } else { None }
}

pub open spec fn is_ascii_alpha(c: char) -> bool {
    ('a' <= c && c <= 'z') || ('A' <= c && c <= 'Z')
}

pub open spec fn is_ascii_digit(c: char) -> bool {
    '0' <= c && c <= '9'
}

pub open spec fn mk_err(msg: Seq<char>, p: int) -> SErr {
    SErr { message: msg, position: p }
}

/// End of the run of ASCII digits starting at `p`.
pub open spec fn digits_end(cs: Seq<char>, p: int) -> int
    decreases cs.len() - p,
{
    if 0 <= p < cs.len() && is_ascii_digit(cs[p]) {
        digits_end(cs, p + 1)
    } else {
        p
    }
}

/// The number a string of decimal digits denotes.
pub open spec fn digits_value(s: Seq<char>) -> int
    decreases s.len(),
{
    if s.len() == 0 {
        0
    } else {
        digits_value(s.drop_last()) * 10 + (s.last() as int - '0' as int)
    }
}

/// `digits` parsed as a `usize` (`None` when too large).
pub open spec fn parse_usize(digits: Seq<char>) -> Option<usize> {
    if digits_value(digits) <= usize::MAX { Some(digits_value(digits) as usize) } else { None }
}

pub open spec fn spec_parse_motion(cs: Seq<char>, p: int) -> Result<(SNode, int), SErr> {
    let dir = if cs[p] == '>' { MotionDir::Up } else { MotionDir::Down };
    let e = digits_end(cs, p + 1);
    let digits = cs.subrange(p + 1, e);
    if digits.len() == 0 {
        Ok((SNode::Motion { dir, n: 1 }, e))
    } else {
        match parse_usize(digits) {
            Some(n) => Ok((SNode::Motion { dir, n }, e)),
            None => Err(mk_err("invalid motion count"@, e)),
        }
    }
}

/// End of a plain argument starting at `p`.
pub open spec fn plain_end(cs: Seq<char>, p: int) -> int
    decreases cs.len() - p,
{
    if 0 <= p < cs.len() && cs[p] != ':' && cs[p] != ';' {
        plain_end(cs, p + 1)
    } else {
        p
    }
}

/// Position of the closing quote of a literal argument whose text starts at
/// `p` (`None` when it is missing).
pub open spec fn closing_quote(cs: Seq<char>, p: int) -> Option<int>
    decreases cs.len() - p,
{
    if p < 0 || p >= cs.len() {
        None
    } else if cs[p] == '"' {
        Some(p)
    } else {
        closing_quote(cs, p + 1)
    }
}

/// "unterminated literal argument, expected '\u{22}'"
pub open spec fn unterminated_literal_msg() -> Seq<char> {
    "unterminated literal argument, expected '"@ + seq!['\u{22}'] + "'"@
}

pub open spec fn spec_parse_arg(cs: Seq<char>, p: int) -> Result<(SArg, int), SErr> {
    if peek(cs, p) == Some('"') {
        match closing_quote(cs, p + 1) {
            Some(q) => Ok((SArg::Literal(cs.subrange(p + 1, q)), q + 1)),
            None => Err(mk_err(unterminated_literal_msg(), cs.len() as int)),
        }
    } else {
        let e = plain_end(cs, p);
        Ok((SArg::Plain(cs.subrange(p, e)), e))
    }
}

/// The arguments from position `p` on (after `;` or `:`), `acc` holding
/// those read so far.
pub open spec fn spec_parse_arg_list(cs: Seq<char>, p: int, acc: Seq<SArg>) -> Result<(Seq<SArg>, int), SErr>
    decreases cs.len() - p,
{
    if p < 0 || p > cs.len() {
        Err(mk_err(Seq::empty(), p))
    } else {
        match spec_parse_arg(cs, p) {
            Err(e) => Err(e),
            Ok((a, p1)) => {
                let acc2 = acc.push(a);
                match peek(cs, p1) {
                    Some(c) => if c == ':' {
                        if p1 + 1 > p {
                            spec_parse_arg_list(cs, p1 + 1, acc2)
                        } else {
                            Err(mk_err(Seq::empty(), p))
                        }
                    } else if c == ';' {
                        Ok((acc2, p1 + 1))
                    } else {
                        Err(mk_err("unexpected '"@ + seq![c] + "' in argument list"@, p1))
                    },
                    None => Err(mk_err("unterminated argument list, expected ';'"@, p1)),
                }
            },
        }
    }
}

/// The arguments after the `;` at position `p`.
pub open spec fn spec_parse_args(cs: Seq<char>, p: int) -> Result<(Seq<SArg>, int), SErr> {
    if peek(cs, p + 1) == Some(';') {
        Ok((Seq::empty(), p + 2))
    } else {
        spec_parse_arg_list(cs, p + 1, Seq::empty())
    }
}

pub open spec fn spec_parse_command(cs: Seq<char>, p: int) -> Result<(SNode, int), SErr> {
    let letter = cs[p];
    if peek(cs, p + 1) == Some(';') {
        match spec_parse_args(cs, p + 1) {
            Ok((args, p2)) => Ok((SNode::Command { letter, args }, p2)),
            Err(e) => Err(e),
        }
    } else {
        Ok((SNode::Command { letter, args: Seq::empty() }, p + 1))
    }
}

pub open spec fn spec_parse_item(cs: Seq<char>, p: int) -> Result<(SNode, int), SErr> {
    match peek(cs, p) {
        Some(c) => if is_ascii_alpha(c) {
            spec_parse_command(cs, p)
        } else if c == '>' || c == '<' {
            spec_parse_motion(cs, p)
        } else if c == '?' {
            Ok((SNode::HelpRoot, p))
        } else {
            Err(mk_err("unexpected character '"@ + seq![c] + "'"@, p))
        },
        None => Err(mk_err("unexpected end of input"@, p)),
    }
}

pub open spec fn spec_parse_modifier(cs: Seq<char>, p: int, node: SNode) -> Result<(SNode, int), SErr> {
    match peek(cs, p) {
        Some(c) => if c == '*' {
            let e = digits_end(cs, p + 1);
            let digits = cs.subrange(p + 1, e);
            if digits.len() == 0 {
                Err(mk_err("expected a number after '*'"@, e))
            } else {
                match parse_usize(digits) {
                    Some(n) => Ok((SNode::Repeat { target: Box::new(node), n }, e)),
                    None => Err(mk_err("invalid repeat count"@, e)),
                }
            }
        } else if c == '!' {
            Ok((SNode::Force { target: Box::new(node) }, p + 1))
        } else if c == '?' {
            Ok((SNode::Help { target: Box::new(node) }, p + 1))
        } else {
            Ok((node, p))
        },
        None => Ok((node, p)),
    }
}

/// An item followed by its modifier.
pub open spec fn spec_parse_unit(cs: Seq<char>, p: int) -> Result<(SNode, int), SErr> {
    match spec_parse_item(cs, p) {
        Ok((it, p1)) => spec_parse_modifier(cs, p1, it),
        Err(e) => Err(e),
    }
}

/// The items of a block from position `p` on, `acc` holding those read.
pub open spec fn spec_parse_block_items(cs: Seq<char>, p: int, acc: Seq<SNode>) -> Result<(Seq<SNode>, int), SErr>
    decreases cs.len() - p,
{
    match peek(cs, p) {
        None => Ok((acc, p)),
        Some(c) => if c == ',' {
            Ok((acc, p + 1))
        } else {
            match spec_parse_unit(cs, p) {
                Err(e) => Err(e),
                Ok((n, p2)) => if p < p2 <= cs.len() {
                    spec_parse_block_items(cs, p2, acc.push(n))
                } else {
                    Err(mk_err(Seq::empty(), p))
                },
            }
        },
    }
}

/// A block starting with the `,` at position `p`.
pub open spec fn spec_parse_block(cs: Seq<char>, p: int) -> Result<(SNode, int), SErr> {
    match spec_parse_block_items(cs, p + 1, Seq::empty()) {
        Err(e) => Err(e),
        Ok((items, p2)) => if items.len() == 0 {
            Err(mk_err("empty block"@, p2))
        } else {
            spec_parse_modifier(cs, p2, SNode::Block { items })
        },
    }
}

/// The sequence from position `p` on, `acc` holding the nodes read.
pub open spec fn spec_parse_sequence(cs: Seq<char>, p: int, acc: Seq<SNode>) -> Result<Seq<SNode>, SErr>
    decreases cs.len() - p,
{
    if p < 0 || p >= cs.len() {
        Ok(acc)
    } else {
        let r = if cs[p] == ',' { spec_parse_block(cs, p) } else { spec_parse_unit(cs, p) };
        match r {
            Err(e) => Err(e),
            Ok((n, p2)) => if p < p2 <= cs.len() {
                spec_parse_sequence(cs, p2, acc.push(n))
            } else {
                Err(mk_err(Seq::empty(), p))
            },
        }
    }
}

/// The result of parsing a whole input.
pub open spec fn spec_parse(input: Seq<char>) -> Result<Seq<SNode>, SErr> {
    spec_parse_sequence(input, 0, Seq::empty())
}


/// The exec result agrees with the spec result of a rule producing a node.
pub open spec fn node_result(r: Result<Node, ParseError>, s: Result<(SNode, int), SErr>, pos: int) -> bool {
    match s {
        Ok((n, p)) => r matches Ok(x) && node_view(x) == n && pos == p,
        Err(e) => r matches Err(x) && err_view(x) == e,
    }
}

struct Parser {
    chars: Vec<char>,
    pos: usize,
}

/// The characters of `digits` denote a number: its value, or `None` when it
/// does not fit in a `usize`.
pub(crate) fn parse_digits(digits: &Vec<char>) -> (r: Option<usize>)
    requires
        forall|i: int| 0 <= i < digits@.len() ==> is_ascii_digit(#[trigger] digits@[i]),
    ensures
        r == parse_usize(digits@),
{
    let mut v: usize = 0;
    let mut i: usize = 0;
    while i < digits.len()
        invariant
            i <= digits@.len(),
            forall|k: int| 0 <= k < digits@.len() ==> is_ascii_digit(#[trigger] digits@[k]),
            v == digits_value(digits@.take(i as int)),
        decreases digits@.len() - i,
    {
        let c = digits[i];
        let d = (c as u32 - '0' as u32) as usize;
        proof {
            assert(digits@.take(i as int + 1).drop_last() =~= digits@.take(i as int));
            assert(digits@.take(i as int + 1).last() == c);
        }
        if v > (usize::MAX - d) / 10 {
            proof {
                assert(digits_value(digits@.take(i as int + 1)) > usize::MAX) by (nonlinear_arith)
                    requires
                        digits_value(digits@.take(i as int + 1)) == v * 10 + d,
                        v > (usize::MAX - d) / 10,
                        0 <= d <= 9,
                {
                }
                lemma_digits_value_mono(digits@, i as int + 1, digits@.len() as int);
                assert(digits@.take(digits@.len() as int) =~= digits@);
            }
            return None;
        }
        v = v * 10 + d;
        i = i + 1;
    }
    proof {
        assert(digits@.take(digits@.len() as int) =~= digits@);
    }
    Some(v)
}

/// More digits never make the value smaller.
proof fn lemma_digits_value_mono(s: Seq<char>, i: int, j: int)
    requires
        0 <= i <= j <= s.len(),
        forall|k: int| 0 <= k < s.len() ==> is_ascii_digit(#[trigger] s[k]),
    ensures
        digits_value(s.take(j)) >= digits_value(s.take(i)),
    decreases j - i,
{
    if i < j {
        lemma_digits_value_mono(s, i, j - 1);
        assert(s.take(j).drop_last() =~= s.take(j - 1));
        assert(s.take(j).last() == s[j - 1]);
        lemma_digits_value_nonneg(s.take(j - 1));
    }
}

proof fn lemma_digits_value_nonneg(s: Seq<char>)
    requires
        forall|k: int| 0 <= k < s.len() ==> is_ascii_digit(#[trigger] s[k]),
    ensures
        digits_value(s) >= 0,
    decreases s.len(),
{
    if s.len() > 0 {
        lemma_digits_value_nonneg(s.drop_last());
    }
}

impl Parser {
    spec fn ok(&self) -> bool {
        self.pos <= self.chars@.len()
    }

    fn peek(&self) -> (r: Option<char>)
        ensures
            r == peek(self.chars@, self.pos as int),
    {
        if self.pos < self.chars.len() {
            Some(self.chars[self.pos])
        } else {
            None
        }
    }

    fn advance(&mut self) -> (r: Option<char>)
        requires
            old(self).ok(),
        ensures
            r == peek(old(self).chars@, old(self).pos as int),
            final(self).chars@ == old(self).chars@,
            final(self).pos == if r is Some { old(self).pos + 1 } else { old(self).pos as int },
            final(self).ok(),
    {
        if self.pos < self.chars.len() {
            let c = self.chars[self.pos];
            self.pos = self.pos + 1;
            Some(c)
        } else {
            None
        }
    }

    fn err(&self, message: String) -> (r: ParseError)
        ensures
            err_view(r) == mk_err(message@, self.pos as int),
    {
        ParseError { message, position: self.pos }
    }

    /// The run of ASCII digits at the current position.
    fn consume_digits(&mut self) -> (r: Vec<char>)
        requires
            old(self).ok(),
        ensures
            final(self).chars@ == old(self).chars@,
            final(self).pos == digits_end(old(self).chars@, old(self).pos as int),
            r@ == old(self).chars@.subrange(old(self).pos as int, final(self).pos as int),
            forall|i: int| 0 <= i < r@.len() ==> is_ascii_digit(#[trigger] r@[i]),
            final(self).ok(),
            final(self).pos >= old(self).pos,
    {
        let mut s: Vec<char> = Vec::new();
        let start = self.pos;
        while self.pos < self.chars.len() && '0' <= self.chars[self.pos] && self.chars[self.pos] <= '9'
            invariant
                self.chars@ == old(self).chars@,
                start == old(self).pos,
                start <= self.pos <= self.chars@.len(),
                digits_end(self.chars@, start as int) == digits_end(self.chars@, self.pos as int),
                s@ == self.chars@.subrange(start as int, self.pos as int),
                forall|i: int| 0 <= i < s@.len() ==> is_ascii_digit(#[trigger] s@[i]),
            decreases self.chars@.len() - self.pos,
        {
            s.push(self.chars[self.pos]);
            self.pos = self.pos + 1;
            assert(s@ =~= self.chars@.subrange(start as int, self.pos as int));
        }
        s
    }

    fn parse_motion(&mut self) -> (r: Result<Node, ParseError>)
        requires
            old(self).ok(),
            peek(old(self).chars@, old(self).pos as int) == Some('>')
                || peek(old(self).chars@, old(self).pos as int) == Some('<'),
        ensures
            final(self).chars@ == old(self).chars@,
            final(self).ok(),
            node_result(r, spec_parse_motion(old(self).chars@, old(self).pos as int), final(self).pos as int),
            r is Ok ==> final(self).pos > old(self).pos,
    {
        let c = self.advance();
        let dir = if c == Some('>') { MotionDir::Up } else { MotionDir::Down };
        let digits = self.consume_digits();
        if digits.len() == 0 {
            return Ok(Node::Motion { dir, n: 1 });
        }
        match parse_digits(&digits) {
            Some(n) => Ok(Node::Motion { dir, n }),
            None => Err(self.err(String::from_str("invalid motion count"))),
        }
    }

    fn parse_plain_arg(&mut self) -> (r: Arg)
        requires
            old(self).ok(),
        ensures
            final(self).chars@ == old(self).chars@,
            final(self).ok(),
            final(self).pos == plain_end(old(self).chars@, old(self).pos as int),
            arg_view(r) == SArg::Plain(old(self).chars@.subrange(old(self).pos as int, final(self).pos as int)),
            final(self).pos >= old(self).pos,
    {
        let mut s: Vec<char> = Vec::new();
        let start = self.pos;
        while self.pos < self.chars.len() && self.chars[self.pos] != ':' && self.chars[self.pos] != ';'
            invariant
                self.chars@ == old(self).chars@,
                start == old(self).pos,
                start <= self.pos <= self.chars@.len(),
                plain_end(self.chars@, start as int) == plain_end(self.chars@, self.pos as int),
                s@ == self.chars@.subrange(start as int, self.pos as int),
            decreases self.chars@.len() - self.pos,
        {
            s.push(self.chars[self.pos]);
            self.pos = self.pos + 1;
            assert(s@ =~= self.chars@.subrange(start as int, self.pos as int));
        }
        Arg::Plain(crate::text::string_of(s.as_slice()))
    }

    fn parse_literal_arg(&mut self) -> (r: Result<Arg, ParseError>)
        requires
            old(self).ok(),
            peek(old(self).chars@, old(self).pos as int) == Some('"'),
        ensures
            final(self).chars@ == old(self).chars@,
            final(self).ok(),
            match spec_parse_arg(old(self).chars@, old(self).pos as int) {
                Ok((a, p)) => r matches Ok(x) && arg_view(x) == a && final(self).pos == p,
                Err(e) => r matches Err(x) && err_view(x) == e,
            },
            r is Ok ==> final(self).pos > old(self).pos,
    {
        self.advance();
        let start = self.pos;
        let mut s: Vec<char> = Vec::new();
        let n = self.chars.len();
        while self.pos < n && self.chars[self.pos] != '"'
            invariant
                self.chars@ == old(self).chars@,
                n == self.chars@.len(),
                start == old(self).pos + 1,
                start <= self.pos <= self.chars@.len(),
                closing_quote(self.chars@, start as int) == closing_quote(self.chars@, self.pos as int),
                s@ == self.chars@.subrange(start as int, self.pos as int),
            decreases self.chars@.len() - self.pos,
        {
            s.push(self.chars[self.pos]);
            self.pos = self.pos + 1;
            assert(s@ =~= self.chars@.subrange(start as int, self.pos as int));
        }
        if self.pos >= n {
            let m = unterminated_literal_message();
            return Err(self.err(m));
        }
        self.pos = self.pos + 1;
        Ok(Arg::Literal(crate::text::string_of(s.as_slice())))
    }
}

fn unterminated_literal_message() -> (r: String)
    ensures
        r@ == unterminated_literal_msg(),
{
    let mut m = String::from_str("unterminated literal argument, expected '");
    m.push('"');
    m.append("'");
    m
}


/// "unexpected '<c>' in argument list"
fn unexpected_in_args(c: char) -> (r: String)
    ensures
        r@ == "unexpected '"@ + seq![c] + "' in argument list"@,
{
    let mut m = String::from_str("unexpected '");
    m.push(c);
    m.append("' in argument list");
    m
}

/// "unexpected character '<c>'"
fn unexpected_character(c: char) -> (r: String)
    ensures
        r@ == "unexpected character '"@ + seq![c] + "'"@,
{
    let mut m = String::from_str("unexpected character '");
    m.push(c);
    m.append("'");
    m
}

proof fn lemma_command_view(letter: char, args: Vec<Arg>)
    ensures
        node_view((Node::Command { letter, args })) == (SNode::Command { letter, args: args_view(args@) }),
{
}

proof fn lemma_args_push(v: Seq<Arg>, a: Arg)
    ensures
        args_view(v.push(a)) == args_view(v).push(arg_view(a)),
{
    assert(args_view(v.push(a)) =~= args_view(v).push(arg_view(a)));
}

proof fn lemma_nodes_push(v: Seq<Node>, n: Node)
    ensures
        nodes_view(v.push(n)) == nodes_view(v).push(node_view(n)),
{
    assert(v.push(n).drop_last() =~= v);
}

impl Parser {
    fn parse_args(&mut self) -> (r: Result<Vec<Arg>, ParseError>)
        requires
            old(self).ok(),
            peek(old(self).chars@, old(self).pos as int) == Some(';'),
        ensures
            final(self).chars@ == old(self).chars@,
            final(self).ok(),
            match spec_parse_args(old(self).chars@, old(self).pos as int) {
                Ok((a, p)) => r matches Ok(x) && args_view(x@) == a && final(self).pos == p,
                Err(e) => r matches Err(x) && err_view(x) == e,
            },
            r is Ok ==> final(self).pos > old(self).pos,
    {
        let ghost cs = self.chars@;
        let ghost p0 = self.pos as int;
        self.advance();
        let mut args: Vec<Arg> = Vec::new();
        if self.peek() == Some(';') {
            self.advance();
            proof {
                assert(args_view(args@) =~= Seq::<SArg>::empty());
            }
            return Ok(args);
        }
        proof {
            assert(args_view(args@) =~= Seq::<SArg>::empty());
        }
        loop
            invariant
                self.chars@ == cs,
                cs == old(self).chars@,
                p0 == old(self).pos,
                self.ok(),
                self.pos > p0,
                peek(cs, p0 + 1) != Some(';'),
                spec_parse_args(cs, p0) == spec_parse_arg_list(cs, self.pos as int, args_view(args@)),
            decreases cs.len() - self.pos,
        {
            let ghost pos = self.pos as int;
            let arg = if self.peek() == Some('"') {
                match self.parse_literal_arg() {
                    Ok(a) => a,
                    Err(e) => return Err(e),
                }
            } else {
                self.parse_plain_arg()
            };
            let ghost old_args = args@;
            args.push(arg);
            proof {
                lemma_args_push(old_args, arg);
            }
            match self.peek() {
                Some(c) => {
                    if c == ':' {
                        self.advance();
                    } else if c == ';' {
                        self.advance();
                        return Ok(args);
                    } else {
                        let m = unexpected_in_args(c);
                        return Err(self.err(m));
                    }
                },
                None => {
                    let m = String::from_str("unterminated argument list, expected ';'");
                    return Err(self.err(m));
                },
            }
        }
    }

    fn parse_command(&mut self) -> (r: Result<Node, ParseError>)
        requires
            old(self).ok(),
            old(self).pos < old(self).chars@.len(),
        ensures
            final(self).chars@ == old(self).chars@,
            final(self).ok(),
            node_result(r, spec_parse_command(old(self).chars@, old(self).pos as int), final(self).pos as int),
            r is Ok ==> final(self).pos > old(self).pos,
    {
        let letter = match self.advance() {
            Some(c) => c,
            None => 'a',
        };
        if self.peek() == Some(';') {
            match self.parse_args() {
                Ok(args) => {
                    proof {
                        lemma_command_view(letter, args);
                    }
                    Ok(Node::Command { letter, args })
                },
                Err(e) => Err(e),
            }
        } else {
            let args: Vec<Arg> = Vec::new();
            proof {
                assert(args_view(args@) =~= Seq::<SArg>::empty());
                lemma_command_view(letter, args);
            }
            Ok(Node::Command { letter, args })
        }
    }

    fn parse_item(&mut self) -> (r: Result<Node, ParseError>)
        requires
            old(self).ok(),
        ensures
            final(self).chars@ == old(self).chars@,
            final(self).ok(),
            node_result(r, spec_parse_item(old(self).chars@, old(self).pos as int), final(self).pos as int),
            r is Ok ==> final(self).pos > old(self).pos
                || (final(self).pos == old(self).pos && peek(old(self).chars@, old(self).pos as int) == Some('?')),
    {
        match self.peek() {
            Some(c) => {
                if ('a' <= c && c <= 'z') || ('A' <= c && c <= 'Z') {
                    self.parse_command()
                } else if c == '>' || c == '<' {
                    self.parse_motion()
                } else if c == '?' {
                    Ok(Node::HelpRoot)
                } else {
                    let m = unexpected_character(c);
                    Err(self.err(m))
                }
            },
            None => {
                let m = String::from_str("unexpected end of input");
                Err(self.err(m))
            },
        }
    }

    fn parse_modifier(&mut self, node: Node) -> (r: Result<Node, ParseError>)
        requires
            old(self).ok(),
        ensures
            final(self).chars@ == old(self).chars@,
            final(self).ok(),
            node_result(r, spec_parse_modifier(old(self).chars@, old(self).pos as int, node_view(node)), final(self).pos as int),
            r is Ok ==> final(self).pos >= old(self).pos,
            r is Ok && peek(old(self).chars@, old(self).pos as int) == Some('?') ==> final(self).pos > old(self).pos,
    {
        match self.peek() {
            Some(c) => {
                if c == '*' {
                    self.advance();
                    let digits = self.consume_digits();
                    if digits.len() == 0 {
                        let m = String::from_str("expected a number after '*'");
                        return Err(self.err(m));
                    }
                    match parse_digits(&digits) {
                        Some(n) => Ok(Node::Repeat { target: Box::new(node), n }),
                        None => {
                            let m = String::from_str("invalid repeat count");
                            Err(self.err(m))
                        },
                    }
                } else if c == '!' {
                    self.advance();
                    Ok(Node::Force { target: Box::new(node) })
                } else if c == '?' {
                    self.advance();
                    Ok(Node::Help { target: Box::new(node) })
                } else {
                    Ok(node)
                }
            },
            None => Ok(node),
        }
    }

    fn parse_block(&mut self) -> (r: Result<Node, ParseError>)
        requires
            old(self).ok(),
            peek(old(self).chars@, old(self).pos as int) == Some(','),
        ensures
            final(self).chars@ == old(self).chars@,
            final(self).ok(),
            node_result(r, spec_parse_block(old(self).chars@, old(self).pos as int), final(self).pos as int),
            r is Ok ==> final(self).pos > old(self).pos,
    {
        let ghost cs = self.chars@;
        let ghost p0 = self.pos as int;
        self.advance();
        let mut items: Vec<Node> = Vec::new();
        proof {
            assert(nodes_view(items@) =~= Seq::<SNode>::empty());
        }
        loop
            invariant_except_break
                self.chars@ == cs,
                cs == old(self).chars@,
                p0 == old(self).pos,
                self.ok(),
                self.pos > p0,
                spec_parse_block_items(cs, p0 + 1, Seq::empty())
                    == spec_parse_block_items(cs, self.pos as int, nodes_view(items@)),
            ensures
                self.chars@ == cs,
                cs == old(self).chars@,
                p0 == old(self).pos,
                self.ok(),
                self.pos > p0,
                spec_parse_block_items(cs, p0 + 1, Seq::empty()) == Ok::<(Seq<SNode>, int), SErr>((nodes_view(items@), self.pos as int)),
            decreases cs.len() - self.pos,
        {
            match self.peek() {
                None => break,
                Some(c) => {
                    if c == ',' {
                        self.advance();
                        break;
                    }
                    let ghost pos = self.pos as int;
                    let item = match self.parse_item() {
                        Ok(it) => it,
                        Err(e) => return Err(e),
                    };
                    let item = match self.parse_modifier(item) {
                        Ok(it) => it,
                        Err(e) => return Err(e),
                    };
                    let ghost old_items = items@;
                    items.push(item);
                    proof {
                        lemma_nodes_push(old_items, item);
                    }
                },
            }
        }
        if items.len() == 0 {
            let m = String::from_str("empty block");
            return Err(self.err(m));
        }
        let block = Node::Block { items };
        self.parse_modifier(block)
    }

    fn parse_sequence(&mut self) -> (r: Result<Vec<Node>, ParseError>)
        requires
            old(self).ok(),
        ensures
            match spec_parse_sequence(old(self).chars@, old(self).pos as int, Seq::empty()) {
                Ok(ns) => r matches Ok(x) && nodes_view(x@) == ns,
                Err(e) => r matches Err(x) && err_view(x) == e,
            },
    {
        let ghost cs = self.chars@;
        let ghost p0 = self.pos as int;
        let mut nodes: Vec<Node> = Vec::new();
        proof {
            assert(nodes_view(nodes@) =~= Seq::<SNode>::empty());
        }
        while self.peek().is_some()
            invariant
                self.chars@ == cs,
                cs == old(self).chars@,
                p0 == old(self).pos,
                self.ok(),
                spec_parse_sequence(cs, p0, Seq::empty()) == spec_parse_sequence(cs, self.pos as int, nodes_view(nodes@)),
            decreases cs.len() - self.pos,
        {
            let node = if self.peek() == Some(',') {
                match self.parse_block() {
                    Ok(n) => n,
                    Err(e) => return Err(e),
                }
            } else {
                let item = match self.parse_item() {
                    Ok(it) => it,
                    Err(e) => return Err(e),
                };
                match self.parse_modifier(item) {
                    Ok(n) => n,
                    Err(e) => return Err(e),
                }
            };
            let ghost old_nodes = nodes@;
            nodes.push(node);
            proof {
                lemma_nodes_push(old_nodes, node);
            }
        }
        Ok(nodes)
    }
}

/// Parse a line of the command language.
pub fn parse(input: &str) -> (r: Result<Vec<Node>, ParseError>)
    ensures
        match spec_parse(input@) {
            Ok(ns) => r matches Ok(x) && nodes_view(x@) == ns,
            Err(e) => r matches Err(x) && err_view(x) == e,
        },
{
    let chars = crate::text::chars_of(input);
    let mut p = Parser { chars, pos: 0 };
    p.parse_sequence()
}

// ---------------------------------------------------------------------
// Positions stay within the input
// ---------------------------------------------------------------------

/// An error position within the input.
pub open spec fn err_in(cs: Seq<char>, e: SErr) -> bool {
    0 <= e.position <= cs.len()
}

proof fn lemma_digits_end(cs: Seq<char>, q: int)
    requires
        0 <= q <= cs.len(),
    ensures
        q <= digits_end(cs, q) <= cs.len(),
    decreases cs.len() - q,
{
    if q < cs.len() && is_ascii_digit(cs[q]) {
        lemma_digits_end(cs, q + 1);
    }
}

proof fn lemma_plain_end(cs: Seq<char>, q: int)
    requires
        0 <= q <= cs.len(),
    ensures
        q <= plain_end(cs, q) <= cs.len(),
    decreases cs.len() - q,
{
    if q < cs.len() && cs[q] != ':' && cs[q] != ';' {
        lemma_plain_end(cs, q + 1);
    }
}

proof fn lemma_closing_quote(cs: Seq<char>, q: int)
    requires
        0 <= q,
    ensures
        closing_quote(cs, q) matches Some(r) ==> q <= r < cs.len(),
    decreases cs.len() - q,
{
    if q < cs.len() && cs[q] != '"' {
        lemma_closing_quote(cs, q + 1);
    }
}

proof fn lemma_arg_list(cs: Seq<char>, p: int, acc: Seq<SArg>)
    requires
        0 <= p <= cs.len(),
    ensures
        match spec_parse_arg_list(cs, p, acc) {
            Ok((_, q)) => p < q <= cs.len(),
            Err(e) => err_in(cs, e),
        },
    decreases cs.len() - p,
{
    lemma_plain_end(cs, p);
    lemma_closing_quote(cs, p + 1);
    match spec_parse_arg(cs, p) {
        Err(e) => {},
        Ok((a, p1)) => {
            assert(p <= p1 <= cs.len());
            if p1 < cs.len() && cs[p1] == ':' {
                lemma_arg_list(cs, p1 + 1, acc.push(a));
            }
        },
    }
}

proof fn lemma_unit(cs: Seq<char>, p: int)
    requires
        0 <= p < cs.len(),
    ensures
        match spec_parse_unit(cs, p) {
            Ok((_, q)) => p <= q <= cs.len(),
            Err(e) => err_in(cs, e),
        },
{
    let c = cs[p];
    if is_ascii_alpha(c) {
        if peek(cs, p + 1) == Some(';') {
            if peek(cs, p + 2) != Some(';') {
                lemma_arg_list(cs, p + 2, Seq::empty());
            }
        }
    } else if c == '>' || c == '<' {
        lemma_digits_end(cs, p + 1);
    }
    match spec_parse_item(cs, p) {
        Ok((it, p1)) => {
            assert(p <= p1 <= cs.len());
            lemma_modifier(cs, p1, it);
        },
        Err(e) => {},
    }
}

proof fn lemma_modifier(cs: Seq<char>, p: int, node: SNode)
    requires
        0 <= p <= cs.len(),
    ensures
        match spec_parse_modifier(cs, p, node) {
            Ok((_, q)) => p <= q <= cs.len(),
            Err(e) => err_in(cs, e),
        },
{
    if p < cs.len() {
        lemma_digits_end(cs, p + 1);
    }
}

proof fn lemma_block_items(cs: Seq<char>, p: int, acc: Seq<SNode>)
    requires
        0 <= p <= cs.len(),
    ensures
        match spec_parse_block_items(cs, p, acc) {
            Ok((_, q)) => p <= q <= cs.len(),
            Err(e) => err_in(cs, e),
        },
    decreases cs.len() - p,
{
    if p < cs.len() && cs[p] != ',' {
        lemma_unit(cs, p);
        match spec_parse_unit(cs, p) {
            Err(e) => {},
            Ok((n, p2)) => if p < p2 <= cs.len() {
                lemma_block_items(cs, p2, acc.push(n));
            },
        }
    }
}

proof fn lemma_sequence(cs: Seq<char>, p: int, acc: Seq<SNode>)
    requires
        0 <= p,
    ensures
        match spec_parse_sequence(cs, p, acc) {
            Ok(ns) => ns.len() >= acc.len() && (p < cs.len() ==> ns.len() > acc.len()),
            Err(e) => err_in(cs, e),
        },
    decreases cs.len() - p,
{
    if p < cs.len() {
        if cs[p] == ',' {
            lemma_block_items(cs, p + 1, Seq::empty());
            match spec_parse_block_items(cs, p + 1, Seq::empty()) {
                Ok((items, p2)) => lemma_modifier(cs, p2, SNode::Block { items }),
                Err(e) => {},
            }
        } else {
            lemma_unit(cs, p);
        }
        let r = if cs[p] == ',' { spec_parse_block(cs, p) } else { spec_parse_unit(cs, p) };
        match r {
            Err(e) => {},
            Ok((n, p2)) => if p < p2 <= cs.len() {
                lemma_sequence(cs, p2, acc.push(n));
            },
        }
    }
}

/// A parse error points into the input (at most one past its end), and a
/// successful parse is empty exactly when the input is.
pub proof fn lemma_parse_positions(input: Seq<char>)
    ensures
        match spec_parse(input) {
            Err(e) => 0 <= e.position <= input.len(),
            Ok(ns) => (ns.len() == 0 <==> input.len() == 0),
        },
{
    lemma_sequence(input, 0, Seq::empty());
}

proof fn lemma_closing_quote_first(cs: Seq<char>, q: int, e: int)
    requires
        0 <= q <= e < cs.len(),
        cs[e] == '"',
        forall|k: int| q <= k < e ==> cs[k] != '"',
    ensures
        closing_quote(cs, q) == Some(e),
    decreases e - q,
{
    if q < e {
        lemma_closing_quote_first(cs, q + 1, e);
    }
}

/// A quoted argument runs to the next double quote, whatever it holds
/// (`;` and `:` included): a command letter, `;`, a quoted text with no
/// double quote in it and a closing `;` parse as that one command with the
/// text as its only argument.
pub proof fn lemma_literal_runs_to_the_quote(letter: char, t: Seq<char>)
    requires
        is_ascii_alpha(letter),
        forall|k: int| 0 <= k < t.len() ==> t[k] != '"',
    ensures
        spec_parse(seq![letter, ';', '"'] + t + seq!['"', ';'])
            == Ok::<Seq<SNode>, SErr>(seq![SNode::Command { letter, args: seq![SArg::Literal(t)] }]),
{
    let cs = seq![letter, ';', '"'] + t + seq!['"', ';'];
    let n = t.len() as int;
    assert(cs.len() == n + 5);
    assert(cs[0] == letter && cs[1] == ';' && cs[2] == '"');
    assert(cs[n + 3] == '"' && cs[n + 4] == ';');
    assert forall|k: int| 3 <= k < n + 3 implies cs[k] != '"' by {
        assert(cs[k] == t[k - 3]);
    }
    lemma_closing_quote_first(cs, 3, n + 3);
    assert(cs.subrange(3, n + 3) =~= t);
    let arg = SArg::Literal(t);
    assert(spec_parse_arg(cs, 2) == Ok::<(SArg, int), SErr>((arg, n + 4)));
    assert(spec_parse_arg_list(cs, 2, Seq::empty()) == Ok::<(Seq<SArg>, int), SErr>((seq![arg], n + 5)));
    assert(spec_parse_args(cs, 1) == Ok::<(Seq<SArg>, int), SErr>((seq![arg], n + 5)));
    let node = SNode::Command { letter, args: seq![arg] };
    assert(spec_parse_item(cs, 0) == Ok::<(SNode, int), SErr>((node, n + 5)));
    assert(spec_parse_unit(cs, 0) == Ok::<(SNode, int), SErr>((node, n + 5)));
    assert(spec_parse_sequence(cs, n + 5, seq![node]) == Ok::<Seq<SNode>, SErr>(seq![node]));
    assert(Seq::<SNode>::empty().push(node) =~= seq![node]);
}

} // verus!
