use vstd::prelude::*;

use crate::grammar::{
    close_group, current, expr_from, expr_token, flush, kind, kinds, model, named_stmt, parse_expr,
    parse_exit, parse_if, parse_program, parse_stmt, patch_last, parse_tokens, parse_while, place_operator, prec, skip, stmt_with_expr, Kind,
    NodeModel, ParseState,
};
use crate::token::Token;

verus! {

/// What a node of the syntax tree stands for.
#[derive(Debug, Clone)]
pub enum NodeType {
    BlockStart,
    BlockEnd,
    StmtFunction(String),
    StmtNewVar(String),
    StmtAssign(String),
    StmtIf(usize),
    StmtWhile,
    ExprIdent(String),
    ExprLiteral(u32),
    ExprParen,
    ExprBinAdd,
    ExprBinSub,
    ExprBinMul,
    ExprBinDiv,
    ExprEqual,
    ExprNotEqual,
    ExprGreater,
    ExprLessEqual,
    ExprLess,
    ExprGreaterEqual,
}

/// A node of the flat syntax tree: its kind and the index of its parent
/// in the same node list.
#[derive(Debug, Clone)]
pub struct Node {
    pub variant: NodeType,
    pub parent: Option<usize>,
}

#[derive(Debug)]
pub enum ParserError {
    EndOfInput,
    EndOfBlock,
    UnexpectedToken,
}

/// How a node changes the block nesting depth.
pub open spec fn depth_delta(n: Node) -> int {
    match n.variant {
        NodeType::BlockStart => 1,
        NodeType::BlockEnd => -1,
        _ => 0,
    }
}

/// Nesting depth after the whole list: block starts minus block ends.
pub open spec fn depth(s: Seq<Node>) -> int
    decreases s.len(),
{
    if s.len() == 0 {
        0
    } else {
        depth(s.drop_last()) + depth_delta(s.last())
    }
}

/// No prefix of the list closes more blocks than it opened.
pub open spec fn never_negative(s: Seq<Node>) -> bool {
    forall|k: int| 0 <= k <= s.len() ==> #[trigger] depth(s.subrange(0, k)) >= 0
}

/// Every block start is matched by a later block end, and no block end
/// comes before its start.
pub open spec fn blocks_balanced(s: Seq<Node>) -> bool {
    never_negative(s) && depth(s) == 0
}

/// Every parent link points to an earlier node.
pub open spec fn parents_earlier(s: Seq<Node>) -> bool {
    forall|i: int| 0 <= i < s.len() && (#[trigger] s[i]).parent is Some ==> s[i].parent->0 < i
}

pub proof fn lemma_depth_push(s: Seq<Node>, n: Node)
    requires
        never_negative(s),
        depth(s) + depth_delta(n) >= 0,
    ensures
        depth(s.push(n)) == depth(s) + depth_delta(n),
        never_negative(s.push(n)),
{
    assert(s.push(n).drop_last() =~= s);
    assert forall|k: int| 0 <= k <= s.push(n).len() implies #[trigger] depth(s.push(n).subrange(0, k)) >= 0 by {
        if k <= s.len() {
            assert(s.push(n).subrange(0, k) =~= s.subrange(0, k));
        } else {
            assert(s.push(n).subrange(0, k) =~= s.push(n));
        }
    }
}

pub proof fn lemma_depth_update(s: Seq<Node>, i: int, n: Node)
    requires
        0 <= i < s.len(),
        depth_delta(n) == depth_delta(s[i]),
    ensures
        depth(s.update(i, n)) == depth(s),
    decreases s.len(),
{
    let u = s.update(i, n);
    if i == s.len() - 1 {
        assert(u.drop_last() =~= s.drop_last());
    } else {
        assert(u.drop_last() =~= s.drop_last().update(i, n));
        lemma_depth_update(s.drop_last(), i, n);
    }
}

pub proof fn lemma_never_negative_update(s: Seq<Node>, i: int, n: Node)
    requires
        0 <= i < s.len(),
        depth_delta(n) == depth_delta(s[i]),
        never_negative(s),
    ensures
        never_negative(s.update(i, n)),
        depth(s.update(i, n)) == depth(s),
{
    let u = s.update(i, n);
    lemma_depth_update(s, i, n);
    assert forall|k: int| 0 <= k <= u.len() implies #[trigger] depth(u.subrange(0, k)) >= 0 by {
        if k > i {
            assert(u.subrange(0, k) =~= s.subrange(0, k).update(i, n));
            lemma_depth_update(s.subrange(0, k), i, n);
        } else {
            assert(u.subrange(0, k) =~= s.subrange(0, k));
        }
    }
}

/// True of the variants that open or close a block.
pub open spec fn is_block_marker(t: NodeType) -> bool {
    t is BlockStart || t is BlockEnd
}

fn precedence(t: &NodeType) -> (r: usize)
    ensures
        r == prec(kind(*t)),
{
    match t {
        NodeType::ExprLess | NodeType::ExprGreaterEqual | NodeType::ExprLessEqual
        | NodeType::ExprGreater | NodeType::ExprNotEqual | NodeType::ExprEqual => 3,
        NodeType::ExprBinDiv | NodeType::ExprBinMul => 2,
        NodeType::ExprBinAdd | NodeType::ExprBinSub => 1,
        _ => 0,
    }
}

/// The grammar's outcome of a parsing step that returned `r` and left the
/// parser in state `s`.
pub open spec fn outcome(r: Result<(), ParserError>, s: ParseState) -> Result<ParseState, ParserError> {
    match r {
        Ok(_) => Ok(s),
        Err(e) => Err(e),
    }
}

/// The nodes are those of `base` followed by nodes of the kinds `out`,
/// each a child of `parent`.
pub open spec fn emitted(nodes: Seq<Node>, base: Seq<NodeModel>, out: Seq<Kind>, parent: Option<usize>) -> bool {
    model(nodes) == base + out.map_values(|k: Kind| (k, parent))
}

proof fn lemma_emit_push(nodes: Seq<Node>, base: Seq<NodeModel>, out: Seq<Kind>, n: Node)
    requires
        emitted(nodes, base, out, n.parent),
    ensures
        emitted(nodes.push(n), base, out.push(kind(n.variant)), n.parent),
{
    assert(model(nodes.push(n)) =~= model(nodes).push((kind(n.variant), n.parent)));
    assert(base + out.push(kind(n.variant)).map_values(|k: Kind| (k, n.parent))
        =~= (base + out.map_values(|k: Kind| (k, n.parent))).push((kind(n.variant), n.parent)));
}

proof fn lemma_kinds_pop(ops: Seq<NodeType>)
    requires
        ops.len() > 0,
    ensures
        kinds(ops.drop_last()) == kinds(ops).drop_last(),
        kinds(ops).last() == kind(ops.last()),
{
    assert(kinds(ops.drop_last()) =~= kinds(ops).drop_last());
}

proof fn lemma_kinds_push(ops: Seq<NodeType>, t: NodeType)
    ensures
        kinds(ops.push(t)) == kinds(ops).push(kind(t)),
{
    assert(kinds(ops.push(t)) =~= kinds(ops).push(kind(t)));
}

/// Recursive-descent parser from a token list to a flat node list.
pub struct Parser {
    input: Vec<Token>,
    pos: usize,
    nodes: Vec<Node>,
    blocks: Vec<usize>,
}

impl Parser {
    /// The parser's state is consistent: the open-block stack matches the
    /// nesting depth of the nodes emitted so far.
    pub closed spec fn wf(&self) -> bool {
        &&& self.pos <= self.input.len()
        &&& never_negative(self.nodes@)
        &&& depth(self.nodes@) == self.blocks.len()
        &&& parents_earlier(self.nodes@)
        &&& forall|k: int| 0 <= k < self.blocks.len() ==> #[trigger] self.blocks[k] < self.nodes.len()
    }

    /// The parser's state as the grammar states it.
    pub closed spec fn state(&self) -> ParseState {
        ParseState { pos: self.pos as int, nodes: model(self.nodes@), blocks: self.blocks@ }
    }

    /// The parser moved forward without touching its input or its open blocks.
    pub closed spec fn advanced(&self, old: &Parser) -> bool {
        &&& self.wf()
        &&& self.input@ == old.input@
        &&& self.blocks@ == old.blocks@
        &&& self.pos >= old.pos
        &&& self.nodes.len() >= old.nodes.len()
        &&& forall|i: int| 0 <= i < old.nodes.len() ==> #[trigger] self.nodes@[i].variant == old.nodes@[i].variant
    }

    fn current_block(&self) -> (r: Option<usize>)
        requires
            self.wf(),
        ensures
            r == current(self.blocks@),
            r is Some ==> r->0 < self.nodes.len(),
    {
        if self.blocks.len() > 0 {
            Some(self.blocks[self.blocks.len() - 1])
        } else {
            None
        }
    }

    fn push_node(&mut self, variant: NodeType, parent: Option<usize>)
        requires
            old(self).wf(),
            !is_block_marker(variant),
            parent is Some ==> parent->0 < old(self).nodes.len(),
        ensures
            final(self).wf(),
            final(self).nodes@ == old(self).nodes@.push(Node { variant, parent }),
            model(final(self).nodes@) == model(old(self).nodes@).push((kind(variant), parent)),
            final(self).input@ == old(self).input@,
            final(self).blocks@ == old(self).blocks@,
            final(self).pos == old(self).pos,
    {
        let ghost s = self.nodes@;
        let n = Node { variant, parent };
        proof {
            lemma_depth_push(s, n);
        }
        self.nodes.push(n);
        assert(model(self.nodes@) =~= model(s).push((kind(variant), parent)));
        assert(parents_earlier(self.nodes@)) by {
            assert forall|i: int| 0 <= i < self.nodes@.len() && (#[trigger] self.nodes@[i]).parent is Some
                implies self.nodes@[i].parent->0 < i by {
                if i < s.len() {
                    assert(self.nodes@[i] == s[i]);
                }
            }
        }
    }

    /// Points the last emitted node at the statement node `index`.
    fn patch_last_parent(&mut self, index: usize)
        requires
            old(self).wf(),
            index + 1 < old(self).nodes.len(),
        ensures
            final(self).wf(),
            final(self).nodes@ == old(self).nodes@.drop_last().push(
                Node { variant: old(self).nodes@.last().variant, parent: Some(index) },
            ),
            final(self).state() == patch_last(old(self).state(), index),
            final(self).input@ == old(self).input@,
            final(self).blocks@ == old(self).blocks@,
            final(self).pos == old(self).pos,
    {
        let ghost s = self.nodes@;
        let last = self.nodes.pop().unwrap();
        let n = Node { variant: last.variant, parent: Some(index) };
        proof {
            lemma_never_negative_update(s, s.len() - 1, n);
            assert(s.drop_last().push(n) =~= s.update(s.len() - 1, n));
        }
        self.nodes.push(n);
        assert(model(self.nodes@) =~= model(s).update(s.len() - 1, (model(s).last().0, Some(index))));
        assert(parents_earlier(self.nodes@)) by {
            assert forall|i: int| 0 <= i < self.nodes@.len() && (#[trigger] self.nodes@[i]).parent is Some
                implies self.nodes@[i].parent->0 < i by {
                if i < s.len() - 1 {
                    assert(self.nodes@[i] == s[i]);
                }
            }
        }
    }

    /// Whether every token has been consumed.
    fn at_end(&self) -> (r: bool)
        ensures
            r == (self.pos >= self.input.len()),
    {
        self.pos >= self.input.len()
    }

    /// Moves past a group's closing parenthesis: emits the operators back
    /// to the group's marker, then a paren node.
    fn close_paren(
        &mut self,
        operators: &mut Vec<NodeType>,
        parent: Option<usize>,
        Ghost(base): Ghost<Seq<NodeModel>>,
        Ghost(out): Ghost<Seq<Kind>>,
    )
        requires
            old(self).wf(),
            forall|i: int| 0 <= i < old(operators).len() ==> !is_block_marker(#[trigger] old(operators)@[i]),
            parent is Some ==> parent->0 < base.len(),
            base.len() <= old(self).nodes.len(),
            emitted(old(self).nodes@, base, out, parent),
        ensures
            final(self).wf(),
            final(self).input@ == old(self).input@,
            final(self).blocks@ == old(self).blocks@,
            final(self).pos == old(self).pos,
            final(self).nodes.len() > old(self).nodes.len(),
            final(self).nodes@.subrange(0, old(self).nodes.len() as int) == old(self).nodes@,
            forall|i: int| 0 <= i < final(operators).len() ==> !is_block_marker(#[trigger] final(operators)@[i]),
            kinds(final(operators)@) == close_group(kinds(old(operators)@), out).0,
            emitted(final(self).nodes@, base, close_group(kinds(old(operators)@), out).1, parent),
    {
        let ghost s0 = self.nodes@;
        let ghost ops0 = kinds(operators@);
        let ghost mut o = out;
        while operators.len() > 0
            invariant_except_break
                close_group(ops0, out) == close_group(kinds(operators@), o),
            invariant
                self.wf(),
                self.input@ == old(self).input@,
                self.blocks@ == old(self).blocks@,
                self.pos == old(self).pos,
                self.nodes.len() >= s0.len(),
                self.nodes@.subrange(0, s0.len() as int) == s0,
                s0 == old(self).nodes@,
                parent is Some ==> parent->0 < s0.len(),
                forall|i: int| 0 <= i < operators.len() ==> !is_block_marker(#[trigger] operators@[i]),
                emitted(self.nodes@, base, o, parent),
            ensures
                close_group(ops0, out) == (kinds(operators@), o.push(Kind::Paren)),
            decreases operators.len(),
        {
            let ghost before_ops = operators@;
            let top = operators.pop().unwrap();
            proof {
                lemma_kinds_pop(before_ops);
            }
            if let NodeType::ExprParen = top {
                break;
            }
            let ghost before = self.nodes@;
            proof {
                lemma_emit_push(before, base, o, Node { variant: top, parent });
                o = o.push(kind(top));
            }
            self.push_node(top, parent);
            assert(self.nodes@.subrange(0, s0.len() as int) =~= before.subrange(0, s0.len() as int));
        }
        let ghost before = self.nodes@;
        proof {
            lemma_emit_push(before, base, o, Node { variant: NodeType::ExprParen, parent });
        }
        self.push_node(NodeType::ExprParen, parent);
        assert(self.nodes@.subrange(0, s0.len() as int) =~= before.subrange(0, s0.len() as int));
    }

    /// Emits the operators on the stack that bind at least as strongly as
    /// `op`, then places `op` on the stack.
    fn push_operator(
        &mut self,
        operators: &mut Vec<NodeType>,
        op: NodeType,
        parent: Option<usize>,
        Ghost(base): Ghost<Seq<NodeModel>>,
        Ghost(out): Ghost<Seq<Kind>>,
    )
        requires
            old(self).wf(),
            forall|i: int| 0 <= i < old(operators).len() ==> !is_block_marker(#[trigger] old(operators)@[i]),
            !is_block_marker(op),
            parent is Some ==> parent->0 < base.len(),
            base.len() <= old(self).nodes.len(),
            emitted(old(self).nodes@, base, out, parent),
        ensures
            final(self).wf(),
            final(self).input@ == old(self).input@,
            final(self).blocks@ == old(self).blocks@,
            final(self).pos == old(self).pos,
            final(self).nodes.len() >= old(self).nodes.len(),
            final(self).nodes@.subrange(0, old(self).nodes.len() as int) == old(self).nodes@,
            forall|i: int| 0 <= i < final(operators).len() ==> !is_block_marker(#[trigger] final(operators)@[i]),
            final(operators).len() > 0,
            kinds(final(operators)@) == place_operator(kinds(old(operators)@), kind(op), out).0,
            emitted(final(self).nodes@, base, place_operator(kinds(old(operators)@), kind(op), out).1, parent),
    {
        let ghost s0 = self.nodes@;
        let ghost ops0 = kinds(operators@);
        let ghost mut o = out;
        let strength = precedence(&op);
        while operators.len() > 0
            invariant
                self.wf(),
                self.input@ == old(self).input@,
                self.blocks@ == old(self).blocks@,
                self.pos == old(self).pos,
                self.nodes.len() >= s0.len(),
                self.nodes@.subrange(0, s0.len() as int) == s0,
                s0 == old(self).nodes@,
                parent is Some ==> parent->0 < s0.len(),
                forall|i: int| 0 <= i < operators.len() ==> !is_block_marker(#[trigger] operators@[i]),
                strength == prec(kind(op)),
                place_operator(ops0, kind(op), out) == place_operator(kinds(operators@), kind(op), o),
                emitted(self.nodes@, base, o, parent),
            ensures
                operators.len() == 0 || strength > prec(kind(operators@.last())),
            decreases operators.len(),
        {
            let ghost before_ops = operators@;
            let top = operators.pop().unwrap();
            proof {
                lemma_kinds_pop(before_ops);
            }
            if strength > precedence(&top) {
                operators.push(top);
                assert(operators@ =~= before_ops);
                break;
            }
            let ghost before = self.nodes@;
            proof {
                lemma_emit_push(before, base, o, Node { variant: top, parent });
                o = o.push(kind(top));
            }
            self.push_node(top, parent);
            assert(self.nodes@.subrange(0, s0.len() as int) =~= before.subrange(0, s0.len() as int));
        }
        proof {
            lemma_kinds_push(operators@, op);
        }
        operators.push(op);
    }

    /// Parses an expression by precedence climbing, emitting its nodes in
    /// evaluation order: operands and operators must alternate and every
    /// group must be closed.
    fn parse_expression(&mut self) -> (r: Result<(), ParserError>)
        requires
            old(self).wf(),
        ensures
            final(self).advanced(old(self)),
            final(self).nodes@.subrange(0, old(self).nodes.len() as int) == old(self).nodes@,
            r is Ok ==> final(self).nodes.len() > old(self).nodes.len() && final(self).pos > old(self).pos,
            r is Err ==> !continues(r),
            parse_expr(old(self).input@, old(self).state()) == outcome(r, final(self).state()),
    {
        let ghost s0 = self.nodes@;
        let ghost base = model(s0);
        let ghost toks = self.input@;
        let parent = self.current_block();
        let mut operators: Vec<NodeType> = Vec::new();
        let mut expect_operand = true;
        let mut depth: usize = 0;
        let ghost mut out: Seq<Kind> = seq![];
        assert(kinds(operators@) =~= seq![]);
        assert(emitted(s0, base, out, parent)) by {
            assert(base + out.map_values(|k: Kind| (k, parent)) =~= base);
        }
        while self.pos < self.input.len()
            invariant
                self.wf(),
                self.input@ == toks,
                toks == old(self).input@,
                self.blocks@ == old(self).blocks@,
                self.pos >= old(self).pos,
                s0 == old(self).nodes@,
                base == model(s0),
                parent == current(old(self).blocks@),
                self.nodes.len() >= s0.len(),
                self.nodes@.subrange(0, s0.len() as int) == s0,
                parent is Some ==> parent->0 < s0.len(),
                forall|i: int| 0 <= i < operators.len() ==> !is_block_marker(#[trigger] operators@[i]),
                !expect_operand ==> self.pos > old(self).pos && self.nodes.len() > s0.len(),
                depth <= self.pos,
                expr_from(toks, old(self).pos as int, seq![], seq![], true, 0)
                    == expr_from(toks, self.pos as int, kinds(operators@), out, expect_operand, depth as nat),
                emitted(self.nodes@, base, out, parent),
            ensures
                self.pos >= self.input.len() || expr_token(self.input@[self.pos as int]) is None,
            decreases self.input.len() - self.pos,
        {
            let (variant, opening) = match &self.input[self.pos] {
                Token::Ident(name) => (NodeType::ExprIdent(name.clone()), false),
                Token::IntLiteral(value) => (NodeType::ExprLiteral(*value), false),
                Token::LParen => (NodeType::ExprParen, true),
                Token::RParen => (NodeType::ExprParen, false),
                Token::Plus => (NodeType::ExprBinAdd, false),
                Token::Minus => (NodeType::ExprBinSub, false),
                Token::Star => (NodeType::ExprBinMul, false),
                Token::FSlash => (NodeType::ExprBinDiv, false),
                Token::NotEqual => (NodeType::ExprNotEqual, false),
                Token::EqualEqual => (NodeType::ExprEqual, false),
                Token::Greater => (NodeType::ExprGreater, false),
                Token::LessEqual => (NodeType::ExprLessEqual, false),
                Token::Less => (NodeType::ExprLess, false),
                Token::GreaterEqual => (NodeType::ExprGreaterEqual, false),
                _ => break,
            };
            let ghost kv = kind(variant);
            let ghost ops_k = kinds(operators@);
            assert(expr_token(toks[self.pos as int]) == Some((kv, opening)));
            let accepted = match &variant {
                NodeType::ExprParen => if opening { expect_operand } else { !expect_operand && depth > 0 },
                NodeType::ExprIdent(_) | NodeType::ExprLiteral(_) => expect_operand,
                _ => !expect_operand,
            };
            if !accepted {
                return Err(ParserError::UnexpectedToken);
            }
            let ghost before = self.nodes@;
            match variant {
                NodeType::ExprParen => {
                    if opening {
                        proof {
                            lemma_kinds_push(operators@, NodeType::ExprParen);
                        }
                        operators.push(NodeType::ExprParen);
                        depth = depth + 1;
                    } else {
                        self.close_paren(&mut operators, parent, Ghost(base), Ghost(out));
                        proof {
                            out = close_group(ops_k, out).1;
                        }
                        depth = depth - 1;
                        expect_operand = false;
                    }
                },
                NodeType::ExprIdent(_) | NodeType::ExprLiteral(_) => {
                    proof {
                        lemma_emit_push(before, base, out, Node { variant, parent });
                        out = out.push(kv);
                    }
                    self.push_node(variant, parent);
                    expect_operand = false;
                },
                _ => {
                    self.push_operator(&mut operators, variant, parent, Ghost(base), Ghost(out));
                    proof {
                        out = place_operator(ops_k, kv, out).1;
                    }
                    expect_operand = true;
                },
            }
            assert(self.nodes@.subrange(0, s0.len() as int) =~= before.subrange(0, s0.len() as int));
            self.pos = self.pos + 1;
        }
        if expect_operand || depth > 0 {
            if self.pos >= self.input.len() {
                return Err(ParserError::EndOfInput);
            }
            return Err(ParserError::UnexpectedToken);
        }
        let ghost ops_end = kinds(operators@);
        let ghost out_end = out;
        let ghost pos_end = self.pos;
        assert(expr_from(toks, self.pos as int, ops_end, out_end, false, 0) == Ok::<(int, Seq<Kind>), ParserError>((self.pos as int, flush(ops_end, out_end))));
        while operators.len() > 0
            invariant
                self.wf(),
                self.input@ == old(self).input@,
                self.blocks@ == old(self).blocks@,
                self.pos >= old(self).pos,
                s0 == old(self).nodes@,
                base == model(s0),
                self.nodes.len() > s0.len(),
                self.nodes@.subrange(0, s0.len() as int) == s0,
                parent is Some ==> parent->0 < s0.len(),
                forall|i: int| 0 <= i < operators.len() ==> !is_block_marker(#[trigger] operators@[i]),
                self.pos > old(self).pos,
                flush(ops_end, out_end) == flush(kinds(operators@), out),
                emitted(self.nodes@, base, out, parent),
                self.pos == pos_end,
                self.input@ == toks,
                toks == old(self).input@,
                parent == current(old(self).blocks@),
                expr_from(toks, old(self).pos as int, seq![], seq![], true, 0)
                    == Ok::<(int, Seq<Kind>), ParserError>((pos_end as int, flush(ops_end, out_end))),
            decreases operators.len(),
        {
            let ghost before_ops = operators@;
            let op = operators.pop().unwrap();
            proof {
                lemma_kinds_pop(before_ops);
            }
            let ghost before = self.nodes@;
            proof {
                lemma_emit_push(before, base, out, Node { variant: op, parent });
                out = out.push(kind(op));
            }
            self.push_node(op, parent);
            assert(self.nodes@.subrange(0, s0.len() as int) =~= before.subrange(0, s0.len() as int));
        }
        assert forall|i: int| 0 <= i < s0.len() implies #[trigger] self.nodes@[i].variant == s0[i].variant by {
            assert(self.nodes@.subrange(0, s0.len() as int)[i] == self.nodes@[i]);
        }
        proof {
            assert(kinds(operators@) =~= seq![]);
            assert(flush(kinds(operators@), out) == out);
        }
        Ok(())
    }
}

/// Whether a statement parser left the parser usable for the next statement.
pub open spec fn continues(r: Result<(), ParserError>) -> bool {
    match r {
        Ok(_) => true,
        Err(ParserError::EndOfBlock) => true,
        _ => false,
    }
}

impl Parser {
    /// The state after a statement parser returned `r`: on success or at a
    /// block's end the open blocks are as before and earlier nodes keep
    /// their kinds; on success at least one token was consumed.
    pub closed spec fn stepped(&self, old: &Parser, r: Result<(), ParserError>) -> bool {
        &&& self.wf()
        &&& self.input@ == old.input@
        &&& self.pos >= old.pos
        &&& continues(r) ==> self.advanced(old)
        &&& r is Ok ==> self.pos > old.pos
    }

    /// Consumes an `=`.
    fn expect_equal(&mut self) -> (r: Result<(), ParserError>)
        requires
            old(self).wf(),
        ensures
            final(self).advanced(old(self)),
            final(self).nodes@ == old(self).nodes@,
            r is Ok ==> final(self).pos == old(self).pos + 1 && old(self).input@[old(self).pos as int] is Equal,
            r is Err ==> !continues(r),
            r is Err ==> old(self).pos >= old(self).input.len() || !(old(self).input@[old(self).pos as int] is Equal),
            old(self).pos >= old(self).input.len() ==> r == Err::<(), ParserError>(ParserError::EndOfInput),
            old(self).pos < old(self).input.len() && !(old(self).input@[old(self).pos as int] is Equal)
                ==> r == Err::<(), ParserError>(ParserError::UnexpectedToken),
    {
        if self.at_end() {
            return Err(ParserError::EndOfInput);
        }
        if !matches!(&self.input[self.pos], Token::Equal) {
            return Err(ParserError::UnexpectedToken);
        }
        self.pos = self.pos + 1;
        Ok(())
    }

    /// Consumes an identifier and returns its name.
    fn expect_ident(&mut self) -> (r: Result<String, ParserError>)
        requires
            old(self).wf(),
        ensures
            final(self).advanced(old(self)),
            final(self).nodes@ == old(self).nodes@,
            r is Ok ==> final(self).pos == old(self).pos + 1 && old(self).input@[old(self).pos as int] is Ident
                && r->Ok_0@ == old(self).input@[old(self).pos as int]->Ident_0@,
            r is Err ==> old(self).pos >= old(self).input.len() || !(old(self).input@[old(self).pos as int] is Ident),
            old(self).pos >= old(self).input.len() ==> r == Err::<String, ParserError>(ParserError::EndOfInput),
            old(self).pos < old(self).input.len() && !(old(self).input@[old(self).pos as int] is Ident)
                ==> r == Err::<String, ParserError>(ParserError::UnexpectedToken),
    {
        if self.at_end() {
            return Err(ParserError::EndOfInput);
        }
        let name = match &self.input[self.pos] {
            Token::Ident(name) => name.clone(),
            _ => return Err(ParserError::UnexpectedToken),
        };
        self.pos = self.pos + 1;
        Ok(name)
    }

    /// Parses one statement; a closing brace is left for the enclosing block.
    fn parse_node(&mut self) -> (r: Result<(), ParserError>)
        requires
            old(self).wf(),
        ensures
            final(self).stepped(old(self), r),
            parse_stmt(old(self).input@, old(self).state()) == outcome(r, final(self).state()),
            r == Err::<(), ParserError>(ParserError::EndOfBlock) ==> final(self).state() == old(self).state(),
        decreases old(self).input.len() - old(self).pos, 1int,
    {
        if self.at_end() {
            return Err(ParserError::EndOfInput);
        }
        match &self.input[self.pos] {
            Token::LBrace => self.parse_block(),
            Token::Let => self.parse_assignment(),
            Token::If => self.parse_conditional(),
            Token::While => self.parse_loop(),
            Token::Exit => self.parse_function(),
            Token::Ident(_) => self.parse_reassignment(),
            Token::Sep => {
                self.pos = self.pos + 1;
                Ok(())
            },
            Token::RBrace => Err(ParserError::EndOfBlock),
            _ => Err(ParserError::UnexpectedToken),
        }
    }

    /// Parses `{ statement* }`, framing the statements' nodes with a block
    /// start and a block end.
    fn parse_block(&mut self) -> (r: Result<(), ParserError>)
        requires
            old(self).wf(),
        ensures
            final(self).stepped(old(self), r),
            r is Err ==> !continues(r),
            r is Ok ==> final(self).nodes.len() > old(self).nodes.len(),
            crate::grammar::parse_block(old(self).input@, old(self).state()) == outcome(r, final(self).state()),
        decreases old(self).input.len() - old(self).pos, 0int,
    {
        if self.at_end() {
            return Err(ParserError::EndOfInput);
        }
        if !matches!(&self.input[self.pos], Token::LBrace) {
            return Err(ParserError::UnexpectedToken);
        }
        self.pos = self.pos + 1;
        let ghost s0 = self.nodes@;
        let ghost toks = self.input@;
        let parent = self.current_block();
        let index = self.nodes.len();
        let open = Node { variant: NodeType::BlockStart, parent };
        proof {
            lemma_depth_push(s0, open);
        }
        self.nodes.push(open);
        self.blocks.push(index);
        assert(model(self.nodes@) =~= model(s0).push((Kind::BlockStart, parent)));
        let ghost opened = self.state();
        assert(parents_earlier(self.nodes@)) by {
            assert forall|i: int| 0 <= i < self.nodes@.len() && (#[trigger] self.nodes@[i]).parent is Some
                implies self.nodes@[i].parent->0 < i by {
                if i < s0.len() {
                    assert(self.nodes@[i] == s0[i]);
                }
            }
        }
        loop
            invariant
                self.wf(),
                self.input@ == toks,
                toks == old(self).input@,
                self.pos > old(self).pos,
                self.blocks@ == old(self).blocks@.push(index),
                self.nodes.len() > s0.len(),
                s0 == old(self).nodes@,
                index == s0.len(),
                forall|i: int| 0 <= i < s0.len() ==> #[trigger] self.nodes@[i].variant == s0[i].variant,
                crate::grammar::parse_body(toks, opened) == crate::grammar::parse_body(toks, self.state()),
                old(self).pos < toks.len(),
                toks[old(self).pos as int] is LBrace,
                opened == (ParseState {
                    pos: old(self).pos + 1,
                    nodes: old(self).state().nodes.push((Kind::BlockStart, current(old(self).blocks@))),
                    blocks: old(self).blocks@.push(old(self).state().nodes.len() as usize),
                }),
            ensures
                crate::grammar::parse_body(toks, opened) == Ok::<ParseState, ParserError>(self.state()),
            decreases self.input.len() - self.pos,
        {
            let ghost before = *self;
            match self.parse_node() {
                Ok(()) => {},
                Err(ParserError::EndOfBlock) => break,
                Err(e) => {
                    assert(crate::grammar::parse_body(toks, before.state()) == Err::<ParseState, ParserError>(e));
                    return Err(e);
                },
            }
            assert forall|i: int| 0 <= i < s0.len() implies #[trigger] self.nodes@[i].variant == s0[i].variant by {
                assert(self.nodes@[i].variant == before.nodes@[i].variant);
            }
        }
        if self.at_end() {
            return Err(ParserError::EndOfInput);
        }
        if !matches!(&self.input[self.pos], Token::RBrace) {
            return Err(ParserError::UnexpectedToken);
        }
        self.pos = self.pos + 1;
        let ghost s1 = self.nodes@;
        let close = Node { variant: NodeType::BlockEnd, parent: Some(index) };
        proof {
            lemma_depth_push(s1, close);
        }
        self.nodes.push(close);
        self.blocks.pop();
        assert(model(self.nodes@) =~= model(s1).push((Kind::BlockEnd, Some(index))));
        assert(self.blocks@ =~= old(self).blocks@);
        assert(parents_earlier(self.nodes@)) by {
            assert forall|i: int| 0 <= i < self.nodes@.len() && (#[trigger] self.nodes@[i]).parent is Some
                implies self.nodes@[i].parent->0 < i by {
                if i < s1.len() {
                    assert(self.nodes@[i] == s1[i]);
                }
            }
        }
        assert forall|k: int| 0 <= k < self.blocks.len() implies #[trigger] self.blocks[k] < self.nodes.len() by {
            assert(self.blocks@[k] == old(self).blocks@[k]);
        }
        Ok(())
    }
}

impl Parser {
    /// Turns the `if` node at `index` into one that has an else branch.
    fn mark_else(&mut self, index: usize, parent: Option<usize>)
        requires
            old(self).wf(),
            index < old(self).nodes.len(),
            old(self).nodes@[index as int].variant is StmtIf,
            parent is Some ==> parent->0 < index,
        ensures
            final(self).wf(),
            final(self).nodes@ == old(self).nodes@.update(index as int, Node { variant: NodeType::StmtIf(1), parent }),
            model(final(self).nodes@) == model(old(self).nodes@).update(index as int, (Kind::If(1), parent)),
            final(self).input@ == old(self).input@,
            final(self).blocks@ == old(self).blocks@,
            final(self).pos == old(self).pos,
    {
        let ghost s = self.nodes@;
        let n = Node { variant: NodeType::StmtIf(1), parent };
        proof {
            lemma_never_negative_update(s, index as int, n);
        }
        self.nodes.set(index, n);
        assert(model(self.nodes@) =~= model(s).update(index as int, (Kind::If(1), parent)));
        assert(parents_earlier(self.nodes@)) by {
            assert forall|i: int| 0 <= i < self.nodes@.len() && (#[trigger] self.nodes@[i]).parent is Some
                implies self.nodes@[i].parent->0 < i by {
                if i != index {
                    assert(self.nodes@[i] == s[i]);
                }
            }
        }
    }

    /// Emits the statement node `variant`, then its expression, whose last
    /// node points back at it.
    fn parse_stmt_expr(&mut self, variant: NodeType) -> (r: Result<(), ParserError>)
        requires
            old(self).wf(),
            !is_block_marker(variant),
        ensures
            final(self).stepped(old(self), r),
            r is Err ==> !continues(r),
            stmt_with_expr(old(self).input@, old(self).state(), kind(variant)) == outcome(r, final(self).state()),
    {
        let parent = self.current_block();
        let index = self.nodes.len();
        let ghost k = kind(variant);
        self.push_node(variant, parent);
        if let Err(e) = self.parse_expression() {
            return Err(e);
        }
        self.patch_last_parent(index);
        Ok(())
    }

    /// Parses `let <ident> = <expr>`: a new-variable node followed by the
    /// expression, whose last node points back at it.
    fn parse_assignment(&mut self) -> (r: Result<(), ParserError>)
        requires
            old(self).wf(),
            old(self).pos < old(self).input.len(),
            old(self).input@[old(self).pos as int] is Let,
        ensures
            final(self).stepped(old(self), r),
            r is Err ==> !continues(r),
            named_stmt(old(self).input@, skip(old(self).state()), true) == outcome(r, final(self).state()),
    {
        self.pos = self.pos + 1;
        let name = match self.expect_ident() {
            Ok(name) => name,
            Err(e) => return Err(e),
        };
        if let Err(e) = self.expect_equal() {
            return Err(e);
        }
        self.parse_stmt_expr(NodeType::StmtNewVar(name))
    }

    /// Parses `<ident> = <expr>`: an assignment node followed by the
    /// expression, whose last node points back at it.
    fn parse_reassignment(&mut self) -> (r: Result<(), ParserError>)
        requires
            old(self).wf(),
        ensures
            final(self).stepped(old(self), r),
            r is Err ==> !continues(r),
            named_stmt(old(self).input@, old(self).state(), false) == outcome(r, final(self).state()),
    {
        let name = match self.expect_ident() {
            Ok(name) => name,
            Err(e) => return Err(e),
        };
        if let Err(e) = self.expect_equal() {
            return Err(e);
        }
        self.parse_stmt_expr(NodeType::StmtAssign(name))
    }

    /// Parses `exit <expr>`: the argument's nodes, then the call node,
    /// which is a statement root and has no parent.
    fn parse_function(&mut self) -> (r: Result<(), ParserError>)
        requires
            old(self).wf(),
            old(self).pos < old(self).input.len(),
        ensures
            final(self).stepped(old(self), r),
            r is Err ==> !continues(r),
            parse_exit(old(self).input@, skip(old(self).state())) == outcome(r, final(self).state()),
    {
        self.pos = self.pos + 1;
        if let Err(e) = self.parse_expression() {
            return Err(e);
        }
        self.push_node(NodeType::StmtFunction("exit".to_owned()), None);
        Ok(())
    }

    /// Parses a condition and a block, both pointing back at the statement
    /// node `index`.
    fn parse_guarded(&mut self, index: usize) -> (r: Result<(), ParserError>)
        requires
            old(self).wf(),
            index < old(self).nodes.len(),
        ensures
            final(self).stepped(old(self), r),
            r is Err ==> !continues(r),
            crate::grammar::parse_guarded(old(self).input@, old(self).state(), index) == outcome(r, final(self).state()),
        decreases old(self).input.len() - old(self).pos, 0int,
    {
        if let Err(e) = self.parse_expression() {
            return Err(e);
        }
        self.patch_last_parent(index);
        if let Err(e) = self.parse_block() {
            return Err(e);
        }
        self.patch_last_parent(index);
        Ok(())
    }

    /// Parses `if <expr> <block> (else <block>)?`: the `if` node, its
    /// condition and its blocks, each pointing back at the `if` node.
    fn parse_conditional(&mut self) -> (r: Result<(), ParserError>)
        requires
            old(self).wf(),
            old(self).pos < old(self).input.len(),
        ensures
            final(self).stepped(old(self), r),
            r is Err ==> !continues(r),
            parse_if(old(self).input@, old(self).state()) == outcome(r, final(self).state()),
        decreases old(self).input.len() - old(self).pos, 0int,
    {
        self.pos = self.pos + 1;
        let parent = self.current_block();
        let index = self.nodes.len();
        self.push_node(NodeType::StmtIf(0), parent);
        if let Err(e) = self.parse_guarded(index) {
            return Err(e);
        }
        if self.at_end() || !matches!(&self.input[self.pos], Token::Else) {
            return Ok(());
        }
        self.pos = self.pos + 1;
        self.mark_else(index, parent);
        if let Err(e) = self.parse_block() {
            return Err(e);
        }
        self.patch_last_parent(index);
        Ok(())
    }

    /// Parses `while <expr> <block>`: the loop node, then its condition and
    /// its body, both pointing back at the loop node.
    fn parse_loop(&mut self) -> (r: Result<(), ParserError>)
        requires
            old(self).wf(),
            old(self).pos < old(self).input.len(),
        ensures
            final(self).stepped(old(self), r),
            r is Err ==> !continues(r),
            parse_while(old(self).input@, old(self).state()) == outcome(r, final(self).state()),
        decreases old(self).input.len() - old(self).pos, 0int,
    {
        self.pos = self.pos + 1;
        let parent = self.current_block();
        let index = self.nodes.len();
        self.push_node(NodeType::StmtWhile, parent);
        self.parse_guarded(index)
    }

    /// Parses a whole token list into a flat node list: exactly the list
    /// that the grammar gives, or the error at which the grammar stops.
    /// Block starts and ends come out balanced, and every parent link
    /// points to an earlier node.
    pub fn parse(tokens: Vec<Token>) -> (r: Result<Vec<Node>, ParserError>)
        ensures
            parse_outcome(tokens@, r),
            r is Ok ==> blocks_balanced(r->Ok_0@) && parents_earlier(r->Ok_0@),
    {
        let ghost toks = tokens@;
        if tokens.len() == 0 {
            let nodes: Vec<Node> = Vec::new();
            assert(model(nodes@) =~= seq![]);
            return Ok(nodes);
        }
        let mut parser = Parser { input: tokens, pos: 0, nodes: Vec::new(), blocks: Vec::new() };
        let ghost start = parser.state();
        assert(model(parser.nodes@) =~= seq![]);
        assert(never_negative(parser.nodes@)) by {
            assert forall|k: int| 0 <= k <= parser.nodes@.len() implies #[trigger] depth(parser.nodes@.subrange(0, k)) >= 0 by {
                assert(parser.nodes@.subrange(0, k).len() == 0);
            }
        }
        while parser.pos < parser.input.len()
            invariant
                parser.wf(),
                parser.blocks.len() == 0,
                parser.input@ == toks,
                toks == tokens@,
                parse_tokens(toks) == parse_program(toks, parser.state()),
            decreases parser.input.len() - parser.pos,
        {
            let ghost before = parser.state();
            if let Err(e) = parser.parse_node() {
                assert(parse_program(toks, before) == Err::<Seq<NodeModel>, ParserError>(e));
                return Err(e);
            }
        }
        Ok(parser.nodes)
    }
}

/// `r` is what parsing `tokens` gives: the grammar's node list, or the
/// error at which the grammar stops.
pub open spec fn parse_outcome(tokens: Seq<Token>, r: Result<Vec<Node>, ParserError>) -> bool {
    match r {
        Ok(nodes) => parse_tokens(tokens) == Ok::<Seq<NodeModel>, ParserError>(model(nodes@)),
        Err(e) => parse_tokens(tokens) == Err::<Seq<NodeModel>, ParserError>(e),
    }
}

/// Parsing depends on the tokens alone: two runs on the same tokens give
/// node lists of the same kinds and links, or the same error.
pub proof fn lemma_parse_deterministic(
    tokens: Seq<Token>,
    a: Result<Vec<Node>, ParserError>,
    b: Result<Vec<Node>, ParserError>,
)
    requires
        parse_outcome(tokens, a),
        parse_outcome(tokens, b),
    ensures
        a is Ok <==> b is Ok,
        a is Ok ==> model(a->Ok_0@) == model(b->Ok_0@),
        a is Err ==> a->Err_0 == b->Err_0,
{
}

} // verus!
