//! The language's grammar as spec functions: what the parser produces from
//! a token list, stated over node kinds whose names are character
//! sequences.
use vstd::prelude::*;

use crate::parser::{Node, NodeType, ParserError};
use crate::token::Token;

verus! {

/// A node kind as the grammar states it.
pub enum Kind {
    BlockStart,
    BlockEnd,
    Call(Seq<char>),
    NewVar(Seq<char>),
    Assign(Seq<char>),
    If(usize),
    While,
    Ident(Seq<char>),
    Literal(u32),
    Paren,
    Add,
    Sub,
    Mul,
    Div,
    Equal,
    NotEqual,
    Greater,
    LessEqual,
    Less,
    GreaterEqual,
}

/// The kind of a node.
pub open spec fn kind(t: NodeType) -> Kind {
    match t {
        NodeType::BlockStart => Kind::BlockStart,
        NodeType::BlockEnd => Kind::BlockEnd,
        NodeType::StmtFunction(n) => Kind::Call(n@),
        NodeType::StmtNewVar(n) => Kind::NewVar(n@),
        NodeType::StmtAssign(n) => Kind::Assign(n@),
        NodeType::StmtIf(b) => Kind::If(b),
        NodeType::StmtWhile => Kind::While,
        NodeType::ExprIdent(n) => Kind::Ident(n@),
        NodeType::ExprLiteral(v) => Kind::Literal(v),
        NodeType::ExprParen => Kind::Paren,
        NodeType::ExprBinAdd => Kind::Add,
        NodeType::ExprBinSub => Kind::Sub,
        NodeType::ExprBinMul => Kind::Mul,
        NodeType::ExprBinDiv => Kind::Div,
        NodeType::ExprEqual => Kind::Equal,
        NodeType::ExprNotEqual => Kind::NotEqual,
        NodeType::ExprGreater => Kind::Greater,
        NodeType::ExprLessEqual => Kind::LessEqual,
        NodeType::ExprLess => Kind::Less,
        NodeType::ExprGreaterEqual => Kind::GreaterEqual,
    }
}

/// Binding strength of an operator; operands and group markers bind
/// weakest.
pub open spec fn prec(k: Kind) -> nat {
    match k {
        Kind::Less | Kind::GreaterEqual | Kind::LessEqual | Kind::Greater | Kind::NotEqual | Kind::Equal => 3,
        Kind::Div | Kind::Mul => 2,
        Kind::Add | Kind::Sub => 1,
        _ => 0,
    }
}

/// A node as the grammar states it: its kind and its parent link.
pub type NodeModel = (Kind, Option<usize>);

/// The grammar's view of a node list.
pub open spec fn model(s: Seq<Node>) -> Seq<NodeModel> {
    s.map_values(|n: Node| (kind(n.variant), n.parent))
}

/// The grammar's view of a list of operators.
pub open spec fn kinds(s: Seq<NodeType>) -> Seq<Kind> {
    s.map_values(|t: NodeType| kind(t))
}

/// Where the parser stands: the next token, the nodes so far, and the
/// start nodes of the open blocks, innermost last.
pub struct ParseState {
    pub pos: int,
    pub nodes: Seq<NodeModel>,
    pub blocks: Seq<usize>,
}

/// The innermost open block, the parent of the nodes emitted now.
pub open spec fn current(blocks: Seq<usize>) -> Option<usize> {
    if blocks.len() == 0 {
        None
    } else {
        Some(blocks.last())
    }
}

/// The expression kind of a token and whether it opens a group; `None`
/// for a token that ends an expression.
pub open spec fn expr_token(t: Token) -> Option<(Kind, bool)> {
    match t {
        Token::Ident(n) => Some((Kind::Ident(n@), false)),
        Token::IntLiteral(v) => Some((Kind::Literal(v), false)),
        Token::LParen => Some((Kind::Paren, true)),
        Token::RParen => Some((Kind::Paren, false)),
        Token::Plus => Some((Kind::Add, false)),
        Token::Minus => Some((Kind::Sub, false)),
        Token::Star => Some((Kind::Mul, false)),
        Token::FSlash => Some((Kind::Div, false)),
        Token::NotEqual => Some((Kind::NotEqual, false)),
        Token::EqualEqual => Some((Kind::Equal, false)),
        Token::Greater => Some((Kind::Greater, false)),
        Token::LessEqual => Some((Kind::LessEqual, false)),
        Token::Less => Some((Kind::Less, false)),
        Token::GreaterEqual => Some((Kind::GreaterEqual, false)),
        _ => None,
    }
}

/// Closing a group: operators leave the stack for the output up to the
/// group's marker, which is dropped, and a paren node follows them.
pub open spec fn close_group(ops: Seq<Kind>, out: Seq<Kind>) -> (Seq<Kind>, Seq<Kind>)
    decreases ops.len(),
{
    if ops.len() == 0 {
        (ops, out.push(Kind::Paren))
    } else if ops.last() is Paren {
        (ops.drop_last(), out.push(Kind::Paren))
    } else {
        close_group(ops.drop_last(), out.push(ops.last()))
    }
}

/// Placing an operator: those on the stack that bind at least as strongly
/// leave for the output first.
pub open spec fn place_operator(ops: Seq<Kind>, op: Kind, out: Seq<Kind>) -> (Seq<Kind>, Seq<Kind>)
    decreases ops.len(),
{
    if ops.len() == 0 || prec(op) > prec(ops.last()) {
        (ops.push(op), out)
    } else {
        place_operator(ops.drop_last(), op, out.push(ops.last()))
    }
}

/// Operators left at the end of an expression leave the stack, top first.
pub open spec fn flush(ops: Seq<Kind>, out: Seq<Kind>) -> Seq<Kind>
    decreases ops.len(),
{
    if ops.len() == 0 {
        out
    } else {
        flush(ops.drop_last(), out.push(ops.last()))
    }
}

/// One token of an expression.
pub open spec fn expr_step(k: Kind, opening: bool, ops: Seq<Kind>, out: Seq<Kind>) -> (Seq<Kind>, Seq<Kind>) {
    match k {
        Kind::Paren => if opening { (ops.push(Kind::Paren), out) } else { close_group(ops, out) },
        Kind::Ident(_) | Kind::Literal(_) => (ops, out.push(k)),
        _ => place_operator(ops, k, out),
    }
}

/// Whether an expression token may come next: an operand or `(` where an
/// operand is expected, an operator where an operator is expected, and
/// `)` only after an operand inside an open group.
pub open spec fn expr_accepts(k: Kind, opening: bool, operand: bool, depth: nat) -> bool {
    match k {
        Kind::Paren => if opening { operand } else { !operand && depth > 0 },
        Kind::Ident(_) | Kind::Literal(_) => operand,
        _ => !operand,
    }
}

/// Whether an operand is expected after the token.
pub open spec fn expects_operand_after(k: Kind, opening: bool) -> bool {
    match k {
        Kind::Paren => opening,
        Kind::Ident(_) | Kind::Literal(_) => false,
        _ => true,
    }
}

/// The number of open groups after the token.
pub open spec fn depth_after(k: Kind, opening: bool, depth: nat) -> nat {
    match k {
        Kind::Paren => if opening { depth + 1 } else { (depth - 1) as nat },
        _ => depth,
    }
}

/// Reads expression tokens from `pos` on, `operand` saying whether an
/// operand is expected and `depth` how many groups are open: where the
/// expression ends and the node kinds in evaluation order, or the error
/// for a token out of place, a missing operand or an unclosed group.
pub open spec fn expr_from(toks: Seq<Token>, pos: int, ops: Seq<Kind>, out: Seq<Kind>, operand: bool, depth: nat) -> Result<(int, Seq<Kind>), ParserError>
    decreases toks.len() - pos,
{
    if pos < 0 || pos >= toks.len() || expr_token(toks[pos]) is None {
        if operand || depth > 0 {
            Err(missing(toks, pos))
        } else {
            Ok((pos, flush(ops, out)))
        }
    } else {
        let (k, opening) = expr_token(toks[pos])->0;
        if expr_accepts(k, opening, operand, depth) {
            let (ops2, out2) = expr_step(k, opening, ops, out);
            expr_from(toks, pos + 1, ops2, out2, expects_operand_after(k, opening), depth_after(k, opening, depth))
        } else {
            Err(ParserError::UnexpectedToken)
        }
    }
}

/// The error for a missing token at `pos`.
pub open spec fn missing(toks: Seq<Token>, pos: int) -> ParserError {
    if pos >= toks.len() { ParserError::EndOfInput } else { ParserError::UnexpectedToken }
}

/// An expression: operands and operators alternating, groups closed, each
/// node a child of the current block.
pub open spec fn parse_expr(toks: Seq<Token>, s: ParseState) -> Result<ParseState, ParserError> {
    match expr_from(toks, s.pos, seq![], seq![], true, 0) {
        Err(e) => Err(e),
        Ok((p, out)) => Ok(ParseState {
            pos: p,
            nodes: s.nodes + out.map_values(|k: Kind| (k, current(s.blocks))),
            blocks: s.blocks,
        }),
    }
}

/// `exit <expr>`: the argument's nodes, then the call node, which is a
/// statement root and has no parent.
pub open spec fn parse_exit(toks: Seq<Token>, s: ParseState) -> Result<ParseState, ParserError> {
    match parse_expr(toks, s) {
        Err(e) => Err(e),
        Ok(s2) => Ok(ParseState { nodes: s2.nodes.push((Kind::Call("exit"@), None)), ..s2 }),
    }
}

/// Appends a node of kind `k` under the current block.
pub open spec fn push_kind(s: ParseState, k: Kind) -> ParseState {
    ParseState { pos: s.pos, nodes: s.nodes.push((k, current(s.blocks))), blocks: s.blocks }
}

/// Points the last node at the statement node `index`.
pub open spec fn patch_last(s: ParseState, index: usize) -> ParseState {
    ParseState {
        pos: s.pos,
        nodes: s.nodes.update(s.nodes.len() - 1, (s.nodes.last().0, Some(index))),
        blocks: s.blocks,
    }
}

/// A statement node of kind `k` followed by an expression whose last node
/// points back at it.
pub open spec fn stmt_with_expr(toks: Seq<Token>, s: ParseState, k: Kind) -> Result<ParseState, ParserError> {
    match parse_expr(toks, push_kind(s, k)) {
        Ok(s2) => Ok(patch_last(s2, s.nodes.len() as usize)),
        Err(e) => Err(e),
    }
}

/// `s` with the next token consumed.
pub open spec fn skip(s: ParseState) -> ParseState {
    ParseState { pos: s.pos + 1, nodes: s.nodes, blocks: s.blocks }
}

/// `<ident> = <expr>` from `s.pos`: a new-variable node where `is_let`
/// holds, else an assignment node.
pub open spec fn named_stmt(toks: Seq<Token>, s: ParseState, is_let: bool) -> Result<ParseState, ParserError> {
    if s.pos < 0 || s.pos >= toks.len() {
        Err(ParserError::EndOfInput)
    } else if !(toks[s.pos] is Ident) {
        Err(ParserError::UnexpectedToken)
    } else if s.pos + 1 >= toks.len() {
        Err(ParserError::EndOfInput)
    } else if !(toks[s.pos + 1] is Equal) {
        Err(ParserError::UnexpectedToken)
    } else {
        let name = toks[s.pos]->Ident_0@;
        let k = if is_let { Kind::NewVar(name) } else { Kind::Assign(name) };
        stmt_with_expr(toks, skip(skip(s)), k)
    }
}

/// One statement from `s.pos`; a closing brace is left to the enclosing
/// block.
pub open spec fn parse_stmt(toks: Seq<Token>, s: ParseState) -> Result<ParseState, ParserError>
    decreases toks.len() - s.pos, 1int,
{
    if s.pos < 0 || s.pos >= toks.len() {
        Err(ParserError::EndOfInput)
    } else {
        match toks[s.pos] {
            Token::LBrace => parse_block(toks, s),
            Token::Let => named_stmt(toks, skip(s), true),
            Token::If => parse_if(toks, s),
            Token::While => parse_while(toks, s),
            Token::Exit => parse_exit(toks, skip(s)),
            Token::Ident(_) => named_stmt(toks, s, false),
            Token::Sep => Ok(skip(s)),
            Token::RBrace => Err(ParserError::EndOfBlock),
            _ => Err(ParserError::UnexpectedToken),
        }
    }
}

/// The statements of a block, up to its closing brace.
pub open spec fn parse_body(toks: Seq<Token>, s: ParseState) -> Result<ParseState, ParserError>
    decreases toks.len() - s.pos, 2int,
{
    match parse_stmt(toks, s) {
        Ok(s2) => if s.pos < s2.pos <= toks.len() { parse_body(toks, s2) } else { Err(ParserError::UnexpectedToken) },
        Err(ParserError::EndOfBlock) => Ok(s),
        Err(e) => Err(e),
    }
}

/// `{ statement* }`: a block start, the statements, and a block end whose
/// parent is the block start.
pub open spec fn parse_block(toks: Seq<Token>, s: ParseState) -> Result<ParseState, ParserError>
    decreases toks.len() - s.pos, 0int,
{
    if s.pos < 0 || s.pos >= toks.len() {
        Err(ParserError::EndOfInput)
    } else if !(toks[s.pos] is LBrace) {
        Err(ParserError::UnexpectedToken)
    } else {
        let index = s.nodes.len() as usize;
        let opened = ParseState {
            pos: s.pos + 1,
            nodes: s.nodes.push((Kind::BlockStart, current(s.blocks))),
            blocks: s.blocks.push(index),
        };
        match parse_body(toks, opened) {
            Ok(s2) => if s2.pos >= toks.len() {
                Err(ParserError::EndOfInput)
            } else if !(toks[s2.pos] is RBrace) {
                Err(ParserError::UnexpectedToken)
            } else {
                Ok(ParseState {
                    pos: s2.pos + 1,
                    nodes: s2.nodes.push((Kind::BlockEnd, Some(index))),
                    blocks: s.blocks,
                })
            },
            Err(e) => Err(e),
        }
    }
}

/// A condition and a block, both pointing back at the statement node
/// `index`.
pub open spec fn parse_guarded(toks: Seq<Token>, s: ParseState, index: usize) -> Result<ParseState, ParserError>
    decreases toks.len() - s.pos, 0int,
{
    match parse_expr(toks, s) {
        Ok(s2) => if s.pos < s2.pos <= toks.len() {
            match parse_block(toks, patch_last(s2, index)) {
                Ok(s3) => Ok(patch_last(s3, index)),
                Err(e) => Err(e),
            }
        } else {
            Err(ParserError::UnexpectedToken)
        },
        Err(e) => Err(e),
    }
}

/// `if <expr> <block> (else <block>)?`.
pub open spec fn parse_if(toks: Seq<Token>, s: ParseState) -> Result<ParseState, ParserError>
    decreases toks.len() - s.pos, 0int,
{
    if s.pos < 0 || s.pos >= toks.len() {
        Err(ParserError::EndOfInput)
    } else {
        let index = s.nodes.len() as usize;
        let parent = current(s.blocks);
        match parse_guarded(toks, push_kind(skip(s), Kind::If(0)), index) {
            Ok(s3) => if s3.pos < toks.len() && toks[s3.pos] is Else {
                let s4 = ParseState {
                    pos: s3.pos + 1,
                    nodes: s3.nodes.update(index as int, (Kind::If(1), parent)),
                    blocks: s3.blocks,
                };
                if s.pos < s4.pos <= toks.len() {
                    match parse_block(toks, s4) {
                        Ok(s5) => Ok(patch_last(s5, index)),
                        Err(e) => Err(e),
                    }
                } else {
                    Err(ParserError::UnexpectedToken)
                }
            } else {
                Ok(s3)
            },
            Err(e) => Err(e),
        }
    }
}

/// `while <expr> <block>`.
pub open spec fn parse_while(toks: Seq<Token>, s: ParseState) -> Result<ParseState, ParserError>
    decreases toks.len() - s.pos, 0int,
{
    if s.pos < 0 || s.pos >= toks.len() {
        Err(ParserError::EndOfInput)
    } else {
        parse_guarded(toks, push_kind(skip(s), Kind::While), s.nodes.len() as usize)
    }
}

/// Statements from `s.pos` to the end of the tokens.
pub open spec fn parse_program(toks: Seq<Token>, s: ParseState) -> Result<Seq<NodeModel>, ParserError>
    decreases toks.len() - s.pos,
{
    if s.pos < 0 || s.pos >= toks.len() {
        Ok(s.nodes)
    } else {
        match parse_stmt(toks, s) {
            Ok(s2) => if s.pos < s2.pos <= toks.len() { parse_program(toks, s2) } else { Err(ParserError::UnexpectedToken) },
            Err(e) => Err(e),
        }
    }
}

/// The node list that a token list parses to, or the error that stops it.
pub open spec fn parse_tokens(toks: Seq<Token>) -> Result<Seq<NodeModel>, ParserError> {
    parse_program(toks, ParseState { pos: 0, nodes: seq![], blocks: seq![] })
}

} // verus!
