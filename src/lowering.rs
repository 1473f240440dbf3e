//! Code generation as spec functions: the exact text, or the failure, that
//! the generator produces from a node list.
use vstd::prelude::*;

use crate::generation::{decimal, declared_in_scope, epilogue, inverted_jump_of, lookup, preamble, GeneratorError};
use crate::grammar::{kind, Kind};
use crate::parser::{Node, NodeType};

verus! {

/// A generator failure with names as character sequences.
pub enum Failure {
    EndOfInput,
    AlreadyDeclared(Seq<char>),
    NotDeclared(Seq<char>),
    BlockNotOpened,
    Unexpected(Kind),
}

/// The failure that an error stands for.
pub open spec fn failure(e: GeneratorError) -> Failure {
    match e {
        GeneratorError::EndOfInput => Failure::EndOfInput,
        GeneratorError::VariableAlreadyDeclared(n) => Failure::AlreadyDeclared(n@),
        GeneratorError::VariableNotYetDeclared(n) => Failure::NotDeclared(n@),
        GeneratorError::BlockNotYetOpened => Failure::BlockNotOpened,
        GeneratorError::UnexpectedNode(t) => Failure::Unexpected(kind(t)),
    }
}

/// Where generation stands: the next node, the variable table (names and
/// stack depths), the stack height, the labels made so far, the scope
/// starts, and the text emitted so far.
pub struct GenState {
    pub pos: int,
    pub vars: Seq<(Seq<char>, usize)>,
    pub stack: int,
    pub labels: int,
    pub scopes: Seq<usize>,
    pub out: Seq<char>,
}

/// The names in a variable table.
pub open spec fn names(vars: Seq<(Seq<char>, usize)>) -> Seq<Seq<char>> {
    vars.map_values(|v: (Seq<char>, usize)| v.0)
}

/// Where the innermost scope's entries begin.
pub open spec fn scope_start(scopes: Seq<usize>) -> int {
    if scopes.len() == 0 {
        0
    } else {
        scopes.last() as int
    }
}

pub open spec fn emit(s: GenState, text: Seq<char>) -> GenState {
    GenState { out: s.out + text, ..s }
}

pub open spec fn advance(s: GenState) -> GenState {
    GenState { pos: s.pos + 1, ..s }
}

/// `push <operand>`.
pub open spec fn push(s: GenState, operand: Seq<char>) -> GenState {
    let e = emit(emit(emit(s, "push "@), operand), "\n"@);
    GenState { stack: s.stack + 1, ..e }
}

/// Pushes a copy of the slot at `depth`.
pub open spec fn push_slot(s: GenState, depth: usize) -> GenState {
    let e = emit(emit(emit(s, "push QWORD [rsp + "@), decimal(((s.stack - depth) * 8) as nat)), "]\n"@);
    GenState { stack: s.stack + 1, ..e }
}

/// `pop <reg>`.
pub open spec fn pop(s: GenState, reg: Seq<char>) -> GenState {
    let e = emit(emit(emit(s, "pop "@), reg), "\n"@);
    GenState { stack: s.stack - 1, ..e }
}

/// The failure for the node at `p`, or for its absence.
pub open spec fn unexpected_at(nodes: Seq<Node>, p: int) -> Failure {
    if p < 0 || p >= nodes.len() {
        Failure::EndOfInput
    } else {
        Failure::Unexpected(kind(nodes[p].variant))
    }
}

/// A binary operator: two operands above `base` are combined into one.
pub open spec fn bin(s: GenState, base: int, k: Kind, instr: Seq<char>) -> Result<GenState, Failure> {
    if s.stack - base < 2 {
        Err(Failure::Unexpected(k))
    } else {
        Ok(push(emit(pop(pop(s, "rbx"@), "rax"@), instr), "rax"@))
    }
}

/// Whether the node at `p` closes the expression of the statement node
/// `owner`: the parser points an expression's last node at its statement.
pub open spec fn closes(nodes: Seq<Node>, p: int, owner: Option<usize>) -> bool {
    owner is Some && nodes[p].parent == owner
}

/// The code of the expression nodes from `s.pos` on, up to the first node
/// that is no part of an expression or just after the node that closes
/// the expression of `owner`.
pub open spec fn gen_expr(nodes: Seq<Node>, s: GenState, base: int, owner: Option<usize>) -> Result<GenState, Failure>
    decreases nodes.len() - s.pos,
{
    if s.pos < 0 || s.pos >= nodes.len() {
        Ok(s)
    } else {
        let s1 = advance(s);
        let next = match nodes[s.pos].variant {
            NodeType::ExprIdent(n) => match lookup(names(s.vars), n@) {
                Some(i) => Some(Ok(push_slot(s1, s.vars[i].1))),
                None => Some(Err(Failure::NotDeclared(n@))),
            },
            NodeType::ExprLiteral(v) => Some(Ok(push(emit(emit(emit(s1, "mov rax, "@), decimal(v as nat)), "\n"@), "rax"@))),
            NodeType::ExprParen => Some(Ok(s1)),
            NodeType::ExprBinAdd => Some(bin(s1, base, Kind::Add, "add rax, rbx\n"@)),
            NodeType::ExprBinSub => Some(bin(s1, base, Kind::Sub, "sub rax, rbx\n"@)),
            NodeType::ExprBinMul => Some(bin(s1, base, Kind::Mul, "mul rbx\n"@)),
            NodeType::ExprBinDiv => Some(bin(s1, base, Kind::Div, "div rbx\n"@)),
            _ => None,
        };
        match next {
            None => Ok(s),
            Some(Err(e)) => Err(e),
            Some(Ok(s2)) => if s2.pos == s.pos + 1 && !closes(nodes, s.pos, owner) {
                gen_expr(nodes, s2, base, owner)
            } else {
                Ok(s2)
            },
        }
    }
}

/// The test of a condition and the jump to `label` when it is false.
pub open spec fn gen_cond_jump(nodes: Seq<Node>, s: GenState, label: Seq<char>, owner: usize) -> Result<GenState, Failure> {
    match gen_expr(nodes, s, s.stack, Some(owner)) {
        Err(e) => Err(e),
        Ok(s1) => if 0 <= s1.pos < nodes.len() && inverted_jump_of(nodes[s1.pos].variant) is Some {
            if s1.stack != s.stack + 2 {
                Err(Failure::Unexpected(kind(nodes[s1.pos].variant)))
            } else {
                let s2 = emit(pop(pop(advance(s1), "rbx"@), "rax"@), "cmp rax, rbx\n"@);
                let j = inverted_jump_of(nodes[s1.pos].variant)->0;
                Ok(emit(emit(emit(emit(s2, j), " "@), label), "\n"@))
            }
        } else if s1.stack != s.stack + 1 {
            Err(unexpected_at(nodes, s1.pos))
        } else {
            Ok(emit(emit(emit(emit(pop(s1, "rax"@), "cmp rax, 0\n"@), "je "@), label), "\n"@))
        },
    }
}

/// A statement's expression, which must leave exactly one value on the
/// stack.
pub open spec fn gen_valued(nodes: Seq<Node>, s: GenState, owner: usize) -> Result<GenState, Failure> {
    match gen_expr(nodes, s, s.stack, Some(owner)) {
        Err(e) => Err(e),
        Ok(s1) => if s1.stack != s.stack + 1 { Err(unexpected_at(nodes, s1.pos)) } else { Ok(s1) },
    }
}

/// `let <name> = <expr>`.
pub open spec fn gen_variable(nodes: Seq<Node>, s: GenState) -> Result<GenState, Failure> {
    let name = nodes[s.pos].variant->StmtNewVar_0@;
    let s1 = advance(s);
    if declared_in_scope(names(s1.vars), scope_start(s1.scopes), name) {
        Err(Failure::AlreadyDeclared(name))
    } else {
        match gen_valued(nodes, s1, s.pos as usize) {
            Err(e) => Err(e),
            Ok(s2) => {
                let s3 = emit(emit(emit(s2, "\t; variable ("@), name), ") assigned\n"@);
                Ok(GenState { vars: s3.vars.push((name, s3.stack as usize)), ..s3 })
            },
        }
    }
}

/// `<name> = <expr>`.
pub open spec fn gen_assignment(nodes: Seq<Node>, s: GenState) -> Result<GenState, Failure> {
    let name = nodes[s.pos].variant->StmtAssign_0@;
    let s1 = advance(s);
    match lookup(names(s1.vars), name) {
        None => Err(Failure::NotDeclared(name)),
        Some(i) => match gen_valued(nodes, s1, s.pos as usize) {
            Err(e) => Err(e),
            Ok(s2) => {
                let s3 = pop(s2, "rax"@);
                let offset = decimal(((s3.stack - s1.vars[i].1) * 8) as nat);
                Ok(emit(emit(emit(s3, "mov QWORD [rsp + "@), offset), "], rax\n"@))
            },
        },
    }
}

/// A call statement: its argument, which must leave exactly one value,
/// then the call node, which must name `exit`.
pub open spec fn gen_call(nodes: Seq<Node>, s: GenState) -> Result<GenState, Failure> {
    match gen_expr(nodes, s, s.stack, None) {
        Err(e) => Err(e),
        Ok(s1) => if !(0 <= s1.pos < nodes.len() && nodes[s1.pos].variant is StmtFunction)
            || nodes[s1.pos].variant->StmtFunction_0@ != "exit"@ || s1.stack != s.stack + 1 {
            Err(unexpected_at(nodes, s1.pos))
        } else {
            Ok(emit(emit(pop(advance(s1), "rdi"@), "mov rax, 60\n"@), "syscall\n"@))
        },
    }
}

/// Whether a node starts an expression.
pub open spec fn starts_expr(t: NodeType) -> bool {
    t is ExprIdent || t is ExprLiteral || t is ExprParen || t is ExprBinAdd || t is ExprBinSub
        || t is ExprBinMul || t is ExprBinDiv
}

/// A fresh label made of `name` and the label counter.
pub open spec fn label(s: GenState, name: Seq<char>) -> Seq<char> {
    seq!['.'] + name + decimal(s.labels as nat)
}

pub open spec fn count_label(s: GenState) -> GenState {
    GenState { labels: s.labels + 1, ..s }
}

pub open spec fn emit_label(s: GenState, l: Seq<char>) -> GenState {
    emit(s, l + seq![':', '\n'])
}

pub open spec fn emit_jump(s: GenState, l: Seq<char>) -> GenState {
    emit(s, seq!['j', 'm', 'p', ' '] + l + seq!['\n'])
}

/// One statement.
pub open spec fn gen_stmt(nodes: Seq<Node>, s: GenState) -> Result<GenState, Failure>
    decreases nodes.len() - s.pos, 1int,
{
    if s.pos < 0 || s.pos >= nodes.len() {
        Err(Failure::EndOfInput)
    } else {
        match nodes[s.pos].variant {
            NodeType::StmtIf(_) => gen_if(nodes, s),
            NodeType::StmtWhile => gen_while(nodes, s),
            NodeType::StmtNewVar(_) => gen_variable(nodes, s),
            NodeType::StmtAssign(_) => gen_assignment(nodes, s),
            NodeType::BlockStart => gen_block(nodes, s),
            NodeType::BlockEnd => Err(Failure::BlockNotOpened),
            t => if starts_expr(t) { gen_call(nodes, s) } else { Err(Failure::Unexpected(kind(t))) },
        }
    }
}

/// The statements of a block, up to its end.
pub open spec fn gen_body(nodes: Seq<Node>, s: GenState) -> Result<GenState, Failure>
    decreases nodes.len() - s.pos, 2int,
{
    if s.pos < 0 || s.pos >= nodes.len() {
        Err(Failure::EndOfInput)
    } else if nodes[s.pos].variant is BlockEnd {
        Ok(s)
    } else {
        match gen_stmt(nodes, s) {
            Ok(s2) => if s.pos < s2.pos <= nodes.len() { gen_body(nodes, s2) } else { Err(Failure::EndOfInput) },
            Err(e) => Err(e),
        }
    }
}

/// A block: its statements, then the release of its variables' slots.
pub open spec fn gen_block(nodes: Seq<Node>, s: GenState) -> Result<GenState, Failure>
    decreases nodes.len() - s.pos, 0int,
{
    if s.pos < 0 || s.pos >= nodes.len() {
        Err(Failure::EndOfInput)
    } else if !(nodes[s.pos].variant is BlockStart) {
        Err(unexpected_at(nodes, s.pos))
    } else {
        let start = s.vars.len();
        let s1 = GenState { pos: s.pos + 1, scopes: s.scopes.push(start as usize), ..s };
        match gen_body(nodes, s1) {
            Err(e) => Err(e),
            Ok(s2) => {
                let count = s2.vars.len() - start;
                let s3 = emit(emit(emit(GenState { pos: s2.pos + 1, scopes: s2.scopes.drop_last(), ..s2 }, "add rsp, "@),
                    decimal((count * 8) as nat)), "\n"@);
                Ok(GenState { stack: s3.stack - count, vars: s3.vars.subrange(0, start as int), ..s3 })
            },
        }
    }
}

/// `if` with or without an else branch.
pub open spec fn gen_if(nodes: Seq<Node>, s: GenState) -> Result<GenState, Failure>
    decreases nodes.len() - s.pos, 0int,
{
    let paths = nodes[s.pos].variant->StmtIf_0;
    let l = label(s, "if"@);
    match gen_cond_jump(nodes, count_label(advance(s)), l, s.pos as usize) {
        Err(e) => Err(e),
        Ok(s1) => if s.pos < s1.pos <= nodes.len() {
            match gen_block(nodes, s1) {
                Err(e) => Err(e),
                Ok(s2) => if paths == 0 {
                    Ok(emit_label(s2, l))
                } else {
                    let l_else = label(s2, "else"@);
                    let s3 = emit_label(emit_jump(count_label(s2), l_else), l);
                    if s.pos < s3.pos <= nodes.len() {
                        match gen_block(nodes, s3) {
                            Err(e) => Err(e),
                            Ok(s4) => Ok(emit_label(s4, l_else)),
                        }
                    } else {
                        Err(Failure::EndOfInput)
                    }
                },
            }
        } else {
            Err(Failure::EndOfInput)
        },
    }
}

/// `while`: the test at the loop's start, the body, a jump back.
pub open spec fn gen_while(nodes: Seq<Node>, s: GenState) -> Result<GenState, Failure>
    decreases nodes.len() - s.pos, 0int,
{
    let l_start = label(s, "loopstart"@);
    let s1 = count_label(advance(s));
    let l_end = label(s1, "loopend"@);
    match gen_cond_jump(nodes, emit_label(count_label(s1), l_start), l_end, s.pos as usize) {
        Err(e) => Err(e),
        Ok(s2) => if s.pos < s2.pos <= nodes.len() {
            match gen_block(nodes, s2) {
                Err(e) => Err(e),
                Ok(s3) => Ok(emit_label(emit_jump(s3, l_start), l_end)),
            }
        } else {
            Err(Failure::EndOfInput)
        },
    }
}

/// The statements from `s.pos` to the end of the nodes; the text of all
/// of them.
pub open spec fn gen_program(nodes: Seq<Node>, s: GenState) -> Result<Seq<char>, Failure>
    decreases nodes.len() - s.pos,
{
    if s.pos < 0 || s.pos >= nodes.len() {
        Ok(s.out)
    } else {
        match gen_stmt(nodes, s) {
            Ok(s2) => if s.pos < s2.pos <= nodes.len() { gen_program(nodes, s2) } else { Err(Failure::EndOfInput) },
            Err(e) => Err(e),
        }
    }
}

/// The assembly text of a node list, or the failure that stops it.
pub open spec fn generate(nodes: Seq<Node>) -> Result<Seq<char>, Failure> {
    let start = GenState { pos: 0, vars: seq![], stack: 0, labels: 0, scopes: seq![], out: seq![] };
    match gen_program(nodes, start) {
        Ok(body) => Ok(preamble() + body + epilogue()),
        Err(e) => Err(e),
    }
}

/// Between statements the stack holds one slot for each variable.
pub open spec fn balanced(s: GenState) -> bool {
    s.stack == s.vars.len()
}

/// `s2` keeps every entry of `s`'s table and the same scopes.
pub open spec fn extends(s2: GenState, s: GenState) -> bool {
    &&& s2.vars.len() >= s.vars.len()
    &&& s2.vars.subrange(0, s.vars.len() as int) == s.vars
    &&& s2.scopes == s.scopes
}

proof fn lemma_expr_frame(nodes: Seq<Node>, s: GenState, base: int, owner: Option<usize>)
    requires
        s.stack >= base,
    ensures
        gen_expr(nodes, s, base, owner) is Ok ==> ({
            let s2 = gen_expr(nodes, s, base, owner)->Ok_0;
            s2.vars == s.vars && s2.scopes == s.scopes && s2.stack >= base
        }),
    decreases nodes.len() - s.pos,
{
    if 0 <= s.pos < nodes.len() {
        let s1 = advance(s);
        match nodes[s.pos].variant {
            NodeType::ExprIdent(n) => match lookup(names(s.vars), n@) {
                Some(i) => {
                    let s2 = push_slot(s1, s.vars[i].1);
                    if s2.pos == s.pos + 1 && !closes(nodes, s.pos, owner) {
                        lemma_expr_frame(nodes, s2, base, owner);
                    }
                },
                None => {},
            },
            NodeType::ExprLiteral(v) => {
                let s2 = push(emit(emit(emit(s1, "mov rax, "@), decimal(v as nat)), "\n"@), "rax"@);
                if s2.pos == s.pos + 1 && !closes(nodes, s.pos, owner) {
                    lemma_expr_frame(nodes, s2, base, owner);
                }
            },
            NodeType::ExprParen => {
                if !closes(nodes, s.pos, owner) {
                    lemma_expr_frame(nodes, s1, base, owner);
                }
            },
            NodeType::ExprBinAdd | NodeType::ExprBinSub | NodeType::ExprBinMul | NodeType::ExprBinDiv => {
                let k = kind(nodes[s.pos].variant);
                if s1.stack - base >= 2 {
                    let instr = if k is Add { "add rax, rbx\n"@ } else if k is Sub { "sub rax, rbx\n"@ }
                        else if k is Mul { "mul rbx\n"@ } else { "div rbx\n"@ };
                    let s2 = push(emit(pop(pop(s1, "rbx"@), "rax"@), instr), "rax"@);
                    if s2.pos == s.pos + 1 && !closes(nodes, s.pos, owner) {
                        lemma_expr_frame(nodes, s2, base, owner);
                    }
                }
            },
            _ => {},
        }
    }
}

proof fn lemma_cond_frame(nodes: Seq<Node>, s: GenState, l: Seq<char>, owner: usize)
    ensures
        gen_cond_jump(nodes, s, l, owner) is Ok ==> ({
            let s2 = gen_cond_jump(nodes, s, l, owner)->Ok_0;
            s2.vars == s.vars && s2.scopes == s.scopes && s2.stack == s.stack
        }),
{
    lemma_expr_frame(nodes, s, s.stack, Some(owner));
}

proof fn lemma_stmt_frame(nodes: Seq<Node>, s: GenState)
    requires
        balanced(s),
    ensures
        gen_stmt(nodes, s) is Ok ==> balanced(gen_stmt(nodes, s)->Ok_0) && extends(gen_stmt(nodes, s)->Ok_0, s),
    decreases nodes.len() - s.pos, 1int,
{
    if 0 <= s.pos < nodes.len() {
        match nodes[s.pos].variant {
            NodeType::StmtIf(_) => {
                lemma_if_frame(nodes, s);
                assert(s.vars.subrange(0, s.vars.len() as int) =~= s.vars);
            },
            NodeType::StmtWhile => {
                lemma_while_frame(nodes, s);
                assert(s.vars.subrange(0, s.vars.len() as int) =~= s.vars);
            },
            NodeType::StmtNewVar(_) => {
                let s1 = advance(s);
                lemma_expr_frame(nodes, s1, s1.stack, Some(s.pos as usize));
                if gen_variable(nodes, s) is Ok {
                    let s2 = gen_variable(nodes, s)->Ok_0;
                    assert(s2.vars.subrange(0, s.vars.len() as int) =~= s.vars);
                }
            },
            NodeType::StmtAssign(_) => {
                let s1 = advance(s);
                lemma_expr_frame(nodes, s1, s1.stack, Some(s.pos as usize));
                if gen_assignment(nodes, s) is Ok {
                    assert(s.vars.subrange(0, s.vars.len() as int) =~= s.vars);
                }
            },
            NodeType::BlockStart => {
                lemma_block_frame(nodes, s);
                if gen_block(nodes, s) is Ok {
                    assert(s.vars.subrange(0, s.vars.len() as int) =~= s.vars);
                }
            },
            t => {
                if starts_expr(t) {
                    lemma_expr_frame(nodes, s, s.stack, None);
                    if gen_call(nodes, s) is Ok {
                        assert(s.vars.subrange(0, s.vars.len() as int) =~= s.vars);
                    }
                }
            },
        }
    }
}

proof fn lemma_body_frame(nodes: Seq<Node>, s: GenState)
    requires
        balanced(s),
    ensures
        gen_body(nodes, s) is Ok ==> balanced(gen_body(nodes, s)->Ok_0) && extends(gen_body(nodes, s)->Ok_0, s),
    decreases nodes.len() - s.pos, 2int,
{
    if 0 <= s.pos < nodes.len() && !(nodes[s.pos].variant is BlockEnd) {
        lemma_stmt_frame(nodes, s);
        if gen_stmt(nodes, s) is Ok {
            let s2 = gen_stmt(nodes, s)->Ok_0;
            if s.pos < s2.pos <= nodes.len() {
                lemma_body_frame(nodes, s2);
                if gen_body(nodes, s2) is Ok {
                    let s3 = gen_body(nodes, s2)->Ok_0;
                    assert(s3.vars.subrange(0, s.vars.len() as int)
                        =~= s3.vars.subrange(0, s2.vars.len() as int).subrange(0, s.vars.len() as int));
                }
            }
        }
    } else if 0 <= s.pos < nodes.len() {
        assert(s.vars.subrange(0, s.vars.len() as int) =~= s.vars);
    }
}

proof fn lemma_block_frame(nodes: Seq<Node>, s: GenState)
    requires
        balanced(s),
    ensures
        gen_block(nodes, s) is Ok ==> ({
            let s2 = gen_block(nodes, s)->Ok_0;
            s2.vars == s.vars && s2.stack == s.stack && s2.scopes == s.scopes
        }),
    decreases nodes.len() - s.pos, 0int,
{
    if 0 <= s.pos < nodes.len() && nodes[s.pos].variant is BlockStart {
        let start = s.vars.len();
        let s1 = GenState { pos: s.pos + 1, scopes: s.scopes.push(start as usize), ..s };
        lemma_body_frame(nodes, s1);
        if gen_body(nodes, s1) is Ok {
            let s2 = gen_body(nodes, s1)->Ok_0;
            assert(s2.scopes.drop_last() =~= s.scopes);
        }
    }
}

proof fn lemma_if_frame(nodes: Seq<Node>, s: GenState)
    requires
        balanced(s),
    ensures
        gen_if(nodes, s) is Ok ==> ({
            let s2 = gen_if(nodes, s)->Ok_0;
            s2.vars == s.vars && s2.stack == s.stack && s2.scopes == s.scopes
        }),
    decreases nodes.len() - s.pos, 0int,
{
    let l = label(s, "if"@);
    lemma_cond_frame(nodes, count_label(advance(s)), l, s.pos as usize);
    match gen_cond_jump(nodes, count_label(advance(s)), l, s.pos as usize) {
        Ok(s1) => if s.pos < s1.pos <= nodes.len() {
            lemma_block_frame(nodes, s1);
            match gen_block(nodes, s1) {
                Ok(s2) => {
                    let l_else = label(s2, "else"@);
                    let s3 = emit_label(emit_jump(count_label(s2), l_else), l);
                    if s.pos < s3.pos <= nodes.len() {
                        lemma_block_frame(nodes, s3);
                    }
                },
                Err(_) => {},
            }
        },
        Err(_) => {},
    }
}

proof fn lemma_while_frame(nodes: Seq<Node>, s: GenState)
    requires
        balanced(s),
    ensures
        gen_while(nodes, s) is Ok ==> ({
            let s2 = gen_while(nodes, s)->Ok_0;
            s2.vars == s.vars && s2.stack == s.stack && s2.scopes == s.scopes
        }),
    decreases nodes.len() - s.pos, 0int,
{
    let l_start = label(s, "loopstart"@);
    let s1 = count_label(advance(s));
    let l_end = label(s1, "loopend"@);
    let s1b = emit_label(count_label(s1), l_start);
    lemma_cond_frame(nodes, s1b, l_end, s.pos as usize);
    match gen_cond_jump(nodes, s1b, l_end, s.pos as usize) {
        Ok(s2) => if s.pos < s2.pos <= nodes.len() {
            lemma_block_frame(nodes, s2);
        },
        Err(_) => {},
    }
}

/// Blocks are stack-neutral: from a state whose stack holds exactly the
/// variables' slots, a block that generates leaves the stack height, the
/// variable table and the scopes as they were; the variables it declared
/// are gone, so an outer binding it shadowed is the one found again.
pub proof fn lemma_block_stack_neutral(nodes: Seq<Node>, s: GenState)
    requires
        balanced(s),
        gen_block(nodes, s) is Ok,
    ensures
        gen_block(nodes, s)->Ok_0.stack == s.stack,
        gen_block(nodes, s)->Ok_0.vars == s.vars,
        gen_block(nodes, s)->Ok_0.scopes == s.scopes,
{
    lemma_block_frame(nodes, s);
}

/// Declaring a name that the current scope already holds fails; declaring
/// one that only an enclosing scope holds, with an expression that leaves
/// one value, succeeds, and the new entry is the one that lookups find.
pub proof fn lemma_declaration_in_scopes(nodes: Seq<Node>, s: GenState)
    requires
        0 <= s.pos < nodes.len(),
        nodes[s.pos].variant is StmtNewVar,
    ensures
        ({
            let name = nodes[s.pos].variant->StmtNewVar_0@;
            &&& declared_in_scope(names(s.vars), scope_start(s.scopes), name)
                ==> gen_variable(nodes, s) == Err::<GenState, Failure>(Failure::AlreadyDeclared(name))
            &&& !declared_in_scope(names(s.vars), scope_start(s.scopes), name) && gen_valued(nodes, advance(s), s.pos as usize) is Ok
                ==> gen_variable(nodes, s) is Ok
                    && lookup(names(gen_variable(nodes, s)->Ok_0.vars), name) == Some(s.vars.len() as int)
        }),
{
    let name = nodes[s.pos].variant->StmtNewVar_0@;
    if !declared_in_scope(names(s.vars), scope_start(s.scopes), name) && gen_valued(nodes, advance(s), s.pos as usize) is Ok {
        let s2 = gen_variable(nodes, s)->Ok_0;
        lemma_expr_frame(nodes, advance(s), s.stack, Some(s.pos as usize));
        assert(names(s2.vars).last() == name);
        assert(names(s2.vars).len() == s.vars.len() + 1);
    }
}

} // verus!
