use vstd::prelude::*;
use vstd::string::*;

use crate::grammar::{kind, Kind};
use crate::lowering::{
    advance, bin, count_label, emit as emit_text, emit_jump as jump_text, emit_label as label_text, failure, gen_assignment,
    gen_block, gen_body, gen_cond_jump, gen_call, gen_expr, gen_if, gen_program, gen_stmt, gen_valued, gen_variable,
    gen_while, generate, label, names, pop as pop_text, push as push_text, push_slot as slot_text, scope_start,
    unexpected_at, Failure, GenState,
};
use crate::parser::{Node, NodeType};

verus! {

#[derive(Debug)]
pub enum GeneratorError {
    EndOfInput,
    VariableAlreadyDeclared(String),
    VariableNotYetDeclared(String),
    BlockNotYetOpened,
    UnexpectedNode(NodeType),
}

/// The character of a decimal digit.
pub open spec fn digit_char(d: nat) -> char {
    if d == 0 { '0' }
    else if d == 1 { '1' }
    else if d == 2 { '2' }
    else if d == 3 { '3' }
    else if d == 4 { '4' }
    else if d == 5 { '5' }
    else if d == 6 { '6' }
    else if d == 7 { '7' }
    else if d == 8 { '8' }
    else { '9' }
}

/// The decimal notation of `n`, without leading zeros.
pub open spec fn decimal(n: nat) -> Seq<char>
    decreases n,
{
    if n < 10 {
        seq![digit_char(n)]
    } else {
        decimal(n / 10).push(digit_char(n % 10))
    }
}

fn digit_str(d: u128) -> (r: &'static str)
    requires
        d < 10,
    ensures
        r@ == seq![digit_char(d as nat)],
{
    proof {
        reveal_strlit("0");
        reveal_strlit("1");
        reveal_strlit("2");
        reveal_strlit("3");
        reveal_strlit("4");
        reveal_strlit("5");
        reveal_strlit("6");
        reveal_strlit("7");
        reveal_strlit("8");
        reveal_strlit("9");
    }
    if d == 0 { "0" }
    else if d == 1 { "1" }
    else if d == 2 { "2" }
    else if d == 3 { "3" }
    else if d == 4 { "4" }
    else if d == 5 { "5" }
    else if d == 6 { "6" }
    else if d == 7 { "7" }
    else if d == 8 { "8" }
    else { "9" }
}

/// Appends the decimal notation of `n` to `out`.
fn append_decimal(out: &mut String, n: u128)
    ensures
        final(out)@ == old(out)@ + decimal(n as nat),
    decreases n,
{
    if n >= 10 {
        append_decimal(out, n / 10);
    }
    out.append(digit_str(n % 10));
    assert(n >= 10 ==> decimal(n as nat) == decimal((n / 10) as nat).push(digit_char((n % 10) as nat)));
}

/// The jump that skips a branch when the comparison `t` does not hold:
/// each condition maps to the jump on its negation.
pub open spec fn inverted_jump_of(t: NodeType) -> Option<Seq<char>> {
    match t {
        NodeType::ExprNotEqual => Some(seq!['j', 'e']),
        NodeType::ExprEqual => Some(seq!['j', 'n', 'e']),
        NodeType::ExprGreater => Some(seq!['j', 'n', 'a']),
        NodeType::ExprGreaterEqual => Some(seq!['j', 'n', 'a', 'e']),
        NodeType::ExprLess => Some(seq!['j', 'n', 'b']),
        NodeType::ExprLessEqual => Some(seq!['j', 'n', 'b', 'e']),
        _ => None,
    }
}

fn inverted_jump(t: &NodeType) -> (r: Option<&'static str>)
    ensures
        r is None <==> inverted_jump_of(*t) is None,
        r is Some ==> r->0@ == inverted_jump_of(*t)->0,
{
    proof {
        reveal_strlit("je");
        reveal_strlit("jne");
        reveal_strlit("jna");
        reveal_strlit("jnae");
        reveal_strlit("jnb");
        reveal_strlit("jnbe");
    }
    match t {
        NodeType::ExprNotEqual => Some("je"),
        NodeType::ExprEqual => Some("jne"),
        NodeType::ExprGreater => Some("jna"),
        NodeType::ExprGreaterEqual => Some("jnae"),
        NodeType::ExprLess => Some("jnb"),
        NodeType::ExprLessEqual => Some("jnbe"),
        _ => None,
    }
}

/// The index of the innermost visible variable called `name`: the last
/// entry of the table with that name.
pub open spec fn lookup(table: Seq<Seq<char>>, name: Seq<char>) -> Option<int>
    decreases table.len(),
{
    if table.len() == 0 {
        None
    } else if table.last() == name {
        Some(table.len() - 1)
    } else {
        lookup(table.drop_last(), name)
    }
}

/// Whether `name` is declared in the scope whose entries begin at `start`.
pub open spec fn declared_in_scope(table: Seq<Seq<char>>, start: int, name: Seq<char>) -> bool {
    exists|i: int| start <= i < table.len() && table[i] == name
}

/// The table after declaring `name` in the scope that begins at `start`,
/// or `None` where that scope already holds it.
pub open spec fn declare(table: Seq<Seq<char>>, start: int, name: Seq<char>) -> Option<Seq<Seq<char>>> {
    if declared_in_scope(table, start, name) {
        None
    } else {
        Some(table.push(name))
    }
}

/// The table after the scope that begins at `start` is closed.
pub open spec fn close_scope(table: Seq<Seq<char>>, start: int) -> Seq<Seq<char>> {
    table.subrange(0, start)
}

/// Declaring a name twice in one scope fails; declaring it again in a
/// nested scope succeeds and hides the outer one, which is visible again
/// once the nested scope is closed.
pub proof fn lemma_declaration_scoping(table: Seq<Seq<char>>, start: int, name: Seq<char>)
    requires
        0 <= start <= table.len(),
    ensures
        declare(table, start, name) is Some ==> declare(declare(table, start, name)->0, start, name) is None,
        declare(table, start, name) is Some ==> ({
            let outer = declare(table, start, name)->0;
            let inner = declare(outer, outer.len() as int, name);
            &&& inner is Some
            &&& lookup(inner->0, name) == Some(outer.len() as int)
            &&& lookup(close_scope(inner->0, outer.len() as int), name) == Some(table.len() as int)
        }),
{
    if declare(table, start, name) is Some {
        let outer = table.push(name);
        assert(outer[table.len() as int] == name);
        assert(declared_in_scope(outer, start, name));
        let inner = outer.push(name);
        assert(!declared_in_scope(outer, outer.len() as int, name));
        assert(close_scope(inner, outer.len() as int) =~= outer);
    }
}


proof fn lemma_depth_gap(vars: Seq<(String, usize)>, i: int, j: int)
    requires
        0 <= i <= j < vars.len(),
        forall|a: int, b: int| 0 <= a < b < vars.len() ==> #[trigger] vars[a].1 < #[trigger] vars[b].1,
    ensures
        vars[j].1 - vars[i].1 >= j - i,
    decreases j - i,
{
    if i < j {
        lemma_depth_gap(vars, i + 1, j);
        assert(vars[i].1 < vars[i + 1].1);
    }
}

/// A copy of a node kind.
fn copy_variant(t: &NodeType) -> (r: NodeType)
    ensures
        kind(r) == kind(*t),
{
    match t {
        NodeType::BlockStart => NodeType::BlockStart,
        NodeType::BlockEnd => NodeType::BlockEnd,
        NodeType::StmtFunction(n) => NodeType::StmtFunction(n.clone()),
        NodeType::StmtNewVar(n) => NodeType::StmtNewVar(n.clone()),
        NodeType::StmtAssign(n) => NodeType::StmtAssign(n.clone()),
        NodeType::StmtIf(b) => NodeType::StmtIf(*b),
        NodeType::StmtWhile => NodeType::StmtWhile,
        NodeType::ExprIdent(n) => NodeType::ExprIdent(n.clone()),
        NodeType::ExprLiteral(v) => NodeType::ExprLiteral(*v),
        NodeType::ExprParen => NodeType::ExprParen,
        NodeType::ExprBinAdd => NodeType::ExprBinAdd,
        NodeType::ExprBinSub => NodeType::ExprBinSub,
        NodeType::ExprBinMul => NodeType::ExprBinMul,
        NodeType::ExprBinDiv => NodeType::ExprBinDiv,
        NodeType::ExprEqual => NodeType::ExprEqual,
        NodeType::ExprNotEqual => NodeType::ExprNotEqual,
        NodeType::ExprGreater => NodeType::ExprGreater,
        NodeType::ExprLessEqual => NodeType::ExprLessEqual,
        NodeType::ExprLess => NodeType::ExprLess,
        NodeType::ExprGreaterEqual => NodeType::ExprGreaterEqual,
    }
}

/// The grammar's outcome of a generation step that returned `r` and left
/// the generator in state `s`.
pub open spec fn gen_outcome(r: Result<(), GeneratorError>, s: GenState) -> Result<GenState, Failure> {
    match r {
        Ok(_) => Ok(s),
        Err(e) => Err(failure(e)),
    }
}

/// The state in which generation starts.
pub open spec fn start_state() -> GenState {
    GenState { pos: 0, vars: seq![], stack: 0, labels: 0, scopes: seq![], out: seq![] }
}

/// `r` is what generating code for `nodes` gives: the text that the
/// code-generation functions give, or the failure at which they stop.
pub open spec fn generate_outcome(nodes: Seq<Node>, r: Result<String, GeneratorError>) -> bool {
    match r {
        Ok(text) => generate(nodes) == Ok::<Seq<char>, Failure>(text@),
        Err(e) => generate(nodes) == Err::<Seq<char>, Failure>(failure(e)),
    }
}

/// Single-pass code generator from a node list to assembly text.
pub struct Generator {
    input: Vec<Node>,
    pos: usize,
    variables: Vec<(String, usize)>,
    stack_size: usize,
    label_count: u128,
    scopes: Vec<usize>,
    output: String,
}

impl Generator {
    /// The names in the variable table, innermost last.
    pub closed spec fn table(&self) -> Seq<Seq<char>> {
        self.variables@.map_values(|v: (String, usize)| v.0@)
    }

    /// Where the current scope's entries begin in the table.
    pub closed spec fn scope_start(&self) -> int {
        scope_start(self.scopes@)
    }

    /// The generator's state as the code-generation functions state it.
    pub closed spec fn state(&self) -> GenState {
        GenState {
            pos: self.pos as int,
            vars: self.variables@.map_values(|v: (String, usize)| (v.0@, v.1)),
            stack: self.stack_size as int,
            labels: self.label_count as int,
            scopes: self.scopes@,
            out: self.output@,
        }
    }

    proof fn lemma_names(&self)
        ensures
            names(self.state().vars) == self.table(),
    {
        assert(names(self.state().vars) =~= self.table());
    }

    /// Every variable sits in its own slot, below the top of the stack,
    /// later variables deeper in the stack than earlier ones.
    pub closed spec fn wf(&self) -> bool {
        &&& self.pos <= self.input.len()
        &&& self.variables.len() <= self.stack_size <= self.pos
        &&& forall|i: int, j: int| 0 <= i < j < self.variables.len()
            ==> #[trigger] self.variables@[i].1 < #[trigger] self.variables@[j].1
        &&& forall|i: int| 0 <= i < self.variables.len()
            ==> 1 <= #[trigger] self.variables@[i].1 <= self.stack_size
        &&& forall|k: int| 0 <= k < self.scopes.len() ==> #[trigger] self.scopes@[k] <= self.variables.len()
        &&& forall|j: int, k: int| 0 <= j < k < self.scopes.len() ==> #[trigger] self.scopes@[j] <= #[trigger] self.scopes@[k]
        &&& self.label_count <= 2 * self.pos
    }

    /// Between statements the stack holds the variables' slots and nothing
    /// else.
    pub closed spec fn settled(&self) -> bool {
        self.stack_size == self.variables.len()
    }

    /// Only the output and the stack counter may differ from `old`.
    pub closed spec fn frame(&self, old: &Generator) -> bool {
        &&& self.input@ == old.input@
        &&& self.pos == old.pos
        &&& self.variables@ == old.variables@
        &&& self.scopes@ == old.scopes@
        &&& self.label_count == old.label_count
    }

    fn emit(&mut self, text: &str)
        ensures
            final(self).output@ == old(self).output@ + text@,
            final(self).frame(old(self)),
            final(self).stack_size == old(self).stack_size,
            final(self).state() == emit_text(old(self).state(), text@),
    {
        self.output.append(text);
    }

    fn emit_number(&mut self, n: u128)
        ensures
            final(self).output@ == old(self).output@ + decimal(n as nat),
            final(self).frame(old(self)),
            final(self).stack_size == old(self).stack_size,
            final(self).state() == emit_text(old(self).state(), decimal(n as nat)),
    {
        append_decimal(&mut self.output, n);
    }

    /// Pushes `operand` and counts the new slot.
    fn push(&mut self, operand: &str)
        requires
            old(self).wf(),
            old(self).stack_size < old(self).pos,
        ensures
            final(self).wf(),
            final(self).frame(old(self)),
            final(self).stack_size == old(self).stack_size + 1,
            final(self).state() == push_text(old(self).state(), operand@),
    {
        self.emit("push ");
        self.emit(operand);
        self.emit("\n");
        self.stack_size = self.stack_size + 1;
    }

    /// Pushes a copy of the slot `depth` slots from the bottom of the stack.
    fn push_slot(&mut self, depth: usize)
        requires
            old(self).wf(),
            old(self).stack_size < old(self).pos,
            depth <= old(self).stack_size,
        ensures
            final(self).wf(),
            final(self).frame(old(self)),
            final(self).stack_size == old(self).stack_size + 1,
            final(self).state() == slot_text(old(self).state(), depth),
    {
        self.emit("push QWORD [rsp + ");
        self.emit_number((self.stack_size - depth) as u128 * 8);
        self.emit("]\n");
        self.stack_size = self.stack_size + 1;
    }

    /// Pops the top slot into `reg`; the slot holds no variable.
    fn pop(&mut self, reg: &str)
        requires
            old(self).wf(),
            old(self).variables.len() < old(self).stack_size,
            forall|i: int| 0 <= i < old(self).variables.len() ==> #[trigger] old(self).variables@[i].1 < old(self).stack_size,
        ensures
            final(self).wf(),
            final(self).frame(old(self)),
            final(self).stack_size == old(self).stack_size - 1,
            final(self).state() == pop_text(old(self).state(), reg@),
    {
        self.emit("pop ");
        self.emit(reg);
        self.emit("\n");
        self.stack_size = self.stack_size - 1;
    }

    /// A fresh label: `.`, the construct's name, and a number that no
    /// earlier label of this generator has.
    fn create_label(&mut self, name: &str) -> (r: String)
        requires
            old(self).wf(),
            old(self).label_count < 2 * old(self).pos,
        ensures
            final(self).wf(),
            r@ == seq!['.'] + name@ + decimal(old(self).label_count as nat),
            final(self).label_count == old(self).label_count + 1,
            final(self).input@ == old(self).input@,
            final(self).pos == old(self).pos,
            final(self).variables@ == old(self).variables@,
            final(self).scopes@ == old(self).scopes@,
            final(self).stack_size == old(self).stack_size,
            final(self).output@ == old(self).output@,
            r@ == label(old(self).state(), name@),
            final(self).state() == count_label(old(self).state()),
    {
        let mut label = ".".to_owned();
        proof {
            reveal_strlit(".");
        }
        label.append(name);
        append_decimal(&mut label, self.label_count);
        self.label_count = self.label_count + 1;
        label
    }

    /// The innermost variable called `name`, by its index in the table.
    fn find_variable(&self, name: &String) -> (r: Option<usize>)
        ensures
            r is None <==> lookup(self.table(), name@) is None,
            r is Some ==> r->0 < self.variables.len() && lookup(self.table(), name@) == Some(r->0 as int),
    {
        let mut i: usize = self.variables.len();
        assert(self.table().subrange(0, i as int) =~= self.table());
        while i > 0
            invariant
                i <= self.variables.len(),
                lookup(self.table(), name@) == lookup(self.table().subrange(0, i as int), name@),
            decreases i,
        {
            let ghost t = self.table().subrange(0, i as int);
            assert(t.drop_last() =~= self.table().subrange(0, i - 1));
            if self.variables[i - 1].0 == *name {
                return Some(i - 1);
            }
            i = i - 1;
        }
        None
    }

    /// Whether the current scope already declares `name`.
    fn declared_here(&self, name: &String) -> (r: bool)
        requires
            self.wf(),
        ensures
            r == declared_in_scope(self.table(), self.scope_start(), name@),
            0 <= self.scope_start() <= self.table().len(),
    {
        let start = if self.scopes.len() > 0 { self.scopes[self.scopes.len() - 1] } else { 0 };
        let mut i: usize = start;
        while i < self.variables.len()
            invariant
                start == self.scope_start(),
                start <= i <= self.variables.len(),
                forall|j: int| start <= j < i ==> self.table()[j] != name@,
            decreases self.variables.len() - i,
        {
            if self.variables[i].0 == *name {
                assert(self.table()[i as int] == name@);
                return true;
            }
            i = i + 1;
        }
        false
    }
}


/// Whether `s` ends with `t`.
pub open spec fn ends_with(s: Seq<char>, t: Seq<char>) -> bool {
    t.len() <= s.len() && s.subrange(s.len() - t.len(), s.len() as int) == t
}

/// The line that jumps to `label` when the condition tested by `op` is
/// false; a value that is no comparison is tested against zero, as if by
/// `!=`.
pub open spec fn skip_jump_line(op: NodeType, label: Seq<char>) -> Seq<char> {
    let j = match inverted_jump_of(op) {
        Some(j) => j,
        None => inverted_jump_of(NodeType::ExprNotEqual)->0,
    };
    j + seq![' '] + label + seq!['\n']
}

/// The text that starts every program.
pub open spec fn preamble() -> Seq<char> {
    "global _start\nsection .text\n_start:\n"@
}

/// The text that ends every program: exit with status zero.
pub open spec fn epilogue() -> Seq<char> {
    "mov rdi, 0\nmov rax, 60\nsyscall"@
}

impl Generator {
    /// The error for a node that cannot come where the current position is.
    fn unexpected_here(&self) -> (r: GeneratorError)
        ensures
            failure(r) == unexpected_at(self.input@, self.pos as int),
    {
        if self.pos >= self.input.len() {
            GeneratorError::EndOfInput
        } else {
            GeneratorError::UnexpectedNode(copy_variant(&self.input[self.pos].variant))
        }
    }

    /// Pops two operands, combines them with `instr`, and pushes the result.
    fn generate_bin_expr(&mut self, base: usize, op: NodeType, instr: &str) -> (r: Result<(), GeneratorError>)
        requires
            old(self).wf(),
            base <= old(self).stack_size < old(self).pos,
            old(self).variables.len() <= base,
            forall|i: int| 0 <= i < old(self).variables.len() ==> #[trigger] old(self).variables@[i].1 <= base,
        ensures
            final(self).wf(),
            final(self).frame(old(self)),
            final(self).stack_size >= base,
            r is Ok ==> final(self).stack_size == old(self).stack_size - 1,
            bin(old(self).state(), base as int, kind(op), instr@) == gen_outcome(r, final(self).state()),
    {
        if self.stack_size - base < 2 {
            return Err(GeneratorError::UnexpectedNode(op));
        }
        self.pop("rbx");
        self.pop("rax");
        self.emit(instr);
        self.push("rax");
        Ok(())
    }

    /// Emits code for the expression nodes from the current position up to
    /// the first node that is no part of an expression, or up to and with
    /// the node that closes the expression of the statement node `owner`.
    /// Each operand leaves its value on the stack, a paren node emits
    /// nothing, and each operator replaces two values by one.
    fn generate_expr(&mut self, owner: Option<usize>) -> (r: Result<(), GeneratorError>)
        requires
            old(self).wf(),
        ensures
            final(self).wf(),
            final(self).input@ == old(self).input@,
            final(self).pos >= old(self).pos,
            final(self).variables@ == old(self).variables@,
            final(self).scopes@ == old(self).scopes@,
            final(self).label_count == old(self).label_count,
            final(self).stack_size >= old(self).stack_size,
            final(self).stack_size > old(self).stack_size ==> final(self).pos > old(self).pos,
            final(self).pos > old(self).pos ==> inverted_jump_of(final(self).input@[final(self).pos - 1].variant) is None,
            gen_expr(old(self).input@, old(self).state(), old(self).stack_size as int, owner) == gen_outcome(r, final(self).state()),
            old(self).pos < old(self).input.len() && old(self).input@[old(self).pos as int].variant is ExprIdent
                && lookup(old(self).table(), old(self).input@[old(self).pos as int].variant->ExprIdent_0@) is None
                ==> r is Err && final(self).output@ == old(self).output@ && final(self).stack_size == old(self).stack_size,
    {
        let base = self.stack_size;
        let ghost toks = self.input@;
        while self.pos < self.input.len()
            invariant_except_break
                gen_expr(toks, old(self).state(), base as int, owner) == gen_expr(toks, self.state(), base as int, owner),
            invariant
                self.wf(),
                self.input@ == old(self).input@,
                self.pos >= old(self).pos,
                self.variables@ == old(self).variables@,
                self.scopes@ == old(self).scopes@,
                self.label_count == old(self).label_count,
                base == old(self).stack_size,
                self.stack_size >= base,
                self.variables.len() <= base,
                forall|i: int| 0 <= i < self.variables.len() ==> #[trigger] self.variables@[i].1 <= base,
                self.stack_size > base ==> self.pos > old(self).pos,
                self.pos > old(self).pos ==> inverted_jump_of(self.input@[self.pos - 1].variant) is None,
                toks == old(self).input@,
                self.pos == old(self).pos ==> self.output@ == old(self).output@ && self.stack_size == base,
                self.pos > old(self).pos ==> !(old(self).input@[old(self).pos as int].variant is ExprIdent
                    && lookup(old(self).table(), old(self).input@[old(self).pos as int].variant->ExprIdent_0@) is None),
            ensures
                gen_expr(toks, old(self).state(), base as int, owner) == Ok::<GenState, Failure>(self.state()),
                self.pos == old(self).pos && self.pos < self.input.len() ==> !(self.input@[self.pos as int].variant is ExprIdent),
            decreases self.input.len() - self.pos,
        {
            proof {
                self.lemma_names();
            }
            let ghost st = self.state();
            let closing = match owner {
                Some(o) => match self.input[self.pos].parent {
                    Some(q) => q == o,
                    None => false,
                },
                None => false,
            };
            match &self.input[self.pos].variant {
                NodeType::ExprIdent(name) => {
                    let name = name.clone();
                    self.pos = self.pos + 1;
                    assert(self.table() == old(self).table());
                    match self.find_variable(&name) {
                        Some(i) => {
                            let depth = self.variables[i].1;
                            self.push_slot(depth);
                        },
                        None => return Err(GeneratorError::VariableNotYetDeclared(name)),
                    }
                },
                NodeType::ExprLiteral(value) => {
                    let value = *value;
                    self.pos = self.pos + 1;
                    self.emit("mov rax, ");
                    self.emit_number(value as u128);
                    self.emit("\n");
                    self.push("rax");
                },
                NodeType::ExprParen => {
                    self.pos = self.pos + 1;
                },
                NodeType::ExprBinAdd => {
                    self.pos = self.pos + 1;
                    if let Err(e) = self.generate_bin_expr(base, NodeType::ExprBinAdd, "add rax, rbx\n") {
                        return Err(e);
                    }
                },
                NodeType::ExprBinSub => {
                    self.pos = self.pos + 1;
                    if let Err(e) = self.generate_bin_expr(base, NodeType::ExprBinSub, "sub rax, rbx\n") {
                        return Err(e);
                    }
                },
                NodeType::ExprBinMul => {
                    self.pos = self.pos + 1;
                    if let Err(e) = self.generate_bin_expr(base, NodeType::ExprBinMul, "mul rbx\n") {
                        return Err(e);
                    }
                },
                NodeType::ExprBinDiv => {
                    self.pos = self.pos + 1;
                    if let Err(e) = self.generate_bin_expr(base, NodeType::ExprBinDiv, "div rbx\n") {
                        return Err(e);
                    }
                },
                _ => break,
            }
            if closing {
                break;
            }
        }
        Ok(())
    }

    /// Emits the test of a condition and a jump to `label` taken when the
    /// condition is false: the comparison that ends the condition, inverted,
    /// or a test against zero when the condition is a plain value.
    fn generate_conditional_jump(&mut self, label: &String, owner: usize) -> (r: Result<(), GeneratorError>)
        requires
            old(self).wf(),
            old(self).settled(),
        ensures
            final(self).wf(),
            final(self).input@ == old(self).input@,
            final(self).pos >= old(self).pos,
            final(self).variables@ == old(self).variables@,
            final(self).scopes@ == old(self).scopes@,
            final(self).label_count == old(self).label_count,
            r is Ok ==> {
                &&& final(self).settled()
                &&& final(self).pos > old(self).pos
                &&& ends_with(final(self).output@, skip_jump_line(final(self).input@[final(self).pos - 1].variant, label@))
            },
            gen_cond_jump(old(self).input@, old(self).state(), label@, owner) == gen_outcome(r, final(self).state()),
    {
        let base = self.stack_size;
        if let Err(e) = self.generate_expr(Some(owner)) {
            return Err(e);
        }
        let jump = if self.pos < self.input.len() { inverted_jump(&self.input[self.pos].variant) } else { None };
        let ghost at = self.pos;
        match jump {
            Some(jump) => {
                if self.stack_size - base != 2 {
                    return Err(GeneratorError::UnexpectedNode(copy_variant(&self.input[self.pos].variant)));
                }
                self.pos = self.pos + 1;
                self.pop("rbx");
                self.pop("rax");
                self.emit("cmp rax, rbx\n");
                let ghost before = self.output@;
                self.emit(jump);
                self.emit(" ");
                self.emit(label.as_str());
                self.emit("\n");
                proof {
                    reveal_strlit(" ");
                    reveal_strlit("\n");
                    let line = skip_jump_line(self.input@[at as int].variant, label@);
                    assert(self.output@ =~= before + line);
                    assert(self.output@.subrange(self.output@.len() - line.len(), self.output@.len() as int) =~= line);
                }
            },
            None => {
                if self.stack_size - base != 1 {
                    return Err(self.unexpected_here());
                }
                self.pop("rax");
                self.emit("cmp rax, 0\n");
                let ghost before = self.output@;
                self.emit("je ");
                self.emit(label.as_str());
                self.emit("\n");
                proof {
                    reveal_strlit("je ");
                    reveal_strlit("\n");
                    let line = skip_jump_line(self.input@[self.pos - 1].variant, label@);
                    assert(self.output@ =~= before + line);
                    assert(self.output@.subrange(self.output@.len() - line.len(), self.output@.len() as int) =~= line);
                }
            },
        }
        Ok(())
    }
}


impl Generator {
    /// The state after a statement was generated with result `r`: on success
    /// the position moved on, the stack holds exactly the variables' slots,
    /// and the table kept every entry it had.
    pub closed spec fn stepped(&self, old: &Generator, r: Result<(), GeneratorError>) -> bool {
        &&& self.wf()
        &&& self.input@ == old.input@
        &&& self.pos >= old.pos
        &&& r is Ok ==> {
            &&& self.pos > old.pos
            &&& self.settled()
            &&& self.scopes@ == old.scopes@
            &&& self.variables.len() >= old.variables.len()
            &&& self.variables@.subrange(0, old.variables.len() as int) == old.variables@
        }
    }

    /// Generates `let <name> = <expr>`: the expression's value stays on the
    /// stack as the new variable's slot.
    fn generate_variable(&mut self) -> (r: Result<(), GeneratorError>)
        requires
            old(self).wf(),
            old(self).settled(),
            old(self).pos < old(self).input.len(),
            old(self).input@[old(self).pos as int].variant is StmtNewVar,
        ensures
            gen_variable(old(self).input@, old(self).state()) == gen_outcome(r, final(self).state()),
            final(self).stepped(old(self), r),
            ({
                let name = old(self).input@[old(self).pos as int].variant->StmtNewVar_0@;
                &&& declared_in_scope(old(self).table(), old(self).scope_start(), name)
                    ==> r is Err && r->Err_0 is VariableAlreadyDeclared && final(self).variables@ == old(self).variables@
                        && final(self).stack_size == old(self).stack_size && final(self).output@ == old(self).output@
                &&& r is Ok ==> declare(old(self).table(), old(self).scope_start(), name) == Some(final(self).table())
            }),
    {
        let name = match &self.input[self.pos].variant {
            NodeType::StmtNewVar(name) => name.clone(),
            _ => return Err(self.unexpected_here()),
        };
        let index = self.pos;
        self.pos = self.pos + 1;
        proof {
            self.lemma_names();
            assert(self.state() == advance(old(self).state()));
        }
        if self.declared_here(&name) {
            return Err(GeneratorError::VariableAlreadyDeclared(name));
        }
        let base = self.stack_size;
        let ghost table0 = self.table();
        if let Err(e) = self.generate_expr(Some(index)) {
            return Err(e);
        }
        if self.stack_size - base != 1 {
            return Err(self.unexpected_here());
        }
        self.emit("\t; variable (");
        self.emit(name.as_str());
        self.emit(") assigned\n");
        let ghost vars0 = self.variables@;
        let ghost s3 = self.state();
        let ghost name_view = name@;
        let depth = self.stack_size;
        self.variables.push((name, depth));
        assert(self.state().vars =~= s3.vars.push((name_view, depth)));
        assert(self.table() =~= table0.push(name@));
        assert(self.variables@.subrange(0, vars0.len() as int) =~= vars0);
        Ok(())
    }

    #[verifier::rlimit(40)]
    /// Generates `<name> = <expr>`: the value is stored in the variable's
    /// slot.
    fn generate_assignment(&mut self) -> (r: Result<(), GeneratorError>)
        requires
            old(self).wf(),
            old(self).settled(),
            old(self).pos < old(self).input.len(),
            old(self).input@[old(self).pos as int].variant is StmtAssign,
        ensures
            gen_assignment(old(self).input@, old(self).state()) == gen_outcome(r, final(self).state()),
            final(self).stepped(old(self), r),
            lookup(old(self).table(), old(self).input@[old(self).pos as int].variant->StmtAssign_0@) is None
                ==> r is Err && r->Err_0 is VariableNotYetDeclared,
            r is Ok ==> final(self).variables@ == old(self).variables@,
    {
        let name = match &self.input[self.pos].variant {
            NodeType::StmtAssign(name) => name.clone(),
            _ => return Err(self.unexpected_here()),
        };
        let index = self.pos;
        self.pos = self.pos + 1;
        proof {
            self.lemma_names();
            assert(self.state() == advance(old(self).state()));
        }
        let depth = match self.find_variable(&name) {
            Some(i) => self.variables[i].1,
            None => return Err(GeneratorError::VariableNotYetDeclared(name)),
        };
        let base = self.stack_size;
        if let Err(e) = self.generate_expr(Some(index)) {
            return Err(e);
        }
        if self.stack_size - base != 1 {
            return Err(self.unexpected_here());
        }
        self.pop("rax");
        self.emit("mov QWORD [rsp + ");
        self.emit_number((self.stack_size - depth) as u128 * 8);
        self.emit("], rax\n");
        assert(self.variables@.subrange(0, self.variables.len() as int) =~= self.variables@);
        Ok(())
    }

    /// Generates a call statement: its argument, which must leave exactly
    /// one value, then the call node, which must name `exit`.
    fn generate_call(&mut self) -> (r: Result<(), GeneratorError>)
        requires
            old(self).wf(),
            old(self).settled(),
        ensures
            gen_call(old(self).input@, old(self).state()) == gen_outcome(r, final(self).state()),
            final(self).stepped(old(self), r),
            r is Ok ==> final(self).variables@ == old(self).variables@,
    {
        let base = self.stack_size;
        if let Err(e) = self.generate_expr(None) {
            return Err(e);
        }
        if self.pos >= self.input.len() {
            return Err(GeneratorError::EndOfInput);
        }
        let is_exit = match &self.input[self.pos].variant {
            NodeType::StmtFunction(name) => {
                let exit_name = "exit".to_owned();
                *name == exit_name
            },
            _ => false,
        };
        if !is_exit || self.stack_size - base != 1 {
            return Err(self.unexpected_here());
        }
        self.pos = self.pos + 1;
        self.pop("rdi");
        self.emit("mov rax, 60\n");
        self.emit("syscall\n");
        assert(self.variables@.subrange(0, self.variables.len() as int) =~= self.variables@);
        Ok(())
    }

    #[verifier::rlimit(60)]
    /// Generates a `{ ... }` block. On success the variables declared in it
    /// are gone and the stack is back at its height at the block's start.
    fn generate_block(&mut self) -> (r: Result<(), GeneratorError>)
        requires
            old(self).wf(),
            old(self).settled(),
        ensures
            gen_block(old(self).input@, old(self).state()) == gen_outcome(r, final(self).state()),
            final(self).stepped(old(self), r),
            r is Ok ==> final(self).variables@ == old(self).variables@,
            r is Ok ==> final(self).stack_size == old(self).stack_size,
            r is Ok ==> final(self).label_count + 2 <= 2 * final(self).pos,
        decreases old(self).input.len() - old(self).pos, 0int,
    {
        if self.pos >= self.input.len() {
            return Err(GeneratorError::EndOfInput);
        }
        if !matches!(&self.input[self.pos].variant, NodeType::BlockStart) {
            return Err(self.unexpected_here());
        }
        self.pos = self.pos + 1;
        let start = self.variables.len();
        let ghost vars0 = self.variables@;
        let ghost scopes0 = self.scopes@;
        self.scopes.push(start);
        let ghost toks = self.input@;
        let ghost opened = self.state();
        assert(opened == (GenState {
            pos: old(self).pos + 1,
            scopes: old(self).scopes@.push(old(self).state().vars.len() as usize),
            ..old(self).state()
        }));
        loop
            invariant
                self.wf(),
                self.settled(),
                self.input@ == old(self).input@,
                toks == old(self).input@,
                old(self).pos < toks.len(),
                toks[old(self).pos as int].variant is BlockStart,
                opened == (GenState {
                    pos: old(self).pos + 1,
                    scopes: old(self).scopes@.push(old(self).state().vars.len() as usize),
                    ..old(self).state()
                }),
                gen_body(toks, opened) == gen_body(toks, self.state()),
                self.pos > old(self).pos,
                self.scopes@ == scopes0.push(start),
                scopes0 == old(self).scopes@,
                vars0 == old(self).variables@,
                start == vars0.len(),
                self.variables.len() >= start,
                self.variables@.subrange(0, start as int) == vars0,
            ensures
                self.pos < self.input.len(),
                gen_body(toks, opened) == Ok::<GenState, Failure>(self.state()),
            decreases self.input.len() - self.pos,
        {
            let ghost st = self.state();
            if self.pos >= self.input.len() {
                assert(gen_body(toks, st) == Err::<GenState, Failure>(Failure::EndOfInput));
                return Err(GeneratorError::EndOfInput);
            }
            if matches!(&self.input[self.pos].variant, NodeType::BlockEnd) {
                break;
            }
            let ghost before = self.variables@;
            if let Err(e) = self.generate_node() {
                assert(gen_body(toks, st) == Err::<GenState, Failure>(failure(e)));
                return Err(e);
            }
            assert(self.variables@.subrange(0, start as int) =~= before.subrange(0, start as int));
        }
        let ghost s2 = self.state();
        self.pos = self.pos + 1;
        self.scopes.pop();
        let pop_count = self.variables.len() - start;
        self.emit("add rsp, ");
        self.emit_number(pop_count as u128 * 8);
        self.emit("\n");
        let ghost vars1 = self.variables@;
        let ghost stack1 = self.stack_size;
        self.stack_size = self.stack_size - pop_count;
        self.variables.truncate(start);
        assert(self.state().vars =~= s2.vars.subrange(0, start as int));
        assert(self.state().scopes =~= s2.scopes.drop_last());
        assert forall|i: int| 0 <= i < self.variables.len() implies 1 <= #[trigger] self.variables@[i].1 <= self.stack_size by {
            if start < vars1.len() {
                lemma_depth_gap(vars1, i, vars1.len() - 1);
            }
            assert(self.variables@[i] == vars1[i]);
        }
        assert forall|k: int| 0 <= k < self.scopes.len() implies #[trigger] self.scopes@[k] <= self.variables.len() by {
            assert(self.scopes@[k] == scopes0[k]);
        }
        assert(self.variables@ =~= vars0);
        assert(self.scopes@ =~= scopes0);
        assert(self.variables.len() <= self.stack_size <= self.pos);
        assert(self.label_count <= 2 * self.pos);
        assert(self.wf());
        assert(self.settled());
        assert(self.variables@.subrange(0, old(self).variables.len() as int) == old(self).variables@);
        Ok(())
    }

    /// Generates one statement.
    fn generate_node(&mut self) -> (r: Result<(), GeneratorError>)
        requires
            old(self).wf(),
            old(self).settled(),
        ensures
            gen_stmt(old(self).input@, old(self).state()) == gen_outcome(r, final(self).state()),
            final(self).stepped(old(self), r),
        decreases old(self).input.len() - old(self).pos, 1int,
    {
        if self.pos >= self.input.len() {
            return Err(GeneratorError::EndOfInput);
        }
        match &self.input[self.pos].variant {
            NodeType::StmtIf(_) => self.generate_conditional(),
            NodeType::StmtWhile => self.generate_loop(),
            NodeType::StmtNewVar(_) => self.generate_variable(),
            NodeType::StmtAssign(_) => self.generate_assignment(),
            NodeType::BlockStart => self.generate_block(),
            NodeType::BlockEnd => Err(GeneratorError::BlockNotYetOpened),
            NodeType::ExprIdent(_) | NodeType::ExprLiteral(_) | NodeType::ExprParen | NodeType::ExprBinAdd
            | NodeType::ExprBinSub | NodeType::ExprBinMul | NodeType::ExprBinDiv => self.generate_call(),
            other => Err(GeneratorError::UnexpectedNode(copy_variant(other))),
        }
    }

    fn emit_label(&mut self, label: &String)
        ensures
            final(self).output@ == old(self).output@ + label@ + seq![':', '\n'],
            final(self).frame(old(self)),
            final(self).stack_size == old(self).stack_size,
            final(self).state() == label_text(old(self).state(), label@),
    {
        self.emit(label.as_str());
        self.emit(":\n");
        proof {
            reveal_strlit(":\n");
            assert(self.output@ =~= old(self).output@ + (label@ + seq![':', '\n']));
        }
    }

    fn emit_jump(&mut self, label: &String)
        ensures
            final(self).output@ == old(self).output@ + seq!['j', 'm', 'p', ' '] + label@ + seq!['\n'],
            final(self).frame(old(self)),
            final(self).stack_size == old(self).stack_size,
            final(self).state() == jump_text(old(self).state(), label@),
    {
        self.emit("jmp ");
        self.emit(label.as_str());
        self.emit("\n");
        proof {
            reveal_strlit("jmp ");
            reveal_strlit("\n");
            assert(self.output@ =~= old(self).output@ + (seq!['j', 'm', 'p', ' '] + label@ + seq!['\n']));
        }
    }

    /// Generates `if`, with or without an else branch: a jump over the taken
    /// block when the condition is false and, with an else branch, a jump
    /// over the else block at the end of the taken one.
    fn generate_conditional(&mut self) -> (r: Result<(), GeneratorError>)
        requires
            old(self).wf(),
            old(self).settled(),
            old(self).pos < old(self).input.len(),
            old(self).input@[old(self).pos as int].variant is StmtIf,
        ensures
            gen_if(old(self).input@, old(self).state()) == gen_outcome(r, final(self).state()),
            final(self).stepped(old(self), r),
            r is Ok ==> final(self).variables@ == old(self).variables@,
        decreases old(self).input.len() - old(self).pos, 0int,
    {
        let paths = match &self.input[self.pos].variant {
            NodeType::StmtIf(paths) => *paths,
            _ => return Err(self.unexpected_here()),
        };
        let index = self.pos;
        self.pos = self.pos + 1;
        let label = self.create_label("if");
        if let Err(e) = self.generate_conditional_jump(&label, index) {
            return Err(e);
        }
        if let Err(e) = self.generate_block() {
            return Err(e);
        }
        if paths == 0 {
            self.emit_label(&label);
            assert(self.variables@.subrange(0, self.variables.len() as int) =~= self.variables@);
            return Ok(());
        }
        let label_else = self.create_label("else");
        self.emit_jump(&label_else);
        self.emit_label(&label);
        if let Err(e) = self.generate_block() {
            return Err(e);
        }
        self.emit_label(&label_else);
        assert(self.variables@.subrange(0, self.variables.len() as int) =~= self.variables@);
        Ok(())
    }

    /// Generates `while`: the test sits at the loop's start and jumps past
    /// the loop when the condition is false; the body ends with a jump back
    /// to the test.
    fn generate_loop(&mut self) -> (r: Result<(), GeneratorError>)
        requires
            old(self).wf(),
            old(self).settled(),
            old(self).pos < old(self).input.len(),
            old(self).input@[old(self).pos as int].variant is StmtWhile,
        ensures
            gen_while(old(self).input@, old(self).state()) == gen_outcome(r, final(self).state()),
            final(self).stepped(old(self), r),
            r is Ok ==> final(self).variables@ == old(self).variables@,
        decreases old(self).input.len() - old(self).pos, 0int,
    {
        let index = self.pos;
        self.pos = self.pos + 1;
        let start = self.create_label("loopstart");
        let end = self.create_label("loopend");
        self.emit_label(&start);
        if let Err(e) = self.generate_conditional_jump(&end, index) {
            return Err(e);
        }
        if let Err(e) = self.generate_block() {
            return Err(e);
        }
        self.emit_jump(&start);
        self.emit_label(&end);
        assert(self.variables@.subrange(0, self.variables.len() as int) =~= self.variables@);
        Ok(())
    }

    /// Generates the assembly text of a whole node list: a fixed entry
    /// point, the code of each statement in order, and an exit with status
    /// zero for programs that do not exit themselves.
    pub fn generate_program(nodes: Vec<Node>) -> (r: Result<String, GeneratorError>)
        ensures
            r is Ok ==> {
                let out = r->Ok_0@;
                &&& preamble().len() + epilogue().len() <= out.len()
                &&& out.subrange(0, preamble().len() as int) == preamble()
                &&& ends_with(out, epilogue())
            },
            nodes@.len() == 0 ==> (r is Ok && r->Ok_0@ == preamble() + epilogue()),
            generate_outcome(nodes@, r),
    {
        let ghost toks = nodes@;
        let empty = nodes.len() == 0;
        let mut generator = Generator {
            input: nodes,
            pos: 0,
            variables: Vec::new(),
            stack_size: 0,
            label_count: 0,
            scopes: Vec::new(),
            output: String::new(),
        };
        assert(generator.state() == start_state()) by {
            assert(generator.state().vars =~= seq![]);
            assert(generator.state().out =~= seq![]);
        }
        while generator.pos < generator.input.len()
            invariant
                generator.wf(),
                generator.settled(),
                empty ==> generator.input.len() == 0,
                nodes@.len() == generator.input.len(),
                generator.input.len() == 0 ==> generator.output@.len() == 0,
                toks == nodes@,
                generator.input@ == toks,
                gen_program(toks, start_state()) == gen_program(toks, generator.state()),
            decreases generator.input.len() - generator.pos,
        {
            let ghost st = generator.state();
            if let Err(e) = generator.generate_node() {
                assert(gen_program(toks, st) == Err::<Seq<char>, Failure>(failure(e)));
                return Err(e);
            }
        }
        assert(gen_program(toks, generator.state()) == Ok::<Seq<char>, Failure>(generator.output@));
        let mut out = "global _start\nsection .text\n_start:\n".to_owned();
        out.append(generator.output.as_str());
        let ghost body = out@;
        out.append("mov rdi, 0\nmov rax, 60\nsyscall");
        proof {
            assert(out@ =~= preamble() + generator.output@ + epilogue());
            let t = epilogue();
            assert(out@.subrange(out@.len() - t.len(), out@.len() as int) =~= t);
            assert(out@.subrange(0, preamble().len() as int) =~= preamble());
            if empty {
                assert(out@ =~= preamble() + epilogue());
            }
        }
        Ok(out)
    }
}

} // verus!
