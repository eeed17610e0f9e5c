use vstd::prelude::*;
use crate::expr::Expr;
use crate::opcode::{op_view, ops_view, OpCode, OpCodeV};
use crate::stmt::Stmt;
use crate::token::TokenType;
use crate::value::{val_view, Value, ValueV};

verus! {

/// The compiled program: an instruction sequence paired index for index
/// with the source line each instruction came from.
pub struct Chunk {
    pub code: Vec<OpCode>,
    pub lines: Vec<usize>,
}

impl Chunk {
    /// Wrap a compiled (instructions, lines) pair.
    pub fn new(stuff: (Vec<OpCode>, Vec<usize>)) -> (r: Chunk)
        ensures
            r.code == stuff.0,
            r.lines == stuff.1,
    {
        Chunk { code: stuff.0, lines: stuff.1 }
    }

    /// The chunk as a listing, one line per instruction: its position, the
    /// instruction, and the source line it came from, separated by bars.
    /// The host prints it when asked for a disassembly.
    #[verifier::loop_isolation(false)]
    pub fn disassemble(&self) -> (r: Vec<String>)
        requires
            self.code@.len() == self.lines@.len(),
        ensures
            r@.len() == self.code@.len(),
            forall|i: int|
                0 <= i < r@.len() ==> (#[trigger] r@[i])@ == listing_line(
                    i,
                    op_view(self.code@[i]),
                    self.lines@[i] as nat,
                ),
    {
        let mut out: Vec<String> = Vec::new();
        let mut i: usize = 0;
        while i < self.code.len()
            invariant
                0 <= i <= self.code@.len(),
                out@.len() == i,
                forall|j: int|
                    0 <= j < i ==> (#[trigger] out@[j])@ == listing_line(
                        j,
                        op_view(self.code@[j]),
                        self.lines@[j] as nat,
                    ),
            decreases self.code@.len() - i,
        {
            let mut line = crate::render::dec_u64(i as u64);
            line.append(" | ");
            let body = self.code[i].listing();
            line.append(body.as_str());
            line.append(" | ");
            let src = crate::render::dec_u64(self.lines[i] as u64);
            line.append(src.as_str());
            proof {
                assert((i as u64) as nat == i as nat);
                assert((self.lines@[i as int] as u64) as nat == self.lines@[i as int] as nat);
                assert(line@ =~= listing_line(
                    i as int,
                    op_view(self.code@[i as int]),
                    self.lines@[i as int] as nat,
                ));
            }
            out.push(line);
            i = i + 1;
        }
        out
    }
}

/// One listing line: `<position> | <instruction> | <source line>`.
pub open spec fn listing_line(i: int, op: OpCodeV, src: nat) -> Seq<char> {
    crate::render::dec_u(i as nat) + " | "@ + crate::opcode::op_listing(op) + " | "@
        + crate::render::dec_u(src)
}

/// Operator tokens that lower to a binary opcode.
pub open spec fn is_binary_op(tt: TokenType) -> bool {
    tt == TokenType::Plus || tt == TokenType::Minus || tt == TokenType::Star || tt
        == TokenType::Slash || tt == TokenType::Modulo || tt == TokenType::EqualEqual || tt
        == TokenType::BangEqual || tt == TokenType::Less || tt == TokenType::LessEqual || tt
        == TokenType::Greater || tt == TokenType::GreaterEqual || tt == TokenType::And || tt
        == TokenType::Or
}

/// Operator tokens that lower to a unary opcode.
pub open spec fn is_unary_op(tt: TokenType) -> bool {
    tt == TokenType::Minus || tt == TokenType::Bang
}

/// The binary opcode an operator token lowers to.
pub open spec fn sp_bin(tt: TokenType) -> OpCodeV {
    match tt {
        TokenType::Plus => OpCodeV::Add,
        TokenType::Minus => OpCodeV::Subtract,
        TokenType::Star => OpCodeV::Multiply,
        TokenType::Slash => OpCodeV::Divide,
        TokenType::Modulo => OpCodeV::Modulo,
        TokenType::EqualEqual => OpCodeV::EqualEqual,
        TokenType::BangEqual => OpCodeV::NotEqual,
        TokenType::Less => OpCodeV::Less,
        TokenType::LessEqual => OpCodeV::LessEqual,
        TokenType::Greater => OpCodeV::Greater,
        TokenType::GreaterEqual => OpCodeV::GreaterEqual,
        TokenType::And => OpCodeV::LogicalAnd,
        TokenType::Or => OpCodeV::LogicalOr,
        _ => OpCodeV::Eof,
    }
}

/// The unary opcode an operator token lowers to.
pub open spec fn sp_un(tt: TokenType) -> OpCodeV {
    match tt {
        TokenType::Minus => OpCodeV::Negate,
        TokenType::Bang => OpCodeV::LogicalNot,
        _ => OpCodeV::Eof,
    }
}

/// A literal value the compiler can lower: a string literal's interpolation
/// sub-expressions must themselves be compilable.
pub open spec fn wf_value(v: Value) -> bool
    decreases v,
{
    match v {
        Value::Str { string, printables } => wf_exprs(printables@),
        _ => true,
    }
}

/// An expression in the shape the parser promises: operator tokens are
/// really operators and a call's callee is a plain name.
pub open spec fn wf_expr(e: Expr) -> bool
    decreases e,
{
    match e {
        Expr::Assign { name, value } => wf_expr(*value),
        Expr::Binary { left, operator, right } => is_binary_op(operator.tt) && wf_expr(*left)
            && wf_expr(*right),
        Expr::Call { callee, arguments, native } => (*callee matches Expr::Variable(_))
            && wf_exprs(arguments@),
        Expr::Grouping(inner) => wf_expr(*inner),
        Expr::Literal(v, line) => wf_value(v),
        Expr::Unary { operator, expression } => is_unary_op(operator.tt) && wf_expr(*expression),
        Expr::Variable(t) => true,
        Expr::Range { min, max, step, line } => wf_expr(*min) && wf_expr(*max) && (match step {
            Option::Some(s) => wf_expr(*s),
            Option::None => true,
        }),
        Expr::ListLit(items) => wf_exprs(items@),
    }
}

/// Every expression of the sequence is well-formed.
pub open spec fn wf_exprs(es: Seq<Expr>) -> bool
    decreases es,
{
    if es.len() == 0 {
        true
    } else {
        wf_expr(es[0]) && wf_exprs(es.drop_first())
    }
}

/// A statement in the shape the parser promises.
pub open spec fn wf_stmt(s: Stmt) -> bool
    decreases s,
{
    match s {
        Stmt::Print(x, line) => wf_value(x),
        Stmt::Block(stmts, lines) => wf_stmts(stmts@),
        Stmt::Expression(e) => wf_expr(e),
        Stmt::If { condition, block, elseblock, lines } => wf_expr(condition) && wf_stmt(*block)
            && (match elseblock {
            Option::Some(eb) => wf_stmt(*eb) && lines.1 is Some,
            Option::None => true,
        }),
        Stmt::Var { name, value } => (match value {
            Option::Some(e) => wf_expr(e),
            Option::None => true,
        }),
        Stmt::While { condition, block, line } => wf_expr(condition) && wf_stmt(*block),
        Stmt::For { identifier, iterable, block, line } => wf_expr(iterable) && wf_stmt(*block),
        Stmt::FnDecl { name, params, body } => wf_stmt(*body),
        Stmt::Return(e, line) => (match e {
            Option::Some(e0) => wf_expr(e0),
            Option::None => true,
        }),
    }
}

/// Every statement of the sequence is well-formed.
pub open spec fn wf_stmts(ss: Seq<Stmt>) -> bool
    decreases ss,
{
    if ss.len() == 0 {
        true
    } else {
        wf_stmt(ss[0]) && wf_stmts(ss.drop_first())
    }
}

/// What one expression lowers to: instructions and their source lines.
/// Expressions compile to post-order stack code; a call pushes its arguments
/// left to right and then calls by name.
pub open spec fn sp_expr(e: Expr) -> (Seq<OpCodeV>, Seq<usize>)
    decreases e,
{
    match e {
        Expr::Assign { name, value } => {
            let v = sp_expr(*value);
            (v.0.push(OpCodeV::Store(name.lexeme@)), v.1.push(name.line))
        }
        Expr::Binary { left, operator, right } => {
            let l = sp_expr(*left);
            let r = sp_expr(*right);
            (l.0 + r.0 + seq![sp_bin(operator.tt)], l.1 + r.1 + seq![operator.line])
        }
        Expr::Call { callee, arguments, native } => {
            let args = sp_exprs(arguments@);
            let t = callee_token(*callee);
            if native {
                (
                    args.0.push(OpCodeV::NativeCall(t.0, arguments.len())),
                    args.1.push(t.1),
                )
            } else {
                (args.0.push(OpCodeV::Call(t.0)), args.1.push(t.1))
            }
        }
        Expr::Grouping(inner) => sp_expr(*inner),
        Expr::Literal(v, line) => {
            match v {
                Value::Str { string, printables } => {
                    let ps = sp_exprs(printables@);
                    (
                        ps.0.push(OpCodeV::Constant(ValueV::Str(string@))),
                        ps.1.push(line),
                    )
                }
                _ => (seq![OpCodeV::Constant(val_view(v))], seq![line]),
            }
        }
        Expr::Unary { operator, expression } => {
            let inner = sp_expr(*expression);
            (inner.0.push(sp_un(operator.tt)), inner.1.push(operator.line))
        }
        Expr::Variable(t) => (seq![OpCodeV::Load(t.lexeme@)], seq![t.line]),
        Expr::Range { min, max, step, line } => {
            let lo = sp_expr(*min);
            let hi = sp_expr(*max);
            match step {
                Option::Some(st) => {
                    let stc = sp_expr(*st);
                    (
                        lo.0 + hi.0 + stc.0 + seq![OpCodeV::Range(true)],
                        lo.1 + hi.1 + stc.1 + seq![line],
                    )
                }
                Option::None => (
                    lo.0 + hi.0 + seq![OpCodeV::Range(false)],
                    lo.1 + hi.1 + seq![line],
                ),
            }
        }
        Expr::ListLit(items) => {
            let el = sp_exprs(items@);
            (el.0.push(OpCodeV::Iterable(items.len())), el.1.push(0))
        }
    }
}

/// The name and line of a call's callee (a plain variable reference).
pub open spec fn callee_token(e: Expr) -> (Seq<char>, usize) {
    match e {
        Expr::Variable(t) => (t.lexeme@, t.line),
        _ => (Seq::empty(), 0),
    }
}

/// What a sequence of expressions lowers to, in order.
pub open spec fn sp_exprs(es: Seq<Expr>) -> (Seq<OpCodeV>, Seq<usize>)
    decreases es,
{
    if es.len() == 0 {
        (Seq::empty(), Seq::empty())
    } else {
        let h = sp_expr(es[0]);
        let t = sp_exprs(es.drop_first());
        (h.0 + t.0, h.1 + t.1)
    }
}

/// What one statement lowers to, following the lowering table: blocks are
/// bracketed in scope markers, `if`/`while`/`for` lower to negated
/// conditional jumps sized to the compiled branch, a function declaration
/// lowers to a marker sequence that the machine later turns into a table
/// entry.
pub open spec fn sp_stmt(s: Stmt) -> (Seq<OpCodeV>, Seq<usize>)
    decreases s,
{
    match s {
        Stmt::Print(x, line) => {
            match x {
                Value::Str { string, printables } => {
                    let ps = sp_exprs(printables@);
                    (
                        ps.0 + seq![OpCodeV::Constant(ValueV::Str(string@)), OpCodeV::Print],
                        ps.1 + seq![line, line],
                    )
                }
                _ => (
                    seq![OpCodeV::Constant(val_view(x)), OpCodeV::Print],
                    seq![line, line],
                ),
            }
        }
        Stmt::Block(stmts, lines) => {
            let inner = sp_stmts(stmts@);
            (
                seq![OpCodeV::Scope] + inner.0 + seq![OpCodeV::EndScope],
                seq![lines.0] + inner.1 + seq![lines.1],
            )
        }
        Stmt::Expression(e) => sp_expr(e),
        Stmt::If { condition, block, elseblock, lines } => {
            let c = sp_expr(condition);
            let b = sp_stmt(*block);
            let head = (
                c.0 + seq![OpCodeV::LogicalNot, OpCodeV::JumpIf(b.0.len() as i128, elseblock is None)]
                    + b.0,
                c.1 + seq![lines.0, lines.0] + b.1,
            );
            match elseblock {
                Option::Some(eb) => {
                    let e = sp_stmt(*eb);
                    let el = lines.1.unwrap();
                    (
                        head.0 + seq![OpCodeV::LogicalNot, OpCodeV::JumpIf(e.0.len() as i128, true)]
                            + e.0,
                        head.1 + seq![el, el] + e.1,
                    )
                }
                Option::None => head,
            }
        }
        Stmt::Var { name, value } => {
            let init = match value {
                Option::Some(e) => sp_expr(e),
                Option::None => (seq![OpCodeV::Constant(ValueV::Nil)], seq![name.line]),
            };
            (init.0.push(OpCodeV::Store(name.lexeme@)), init.1.push(name.line))
        }
        Stmt::While { condition, block, line } => {
            let c = sp_expr(condition);
            let b = sp_stmt(*block);
            let off = (b.0.len() + c.0.len() + 3) as int;
            (
                c.0 + seq![OpCodeV::LogicalNot, OpCodeV::JumpIf((b.0.len() + 1) as i128, true)]
                    + b.0 + seq![OpCodeV::Jump((-off) as i128)],
                c.1 + seq![line, line] + b.1 + seq![line],
            )
        }
        Stmt::For { identifier, iterable, block, line } => {
            let it = sp_expr(iterable);
            let b = sp_stmt(*block);
            let bl = b.0.len() as int;
            (
                it.0 + seq![
                    OpCodeV::For,
                    OpCodeV::Scope,
                    OpCodeV::Store(identifier.lexeme@),
                    OpCodeV::JumpIf(bl as i128, true),
                ] + b.0.drop_first() + seq![OpCodeV::Jump((-(bl + 4)) as i128)],
                it.1 + seq![line, line, line, line] + b.1.drop_first() + seq![line],
            )
        }
        Stmt::FnDecl { name, params, body } => {
            let b = sp_stmt(*body);
            (
                seq![OpCodeV::FnDef] + param_stores(params@) + b.0 + seq![
                    OpCodeV::Store(name.lexeme@),
                ],
                seq![name.line] + Seq::new(params@.len(), |i: int| name.line) + b.1 + seq![
                    name.line,
                ],
            )
        }
        Stmt::Return(e, line) => {
            match e {
                Option::Some(e0) => {
                    let v = sp_expr(e0);
                    (v.0.push(OpCodeV::Return(true)), v.1.push(line))
                }
                Option::None => (seq![OpCodeV::Return(false)], seq![line]),
            }
        }
    }
}

/// One store instruction per parameter name, in declared order.
pub open spec fn param_stores(params: Seq<crate::token::Token>) -> Seq<OpCodeV> {
    Seq::new(params.len(), |i: int| OpCodeV::Store(params[i].lexeme@))
}

/// What a sequence of statements lowers to, in order.
pub open spec fn sp_stmts(ss: Seq<Stmt>) -> (Seq<OpCodeV>, Seq<usize>)
    decreases ss,
{
    if ss.len() == 0 {
        (Seq::empty(), Seq::empty())
    } else {
        let h = sp_stmt(ss[0]);
        let t = sp_stmts(ss.drop_first());
        (h.0 + t.0, h.1 + t.1)
    }
}

/// A statement lowers to at least one instruction, and instructions and
/// lines stay aligned.
pub proof fn lemma_sp_stmt_shape(s: Stmt)
    ensures
        sp_stmt(s).0.len() == sp_stmt(s).1.len(),
        sp_stmt(s).0.len() >= 1,
    decreases s,
{
    match s {
        Stmt::Print(x, line) => {
            match x {
                Value::Str { string, printables } => lemma_sp_exprs_shape(printables@),
                _ => {}
            }
        }
        Stmt::Block(stmts, lines) => lemma_sp_stmts_shape(stmts@),
        Stmt::Expression(e) => lemma_sp_expr_shape(e),
        Stmt::If { condition, block, elseblock, lines } => {
            lemma_sp_expr_shape(condition);
            lemma_sp_stmt_shape(*block);
            match elseblock {
                Option::Some(eb) => lemma_sp_stmt_shape(*eb),
                Option::None => {}
            }
        }
        Stmt::Var { name, value } => {
            match value {
                Option::Some(e) => lemma_sp_expr_shape(e),
                Option::None => {}
            }
        }
        Stmt::While { condition, block, line } => {
            lemma_sp_expr_shape(condition);
            lemma_sp_stmt_shape(*block);
        }
        Stmt::For { identifier, iterable, block, line } => {
            lemma_sp_expr_shape(iterable);
            lemma_sp_stmt_shape(*block);
        }
        Stmt::FnDecl { name, params, body } => lemma_sp_stmt_shape(*body),
        Stmt::Return(e, line) => {
            match e {
                Option::Some(e0) => lemma_sp_expr_shape(e0),
                Option::None => {}
            }
        }
    }
}

/// An expression lowers to at least one instruction, aligned with lines.
pub proof fn lemma_sp_expr_shape(e: Expr)
    ensures
        sp_expr(e).0.len() == sp_expr(e).1.len(),
        sp_expr(e).0.len() >= 1,
    decreases e,
{
    match e {
        Expr::Assign { name, value } => lemma_sp_expr_shape(*value),
        Expr::Binary { left, operator, right } => {
            lemma_sp_expr_shape(*left);
            lemma_sp_expr_shape(*right);
        }
        Expr::Call { callee, arguments, native } => lemma_sp_exprs_shape(arguments@),
        Expr::Grouping(inner) => lemma_sp_expr_shape(*inner),
        Expr::Literal(v, line) => {
            match v {
                Value::Str { string, printables } => lemma_sp_exprs_shape(printables@),
                _ => {}
            }
        }
        Expr::Unary { operator, expression } => lemma_sp_expr_shape(*expression),
        Expr::Variable(t) => {}
        Expr::Range { min, max, step, line } => {
            lemma_sp_expr_shape(*min);
            lemma_sp_expr_shape(*max);
            match step {
                Option::Some(st) => lemma_sp_expr_shape(*st),
                Option::None => {}
            }
        }
        Expr::ListLit(items) => lemma_sp_exprs_shape(items@),
    }
}

/// Lowered expression sequences keep instructions and lines aligned.
pub proof fn lemma_sp_exprs_shape(es: Seq<Expr>)
    ensures
        sp_exprs(es).0.len() == sp_exprs(es).1.len(),
    decreases es,
{
    if es.len() > 0 {
        lemma_sp_expr_shape(es[0]);
        lemma_sp_exprs_shape(es.drop_first());
    }
}

/// Lowered statement sequences keep instructions and lines aligned.
pub proof fn lemma_sp_stmts_shape(ss: Seq<Stmt>)
    ensures
        sp_stmts(ss).0.len() == sp_stmts(ss).1.len(),
    decreases ss,
{
    if ss.len() > 0 {
        lemma_sp_stmt_shape(ss[0]);
        lemma_sp_stmts_shape(ss.drop_first());
    }
}

/// Splitting a statement sequence splits its lowering.
pub proof fn lemma_sp_stmts_snoc(ss: Seq<Stmt>, i: int)
    requires
        0 <= i < ss.len(),
    ensures
        sp_stmts(ss.take(i + 1)).0 =~= sp_stmts(ss.take(i)).0 + sp_stmt(ss[i]).0,
        sp_stmts(ss.take(i + 1)).1 =~= sp_stmts(ss.take(i)).1 + sp_stmt(ss[i]).1,
    decreases i,
{
    if i == 0 {
        assert(ss.take(1).drop_first() =~= Seq::<Stmt>::empty());
        assert(ss.take(0) =~= Seq::<Stmt>::empty());
        assert(ss.take(1)[0] == ss[0]);
    } else {
        lemma_sp_stmts_snoc(ss.drop_first(), i - 1);
        assert(ss.take(i + 1).drop_first() =~= ss.drop_first().take(i));
        assert(ss.take(i).drop_first() =~= ss.drop_first().take(i - 1));
        assert(ss.take(i + 1)[0] == ss[0]);
        assert(ss.take(i)[0] == ss[0]);
        assert(ss.drop_first()[i - 1] == ss[i]);
    }
}

/// Splitting an expression sequence splits its lowering.
pub proof fn lemma_sp_exprs_snoc(es: Seq<Expr>, i: int)
    requires
        0 <= i < es.len(),
    ensures
        sp_exprs(es.take(i + 1)).0 =~= sp_exprs(es.take(i)).0 + sp_expr(es[i]).0,
        sp_exprs(es.take(i + 1)).1 =~= sp_exprs(es.take(i)).1 + sp_expr(es[i]).1,
    decreases i,
{
    if i == 0 {
        assert(es.take(1).drop_first() =~= Seq::<Expr>::empty());
        assert(es.take(0) =~= Seq::<Expr>::empty());
        assert(es.take(1)[0] == es[0]);
    } else {
        lemma_sp_exprs_snoc(es.drop_first(), i - 1);
        assert(es.take(i + 1).drop_first() =~= es.drop_first().take(i));
        assert(es.take(i).drop_first() =~= es.drop_first().take(i - 1));
        assert(es.take(i + 1)[0] == es[0]);
        assert(es.take(i)[0] == es[0]);
        assert(es.drop_first()[i - 1] == es[i]);
    }
}

/// Well-formedness of a prefix follows from the whole.
pub proof fn lemma_wf_stmts_index(ss: Seq<Stmt>, i: int)
    requires
        wf_stmts(ss),
        0 <= i < ss.len(),
    ensures
        wf_stmt(ss[i]),
    decreases i,
{
    if i > 0 {
        lemma_wf_stmts_index(ss.drop_first(), i - 1);
    }
}

/// Well-formedness of an element follows from the whole.
pub proof fn lemma_wf_exprs_index(es: Seq<Expr>, i: int)
    requires
        wf_exprs(es),
        0 <= i < es.len(),
    ensures
        wf_expr(es[i]),
    decreases i,
{
    if i > 0 {
        lemma_wf_exprs_index(es.drop_first(), i - 1);
    }
}

/// A statement list is well-formed exactly when each statement is.
pub proof fn lemma_wf_stmts_each(ss: Seq<Stmt>)
    ensures
        wf_stmts(ss) <==> (forall|j: int| 0 <= j < ss.len() ==> wf_stmt(#[trigger] ss[j])),
    decreases ss,
{
    if ss.len() > 0 {
        lemma_wf_stmts_each(ss.drop_first());
        assert forall|j: int|
            (forall|k: int| 0 <= k < ss.len() ==> wf_stmt(#[trigger] ss[k])) && 0 <= j < ss.drop_first().len()
                implies wf_stmt(#[trigger] ss.drop_first()[j]) by {
            assert(ss.drop_first()[j] == ss[j + 1]);
        }
        if wf_stmts(ss) {
            assert forall|j: int| 0 <= j < ss.len() implies wf_stmt(#[trigger] ss[j]) by {
                if j > 0 {
                    assert(ss[j] == ss.drop_first()[j - 1]);
                }
            }
        }
    }
}

/// An expression list is well-formed exactly when each expression is.
pub proof fn lemma_wf_exprs_each(es: Seq<Expr>)
    ensures
        wf_exprs(es) <==> (forall|j: int| 0 <= j < es.len() ==> wf_expr(#[trigger] es[j])),
    decreases es,
{
    if es.len() > 0 {
        lemma_wf_exprs_each(es.drop_first());
        assert forall|j: int|
            (forall|k: int| 0 <= k < es.len() ==> wf_expr(#[trigger] es[k])) && 0 <= j < es.drop_first().len()
                implies wf_expr(#[trigger] es.drop_first()[j]) by {
            assert(es.drop_first()[j] == es[j + 1]);
        }
        if wf_exprs(es) {
            assert forall|j: int| 0 <= j < es.len() implies wf_expr(#[trigger] es[j]) by {
                if j > 0 {
                    assert(es[j] == es.drop_first()[j - 1]);
                }
            }
        }
    }
}

/// Whether an operator token lowers to a binary opcode.
fn token_is_binary(tt: TokenType) -> (b: bool)
    ensures
        b == is_binary_op(tt),
{
    match tt {
        TokenType::Plus => true,
        TokenType::Minus => true,
        TokenType::Star => true,
        TokenType::Slash => true,
        TokenType::Modulo => true,
        TokenType::EqualEqual => true,
        TokenType::BangEqual => true,
        TokenType::Less => true,
        TokenType::LessEqual => true,
        TokenType::Greater => true,
        TokenType::GreaterEqual => true,
        TokenType::And => true,
        TokenType::Or => true,
        _ => false,
    }
}

/// Whether an operator token lowers to a unary opcode.
fn token_is_unary(tt: TokenType) -> (b: bool)
    ensures
        b == is_unary_op(tt),
{
    match tt {
        TokenType::Minus => true,
        TokenType::Bang => true,
        _ => false,
    }
}

/// Decide whether a statement list is in the shape the parser promises -
/// the condition `compile` demands.  A caller that did not build the list
/// itself tests this first and rejects the program as a parse-shaped
/// failure.
#[verifier::loop_isolation(false)]
pub fn stmts_well_formed(stmts: &Vec<Stmt>) -> (r: bool)
    ensures
        r == wf_stmts(stmts@),
    decreases stmts@, 1int,
{
    let mut ok = true;
    let mut i: usize = 0;
    while i < stmts.len()
        invariant
            0 <= i <= stmts@.len(),
            ok == (forall|j: int| 0 <= j < i ==> wf_stmt(#[trigger] stmts@[j])),
        decreases stmts@.len() - i,
    {
        proof {
            assert(decreases_to!(stmts@ => stmts@[i as int]));
        }
        if !stmt_well_formed(&stmts[i]) {
            ok = false;
        }
        i = i + 1;
    }
    proof {
        lemma_wf_stmts_each(stmts@);
    }
    ok
}

/// Decide whether one statement is in the shape the parser promises.
pub fn stmt_well_formed(stmt: &Stmt) -> (r: bool)
    ensures
        r == wf_stmt(*stmt),
    decreases stmt, 2int,
{
    match stmt {
        Stmt::Print(x, line) => value_well_formed(x),
        Stmt::Block(stmts, blines) => stmts_well_formed(stmts),
        Stmt::Expression(e) => expr_well_formed(e),
        Stmt::If { condition, block, elseblock, lines: ilines } => {
            let head = expr_well_formed(condition) && stmt_well_formed(block);
            match elseblock {
                Option::Some(eb) => head && stmt_well_formed(eb) && ilines.1.is_some(),
                Option::None => head,
            }
        }
        Stmt::Var { name, value } => match value {
            Option::Some(e) => expr_well_formed(e),
            Option::None => true,
        },
        Stmt::While { condition, block, line } => expr_well_formed(condition) && stmt_well_formed(
            block,
        ),
        Stmt::For { identifier, iterable, block, line } => expr_well_formed(iterable)
            && stmt_well_formed(block),
        Stmt::FnDecl { name, params, body } => stmt_well_formed(body),
        Stmt::Return(e, line) => match e {
            Option::Some(e0) => expr_well_formed(e0),
            Option::None => true,
        },
    }
}

/// Decide whether a literal value can be lowered.
pub fn value_well_formed(v: &Value) -> (r: bool)
    ensures
        r == wf_value(*v),
    decreases v, 3int,
{
    match v {
        Value::Str { string, printables } => exprs_well_formed(printables),
        _ => true,
    }
}

/// Decide whether every expression of a list is well-formed.
#[verifier::loop_isolation(false)]
pub fn exprs_well_formed(exprs: &Vec<Expr>) -> (r: bool)
    ensures
        r == wf_exprs(exprs@),
    decreases exprs@, 1int,
{
    let mut ok = true;
    let mut i: usize = 0;
    while i < exprs.len()
        invariant
            0 <= i <= exprs@.len(),
            ok == (forall|j: int| 0 <= j < i ==> wf_expr(#[trigger] exprs@[j])),
        decreases exprs@.len() - i,
    {
        proof {
            assert(decreases_to!(exprs@ => exprs@[i as int]));
        }
        if !expr_well_formed(&exprs[i]) {
            ok = false;
        }
        i = i + 1;
    }
    proof {
        lemma_wf_exprs_each(exprs@);
    }
    ok
}

/// Decide whether one expression is in the shape the parser promises.
pub fn expr_well_formed(expr: &Expr) -> (r: bool)
    ensures
        r == wf_expr(*expr),
    decreases expr, 2int,
{
    match expr {
        Expr::Assign { name, value } => expr_well_formed(value),
        Expr::Binary { left, operator, right } => token_is_binary(operator.tt) && expr_well_formed(
            left,
        ) && expr_well_formed(right),
        Expr::Call { callee, arguments, native } => {
            let plain = match &**callee {
                Expr::Variable(t) => true,
                _ => false,
            };
            plain && exprs_well_formed(arguments)
        }
        Expr::Grouping(inner) => expr_well_formed(inner),
        Expr::Literal(v, line) => value_well_formed(v),
        Expr::Unary { operator, expression } => token_is_unary(operator.tt) && expr_well_formed(
            expression,
        ),
        Expr::Variable(t) => true,
        Expr::Range { min, max, step, line } => {
            let head = expr_well_formed(min) && expr_well_formed(max);
            match step {
                Option::Some(st) => head && expr_well_formed(st),
                Option::None => head,
            }
        }
        Expr::ListLit(items) => exprs_well_formed(items),
    }
}

/// Append one compiled fragment onto the program built so far.
pub fn dump(main: &mut Vec<OpCode>, lines: &mut Vec<usize>, se: (Vec<OpCode>, Vec<usize>))
    ensures
        final(main)@ == old(main)@ + se.0@,
        final(lines)@ == old(lines)@ + se.1@,
{
    let (mut c, mut l) = se;
    main.append(&mut c);
    lines.append(&mut l);
}

/// The binary opcode for an operator token.
pub fn bin(operator: TokenType) -> (r: OpCode)
    requires
        is_binary_op(operator),
    ensures
        op_view(r) == sp_bin(operator),
{
    match operator {
        TokenType::Plus => OpCode::Add,
        TokenType::Minus => OpCode::Subtract,
        TokenType::Star => OpCode::Multiply,
        TokenType::Slash => OpCode::Divide,
        TokenType::Modulo => OpCode::Modulo,
        TokenType::EqualEqual => OpCode::EqualEqual,
        TokenType::BangEqual => OpCode::NotEqual,
        TokenType::Less => OpCode::Less,
        TokenType::LessEqual => OpCode::LessEqual,
        TokenType::Greater => OpCode::Greater,
        TokenType::GreaterEqual => OpCode::GreaterEqual,
        TokenType::And => OpCode::LogicalAnd,
        _ => OpCode::LogicalOr,
    }
}

/// The unary opcode for an operator token.
pub fn un(operator: TokenType) -> (r: OpCode)
    requires
        is_unary_op(operator),
    ensures
        op_view(r) == sp_un(operator),
{
    match operator {
        TokenType::Minus => OpCode::Negate,
        _ => OpCode::LogicalNot,
    }
}

/// Compile a whole program: the lowering of its statements followed by one
/// end-of-stream marker, with `code[i]` and `lines[i]` always describing
/// the same instruction.
pub fn compile(stmts: &Vec<Stmt>) -> (r: (Vec<OpCode>, Vec<usize>))
    requires
        wf_stmts(stmts@),
    ensures
        ops_view(r.0@) == sp_stmts(stmts@).0.push(OpCodeV::Eof),
        r.1@ == sp_stmts(stmts@).1.push(0usize),
        r.0@.len() == r.1@.len(),
    decreases stmts@, 2int,
{
    let (mut code, mut lines) = compile_stmts(stmts);
    code.push(OpCode::Eof);
    lines.push(0);
    proof {
        lemma_sp_stmts_shape(stmts@);
        assert(ops_view(code@) =~= sp_stmts(stmts@).0.push(OpCodeV::Eof));
    }
    (code, lines)
}

/// Compile a statement list without the trailing end-of-stream marker.
#[verifier::loop_isolation(false)]
pub fn compile_stmts(stmts: &Vec<Stmt>) -> (r: (Vec<OpCode>, Vec<usize>))
    requires
        wf_stmts(stmts@),
    ensures
        ops_view(r.0@) == sp_stmts(stmts@).0,
        r.1@ == sp_stmts(stmts@).1,
    decreases stmts@, 1int,
{
    let mut code: Vec<OpCode> = Vec::new();
    let mut lines: Vec<usize> = Vec::new();
    let mut i: usize = 0;
    proof {
        assert(stmts@.take(0) =~= Seq::<Stmt>::empty());
    }
    while i < stmts.len()
        invariant
            0 <= i <= stmts@.len(),
            ops_view(code@) =~= sp_stmts(stmts@.take(i as int)).0,
            lines@ =~= sp_stmts(stmts@.take(i as int)).1,
        decreases stmts@.len() - i,
    {
        proof {
            lemma_wf_stmts_index(stmts@, i as int);
            assert(decreases_to!(stmts@ => stmts@[i as int]));
        }
        let piece = compile_stmt(&stmts[i]);
        dump(&mut code, &mut lines, piece);
        proof {
            lemma_sp_stmts_snoc(stmts@, i as int);
            assert(ops_view(code@) =~= sp_stmts(stmts@.take(i + 1)).0);
        }
        i = i + 1;
    }
    proof {
        assert(stmts@.take(stmts@.len() as int) =~= stmts@);
    }
    (code, lines)
}

/// Compile one statement.
#[verifier::rlimit(100)]
pub fn compile_stmt(stmt: &Stmt) -> (r: (Vec<OpCode>, Vec<usize>))
    requires
        wf_stmt(*stmt),
    ensures
        ops_view(r.0@) == sp_stmt(*stmt).0,
        r.1@ == sp_stmt(*stmt).1,
    decreases stmt, 2int,
{
    let mut code: Vec<OpCode> = Vec::new();
    let mut lines: Vec<usize> = Vec::new();
    match stmt {
        Stmt::Print(x, line) => {
            match x {
                Value::Str { string, printables } => {
                    proof {
                        assert(wf_value(*x));
                        assert(wf_exprs(printables@));
                    }
                    let ps = compile_exprs(printables);
                    dump(&mut code, &mut lines, ps);
                    code.push(OpCode::Constant(Value::Str {
                        string: string.clone(),
                        printables: Vec::new(),
                    }));
                    lines.push(*line);
                }
                _ => {
                    code.push(OpCode::Constant(x.duplicate()));
                    lines.push(*line);
                }
            }
            code.push(OpCode::Print);
            lines.push(*line);
            proof {
                assert(ops_view(code@) =~= sp_stmt(*stmt).0);
                assert(lines@ =~= sp_stmt(*stmt).1);
            }
        }
        Stmt::Block(stmts, blines) => {
            code.push(OpCode::Scope);
            lines.push(blines.0);
            let inner = compile_stmts(stmts);
            dump(&mut code, &mut lines, inner);
            code.push(OpCode::EndScope);
            lines.push(blines.1);
            proof {
                assert(ops_view(code@) =~= sp_stmt(*stmt).0);
                assert(lines@ =~= sp_stmt(*stmt).1);
            }
        }
        Stmt::Expression(e) => {
            let piece = compile_expr(e);
            dump(&mut code, &mut lines, piece);
            proof {
                assert(ops_view(code@) =~= sp_stmt(*stmt).0);
            }
        }
        Stmt::If { condition, block, elseblock, lines: ilines } => {
            let c = compile_expr(condition);
            dump(&mut code, &mut lines, c);
            code.push(OpCode::LogicalNot);
            lines.push(ilines.0);
            let blok = compile_stmt(block);
            code.push(OpCode::JumpIf(blok.0.len() as i128, elseblock.is_none()));
            lines.push(ilines.0);
            dump(&mut code, &mut lines, blok);
            match elseblock {
                Option::Some(eb) => {
                    let el = match ilines.1 {
                        Option::Some(l) => l,
                        Option::None => 0,
                    };
                    code.push(OpCode::LogicalNot);
                    lines.push(el);
                    let eblok = compile_stmt(eb);
                    code.push(OpCode::JumpIf(eblok.0.len() as i128, true));
                    lines.push(el);
                    dump(&mut code, &mut lines, eblok);
                }
                Option::None => {}
            }
            proof {
                assert(ops_view(code@) =~= sp_stmt(*stmt).0);
                assert(lines@ =~= sp_stmt(*stmt).1);
            }
        }
        Stmt::Var { name, value } => {
            match value {
                Option::Some(e) => {
                    let init = compile_expr(e);
                    dump(&mut code, &mut lines, init);
                }
                Option::None => {
                    code.push(OpCode::Constant(Value::Nil));
                    lines.push(name.line);
                }
            }
            code.push(OpCode::Store(name.lexeme.clone()));
            lines.push(name.line);
            proof {
                assert(ops_view(code@) =~= sp_stmt(*stmt).0);
                assert(lines@ =~= sp_stmt(*stmt).1);
            }
        }
        Stmt::While { condition, block, line } => {
            let c = compile_expr(condition);
            let con_len = c.0.len();
            dump(&mut code, &mut lines, c);
            code.push(OpCode::LogicalNot);
            lines.push(*line);
            let blok = compile_stmt(block);
            let block_len = blok.0.len();
            code.push(OpCode::JumpIf((block_len as i128) + 1, true));
            lines.push(*line);
            dump(&mut code, &mut lines, blok);
            code.push(OpCode::Jump(-((block_len as i128) + (con_len as i128) + 3)));
            lines.push(*line);
            proof {
                assert(ops_view(code@) =~= sp_stmt(*stmt).0);
                assert(lines@ =~= sp_stmt(*stmt).1);
            }
        }
        Stmt::For { identifier, iterable, block, line } => {
            let it = compile_expr(iterable);
            dump(&mut code, &mut lines, it);
            code.push(OpCode::For);
            lines.push(*line);
            code.push(OpCode::Scope);
            lines.push(*line);
            code.push(OpCode::Store(identifier.lexeme.clone()));
            lines.push(*line);
            let mut blok = compile_stmt(block);
            proof {
                lemma_sp_stmt_shape(**block);
            }
            let bl = blok.0.len();
            blok.0.remove(0);
            blok.1.remove(0);
            code.push(OpCode::JumpIf(bl as i128, true));
            lines.push(*line);
            dump(&mut code, &mut lines, blok);
            code.push(OpCode::Jump(-((bl as i128) + 4)));
            lines.push(*line);
            proof {
                assert(ops_view(code@) =~= sp_stmt(*stmt).0);
                assert(lines@ =~= sp_stmt(*stmt).1);
            }
        }
        Stmt::FnDecl { name, params, body } => {
            code.push(OpCode::FnDef);
            lines.push(name.line);
            let mut i: usize = 0;
            proof {
                assert(ops_view(code@) =~= seq![OpCodeV::FnDef] + param_stores(params@.take(0)));
            }
            while i < params.len()
                invariant
                    0 <= i <= params@.len(),
                    ops_view(code@) =~= seq![OpCodeV::FnDef] + param_stores(params@.take(i as int)),
                    lines@ =~= seq![name.line] + Seq::new(i as nat, |k: int| name.line),
                decreases params@.len() - i,
            {
                let ghost prev_code = code@;
                let ghost prev_lines = lines@;
                code.push(OpCode::Store(params[i].lexeme.clone()));
                lines.push(name.line);
                proof {
                    assert(code@ == prev_code.push(OpCode::Store(params@[i as int].lexeme)));
                    assert(param_stores(params@.take(i + 1)) =~= param_stores(
                        params@.take(i as int),
                    ).push(OpCodeV::Store(params@[i as int].lexeme@)));
                    assert(Seq::new((i + 1) as nat, |k: int| name.line) =~= Seq::new(
                        i as nat,
                        |k: int| name.line,
                    ).push(name.line));
                    assert(ops_view(code@) =~= ops_view(prev_code).push(
                        OpCodeV::Store(params@[i as int].lexeme@),
                    ));
                    assert(ops_view(code@) =~= seq![OpCodeV::FnDef] + param_stores(
                        params@.take(i + 1),
                    ));
                    assert(lines@ =~= seq![name.line] + Seq::new((i + 1) as nat, |k: int| name.line));
                }
                i = i + 1;
            }
            proof {
                assert(params@.take(params@.len() as int) =~= params@);
            }
            let blok = compile_stmt(body);
            dump(&mut code, &mut lines, blok);
            code.push(OpCode::Store(name.lexeme.clone()));
            lines.push(name.line);
            proof {
                assert(ops_view(code@) =~= sp_stmt(*stmt).0);
                assert(lines@ =~= sp_stmt(*stmt).1);
            }
        }
        Stmt::Return(e, line) => {
            match e {
                Option::Some(e0) => {
                    let v = compile_expr(e0);
                    dump(&mut code, &mut lines, v);
                    code.push(OpCode::Return(true));
                    lines.push(*line);
                }
                Option::None => {
                    code.push(OpCode::Return(false));
                    lines.push(*line);
                }
            }
            proof {
                assert(ops_view(code@) =~= sp_stmt(*stmt).0);
                assert(lines@ =~= sp_stmt(*stmt).1);
            }
        }
    }
    (code, lines)
}

/// Compile a list of expressions, left to right.
#[verifier::loop_isolation(false)]
pub fn compile_exprs(exprs: &Vec<Expr>) -> (r: (Vec<OpCode>, Vec<usize>))
    requires
        wf_exprs(exprs@),
    ensures
        ops_view(r.0@) == sp_exprs(exprs@).0,
        r.1@ == sp_exprs(exprs@).1,
    decreases exprs@, 1int,
{
    let mut code: Vec<OpCode> = Vec::new();
    let mut lines: Vec<usize> = Vec::new();
    let mut i: usize = 0;
    proof {
        assert(exprs@.take(0) =~= Seq::<Expr>::empty());
    }
    while i < exprs.len()
        invariant
            0 <= i <= exprs@.len(),
            ops_view(code@) =~= sp_exprs(exprs@.take(i as int)).0,
            lines@ =~= sp_exprs(exprs@.take(i as int)).1,
        decreases exprs@.len() - i,
    {
        proof {
            lemma_wf_exprs_index(exprs@, i as int);
            assert(decreases_to!(exprs@ => exprs@[i as int]));
        }
        let piece = compile_expr(&exprs[i]);
        dump(&mut code, &mut lines, piece);
        proof {
            lemma_sp_exprs_snoc(exprs@, i as int);
            assert(ops_view(code@) =~= sp_exprs(exprs@.take(i + 1)).0);
        }
        i = i + 1;
    }
    proof {
        assert(exprs@.take(exprs@.len() as int) =~= exprs@);
    }
    (code, lines)
}

/// Compile one expression to post-order stack code.
#[verifier::rlimit(100)]
pub fn compile_expr(expr: &Expr) -> (r: (Vec<OpCode>, Vec<usize>))
    requires
        wf_expr(*expr),
    ensures
        ops_view(r.0@) == sp_expr(*expr).0,
        r.1@ == sp_expr(*expr).1,
    decreases expr, 2int,
{
    let mut code: Vec<OpCode> = Vec::new();
    let mut lines: Vec<usize> = Vec::new();
    match expr {
        Expr::Assign { name, value } => {
            let v = compile_expr(value);
            dump(&mut code, &mut lines, v);
            code.push(OpCode::Store(name.lexeme.clone()));
            lines.push(name.line);
            proof {
                assert(ops_view(code@) =~= sp_expr(*expr).0);
                assert(lines@ =~= sp_expr(*expr).1);
            }
        }
        Expr::Binary { left, operator, right } => {
            let l = compile_expr(left);
            dump(&mut code, &mut lines, l);
            let r0 = compile_expr(right);
            dump(&mut code, &mut lines, r0);
            code.push(bin(operator.tt));
            lines.push(operator.line);
            proof {
                assert(ops_view(code@) =~= sp_expr(*expr).0);
                assert(lines@ =~= sp_expr(*expr).1);
            }
        }
        Expr::Call { callee, arguments, native } => {
            let args = compile_exprs(arguments);
            dump(&mut code, &mut lines, args);
            let count = arguments.len();
            match &**callee {
                Expr::Variable(t) => {
                    if *native {
                        code.push(OpCode::NativeCall(t.lexeme.clone(), count));
                    } else {
                        code.push(OpCode::Call(t.lexeme.clone()));
                    }
                    lines.push(t.line);
                }
                _ => {
                    // never reached: a well-formed call's callee is a
                    // plain name
                    proof {
                        assert(false);
                    }
                }
            }
            proof {
                assert(ops_view(code@) =~= sp_expr(*expr).0);
                assert(lines@ =~= sp_expr(*expr).1);
            }
        }
        Expr::Grouping(inner) => {
            let piece = compile_expr(inner);
            dump(&mut code, &mut lines, piece);
            proof {
                assert(ops_view(code@) =~= sp_expr(*expr).0);
            }
        }
        Expr::Literal(v, line) => {
            match v {
                Value::Str { string, printables } => {
                    proof {
                        assert(wf_value(*v));
                        assert(wf_exprs(printables@));
                    }
                    let ps = compile_exprs(printables);
                    dump(&mut code, &mut lines, ps);
                    code.push(OpCode::Constant(Value::Str {
                        string: string.clone(),
                        printables: Vec::new(),
                    }));
                    lines.push(*line);
                }
                _ => {
                    code.push(OpCode::Constant(v.duplicate()));
                    lines.push(*line);
                }
            }
            proof {
                assert(ops_view(code@) =~= sp_expr(*expr).0);
                assert(lines@ =~= sp_expr(*expr).1);
            }
        }
        Expr::Unary { operator, expression } => {
            let inner = compile_expr(expression);
            dump(&mut code, &mut lines, inner);
            code.push(un(operator.tt));
            lines.push(operator.line);
            proof {
                assert(ops_view(code@) =~= sp_expr(*expr).0);
                assert(lines@ =~= sp_expr(*expr).1);
            }
        }
        Expr::Variable(t) => {
            code.push(OpCode::Load(t.lexeme.clone()));
            lines.push(t.line);
            proof {
                assert(ops_view(code@) =~= sp_expr(*expr).0);
                assert(lines@ =~= sp_expr(*expr).1);
            }
        }
        Expr::Range { min, max, step, line } => {
            let lo = compile_expr(min);
            dump(&mut code, &mut lines, lo);
            let hi = compile_expr(max);
            dump(&mut code, &mut lines, hi);
            match step {
                Option::Some(st) => {
                    let stc = compile_expr(st);
                    dump(&mut code, &mut lines, stc);
                    code.push(OpCode::Range(true));
                    lines.push(*line);
                }
                Option::None => {
                    code.push(OpCode::Range(false));
                    lines.push(*line);
                }
            }
            proof {
                assert(ops_view(code@) =~= sp_expr(*expr).0);
                assert(lines@ =~= sp_expr(*expr).1);
            }
        }
        Expr::ListLit(items) => {
            let el = compile_exprs(items);
            dump(&mut code, &mut lines, el);
            code.push(OpCode::Iterable(items.len()));
            lines.push(0);
            proof {
                assert(ops_view(code@) =~= sp_expr(*expr).0);
                assert(lines@ =~= sp_expr(*expr).1);
            }
        }
    }
    (code, lines)
}

} // verus!
