//! Abstract syntax of the SysY subset, its mathematical view, and constant
//! folding.
use vstd::prelude::*;

use crate::error::{CompileError, Fault, rview};
pub use crate::symtable::{ScopeEntry, SymTable};
use crate::symtable::lookup;
use crate::ir::Value;

verus! {

pub struct CompUnit {
    pub func_def: FuncDef,
}

pub struct FuncDef {
    pub func_type: FuncType,
    pub ident: String,
    pub block: Block,
    pub symtable: SymTable,
}

#[derive(Clone, Copy, PartialEq, Eq, Structural, Debug)]
pub enum FuncType {
    Void,
    Int,
}

#[derive(Debug)]
pub struct Block {
    pub items: Vec<BlockItem>,
}

#[derive(Debug)]
pub enum BlockItem {
    Decl(Decl),
    Stmt(Stmt),
}

#[derive(Debug)]
pub enum Decl {
    ConstDecl(ConstDecl),
    VarDecl(VarDecl),
}

#[derive(Clone, Copy, PartialEq, Eq, Structural, Debug)]
pub enum BType {
    Int,
}

#[derive(Debug)]
pub struct ConstDecl {
    pub btype: BType,
    pub defs: Vec<ConstDef>,
}

#[derive(Debug)]
pub struct ConstDef {
    pub ident: String,
    pub init_val: ConstInitVal,
}

#[derive(Debug)]
pub enum ConstInitVal {
    Exp(ConstExp),
}

#[derive(Debug)]
pub struct ConstExp {
    pub exp: Exp,
}

#[derive(Debug)]
pub struct VarDecl {
    pub btype: BType,
    pub defs: Vec<VarDef>,
}

#[allow(non_camel_case_types)]
#[derive(Debug)]
pub enum VarDef {
    IDENT(String),
    IDENTInitVal(String, InitVal),
}

#[derive(Debug)]
pub struct InitVal {
    pub exp: Exp,
}

#[derive(Debug)]
pub enum Stmt {
    Return(Exp),
    Assign(LVal, Exp),
    ExprStmt(Option<Exp>),
    Block(Block),
}

#[derive(Debug)]
pub struct Exp {
    pub lorexp: LOrExp,
}

#[derive(Debug)]
pub enum UnaryExp {
    Primary(PrimaryExp),
    Unary(UnaryOp, Box<UnaryExp>),
}

#[derive(Clone, Copy, PartialEq, Eq, Structural, Debug)]
pub enum UnaryOp {
    Pos,
    Neg,
    Not,
}

#[derive(Debug)]
pub struct LVal {
    pub ident: String,
}

#[derive(Debug)]
pub enum PrimaryExp {
    Exp(Box<Exp>),
    LVal(LVal),
    Number(i32),
}

#[derive(Debug)]
pub enum AddExp {
    Mul(MulExp),
    Add(Box<AddExp>, MulExp),
    Sub(Box<AddExp>, MulExp),
}

#[derive(Debug)]
pub enum MulExp {
    Unary(UnaryExp),
    Mul(Box<MulExp>, UnaryExp),
    Div(Box<MulExp>, UnaryExp),
    Mod(Box<MulExp>, UnaryExp),
}

#[derive(Debug)]
pub enum RelExp {
    Add(AddExp),
    Lt(Box<RelExp>, AddExp),
    Gt(Box<RelExp>, AddExp),
    Le(Box<RelExp>, AddExp),
    Ge(Box<RelExp>, AddExp),
}

#[derive(Debug)]
pub enum EqExp {
    Rel(RelExp),
    Eq(Box<EqExp>, RelExp),
    Ne(Box<EqExp>, RelExp),
}

#[derive(Debug)]
pub enum LAndExp {
    Eq(EqExp),
    And(Box<LAndExp>, EqExp),
}

#[derive(Debug)]
pub enum LOrExp {
    And(LAndExp),
    Or(Box<LOrExp>, LAndExp),
}

// ---------------------------------------------------------------------------
// The mathematical view of expressions: the precedence levels of the grammar
// collapse into one tree.
// ---------------------------------------------------------------------------

/// The binary operators of source expressions.
#[derive(Clone, Copy, PartialEq, Eq, Structural, Debug)]
pub enum ExpOp {
    Add,
    Sub,
    Mul,
    Div,
    Mod,
    Lt,
    Gt,
    Le,
    Ge,
    Eq,
    Ne,
    And,
    Or,
}

/// An expression as a tree.
pub enum Expr {
    Num(i32),
    Name(Seq<char>),
    Unary(UnaryOp, Box<Expr>),
    Binary(ExpOp, Box<Expr>, Box<Expr>),
}

impl Exp {
    pub open spec fn to_expr(&self) -> Expr
        decreases self,
    {
        self.lorexp.to_expr()
    }
}

impl LOrExp {
    pub open spec fn to_expr(&self) -> Expr
        decreases self,
    {
        match self {
            LOrExp::And(e) => e.to_expr(),
            LOrExp::Or(l, r) => Expr::Binary(ExpOp::Or, Box::new(l.to_expr()), Box::new(r.to_expr())),
        }
    }
}

impl LAndExp {
    pub open spec fn to_expr(&self) -> Expr
        decreases self,
    {
        match self {
            LAndExp::Eq(e) => e.to_expr(),
            LAndExp::And(l, r) => Expr::Binary(ExpOp::And, Box::new(l.to_expr()), Box::new(r.to_expr())),
        }
    }
}

impl EqExp {
    pub open spec fn to_expr(&self) -> Expr
        decreases self,
    {
        match self {
            EqExp::Rel(e) => e.to_expr(),
            EqExp::Eq(l, r) => Expr::Binary(ExpOp::Eq, Box::new(l.to_expr()), Box::new(r.to_expr())),
            EqExp::Ne(l, r) => Expr::Binary(ExpOp::Ne, Box::new(l.to_expr()), Box::new(r.to_expr())),
        }
    }
}

impl RelExp {
    pub open spec fn to_expr(&self) -> Expr
        decreases self,
    {
        match self {
            RelExp::Add(e) => e.to_expr(),
            RelExp::Lt(l, r) => Expr::Binary(ExpOp::Lt, Box::new(l.to_expr()), Box::new(r.to_expr())),
            RelExp::Gt(l, r) => Expr::Binary(ExpOp::Gt, Box::new(l.to_expr()), Box::new(r.to_expr())),
            RelExp::Le(l, r) => Expr::Binary(ExpOp::Le, Box::new(l.to_expr()), Box::new(r.to_expr())),
            RelExp::Ge(l, r) => Expr::Binary(ExpOp::Ge, Box::new(l.to_expr()), Box::new(r.to_expr())),
        }
    }
}

impl AddExp {
    pub open spec fn to_expr(&self) -> Expr
        decreases self,
    {
        match self {
            AddExp::Mul(e) => e.to_expr(),
            AddExp::Add(l, r) => Expr::Binary(ExpOp::Add, Box::new(l.to_expr()), Box::new(r.to_expr())),
            AddExp::Sub(l, r) => Expr::Binary(ExpOp::Sub, Box::new(l.to_expr()), Box::new(r.to_expr())),
        }
    }
}

impl MulExp {
    pub open spec fn to_expr(&self) -> Expr
        decreases self,
    {
        match self {
            MulExp::Unary(e) => e.to_expr(),
            MulExp::Mul(l, r) => Expr::Binary(ExpOp::Mul, Box::new(l.to_expr()), Box::new(r.to_expr())),
            MulExp::Div(l, r) => Expr::Binary(ExpOp::Div, Box::new(l.to_expr()), Box::new(r.to_expr())),
            MulExp::Mod(l, r) => Expr::Binary(ExpOp::Mod, Box::new(l.to_expr()), Box::new(r.to_expr())),
        }
    }
}

impl UnaryExp {
    pub open spec fn to_expr(&self) -> Expr
        decreases self,
    {
        match self {
            UnaryExp::Primary(p) => p.to_expr(),
            UnaryExp::Unary(op, e) => Expr::Unary(*op, Box::new(e.to_expr())),
        }
    }
}

impl PrimaryExp {
    pub open spec fn to_expr(&self) -> Expr
        decreases self,
    {
        match self {
            PrimaryExp::Exp(e) => e.to_expr(),
            PrimaryExp::LVal(l) => Expr::Name(l.ident@),
            PrimaryExp::Number(n) => Expr::Num(*n),
        }
    }
}

// ---------------------------------------------------------------------------
// Constant folding.
// ---------------------------------------------------------------------------

/// Quotient of `a` by `b`, rounded toward zero.
pub open spec fn trunc_div(a: int, b: int) -> int {
    let q = (if a < 0 { -a } else { a }) / (if b < 0 { -b } else { b });
    if (a < 0) != (b < 0) { -q } else { q }
}

/// Remainder of `a` by `b` that has the sign of `a`.
pub open spec fn trunc_rem(a: int, b: int) -> int {
    let m = (if a < 0 { -a } else { a }) % (if b < 0 { -b } else { b });
    if a < 0 { -m } else { m }
}

/// Whether `x` is representable as an `i32`.
pub open spec fn in_i32(x: int) -> bool {
    i32::MIN <= x <= i32::MAX
}

/// `x` as an `i32`, or an overflow.
pub open spec fn checked(x: int) -> Result<i32, Fault> {
    if in_i32(x) { Ok(x as i32) } else { Err(Fault::Overflow) }
}

/// `1` for true, `0` for false.
pub open spec fn truth(b: bool) -> i32 {
    if b { 1 } else { 0 }
}

/// The value of a unary operator applied to `v`.
pub open spec fn fold_unary(op: UnaryOp, v: i32) -> Result<i32, Fault> {
    match op {
        UnaryOp::Pos => Ok(v),
        UnaryOp::Neg => checked(-v),
        UnaryOp::Not => Ok(truth(v == 0)),
    }
}

/// The value of a binary operator applied to `l` and `r`.
pub open spec fn fold_binary(op: ExpOp, l: i32, r: i32) -> Result<i32, Fault> {
    match op {
        ExpOp::Add => checked(l + r),
        ExpOp::Sub => checked(l - r),
        ExpOp::Mul => checked(l * r),
        ExpOp::Div => if r == 0 { Err(Fault::DivideByZero) } else { checked(trunc_div(l as int, r as int)) },
        ExpOp::Mod => if r == 0 {
            Err(Fault::DivideByZero)
        } else if l == i32::MIN && r == -1 {
            Err(Fault::Overflow)
        } else {
            Ok(trunc_rem(l as int, r as int) as i32)
        },
        ExpOp::Lt => Ok(truth(l < r)),
        ExpOp::Gt => Ok(truth(l > r)),
        ExpOp::Le => Ok(truth(l <= r)),
        ExpOp::Ge => Ok(truth(l >= r)),
        ExpOp::Eq => Ok(truth(l == r)),
        ExpOp::Ne => Ok(truth(l != r)),
        ExpOp::And => Ok(truth(l != 0 && r != 0)),
        ExpOp::Or => Ok(truth(l != 0 || r != 0)),
    }
}

/// The compile-time value of `e`: `Ok(Some(v))` when it folds to `v`,
/// `Ok(None)` when it reads a variable whose value is not known, and an
/// error when it names an undeclared variable or folding fails.  Operands
/// are folded left to right, and folding stops at the first operand without
/// a value.
pub open spec fn eval(e: Expr, scopes: Seq<Map<Seq<char>, ScopeEntry>>, cache: Map<Value, i32>) -> Result<Option<i32>, Fault>
    decreases e,
{
    match e {
        Expr::Num(n) => Ok(Some(n)),
        Expr::Name(name) => match lookup(scopes, name) {
            None => Err(Fault::UndefinedVariable(name)),
            Some(ScopeEntry::Const(c)) => Ok(Some(c)),
            Some(ScopeEntry::Var(a)) => Ok(if cache.contains_key(a) { Some(cache[a]) } else { None }),
        },
        Expr::Unary(op, x) => match eval(*x, scopes, cache) {
            Ok(Some(v)) => match fold_unary(op, v) {
                Ok(r) => Ok(Some(r)),
                Err(f) => Err(f),
            },
            other => other,
        },
        Expr::Binary(op, l, r) => match eval(*l, scopes, cache) {
            Ok(Some(a)) => match eval(*r, scopes, cache) {
                Ok(Some(b)) => match fold_binary(op, a, b) {
                    Ok(v) => Ok(Some(v)),
                    Err(f) => Err(f),
                },
                other => other,
            },
            other => other,
        },
    }
}

/// The compile-time value of `e` under the table `st`.
pub open spec fn eval_in(e: Expr, st: &SymTable) -> Result<Option<i32>, Fault> {
    eval(e, st.scopes(), st.cache())
}

/// Applies a unary operator to a folded value.
pub fn fold_unary_exec(op: UnaryOp, v: i32) -> (r: Result<i32, CompileError>)
    ensures
        rview(r) == fold_unary(op, v),
{
    match op {
        UnaryOp::Pos => Ok(v),
        UnaryOp::Neg => if v == i32::MIN {
            Err(CompileError::Overflow)
        } else {
            Ok(-v)
        },
        UnaryOp::Not => Ok(if v == 0 { 1 } else { 0 }),
    }
}

/// Applies a binary operator to two folded values.
pub fn fold_binary_exec(op: ExpOp, l: i32, r: i32) -> (res: Result<i32, CompileError>)
    ensures
        rview(res) == fold_binary(op, l, r),
{
    match op {
        ExpOp::Add => match l.checked_add(r) {
            Some(x) => Ok(x),
            None => Err(CompileError::Overflow),
        },
        ExpOp::Sub => match l.checked_sub(r) {
            Some(x) => Ok(x),
            None => Err(CompileError::Overflow),
        },
        ExpOp::Mul => match l.checked_mul(r) {
            Some(x) => Ok(x),
            None => Err(CompileError::Overflow),
        },
        ExpOp::Div => {
            if r == 0 {
                Err(CompileError::DivideByZero)
            } else {
                match l.checked_div(r) {
                    Some(x) => Ok(x),
                    None => Err(CompileError::Overflow),
                }
            }
        },
        ExpOp::Mod => {
            if r == 0 {
                Err(CompileError::DivideByZero)
            } else {
                match l.checked_rem(r) {
                    Some(x) => Ok(x),
                    None => Err(CompileError::Overflow),
                }
            }
        },
        ExpOp::Lt => Ok(if l < r { 1 } else { 0 }),
        ExpOp::Gt => Ok(if l > r { 1 } else { 0 }),
        ExpOp::Le => Ok(if l <= r { 1 } else { 0 }),
        ExpOp::Ge => Ok(if l >= r { 1 } else { 0 }),
        ExpOp::Eq => Ok(if l == r { 1 } else { 0 }),
        ExpOp::Ne => Ok(if l != r { 1 } else { 0 }),
        ExpOp::And => Ok(if l != 0 && r != 0 { 1 } else { 0 }),
        ExpOp::Or => Ok(if l != 0 || r != 0 { 1 } else { 0 }),
    }
}

/// Folds `op` over two operands already folded: the result when both have a
/// value.
fn fold_pair(op: ExpOp, l: i32, r: i32) -> (res: Result<Option<i32>, CompileError>)
    ensures
        rview(res) == (match fold_binary(op, l, r) {
            Ok(v) => Ok(Some(v)),
            Err(f) => Err::<Option<i32>, Fault>(f),
        }),
{
    match fold_binary_exec(op, l, r) {
        Ok(v) => Ok(Some(v)),
        Err(e) => Err(e),
    }
}

impl Exp {
    /// The compile-time value of the expression.
    pub fn evaluate(&self, symtable: &SymTable) -> (r: Result<Option<i32>, CompileError>)
        ensures
            rview(r) == eval_in(self.to_expr(), symtable),
        decreases self,
    {
        self.lorexp.evaluate(symtable)
    }
}

impl ConstExp {
    /// The compile-time value of the expression.
    pub fn evaluate(&self, symtable: &SymTable) -> (r: Result<Option<i32>, CompileError>)
        ensures
            rview(r) == eval_in(self.exp.to_expr(), symtable),
    {
        self.exp.evaluate(symtable)
    }
}

impl ConstInitVal {
    /// The expression of the initializer.
    pub open spec fn to_expr(&self) -> Expr {
        match self {
            ConstInitVal::Exp(e) => e.exp.to_expr(),
        }
    }

    /// The compile-time value of the initializer.
    pub fn evaluate(&self, symtable: &SymTable) -> (r: Result<Option<i32>, CompileError>)
        ensures
            rview(r) == eval_in(self.to_expr(), symtable),
    {
        match self {
            ConstInitVal::Exp(exp) => exp.evaluate(symtable),
        }
    }
}

impl InitVal {
    /// The compile-time value of the initializer.
    pub fn evaluate(&self, symtable: &SymTable) -> (r: Result<Option<i32>, CompileError>)
        ensures
            rview(r) == eval_in(self.exp.to_expr(), symtable),
    {
        self.exp.evaluate(symtable)
    }
}

impl UnaryExp {
    /// The compile-time value of the expression.
    pub fn evaluate(&self, symtable: &SymTable) -> (r: Result<Option<i32>, CompileError>)
        ensures
            rview(r) == eval_in(self.to_expr(), symtable),
        decreases self,
    {
        match self {
            UnaryExp::Primary(primary) => primary.evaluate(symtable),
            UnaryExp::Unary(op, unary) => {
                let val = match unary.evaluate(symtable) {
                    Ok(Some(v)) => v,
                    other => return other,
                };
                match fold_unary_exec(*op, val) {
                    Ok(v) => Ok(Some(v)),
                    Err(e) => Err(e),
                }
            },
        }
    }
}

impl PrimaryExp {
    /// The compile-time value of the expression.
    pub fn evaluate(&self, symtable: &SymTable) -> (r: Result<Option<i32>, CompileError>)
        ensures
            rview(r) == eval_in(self.to_expr(), symtable),
        decreases self,
    {
        match self {
            PrimaryExp::Exp(exp) => exp.evaluate(symtable),
            PrimaryExp::LVal(lval) => match symtable.get(lval.ident.as_str()) {
                None => Err(CompileError::UndefinedVariable(lval.ident.clone())),
                Some(ScopeEntry::Const(c)) => Ok(Some(*c)),
                Some(ScopeEntry::Var(alloc)) => Ok(symtable.cache_get(*alloc)),
            },
            PrimaryExp::Number(n) => Ok(Some(*n)),
        }
    }
}

impl LOrExp {
    /// The compile-time value of the expression.
    pub fn evaluate(&self, symtable: &SymTable) -> (r: Result<Option<i32>, CompileError>)
        ensures
            rview(r) == eval_in(self.to_expr(), symtable),
        decreases self,
    {
        match self {
            LOrExp::And(inner) => inner.evaluate(symtable),
            LOrExp::Or(lhs, rhs) => {
                let l = match lhs.evaluate(symtable) {
                    Ok(Some(l)) => l,
                    other => return other,
                };
                let r = match rhs.evaluate(symtable) {
                    Ok(Some(r)) => r,
                    other => return other,
                };
                fold_pair(ExpOp::Or, l, r)
            },
        }
    }
}

impl LAndExp {
    /// The compile-time value of the expression.
    pub fn evaluate(&self, symtable: &SymTable) -> (r: Result<Option<i32>, CompileError>)
        ensures
            rview(r) == eval_in(self.to_expr(), symtable),
        decreases self,
    {
        match self {
            LAndExp::Eq(inner) => inner.evaluate(symtable),
            LAndExp::And(lhs, rhs) => {
                let l = match lhs.evaluate(symtable) {
                    Ok(Some(l)) => l,
                    other => return other,
                };
                let r = match rhs.evaluate(symtable) {
                    Ok(Some(r)) => r,
                    other => return other,
                };
                fold_pair(ExpOp::And, l, r)
            },
        }
    }
}

impl EqExp {
    /// The compile-time value of the expression.
    pub fn evaluate(&self, symtable: &SymTable) -> (r: Result<Option<i32>, CompileError>)
        ensures
            rview(r) == eval_in(self.to_expr(), symtable),
        decreases self,
    {
        match self {
            EqExp::Rel(inner) => inner.evaluate(symtable),
            EqExp::Eq(lhs, rhs) => {
                let l = match lhs.evaluate(symtable) {
                    Ok(Some(l)) => l,
                    other => return other,
                };
                let r = match rhs.evaluate(symtable) {
                    Ok(Some(r)) => r,
                    other => return other,
                };
                fold_pair(ExpOp::Eq, l, r)
            },
            EqExp::Ne(lhs, rhs) => {
                let l = match lhs.evaluate(symtable) {
                    Ok(Some(l)) => l,
                    other => return other,
                };
                let r = match rhs.evaluate(symtable) {
                    Ok(Some(r)) => r,
                    other => return other,
                };
                fold_pair(ExpOp::Ne, l, r)
            },
        }
    }
}

impl RelExp {
    /// The compile-time value of the expression.
    pub fn evaluate(&self, symtable: &SymTable) -> (r: Result<Option<i32>, CompileError>)
        ensures
            rview(r) == eval_in(self.to_expr(), symtable),
        decreases self,
    {
        match self {
            RelExp::Add(inner) => inner.evaluate(symtable),
            RelExp::Lt(lhs, rhs) => {
                let l = match lhs.evaluate(symtable) {
                    Ok(Some(l)) => l,
                    other => return other,
                };
                let r = match rhs.evaluate(symtable) {
                    Ok(Some(r)) => r,
                    other => return other,
                };
                fold_pair(ExpOp::Lt, l, r)
            },
            RelExp::Gt(lhs, rhs) => {
                let l = match lhs.evaluate(symtable) {
                    Ok(Some(l)) => l,
                    other => return other,
                };
                let r = match rhs.evaluate(symtable) {
                    Ok(Some(r)) => r,
                    other => return other,
                };
                fold_pair(ExpOp::Gt, l, r)
            },
            RelExp::Le(lhs, rhs) => {
                let l = match lhs.evaluate(symtable) {
                    Ok(Some(l)) => l,
                    other => return other,
                };
                let r = match rhs.evaluate(symtable) {
                    Ok(Some(r)) => r,
                    other => return other,
                };
                fold_pair(ExpOp::Le, l, r)
            },
            RelExp::Ge(lhs, rhs) => {
                let l = match lhs.evaluate(symtable) {
                    Ok(Some(l)) => l,
                    other => return other,
                };
                let r = match rhs.evaluate(symtable) {
                    Ok(Some(r)) => r,
                    other => return other,
                };
                fold_pair(ExpOp::Ge, l, r)
            },
        }
    }
}

impl AddExp {
    /// The compile-time value of the expression.
    pub fn evaluate(&self, symtable: &SymTable) -> (r: Result<Option<i32>, CompileError>)
        ensures
            rview(r) == eval_in(self.to_expr(), symtable),
        decreases self,
    {
        match self {
            AddExp::Mul(inner) => inner.evaluate(symtable),
            AddExp::Add(lhs, rhs) => {
                let l = match lhs.evaluate(symtable) {
                    Ok(Some(l)) => l,
                    other => return other,
                };
                let r = match rhs.evaluate(symtable) {
                    Ok(Some(r)) => r,
                    other => return other,
                };
                fold_pair(ExpOp::Add, l, r)
            },
            AddExp::Sub(lhs, rhs) => {
                let l = match lhs.evaluate(symtable) {
                    Ok(Some(l)) => l,
                    other => return other,
                };
                let r = match rhs.evaluate(symtable) {
                    Ok(Some(r)) => r,
                    other => return other,
                };
                fold_pair(ExpOp::Sub, l, r)
            },
        }
    }
}

impl MulExp {
    /// The compile-time value of the expression.
    pub fn evaluate(&self, symtable: &SymTable) -> (r: Result<Option<i32>, CompileError>)
        ensures
            rview(r) == eval_in(self.to_expr(), symtable),
        decreases self,
    {
        match self {
            MulExp::Unary(inner) => inner.evaluate(symtable),
            MulExp::Mul(lhs, rhs) => {
                let l = match lhs.evaluate(symtable) {
                    Ok(Some(l)) => l,
                    other => return other,
                };
                let r = match rhs.evaluate(symtable) {
                    Ok(Some(r)) => r,
                    other => return other,
                };
                fold_pair(ExpOp::Mul, l, r)
            },
            MulExp::Div(lhs, rhs) => {
                let l = match lhs.evaluate(symtable) {
                    Ok(Some(l)) => l,
                    other => return other,
                };
                let r = match rhs.evaluate(symtable) {
                    Ok(Some(r)) => r,
                    other => return other,
                };
                fold_pair(ExpOp::Div, l, r)
            },
            MulExp::Mod(lhs, rhs) => {
                let l = match lhs.evaluate(symtable) {
                    Ok(Some(l)) => l,
                    other => return other,
                };
                let r = match rhs.evaluate(symtable) {
                    Ok(Some(r)) => r,
                    other => return other,
                };
                fold_pair(ExpOp::Mod, l, r)
            },
        }
    }
}

} // verus!
