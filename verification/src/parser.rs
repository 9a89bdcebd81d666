//! Syntax analysis: tokens to abstract syntax.
//!
//! The grammar is given by the printing functions below, which write each
//! piece of abstract syntax as the tokens that spell it; the parser reads
//! back what they write.
//!
//! ```text
//! CompUnit  ::= FuncDef
//! FuncDef   ::= ("int" | "void") IDENT "(" ")" Block
//! Block     ::= "{" {Decl | Stmt} "}"
//! Decl      ::= "const" "int" ConstDef {"," ConstDef} ";"
//!             | "int" VarDef {"," VarDef} ";"
//! ConstDef  ::= IDENT "=" Exp
//! VarDef    ::= IDENT | IDENT "=" Exp
//! Stmt      ::= IDENT "=" Exp ";" | [Exp] ";" | Block | "return" Exp ";"
//! Exp       ::= LOrExp
//! LOrExp    ::= LAndExp | LOrExp "||" LAndExp
//! LAndExp   ::= EqExp | LAndExp "&&" EqExp
//! EqExp     ::= RelExp | EqExp ("==" | "!=") RelExp
//! RelExp    ::= AddExp | RelExp ("<" | ">" | "<=" | ">=") AddExp
//! AddExp    ::= MulExp | AddExp ("+" | "-") MulExp
//! MulExp    ::= UnaryExp | MulExp ("*" | "/" | "%") UnaryExp
//! UnaryExp  ::= PrimaryExp | ("+" | "-" | "!") UnaryExp
//! PrimaryExp::= "(" Exp ")" | IDENT | NUMBER
//! ```
use vstd::prelude::*;

use crate::ast::{
    AddExp, BType, Block, BlockItem, CompUnit, ConstDecl, ConstDef, ConstExp, ConstInitVal, Decl, EqExp,
    Exp, FuncDef, FuncType, InitVal, LAndExp, LOrExp, LVal, MulExp, PrimaryExp, RelExp, Stmt, UnaryExp,
    UnaryOp, VarDecl, VarDef,
};
use crate::lexer::{lex, lex_spec, toks, LexError, Tok, Token};
use crate::recognizer::{
    end_add, end_eq, end_exp, end_land, end_lor, end_mul, end_of, end_primary, end_rel, end_unary, add_loop, eq_loop,
    land_loop, lor_loop, mul_loop, rel_loop, unfold_add_loop, unfold_end_add, unfold_end_eq, unfold_end_exp,
    unfold_end_land, unfold_end_lor, unfold_end_mul, unfold_end_primary, unfold_end_rel, unfold_end_unary,
    unfold_eq_loop, unfold_land_loop, unfold_lor_loop, unfold_mul_loop, unfold_rel_loop, end_const_def, end_var_def,
    end_const_defs, end_var_defs, end_decl, end_stmt, end_item, end_block, const_defs_loop, var_defs_loop, items_loop,
    unfold_end_const_def, unfold_end_var_def, unfold_end_const_defs, unfold_end_var_defs, unfold_end_decl,
    unfold_end_stmt, unfold_end_item, unfold_end_block, unfold_const_defs_loop, unfold_var_defs_loop, unfold_items_loop,
};
use crate::symtable::{ScopeEntry, SymTable};

verus! {

pub open spec fn print_exp(e: &Exp) -> Seq<Tok>
    decreases e,
{
    print_lor(&e.lorexp)
}

pub open spec fn print_lor(e: &LOrExp) -> Seq<Tok>
    decreases e,
{
    match e {
        LOrExp::And(x) => print_land(x),
        LOrExp::Or(l, r) => print_lor(l) + seq![Tok::OrOr] + print_land(r),
    }
}

pub open spec fn print_land(e: &LAndExp) -> Seq<Tok>
    decreases e,
{
    match e {
        LAndExp::Eq(x) => print_eq(x),
        LAndExp::And(l, r) => print_land(l) + seq![Tok::AndAnd] + print_eq(r),
    }
}

pub open spec fn print_eq(e: &EqExp) -> Seq<Tok>
    decreases e,
{
    match e {
        EqExp::Rel(x) => print_rel(x),
        EqExp::Eq(l, r) => print_eq(l) + seq![Tok::EqEq] + print_rel(r),
        EqExp::Ne(l, r) => print_eq(l) + seq![Tok::NotEq] + print_rel(r),
    }
}

pub open spec fn print_rel(e: &RelExp) -> Seq<Tok>
    decreases e,
{
    match e {
        RelExp::Add(x) => print_add(x),
        RelExp::Lt(l, r) => print_rel(l) + seq![Tok::Lt] + print_add(r),
        RelExp::Gt(l, r) => print_rel(l) + seq![Tok::Gt] + print_add(r),
        RelExp::Le(l, r) => print_rel(l) + seq![Tok::Le] + print_add(r),
        RelExp::Ge(l, r) => print_rel(l) + seq![Tok::Ge] + print_add(r),
    }
}

pub open spec fn print_add(e: &AddExp) -> Seq<Tok>
    decreases e,
{
    match e {
        AddExp::Mul(x) => print_mul(x),
        AddExp::Add(l, r) => print_add(l) + seq![Tok::Plus] + print_mul(r),
        AddExp::Sub(l, r) => print_add(l) + seq![Tok::Minus] + print_mul(r),
    }
}

pub open spec fn print_mul(e: &MulExp) -> Seq<Tok>
    decreases e,
{
    match e {
        MulExp::Unary(x) => print_unary(x),
        MulExp::Mul(l, r) => print_mul(l) + seq![Tok::Star] + print_unary(r),
        MulExp::Div(l, r) => print_mul(l) + seq![Tok::Slash] + print_unary(r),
        MulExp::Mod(l, r) => print_mul(l) + seq![Tok::Percent] + print_unary(r),
    }
}

pub open spec fn unary_op_tok(op: UnaryOp) -> Tok {
    match op {
        UnaryOp::Pos => Tok::Plus,
        UnaryOp::Neg => Tok::Minus,
        UnaryOp::Not => Tok::Not,
    }
}

pub open spec fn print_unary(e: &UnaryExp) -> Seq<Tok>
    decreases e,
{
    match e {
        UnaryExp::Primary(p) => print_primary(p),
        UnaryExp::Unary(op, x) => seq![unary_op_tok(*op)] + print_unary(x),
    }
}

pub open spec fn print_primary(e: &PrimaryExp) -> Seq<Tok>
    decreases e,
{
    match e {
        PrimaryExp::Exp(x) => seq![Tok::LParen] + print_exp(x) + seq![Tok::RParen],
        PrimaryExp::LVal(l) => seq![Tok::Ident(l.ident@)],
        PrimaryExp::Number(n) => seq![Tok::Number(*n)],
    }
}

/// The spelling of a whole expression.
#[verifier::opaque]
pub open spec fn exp_spelling(e: &Exp) -> Seq<Tok> {
    print_exp(e)
}

pub open spec fn print_const_def(d: &ConstDef) -> Seq<Tok> {
    match &d.init_val {
        ConstInitVal::Exp(ce) => seq![Tok::Ident(d.ident@), Tok::Assign] + exp_spelling(&ce.exp),
    }
}

/// Constant definitions separated by commas.
pub open spec fn print_const_defs(defs: Seq<ConstDef>) -> Seq<Tok>
    decreases defs.len(),
{
    if defs.len() <= 1 {
        if defs.len() == 0 { Seq::empty() } else { print_const_def(&defs[0]) }
    } else {
        print_const_defs(defs.drop_last()) + seq![Tok::Comma] + print_const_def(&defs.last())
    }
}

pub open spec fn print_var_def(d: &VarDef) -> Seq<Tok> {
    match d {
        VarDef::IDENT(n) => seq![Tok::Ident(n@)],
        VarDef::IDENTInitVal(n, init) => seq![Tok::Ident(n@), Tok::Assign] + exp_spelling(&init.exp),
    }
}

/// Variable definitions separated by commas.
pub open spec fn print_var_defs(defs: Seq<VarDef>) -> Seq<Tok>
    decreases defs.len(),
{
    if defs.len() <= 1 {
        if defs.len() == 0 { Seq::empty() } else { print_var_def(&defs[0]) }
    } else {
        print_var_defs(defs.drop_last()) + seq![Tok::Comma] + print_var_def(&defs.last())
    }
}

pub open spec fn print_decl(d: &Decl) -> Seq<Tok> {
    match d {
        Decl::ConstDecl(cd) => seq![Tok::Const, Tok::Int] + print_const_defs(cd.defs@) + seq![Tok::Semi],
        Decl::VarDecl(vd) => seq![Tok::Int] + print_var_defs(vd.defs@) + seq![Tok::Semi],
    }
}

pub open spec fn print_stmt(s: &Stmt) -> Seq<Tok>
    decreases s,
{
    match s {
        Stmt::Return(e) => seq![Tok::Return] + exp_spelling(e) + seq![Tok::Semi],
        Stmt::Assign(l, e) => seq![Tok::Ident(l.ident@), Tok::Assign] + exp_spelling(e) + seq![Tok::Semi],
        Stmt::ExprStmt(opt) => match opt {
            Some(e) => exp_spelling(e) + seq![Tok::Semi],
            None => seq![Tok::Semi],
        },
        Stmt::Block(b) => print_block(b),
    }
}

pub open spec fn print_item(it: &BlockItem) -> Seq<Tok>
    decreases it,
{
    match it {
        BlockItem::Decl(d) => print_decl(d),
        BlockItem::Stmt(s) => print_stmt(s),
    }
}

/// Block items one after the other.
pub open spec fn print_items(items: Seq<BlockItem>) -> Seq<Tok>
    decreases items,
{
    if items.len() == 0 {
        Seq::empty()
    } else {
        print_items(items.drop_last()) + print_item(&items.last())
    }
}

pub open spec fn print_block(b: &Block) -> Seq<Tok>
    decreases b,
{
    seq![Tok::LBrace] + print_items(b.items@) + seq![Tok::RBrace]
}

pub open spec fn func_type_tok(t: FuncType) -> Tok {
    match t {
        FuncType::Int => Tok::Int,
        FuncType::Void => Tok::Void,
    }
}

pub open spec fn print_func_def(f: &FuncDef) -> Seq<Tok> {
    seq![func_type_tok(f.func_type), Tok::Ident(f.ident@), Tok::LParen, Tok::RParen] + print_block(&f.block)
}

/// The tokens that spell a compilation unit.
pub open spec fn print_unit(u: &CompUnit) -> Seq<Tok> {
    print_func_def(&u.func_def)
}

/// A declaration of the grammar: it has at least one definition.
pub open spec fn decl_in_grammar(d: &Decl) -> bool {
    match d {
        Decl::ConstDecl(cd) => cd.defs@.len() >= 1,
        Decl::VarDecl(vd) => vd.defs@.len() >= 1,
    }
}

/// A statement of the grammar: its declarations have definitions.
pub open spec fn stmt_in_grammar(s: &Stmt) -> bool
    decreases s,
{
    match s {
        Stmt::Block(b) => block_in_grammar(b),
        _ => true,
    }
}

/// A block item of the grammar.
pub open spec fn item_in_grammar(it: &BlockItem) -> bool
    decreases it,
{
    match it {
        BlockItem::Decl(d) => decl_in_grammar(d),
        BlockItem::Stmt(s) => stmt_in_grammar(s),
    }
}

/// Block items of the grammar.
pub open spec fn items_in_grammar(items: Seq<BlockItem>) -> bool
    decreases items,
{
    if items.len() == 0 {
        true
    } else {
        item_in_grammar(&items[0]) && items_in_grammar(items.drop_first())
    }
}

/// A block of the grammar.
pub open spec fn block_in_grammar(b: &Block) -> bool
    decreases b,
{
    items_in_grammar(b.items@)
}

/// A compilation unit of the grammar: every declaration in it has at least
/// one definition.
pub open spec fn unit_in_grammar(u: &CompUnit) -> bool {
    block_in_grammar(&u.func_def.block)
}

/// Items are of the grammar exactly when each of them is.
pub proof fn lemma_items_in_grammar(items: Seq<BlockItem>)
    ensures
        items_in_grammar(items) <==> forall|i: int| 0 <= i < items.len() ==> item_in_grammar(#[trigger] &items[i]),
    decreases items.len(),
{
    if items.len() > 0 {
        lemma_items_in_grammar(items.drop_first());
        if forall|i: int| 0 <= i < items.len() ==> item_in_grammar(#[trigger] &items[i]) {
            assert forall|i: int| 0 <= i < items.drop_first().len() implies item_in_grammar(#[trigger] &items.drop_first()[i]) by {
                assert(items.drop_first()[i] == items[i + 1]);
            }
        }
        if items_in_grammar(items) {
            assert forall|i: int| 0 <= i < items.len() implies item_in_grammar(#[trigger] &items[i]) by {
                if i > 0 {
                    assert(items.drop_first()[i - 1] == items[i]);
                }
            }
        }
    }
}

proof fn lemma_cat3(t: Seq<Tok>, a: int, b: int, c: int, d: int)
    requires
        0 <= a <= b <= c <= d <= t.len(),
    ensures
        t.subrange(a, d) == t.subrange(a, b) + t.subrange(b, c) + t.subrange(c, d),
{
    assert(t.subrange(a, d) =~= t.subrange(a, b) + t.subrange(b, c) + t.subrange(c, d));
}

proof fn lemma_cat(t: Seq<Tok>, a: int, b: int, c: int)
    requires
        0 <= a <= b <= c <= t.len(),
    ensures
        t.subrange(a, c) == t.subrange(a, b) + t.subrange(b, c),
{
    assert(t.subrange(a, c) =~= t.subrange(a, b) + t.subrange(b, c));
}

proof fn lemma_one(ts: Seq<Token>, p: int)
    requires
        0 <= p < ts.len(),
    ensures
        toks(ts).subrange(p, p + 1) == seq![ts[p]@],
        toks(ts)[p] == ts[p]@,
{
    assert(toks(ts).subrange(p, p + 1) =~= seq![ts[p]@]);
}

/// Whether the token at `p` is `t`.
fn at(ts: &Vec<Token>, p: usize, t: Token) -> (b: bool)
    requires
        !(t is Ident),
    ensures
        ts@.len() <= usize::MAX,
        b == (p < ts@.len() && ts@[p as int]@ == t@),
        b ==> toks(ts@).subrange(p as int, p + 1) == seq![t@],
{
    if p >= ts.len() {
        return false;
    }
    let b = match (&ts[p], &t) {
        (Token::Int, Token::Int) => true,
        (Token::Void, Token::Void) => true,
        (Token::Const, Token::Const) => true,
        (Token::Return, Token::Return) => true,
        (Token::Number(a), Token::Number(b)) => *a == *b,
        (Token::LParen, Token::LParen) => true,
        (Token::RParen, Token::RParen) => true,
        (Token::LBrace, Token::LBrace) => true,
        (Token::RBrace, Token::RBrace) => true,
        (Token::Semi, Token::Semi) => true,
        (Token::Comma, Token::Comma) => true,
        (Token::Assign, Token::Assign) => true,
        (Token::EqEq, Token::EqEq) => true,
        (Token::NotEq, Token::NotEq) => true,
        (Token::Not, Token::Not) => true,
        (Token::Lt, Token::Lt) => true,
        (Token::Le, Token::Le) => true,
        (Token::Gt, Token::Gt) => true,
        (Token::Ge, Token::Ge) => true,
        (Token::Plus, Token::Plus) => true,
        (Token::Minus, Token::Minus) => true,
        (Token::Star, Token::Star) => true,
        (Token::Slash, Token::Slash) => true,
        (Token::Percent, Token::Percent) => true,
        (Token::AndAnd, Token::AndAnd) => true,
        (Token::OrOr, Token::OrOr) => true,
        _ => false,
    };
    proof {
        if b {
            lemma_one(ts@, p as int);
        }
    }
    b
}

/// The identifier at `p`, if the token there is one.
fn ident_at(ts: &Vec<Token>, p: usize) -> (r: Option<String>)
    ensures
        ts@.len() <= usize::MAX,
        r matches Some(s) ==> p < ts@.len() && toks(ts@).subrange(p as int, p + 1) == seq![Tok::Ident(s@)]
            && toks(ts@)[p as int] == Tok::Ident(s@),
        r is None ==> !(p < ts@.len() && toks(ts@)[p as int] is Ident),
{
    if p >= ts.len() {
        return None;
    }
    match &ts[p] {
        Token::Ident(s) => {
            proof { lemma_one(ts@, p as int); }
            Some(s.clone())
        },
        _ => None,
    }
}

fn parse_exp(ts: &Vec<Token>, pos: usize) -> (r: Option<(Exp, usize)>)
    requires
        pos <= ts@.len(),
    ensures
        r matches Some((x, p2)) ==> pos < p2 <= ts@.len() && toks(ts@).subrange(pos as int, p2 as int) == print_exp(&x),
        end_exp(toks(ts@), pos as int) == end_of(r),
    decreases ts@.len() - pos, 9int,
{
    proof { unfold_end_exp(toks(ts@), pos as int); }
    match parse_lor(ts, pos) {
        Some((e, p)) => Some((Exp { lorexp: e }, p)),
        None => None,
    }
}

fn parse_lor(ts: &Vec<Token>, pos: usize) -> (r: Option<(LOrExp, usize)>)
    requires
        pos <= ts@.len(),
    ensures
        r matches Some((x, p2)) ==> pos < p2 <= ts@.len() && toks(ts@).subrange(pos as int, p2 as int) == print_lor(&x),
        end_lor(toks(ts@), pos as int) == end_of(r),
    decreases ts@.len() - pos, 8int,
{
    proof { unfold_end_lor(toks(ts@), pos as int); }
    let (first, p0) = match parse_land(ts, pos) {
        Some(x) => x,
        None => return None,
    };
    let mut acc = LOrExp::And(first);
    let mut p = p0;
    loop
        invariant
            pos < p <= ts@.len(),
            toks(ts@).subrange(pos as int, p as int) == print_lor(&acc),
            end_lor(toks(ts@), pos as int) == lor_loop(toks(ts@), p as int),
        decreases ts@.len() - p,
    {
        proof { unfold_lor_loop(toks(ts@), p as int); }
        if p >= ts.len() {
            return Some((acc, p));
        }
        let which: u8 = match &ts[p] {
            Token::OrOr => 1u8,
            _ => 0u8,
        };
        if which == 0u8 {
            return Some((acc, p));
        }
        let (rhs, p2) = match parse_land(ts, p + 1) {
            Some(x) => x,
            None => return None,
        };
        proof {
            lemma_cat3(toks(ts@), pos as int, p as int, p + 1, p2 as int);
        }
        acc = LOrExp::Or(Box::new(acc), rhs);
        p = p2;
    }
}

fn parse_land(ts: &Vec<Token>, pos: usize) -> (r: Option<(LAndExp, usize)>)
    requires
        pos <= ts@.len(),
    ensures
        r matches Some((x, p2)) ==> pos < p2 <= ts@.len() && toks(ts@).subrange(pos as int, p2 as int) == print_land(&x),
        end_land(toks(ts@), pos as int) == end_of(r),
    decreases ts@.len() - pos, 7int,
{
    proof { unfold_end_land(toks(ts@), pos as int); }
    let (first, p0) = match parse_eq(ts, pos) {
        Some(x) => x,
        None => return None,
    };
    let mut acc = LAndExp::Eq(first);
    let mut p = p0;
    loop
        invariant
            pos < p <= ts@.len(),
            toks(ts@).subrange(pos as int, p as int) == print_land(&acc),
            end_land(toks(ts@), pos as int) == land_loop(toks(ts@), p as int),
        decreases ts@.len() - p,
    {
        proof { unfold_land_loop(toks(ts@), p as int); }
        if p >= ts.len() {
            return Some((acc, p));
        }
        let which: u8 = match &ts[p] {
            Token::AndAnd => 1u8,
            _ => 0u8,
        };
        if which == 0u8 {
            return Some((acc, p));
        }
        let (rhs, p2) = match parse_eq(ts, p + 1) {
            Some(x) => x,
            None => return None,
        };
        proof {
            lemma_cat3(toks(ts@), pos as int, p as int, p + 1, p2 as int);
        }
        acc = LAndExp::And(Box::new(acc), rhs);
        p = p2;
    }
}

fn parse_eq(ts: &Vec<Token>, pos: usize) -> (r: Option<(EqExp, usize)>)
    requires
        pos <= ts@.len(),
    ensures
        r matches Some((x, p2)) ==> pos < p2 <= ts@.len() && toks(ts@).subrange(pos as int, p2 as int) == print_eq(&x),
        end_eq(toks(ts@), pos as int) == end_of(r),
    decreases ts@.len() - pos, 6int,
{
    proof { unfold_end_eq(toks(ts@), pos as int); }
    let (first, p0) = match parse_rel(ts, pos) {
        Some(x) => x,
        None => return None,
    };
    let mut acc = EqExp::Rel(first);
    let mut p = p0;
    loop
        invariant
            pos < p <= ts@.len(),
            toks(ts@).subrange(pos as int, p as int) == print_eq(&acc),
            end_eq(toks(ts@), pos as int) == eq_loop(toks(ts@), p as int),
        decreases ts@.len() - p,
    {
        proof { unfold_eq_loop(toks(ts@), p as int); }
        if p >= ts.len() {
            return Some((acc, p));
        }
        let which: u8 = match &ts[p] {
            Token::EqEq => 1u8,
            Token::NotEq => 2u8,
            _ => 0u8,
        };
        if which == 0u8 {
            return Some((acc, p));
        }
        let (rhs, p2) = match parse_rel(ts, p + 1) {
            Some(x) => x,
            None => return None,
        };
        proof {
            lemma_cat3(toks(ts@), pos as int, p as int, p + 1, p2 as int);
        }
        acc = if which == 1u8 {
            EqExp::Eq(Box::new(acc), rhs)
        } else {
            EqExp::Ne(Box::new(acc), rhs)
        };
        p = p2;
    }
}

fn parse_rel(ts: &Vec<Token>, pos: usize) -> (r: Option<(RelExp, usize)>)
    requires
        pos <= ts@.len(),
    ensures
        r matches Some((x, p2)) ==> pos < p2 <= ts@.len() && toks(ts@).subrange(pos as int, p2 as int) == print_rel(&x),
        end_rel(toks(ts@), pos as int) == end_of(r),
    decreases ts@.len() - pos, 5int,
{
    proof { unfold_end_rel(toks(ts@), pos as int); }
    let (first, p0) = match parse_add(ts, pos) {
        Some(x) => x,
        None => return None,
    };
    let mut acc = RelExp::Add(first);
    let mut p = p0;
    loop
        invariant
            pos < p <= ts@.len(),
            toks(ts@).subrange(pos as int, p as int) == print_rel(&acc),
            end_rel(toks(ts@), pos as int) == rel_loop(toks(ts@), p as int),
        decreases ts@.len() - p,
    {
        proof { unfold_rel_loop(toks(ts@), p as int); }
        if p >= ts.len() {
            return Some((acc, p));
        }
        let which: u8 = match &ts[p] {
            Token::Lt => 1u8,
            Token::Gt => 2u8,
            Token::Le => 3u8,
            Token::Ge => 4u8,
            _ => 0u8,
        };
        if which == 0u8 {
            return Some((acc, p));
        }
        let (rhs, p2) = match parse_add(ts, p + 1) {
            Some(x) => x,
            None => return None,
        };
        proof {
            lemma_cat3(toks(ts@), pos as int, p as int, p + 1, p2 as int);
        }
        acc = if which == 1u8 {
            RelExp::Lt(Box::new(acc), rhs)
        } else if which == 2u8 {
            RelExp::Gt(Box::new(acc), rhs)
        } else if which == 3u8 {
            RelExp::Le(Box::new(acc), rhs)
        } else {
            RelExp::Ge(Box::new(acc), rhs)
        };
        p = p2;
    }
}

fn parse_add(ts: &Vec<Token>, pos: usize) -> (r: Option<(AddExp, usize)>)
    requires
        pos <= ts@.len(),
    ensures
        r matches Some((x, p2)) ==> pos < p2 <= ts@.len() && toks(ts@).subrange(pos as int, p2 as int) == print_add(&x),
        end_add(toks(ts@), pos as int) == end_of(r),
    decreases ts@.len() - pos, 4int,
{
    proof { unfold_end_add(toks(ts@), pos as int); }
    let (first, p0) = match parse_mul(ts, pos) {
        Some(x) => x,
        None => return None,
    };
    let mut acc = AddExp::Mul(first);
    let mut p = p0;
    loop
        invariant
            pos < p <= ts@.len(),
            toks(ts@).subrange(pos as int, p as int) == print_add(&acc),
            end_add(toks(ts@), pos as int) == add_loop(toks(ts@), p as int),
        decreases ts@.len() - p,
    {
        proof { unfold_add_loop(toks(ts@), p as int); }
        if p >= ts.len() {
            return Some((acc, p));
        }
        let which: u8 = match &ts[p] {
            Token::Plus => 1u8,
            Token::Minus => 2u8,
            _ => 0u8,
        };
        if which == 0u8 {
            return Some((acc, p));
        }
        let (rhs, p2) = match parse_mul(ts, p + 1) {
            Some(x) => x,
            None => return None,
        };
        proof {
            lemma_cat3(toks(ts@), pos as int, p as int, p + 1, p2 as int);
        }
        acc = if which == 1u8 {
            AddExp::Add(Box::new(acc), rhs)
        } else {
            AddExp::Sub(Box::new(acc), rhs)
        };
        p = p2;
    }
}

fn parse_mul(ts: &Vec<Token>, pos: usize) -> (r: Option<(MulExp, usize)>)
    requires
        pos <= ts@.len(),
    ensures
        r matches Some((x, p2)) ==> pos < p2 <= ts@.len() && toks(ts@).subrange(pos as int, p2 as int) == print_mul(&x),
        end_mul(toks(ts@), pos as int) == end_of(r),
    decreases ts@.len() - pos, 3int,
{
    proof { unfold_end_mul(toks(ts@), pos as int); }
    let (first, p0) = match parse_unary(ts, pos) {
        Some(x) => x,
        None => return None,
    };
    let mut acc = MulExp::Unary(first);
    let mut p = p0;
    loop
        invariant
            pos < p <= ts@.len(),
            toks(ts@).subrange(pos as int, p as int) == print_mul(&acc),
            end_mul(toks(ts@), pos as int) == mul_loop(toks(ts@), p as int),
        decreases ts@.len() - p,
    {
        proof { unfold_mul_loop(toks(ts@), p as int); }
        if p >= ts.len() {
            return Some((acc, p));
        }
        let which: u8 = match &ts[p] {
            Token::Star => 1u8,
            Token::Slash => 2u8,
            Token::Percent => 3u8,
            _ => 0u8,
        };
        if which == 0u8 {
            return Some((acc, p));
        }
        let (rhs, p2) = match parse_unary(ts, p + 1) {
            Some(x) => x,
            None => return None,
        };
        proof {
            lemma_cat3(toks(ts@), pos as int, p as int, p + 1, p2 as int);
        }
        acc = if which == 1u8 {
            MulExp::Mul(Box::new(acc), rhs)
        } else if which == 2u8 {
            MulExp::Div(Box::new(acc), rhs)
        } else {
            MulExp::Mod(Box::new(acc), rhs)
        };
        p = p2;
    }
}

fn parse_unary(ts: &Vec<Token>, pos: usize) -> (r: Option<(UnaryExp, usize)>)
    requires
        pos <= ts@.len(),
    ensures
        r matches Some((x, p2)) ==> pos < p2 <= ts@.len() && toks(ts@).subrange(pos as int, p2 as int) == print_unary(&x),
        end_unary(toks(ts@), pos as int) == end_of(r),
    decreases ts@.len() - pos, 2int,
{
    proof { unfold_end_unary(toks(ts@), pos as int); }
    if pos >= ts.len() {
        return None;
    }
    let op = match &ts[pos] {
        Token::Plus => Some(UnaryOp::Pos),
        Token::Minus => Some(UnaryOp::Neg),
        Token::Not => Some(UnaryOp::Not),
        _ => None,
    };
    match op {
        Some(op) => {
            proof { lemma_one(ts@, pos as int); }
            let (inner, p2) = match parse_unary(ts, pos + 1) {
                Some(x) => x,
                None => return None,
            };
            proof { lemma_cat(toks(ts@), pos as int, pos + 1, p2 as int); }
            Some((UnaryExp::Unary(op, Box::new(inner)), p2))
        },
        None => match parse_primary(ts, pos) {
            Some((p, p2)) => Some((UnaryExp::Primary(p), p2)),
            None => None,
        },
    }
}

fn parse_primary(ts: &Vec<Token>, pos: usize) -> (r: Option<(PrimaryExp, usize)>)
    requires
        pos <= ts@.len(),
    ensures
        r matches Some((x, p2)) ==> pos < p2 <= ts@.len() && toks(ts@).subrange(pos as int, p2 as int) == print_primary(&x),
        end_primary(toks(ts@), pos as int) == end_of(r),
    decreases ts@.len() - pos, 1int,
{
    proof { unfold_end_primary(toks(ts@), pos as int); }
    if pos >= ts.len() {
        return None;
    }
    proof { lemma_one(ts@, pos as int); }
    match &ts[pos] {
        Token::LParen => {
            let (e, p1) = match parse_exp(ts, pos + 1) {
                Some(x) => x,
                None => return None,
            };
            if !at(ts, p1, Token::RParen) {
                return None;
            }
            proof { lemma_cat3(toks(ts@), pos as int, pos + 1, p1 as int, p1 + 1); }
            Some((PrimaryExp::Exp(Box::new(e)), p1 + 1))
        },
        Token::Ident(s) => Some((PrimaryExp::LVal(LVal { ident: s.clone() }), pos + 1)),
        Token::Number(n) => Some((PrimaryExp::Number(*n), pos + 1)),
        _ => None,
    }
}

/// A whole expression.
fn parse_full_exp(ts: &Vec<Token>, pos: usize) -> (r: Option<(Exp, usize)>)
    requires
        pos <= ts@.len(),
    ensures
        r matches Some((x, p2)) ==> pos < p2 <= ts@.len() && toks(ts@).subrange(pos as int, p2 as int) == exp_spelling(&x),
        end_exp(toks(ts@), pos as int) == end_of(r),
    decreases ts@.len() - pos, 10int,
{
    proof { unfold_end_exp(toks(ts@), pos as int); }
    reveal(exp_spelling);
    parse_exp(ts, pos)
}

fn parse_const_def(ts: &Vec<Token>, pos: usize) -> (r: Option<(ConstDef, usize)>)
    requires
        pos <= ts@.len(),
    ensures
        r matches Some((x, p2)) ==> pos < p2 <= ts@.len() && toks(ts@).subrange(pos as int, p2 as int) == print_const_def(&x),
        end_const_def(toks(ts@), pos as int) == end_of(r),
    decreases ts@.len() - pos, 11int,
{
    proof { unfold_end_const_def(toks(ts@), pos as int); }
    let ident = match ident_at(ts, pos) {
        Some(s) => s,
        None => return None,
    };
    if !at(ts, pos + 1, Token::Assign) {
        return None;
    }
    let (e, p2) = match parse_full_exp(ts, pos + 2) {
        Some(x) => x,
        None => return None,
    };
    proof { lemma_cat3(toks(ts@), pos as int, pos + 1, pos + 2, p2 as int); }
    Some((ConstDef { ident, init_val: ConstInitVal::Exp(ConstExp { exp: e }) }, p2))
}

fn parse_var_def(ts: &Vec<Token>, pos: usize) -> (r: Option<(VarDef, usize)>)
    requires
        pos <= ts@.len(),
    ensures
        r matches Some((x, p2)) ==> pos < p2 <= ts@.len() && toks(ts@).subrange(pos as int, p2 as int) == print_var_def(&x),
        end_var_def(toks(ts@), pos as int) == end_of(r),
    decreases ts@.len() - pos, 11int,
{
    proof { unfold_end_var_def(toks(ts@), pos as int); }
    let ident = match ident_at(ts, pos) {
        Some(s) => s,
        None => return None,
    };
    if !at(ts, pos + 1, Token::Assign) {
        return Some((VarDef::IDENT(ident), pos + 1));
    }
    let (e, p2) = match parse_full_exp(ts, pos + 2) {
        Some(x) => x,
        None => return None,
    };
    proof { lemma_cat3(toks(ts@), pos as int, pos + 1, pos + 2, p2 as int); }
    Some((VarDef::IDENTInitVal(ident, InitVal { exp: e }), p2))
}

/// One or more constant definitions separated by commas.
fn parse_const_defs(ts: &Vec<Token>, pos: usize) -> (r: Option<(Vec<ConstDef>, usize)>)
    requires
        pos <= ts@.len(),
    ensures
        r matches Some((x, p2)) ==> pos < p2 <= ts@.len() && toks(ts@).subrange(pos as int, p2 as int) == print_const_defs(x@),
        end_const_defs(toks(ts@), pos as int) == end_of(r),
        r matches Some((x, _)) ==> x@.len() >= 1,
    decreases ts@.len() - pos, 12int,
{
    proof { unfold_end_const_defs(toks(ts@), pos as int); }
    let (d0, p0) = match parse_const_def(ts, pos) {
        Some(x) => x,
        None => return None,
    };
    let mut defs: Vec<ConstDef> = Vec::new();
    defs.push(d0);
    let mut p = p0;
    assert(defs@.drop_last().len() == 0);
    assert(print_const_defs(defs@) == print_const_def(&d0));
    loop
        invariant
            pos < p <= ts@.len(),
            defs@.len() >= 1,
            toks(ts@).subrange(pos as int, p as int) == print_const_defs(defs@),
            end_const_defs(toks(ts@), pos as int) == const_defs_loop(toks(ts@), p as int),
        decreases ts@.len() - p,
    {
        proof { unfold_const_defs_loop(toks(ts@), p as int); }
        if !at(ts, p, Token::Comma) {
            return Some((defs, p));
        }
        let (d, p2) = match parse_const_def(ts, p + 1) {
            Some(x) => x,
            None => return None,
        };
        proof { lemma_cat3(toks(ts@), pos as int, p as int, p + 1, p2 as int); }
        let ghost old_defs = defs@;
        defs.push(d);
        assert(defs@.drop_last() =~= old_defs);
        p = p2;
    }
}

/// One or more variable definitions separated by commas.
fn parse_var_defs(ts: &Vec<Token>, pos: usize) -> (r: Option<(Vec<VarDef>, usize)>)
    requires
        pos <= ts@.len(),
    ensures
        r matches Some((x, p2)) ==> pos < p2 <= ts@.len() && toks(ts@).subrange(pos as int, p2 as int) == print_var_defs(x@),
        end_var_defs(toks(ts@), pos as int) == end_of(r),
        r matches Some((x, _)) ==> x@.len() >= 1,
    decreases ts@.len() - pos, 12int,
{
    proof { unfold_end_var_defs(toks(ts@), pos as int); }
    let (d0, p0) = match parse_var_def(ts, pos) {
        Some(x) => x,
        None => return None,
    };
    let mut defs: Vec<VarDef> = Vec::new();
    defs.push(d0);
    let mut p = p0;
    assert(defs@.drop_last().len() == 0);
    assert(print_var_defs(defs@) == print_var_def(&d0));
    loop
        invariant
            pos < p <= ts@.len(),
            defs@.len() >= 1,
            toks(ts@).subrange(pos as int, p as int) == print_var_defs(defs@),
            end_var_defs(toks(ts@), pos as int) == var_defs_loop(toks(ts@), p as int),
        decreases ts@.len() - p,
    {
        proof { unfold_var_defs_loop(toks(ts@), p as int); }
        if !at(ts, p, Token::Comma) {
            return Some((defs, p));
        }
        let (d, p2) = match parse_var_def(ts, p + 1) {
            Some(x) => x,
            None => return None,
        };
        proof { lemma_cat3(toks(ts@), pos as int, p as int, p + 1, p2 as int); }
        let ghost old_defs = defs@;
        defs.push(d);
        assert(defs@.drop_last() =~= old_defs);
        p = p2;
    }
}

fn parse_decl(ts: &Vec<Token>, pos: usize) -> (r: Option<(Decl, usize)>)
    requires
        pos <= ts@.len(),
    ensures
        r matches Some((x, p2)) ==> pos < p2 <= ts@.len() && toks(ts@).subrange(pos as int, p2 as int) == print_decl(&x),
        end_decl(toks(ts@), pos as int) == end_of(r),
        r matches Some((x, _)) ==> decl_in_grammar(&x),
    decreases ts@.len() - pos, 13int,
{
    proof { unfold_end_decl(toks(ts@), pos as int); }
    if at(ts, pos, Token::Const) {
        if !at(ts, pos + 1, Token::Int) {
            return None;
        }
        let (defs, p) = match parse_const_defs(ts, pos + 2) {
            Some(x) => x,
            None => return None,
        };
        if !at(ts, p, Token::Semi) {
            return None;
        }
        proof {
            lemma_cat3(toks(ts@), pos as int, pos + 1, pos + 2, p as int);
            lemma_cat(toks(ts@), pos as int, p as int, p + 1);
        }
        Some((Decl::ConstDecl(ConstDecl { btype: BType::Int, defs }), p + 1))
    } else if at(ts, pos, Token::Int) {
        let (defs, p) = match parse_var_defs(ts, pos + 1) {
            Some(x) => x,
            None => return None,
        };
        if !at(ts, p, Token::Semi) {
            return None;
        }
        proof {
            lemma_cat3(toks(ts@), pos as int, pos + 1, p as int, p + 1);
        }
        Some((Decl::VarDecl(VarDecl { btype: BType::Int, defs }), p + 1))
    } else {
        None
    }
}

fn parse_stmt(ts: &Vec<Token>, pos: usize) -> (r: Option<(Stmt, usize)>)
    requires
        pos <= ts@.len(),
    ensures
        r matches Some((x, p2)) ==> pos < p2 <= ts@.len() && toks(ts@).subrange(pos as int, p2 as int) == print_stmt(&x),
        end_stmt(toks(ts@), pos as int) == end_of(r),
        r matches Some((x, _)) ==> stmt_in_grammar(&x),
    decreases ts@.len() - pos, 15int,
{
    proof { unfold_end_stmt(toks(ts@), pos as int); }
    if at(ts, pos, Token::Return) {
        let (e, p1) = match parse_full_exp(ts, pos + 1) {
            Some(x) => x,
            None => return None,
        };
        if !at(ts, p1, Token::Semi) {
            return None;
        }
        proof { lemma_cat3(toks(ts@), pos as int, pos + 1, p1 as int, p1 + 1); }
        Some((Stmt::Return(e), p1 + 1))
    } else if at(ts, pos, Token::LBrace) {
        match parse_block(ts, pos) {
            Some((b, p2)) => Some((Stmt::Block(b), p2)),
            None => None,
        }
    } else if at(ts, pos, Token::Semi) {
        Some((Stmt::ExprStmt(None), pos + 1))
    } else {
        match ident_at(ts, pos) {
            Some(name) => {
                if at(ts, pos + 1, Token::Assign) {
                    let (e, p1) = match parse_full_exp(ts, pos + 2) {
                        Some(x) => x,
                        None => return None,
                    };
                    if !at(ts, p1, Token::Semi) {
                        return None;
                    }
                    proof {
                        lemma_cat3(toks(ts@), pos as int, pos + 1, pos + 2, p1 as int);
                        lemma_cat(toks(ts@), pos as int, p1 as int, p1 + 1);
                    }
                    return Some((Stmt::Assign(LVal { ident: name }, e), p1 + 1));
                }
            },
            None => {},
        }
        let (e, p1) = match parse_full_exp(ts, pos) {
            Some(x) => x,
            None => return None,
        };
        if !at(ts, p1, Token::Semi) {
            return None;
        }
        proof { lemma_cat(toks(ts@), pos as int, p1 as int, p1 + 1); }
        Some((Stmt::ExprStmt(Some(e)), p1 + 1))
    }
}

fn parse_item(ts: &Vec<Token>, pos: usize) -> (r: Option<(BlockItem, usize)>)
    requires
        pos <= ts@.len(),
    ensures
        r matches Some((x, p2)) ==> pos < p2 <= ts@.len() && toks(ts@).subrange(pos as int, p2 as int) == print_item(&x),
        end_item(toks(ts@), pos as int) == end_of(r),
        r matches Some((x, _)) ==> item_in_grammar(&x),
    decreases ts@.len() - pos, 16int,
{
    proof { unfold_end_item(toks(ts@), pos as int); }
    if at(ts, pos, Token::Const) || at(ts, pos, Token::Int) {
        match parse_decl(ts, pos) {
            Some((d, p2)) => Some((BlockItem::Decl(d), p2)),
            None => None,
        }
    } else {
        match parse_stmt(ts, pos) {
            Some((st, p2)) => Some((BlockItem::Stmt(st), p2)),
            None => None,
        }
    }
}

fn parse_block(ts: &Vec<Token>, pos: usize) -> (r: Option<(Block, usize)>)
    requires
        pos <= ts@.len(),
    ensures
        r matches Some((x, p2)) ==> pos < p2 <= ts@.len() && toks(ts@).subrange(pos as int, p2 as int) == print_block(&x),
        end_block(toks(ts@), pos as int) == end_of(r),
        r matches Some((x, _)) ==> block_in_grammar(&x),
    decreases ts@.len() - pos, 14int,
{
    proof { unfold_end_block(toks(ts@), pos as int); }
    if !at(ts, pos, Token::LBrace) {
        return None;
    }
    let mut items: Vec<BlockItem> = Vec::new();
    let mut p = pos + 1;
    assert(toks(ts@).subrange(pos + 1, p as int) =~= print_items(items@));
    loop
        invariant
            pos < p <= ts@.len(),
            toks(ts@).subrange(pos + 1, p as int) == print_items(items@),
            toks(ts@).subrange(pos as int, pos + 1) == seq![Tok::LBrace],
            end_block(toks(ts@), pos as int) == items_loop(toks(ts@), p as int),
            items_in_grammar(items@),
        decreases ts@.len() - p,
    {
        proof { unfold_items_loop(toks(ts@), p as int); }
        if p >= ts.len() {
            return None;
        }
        if at(ts, p, Token::RBrace) {
            proof { lemma_cat3(toks(ts@), pos as int, pos + 1, p as int, p + 1); }
            return Some((Block { items }, p + 1));
        }
        let (it, p2) = match parse_item(ts, p) {
            Some(x) => x,
            None => return None,
        };
        proof { lemma_cat(toks(ts@), pos + 1, p as int, p2 as int); }
        let ghost old_items = items@;
        items.push(it);
        assert(items@.drop_last() =~= old_items);
        proof {
            lemma_items_in_grammar(old_items);
            lemma_items_in_grammar(items@);
            assert forall|j: int| 0 <= j < items@.len() implies item_in_grammar(#[trigger] &items@[j]) by {
                if j < old_items.len() {
                    assert(items@[j] == old_items[j]);
                }
            }
        }
        p = p2;
    }
}

/// Whether the tokens `t` spell a compilation unit of the grammar.
pub open spec fn spells_unit(t: Seq<Tok>) -> bool {
    exists|u: CompUnit| unit_in_grammar(&u) && #[trigger] print_unit(&u) == t
}

/// The compilation unit spelled by the tokens `ts`: there is one exactly
/// when they spell a unit of the grammar, and then the tokens are its
/// spelling; its table is fresh.
pub fn parse_tokens(ts: &Vec<Token>) -> (r: Option<CompUnit>)
    ensures
        r matches Some(u) ==> print_unit(&u) == toks(ts@) && unit_in_grammar(&u) && u.func_def.symtable.scopes()
            == seq![Map::<Seq<char>, ScopeEntry>::empty()] && u.func_def.symtable.cache() == Map::<usize, i32>::empty(),
        r is Some <==> spells_unit(toks(ts@)),
{
    let ghost t = toks(ts@);
    proof {
        assert(spells_unit(t) ==> {
            &&& t.len() >= 4
            &&& (t[0] is Int || t[0] is Void)
            &&& t[1] is Ident
            &&& t[2] == Tok::LParen
            &&& t[3] == Tok::RParen
            &&& end_block(t, 4) == Some(t.len() as int)
        }) by {
            if spells_unit(t) {
                let u = choose|u: CompUnit| unit_in_grammar(&u) && #[trigger] print_unit(&u) == t;
                crate::readback::lemma_unit_complete(&u, t);
            }
        }
    }
    let func_type = if at(ts, 0, Token::Int) {
        FuncType::Int
    } else if at(ts, 0, Token::Void) {
        FuncType::Void
    } else {
        return None;
    };
    let ident = match ident_at(ts, 1) {
        Some(s) => s,
        None => return None,
    };
    if !at(ts, 2, Token::LParen) || !at(ts, 3, Token::RParen) {
        return None;
    }
    let (block, p) = match parse_block(ts, 4) {
        Some(x) => x,
        None => return None,
    };
    if p != ts.len() {
        return None;
    }
    let u = CompUnit { func_def: FuncDef { func_type, ident, block, symtable: SymTable::new() } };
    proof {
        assert(t.subrange(0, 4) =~= t.subrange(0, 1) + t.subrange(1, 2) + t.subrange(2, 3) + t.subrange(3, 4));
        lemma_cat(t, 0, 4, p as int);
        assert(t.subrange(0, p as int) =~= t);
        assert(unit_in_grammar(&u) && print_unit(&u) == t);
    }
    Some(u)
}

/// Why source text is not a compilation unit.
#[derive(Debug, Clone, Copy, PartialEq, Eq, Structural)]
pub enum SyntaxError {
    /// The text has no tokens.
    Lex(LexError),
    /// The tokens spell no compilation unit.
    Grammar,
}

/// The compilation unit of the source text `src`.  A lexical error is
/// reported exactly when the text has no tokens; otherwise there is a unit
/// exactly when the tokens spell one of the grammar, and then they are its
/// spelling, and its table is fresh.
pub fn parse(src: &Vec<char>) -> (r: Result<CompUnit, SyntaxError>)
    ensures
        r matches Ok(u) ==> lex_spec(src@) == Ok::<Seq<Tok>, LexError>(print_unit(&u)) && unit_in_grammar(&u)
            && u.func_def.symtable.scopes() == seq![Map::<Seq<char>, ScopeEntry>::empty()]
            && u.func_def.symtable.cache() == Map::<usize, i32>::empty(),
        lex_spec(src@) matches Err(e) ==> r == Err::<CompUnit, SyntaxError>(SyntaxError::Lex(e)),
        lex_spec(src@) matches Ok(tk) ==> (r is Ok <==> spells_unit(tk)) && (r is Err ==> r == Err::<
            CompUnit,
            SyntaxError,
        >(SyntaxError::Grammar)),
{
    let ts = match lex(src) {
        Ok(ts) => ts,
        Err(e) => return Err(SyntaxError::Lex(e)),
    };
    match parse_tokens(&ts) {
        Some(u) => Ok(u),
        None => Err(SyntaxError::Grammar),
    }
}

} // verus!
