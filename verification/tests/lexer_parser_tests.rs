use sysy_compiler::ast::{
    AddExp, BlockItem, Decl, FuncType, LOrExp, LAndExp, EqExp, RelExp, MulExp, Stmt, UnaryExp,
    PrimaryExp, VarDef,
};
use sysy_compiler::lexer::{lex, LexError, Token};
use sysy_compiler::parser::{parse, parse_tokens, SyntaxError};

fn tokens(src: &str) -> Result<Vec<Token>, LexError> {
    let chars: Vec<char> = src.chars().collect();
    lex(&chars)
}

fn numbers(src: &str) -> Vec<i32> {
    tokens(src)
        .unwrap()
        .into_iter()
        .filter_map(|t| match t {
            Token::Number(n) => Some(n),
            _ => None,
        })
        .collect()
}

#[test]
fn lex_small_program() {
    let ts = tokens("int main() { return 0; }").unwrap();
    assert_eq!(ts.len(), 9);
    assert!(matches!(ts[0], Token::Int));
    assert!(matches!(ts[1], Token::Ident(ref s) if s == "main"));
    assert!(matches!(ts[2], Token::LParen));
    assert!(matches!(ts[3], Token::RParen));
    assert!(matches!(ts[4], Token::LBrace));
    assert!(matches!(ts[5], Token::Return));
    assert!(matches!(ts[6], Token::Number(0)));
    assert!(matches!(ts[7], Token::Semi));
    assert!(matches!(ts[8], Token::RBrace));
}

#[test]
fn lex_number_bases() {
    assert_eq!(numbers("10 010 0x10 0X1f 0 0xABC"), vec![10, 8, 16, 31, 0, 2748]);
    assert_eq!(numbers("2147483647 0x7fffffff 017777777777"), vec![i32::MAX, i32::MAX, i32::MAX]);
}

#[test]
fn lex_keywords_and_identifiers() {
    let ts = tokens("const void integer _x1 return_").unwrap();
    assert!(matches!(ts[0], Token::Const));
    assert!(matches!(ts[1], Token::Void));
    assert!(matches!(ts[2], Token::Ident(ref s) if s == "integer"));
    assert!(matches!(ts[3], Token::Ident(ref s) if s == "_x1"));
    assert!(matches!(ts[4], Token::Ident(ref s) if s == "return_"));
}

#[test]
fn lex_operators_longest_match() {
    let ts = tokens("a<=b>=c==d!=e&&f||g<h>i=j!k+-*/%").unwrap();
    let kinds: Vec<&str> = ts
        .iter()
        .map(|t| match t {
            Token::Ident(_) => "id",
            Token::Le => "<=",
            Token::Ge => ">=",
            Token::EqEq => "==",
            Token::NotEq => "!=",
            Token::AndAnd => "&&",
            Token::OrOr => "||",
            Token::Lt => "<",
            Token::Gt => ">",
            Token::Assign => "=",
            Token::Not => "!",
            Token::Plus => "+",
            Token::Minus => "-",
            Token::Star => "*",
            Token::Slash => "/",
            Token::Percent => "%",
            _ => "?",
        })
        .collect();
    assert_eq!(
        kinds,
        vec![
            "id", "<=", "id", ">=", "id", "==", "id", "!=", "id", "&&", "id", "||", "id", "<", "id",
            ">", "id", "=", "id", "!", "id", "+", "-", "*", "/", "%"
        ]
    );
}

#[test]
fn lex_comments_are_separators() {
    assert_eq!(numbers("1 // two 2\n3 /* 4 * / 5 **/ 6"), vec![1, 3, 6]);
    assert_eq!(numbers("7// end"), vec![7]);
    assert_eq!(numbers("8/**/9"), vec![8, 9]);
}

#[test]
fn lex_errors() {
    assert!(matches!(tokens("int @"), Err(LexError::UnexpectedChar('@'))));
    assert!(matches!(tokens("a & b"), Err(LexError::UnexpectedChar('&'))));
    assert!(matches!(tokens("a |"), Err(LexError::UnexpectedChar('|'))));
    assert!(matches!(tokens("/* open"), Err(LexError::UnterminatedComment)));
    assert!(matches!(tokens("/* open *"), Err(LexError::UnterminatedComment)));
    assert!(matches!(tokens("2147483648"), Err(LexError::NumberTooLarge)));
    assert!(matches!(tokens("0x80000000"), Err(LexError::NumberTooLarge)));
    assert!(matches!(tokens("0x"), Err(LexError::MissingHexDigits)));
    assert!(matches!(tokens("0xg"), Err(LexError::MissingHexDigits)));
}

#[test]
fn lex_octal_stops_at_non_octal_digit() {
    assert_eq!(numbers("078"), vec![7, 8]);
    assert_eq!(numbers("09"), vec![0, 9]);
}

#[test]
fn parse_function_header() {
    let chars: Vec<char> = "int main() { }".chars().collect();
    let u = parse(&chars).unwrap();
    assert_eq!(u.func_def.func_type, FuncType::Int);
    assert_eq!(u.func_def.ident, "main");
    assert_eq!(u.func_def.block.items.len(), 0);
    let chars: Vec<char> = "void f() { return 1; }".chars().collect();
    let u = parse(&chars).unwrap();
    assert_eq!(u.func_def.func_type, FuncType::Void);
}

#[test]
fn parse_declarations_and_statements() {
    let src = "int main() { const int a = 1, b = 2; int x, y = 3; x = a; x; ; { } return y; }";
    let chars: Vec<char> = src.chars().collect();
    let u = parse(&chars).unwrap();
    let items = &u.func_def.block.items;
    assert_eq!(items.len(), 7);
    match &items[0] {
        BlockItem::Decl(Decl::ConstDecl(cd)) => {
            assert_eq!(cd.defs.len(), 2);
            assert_eq!(cd.defs[0].ident, "a");
            assert_eq!(cd.defs[1].ident, "b");
        }
        _ => panic!("const declaration expected"),
    }
    match &items[1] {
        BlockItem::Decl(Decl::VarDecl(vd)) => {
            assert_eq!(vd.defs.len(), 2);
            assert!(matches!(vd.defs[0], VarDef::IDENT(ref s) if s == "x"));
            assert!(matches!(vd.defs[1], VarDef::IDENTInitVal(ref s, _) if s == "y"));
        }
        _ => panic!("variable declaration expected"),
    }
    assert!(matches!(&items[2], BlockItem::Stmt(Stmt::Assign(l, _)) if l.ident == "a" || l.ident == "x"));
    assert!(matches!(&items[3], BlockItem::Stmt(Stmt::ExprStmt(Some(_)))));
    assert!(matches!(&items[4], BlockItem::Stmt(Stmt::ExprStmt(None))));
    assert!(matches!(&items[5], BlockItem::Stmt(Stmt::Block(b)) if b.items.is_empty()));
    assert!(matches!(&items[6], BlockItem::Stmt(Stmt::Return(_))));
}

#[test]
fn parse_binary_operators_associate_left() {
    let chars: Vec<char> = "int main() { return 1 - 2 - 3; }".chars().collect();
    let u = parse(&chars).unwrap();
    let e = match &u.func_def.block.items[0] {
        BlockItem::Stmt(Stmt::Return(e)) => e,
        _ => panic!("return expected"),
    };
    let add = match &e.lorexp {
        LOrExp::And(LAndExp::Eq(EqExp::Rel(RelExp::Add(a)))) => a,
        _ => panic!("additive expression expected"),
    };
    match add {
        AddExp::Sub(lhs, rhs) => {
            assert!(matches!(**lhs, AddExp::Sub(_, _)));
            assert!(matches!(
                rhs,
                MulExp::Unary(UnaryExp::Primary(PrimaryExp::Number(3)))
            ));
        }
        _ => panic!("subtraction expected"),
    }
}

#[test]
fn parse_grammar_errors() {
    for src in [
        "int main() { return 1 }",
        "int main() { return 1; } 2",
        "int main( { }",
        "main() { }",
        "int main() { int; }",
        "int main() { const x = 1; }",
        "int main() { 1 = 2; }",
        "int main() { return (1; }",
        "",
    ] {
        let chars: Vec<char> = src.chars().collect();
        assert!(matches!(parse(&chars), Err(SyntaxError::Grammar)), "{}", src);
    }
}

#[test]
fn parse_reports_lexical_errors() {
    let chars: Vec<char> = "int main() { return 1 $ 2; }".chars().collect();
    assert!(matches!(parse(&chars), Err(SyntaxError::Lex(LexError::UnexpectedChar('$')))));
}

#[test]
fn parse_tokens_directly() {
    let ts = vec![
        Token::Int,
        Token::Ident(String::from("f")),
        Token::LParen,
        Token::RParen,
        Token::LBrace,
        Token::RBrace,
    ];
    let u = parse_tokens(&ts).unwrap();
    assert_eq!(u.func_def.ident, "f");
    let ts = vec![Token::Int, Token::Ident(String::from("f")), Token::LParen];
    assert!(parse_tokens(&ts).is_none());
}

#[test]
fn parse_gives_a_fresh_table() {
    let chars: Vec<char> = "int main() { return 0; }".chars().collect();
    let u = parse(&chars).unwrap();
    assert!(u.func_def.symtable.get("main").is_none());
    assert!(u.func_def.symtable.value_cache.is_empty());
}
