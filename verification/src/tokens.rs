//! Token kinds shared by the scanner, the parse table and the syntax tree.

use vstd::prelude::*;

verus! {

pub type TokID = usize;

/// The kind of a terminal or non-terminal grammar symbol.
#[derive(Debug, Clone, Copy, PartialEq, Eq, Structural)]
pub enum Tok {
    Var,
    Int,
    String,
    // key words
    FnKW,
    LetKW,
    IfKW,
    // one char terms
    LeftCurly,
    RightCurly,
    LeftParen,
    RightParen,
    SemiColon,
    Comma,
    Eq,
    Plus,
    Minus,
    End,
    // non-terminals
    Start,
    Stmts,
    Stmt,
    FuncCall,
    FuncDecl,
    ExprStmt,
    StmtDecl,
    ExprList,
    ArgList,
    Block,
    Expr,
    NestedExpr,
    BinExpr,
    Value,
    BinOp,
    ReturnKW,
    Decl,
    Control,
    VarList,
}

/// Number of token kinds; the valid token ids are `0 .. TOK_COUNT`.
pub const TOK_COUNT: usize = 35;

/// The keyword that an identifier's text denotes, if any.
pub open spec fn keyword_of(word: Seq<char>) -> Option<Tok> {
    if word == "fn"@ {
        Some(Tok::FnKW)
    } else if word == "let"@ {
        Some(Tok::LetKW)
    } else if word == "if"@ {
        Some(Tok::IfKW)
    } else if word == "return"@ {
        Some(Tok::ReturnKW)
    } else {
        None
    }
}

/// The token kind with the given id, in declaration order.
pub open spec fn tok_of_id(tid: int) -> Tok {
    if tid == 0 {
        Tok::Var
    } else if tid == 1 {
        Tok::Int
    } else if tid == 2 {
        Tok::String
    } else if tid == 3 {
        Tok::FnKW
    } else if tid == 4 {
        Tok::LetKW
    } else if tid == 5 {
        Tok::IfKW
    } else if tid == 6 {
        Tok::LeftCurly
    } else if tid == 7 {
        Tok::RightCurly
    } else if tid == 8 {
        Tok::LeftParen
    } else if tid == 9 {
        Tok::RightParen
    } else if tid == 10 {
        Tok::SemiColon
    } else if tid == 11 {
        Tok::Comma
    } else if tid == 12 {
        Tok::Eq
    } else if tid == 13 {
        Tok::Plus
    } else if tid == 14 {
        Tok::Minus
    } else if tid == 15 {
        Tok::End
    } else if tid == 16 {
        Tok::Start
    } else if tid == 17 {
        Tok::Stmts
    } else if tid == 18 {
        Tok::Stmt
    } else if tid == 19 {
        Tok::FuncCall
    } else if tid == 20 {
        Tok::FuncDecl
    } else if tid == 21 {
        Tok::ExprStmt
    } else if tid == 22 {
        Tok::StmtDecl
    } else if tid == 23 {
        Tok::ExprList
    } else if tid == 24 {
        Tok::ArgList
    } else if tid == 25 {
        Tok::Block
    } else if tid == 26 {
        Tok::Expr
    } else if tid == 27 {
        Tok::NestedExpr
    } else if tid == 28 {
        Tok::BinExpr
    } else if tid == 29 {
        Tok::Value
    } else if tid == 30 {
        Tok::BinOp
    } else if tid == 31 {
        Tok::ReturnKW
    } else if tid == 32 {
        Tok::Decl
    } else if tid == 33 {
        Tok::Control
    } else {
        Tok::VarList
    }
}

/// The id of a token kind: its position in declaration order.
pub open spec fn id_of_tok(tok: Tok) -> int {
    match tok {
        Tok::Var => 0,
        Tok::Int => 1,
        Tok::String => 2,
        Tok::FnKW => 3,
        Tok::LetKW => 4,
        Tok::IfKW => 5,
        Tok::LeftCurly => 6,
        Tok::RightCurly => 7,
        Tok::LeftParen => 8,
        Tok::RightParen => 9,
        Tok::SemiColon => 10,
        Tok::Comma => 11,
        Tok::Eq => 12,
        Tok::Plus => 13,
        Tok::Minus => 14,
        Tok::End => 15,
        Tok::Start => 16,
        Tok::Stmts => 17,
        Tok::Stmt => 18,
        Tok::FuncCall => 19,
        Tok::FuncDecl => 20,
        Tok::ExprStmt => 21,
        Tok::StmtDecl => 22,
        Tok::ExprList => 23,
        Tok::ArgList => 24,
        Tok::Block => 25,
        Tok::Expr => 26,
        Tok::NestedExpr => 27,
        Tok::BinExpr => 28,
        Tok::Value => 29,
        Tok::BinOp => 30,
        Tok::ReturnKW => 31,
        Tok::Decl => 32,
        Tok::Control => 33,
        Tok::VarList => 34,
    }
}

/// Reclassifies an identifier's text: `Some(keyword)` exactly for the words
/// `fn`, `let`, `if` and `return`.
pub fn keyword_check(word: &str) -> (kw: Option<Tok>)
    ensures
        kw == keyword_of(word@),
{
    if str_eq(word, "fn") {
        Some(Tok::FnKW)
    } else if str_eq(word, "let") {
        Some(Tok::LetKW)
    } else if str_eq(word, "if") {
        Some(Tok::IfKW)
    } else if str_eq(word, "return") {
        Some(Tok::ReturnKW)
    } else {
        None
    }
}

/// Whether two string slices hold the same characters.
pub fn str_eq(a: &str, b: &str) -> (same: bool)
    ensures
        same == (a@ == b@),
{
    let n: usize = a.unicode_len();
    if n != b.unicode_len() {
        return false;
    }
    let mut i: usize = 0;
    while i < n
        invariant
            n == a@.len(),
            n == b@.len(),
            i <= n,
            forall|k: int| 0 <= k < i ==> a@[k] == b@[k],
        decreases n - i,
    {
        if a.get_char(i) != b.get_char(i) {
            return false;
        }
        i += 1;
    }
    assert(a@ =~= b@);
    true
}

/// The token kind numbered `tid`.
pub fn tid_to_tok(tid: TokID) -> (tok: Tok)
    requires
        tid < TOK_COUNT,
    ensures
        tok == tok_of_id(tid as int),
        id_of_tok(tok) == tid,
{
    match tid {
        0 => Tok::Var,
        1 => Tok::Int,
        2 => Tok::String,
        3 => Tok::FnKW,
        4 => Tok::LetKW,
        5 => Tok::IfKW,
        6 => Tok::LeftCurly,
        7 => Tok::RightCurly,
        8 => Tok::LeftParen,
        9 => Tok::RightParen,
        10 => Tok::SemiColon,
        11 => Tok::Comma,
        12 => Tok::Eq,
        13 => Tok::Plus,
        14 => Tok::Minus,
        15 => Tok::End,
        16 => Tok::Start,
        17 => Tok::Stmts,
        18 => Tok::Stmt,
        19 => Tok::FuncCall,
        20 => Tok::FuncDecl,
        21 => Tok::ExprStmt,
        22 => Tok::StmtDecl,
        23 => Tok::ExprList,
        24 => Tok::ArgList,
        25 => Tok::Block,
        26 => Tok::Expr,
        27 => Tok::NestedExpr,
        28 => Tok::BinExpr,
        29 => Tok::Value,
        30 => Tok::BinOp,
        31 => Tok::ReturnKW,
        32 => Tok::Decl,
        33 => Tok::Control,
        _ => Tok::VarList,
    }
}

impl Tok {
    /// Whether this kind is punctuation or a keyword that leaves no node in
    /// the tree.
    pub open spec fn is_non_semantic(self) -> bool {
        matches!(
            self,
            Tok::LeftCurly | Tok::RightCurly | Tok::LeftParen | Tok::RightParen | Tok::SemiColon
                | Tok::Comma | Tok::FnKW | Tok::LetKW | Tok::ReturnKW | Tok::End
        )
    }

    /// True for the kinds that are consumed by the grammar without building a
    /// leaf node.
    pub fn non_semantic_token(&self) -> (skip: bool)
        ensures
            skip == self.is_non_semantic(),
    {
        match self {
            Tok::LeftCurly
            | Tok::RightCurly
            | Tok::LeftParen
            | Tok::RightParen
            | Tok::SemiColon
            | Tok::Comma
            | Tok::FnKW
            | Tok::LetKW
            | Tok::ReturnKW
            | Tok::End => true,
            _ => false,
        }
    }
}

} // verus!
