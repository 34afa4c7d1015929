//! The grammar: every production with its tree shaping, in the order of
//! the production ids.

use vstd::prelude::*;
use crate::parser::{Parser, ProductionView, Shaping};
use crate::tokens::Tok;

verus! {

/// A production.
pub open spec fn prod(head: Tok, body: Seq<Tok>, action: Option<Shaping>) -> ProductionView {
    ProductionView { head, body, action }
}

/// The productions of the language, by production id.
pub open spec fn grammar() -> Seq<ProductionView> {
    seq![
        prod(Tok::Start, seq![Tok::Stmts, Tok::End], None),
        prod(Tok::Stmts, seq![Tok::Stmt, Tok::Stmts], Some(Shaping::Append)),
        prod(Tok::Stmts, seq![], Some(Shaping::Empty(Tok::Stmts))),
        prod(Tok::Block, seq![Tok::LeftCurly, Tok::Stmts, Tok::RightCurly], None),
        prod(Tok::Stmt, seq![Tok::Decl], None),
        prod(Tok::Stmt, seq![Tok::Control], None),
        prod(Tok::Stmt, seq![Tok::Expr, Tok::SemiColon], None),
        prod(Tok::Stmt, seq![Tok::ReturnKW, Tok::Expr, Tok::SemiColon], Some(Shaping::Return)),
        prod(Tok::Decl, seq![Tok::Var, Tok::Eq, Tok::Expr, Tok::SemiColon], Some(Shaping::VarDecl)),
        prod(
            Tok::Decl,
            seq![
                Tok::FnKW,
                Tok::Var,
                Tok::LeftParen,
                Tok::VarList,
                Tok::RightParen,
                Tok::Block,
            ],
            Some(Shaping::FuncDecl),
        ),
        prod(Tok::Expr, seq![Tok::FuncCall], None),
        prod(Tok::Expr, seq![Tok::LeftParen, Tok::Expr, Tok::RightParen], None),
        prod(Tok::Expr, seq![Tok::Expr, Tok::BinOp, Tok::Expr], Some(Shaping::BinOp)),
        prod(Tok::Expr, seq![Tok::String], None),
        prod(Tok::Expr, seq![Tok::Int], None),
        prod(Tok::Expr, seq![Tok::Var], None),
        prod(Tok::BinOp, seq![Tok::Plus], None),
        prod(Tok::BinOp, seq![Tok::Minus], None),
        prod(
            Tok::FuncCall,
            seq![Tok::Var, Tok::LeftParen, Tok::ExprList, Tok::RightParen],
            Some(Shaping::Call),
        ),
        prod(Tok::ExprList, seq![Tok::Expr, Tok::Comma, Tok::ExprList], Some(Shaping::Append)),
        prod(Tok::ExprList, seq![Tok::Expr], Some(Shaping::Single(Tok::ExprList))),
        prod(Tok::ExprList, seq![], Some(Shaping::Empty(Tok::ExprList))),
        prod(Tok::VarList, seq![Tok::Var, Tok::Comma, Tok::VarList], Some(Shaping::Append)),
        prod(Tok::VarList, seq![Tok::Var], Some(Shaping::Single(Tok::VarList))),
        prod(Tok::VarList, seq![], Some(Shaping::Empty(Tok::VarList))),
    ]
}

impl Parser {
    /// A driver that holds the whole grammar.
    pub fn init() -> (parser: Parser)
        ensures
            parser@ == grammar(),
    {
        let mut parser = Parser::new();
        parser.install_prods();
        parser
    }

    fn install_prods(&mut self)
        requires
            old(self)@.len() == 0,
        ensures
            final(self)@ == grammar(),
    {
        // start
        self.install_start();
        // stmts
        self.install_stmts_list();
        self.install_stmts_empty();
        // block
        self.install_block();
        // stmt
        self.install_stmt_decl();
        self.install_stmt_control();
        self.install_stmt_expr();
        self.install_stmt_return();
        // decl
        self.install_decl_var();
        self.install_decl_func();
        // expr
        self.install_expr_call();
        self.install_expr_nested();
        self.install_expr_binop();
        self.install_expr_string();
        self.install_expr_int();
        self.install_expr_var();
        self.install_binops();
        // call
        self.install_call();
        self.install_expr_list_comma();
        self.install_expr_list_last();
        self.install_expr_list_empty();
        // parameters
        self.install_arg_list_comma();
        self.install_arg_list_last();
        self.install_arg_list_empty();
        assert(self@ =~= grammar());
    }

    /// `Start => Stmts End`
    pub fn install_start(&mut self)
        ensures
            final(self)@ == old(self)@.push(prod(Tok::Start, seq![Tok::Stmts, Tok::End], None)),
    {
        let body: Vec<Tok> = vec![Tok::Stmts, Tok::End];
        assert(body@ =~= seq![Tok::Stmts, Tok::End]);
        self.install_prod(Tok::Start, &body, None);
    }

    /// `Stmts => Stmt Stmts`: the statement becomes the next child of the
    /// list that follows it.
    pub fn install_stmts_list(&mut self)
        ensures
            final(self)@ == old(self)@.push(
                prod(Tok::Stmts, seq![Tok::Stmt, Tok::Stmts], Some(Shaping::Append)),
            ),
    {
        let body: Vec<Tok> = vec![Tok::Stmt, Tok::Stmts];
        assert(body@ =~= seq![Tok::Stmt, Tok::Stmts]);
        self.install_prod(Tok::Stmts, &body, Some(Shaping::Append));
    }

    /// `Stmts =>` nothing: a childless list.
    pub fn install_stmts_empty(&mut self)
        ensures
            final(self)@ == old(self)@.push(
                prod(Tok::Stmts, seq![], Some(Shaping::Empty(Tok::Stmts))),
            ),
    {
        let body: Vec<Tok> = Vec::new();
        self.install_prod(Tok::Stmts, &body, Some(Shaping::Empty(Tok::Stmts)));
    }

    /// `Block => { Stmts }`
    pub fn install_block(&mut self)
        ensures
            final(self)@ == old(self)@.push(
                prod(Tok::Block, seq![Tok::LeftCurly, Tok::Stmts, Tok::RightCurly], None),
            ),
    {
        let body: Vec<Tok> = vec![Tok::LeftCurly, Tok::Stmts, Tok::RightCurly];
        assert(body@ =~= seq![Tok::LeftCurly, Tok::Stmts, Tok::RightCurly]);
        self.install_prod(Tok::Block, &body, None);
    }

    /// `Stmt => Decl`
    pub fn install_stmt_decl(&mut self)
        ensures
            final(self)@ == old(self)@.push(prod(Tok::Stmt, seq![Tok::Decl], None)),
    {
        let body: Vec<Tok> = vec![Tok::Decl];
        assert(body@ =~= seq![Tok::Decl]);
        self.install_prod(Tok::Stmt, &body, None);
    }

    /// `Stmt => Control`
    pub fn install_stmt_control(&mut self)
        ensures
            final(self)@ == old(self)@.push(prod(Tok::Stmt, seq![Tok::Control], None)),
    {
        let body: Vec<Tok> = vec![Tok::Control];
        assert(body@ =~= seq![Tok::Control]);
        self.install_prod(Tok::Stmt, &body, None);
    }

    /// `Control => if Expr Block`. The shaping is that of a declaration: the
    /// block becomes a body that nothing calls, so no branch reaches the
    /// stream. `init` does not install this production.
    pub fn install_control_if(&mut self)
        ensures
            final(self)@ == old(self)@.push(
                prod(
                    Tok::Control,
                    seq![Tok::IfKW, Tok::Expr, Tok::Block],
                    Some(Shaping::FuncDecl),
                ),
            ),
    {
        let body: Vec<Tok> = vec![Tok::IfKW, Tok::Expr, Tok::Block];
        assert(body@ =~= seq![Tok::IfKW, Tok::Expr, Tok::Block]);
        self.install_prod(Tok::Control, &body, Some(Shaping::FuncDecl));
    }

    /// `Stmt => Expr ;`
    pub fn install_stmt_expr(&mut self)
        ensures
            final(self)@ == old(self)@.push(
                prod(Tok::Stmt, seq![Tok::Expr, Tok::SemiColon], None),
            ),
    {
        let body: Vec<Tok> = vec![Tok::Expr, Tok::SemiColon];
        assert(body@ =~= seq![Tok::Expr, Tok::SemiColon]);
        self.install_prod(Tok::Stmt, &body, None);
    }

    /// `Stmt => return Expr ;`: a return node over the expression.
    pub fn install_stmt_return(&mut self)
        ensures
            final(self)@ == old(self)@.push(
                prod(
                    Tok::Stmt,
                    seq![Tok::ReturnKW, Tok::Expr, Tok::SemiColon],
                    Some(Shaping::Return),
                ),
            ),
    {
        let body: Vec<Tok> = vec![Tok::ReturnKW, Tok::Expr, Tok::SemiColon];
        assert(body@ =~= seq![Tok::ReturnKW, Tok::Expr, Tok::SemiColon]);
        self.install_prod(Tok::Stmt, &body, Some(Shaping::Return));
    }

    /// `Decl => Var = Expr ;`: the assignment.
    pub fn install_decl_var(&mut self)
        ensures
            final(self)@ == old(self)@.push(
                prod(
                    Tok::Decl,
                    seq![Tok::Var, Tok::Eq, Tok::Expr, Tok::SemiColon],
                    Some(Shaping::VarDecl),
                ),
            ),
    {
        let body: Vec<Tok> = vec![Tok::Var, Tok::Eq, Tok::Expr, Tok::SemiColon];
        assert(body@ =~= seq![Tok::Var, Tok::Eq, Tok::Expr, Tok::SemiColon]);
        self.install_prod(Tok::Decl, &body, Some(Shaping::VarDecl));
    }

    /// `Decl => fn Var ( VarList ) Block`: the function declaration.
    pub fn install_decl_func(&mut self)
        ensures
            final(self)@ == old(self)@.push(
                prod(
                    Tok::Decl,
                    seq![
                        Tok::FnKW,
                        Tok::Var,
                        Tok::LeftParen,
                        Tok::VarList,
                        Tok::RightParen,
                        Tok::Block,
                    ],
                    Some(Shaping::FuncDecl),
                ),
            ),
    {
        let body: Vec<Tok> = vec![
            Tok::FnKW,
            Tok::Var,
            Tok::LeftParen,
            Tok::VarList,
            Tok::RightParen,
            Tok::Block,
        ];
        assert(body@ =~= seq![
            Tok::FnKW,
            Tok::Var,
            Tok::LeftParen,
            Tok::VarList,
            Tok::RightParen,
            Tok::Block,
        ]);
        self.install_prod(Tok::Decl, &body, Some(Shaping::FuncDecl));
    }

    /// `Expr => FuncCall`
    pub fn install_expr_call(&mut self)
        ensures
            final(self)@ == old(self)@.push(prod(Tok::Expr, seq![Tok::FuncCall], None)),
    {
        let body: Vec<Tok> = vec![Tok::FuncCall];
        assert(body@ =~= seq![Tok::FuncCall]);
        self.install_prod(Tok::Expr, &body, None);
    }

    /// `Expr => ( Expr )`
    pub fn install_expr_nested(&mut self)
        ensures
            final(self)@ == old(self)@.push(
                prod(Tok::Expr, seq![Tok::LeftParen, Tok::Expr, Tok::RightParen], None),
            ),
    {
        let body: Vec<Tok> = vec![Tok::LeftParen, Tok::Expr, Tok::RightParen];
        assert(body@ =~= seq![Tok::LeftParen, Tok::Expr, Tok::RightParen]);
        self.install_prod(Tok::Expr, &body, None);
    }

    /// `Expr => Expr BinOp Expr`: the operation, folded where both operands
    /// are literals.
    pub fn install_expr_binop(&mut self)
        ensures
            final(self)@ == old(self)@.push(
                prod(Tok::Expr, seq![Tok::Expr, Tok::BinOp, Tok::Expr], Some(Shaping::BinOp)),
            ),
    {
        let body: Vec<Tok> = vec![Tok::Expr, Tok::BinOp, Tok::Expr];
        assert(body@ =~= seq![Tok::Expr, Tok::BinOp, Tok::Expr]);
        self.install_prod(Tok::Expr, &body, Some(Shaping::BinOp));
    }

    /// `Expr => String`
    pub fn install_expr_string(&mut self)
        ensures
            final(self)@ == old(self)@.push(prod(Tok::Expr, seq![Tok::String], None)),
    {
        let body: Vec<Tok> = vec![Tok::String];
        assert(body@ =~= seq![Tok::String]);
        self.install_prod(Tok::Expr, &body, None);
    }

    /// `Expr => Int`
    pub fn install_expr_int(&mut self)
        ensures
            final(self)@ == old(self)@.push(prod(Tok::Expr, seq![Tok::Int], None)),
    {
        let body: Vec<Tok> = vec![Tok::Int];
        assert(body@ =~= seq![Tok::Int]);
        self.install_prod(Tok::Expr, &body, None);
    }

    /// `Expr => Var`
    pub fn install_expr_var(&mut self)
        ensures
            final(self)@ == old(self)@.push(prod(Tok::Expr, seq![Tok::Var], None)),
    {
        let body: Vec<Tok> = vec![Tok::Var];
        assert(body@ =~= seq![Tok::Var]);
        self.install_prod(Tok::Expr, &body, None);
    }

    /// `BinOp => +` and `BinOp => -`
    pub fn install_binops(&mut self)
        ensures
            final(self)@ == old(self)@.push(prod(Tok::BinOp, seq![Tok::Plus], None)).push(
                prod(Tok::BinOp, seq![Tok::Minus], None),
            ),
    {
        let body: Vec<Tok> = vec![Tok::Plus];
        assert(body@ =~= seq![Tok::Plus]);
        self.install_prod(Tok::BinOp, &body, None);
        let minus: Vec<Tok> = vec![Tok::Minus];
        assert(minus@ =~= seq![Tok::Minus]);
        self.install_prod(Tok::BinOp, &minus, None);
    }

    /// `FuncCall => Var ( ExprList )`: the call.
    pub fn install_call(&mut self)
        ensures
            final(self)@ == old(self)@.push(
                prod(
                    Tok::FuncCall,
                    seq![Tok::Var, Tok::LeftParen, Tok::ExprList, Tok::RightParen],
                    Some(Shaping::Call),
                ),
            ),
    {
        let body: Vec<Tok> = vec![Tok::Var, Tok::LeftParen, Tok::ExprList, Tok::RightParen];
        assert(body@ =~= seq![Tok::Var, Tok::LeftParen, Tok::ExprList, Tok::RightParen]);
        self.install_prod(Tok::FuncCall, &body, Some(Shaping::Call));
    }

    /// `ExprList => Expr , ExprList`: the expression becomes the next child
    /// of the list that follows it.
    pub fn install_expr_list_comma(&mut self)
        ensures
            final(self)@ == old(self)@.push(
                prod(
                    Tok::ExprList,
                    seq![Tok::Expr, Tok::Comma, Tok::ExprList],
                    Some(Shaping::Append),
                ),
            ),
    {
        let body: Vec<Tok> = vec![Tok::Expr, Tok::Comma, Tok::ExprList];
        assert(body@ =~= seq![Tok::Expr, Tok::Comma, Tok::ExprList]);
        self.install_prod(Tok::ExprList, &body, Some(Shaping::Append));
    }

    /// `ExprList => Expr`: a fresh list over the rightmost expression.
    pub fn install_expr_list_last(&mut self)
        ensures
            final(self)@ == old(self)@.push(
                prod(Tok::ExprList, seq![Tok::Expr], Some(Shaping::Single(Tok::ExprList))),
            ),
    {
        let body: Vec<Tok> = vec![Tok::Expr];
        assert(body@ =~= seq![Tok::Expr]);
        self.install_prod(Tok::ExprList, &body, Some(Shaping::Single(Tok::ExprList)));
    }

    /// `ExprList =>` nothing: a childless list.
    pub fn install_expr_list_empty(&mut self)
        ensures
            final(self)@ == old(self)@.push(
                prod(Tok::ExprList, seq![], Some(Shaping::Empty(Tok::ExprList))),
            ),
    {
        let body: Vec<Tok> = Vec::new();
        self.install_prod(Tok::ExprList, &body, Some(Shaping::Empty(Tok::ExprList)));
    }

    /// `VarList => Var , VarList`: the parameter becomes the next child of
    /// the list that follows it.
    pub fn install_arg_list_comma(&mut self)
        ensures
            final(self)@ == old(self)@.push(
                prod(
                    Tok::VarList,
                    seq![Tok::Var, Tok::Comma, Tok::VarList],
                    Some(Shaping::Append),
                ),
            ),
    {
        let body: Vec<Tok> = vec![Tok::Var, Tok::Comma, Tok::VarList];
        assert(body@ =~= seq![Tok::Var, Tok::Comma, Tok::VarList]);
        self.install_prod(Tok::VarList, &body, Some(Shaping::Append));
    }

    /// `VarList => Var`: a fresh list over the rightmost parameter.
    pub fn install_arg_list_last(&mut self)
        ensures
            final(self)@ == old(self)@.push(
                prod(Tok::VarList, seq![Tok::Var], Some(Shaping::Single(Tok::VarList))),
            ),
    {
        let body: Vec<Tok> = vec![Tok::Var];
        assert(body@ =~= seq![Tok::Var]);
        self.install_prod(Tok::VarList, &body, Some(Shaping::Single(Tok::VarList)));
    }

    /// `VarList =>` nothing: a childless list.
    pub fn install_arg_list_empty(&mut self)
        ensures
            final(self)@ == old(self)@.push(
                prod(Tok::VarList, seq![], Some(Shaping::Empty(Tok::VarList))),
            ),
    {
        let body: Vec<Tok> = Vec::new();
        self.install_prod(Tok::VarList, &body, Some(Shaping::Empty(Tok::VarList)));
    }
}

} // verus!
