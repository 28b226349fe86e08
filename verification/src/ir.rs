//! The statements that the parser produces and the interpreter runs.

use vstd::prelude::*;

verus! {

/// A constant written in the source text.
#[derive(Debug, PartialEq, Eq)]
pub enum Literal {
    /// A single integer.
    Number(i64),
    /// A list of integers, written with `|` between them.
    Array(Vec<i64>),
    /// `[n]`: an array of `n` zeros.
    ArrayByLength(i64),
}

/// What a [`Literal`] is to a contract.
pub ghost enum LiteralView {
    Number(i64),
    Array(Seq<i64>),
    ArrayByLength(i64),
}

impl View for Literal {
    type V = LiteralView;

    open spec fn view(&self) -> LiteralView {
        match self {
            Literal::Number(n) => LiteralView::Number(*n),
            Literal::Array(items) => LiteralView::Array(items@),
            Literal::ArrayByLength(n) => LiteralView::ArrayByLength(*n),
        }
    }
}

impl Clone for Literal {
    fn clone(&self) -> (copy: Literal)
        ensures
            copy@ == self@,
    {
        match self {
            Literal::Number(n) => Literal::Number(*n),
            Literal::Array(items) => Literal::Array(items.clone()),
            Literal::ArrayByLength(n) => Literal::ArrayByLength(*n),
        }
    }
}

/// The name of a variable. Names are compared character by character.
#[derive(Debug, PartialEq, Eq)]
pub struct Ident(pub String);

impl View for Ident {
    type V = Seq<char>;

    open spec fn view(&self) -> Seq<char> {
        self.0@
    }
}

impl Clone for Ident {
    fn clone(&self) -> (copy: Ident)
        ensures
            copy@ == self@,
    {
        Ident(self.0.clone())
    }
}

/// Something that can be read for its value.
#[derive(Debug, PartialEq, Eq)]
pub enum Expr {
    /// A constant.
    Lit(Literal),
    /// A variable indexed by one position or by a list of positions.
    Index(Ident, Literal),
    /// A whole variable.
    Ident(Ident),
}

/// What an [`Expr`] is to a contract.
pub ghost enum ExprView {
    Lit(LiteralView),
    Index(Seq<char>, LiteralView),
    Ident(Seq<char>),
}

impl View for Expr {
    type V = ExprView;

    open spec fn view(&self) -> ExprView {
        match self {
            Expr::Lit(literal) => ExprView::Lit(literal@),
            Expr::Index(ident, literal) => ExprView::Index(ident@, literal@),
            Expr::Ident(ident) => ExprView::Ident(ident@),
        }
    }
}

impl Clone for Expr {
    fn clone(&self) -> (copy: Expr)
        ensures
            copy@ == self@,
    {
        match self {
            Expr::Lit(literal) => Expr::Lit(literal.clone()),
            Expr::Index(ident, literal) => Expr::Index(ident.clone(), literal.clone()),
            Expr::Ident(ident) => Expr::Ident(ident.clone()),
        }
    }
}

/// One step of a program.
#[derive(Debug, PartialEq, Eq)]
pub enum Stmt {
    /// Binds a name to the value of a literal, whatever the name held before.
    Decl(Ident, Literal),
    /// Writes the value of a literal to a variable or to positions of an array.
    Assign(Expr, Literal),
    /// Emits the value of an expression as one line.
    Print(Expr),
    /// Emits a fixed line and touches nothing.
    Test5G,
}

/// What a [`Stmt`] is to a contract.
pub ghost enum StmtView {
    Decl(Seq<char>, LiteralView),
    Assign(ExprView, LiteralView),
    Print(ExprView),
    Test5G,
}

impl View for Stmt {
    type V = StmtView;

    open spec fn view(&self) -> StmtView {
        match self {
            Stmt::Decl(ident, literal) => StmtView::Decl(ident@, literal@),
            Stmt::Assign(target, literal) => StmtView::Assign(target@, literal@),
            Stmt::Print(expr) => StmtView::Print(expr@),
            Stmt::Test5G => StmtView::Test5G,
        }
    }
}

impl Clone for Stmt {
    fn clone(&self) -> (copy: Stmt)
        ensures
            copy@ == self@,
    {
        match self {
            Stmt::Decl(ident, literal) => Stmt::Decl(ident.clone(), literal.clone()),
            Stmt::Assign(target, literal) => Stmt::Assign(target.clone(), literal.clone()),
            Stmt::Print(expr) => Stmt::Print(expr.clone()),
            Stmt::Test5G => Stmt::Test5G,
        }
    }
}

/// The views of a sequence of statements, in order.
pub open spec fn stmt_views(stmts: Seq<Stmt>) -> Seq<StmtView> {
    Seq::new(stmts.len(), |i: int| stmts[i]@)
}

} // verus!
