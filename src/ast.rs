use vstd::prelude::*;

verus! {

/// Any node of the syntax tree.
#[derive(Clone, Debug, PartialEq)]
pub enum Node {
    Program(Program),
    Stmt(Stmt),
    Expr(Expr),
}

/// The statements of one parse unit, in source order.
#[derive(Clone, Debug, PartialEq)]
pub struct Program {
    pub statements: Vec<Stmt>,
}

#[derive(Clone, Debug, PartialEq)]
pub enum Stmt {
    Let(Let),
    Return(Option<Expr>),
    Expr(Expr),
}

/// `let <ident> = <expr>`.
#[derive(Clone, Debug, PartialEq)]
pub struct Let {
    pub ident: Ident,
    pub expr: Option<Expr>,
}

#[derive(Debug, PartialEq)]
#[allow(inconsistent_fields)]
pub enum Expr {
    Ident(Ident),
    IntLiteral(i64),
    PrefixExpr { expr: Box<Expr>, operator: Option<PrefixOperator> },
    InfixExpr { left: Box<Expr>, right: Box<Expr>, operator: InfixOperator },
}

#[derive(Clone, Copy, Debug, PartialEq, Eq, Structural)]
pub enum PrefixOperator {
    Not,
    Negate,
}

#[derive(Clone, Copy, Debug, PartialEq, Eq, Structural)]
pub enum InfixOperator {
    Add,
    Sub,
    Mul,
    Div,
    Equals,
    NotEquals,
    LessThan,
    GreaterThan,
}

#[derive(Clone, Debug, PartialEq)]
pub struct Ident {
    pub name: String,
}

/// Binding strength of operators, weakest first.
#[derive(Clone, Copy, Debug, PartialEq, Eq, Structural, PartialOrd)]
pub enum ExprPrecedence {
    LOW,
    EQUALS,
    COMPARE,
    SUM,
    PRODUCT,
    PREFIX,
    CALL,
}

impl ExprPrecedence {
    pub open spec fn spec_level(self) -> nat {
        match self {
            ExprPrecedence::LOW => 0,
            ExprPrecedence::EQUALS => 1,
            ExprPrecedence::COMPARE => 2,
            ExprPrecedence::SUM => 3,
            ExprPrecedence::PRODUCT => 4,
            ExprPrecedence::PREFIX => 5,
            ExprPrecedence::CALL => 6,
        }
    }

    /// Position in the order from weakest to strongest.
    pub fn level(self) -> (r: u8)
        ensures
            r == self.spec_level(),
    {
        match self {
            ExprPrecedence::LOW => 0,
            ExprPrecedence::EQUALS => 1,
            ExprPrecedence::COMPARE => 2,
            ExprPrecedence::SUM => 3,
            ExprPrecedence::PRODUCT => 4,
            ExprPrecedence::PREFIX => 5,
            ExprPrecedence::CALL => 6,
        }
    }
}

/// The value of an expression tree, with names as character sequences.
#[allow(inconsistent_fields)]
pub enum ExprView {
    Ident(Seq<char>),
    IntLiteral(i64),
    Prefix { operator: Option<PrefixOperator>, operand: Box<ExprView> },
    Infix { operator: InfixOperator, left: Box<ExprView>, right: Box<ExprView> },
}

/// The value of a statement.
pub enum StmtView {
    Let { name: Seq<char>, value: Option<ExprView> },
    Return(Option<ExprView>),
    Expr(ExprView),
}

pub open spec fn expr_view(e: &Expr) -> ExprView
    decreases e,
{
    match e {
        Expr::Ident(ident) => ExprView::Ident(ident.name@),
        Expr::IntLiteral(v) => ExprView::IntLiteral(*v),
        Expr::PrefixExpr { expr, operator } => ExprView::Prefix {
            operator: *operator,
            operand: Box::new(expr_view(expr)),
        },
        Expr::InfixExpr { left, right, operator } => ExprView::Infix {
            operator: *operator,
            left: Box::new(expr_view(left)),
            right: Box::new(expr_view(right)),
        },
    }
}

pub open spec fn opt_expr_view(e: Option<Expr>) -> Option<ExprView> {
    match e {
        Some(x) => Some(x@),
        None => None,
    }
}

impl View for Expr {
    type V = ExprView;

    open spec fn view(&self) -> ExprView {
        expr_view(self)
    }
}

impl View for Stmt {
    type V = StmtView;

    open spec fn view(&self) -> StmtView {
        match self {
            Stmt::Let(l) => StmtView::Let { name: l.ident.name@, value: opt_expr_view(l.expr) },
            Stmt::Return(e) => StmtView::Return(opt_expr_view(*e)),
            Stmt::Expr(e) => StmtView::Expr(e@),
        }
    }
}

impl View for Program {
    type V = Seq<StmtView>;

    open spec fn view(&self) -> Seq<StmtView> {
        self.statements@.map_values(|s: Stmt| s@)
    }
}

impl Expr {
    /// A copy of this tree.
    pub fn duplicate(&self) -> (r: Expr)
        ensures
            r@ == self@,
        decreases self,
    {
        match self {
            Expr::Ident(ident) => Expr::Ident(Ident { name: ident.name.clone() }),
            Expr::IntLiteral(v) => Expr::IntLiteral(*v),
            Expr::PrefixExpr { expr, operator } => Expr::PrefixExpr {
                expr: Box::new(expr.duplicate()),
                operator: *operator,
            },
            Expr::InfixExpr { left, right, operator } => Expr::InfixExpr {
                left: Box::new(left.duplicate()),
                right: Box::new(right.duplicate()),
                operator: *operator,
            },
        }
    }
}

impl Clone for Expr {
    fn clone(&self) -> Self {
        self.duplicate()
    }
}

impl Program {
    pub fn new() -> (p: Program)
        ensures
            p@ == Seq::<StmtView>::empty(),
    {
        let p = Program { statements: Vec::new() };
        assert(p@ =~= Seq::<StmtView>::empty());
        p
    }
}

} // verus!
