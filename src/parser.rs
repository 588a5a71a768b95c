//! Parsing: tokens to a syntax tree by recursive descent for statements and precedence
//! climbing for expressions. The spec functions `stmts_from`, `expression_at` and their
//! helpers define the grammar over the lexed token sequence; `Parser` is proved to compute
//! exactly what they define. `let` and `return` carry their expression: `let <ident> =
//! <expr>` and `return <expr>` or a bare `return;`, each with an optional closing `;`.

use vstd::prelude::*;
use vstd::string::StringSliceAdditionalSpecFns;

use crate::ast::{
    Expr, ExprPrecedence, ExprView, Ident, InfixOperator, Let, PrefixOperator, Program, Stmt,
    StmtView,
};
use crate::lexer::{
    lemma_lex_step, lex_from, lexeme_view, lexemes_from, LexError, Lexeme, LexemeView, Lexer,
};
use crate::token::{Token, TokenView};

verus! {

/// The first failure met while parsing.
#[derive(Debug, Clone, PartialEq)]
pub enum ParseError {
    /// A name was required (after `let`) and this token stood there.
    ExpectedIdent(Token),
    /// A fixed token was required and another one stood there.
    UnexpectedToken { expected: Token, got: Token },
    /// This token cannot begin an expression.
    NoPrefixParse(Token),
    /// This token binds like an operator but has no infix form.
    NoInfixParse(Token),
    /// A digit run does not fit in an `i64`.
    IntegerOverflow,
    /// Expressions nest deeper than `MAX_NESTING`.
    NestingTooDeep,
}

/// The value of a `ParseError`.
pub enum ParseErrorView {
    ExpectedIdent(TokenView),
    UnexpectedToken { expected: TokenView, got: TokenView },
    NoPrefixParse(TokenView),
    NoInfixParse(TokenView),
    IntegerOverflow,
    NestingTooDeep,
}

impl View for ParseError {
    type V = ParseErrorView;

    open spec fn view(&self) -> ParseErrorView {
        match self {
            ParseError::ExpectedIdent(t) => ParseErrorView::ExpectedIdent(t@),
            ParseError::UnexpectedToken { expected, got } => ParseErrorView::UnexpectedToken {
                expected: expected@,
                got: got@,
            },
            ParseError::NoPrefixParse(t) => ParseErrorView::NoPrefixParse(t@),
            ParseError::NoInfixParse(t) => ParseErrorView::NoInfixParse(t@),
            ParseError::IntegerOverflow => ParseErrorView::IntegerOverflow,
            ParseError::NestingTooDeep => ParseErrorView::NestingTooDeep,
        }
    }
}

/// How deeply expressions may nest inside one another; this bounds the parser's recursion.
pub const MAX_NESTING: usize = 256;

/// What a parsing step yields: a value and how many tokens it moved past the one it started on.
pub type Parsed<T> = Result<(T, nat), ParseErrorView>;

/// The lexeme at index `i`; past the end, the end marker.
pub open spec fn tok_at(ts: Seq<LexemeView>, i: nat) -> LexemeView {
    if i < ts.len() {
        ts[i as int]
    } else {
        Ok(TokenView::Eof)
    }
}

/// How many lexemes lie at or after index `i`.
pub open spec fn remaining(ts: Seq<LexemeView>, i: nat) -> nat {
    if i < ts.len() {
        (ts.len() - i) as nat
    } else {
        0
    }
}

/// Adds `d` to the distance moved by a successful step.
pub open spec fn advanced<T>(r: Parsed<T>, d: nat) -> Parsed<T> {
    match r {
        Ok((v, n)) => Ok((v, n + d)),
        Err(e) => Err(e),
    }
}

/// How strongly a lexeme binds as an infix operator; `LOW` for anything that is not one.
pub open spec fn precedence_of(l: LexemeView) -> ExprPrecedence {
    match l {
        Ok(TokenView::Eq) => ExprPrecedence::EQUALS,
        Ok(TokenView::NotEq) => ExprPrecedence::EQUALS,
        Ok(TokenView::LT) => ExprPrecedence::COMPARE,
        Ok(TokenView::GT) => ExprPrecedence::COMPARE,
        Ok(TokenView::Plus) => ExprPrecedence::SUM,
        Ok(TokenView::Minus) => ExprPrecedence::SUM,
        Ok(TokenView::Slash) => ExprPrecedence::PRODUCT,
        Ok(TokenView::Asterisk) => ExprPrecedence::PRODUCT,
        Ok(TokenView::LParen) => ExprPrecedence::CALL,
        _ => ExprPrecedence::LOW,
    }
}

pub open spec fn infix_operator_of(t: TokenView) -> Option<InfixOperator> {
    match t {
        TokenView::Eq => Some(InfixOperator::Equals),
        TokenView::NotEq => Some(InfixOperator::NotEquals),
        TokenView::GT => Some(InfixOperator::GreaterThan),
        TokenView::LT => Some(InfixOperator::LessThan),
        TokenView::Plus => Some(InfixOperator::Add),
        TokenView::Minus => Some(InfixOperator::Sub),
        TokenView::Slash => Some(InfixOperator::Div),
        TokenView::Asterisk => Some(InfixOperator::Mul),
        _ => None,
    }
}

/// Whether the expression that ends at index `j` extends over the operator after it.
pub open spec fn continues(ts: Seq<LexemeView>, j: nat, min: ExprPrecedence) -> bool {
    &&& !(tok_at(ts, j + 1) matches Ok(TokenView::Semicolon))
    &&& min.spec_level() < precedence_of(tok_at(ts, j + 1)).spec_level()
}

/// 1 when a `;` follows index `j`, else 0.
pub open spec fn semicolon_after(ts: Seq<LexemeView>, j: nat) -> nat {
    if tok_at(ts, j + 1) matches Ok(TokenView::Semicolon) {
        1
    } else {
        0
    }
}

/// The expression that starts at index `i` and binds tighter than `min`, nested `depth`
/// deep inside other expressions.
pub open spec fn expression_at(
    ts: Seq<LexemeView>,
    i: nat,
    min: ExprPrecedence,
    depth: nat,
) -> Parsed<ExprView>
    decreases remaining(ts, i), 3nat,
{
    if depth >= MAX_NESTING {
        Err(ParseErrorView::NestingTooDeep)
    } else {
        match prefix_at(ts, i, depth) {
            Ok((left, n)) => advanced(infix_loop_at(ts, i + n, min, left, depth), n),
            Err(e) => Err(e),
        }
    }
}

/// The expression that the token at index `i` begins.
pub open spec fn prefix_at(ts: Seq<LexemeView>, i: nat, depth: nat) -> Parsed<ExprView>
    decreases remaining(ts, i), 2nat,
{
    match tok_at(ts, i) {
        Ok(TokenView::Ident(name)) => Ok((ExprView::Ident(name), 0)),
        Ok(TokenView::Int(v)) => Ok((ExprView::IntLiteral(v), 0)),
        Ok(TokenView::Bang) => match expression_at(ts, i + 1, ExprPrecedence::PREFIX, depth + 1) {
            Ok((e, n)) => Ok(
                (ExprView::Prefix { operator: Some(PrefixOperator::Not), operand: Box::new(e) }, n
                    + 1),
            ),
            Err(e) => Err(e),
        },
        Ok(TokenView::Minus) => match expression_at(ts, i + 1, ExprPrecedence::PREFIX, depth + 1) {
            Ok((e, n)) => Ok(
                (ExprView::Prefix { operator: Some(PrefixOperator::Negate), operand: Box::new(e) }, n
                    + 1),
            ),
            Err(e) => Err(e),
        },
        Ok(t) => Err(ParseErrorView::NoPrefixParse(t)),
        Err(_) => Err(ParseErrorView::IntegerOverflow),
    }
}

/// Extends `left`, which ends at index `j`, over every operator that binds tighter than `min`.
pub open spec fn infix_loop_at(
    ts: Seq<LexemeView>,
    j: nat,
    min: ExprPrecedence,
    left: ExprView,
    depth: nat,
) -> Parsed<ExprView>
    decreases remaining(ts, j), 1nat,
{
    if continues(ts, j, min) {
        match infix_at(ts, j + 1, left, depth) {
            Ok((e, n)) => advanced(infix_loop_at(ts, j + 1 + n, min, e, depth), 1 + n),
            Err(e) => Err(e),
        }
    } else {
        Ok((left, 0))
    }
}

/// The operator at index `j` applied to `left` and to the operand after it.
pub open spec fn infix_at(
    ts: Seq<LexemeView>,
    j: nat,
    left: ExprView,
    depth: nat,
) -> Parsed<ExprView>
    decreases remaining(ts, j), 0nat,
{
    match tok_at(ts, j) {
        Ok(t) => match infix_operator_of(t) {
            Some(op) => match expression_at(ts, j + 1, precedence_of(Ok(t)), depth + 1) {
                Ok((right, n)) => Ok(
                    (ExprView::Infix { operator: op, left: Box::new(left), right: Box::new(right) }, n
                        + 1),
                ),
                Err(e) => Err(e),
            },
            None => Err(ParseErrorView::NoInfixParse(t)),
        },
        Err(_) => Err(ParseErrorView::IntegerOverflow),
    }
}

/// `let <ident> = <expr>`, with an optional `;`, at index `i`.
pub open spec fn let_at(ts: Seq<LexemeView>, i: nat) -> Parsed<StmtView> {
    match tok_at(ts, i + 1) {
        Ok(TokenView::Ident(name)) => match tok_at(ts, i + 2) {
            Ok(TokenView::Assign) => match expression_at(ts, i + 3, ExprPrecedence::LOW, 0) {
                Ok((e, n)) => Ok(
                    (StmtView::Let { name, value: Some(e) }, 3 + n + semicolon_after(ts, i + 3 + n)),
                ),
                Err(e) => Err(e),
            },
            Ok(t) => Err(ParseErrorView::UnexpectedToken { expected: TokenView::Assign, got: t }),
            Err(_) => Err(ParseErrorView::IntegerOverflow),
        },
        Ok(t) => Err(ParseErrorView::ExpectedIdent(t)),
        Err(_) => Err(ParseErrorView::IntegerOverflow),
    }
}

/// `return;` or `return <expr>` with an optional `;`, at index `i`.
pub open spec fn return_at(ts: Seq<LexemeView>, i: nat) -> Parsed<StmtView> {
    if tok_at(ts, i + 1) matches Ok(TokenView::Semicolon) {
        Ok((StmtView::Return(None), 1))
    } else {
        match expression_at(ts, i + 1, ExprPrecedence::LOW, 0) {
            Ok((e, n)) => Ok((StmtView::Return(Some(e)), 1 + n + semicolon_after(ts, i + 1 + n))),
            Err(e) => Err(e),
        }
    }
}

/// An expression with an optional `;`, at index `i`.
pub open spec fn expression_stmt_at(ts: Seq<LexemeView>, i: nat) -> Parsed<StmtView> {
    match expression_at(ts, i, ExprPrecedence::LOW, 0) {
        Ok((e, n)) => Ok((StmtView::Expr(e), n + semicolon_after(ts, i + n))),
        Err(e) => Err(e),
    }
}

/// The statement at index `i`, chosen by its first token.
pub open spec fn stmt_at(ts: Seq<LexemeView>, i: nat) -> Parsed<StmtView> {
    match tok_at(ts, i) {
        Ok(TokenView::Let) => let_at(ts, i),
        Ok(TokenView::Return) => return_at(ts, i),
        _ => expression_stmt_at(ts, i),
    }
}

/// The statements from index `i` to the end marker, or the first failure.
pub open spec fn stmts_from(ts: Seq<LexemeView>, i: nat) -> Result<Seq<StmtView>, ParseErrorView>
    decreases remaining(ts, i),
{
    if tok_at(ts, i) matches Ok(TokenView::Eof) {
        Ok(Seq::empty())
    } else {
        match stmt_at(ts, i) {
            Ok((s, n)) => match stmts_from(ts, i + n + 1) {
                Ok(rest) => Ok(seq![s] + rest),
                Err(e) => Err(e),
            },
            Err(e) => Err(e),
        }
    }
}

/// The program that a source text stands for, or the first failure in it.
pub open spec fn program_of(s: Seq<u8>) -> Result<Seq<StmtView>, ParseErrorView> {
    stmts_from(lex_from(s, 0), 0)
}

/// Pulls tokens from a `Lexer`, one beyond the current one, and builds the syntax tree.
pub struct Parser {
    l: Lexer,
    cur_tok: Lexeme,
    peek_tok: Lexeme,
    /// Everything the lexer had still to hand out when this parser was made.
    tokens: Ghost<Seq<LexemeView>>,
    /// Index of `cur_tok` in `tokens`.
    index: Ghost<nat>,
}

/// A parse result as a value and a distance, the distance being `moved`.
pub open spec fn outcome<T: View>(r: Result<T, ParseError>, moved: int) -> Parsed<T::V> {
    match r {
        Ok(v) => Ok((v@, moved as nat)),
        Err(e) => Err(e@),
    }
}

/// A program or its failure, as values.
pub open spec fn program_outcome(r: Result<Program, ParseError>) -> Result<
    Seq<StmtView>,
    ParseErrorView,
> {
    match r {
        Ok(p) => Ok(p@),
        Err(e) => Err(e@),
    }
}

/// `done` put before the statements of a successful parse.
pub open spec fn prepend(done: Seq<StmtView>, r: Result<Seq<StmtView>, ParseErrorView>) -> Result<
    Seq<StmtView>,
    ParseErrorView,
> {
    match r {
        Ok(rest) => Ok(done + rest),
        Err(e) => Err(e),
    }
}

/// How strongly a lexeme binds as an infix operator.
fn precedence(l: &Lexeme) -> (r: ExprPrecedence)
    ensures
        r == precedence_of(lexeme_view(*l)),
{
    match l {
        Ok(Token::Eq) => ExprPrecedence::EQUALS,
        Ok(Token::NotEq) => ExprPrecedence::EQUALS,
        Ok(Token::LT) => ExprPrecedence::COMPARE,
        Ok(Token::GT) => ExprPrecedence::COMPARE,
        Ok(Token::Plus) => ExprPrecedence::SUM,
        Ok(Token::Minus) => ExprPrecedence::SUM,
        Ok(Token::Slash) => ExprPrecedence::PRODUCT,
        Ok(Token::Asterisk) => ExprPrecedence::PRODUCT,
        Ok(Token::LParen) => ExprPrecedence::CALL,
        _ => ExprPrecedence::LOW,
    }
}

impl Parser {
    /// The lexemes this parser reads, up to the end marker.
    pub closed spec fn tokens(&self) -> Seq<LexemeView> {
        self.tokens@
    }

    /// Index of the current lexeme in `tokens()`.
    pub closed spec fn index(&self) -> nat {
        self.index@
    }

    pub closed spec fn wf(&self) -> bool {
        &&& self.l.wf()
        &&& lexeme_view(self.cur_tok) == tok_at(self.tokens@, self.index@)
        &&& lexeme_view(self.peek_tok) == tok_at(self.tokens@, self.index@ + 1)
        &&& self.l.pending() == lexemes_from(self.tokens@, self.index@ + 2)
    }

    /// A parser over what `lexer` has still to hand out, with the first two lexemes read.
    pub fn new(lexer: Lexer) -> (p: Parser)
        requires
            lexer.wf(),
        ensures
            p.wf(),
            p.tokens() == lexer.pending(),
            p.index() == 0,
    {
        let ghost ts = lexer.pending();
        let mut l = lexer;
        proof {
            lemma_lex_step(l.source(), l.cursor());
        }
        let first = l.next_lexeme();
        proof {
            lemma_lex_step(l.source(), l.cursor());
        }
        let second = l.next_lexeme();
        proof {
            assert(lexemes_from(lexemes_from(ts, 1), 1) =~= lexemes_from(ts, 2));
            assert(lexemes_from(ts, 1)[0] == tok_at(ts, 1));
        }
        Parser { l, cur_tok: first, peek_tok: second, tokens: Ghost(ts), index: Ghost(0) }
    }

    fn next_token(&mut self)
        requires
            old(self).wf(),
        ensures
            final(self).wf(),
            final(self).tokens() == old(self).tokens(),
            final(self).index() == old(self).index() + 1,
    {
        proof {
            lemma_lex_step(self.l.source(), self.l.cursor());
            lemma_lexemes_from_next(self.tokens@, self.index@ + 2);
        }
        let mut t = self.l.next_lexeme();
        core::mem::swap(&mut self.peek_tok, &mut t);
        self.cur_tok = t;
        self.index = Ghost(self.index@ + 1);
    }

    fn curr_tok_is(&self, tok: &Token) -> (r: bool)
        requires
            self.wf(),
        ensures
            r == (tok_at(self.tokens(), self.index()) == Ok::<TokenView, LexError>(tok@)),
    {
        match &self.cur_tok {
            Ok(t) => *t == *tok,
            Err(_) => false,
        }
    }

    fn peek_tok_is(&self, tok: &Token) -> (r: bool)
        requires
            self.wf(),
        ensures
            r == (tok_at(self.tokens(), self.index() + 1) == Ok::<TokenView, LexError>(tok@)),
    {
        match &self.peek_tok {
            Ok(t) => *t == *tok,
            Err(_) => false,
        }
    }

    fn peek_precedence(&self) -> (r: ExprPrecedence)
        requires
            self.wf(),
        ensures
            r == precedence_of(tok_at(self.tokens(), self.index() + 1)),
    {
        precedence(&self.peek_tok)
    }

    fn curr_precedence(&self) -> (r: ExprPrecedence)
        requires
            self.wf(),
        ensures
            r == precedence_of(tok_at(self.tokens(), self.index())),
    {
        precedence(&self.cur_tok)
    }

    /// Parses statements up to the end marker; the first failure ends the parse.
    pub fn parse_program(&mut self) -> (r: Result<Program, ParseError>)
        requires
            old(self).wf(),
        ensures
            program_outcome(r) == stmts_from(old(self).tokens(), old(self).index()),
    {
        let mut program = Program::new();
        let ghost ts = self.tokens@;
        let ghost start = self.index@;
        while !self.curr_tok_is(&Token::Eof)
            invariant
                self.wf(),
                self.tokens@ == ts,
                ts == old(self).tokens@,
                start == old(self).index@,
                start <= self.index@,
                stmts_from(ts, start) == prepend(program@, stmts_from(ts, self.index@)),
            decreases remaining(ts, self.index@),
        {
            let ghost i = self.index@;
            let stmt = match self.parse_stmt() {
                Ok(stmt) => stmt,
                Err(e) => {
                    return Err(e);
                },
            };
            let ghost done = program@;
            program.statements.push(stmt);
            assert(program@ =~= done.push(stmt@));
            assert(done + (seq![stmt@] + stmts_from(ts, self.index@ + 1)->Ok_0) =~= program@
                + stmts_from(ts, self.index@ + 1)->Ok_0);
            self.next_token();
        }
        assert(program@ + Seq::<StmtView>::empty() =~= program@);
        Ok(program)
    }

    fn parse_stmt(&mut self) -> (r: Result<Stmt, ParseError>)
        requires
            old(self).wf(),
        ensures
            final(self).wf(),
            final(self).tokens() == old(self).tokens(),
            old(self).index() <= final(self).index(),
            outcome(r, final(self).index() - old(self).index()) == stmt_at(
                old(self).tokens(),
                old(self).index(),
            ),
    {
        match self.cur_tok {
            Ok(Token::Let) => self.parse_let_stmt(),
            Ok(Token::Return) => self.parse_return_stmt(),
            _ => self.parse_expression_stmt(),
        }
    }

    fn parse_expression_stmt(&mut self) -> (r: Result<Stmt, ParseError>)
        requires
            old(self).wf(),
        ensures
            final(self).wf(),
            final(self).tokens() == old(self).tokens(),
            old(self).index() <= final(self).index(),
            outcome(r, final(self).index() - old(self).index()) == expression_stmt_at(
                old(self).tokens(),
                old(self).index(),
            ),
    {
        let expression = match self.parse_expression(ExprPrecedence::LOW, 0) {
            Ok(e) => e,
            Err(e) => {
                return Err(e);
            },
        };
        if self.peek_tok_is(&Token::Semicolon) {
            self.next_token();
        }
        Ok(Stmt::Expr(expression))
    }

    fn parse_expression(&mut self, precedence: ExprPrecedence, depth: usize) -> (r: Result<
        Expr,
        ParseError,
    >)
        requires
            old(self).wf(),
            depth <= MAX_NESTING,
        ensures
            final(self).wf(),
            final(self).tokens() == old(self).tokens(),
            old(self).index() <= final(self).index(),
            outcome(r, final(self).index() - old(self).index()) == expression_at(
                old(self).tokens(),
                old(self).index(),
                precedence,
                depth as nat,
            ),
        decreases remaining(old(self).tokens(), old(self).index()), 3nat,
    {
        if depth >= MAX_NESTING {
            return Err(ParseError::NestingTooDeep);
        }
        let ghost ts = self.tokens@;
        let ghost start = self.index@;
        let mut left = match self.parse_prefix_expression(depth) {
            Ok(e) => e,
            Err(e) => {
                return Err(e);
            },
        };
        while !self.peek_tok_is(&Token::Semicolon) && precedence.level()
            < self.peek_precedence().level()
            invariant
                self.wf(),
                self.tokens@ == ts,
                ts == old(self).tokens@,
                start == old(self).index@,
                start <= self.index@,
                depth < MAX_NESTING,
                expression_at(ts, start, precedence, depth as nat) == advanced(
                    infix_loop_at(ts, self.index@, precedence, left@, depth as nat),
                    (self.index@ - start) as nat,
                ),
            decreases remaining(ts, self.index@),
        {
            self.next_token();
            left = match self.parse_infix_expression(left, depth) {
                Ok(e) => e,
                Err(e) => {
                    return Err(e);
                },
            };
        }
        Ok(left)
    }

    fn parse_prefix_expression(&mut self, depth: usize) -> (r: Result<Expr, ParseError>)
        requires
            old(self).wf(),
            depth < MAX_NESTING,
        ensures
            final(self).wf(),
            final(self).tokens() == old(self).tokens(),
            old(self).index() <= final(self).index(),
            outcome(r, final(self).index() - old(self).index()) == prefix_at(
                old(self).tokens(),
                old(self).index(),
                depth as nat,
            ),
            !(tok_at(old(self).tokens(), old(self).index()) matches Ok(TokenView::Bang)
                || tok_at(old(self).tokens(), old(self).index()) matches Ok(TokenView::Minus))
                ==> final(self).index() == old(self).index(),
        decreases remaining(old(self).tokens(), old(self).index()), 2nat,
    {
        match &self.cur_tok {
            Ok(Token::Ident(name)) => self.parse_ident_expr(name.clone()),
            Ok(Token::Int(value)) => Ok(Expr::IntLiteral(*value)),
            Ok(Token::Bang) => self.parse_bang_expr(depth),
            Ok(Token::Minus) => self.parse_negate_expr(depth),
            Ok(t) => Err(ParseError::NoPrefixParse(t.duplicate())),
            Err(_) => Err(ParseError::IntegerOverflow),
        }
    }

    fn parse_infix_expression(&mut self, left: Expr, depth: usize) -> (r: Result<Expr, ParseError>)
        requires
            old(self).wf(),
            depth < MAX_NESTING,
        ensures
            final(self).wf(),
            final(self).tokens() == old(self).tokens(),
            old(self).index() <= final(self).index(),
            outcome(r, final(self).index() - old(self).index()) == infix_at(
                old(self).tokens(),
                old(self).index(),
                left@,
                depth as nat,
            ),
        decreases remaining(old(self).tokens(), old(self).index()), 0nat,
    {
        let operator = match &self.cur_tok {
            Ok(Token::Eq) => InfixOperator::Equals,
            Ok(Token::NotEq) => InfixOperator::NotEquals,
            Ok(Token::GT) => InfixOperator::GreaterThan,
            Ok(Token::LT) => InfixOperator::LessThan,
            Ok(Token::Plus) => InfixOperator::Add,
            Ok(Token::Minus) => InfixOperator::Sub,
            Ok(Token::Slash) => InfixOperator::Div,
            Ok(Token::Asterisk) => InfixOperator::Mul,
            Ok(t) => {
                return Err(ParseError::NoInfixParse(t.duplicate()));
            },
            Err(_) => {
                return Err(ParseError::IntegerOverflow);
            },
        };
        let precedence = self.curr_precedence();
        self.next_token();
        let right = match self.parse_expression(precedence, depth + 1) {
            Ok(e) => e,
            Err(e) => {
                return Err(e);
            },
        };
        Ok(Expr::InfixExpr { left: Box::new(left), right: Box::new(right), operator })
    }

    fn parse_negate_expr(&mut self, depth: usize) -> (r: Result<Expr, ParseError>)
        requires
            old(self).wf(),
            depth < MAX_NESTING,
            old(self).cur_tok == Ok::<Token, LexError>(Token::Minus),
        ensures
            final(self).wf(),
            final(self).tokens() == old(self).tokens(),
            old(self).index() <= final(self).index(),
            outcome(r, final(self).index() - old(self).index()) == prefix_at(
                old(self).tokens(),
                old(self).index(),
                depth as nat,
            ),
        decreases remaining(old(self).tokens(), old(self).index()), 1nat,
    {
        let operator = PrefixOperator::Negate;
        self.next_token();
        let right_expression = match self.parse_expression(ExprPrecedence::PREFIX, depth + 1) {
            Ok(e) => e,
            Err(e) => {
                return Err(e);
            },
        };
        Ok(Expr::PrefixExpr { expr: Box::new(right_expression), operator: Some(operator) })
    }

    fn parse_bang_expr(&mut self, depth: usize) -> (r: Result<Expr, ParseError>)
        requires
            old(self).wf(),
            depth < MAX_NESTING,
            old(self).cur_tok == Ok::<Token, LexError>(Token::Bang),
        ensures
            final(self).wf(),
            final(self).tokens() == old(self).tokens(),
            old(self).index() <= final(self).index(),
            outcome(r, final(self).index() - old(self).index()) == prefix_at(
                old(self).tokens(),
                old(self).index(),
                depth as nat,
            ),
        decreases remaining(old(self).tokens(), old(self).index()), 1nat,
    {
        let operator = PrefixOperator::Not;
        self.next_token();
        let right_expression = match self.parse_expression(ExprPrecedence::PREFIX, depth + 1) {
            Ok(e) => e,
            Err(e) => {
                return Err(e);
            },
        };
        Ok(Expr::PrefixExpr { expr: Box::new(right_expression), operator: Some(operator) })
    }

    fn parse_ident_expr(&self, ident_name: String) -> (r: Result<Expr, ParseError>)
        ensures
            r matches Ok(e) && e@ == ExprView::Ident(ident_name@),
    {
        Ok(Expr::Ident(Ident { name: ident_name }))
    }

    fn parse_return_stmt(&mut self) -> (r: Result<Stmt, ParseError>)
        requires
            old(self).wf(),
        ensures
            final(self).wf(),
            final(self).tokens() == old(self).tokens(),
            old(self).index() <= final(self).index(),
            outcome(r, final(self).index() - old(self).index()) == return_at(
                old(self).tokens(),
                old(self).index(),
            ),
    {
        if self.peek_tok_is(&Token::Semicolon) {
            self.next_token();
            return Ok(Stmt::Return(None));
        }
        self.next_token();
        let expression = match self.parse_expression(ExprPrecedence::LOW, 0) {
            Ok(e) => e,
            Err(e) => {
                return Err(e);
            },
        };
        if self.peek_tok_is(&Token::Semicolon) {
            self.next_token();
        }
        Ok(Stmt::Return(Some(expression)))
    }

    fn parse_let_stmt(&mut self) -> (r: Result<Stmt, ParseError>)
        requires
            old(self).wf(),
        ensures
            final(self).wf(),
            final(self).tokens() == old(self).tokens(),
            old(self).index() <= final(self).index(),
            outcome(r, final(self).index() - old(self).index()) == let_at(
                old(self).tokens(),
                old(self).index(),
            ),
    {
        self.next_token();
        let ident = match &self.cur_tok {
            Ok(Token::Ident(name)) => Ident { name: name.clone() },
            Ok(other) => {
                return Err(ParseError::ExpectedIdent(other.duplicate()));
            },
            Err(_) => {
                return Err(ParseError::IntegerOverflow);
            },
        };
        self.next_token();
        match self.expect_peek(Token::Assign) {
            Ok(()) => {},
            Err(e) => {
                return Err(e);
            },
        }
        let expression = match self.parse_expression(ExprPrecedence::LOW, 0) {
            Ok(e) => e,
            Err(e) => {
                return Err(e);
            },
        };
        if self.peek_tok_is(&Token::Semicolon) {
            self.next_token();
        }
        Ok(Stmt::Let(Let { ident, expr: Some(expression) }))
    }

    /// Moves past the current token when it is `tok`; otherwise reports what stood there.
    fn expect_peek(&mut self, tok: Token) -> (r: Result<(), ParseError>)
        requires
            old(self).wf(),
        ensures
            final(self).wf(),
            final(self).tokens() == old(self).tokens(),
            old(self).index() <= final(self).index(),
            match r {
                Ok(()) => {
                    &&& tok_at(old(self).tokens(), old(self).index()) == Ok::<TokenView, LexError>(
                        tok@,
                    )
                    &&& final(self).index() == old(self).index() + 1
                },
                Err(e) => {
                    &&& final(self).index() == old(self).index()
                    &&& tok_at(old(self).tokens(), old(self).index()) != Ok::<TokenView, LexError>(
                        tok@,
                    )
                    &&& e@ == match tok_at(old(self).tokens(), old(self).index()) {
                        Ok(t) => ParseErrorView::UnexpectedToken { expected: tok@, got: t },
                        Err(_) => ParseErrorView::IntegerOverflow,
                    }
                },
            },
    {
        if self.curr_tok_is(&tok) {
            self.next_token();
            Ok(())
        } else {
            match &self.cur_tok {
                Ok(t) => Err(ParseError::UnexpectedToken { expected: tok, got: t.duplicate() }),
                Err(_) => Err(ParseError::IntegerOverflow),
            }
        }
    }
}

/// Lexes and parses a whole source text with a fresh `Lexer` and `Parser`.
pub fn parse(input: &str) -> (r: Result<Program, ParseError>)
    ensures
        program_outcome(r) == program_of(input.spec_bytes()),
{
    let l = Lexer::new(input);
    let mut p = Parser::new(l);
    p.parse_program()
}

/// Parsing depends on the source text alone: two parses of the same text, each through a
/// fresh `Lexer` and `Parser`, give structurally equal programs, or equal errors.
pub proof fn lemma_parse_deterministic(
    s: Seq<u8>,
    first: Result<Program, ParseError>,
    second: Result<Program, ParseError>,
)
    requires
        program_outcome(first) == program_of(s),
        program_outcome(second) == program_of(s),
    ensures
        program_outcome(first) == program_outcome(second),
        first is Ok <==> second is Ok,
{
}

proof fn lemma_lexemes_from_next(ts: Seq<LexemeView>, m: nat)
    ensures
        lexemes_from(lexemes_from(ts, m), 1) == lexemes_from(ts, m + 1),
        lexemes_from(ts, m)[0] == tok_at(ts, m),
{
    assert(lexemes_from(lexemes_from(ts, m), 1) =~= lexemes_from(ts, m + 1));
}

} // verus!
