//! The parser: recursive descent over the tokens, one level per precedence.
//!
//! ```text
//! program        := declaration* EOF
//! declaration    := "var" IDENTIFIER ( "=" expression )? ";" | statement
//! statement      := "print" expression ";" | expression ";"
//! expression     := assignment
//! assignment     := IDENTIFIER "=" assignment | equality
//! equality       := comparison ( ( "!=" | "==" ) comparison )*
//! comparison     := addition ( ( ">" | ">=" | "<" | "<=" ) addition )*
//! addition       := multiplication ( ( "-" | "+" ) multiplication )*
//! multiplication := unary ( ( "/" | "*" ) unary )*
//! unary          := ( "!" | "-" ) unary | primary
//! primary        := NUMBER | STRING | "false" | "true" | "nil"
//!                 | "(" expression ")" | IDENTIFIER
//! ```
use vstd::prelude::*;
use crate::scanner::{
    Token, TokenType, TokenView, eof_token, is_number_literal, lemma_number_literal_end, scan,
    scan_from, scan_step, view_tokens,
};

verus! {

#[derive(Clone, Copy, Debug, PartialEq, Eq, Structural)]
pub enum UnaryOp {
    /// `!`: the negation of the operand's truthiness.
    Not,
    /// `-`: arithmetic negation.
    Negate,
}

#[derive(Clone, Copy, Debug, PartialEq, Eq, Structural)]
pub enum BinaryOp {
    Equal,
    NotEqual,
    Less,
    LessEqual,
    Greater,
    GreaterEqual,
    Add,
    Subtract,
    Multiply,
    Divide,
}

/// An expression of the syntax tree.
#[derive(Debug, PartialEq)]
pub enum Expression {
    /// A number literal, as its source text.
    Number(String),
    /// A string literal, without its quotes.
    Literal(String),
    True,
    False,
    Nil,
    Unary(UnaryOp, Box<Expression>),
    Binary(Box<Expression>, BinaryOp, Box<Expression>),
    Grouping(Box<Expression>),
    Variable(String),
    Assign(String, Box<Expression>),
}

/// A statement of the syntax tree.
#[derive(Debug, PartialEq)]
pub enum Statement {
    /// An expression evaluated for its effect.
    ExprStmt(Expression),
    /// An expression whose value is printed.
    PrintStmt(Expression),
    /// A variable declaration, with its optional initializer.
    VarDecl(String, Option<Expression>),
}

/// An expression as a mathematical value.
pub enum ExprView {
    Number(Seq<char>),
    Literal(Seq<char>),
    True,
    False,
    Nil,
    Unary(UnaryOp, Box<ExprView>),
    Binary(Box<ExprView>, BinaryOp, Box<ExprView>),
    Grouping(Box<ExprView>),
    Variable(Seq<char>),
    Assign(Seq<char>, Box<ExprView>),
}

/// A statement as a mathematical value.
pub enum StmtView {
    ExprStmt(ExprView),
    PrintStmt(ExprView),
    VarDecl(Seq<char>, Option<ExprView>),
}

impl View for Expression {
    type V = ExprView;

    open spec fn view(&self) -> ExprView
        decreases self,
    {
        match self {
            Expression::Number(s) => ExprView::Number(s@),
            Expression::Literal(s) => ExprView::Literal(s@),
            Expression::True => ExprView::True,
            Expression::False => ExprView::False,
            Expression::Nil => ExprView::Nil,
            Expression::Unary(op, e) => ExprView::Unary(*op, Box::new((**e).view())),
            Expression::Binary(l, op, r) => ExprView::Binary(
                Box::new((**l).view()),
                *op,
                Box::new((**r).view()),
            ),
            Expression::Grouping(e) => ExprView::Grouping(Box::new((**e).view())),
            Expression::Variable(s) => ExprView::Variable(s@),
            Expression::Assign(s, e) => ExprView::Assign(s@, Box::new((**e).view())),
        }
    }
}

impl View for Statement {
    type V = StmtView;

    open spec fn view(&self) -> StmtView {
        match self {
            Statement::ExprStmt(e) => StmtView::ExprStmt(e@),
            Statement::PrintStmt(e) => StmtView::PrintStmt(e@),
            Statement::VarDecl(name, init) => StmtView::VarDecl(
                name@,
                match init {
                    Some(e) => Some(e@),
                    None => None,
                },
            ),
        }
    }
}

/// The statements of `s`, as mathematical values.
pub open spec fn view_statements(s: Seq<Statement>) -> Seq<StmtView> {
    s.map_values(|st: Statement| st@)
}

/// Why a parse failed, with the line of the token where it did.
#[derive(Clone, Copy, Debug, PartialEq, Eq, Structural)]
pub enum ParseError {
    /// A token of the `expected` kind is missing.
    MissingToken { expected: TokenType, line: usize },
    /// No expression starts at this token.
    ExpectedExpression { line: usize },
    /// The left side of `=` is not a variable.
    InvalidAssignmentTarget { line: usize },
}

/// The binary precedence levels, from the loosest to the tightest.
#[derive(Clone, Copy, Debug, PartialEq, Eq, Structural)]
pub enum Precedence {
    Equality,
    Comparison,
    Addition,
    Multiplication,
}

/// The height of a level: looser levels stand higher.
pub open spec fn rank(p: Precedence) -> nat {
    match p {
        Precedence::Equality => 4,
        Precedence::Comparison => 3,
        Precedence::Addition => 2,
        Precedence::Multiplication => 1,
    }
}

/// The level whose expressions are the operands of level `p`; `None` for unary expressions.
pub open spec fn tighter(p: Precedence) -> Option<Precedence> {
    match p {
        Precedence::Equality => Some(Precedence::Comparison),
        Precedence::Comparison => Some(Precedence::Addition),
        Precedence::Addition => Some(Precedence::Multiplication),
        Precedence::Multiplication => None,
    }
}

/// The operator that a token of kind `k` stands for at level `p`, if any.
pub open spec fn binary_op_of(p: Precedence, k: TokenType) -> Option<BinaryOp> {
    match (p, k) {
        (Precedence::Equality, TokenType::BangEqual) => Some(BinaryOp::NotEqual),
        (Precedence::Equality, TokenType::EqualEqual) => Some(BinaryOp::Equal),
        (Precedence::Comparison, TokenType::Greater) => Some(BinaryOp::Greater),
        (Precedence::Comparison, TokenType::GreaterEqual) => Some(BinaryOp::GreaterEqual),
        (Precedence::Comparison, TokenType::Less) => Some(BinaryOp::Less),
        (Precedence::Comparison, TokenType::LessEqual) => Some(BinaryOp::LessEqual),
        (Precedence::Addition, TokenType::Minus) => Some(BinaryOp::Subtract),
        (Precedence::Addition, TokenType::Plus) => Some(BinaryOp::Add),
        (Precedence::Multiplication, TokenType::Slash) => Some(BinaryOp::Divide),
        (Precedence::Multiplication, TokenType::Star) => Some(BinaryOp::Multiply),
        _ => None,
    }
}

/// The unary operator that a token of kind `k` stands for, if any.
pub open spec fn unary_op_of(k: TokenType) -> Option<UnaryOp> {
    match k {
        TokenType::Bang => Some(UnaryOp::Not),
        TokenType::Minus => Some(UnaryOp::Negate),
        _ => None,
    }
}

/// The kind of token `i`; past the end, `Eof`.
pub open spec fn kind_at(t: Seq<TokenView>, i: nat) -> TokenType {
    if i < t.len() {
        t[i as int].token_type
    } else {
        TokenType::Eof
    }
}

/// The line of token `i`.
pub open spec fn line_at(t: Seq<TokenView>, i: nat) -> usize {
    if i < t.len() {
        t[i as int].line as usize
    } else {
        0
    }
}

/// The number of tokens from position `i` to the end.
pub open spec fn remaining(t: Seq<TokenView>, i: nat) -> nat {
    if i < t.len() {
        (t.len() - i) as nat
    } else {
        0
    }
}

/// The outcome of parsing a construct: what it parsed to and how many tokens it spans.
pub type Parsed<T> = Result<(T, nat), ParseError>;

pub open spec fn missing(t: Seq<TokenView>, i: nat, expected: TokenType) -> ParseError {
    ParseError::MissingToken { expected, line: line_at(t, i) }
}

pub open spec fn expression_at(t: Seq<TokenView>, i: nat) -> Parsed<ExprView>
    decreases remaining(t, i), 15nat,
{
    assignment_at(t, i)
}

pub open spec fn assignment_at(t: Seq<TokenView>, i: nat) -> Parsed<ExprView>
    decreases remaining(t, i), 14nat,
{
    match binary_at(t, i, Precedence::Equality) {
        Err(e) => Err(e),
        Ok((target, n)) => if kind_at(t, i + n) == TokenType::Equal {
            match assignment_at(t, i + n + 1) {
                Err(e) => Err(e),
                Ok((value, m)) => match target {
                    ExprView::Variable(name) => Ok(
                        (ExprView::Assign(name, Box::new(value)), n + 1 + m),
                    ),
                    _ => Err(ParseError::InvalidAssignmentTarget { line: line_at(t, i + n) }),
                },
            }
        } else {
            Ok((target, n))
        },
    }
}

/// A left-associative chain of operands of level `p`.
pub open spec fn binary_at(t: Seq<TokenView>, i: nat, p: Precedence) -> Parsed<ExprView>
    decreases remaining(t, i), 3 * rank(p) + 1,
{
    match operand_at(t, i, p) {
        Err(e) => Err(e),
        Ok((left, n)) => match binary_tail_at(t, i + n, p, left) {
            Err(e) => Err(e),
            Ok((e, m)) => Ok((e, n + m)),
        },
    }
}

/// An operand of level `p`.
pub open spec fn operand_at(t: Seq<TokenView>, i: nat, p: Precedence) -> Parsed<ExprView>
    decreases remaining(t, i), 3 * rank(p),
{
    match tighter(p) {
        Some(q) => binary_at(t, i, q),
        None => unary_at(t, i),
    }
}

/// The rest of a chain of level `p` after `left`: each operator and operand
/// found folds into a new left operand.
pub open spec fn binary_tail_at(t: Seq<TokenView>, i: nat, p: Precedence, left: ExprView) -> Parsed<
    ExprView,
>
    decreases remaining(t, i), 3 * rank(p),
{
    match binary_op_of(p, kind_at(t, i)) {
        None => Ok((left, 0)),
        Some(op) => match operand_at(t, i + 1, p) {
            Err(e) => Err(e),
            Ok((right, n)) => match binary_tail_at(
                t,
                i + 1 + n,
                p,
                ExprView::Binary(Box::new(left), op, Box::new(right)),
            ) {
                Err(e) => Err(e),
                Ok((e, m)) => Ok((e, 1 + n + m)),
            },
        },
    }
}

pub open spec fn unary_at(t: Seq<TokenView>, i: nat) -> Parsed<ExprView>
    decreases remaining(t, i), 2nat,
{
    match unary_op_of(kind_at(t, i)) {
        Some(op) => match unary_at(t, i + 1) {
            Err(e) => Err(e),
            Ok((operand, n)) => Ok((ExprView::Unary(op, Box::new(operand)), n + 1)),
        },
        None => primary_at(t, i),
    }
}

pub open spec fn primary_at(t: Seq<TokenView>, i: nat) -> Parsed<ExprView>
    decreases remaining(t, i), 1nat,
{
    let k = kind_at(t, i);
    if k == TokenType::False {
        Ok((ExprView::False, 1))
    } else if k == TokenType::True {
        Ok((ExprView::True, 1))
    } else if k == TokenType::Nil {
        Ok((ExprView::Nil, 1))
    } else if k == TokenType::StringLiteral {
        Ok((ExprView::Literal(t[i as int].literal), 1))
    } else if k == TokenType::Number {
        Ok((ExprView::Number(t[i as int].literal), 1))
    } else if k == TokenType::LeftParen {
        match expression_at(t, i + 1) {
            Err(e) => Err(e),
            Ok((inner, n)) => if kind_at(t, i + 1 + n) == TokenType::RightParen {
                Ok((ExprView::Grouping(Box::new(inner)), n + 2))
            } else {
                Err(missing(t, i + 1 + n, TokenType::RightParen))
            },
        }
    } else if k == TokenType::Identifier {
        Ok((ExprView::Variable(t[i as int].lexeme), 1))
    } else {
        Err(ParseError::ExpectedExpression { line: line_at(t, i) })
    }
}

/// An expression followed by a semicolon; `n` tokens come before the expression.
pub open spec fn terminated_at(t: Seq<TokenView>, i: nat, n: nat) -> Parsed<ExprView> {
    match expression_at(t, i + n) {
        Err(e) => Err(e),
        Ok((e, m)) => if kind_at(t, i + n + m) == TokenType::Semicolon {
            Ok((e, n + m + 1))
        } else {
            Err(missing(t, i + n + m, TokenType::Semicolon))
        },
    }
}

pub open spec fn var_declaration_at(t: Seq<TokenView>, i: nat) -> Parsed<StmtView> {
    if kind_at(t, i + 1) != TokenType::Identifier {
        Err(missing(t, i + 1, TokenType::Identifier))
    } else {
        let name = t[i + 1int].lexeme;
        if kind_at(t, i + 2) == TokenType::Equal {
            match terminated_at(t, i, 3) {
                Err(e) => Err(e),
                Ok((init, n)) => Ok((StmtView::VarDecl(name, Some(init)), n)),
            }
        } else if kind_at(t, i + 2) == TokenType::Semicolon {
            Ok((StmtView::VarDecl(name, None), 3))
        } else {
            Err(missing(t, i + 2, TokenType::Semicolon))
        }
    }
}

pub open spec fn statement_at(t: Seq<TokenView>, i: nat) -> Parsed<StmtView> {
    if kind_at(t, i) == TokenType::Print {
        match terminated_at(t, i, 1) {
            Err(e) => Err(e),
            Ok((e, n)) => Ok((StmtView::PrintStmt(e), n)),
        }
    } else {
        match terminated_at(t, i, 0) {
            Err(e) => Err(e),
            Ok((e, n)) => Ok((StmtView::ExprStmt(e), n)),
        }
    }
}

pub open spec fn declaration_at(t: Seq<TokenView>, i: nat) -> Parsed<StmtView> {
    if kind_at(t, i) == TokenType::Var {
        var_declaration_at(t, i)
    } else {
        statement_at(t, i)
    }
}

/// The statements from token `i` up to the end of the input.
pub open spec fn program_from(t: Seq<TokenView>, i: nat) -> Result<Seq<StmtView>, ParseError>
    decreases remaining(t, i),
{
    if kind_at(t, i) == TokenType::Eof {
        Ok(seq![])
    } else {
        match declaration_at(t, i) {
            Err(e) => Err(e),
            Ok((s, n)) => match program_from(t, i + n) {
                Err(e) => Err(e),
                Ok(rest) => Ok(seq![s] + rest),
            },
        }
    }
}

/// The statements of a whole token sequence.
pub open spec fn parse_tokens(t: Seq<TokenView>) -> Result<Seq<StmtView>, ParseError> {
    program_from(t, 0)
}


/// Lexing and then parsing `n;`, for the text `n` of a number literal, gives
/// one expression statement: a number literal holding the text `n`.
pub proof fn lemma_number_statement(n: Seq<char>)
    requires
        is_number_literal(n),
    ensures
        parse_tokens(scan(n.push(';'))) == Ok::<Seq<StmtView>, ParseError>(
            seq![StmtView::ExprStmt(ExprView::Number(n))],
        ),
{
    let s = n.push(';');
    lemma_number_literal_end(n, ';');
    let len = n.len();
    assert(s.subrange(0, len as int) == n);
    assert(s.subrange(len as int, len + 1int) == seq![';']);
    let num = TokenView { token_type: TokenType::Number, lexeme: n, literal: n, line: 1 };
    let semi = TokenView {
        token_type: TokenType::Semicolon,
        lexeme: seq![';'],
        literal: seq![],
        line: 1,
    };
    assert(scan_step(s, 0, 1) == (Some(num), len, 1nat));
    assert(scan_step(s, len, 1) == (Some(semi), len + 1, 1nat));
    assert(scan_from(s, len + 1, 1) == seq![eof_token(1)]);
    assert(scan_from(s, len, 1) == seq![semi] + seq![eof_token(1)]);
    let t = seq![num, semi, eof_token(1)];
    assert(scan(s) == seq![num] + (seq![semi] + seq![eof_token(1)]));
    assert(scan(s) == t);
    let e = ExprView::Number(n);
    let one = Ok::<(ExprView, nat), ParseError>((e, 1nat));
    assert(primary_at(t, 0) == one);
    assert(unary_at(t, 0) == one);
    assert(binary_tail_at(t, 1, Precedence::Multiplication, e) == Ok::<(ExprView, nat), ParseError>((e, 0nat)));
    assert(binary_at(t, 0, Precedence::Multiplication) == one);
    assert(binary_tail_at(t, 1, Precedence::Addition, e) == Ok::<(ExprView, nat), ParseError>((e, 0nat)));
    assert(binary_at(t, 0, Precedence::Addition) == one);
    assert(binary_tail_at(t, 1, Precedence::Comparison, e) == Ok::<(ExprView, nat), ParseError>((e, 0nat)));
    assert(binary_at(t, 0, Precedence::Comparison) == one);
    assert(binary_tail_at(t, 1, Precedence::Equality, e) == Ok::<(ExprView, nat), ParseError>((e, 0nat)));
    assert(binary_at(t, 0, Precedence::Equality) == one);
    assert(assignment_at(t, 0) == one);
    assert(expression_at(t, 0) == one);
    assert(program_from(t, 2) == Ok::<Seq<StmtView>, ParseError>(seq![]));
    assert(seq![StmtView::ExprStmt(e)] + seq![] == seq![StmtView::ExprStmt(e)]);
}

/// What an exec parse returned, as a spec parse outcome spanning `n` tokens.
pub open spec fn outcome<T: View>(r: Result<T, ParseError>, n: int) -> Parsed<T::V> {
    match r {
        Ok(v) => Ok((v@, n as nat)),
        Err(e) => Err(e),
    }
}

/// `rest` with `done` put before it, if it is a success.
pub open spec fn prepend(done: Seq<StmtView>, rest: Result<Seq<StmtView>, ParseError>) -> Result<
    Seq<StmtView>,
    ParseError,
> {
    match rest {
        Ok(r) => Ok(done + r),
        Err(e) => Err(e),
    }
}

/// A chain outcome moved `k` tokens further.
pub open spec fn shifted(r: Parsed<ExprView>, k: int) -> Parsed<ExprView> {
    match r {
        Ok((e, m)) => Ok((e, (m + k) as nat)),
        Err(e) => Err(e),
    }
}

/// The parser: a cursor over the tokens of one input.
pub struct Parser {
    tokens: Vec<Token>,
    current: usize,
}

impl Parser {
    /// The tokens, as mathematical values.
    pub closed spec fn tokens_view(&self) -> Seq<TokenView> {
        view_tokens(self.tokens@)
    }

    /// The index of the next token to read.
    pub closed spec fn position(&self) -> nat {
        self.current as nat
    }

    /// The tokens end with `Eof`, and the cursor stands on one of them.
    pub closed spec fn wf(&self) -> bool {
        &&& self.tokens@.len() > 0
        &&& self.tokens@.last()@.token_type == TokenType::Eof
        &&& self.current < self.tokens@.len()
    }

    /// `self` is `old` with its cursor moved forward or left in place.
    pub closed spec fn advanced_from(&self, old: &Parser) -> bool {
        &&& self.wf()
        &&& self.tokens@ == old.tokens@
        &&& old.current <= self.current
    }

    pub fn new(tokens: Vec<Token>) -> (r: Parser)
        requires
            tokens@.len() > 0,
            tokens@.last()@.token_type == TokenType::Eof,
        ensures
            r.wf(),
            r.tokens_view() == view_tokens(tokens@),
            r.position() == 0,
    {
        Parser { tokens, current: 0 }
    }

    /// Parses declarations up to the end of the input; the first syntax error
    /// ends the parse.
    pub fn parse(&mut self) -> (r: Result<Vec<Statement>, ParseError>)
        requires
            old(self).wf(),
        ensures
            final(self).advanced_from(old(self)),
            match r {
                Ok(v) => program_from(old(self).tokens_view(), old(self).position()) == Ok::<
                    Seq<StmtView>,
                    ParseError,
                >(view_statements(v@)),
                Err(e) => program_from(old(self).tokens_view(), old(self).position()) == Err::<
                    Seq<StmtView>,
                    ParseError,
                >(e),
            },
    {
        let ghost t = self.tokens_view();
        let ghost c0 = self.current as nat;
        let mut result: Vec<Statement> = Vec::new();
        while !self.is_at_end()
            invariant
                self.advanced_from(old(self)),
                t == self.tokens_view(),
                c0 == old(self).current,
                program_from(t, c0) == prepend(view_statements(result@), program_from(t, self.current as nat)),
            decreases remaining(t, self.current as nat),
        {
            let ghost c = self.current as nat;
            let ghost done = view_statements(result@);
            match self.declaration() {
                Ok(stmt) => {
                    result.push(stmt);
                    proof {
                        assert(view_statements(result@) == done + seq![stmt@]);
                        let rest = program_from(t, self.current as nat);
                        match rest {
                            Ok(r) => assert(done + (seq![stmt@] + r) == (done + seq![stmt@]) + r),
                            Err(_) => {},
                        }
                    }
                },
                Err(e) => return Err(e),
            }
        }
        assert(view_statements(result@) + seq![] == view_statements(result@));
        Ok(result)
    }

    fn declaration(&mut self) -> (r: Result<Statement, ParseError>)
        requires
            old(self).wf(),
        ensures
            final(self).advanced_from(old(self)),
            outcome(r, final(self).current - old(self).current) == declaration_at(
                old(self).tokens_view(),
                old(self).current as nat,
            ),
    {
        if self.match_types(vec![TokenType::Var]) {
            return self.var_declaration();
        }
        self.statement()
    }

    /// The rest of a declaration whose `var` was just read.
    fn var_declaration(&mut self) -> (r: Result<Statement, ParseError>)
        requires
            old(self).wf(),
            old(self).current > 0,
            kind_at(old(self).tokens_view(), (old(self).current - 1) as nat) == TokenType::Var,
        ensures
            final(self).advanced_from(old(self)),
            outcome(r, final(self).current - old(self).current + 1) == var_declaration_at(
                old(self).tokens_view(),
                (old(self).current - 1) as nat,
            ),
    {
        match self.consume(TokenType::Identifier) {
            Ok(()) => {},
            Err(e) => return Err(e),
        }
        let var_name = self.previous().lexeme();
        let initializer = if self.match_types(vec![TokenType::Equal]) {
            match self.expression() {
                Ok(e) => Some(e),
                Err(e) => return Err(e),
            }
        } else {
            None
        };
        match self.consume(TokenType::Semicolon) {
            Ok(()) => {},
            Err(e) => return Err(e),
        }
        Ok(Statement::VarDecl(var_name, initializer))
    }

    fn statement(&mut self) -> (r: Result<Statement, ParseError>)
        requires
            old(self).wf(),
        ensures
            final(self).advanced_from(old(self)),
            outcome(r, final(self).current - old(self).current) == statement_at(
                old(self).tokens_view(),
                old(self).current as nat,
            ),
    {
        if self.match_types(vec![TokenType::Print]) {
            return self.print_statement();
        }
        self.expr_statement()
    }

    /// The rest of a print statement whose `print` was just read.
    fn print_statement(&mut self) -> (r: Result<Statement, ParseError>)
        requires
            old(self).wf(),
            old(self).current > 0,
            kind_at(old(self).tokens_view(), (old(self).current - 1) as nat) == TokenType::Print,
        ensures
            final(self).advanced_from(old(self)),
            outcome(r, final(self).current - old(self).current + 1) == statement_at(
                old(self).tokens_view(),
                (old(self).current - 1) as nat,
            ),
    {
        let expr = match self.expression() {
            Ok(e) => e,
            Err(e) => return Err(e),
        };
        match self.consume(TokenType::Semicolon) {
            Ok(()) => {},
            Err(e) => return Err(e),
        }
        Ok(Statement::PrintStmt(expr))
    }

    fn expr_statement(&mut self) -> (r: Result<Statement, ParseError>)
        requires
            old(self).wf(),
            kind_at(old(self).tokens_view(), old(self).current as nat) != TokenType::Print,
        ensures
            final(self).advanced_from(old(self)),
            outcome(r, final(self).current - old(self).current) == statement_at(
                old(self).tokens_view(),
                old(self).current as nat,
            ),
    {
        let expr = match self.expression() {
            Ok(e) => e,
            Err(e) => return Err(e),
        };
        match self.consume(TokenType::Semicolon) {
            Ok(()) => {},
            Err(e) => return Err(e),
        }
        Ok(Statement::ExprStmt(expr))
    }

    /// Parses one expression from the cursor.
    pub fn expression(&mut self) -> (r: Result<Expression, ParseError>)
        requires
            old(self).wf(),
        ensures
            final(self).advanced_from(old(self)),
            outcome(r, final(self).position() - old(self).position()) == expression_at(
                old(self).tokens_view(),
                old(self).position(),
            ),
        decreases remaining(old(self).tokens_view(), old(self).position()), 15nat,
    {
        self.assignment()
    }

    fn assignment(&mut self) -> (r: Result<Expression, ParseError>)
        requires
            old(self).wf(),
        ensures
            final(self).advanced_from(old(self)),
            outcome(r, final(self).current - old(self).current) == assignment_at(
                old(self).tokens_view(),
                old(self).current as nat,
            ),
        decreases remaining(old(self).tokens_view(), old(self).current as nat), 14nat,
    {
        let expr = match self.binary(Precedence::Equality) {
            Ok(e) => e,
            Err(e) => return Err(e),
        };
        if self.match_types(vec![TokenType::Equal]) {
            let equals_line = self.previous().line();
            let value = match self.assignment() {
                Ok(e) => e,
                Err(e) => return Err(e),
            };
            match expr {
                Expression::Variable(var_name) => Ok(Expression::Assign(var_name, Box::new(value))),
                _ => Err(ParseError::InvalidAssignmentTarget { line: equals_line }),
            }
        } else {
            Ok(expr)
        }
    }

    /// A chain of operands of level `p` joined by its operators, folded to the left.
    fn binary(&mut self, p: Precedence) -> (r: Result<Expression, ParseError>)
        requires
            old(self).wf(),
        ensures
            final(self).advanced_from(old(self)),
            outcome(r, final(self).current - old(self).current) == binary_at(
                old(self).tokens_view(),
                old(self).current as nat,
                p,
            ),
        decreases remaining(old(self).tokens_view(), old(self).current as nat), 3 * rank(p) + 1,
    {
        let ghost t = self.tokens_view();
        let ghost c0 = self.current as nat;
        let mut expr = match self.operand(p) {
            Ok(e) => e,
            Err(e) => return Err(e),
        };
        let ghost c1 = self.current as nat;
        let ghost left = expr@;
        loop
            invariant
                self.advanced_from(old(self)),
                t == self.tokens_view(),
                c0 == old(self).current,
                c0 <= c1 <= self.current,
                operand_at(t, c0, p) == Ok::<(ExprView, nat), ParseError>((left, (c1 - c0) as nat)),
                binary_tail_at(t, c1, p, left) == shifted(
                    binary_tail_at(t, self.current as nat, p, expr@),
                    self.current - c1,
                ),
            ensures
                self.advanced_from(old(self)),
                c1 <= self.current,
                operand_at(t, c0, p) == Ok::<(ExprView, nat), ParseError>((left, (c1 - c0) as nat)),
                binary_tail_at(t, c1, p, left) == Ok::<(ExprView, nat), ParseError>(
                    (expr@, (self.current - c1) as nat),
                ),
            decreases remaining(t, self.current as nat),
        {
            let ghost c2 = self.current as nat;
            let op = match binary_operator(p, self.peek().token_type()) {
                Some(op) => op,
                None => break,
            };
            self.advance();
            let right = match self.operand(p) {
                Ok(e) => e,
                Err(e) => return Err(e),
            };
            let ghost before = expr@;
            expr = Expression::Binary(Box::new(expr), op, Box::new(right));
            assert(expr@ == ExprView::Binary(Box::new(before), op, Box::new(right@)));
        }
        Ok(expr)
    }

    /// An operand of level `p`: an expression of the next tighter level.
    fn operand(&mut self, p: Precedence) -> (r: Result<Expression, ParseError>)
        requires
            old(self).wf(),
        ensures
            final(self).advanced_from(old(self)),
            outcome(r, final(self).current - old(self).current) == operand_at(
                old(self).tokens_view(),
                old(self).current as nat,
                p,
            ),
        decreases remaining(old(self).tokens_view(), old(self).current as nat), 3 * rank(p),
    {
        match p {
            Precedence::Equality => self.binary(Precedence::Comparison),
            Precedence::Comparison => self.binary(Precedence::Addition),
            Precedence::Addition => self.binary(Precedence::Multiplication),
            Precedence::Multiplication => self.unary(),
        }
    }

    fn unary(&mut self) -> (r: Result<Expression, ParseError>)
        requires
            old(self).wf(),
        ensures
            final(self).advanced_from(old(self)),
            outcome(r, final(self).current - old(self).current) == unary_at(
                old(self).tokens_view(),
                old(self).current as nat,
            ),
        decreases remaining(old(self).tokens_view(), old(self).current as nat), 2nat,
    {
        if self.match_types(vec![TokenType::Bang, TokenType::Minus]) {
            let operator = if self.previous().token_type() == TokenType::Bang {
                UnaryOp::Not
            } else {
                UnaryOp::Negate
            };
            let right = match self.unary() {
                Ok(e) => e,
                Err(e) => return Err(e),
            };
            return Ok(Expression::Unary(operator, Box::new(right)));
        }
        self.primary()
    }

    fn primary(&mut self) -> (r: Result<Expression, ParseError>)
        requires
            old(self).wf(),
        ensures
            final(self).advanced_from(old(self)),
            outcome(r, final(self).current - old(self).current) == primary_at(
                old(self).tokens_view(),
                old(self).current as nat,
            ),
        decreases remaining(old(self).tokens_view(), old(self).current as nat), 1nat,
    {
        if self.match_types(vec![TokenType::False]) {
            return Ok(Expression::False);
        }
        if self.match_types(vec![TokenType::True]) {
            return Ok(Expression::True);
        }
        if self.match_types(vec![TokenType::Nil]) {
            return Ok(Expression::Nil);
        }
        if self.match_types(vec![TokenType::StringLiteral]) {
            return Ok(Expression::Literal(self.previous().literal()));
        }
        if self.match_types(vec![TokenType::Number]) {
            return Ok(Expression::Number(self.previous().literal()));
        }
        if self.match_types(vec![TokenType::LeftParen]) {
            let expr = match self.expression() {
                Ok(e) => e,
                Err(e) => return Err(e),
            };
            match self.consume(TokenType::RightParen) {
                Ok(()) => {},
                Err(e) => return Err(e),
            }
            return Ok(Expression::Grouping(Box::new(expr)));
        }
        if self.match_types(vec![TokenType::Identifier]) {
            return Ok(Expression::Variable(self.previous().lexeme()));
        }
        Err(ParseError::ExpectedExpression { line: self.peek().line() })
    }

    /// Reads the next token if its kind is one of `types`.
    fn match_types(&mut self, types: Vec<TokenType>) -> (r: bool)
        requires
            old(self).wf(),
        ensures
            final(self).advanced_from(old(self)),
            r == (kind_at(old(self).tokens_view(), old(self).current as nat) != TokenType::Eof
                && types@.contains(kind_at(old(self).tokens_view(), old(self).current as nat))),
            final(self).current == if r {
                old(self).current + 1
            } else {
                old(self).current as int
            },
    {
        let ghost k = kind_at(self.tokens_view(), self.current as nat);
        let mut i: usize = 0;
        while i < types.len()
            invariant
                *self == *old(self),
                self.wf(),
                i <= types@.len(),
                k == kind_at(self.tokens_view(), self.current as nat),
                forall|j: int| 0 <= j < i ==> types@[j] != k || k == TokenType::Eof,
            decreases types.len() - i,
        {
            if self.check(types[i]) {
                self.advance();
                return true;
            }
            i += 1;
        }
        false
    }

    /// Whether the next token is of kind `token_type`; never at the end of the input.
    fn check(&self, token_type: TokenType) -> (r: bool)
        requires
            self.wf(),
        ensures
            r == (kind_at(self.tokens_view(), self.current as nat) != TokenType::Eof && kind_at(
                self.tokens_view(),
                self.current as nat,
            ) == token_type),
    {
        if self.is_at_end() {
            return false;
        }
        self.peek().token_type() == token_type
    }

    fn is_at_end(&self) -> (r: bool)
        requires
            self.wf(),
        ensures
            r == (kind_at(self.tokens_view(), self.current as nat) == TokenType::Eof),
    {
        self.peek().token_type() == TokenType::Eof
    }

    /// Reads a token of kind `token_type`, or fails if the next token is of another kind.
    fn consume(&mut self, token_type: TokenType) -> (r: Result<(), ParseError>)
        requires
            old(self).wf(),
            token_type != TokenType::Eof,
        ensures
            final(self).advanced_from(old(self)),
            kind_at(old(self).tokens_view(), old(self).current as nat) == token_type ==> r is Ok
                && final(self).current == old(self).current + 1,
            kind_at(old(self).tokens_view(), old(self).current as nat) != token_type ==> r == Err::<
                (),
                ParseError,
            >(missing(old(self).tokens_view(), old(self).current as nat, token_type)),
    {
        if self.check(token_type) {
            self.advance();
            return Ok(());
        }
        Err(ParseError::MissingToken { expected: token_type, line: self.peek().line() })
    }

    /// Moves past the next token, unless it is the end of the input.
    fn advance(&mut self)
        requires
            old(self).wf(),
        ensures
            final(self).advanced_from(old(self)),
            final(self).current == if kind_at(old(self).tokens_view(), old(self).current as nat)
                == TokenType::Eof {
                old(self).current as int
            } else {
                old(self).current + 1
            },
    {
        if !self.is_at_end() {
            assert(self.tokens_view()[self.current as int] == self.tokens@[self.current as int]@);
            let n = self.tokens.len();
            assert(self.current + 1 < n);
            self.current += 1;
        }
    }

    fn previous(&self) -> (r: &Token)
        requires
            self.wf(),
            self.current > 0,
        ensures
            r@ == self.tokens_view()[self.current - 1],
    {
        &self.tokens[self.current - 1]
    }

    fn peek(&self) -> (r: &Token)
        requires
            self.wf(),
        ensures
            r@ == self.tokens_view()[self.current as int],
    {
        &self.tokens[self.current]
    }
}

fn binary_operator(p: Precedence, k: TokenType) -> (r: Option<BinaryOp>)
    ensures
        r == binary_op_of(p, k),
{
    match (p, k) {
        (Precedence::Equality, TokenType::BangEqual) => Some(BinaryOp::NotEqual),
        (Precedence::Equality, TokenType::EqualEqual) => Some(BinaryOp::Equal),
        (Precedence::Comparison, TokenType::Greater) => Some(BinaryOp::Greater),
        (Precedence::Comparison, TokenType::GreaterEqual) => Some(BinaryOp::GreaterEqual),
        (Precedence::Comparison, TokenType::Less) => Some(BinaryOp::Less),
        (Precedence::Comparison, TokenType::LessEqual) => Some(BinaryOp::LessEqual),
        (Precedence::Addition, TokenType::Minus) => Some(BinaryOp::Subtract),
        (Precedence::Addition, TokenType::Plus) => Some(BinaryOp::Add),
        (Precedence::Multiplication, TokenType::Slash) => Some(BinaryOp::Divide),
        (Precedence::Multiplication, TokenType::Star) => Some(BinaryOp::Multiply),
        _ => None,
    }
}

} // verus!
