use vstd::prelude::*;
use crate::expr::{from_token_spec, Expr, LiteralValue, SValue};
use crate::scanner::{clone_token, SLit, SToken, Token, TokenType};
use crate::stmt::Stmt;

verus! {

broadcast use vstd::std_specs::vec::group_vec_axioms;

/// What a parse diagnostic reports.
#[derive(Debug, Clone, Copy, PartialEq, Eq, Structural)]
pub enum ParseErrorKind {
    /// No expression starts at this token.
    ExpectedExpression,
    /// A parenthesized expression misses its closing parenthesis.
    ExpectedRightParen,
    /// A block misses its closing brace.
    ExpectedRightBrace,
    /// A statement misses its closing semicolon.
    ExpectedSemicolon,
    /// A declaration misses the variable's name.
    ExpectedVariableName,
    /// The left side of an assignment is not a plain variable.
    InvalidAssignmentTarget,
}

/// A parse diagnostic: what was expected and on which line it was missed.
#[derive(Debug, Clone, Copy, PartialEq, Eq, Structural)]
pub struct ParseError {
    pub kind: ParseErrorKind,
    pub line: u64,
}

/// The mathematical shape of an expression tree.
pub enum SExpr {
    SAssign { name: SToken, value: Box<SExpr> },
    SBinary { left: Box<SExpr>, operator: SToken, right: Box<SExpr> },
    SGrouping { expression: Box<SExpr> },
    SLiteral { value: SValue },
    SUnary { operator: SToken, right: Box<SExpr> },
    SVariable { name: SToken },
}

/// The mathematical shape of a statement.
pub enum SStmt {
    SExpression { expression: SExpr },
    SPrint { expression: SExpr },
    SVar { name: SToken, initialiser: SExpr },
    SBlock { statements: Seq<SStmt> },
}

/// The shape of an expression tree.
pub open spec fn expr_view(e: Expr) -> SExpr
    decreases e,
{
    match e {
        Expr::Assign { name, value } => SExpr::SAssign {
            name: name@,
            value: Box::new(expr_view(*value)),
        },
        Expr::Binary { left, operator, right } => SExpr::SBinary {
            left: Box::new(expr_view(*left)),
            operator: operator@,
            right: Box::new(expr_view(*right)),
        },
        Expr::Grouping { expression } => SExpr::SGrouping {
            expression: Box::new(expr_view(*expression)),
        },
        Expr::Literal { value } => SExpr::SLiteral { value: value@ },
        Expr::Unary { operator, right } => SExpr::SUnary {
            operator: operator@,
            right: Box::new(expr_view(*right)),
        },
        Expr::Variable { name } => SExpr::SVariable { name: name@ },
    }
}

/// The shape of a statement.
pub open spec fn stmt_view(s: Stmt) -> SStmt
    decreases s,
{
    match s {
        Stmt::Expression { expression } => SStmt::SExpression { expression: expr_view(expression) },
        Stmt::Print { expression } => SStmt::SPrint { expression: expr_view(expression) },
        Stmt::Var { name, initialiser } => SStmt::SVar {
            name: name@,
            initialiser: expr_view(initialiser),
        },
        Stmt::Block { statements } => SStmt::SBlock { statements: stmts_view(statements@) },
    }
}

/// The shapes of a sequence of statements.
pub open spec fn stmts_view(ss: Seq<Stmt>) -> Seq<SStmt>
    decreases ss,
{
    if ss.len() == 0 {
        Seq::<SStmt>::empty()
    } else {
        stmts_view(ss.drop_last()).push(stmt_view(ss.last()))
    }
}

/// How many tokens remain from position `i`.
pub open spec fn rem(ts: Seq<Token>, i: int) -> nat {
    if i <= ts.len() {
        (ts.len() - i) as nat
    } else {
        0
    }
}

/// The parser treats a position as the end at the end-of-input sentinel or
/// past the last token.
pub open spec fn p_at_end(ts: Seq<Token>, i: int) -> bool {
    i >= ts.len() || ts[i].token_type == TokenType::EoF
}

/// Whether the token at `i` exists and has the given kind.
pub open spec fn tok_at(ts: Seq<Token>, i: int, tt: TokenType) -> bool {
    0 <= i < ts.len() && ts[i].token_type == tt
}

/// The line of the token at `i`, for diagnostics.
pub open spec fn err_line(ts: Seq<Token>, i: int) -> u64 {
    if 0 <= i < ts.len() {
        ts[i].line_number
    } else {
        0
    }
}

/// A token the parser accepts: number and string tokens carry matching,
/// well-formed payloads.
pub open spec fn tok_wf(t: SToken) -> bool {
    match t.token_type {
        TokenType::NUMBER => t.literal matches Some(SLit::SNum(n)) && n.wf(),
        TokenType::STRING => t.literal matches Some(SLit::SStr(_)),
        _ => true,
    }
}

pub open spec fn toks_wf(ts: Seq<Token>) -> bool {
    forall|i: int| 0 <= i < ts.len() ==> tok_wf((#[trigger] ts[i])@)
}

/// A parsed expression with how many tokens it consumed, or a diagnostic
/// with how many tokens were consumed before it.
pub type ExprRes = Result<(SExpr, nat), (ParseError, nat)>;

/// A parsed statement run, likewise.
pub type StmtRes = Result<(SStmt, nat), (ParseError, nat)>;

/// The same result with `base` more consumed tokens.
pub open spec fn add_consumed(r: ExprRes, base: nat) -> ExprRes {
    match r {
        Ok((e, n)) => Ok((e, (base + n) as nat)),
        Err((er, n)) => Err((er, (base + n) as nat)),
    }
}

/// `primary := NUMBER | STRING | true | false | nil | IDENTIFIER | ( expression )`.
pub open spec fn sp_primary(ts: Seq<Token>, i: int) -> ExprRes
    decreases rem(ts, i), 1int,
{
    if p_at_end(ts, i) {
        Err((ParseError { kind: ParseErrorKind::ExpectedExpression, line: err_line(ts, i) }, 0))
    } else {
        let t = ts[i];
        if t.token_type == TokenType::LEFT_PAREN {
            match sp_expression(ts, i + 1) {
                Ok((e, n)) => if tok_at(ts, i + 1 + n, TokenType::RIGHT_PAREN) {
                    Ok((SExpr::SGrouping { expression: Box::new(e) }, (n + 2) as nat))
                } else {
                    Err(
                        (
                            ParseError {
                                kind: ParseErrorKind::ExpectedRightParen,
                                line: err_line(ts, i + 1 + n),
                            },
                            (1 + n) as nat,
                        ),
                    )
                },
                Err((er, n)) => Err((er, (1 + n) as nat)),
            }
        } else if t.token_type == TokenType::FALSE || t.token_type == TokenType::TRUE
            || t.token_type == TokenType::NIL || t.token_type == TokenType::NUMBER || t.token_type
            == TokenType::STRING {
            Ok((SExpr::SLiteral { value: from_token_spec(t@) }, 1))
        } else if t.token_type == TokenType::IDENTIFIER {
            Ok((SExpr::SVariable { name: t@ }, 1))
        } else {
            Err(
                (
                    ParseError { kind: ParseErrorKind::ExpectedExpression, line: err_line(ts, i) },
                    0,
                ),
            )
        }
    }
}

/// `unary := ( ! | - ) unary | primary`.
pub open spec fn sp_unary(ts: Seq<Token>, i: int) -> ExprRes
    decreases rem(ts, i), 2int,
{
    if !p_at_end(ts, i) && (ts[i].token_type == TokenType::BANG || ts[i].token_type
        == TokenType::MINUS) {
        match sp_unary(ts, i + 1) {
            Ok((e, n)) => Ok(
                (SExpr::SUnary { operator: ts[i]@, right: Box::new(e) }, (1 + n) as nat),
            ),
            Err((er, n)) => Err((er, (1 + n) as nat)),
        }
    } else {
        sp_primary(ts, i)
    }
}

/// More `( * | / ) unary` steps after a parsed operand, left-associative.
pub open spec fn sp_factor_rest(ts: Seq<Token>, j: int, acc: SExpr) -> ExprRes
    decreases rem(ts, j), 3int,
{
    if !p_at_end(ts, j) && (ts[j].token_type == TokenType::SLASH || ts[j].token_type
        == TokenType::STAR) {
        match sp_unary(ts, j + 1) {
            Ok((r, m)) => {
                let joined = SExpr::SBinary {
                    left: Box::new(acc),
                    operator: ts[j]@,
                    right: Box::new(r),
                };
                add_consumed(sp_factor_rest(ts, j + 1 + m, joined), (1 + m) as nat)
            },
            Err((er, m)) => Err((er, (1 + m) as nat)),
        }
    } else {
        Ok((acc, 0))
    }
}

/// `factor := unary ( ( / | * ) unary )*`.
pub open spec fn sp_factor(ts: Seq<Token>, i: int) -> ExprRes
    decreases rem(ts, i), 4int,
{
    match sp_unary(ts, i) {
        Ok((e, n)) => add_consumed(sp_factor_rest(ts, i + n, e), n),
        Err((er, n)) => Err((er, n)),
    }
}

/// More `( - | + ) factor` steps after a parsed operand, left-associative.
pub open spec fn sp_term_rest(ts: Seq<Token>, j: int, acc: SExpr) -> ExprRes
    decreases rem(ts, j), 5int,
{
    if !p_at_end(ts, j) && (ts[j].token_type == TokenType::MINUS || ts[j].token_type
        == TokenType::PLUS) {
        match sp_factor(ts, j + 1) {
            Ok((r, m)) => {
                let joined = SExpr::SBinary {
                    left: Box::new(acc),
                    operator: ts[j]@,
                    right: Box::new(r),
                };
                add_consumed(sp_term_rest(ts, j + 1 + m, joined), (1 + m) as nat)
            },
            Err((er, m)) => Err((er, (1 + m) as nat)),
        }
    } else {
        Ok((acc, 0))
    }
}

/// `term := factor ( ( - | + ) factor )*`.
pub open spec fn sp_term(ts: Seq<Token>, i: int) -> ExprRes
    decreases rem(ts, i), 6int,
{
    match sp_factor(ts, i) {
        Ok((e, n)) => add_consumed(sp_term_rest(ts, i + n, e), n),
        Err((er, n)) => Err((er, n)),
    }
}

/// More comparison steps after a parsed operand, left-associative.
pub open spec fn sp_comparison_rest(ts: Seq<Token>, j: int, acc: SExpr) -> ExprRes
    decreases rem(ts, j), 7int,
{
    if !p_at_end(ts, j) && (ts[j].token_type == TokenType::GREATER || ts[j].token_type
        == TokenType::GREATER_EQUAL || ts[j].token_type == TokenType::LESS || ts[j].token_type
        == TokenType::LESS_EQUAL) {
        match sp_term(ts, j + 1) {
            Ok((r, m)) => {
                let joined = SExpr::SBinary {
                    left: Box::new(acc),
                    operator: ts[j]@,
                    right: Box::new(r),
                };
                add_consumed(sp_comparison_rest(ts, j + 1 + m, joined), (1 + m) as nat)
            },
            Err((er, m)) => Err((er, (1 + m) as nat)),
        }
    } else {
        Ok((acc, 0))
    }
}

/// `comparison := term ( ( > | >= | < | <= ) term )*`.
pub open spec fn sp_comparison(ts: Seq<Token>, i: int) -> ExprRes
    decreases rem(ts, i), 8int,
{
    match sp_term(ts, i) {
        Ok((e, n)) => add_consumed(sp_comparison_rest(ts, i + n, e), n),
        Err((er, n)) => Err((er, n)),
    }
}

/// More `( != | == ) comparison` steps after a parsed operand.
pub open spec fn sp_equality_rest(ts: Seq<Token>, j: int, acc: SExpr) -> ExprRes
    decreases rem(ts, j), 9int,
{
    if !p_at_end(ts, j) && (ts[j].token_type == TokenType::BANG_EQUAL || ts[j].token_type
        == TokenType::EQUAL_EQUAL) {
        match sp_comparison(ts, j + 1) {
            Ok((r, m)) => {
                let joined = SExpr::SBinary {
                    left: Box::new(acc),
                    operator: ts[j]@,
                    right: Box::new(r),
                };
                add_consumed(sp_equality_rest(ts, j + 1 + m, joined), (1 + m) as nat)
            },
            Err((er, m)) => Err((er, (1 + m) as nat)),
        }
    } else {
        Ok((acc, 0))
    }
}

/// `equality := comparison ( ( != | == ) comparison )*`.
pub open spec fn sp_equality(ts: Seq<Token>, i: int) -> ExprRes
    decreases rem(ts, i), 10int,
{
    match sp_comparison(ts, i) {
        Ok((e, n)) => add_consumed(sp_equality_rest(ts, i + n, e), n),
        Err((er, n)) => Err((er, n)),
    }
}

/// `assignment := IDENTIFIER = assignment | equality`: when `=` follows a
/// parsed equality, the left side must be a bare variable.
pub open spec fn sp_assignment(ts: Seq<Token>, i: int) -> ExprRes
    decreases rem(ts, i), 11int,
{
    match sp_equality(ts, i) {
        Ok((e, n)) => if tok_at(ts, i + n, TokenType::EQUAL) {
            match e {
                SExpr::SVariable { name } => match sp_assignment(ts, i + n + 1) {
                    Ok((v, m)) => Ok(
                        (
                            SExpr::SAssign { name, value: Box::new(v) },
                            (n + 1 + m) as nat,
                        ),
                    ),
                    Err((er, m)) => Err((er, (n + 1 + m) as nat)),
                },
                _ => Err(
                    (
                        ParseError {
                            kind: ParseErrorKind::InvalidAssignmentTarget,
                            line: err_line(ts, i + n),
                        },
                        n,
                    ),
                ),
            }
        } else {
            Ok((e, n))
        },
        Err((er, n)) => Err((er, n)),
    }
}

/// `expression := assignment`.
pub open spec fn sp_expression(ts: Seq<Token>, i: int) -> ExprRes
    decreases rem(ts, i), 12int,
{
    sp_assignment(ts, i)
}

/// Whether a token kind can start a new statement, for synchronization.
pub open spec fn starts_statement(tt: TokenType) -> bool {
    tt == TokenType::CLASS || tt == TokenType::FUN || tt == TokenType::VAR || tt == TokenType::FOR
        || tt == TokenType::IF || tt == TokenType::WHILE || tt == TokenType::PRINT || tt
        == TokenType::RETURN
}

/// How many tokens synchronization discards once one token is consumed:
/// it stops after a semicolon or before a statement keyword.
pub open spec fn sp_sync_rest(ts: Seq<Token>, j: int) -> nat
    decreases rem(ts, j), 0int,
{
    if p_at_end(ts, j) {
        0
    } else if 0 <= j - 1 < ts.len() && ts[j - 1].token_type == TokenType::SEMICOLON {
        0
    } else if starts_statement(ts[j].token_type) {
        0
    } else {
        1 + sp_sync_rest(ts, j + 1)
    }
}

/// How many tokens synchronization discards from `i`.
pub open spec fn sp_sync(ts: Seq<Token>, i: int) -> nat
    decreases rem(ts, i), 1int,
{
    if p_at_end(ts, i) {
        0
    } else {
        1 + sp_sync_rest(ts, i + 1)
    }
}

/// `varDecl := var IDENTIFIER ( = expression )? ;`, after the `var`.
pub open spec fn sp_var_decl(ts: Seq<Token>, j: int) -> StmtRes
    decreases rem(ts, j), 13int,
{
    if !tok_at(ts, j, TokenType::IDENTIFIER) {
        Err(
            (
                ParseError { kind: ParseErrorKind::ExpectedVariableName, line: err_line(ts, j) },
                0,
            ),
        )
    } else {
        let name = ts[j]@;
        if tok_at(ts, j + 1, TokenType::EQUAL) {
            match sp_expression(ts, j + 2) {
                Ok((e, n)) => if tok_at(ts, j + 2 + n, TokenType::SEMICOLON) {
                    Ok((SStmt::SVar { name, initialiser: e }, (n + 3) as nat))
                } else {
                    Err(
                        (
                            ParseError {
                                kind: ParseErrorKind::ExpectedSemicolon,
                                line: err_line(ts, j + 2 + n),
                            },
                            (n + 2) as nat,
                        ),
                    )
                },
                Err((er, n)) => Err((er, (2 + n) as nat)),
            }
        } else if tok_at(ts, j + 1, TokenType::SEMICOLON) {
            Ok(
                (
                    SStmt::SVar { name, initialiser: SExpr::SLiteral { value: SValue::VNil } },
                    2,
                ),
            )
        } else {
            Err(
                (
                    ParseError {
                        kind: ParseErrorKind::ExpectedSemicolon,
                        line: err_line(ts, j + 1),
                    },
                    1,
                ),
            )
        }
    }
}

/// The statements of a block up to and including its closing brace.
/// A parsed statement put in front of the rest of its block.
pub open spec fn cons_block(s: SStmt, step: int, r: Result<(Seq<SStmt>, nat), (ParseError, nat)>)
    -> Result<(Seq<SStmt>, nat), (ParseError, nat)> {
    match r {
        Ok((ss, m)) => Ok((seq![s] + ss, (step + m) as nat)),
        Err((er, m)) => Err((er, (step + m) as nat)),
    }
}

pub open spec fn sp_block_rest(ts: Seq<Token>, j: int) -> Result<
    (Seq<SStmt>, nat),
    (ParseError, nat),
>
    decreases rem(ts, j), 16int,
{
    if p_at_end(ts, j) {
        Err(
            (
                ParseError { kind: ParseErrorKind::ExpectedRightBrace, line: err_line(ts, j) },
                0,
            ),
        )
    } else if ts[j].token_type == TokenType::RIGHT_BRACE {
        Ok((Seq::<SStmt>::empty(), 1))
    } else {
        match sp_declaration(ts, j) {
            Ok((s, n)) => {
                let step: int = if n < 1 {
                    1
                } else if n > ts.len() - j {
                    ts.len() - j
                } else {
                    n as int
                };
                cons_block(s, step, sp_block_rest(ts, j + step))
            },
            Err((er, n)) => Err((er, n)),
        }
    }
}

/// A block statement, after its opening brace.
pub open spec fn sp_block_stmt(ts: Seq<Token>, j: int) -> StmtRes
    decreases rem(ts, j), 17int,
{
    match sp_block_rest(ts, j) {
        Ok((ss, n)) => Ok((SStmt::SBlock { statements: ss }, n)),
        Err((er, n)) => Err((er, n)),
    }
}

/// A print statement, after the `print` keyword.
pub open spec fn sp_print_stmt(ts: Seq<Token>, j: int) -> StmtRes
    decreases rem(ts, j), 13int,
{
    match sp_expression(ts, j) {
        Ok((e, n)) => if tok_at(ts, j + n, TokenType::SEMICOLON) {
            Ok((SStmt::SPrint { expression: e }, (n + 1) as nat))
        } else {
            Err(
                (
                    ParseError {
                        kind: ParseErrorKind::ExpectedSemicolon,
                        line: err_line(ts, j + n),
                    },
                    n,
                ),
            )
        },
        Err((er, n)) => Err((er, n)),
    }
}

/// An expression statement.
pub open spec fn sp_expr_stmt(ts: Seq<Token>, i: int) -> StmtRes
    decreases rem(ts, i), 13int,
{
    match sp_expression(ts, i) {
        Ok((e, n)) => if tok_at(ts, i + n, TokenType::SEMICOLON) {
            Ok((SStmt::SExpression { expression: e }, (n + 1) as nat))
        } else {
            Err(
                (
                    ParseError {
                        kind: ParseErrorKind::ExpectedSemicolon,
                        line: err_line(ts, i + n),
                    },
                    n,
                ),
            )
        },
        Err((er, n)) => Err((er, n)),
    }
}

/// `statement := print expression ; | { declaration* } | expression ;`.
pub open spec fn sp_statement(ts: Seq<Token>, i: int) -> StmtRes
    decreases rem(ts, i), 14int,
{
    if tok_at(ts, i, TokenType::PRINT) {
        match sp_print_stmt(ts, i + 1) {
            Ok((s, n)) => Ok((s, (1 + n) as nat)),
            Err((er, n)) => Err((er, (1 + n) as nat)),
        }
    } else if tok_at(ts, i, TokenType::LEFT_BRACE) {
        match sp_block_stmt(ts, i + 1) {
            Ok((s, n)) => Ok((s, (1 + n) as nat)),
            Err((er, n)) => Err((er, (1 + n) as nat)),
        }
    } else {
        sp_expr_stmt(ts, i)
    }
}

/// `declaration := varDecl | statement`, synchronizing after a diagnostic
/// so one pass can report several independent errors.
#[verifier::opaque]
pub open spec fn sp_declaration(ts: Seq<Token>, i: int) -> StmtRes
    decreases rem(ts, i), 15int,
{
    let body: StmtRes = if tok_at(ts, i, TokenType::VAR) {
        match sp_var_decl(ts, i + 1) {
            Ok((s, n)) => Ok((s, (1 + n) as nat)),
            Err((er, n)) => Err((er, (1 + n) as nat)),
        }
    } else {
        sp_statement(ts, i)
    };
    match body {
        Ok((s, n)) => Ok((s, n)),
        Err((er, n)) => Err((er, (n + sp_sync(ts, i + n)) as nat)),
    }
}

/// `program := declaration* EOF`: every statement parsed and every
/// diagnostic found, in source order.
pub open spec fn sp_program(ts: Seq<Token>, i: int) -> (Seq<SStmt>, Seq<ParseError>)
    decreases rem(ts, i), 16int,
{
    if p_at_end(ts, i) {
        (Seq::<SStmt>::empty(), Seq::<ParseError>::empty())
    } else {
        let (consumed, stmt, err) = match sp_declaration(ts, i) {
            Ok((s, n)) => (n, Some(s), None::<ParseError>),
            Err((er, n)) => (n, None::<SStmt>, Some(er)),
        };
        let step: int = if consumed < 1 {
            1
        } else if consumed > ts.len() - i {
            ts.len() - i
        } else {
            consumed as int
        };
        let rest = sp_program(ts, i + step);
        (
            match stmt {
                Some(s) => seq![s] + rest.0,
                None => rest.0,
            },
            match err {
                Some(e) => seq![e] + rest.1,
                None => rest.1,
            },
        )
    }
}

/// How a returned expression and final position relate to the parse model.
pub open spec fn expr_outcome(
    ts: Seq<Token>,
    i0: int,
    sp: ExprRes,
    r: Result<Expr, ParseError>,
    endpos: int,
) -> bool {
    match r {
        Ok(e) => sp matches Ok(p) && expr_view(e) == p.0 && e.wf() && endpos == i0 + p.1,
        Err(pe) => sp matches Err(q) && pe == q.0 && endpos == i0 + q.1,
    }
}

/// How a returned statement and final position relate to the parse model.
pub open spec fn stmt_outcome(
    ts: Seq<Token>,
    i0: int,
    sp: StmtRes,
    r: Result<Stmt, ParseError>,
    endpos: int,
) -> bool {
    match r {
        Ok(s) => sp matches Ok(p) && stmt_view(s) == p.0 && s.wf() && endpos == i0 + p.1,
        Err(pe) => sp matches Err(q) && pe == q.0 && endpos == i0 + q.1,
    }
}

/// Whether a token kind can start a new statement.
fn starts_statement_exec(tt: TokenType) -> (r: bool)
    ensures
        r == starts_statement(tt),
{
    tt == TokenType::CLASS || tt == TokenType::FUN || tt == TokenType::VAR || tt == TokenType::FOR
        || tt == TokenType::IF || tt == TokenType::WHILE || tt == TokenType::PRINT || tt
        == TokenType::RETURN
}

/// The recursive-descent parser: a token list and a cursor into it.
pub struct Parser {
    tokens: Vec<Token>,
    current: usize,
}

impl View for Parser {
    type V = Seq<Token>;

    closed spec fn view(&self) -> Seq<Token> {
        self.tokens@
    }
}

impl Parser {
    pub closed spec fn pos(self) -> int {
        self.current as int
    }

    pub closed spec fn pos_ok(self) -> bool {
        self.current <= self.tokens@.len()
    }

    /// The cursor inside the tokens, which all carry acceptable literals.
    pub open spec fn wf(self) -> bool {
        self.pos_ok() && toks_wf(self@)
    }

    /// A parser over the given tokens, at their start.
    pub fn new(tokens: Vec<Token>) -> (r: Self)
        ensures
            r@ == tokens@,
            r.pos() == 0,
            r.pos_ok(),
    {
        Self { tokens, current: 0 }
    }

    fn is_at_end(&self) -> (r: bool)
        requires
            self.pos_ok(),
        ensures
            r == p_at_end(self@, self.pos()),
    {
        self.current >= self.tokens.len() || self.tokens[self.current].token_type
            == TokenType::EoF
    }

    fn check(&self, tt: TokenType) -> (r: bool)
        requires
            self.pos_ok(),
        ensures
            r == tok_at(self@, self.pos(), tt),
    {
        self.current < self.tokens.len() && self.tokens[self.current].token_type == tt
    }

    /// Consumes the token under the cursor exactly when it has this kind.
    fn match_token(&mut self, tt: TokenType) -> (r: bool)
        requires
            old(self).pos_ok(),
        ensures
            final(self)@ == old(self)@,
            final(self).pos_ok(),
            r == tok_at(old(self)@, old(self).pos(), tt),
            r ==> final(self).pos() == old(self).pos() + 1,
            !r ==> final(self).pos() == old(self).pos(),
    {
        if self.check(tt) {
            self.bump();
            true
        } else {
            false
        }
    }

    fn previous(&self) -> (t: Token)
        requires
            self.pos_ok(),
            1 <= self.pos(),
        ensures
            t == self@[self.pos() - 1],
    {
        clone_token(&self.tokens[self.current - 1])
    }

    /// Moves the cursor one token forward.
    fn bump(&mut self)
        requires
            old(self).pos_ok(),
            old(self).pos() < old(self)@.len(),
        ensures
            final(self)@ == old(self)@,
            final(self).pos_ok(),
            final(self).pos() == old(self).pos() + 1,
    {
        let n = self.tokens.len();
        self.current = self.current + 1;
    }

    fn err_line_here(&self) -> (l: u64)
        requires
            self.pos_ok(),
        ensures
            l == err_line(self@, self.pos()),
    {
        if self.current < self.tokens.len() {
            self.tokens[self.current].line_number
        } else {
            0
        }
    }

    /// Consumes the expected token, or reports what was expected, on the
    /// line of the offending token.
    fn consume(&mut self, tt: TokenType, kind: ParseErrorKind) -> (r: Result<Token, ParseError>)
        requires
            old(self).pos_ok(),
        ensures
            final(self)@ == old(self)@,
            final(self).pos_ok(),
            tok_at(old(self)@, old(self).pos(), tt) ==> (r matches Ok(t) && t == old(
                self,
            )@[old(self).pos()] && final(self).pos() == old(self).pos() + 1),
            !tok_at(old(self)@, old(self).pos(), tt) ==> (r matches Err(e) && e == (ParseError {
                kind,
                line: err_line(old(self)@, old(self).pos()),
            }) && final(self).pos() == old(self).pos()),
    {
        if self.check(tt) {
            self.bump();
            Ok(clone_token(&self.tokens[self.current - 1]))
        } else {
            Err(ParseError { kind, line: self.err_line_here() })
        }
    }

    #[verifier::rlimit(100)]
    fn primary(&mut self) -> (r: Result<Expr, ParseError>)
        requires
            old(self).wf(),
        ensures
            final(self)@ == old(self)@,
            final(self).wf(),
            expr_outcome(
                old(self)@,
                old(self).pos(),
                sp_primary(old(self)@, old(self).pos()),
                r,
                final(self).pos(),
            ),
        decreases rem(old(self)@, old(self).pos()), 1int,
    {
                if self.is_at_end() {
            return Err(
                ParseError { kind: ParseErrorKind::ExpectedExpression, line: self.err_line_here() },
            );
        }
        let tt = self.tokens[self.current].token_type;
        if tt == TokenType::LEFT_PAREN {
            self.bump();
            match self.expression() {
                Ok(e) => match self.consume(
                    TokenType::RIGHT_PAREN,
                    ParseErrorKind::ExpectedRightParen,
                ) {
                    Ok(_) => Ok(Expr::Grouping { expression: Box::new(e) }),
                    Err(pe) => Err(pe),
                },
                Err(pe) => Err(pe),
            }
        } else if tt == TokenType::FALSE || tt == TokenType::TRUE || tt == TokenType::NIL || tt
            == TokenType::NUMBER || tt == TokenType::STRING {
            let tok = clone_token(&self.tokens[self.current]);
            self.bump();
            Ok(Expr::Literal { value: LiteralValue::from_token(tok) })
        } else if tt == TokenType::IDENTIFIER {
            let tok = clone_token(&self.tokens[self.current]);
            self.bump();
            Ok(Expr::Variable { name: tok })
        } else {
            Err(ParseError { kind: ParseErrorKind::ExpectedExpression, line: self.err_line_here() })
        }
    }

    fn unary(&mut self) -> (r: Result<Expr, ParseError>)
        requires
            old(self).wf(),
        ensures
            final(self)@ == old(self)@,
            final(self).wf(),
            expr_outcome(
                old(self)@,
                old(self).pos(),
                sp_unary(old(self)@, old(self).pos()),
                r,
                final(self).pos(),
            ),
        decreases rem(old(self)@, old(self).pos()), 2int,
    {
                if self.check(TokenType::BANG) || self.check(TokenType::MINUS) {
            let op = clone_token(&self.tokens[self.current]);
            self.bump();
            match self.unary() {
                Ok(e) => Ok(Expr::Unary { operator: op, right: Box::new(e) }),
                Err(pe) => Err(pe),
            }
        } else {
            self.primary()
        }
    }

    fn factor_rest(&mut self, left: Expr) -> (r: Result<Expr, ParseError>)
        requires
            old(self).wf(),
            left.wf(),
        ensures
            final(self)@ == old(self)@,
            final(self).wf(),
            expr_outcome(
                old(self)@,
                old(self).pos(),
                sp_factor_rest(old(self)@, old(self).pos(), expr_view(left)),
                r,
                final(self).pos(),
            ),
        decreases rem(old(self)@, old(self).pos()), 3int,
    {
                if self.check(TokenType::SLASH) || self.check(TokenType::STAR) {
            let op = clone_token(&self.tokens[self.current]);
            self.bump();
            match self.unary() {
                Ok(rhs) => {
                    let joined = Expr::Binary {
                        left: Box::new(left),
                        operator: op,
                        right: Box::new(rhs),
                    };
                    self.factor_rest(joined)
                },
                Err(pe) => Err(pe),
            }
        } else {
            Ok(left)
        }
    }

    fn factor(&mut self) -> (r: Result<Expr, ParseError>)
        requires
            old(self).wf(),
        ensures
            final(self)@ == old(self)@,
            final(self).wf(),
            expr_outcome(
                old(self)@,
                old(self).pos(),
                sp_factor(old(self)@, old(self).pos()),
                r,
                final(self).pos(),
            ),
        decreases rem(old(self)@, old(self).pos()), 4int,
    {
                match self.unary() {
            Ok(e) => self.factor_rest(e),
            Err(pe) => Err(pe),
        }
    }

    fn term_rest(&mut self, left: Expr) -> (r: Result<Expr, ParseError>)
        requires
            old(self).wf(),
            left.wf(),
        ensures
            final(self)@ == old(self)@,
            final(self).wf(),
            expr_outcome(
                old(self)@,
                old(self).pos(),
                sp_term_rest(old(self)@, old(self).pos(), expr_view(left)),
                r,
                final(self).pos(),
            ),
        decreases rem(old(self)@, old(self).pos()), 5int,
    {
                if self.check(TokenType::MINUS) || self.check(TokenType::PLUS) {
            let op = clone_token(&self.tokens[self.current]);
            self.bump();
            match self.factor() {
                Ok(rhs) => {
                    let joined = Expr::Binary {
                        left: Box::new(left),
                        operator: op,
                        right: Box::new(rhs),
                    };
                    self.term_rest(joined)
                },
                Err(pe) => Err(pe),
            }
        } else {
            Ok(left)
        }
    }

    fn term(&mut self) -> (r: Result<Expr, ParseError>)
        requires
            old(self).wf(),
        ensures
            final(self)@ == old(self)@,
            final(self).wf(),
            expr_outcome(
                old(self)@,
                old(self).pos(),
                sp_term(old(self)@, old(self).pos()),
                r,
                final(self).pos(),
            ),
        decreases rem(old(self)@, old(self).pos()), 6int,
    {
                match self.factor() {
            Ok(e) => self.term_rest(e),
            Err(pe) => Err(pe),
        }
    }

    fn comparison_rest(&mut self, left: Expr) -> (r: Result<Expr, ParseError>)
        requires
            old(self).wf(),
            left.wf(),
        ensures
            final(self)@ == old(self)@,
            final(self).wf(),
            expr_outcome(
                old(self)@,
                old(self).pos(),
                sp_comparison_rest(old(self)@, old(self).pos(), expr_view(left)),
                r,
                final(self).pos(),
            ),
        decreases rem(old(self)@, old(self).pos()), 7int,
    {
                if self.check(TokenType::GREATER) || self.check(TokenType::GREATER_EQUAL) || self.check(
            TokenType::LESS,
        ) || self.check(TokenType::LESS_EQUAL) {
            let op = clone_token(&self.tokens[self.current]);
            self.bump();
            match self.term() {
                Ok(rhs) => {
                    let joined = Expr::Binary {
                        left: Box::new(left),
                        operator: op,
                        right: Box::new(rhs),
                    };
                    self.comparison_rest(joined)
                },
                Err(pe) => Err(pe),
            }
        } else {
            Ok(left)
        }
    }

    fn comparison(&mut self) -> (r: Result<Expr, ParseError>)
        requires
            old(self).wf(),
        ensures
            final(self)@ == old(self)@,
            final(self).wf(),
            expr_outcome(
                old(self)@,
                old(self).pos(),
                sp_comparison(old(self)@, old(self).pos()),
                r,
                final(self).pos(),
            ),
        decreases rem(old(self)@, old(self).pos()), 8int,
    {
                match self.term() {
            Ok(e) => self.comparison_rest(e),
            Err(pe) => Err(pe),
        }
    }

    fn equality_rest(&mut self, left: Expr) -> (r: Result<Expr, ParseError>)
        requires
            old(self).wf(),
            left.wf(),
        ensures
            final(self)@ == old(self)@,
            final(self).wf(),
            expr_outcome(
                old(self)@,
                old(self).pos(),
                sp_equality_rest(old(self)@, old(self).pos(), expr_view(left)),
                r,
                final(self).pos(),
            ),
        decreases rem(old(self)@, old(self).pos()), 9int,
    {
                if self.check(TokenType::BANG_EQUAL) || self.check(TokenType::EQUAL_EQUAL) {
            let op = clone_token(&self.tokens[self.current]);
            self.bump();
            match self.comparison() {
                Ok(rhs) => {
                    let joined = Expr::Binary {
                        left: Box::new(left),
                        operator: op,
                        right: Box::new(rhs),
                    };
                    self.equality_rest(joined)
                },
                Err(pe) => Err(pe),
            }
        } else {
            Ok(left)
        }
    }

    #[verifier::rlimit(100)]
    #[verifier::spinoff_prover]
    fn equality(&mut self) -> (r: Result<Expr, ParseError>)
        requires
            old(self).wf(),
        ensures
            final(self)@ == old(self)@,
            final(self).wf(),
            expr_outcome(
                old(self)@,
                old(self).pos(),
                sp_equality(old(self)@, old(self).pos()),
                r,
                final(self).pos(),
            ),
        decreases rem(old(self)@, old(self).pos()), 10int,
    {
                match self.comparison() {
            Ok(e) => self.equality_rest(e),
            Err(pe) => Err(pe),
        }
    }

    #[verifier::rlimit(100)]
    fn assignment(&mut self) -> (r: Result<Expr, ParseError>)
        requires
            old(self).wf(),
        ensures
            final(self)@ == old(self)@,
            final(self).wf(),
            expr_outcome(
                old(self)@,
                old(self).pos(),
                sp_assignment(old(self)@, old(self).pos()),
                r,
                final(self).pos(),
            ),
        decreases rem(old(self)@, old(self).pos()), 11int,
    {
                let expr = match self.equality() {
            Ok(e) => e,
            Err(pe) => {
                return Err(pe);
            },
        };
        if self.check(TokenType::EQUAL) {
            match expr {
                Expr::Variable { name } => {
                    self.bump();
                    match self.assignment() {
                        Ok(v) => Ok(Expr::Assign { name, value: Box::new(v) }),
                        Err(pe) => Err(pe),
                    }
                },
                _ => Err(
                    ParseError {
                        kind: ParseErrorKind::InvalidAssignmentTarget,
                        line: self.err_line_here(),
                    },
                ),
            }
        } else {
            Ok(expr)
        }
    }

    /// Parses one expression.
    pub fn expression(&mut self) -> (r: Result<Expr, ParseError>)
        requires
            old(self).wf(),
        ensures
            final(self)@ == old(self)@,
            final(self).wf(),
            expr_outcome(
                old(self)@,
                old(self).pos(),
                sp_expression(old(self)@, old(self).pos()),
                r,
                final(self).pos(),
            ),
        decreases rem(old(self)@, old(self).pos()), 12int,
    {
                self.assignment()
    }
}

impl Parser {
    /// Discards tokens up to a statement boundary, so parsing can resume
    /// after a diagnostic.
    fn synchronize(&mut self)
        requires
            old(self).pos_ok(),
        ensures
            final(self)@ == old(self)@,
            final(self).pos_ok(),
            final(self).pos() == old(self).pos() + sp_sync(old(self)@, old(self).pos()),
    {
        let ghost ts = self@;
        let ghost i0 = self.pos();
        if self.is_at_end() {
            return ;
        }
        self.bump();
        while self.sync_continue()
            invariant
                self.pos_ok(),
                self@ == ts,
                0 <= i0,
                i0 + 1 <= self.pos(),
                sp_sync(ts, i0) == (self.pos() - i0) + sp_sync_rest(ts, self.pos()),
            decreases rem(ts, self.pos()),
        {
            self.bump();
        }
    }

    /// Whether synchronization should discard the token under the cursor.
    fn sync_continue(&self) -> (r: bool)
        requires
            self.pos_ok(),
            1 <= self.pos(),
        ensures
            r == (!p_at_end(self@, self.pos()) && self@[self.pos() - 1].token_type
                != TokenType::SEMICOLON && !starts_statement(self@[self.pos()].token_type)),
    {
        if self.is_at_end() {
            false
        } else if self.tokens[self.current - 1].token_type == TokenType::SEMICOLON {
            false
        } else {
            !starts_statement_exec(self.tokens[self.current].token_type)
        }
    }

    /// Parses a variable declaration, after the `var` keyword.
    #[verifier::rlimit(100)]
    fn var_declaration(&mut self) -> (r: Result<Stmt, ParseError>)
        requires
            old(self).wf(),
        ensures
            final(self)@ == old(self)@,
            final(self).wf(),
            stmt_outcome(
                old(self)@,
                old(self).pos(),
                sp_var_decl(old(self)@, old(self).pos()),
                r,
                final(self).pos(),
            ),
        decreases rem(old(self)@, old(self).pos()), 13int,
    {
                let name = match self.consume(
            TokenType::IDENTIFIER,
            ParseErrorKind::ExpectedVariableName,
        ) {
            Ok(t) => t,
            Err(pe) => {
                return Err(pe);
            },
        };
        if self.match_token(TokenType::EQUAL) {
            match self.expression() {
                Ok(init) => match self.consume(
                    TokenType::SEMICOLON,
                    ParseErrorKind::ExpectedSemicolon,
                ) {
                    Ok(_) => Ok(Stmt::Var { name, initialiser: init }),
                    Err(pe) => Err(pe),
                },
                Err(pe) => Err(pe),
            }
        } else {
            match self.consume(TokenType::SEMICOLON, ParseErrorKind::ExpectedSemicolon) {
                Ok(_) => Ok(Stmt::Var { name, initialiser: Expr::Literal { value: LiteralValue::Nil } }),
                Err(pe) => Err(pe),
            }
        }
    }

    /// Parses a print statement, after the `print` keyword.
    fn print_statement(&mut self) -> (r: Result<Stmt, ParseError>)
        requires
            old(self).wf(),
        ensures
            final(self)@ == old(self)@,
            final(self).wf(),
            stmt_outcome(
                old(self)@,
                old(self).pos(),
                sp_print_stmt(old(self)@, old(self).pos()),
                r,
                final(self).pos(),
            ),
        decreases rem(old(self)@, old(self).pos()), 13int,
    {
                match self.expression() {
            Ok(e) => match self.consume(TokenType::SEMICOLON, ParseErrorKind::ExpectedSemicolon) {
                Ok(_) => Ok(Stmt::Print { expression: e }),
                Err(pe) => Err(pe),
            },
            Err(pe) => Err(pe),
        }
    }

    /// Parses an expression statement.
    fn expression_statement(&mut self) -> (r: Result<Stmt, ParseError>)
        requires
            old(self).wf(),
        ensures
            final(self)@ == old(self)@,
            final(self).wf(),
            stmt_outcome(
                old(self)@,
                old(self).pos(),
                sp_expr_stmt(old(self)@, old(self).pos()),
                r,
                final(self).pos(),
            ),
        decreases rem(old(self)@, old(self).pos()), 13int,
    {
                match self.expression() {
            Ok(e) => match self.consume(TokenType::SEMICOLON, ParseErrorKind::ExpectedSemicolon) {
                Ok(_) => Ok(Stmt::Expression { expression: e }),
                Err(pe) => Err(pe),
            },
            Err(pe) => Err(pe),
        }
    }

    /// Parses the statements of a block up to its closing brace.
    #[verifier::rlimit(100)]
    #[verifier::spinoff_prover]
    fn block_rest(&mut self) -> (r: Result<Vec<Stmt>, ParseError>)
        requires
            old(self).wf(),
        ensures
            final(self)@ == old(self)@,
            final(self).wf(),
            ({
                let sp = sp_block_rest(old(self)@, old(self).pos());
                match r {
                    Ok(v) => sp matches Ok(p) && stmts_view(v@) == p.0 && (forall|j: int|
                        0 <= j < v@.len() ==> (#[trigger] v@[j]).wf()) && final(self).pos()
                        == old(self).pos() + p.1,
                    Err(pe) => sp matches Err(q) && pe == q.0 && final(self).pos() == old(
                        self,
                    ).pos() + q.1,
                }
            }),
        decreases rem(old(self)@, old(self).pos()), 16int,
    {
        let ghost ts = self@;
        let ghost i0 = self.pos();
        if self.is_at_end() {
            return Err(
                ParseError { kind: ParseErrorKind::ExpectedRightBrace, line: self.err_line_here() },
            );
        }
        if self.check(TokenType::RIGHT_BRACE) {
            self.bump();
            let v: Vec<Stmt> = Vec::new();
            proof {
                assert(stmts_view(v@) =~= Seq::<SStmt>::empty());
            }
            return Ok(v);
        }
        let pre_cur = self.current;
        match self.declaration() {
            Ok(stmt) => {
                if self.current == pre_cur {
                    self.bump();
                }
                proof {
                    match sp_declaration(ts, i0) {
                        Ok(p) => {
                            let step: int = if p.1 < 1 {
                                1
                            } else if p.1 > ts.len() - i0 {
                                ts.len() - i0
                            } else {
                                p.1 as int
                            };
                            assert(self.pos() == i0 + step);
                        },
                        Err(q) => {
                            assert(false);
                        },
                    }
                }
                match self.block_rest() {
                    Ok(mut rest) => {
                        let ghost pre_rest = rest@;
                        let mut out: Vec<Stmt> = Vec::new();
                        out.push(stmt);
                        out.append(&mut rest);
                        proof {
                            assert(out@ == seq![stmt] + pre_rest);
                            lemma_stmts_view_cons(stmt, pre_rest);
                        }
                        Ok(out)
                    },
                    Err(pe) => Err(pe),
                }
            },
            Err(pe) => Err(pe),
        }
    }

    /// Parses a block statement, after its opening brace.
    #[verifier::rlimit(100)]
    #[verifier::spinoff_prover]
    fn block_statement(&mut self) -> (r: Result<Stmt, ParseError>)
        requires
            old(self).wf(),
        ensures
            final(self)@ == old(self)@,
            final(self).wf(),
            stmt_outcome(
                old(self)@,
                old(self).pos(),
                sp_block_stmt(old(self)@, old(self).pos()),
                r,
                final(self).pos(),
            ),
        decreases rem(old(self)@, old(self).pos()), 17int,
    {
                match self.block_rest() {
            Ok(stmts) => {
                proof {
                    crate::stmt::lemma_stmts_wf_build(stmts@, 0);
                }
                Ok(Stmt::Block { statements: stmts })
            },
            Err(pe) => Err(pe),
        }
    }

    /// Parses one statement.
    #[verifier::rlimit(100)]
    fn statement(&mut self) -> (r: Result<Stmt, ParseError>)
        requires
            old(self).wf(),
        ensures
            final(self)@ == old(self)@,
            final(self).wf(),
            stmt_outcome(
                old(self)@,
                old(self).pos(),
                sp_statement(old(self)@, old(self).pos()),
                r,
                final(self).pos(),
            ),
        decreases rem(old(self)@, old(self).pos()), 14int,
    {
                if self.match_token(TokenType::PRINT) {
            self.print_statement()
        } else if self.match_token(TokenType::LEFT_BRACE) {
            self.block_statement()
        } else {
            self.expression_statement()
        }
    }

    /// Parses one declaration, synchronizing after a diagnostic.
    #[verifier::rlimit(100)]
    #[verifier::spinoff_prover]
    fn declaration(&mut self) -> (r: Result<Stmt, ParseError>)
        requires
            old(self).wf(),
        ensures
            final(self)@ == old(self)@,
            final(self).wf(),
            stmt_outcome(
                old(self)@,
                old(self).pos(),
                sp_declaration(old(self)@, old(self).pos()),
                r,
                final(self).pos(),
            ),
        decreases rem(old(self)@, old(self).pos()), 15int,
    {
        let ghost ts = self@;
        let ghost i0 = self.pos();
        proof {
            lemma_sp_declaration_unfold(ts, i0);
        }
        let body = if self.match_token(TokenType::VAR) {
            self.var_declaration()
        } else {
            self.statement()
        };
        match body {
            Ok(stmt) => Ok(stmt),
            Err(pe) => {
                self.synchronize();
                Err(pe)
            },
        }
    }

    /// Parses a whole program: with no diagnostics the statements;
    /// otherwise every diagnostic found, each after synchronization.
    #[verifier::rlimit(100)]
    #[verifier::spinoff_prover]
    pub fn parse(&mut self) -> (r: Result<Vec<Stmt>, Vec<ParseError>>)
        requires
            old(self).wf(),
        ensures
            final(self)@ == old(self)@,
            final(self).wf(),
            ({
                let (ss, es) = sp_program(old(self)@, old(self).pos());
                match r {
                    Ok(v) => es.len() == 0 && stmts_view(v@) == ss && crate::stmt::stmts_wf(v@, 0),
                    Err(ev) => ev@.len() > 0 && ev@ == es,
                }
            }),
    {
        let ghost ts = self@;
        let ghost i0 = self.pos();
        let mut stmts: Vec<Stmt> = Vec::new();
        let mut errs: Vec<ParseError> = Vec::new();
        proof {
            assert(stmts_view(stmts@) =~= Seq::<SStmt>::empty());
        }
        while !self.is_at_end()
            invariant
                self.wf(),
                self@ == ts,
                i0 <= self.pos(),
                forall|j: int| 0 <= j < stmts@.len() ==> (#[trigger] stmts@[j]).wf(),
                sp_program(ts, i0).0 == stmts_view(stmts@) + sp_program(ts, self.pos()).0,
                sp_program(ts, i0).1 == errs@ + sp_program(ts, self.pos()).1,
            decreases rem(ts, self.pos()),
        {
            let ghost pre = self.pos();
            let pre_cur = self.current;
            let ghost pre_stmts = stmts@;
            let ghost pre_errs = errs@;
            match self.declaration() {
                Ok(stmt) => {
                    proof {
                        lemma_stmts_view_push(pre_stmts, stmt);
                    }
                    stmts.push(stmt);
                },
                Err(pe) => {
                    errs.push(pe);
                },
            }
            if self.current == pre_cur {
                self.bump();
            }
            proof {
                lemma_sp_program_step(ts, pre);
                let spd = sp_declaration(ts, pre);
                let n: nat = match spd {
                    Ok(p) => p.1,
                    Err(q) => q.1,
                };
                let step: int = if n < 1 {
                    1
                } else if n > ts.len() - pre {
                    ts.len() - pre
                } else {
                    n as int
                };
                assert(self.pos() == pre + step);
                let rest0 = sp_program(ts, pre + step).0;
                let rest1 = sp_program(ts, pre + step).1;
                match spd {
                    Ok(p) => {
                        assert(stmts_view(stmts@) == stmts_view(pre_stmts).push(p.0));
                        assert(stmts_view(pre_stmts) + (seq![p.0] + rest0) =~= (stmts_view(
                            pre_stmts,
                        ).push(p.0)) + rest0);
                        assert(errs@ == pre_errs);
                    },
                    Err(q) => {
                        assert(errs@ == pre_errs.push(q.0));
                        assert(pre_errs + (seq![q.0] + rest1) =~= (pre_errs.push(q.0)) + rest1);
                        assert(stmts@ == pre_stmts);
                    },
                }
                assert(sp_program(ts, i0).0 == stmts_view(stmts@) + sp_program(
                    ts,
                    self.pos(),
                ).0);
                assert(sp_program(ts, i0).1 == errs@ + sp_program(ts, self.pos()).1);
            }
        }
        proof {
            lemma_sp_program_end(ts, self.pos());
        }
        proof {
            assert(stmts_view(stmts@) + Seq::<SStmt>::empty() =~= stmts_view(stmts@));
            assert(errs@ + Seq::<ParseError>::empty() =~= errs@);
        }
        if errs.len() == 0 {
            proof {
                crate::stmt::lemma_stmts_wf_build(stmts@, 0);
            }
            Ok(stmts)
        } else {
            Err(errs)
        }
    }
}

/// The shape of a statement put in front of a list.
pub proof fn lemma_stmts_view_cons(x: Stmt, b: Seq<Stmt>)
    ensures
        stmts_view(seq![x] + b) == seq![stmt_view(x)] + stmts_view(b),
{
    let a = seq![x] + b;
    lemma_stmts_view_index(a);
    lemma_stmts_view_index(b);
    assert forall|k: int| 0 <= k < stmts_view(a).len() implies stmts_view(a)[k] == (seq![
        stmt_view(x),
    ] + stmts_view(b))[k] by {
        if k == 0 {
            assert(a[0] == x);
        } else {
            assert(a[k] == b[k - 1]);
        }
    }
    assert(stmts_view(a) =~= seq![stmt_view(x)] + stmts_view(b));
}

/// The shape of a statement put at the back of a list.
pub proof fn lemma_stmts_view_push(ss: Seq<Stmt>, x: Stmt)
    ensures
        stmts_view(ss.push(x)) == stmts_view(ss).push(stmt_view(x)),
{
    assert(ss.push(x).drop_last() =~= ss);
    assert(ss.push(x).last() == x);
}

/// The shape list of a statement list, read off pointwise.
pub proof fn lemma_stmts_view_index(ss: Seq<Stmt>)
    ensures
        stmts_view(ss).len() == ss.len(),
        forall|i: int| 0 <= i < ss.len() ==> stmts_view(ss)[i] == stmt_view(#[trigger] ss[i]),
    decreases ss.len(),
{
    if ss.len() > 0 {
        lemma_stmts_view_index(ss.drop_last());
        assert forall|i: int| 0 <= i < ss.len() implies stmts_view(ss)[i] == stmt_view(
            ss[i],
        ) by {
            if i < ss.len() - 1 {
                assert(ss.drop_last()[i] == ss[i]);
            } else {
                assert(stmts_view(ss)[i] == stmt_view(ss.last()));
            }
        }
    }
}

/// One step of the program model: what one declaration contributes.
pub proof fn lemma_sp_program_step(ts: Seq<Token>, i: int)
    requires
        0 <= i,
        !p_at_end(ts, i),
    ensures
        ({
            let d = sp_declaration(ts, i);
            let n: nat = match d {
                Ok(p) => p.1,
                Err(q) => q.1,
            };
            let step: int = if n < 1 {
                1
            } else if n > ts.len() - i {
                ts.len() - i
            } else {
                n as int
            };
            &&& sp_program(ts, i).0 == match d {
                Ok(p) => seq![p.0] + sp_program(ts, i + step).0,
                Err(q) => sp_program(ts, i + step).0,
            }
            &&& sp_program(ts, i).1 == match d {
                Ok(p) => sp_program(ts, i + step).1,
                Err(q) => seq![q.0] + sp_program(ts, i + step).1,
            }
        }),
{
}

/// The program model at the end of input: nothing more.
pub proof fn lemma_sp_program_end(ts: Seq<Token>, i: int)
    requires
        p_at_end(ts, i),
    ensures
        sp_program(ts, i).0 == Seq::<SStmt>::empty(),
        sp_program(ts, i).1 == Seq::<ParseError>::empty(),
{
}

/// What one declaration yields, with synchronization after a diagnostic.
pub proof fn lemma_sp_declaration_unfold(ts: Seq<Token>, i: int)
    requires
        0 <= i,
    ensures
        tok_at(ts, i, TokenType::VAR) ==> (match sp_var_decl(ts, i + 1) {
            Ok((s, n)) => sp_declaration(ts, i) == Ok::<(SStmt, nat), (ParseError, nat)>(
                (s, (1 + n) as nat),
            ),
            Err((er, n)) => sp_declaration(ts, i) == Err::<(SStmt, nat), (ParseError, nat)>(
                (er, ((1 + n) + sp_sync(ts, i + (1 + n))) as nat),
            ),
        }),
        !tok_at(ts, i, TokenType::VAR) ==> (match sp_statement(ts, i) {
            Ok((s, n)) => sp_declaration(ts, i) == Ok::<(SStmt, nat), (ParseError, nat)>((s, n)),
            Err((er, n)) => sp_declaration(ts, i) == Err::<(SStmt, nat), (ParseError, nat)>(
                (er, (n + sp_sync(ts, i + n)) as nat),
            ),
        }),
{
    reveal_with_fuel(sp_declaration, 1);
}

} // verus!
