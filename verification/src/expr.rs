use vstd::prelude::*;
use vstd::string::*;
use crate::number::{NumVal, NumError, num_str, num_eq, num_lt, num_le, rat_fits, rat_canon, iabs};
use crate::environment::{Environment, SScope, lookup_chain, assign_chain};
use crate::scanner;
use crate::scanner::{Token, TokenType};

verus! {

/// A runtime value: a number, a text, a boolean, or nil.
#[derive(Debug, Clone, PartialEq)]
pub enum LiteralValue {
    Number(NumVal),
    StringValue(String),
    True,
    False,
    Nil,
}

/// The mathematical shape of a runtime value.
pub enum SValue {
    VNum(NumVal),
    VStr(Seq<char>),
    VTrue,
    VFalse,
    VNil,
}

impl View for LiteralValue {
    type V = SValue;

    open spec fn view(&self) -> SValue {
        match self {
            LiteralValue::Number(n) => SValue::VNum(*n),
            LiteralValue::StringValue(s) => SValue::VStr(s@),
            LiteralValue::True => SValue::VTrue,
            LiteralValue::False => SValue::VFalse,
            LiteralValue::Nil => SValue::VNil,
        }
    }
}

impl SValue {
    /// A number it may carry is well-formed.
    pub open spec fn wf(self) -> bool {
        match self {
            SValue::VNum(n) => n.wf(),
            _ => true,
        }
    }
}

/// The canonical text of a value: the shortest exact number text, the raw
/// characters of a text, `true`/`false`, or `nil`.
pub open spec fn value_text(v: SValue) -> Seq<char> {
    match v {
        SValue::VNum(n) => num_str(n.num as int, n.den as int),
        SValue::VStr(s) => s,
        SValue::VTrue => "true"@,
        SValue::VFalse => "false"@,
        SValue::VNil => "nil"@,
    }
}

/// The name of a value's type, for diagnostics.
pub open spec fn type_text(v: SValue) -> Seq<char> {
    match v {
        SValue::VNum(_) => "Number"@,
        SValue::VStr(_) => "String"@,
        SValue::VTrue => "Boolean"@,
        SValue::VFalse => "Boolean"@,
        SValue::VNil => "nil"@,
    }
}

/// Falsiness: nil and false are falsy, true is truthy, a number is falsy
/// exactly when zero, a text exactly when empty.
pub open spec fn is_falsy_spec(v: SValue) -> bool {
    match v {
        SValue::VNum(n) => n.num == 0,
        SValue::VStr(s) => s.len() == 0,
        SValue::VTrue => false,
        SValue::VFalse => true,
        SValue::VNil => true,
    }
}

/// An exact copy of a value.
pub fn clone_value(v: &LiteralValue) -> (r: LiteralValue)
    ensures
        r == *v,
{
    match v {
        LiteralValue::Number(n) => LiteralValue::Number(*n),
        LiteralValue::StringValue(s) => LiteralValue::StringValue(s.clone()),
        LiteralValue::True => LiteralValue::True,
        LiteralValue::False => LiteralValue::False,
        LiteralValue::Nil => LiteralValue::Nil,
    }
}

/// The text a literal token denotes, read off its kind and payload.
pub open spec fn from_token_spec(t: crate::scanner::SToken) -> SValue {
    match t.token_type {
        TokenType::NUMBER => match t.literal {
            Some(crate::scanner::SLit::SNum(n)) => SValue::VNum(n),
            _ => SValue::VNil,
        },
        TokenType::STRING => match t.literal {
            Some(crate::scanner::SLit::SStr(s)) => SValue::VStr(s),
            _ => SValue::VNil,
        },
        TokenType::FALSE => SValue::VFalse,
        TokenType::TRUE => SValue::VTrue,
        TokenType::NIL => SValue::VNil,
        _ => SValue::VNil,
    }
}

/// Whether a token is a literal that `from_token` accepts.
pub open spec fn literal_token(t: crate::scanner::SToken) -> bool {
    match t.token_type {
        TokenType::NUMBER => t.literal matches Some(crate::scanner::SLit::SNum(_)),
        TokenType::STRING => t.literal matches Some(crate::scanner::SLit::SStr(_)),
        TokenType::FALSE => true,
        TokenType::TRUE => true,
        TokenType::NIL => true,
        _ => false,
    }
}

/// The text payload of a string or identifier token literal.
pub fn unwrap_as_string(literal: Option<scanner::LiteralValue>) -> (r: String)
    requires
        literal matches Some(l) && (l@ matches crate::scanner::SLit::SStr(_) || l@
            matches crate::scanner::SLit::SIdent(_)),
    ensures
        match literal {
            Some(scanner::LiteralValue::StringValue(s)) => r@ == s@,
            Some(scanner::LiteralValue::IdentifierVal(s)) => r@ == s@,
            _ => false,
        },
{
    match literal {
        Some(scanner::LiteralValue::StringValue(s)) => s,
        Some(scanner::LiteralValue::IdentifierVal(s)) => s,
        _ => {
            proof {
                assert(false);
            }
            String::new()
        },
    }
}

/// The numeric payload of a number token literal.
pub fn unwrap_as_number(literal: Option<scanner::LiteralValue>) -> (r: NumVal)
    requires
        literal matches Some(l) && l@ matches crate::scanner::SLit::SNum(_),
    ensures
        match literal {
            Some(scanner::LiteralValue::NumberValue(n)) => r == n,
            _ => false,
        },
{
    match literal {
        Some(scanner::LiteralValue::NumberValue(n)) => n,
        _ => {
            proof {
                assert(false);
            }
            NumVal { num: 0, den: 1 }
        },
    }
}

impl LiteralValue {
    /// The canonical text of the value.
    pub fn to_string(&self) -> (r: String)
        requires
            self@.wf(),
        ensures
            r@ == value_text(self@),
    {
        match self {
            LiteralValue::Number(n) => n.to_text(),
            LiteralValue::StringValue(s) => s.clone(),
            LiteralValue::True => String::from_str("true"),
            LiteralValue::False => String::from_str("false"),
            LiteralValue::Nil => String::from_str("nil"),
        }
    }

    /// The name of the value's type.
    pub fn to_type(&self) -> (r: &'static str)
        ensures
            r@ == type_text(self@),
    {
        match self {
            LiteralValue::Number(_) => "Number",
            LiteralValue::StringValue(_) => "String",
            LiteralValue::True => "Boolean",
            LiteralValue::False => "Boolean",
            LiteralValue::Nil => "nil",
        }
    }

    /// The value a literal token denotes.
    pub fn from_token(token: Token) -> (r: Self)
        requires
            literal_token(token@),
        ensures
            r@ == from_token_spec(token@),
    {
        match token.token_type {
            TokenType::NUMBER => LiteralValue::Number(unwrap_as_number(token.literal)),
            TokenType::STRING => LiteralValue::StringValue(unwrap_as_string(token.literal)),
            TokenType::FALSE => LiteralValue::False,
            TokenType::TRUE => LiteralValue::True,
            TokenType::NIL => LiteralValue::Nil,
            _ => {
                proof {
                    assert(false);
                }
                LiteralValue::Nil
            },
        }
    }

    /// The boolean value.
    pub fn from_bool(b: bool) -> (r: Self)
        ensures
            b ==> r == LiteralValue::True,
            !b ==> r == LiteralValue::False,
    {
        if b {
            LiteralValue::True
        } else {
            LiteralValue::False
        }
    }

    /// Whether the value is falsy.
    pub fn is_falsy(&self) -> (r: bool)
        ensures
            r == is_falsy_spec(self@),
    {
        match self {
            LiteralValue::Number(x) => x.is_zero(),
            LiteralValue::StringValue(s) => s.as_str().is_empty(),
            LiteralValue::True => false,
            LiteralValue::False => true,
            LiteralValue::Nil => true,
        }
    }
}

/// An expression tree.
#[derive(Debug)]
pub enum Expr {
    Assign { name: Token, value: Box<Expr> },
    Binary { left: Box<Expr>, operator: Token, right: Box<Expr> },
    Grouping { expression: Box<Expr> },
    Literal { value: LiteralValue },
    Unary { operator: Token, right: Box<Expr> },
    Variable { name: Token },
}

impl Expr {
    /// Every number literal in the tree is well-formed.
    pub open spec fn wf(self) -> bool
        decreases self,
    {
        match self {
            Expr::Assign { name, value } => value.wf(),
            Expr::Binary { left, operator, right } => left.wf() && right.wf(),
            Expr::Grouping { expression } => expression.wf(),
            Expr::Literal { value } => value@.wf(),
            Expr::Unary { operator, right } => right.wf(),
            Expr::Variable { name } => true,
        }
    }
}

/// The structural text of an expression: parenthesized prefix form, with
/// each operator's own lexeme.
pub open spec fn print_expr(e: Expr) -> Seq<char>
    decreases e,
{
    match e {
        Expr::Assign { name, value } => "(= "@ + name.lexeme@ + " "@ + print_expr(*value) + ")"@,
        Expr::Binary { left, operator, right } => "("@ + operator.lexeme@ + " "@ + print_expr(
            *left,
        ) + " "@ + print_expr(*right) + ")"@,
        Expr::Grouping { expression } => "(group "@ + print_expr(*expression) + ")"@,
        Expr::Literal { value } => value_text(value@),
        Expr::Unary { operator, right } => "("@ + operator.lexeme@ + " "@ + print_expr(*right)
            + ")"@,
        Expr::Variable { name } => "(var "@ + name.lexeme@ + ")"@,
    }
}

impl Expr {
    /// The structural text of the expression.
    pub fn to_string(&self) -> (r: String)
        requires
            self.wf(),
        ensures
            r@ == print_expr(*self),
        decreases self,
    {
        match self {
            Expr::Assign { name, value } => {
                let mut out = String::from_str("(= ");
                out.append(name.lexeme.as_str());
                out.append(" ");
                let inner = value.to_string();
                out.append(inner.as_str());
                out.append(")");
                out
            },
            Expr::Binary { left, operator, right } => {
                let mut out = String::from_str("(");
                out.append(operator.lexeme.as_str());
                out.append(" ");
                let l = left.to_string();
                out.append(l.as_str());
                out.append(" ");
                let rtext = right.to_string();
                out.append(rtext.as_str());
                out.append(")");
                out
            },
            Expr::Grouping { expression } => {
                let mut out = String::from_str("(group ");
                let inner = expression.to_string();
                out.append(inner.as_str());
                out.append(")");
                out
            },
            Expr::Literal { value } => value.to_string(),
            Expr::Unary { operator, right } => {
                let mut out = String::from_str("(");
                out.append(operator.lexeme.as_str());
                out.append(" ");
                let inner = right.to_string();
                out.append(inner.as_str());
                out.append(")");
                out
            },
            Expr::Variable { name } => {
                let mut out = String::from_str("(var ");
                out.append(name.lexeme.as_str());
                out.append(")");
                out
            },
        }
    }
}

/// What evaluation can fail with at run time.
#[derive(Debug, Clone, PartialEq)]
pub enum RuntimeError {
    UndefinedVariable { name: String },
    AssignUndefined { name: String },
    UnaryTypeMismatch { operator: TokenType, operand: String },
    BinaryTypeMismatch { operator: TokenType, left: String, right: String },
    DivisionByZero,
    NumericOverflow,
}

/// The mathematical shape of a runtime error.
pub enum SRtErr {
    UndefinedVariable(Seq<char>),
    AssignUndefined(Seq<char>),
    UnaryTypeMismatch(TokenType, Seq<char>),
    BinaryTypeMismatch(TokenType, Seq<char>, Seq<char>),
    DivisionByZero,
    NumericOverflow,
}

impl View for RuntimeError {
    type V = SRtErr;

    open spec fn view(&self) -> SRtErr {
        match self {
            RuntimeError::UndefinedVariable { name } => SRtErr::UndefinedVariable(name@),
            RuntimeError::AssignUndefined { name } => SRtErr::AssignUndefined(name@),
            RuntimeError::UnaryTypeMismatch { operator, operand } => SRtErr::UnaryTypeMismatch(
                *operator,
                operand@,
            ),
            RuntimeError::BinaryTypeMismatch { operator, left, right } => {
                SRtErr::BinaryTypeMismatch(*operator, left@, right@)
            },
            RuntimeError::DivisionByZero => SRtErr::DivisionByZero,
            RuntimeError::NumericOverflow => SRtErr::NumericOverflow,
        }
    }
}

/// Structural equality of values: equal exactly when the tags match and
/// the payloads match; two numbers match when numerically equal.
pub open spec fn sval_eq(a: SValue, b: SValue) -> bool {
    match (a, b) {
        (SValue::VNum(x), SValue::VNum(y)) => num_eq(x, y),
        (SValue::VStr(x), SValue::VStr(y)) => x == y,
        (SValue::VTrue, SValue::VTrue) => true,
        (SValue::VFalse, SValue::VFalse) => true,
        (SValue::VNil, SValue::VNil) => true,
        _ => false,
    }
}

pub open spec fn bool_val(b: bool) -> SValue {
    if b {
        SValue::VTrue
    } else {
        SValue::VFalse
    }
}

/// An exact arithmetic result: the fraction in lowest terms, or an
/// overflow error when it does not fit.
pub open spec fn arith_val(n: int, d: int) -> Result<SValue, SRtErr> {
    if rat_fits(n, d) {
        Ok(SValue::VNum(rat_canon(n, d)))
    } else {
        Err(SRtErr::NumericOverflow)
    }
}

/// What a binary operator yields on two values. Equality is defined for
/// every pair; arithmetic and ordering need two numbers, except `+`,
/// which also joins two texts; anything else is a type mismatch.
pub open spec fn eval_binary(op: TokenType, a: SValue, b: SValue) -> Result<SValue, SRtErr> {
    if op == TokenType::EQUAL_EQUAL {
        Ok(bool_val(sval_eq(a, b)))
    } else if op == TokenType::BANG_EQUAL {
        Ok(bool_val(!sval_eq(a, b)))
    } else {
        match (a, b) {
            (SValue::VNum(x), SValue::VNum(y)) => {
                if op == TokenType::PLUS {
                    arith_val(x.num * y.den + y.num * x.den, x.den * y.den)
                } else if op == TokenType::MINUS {
                    arith_val(x.num * y.den - y.num * x.den, x.den * y.den)
                } else if op == TokenType::STAR {
                    arith_val(x.num * y.num, x.den * y.den)
                } else if op == TokenType::SLASH {
                    if y.num == 0 {
                        Err(SRtErr::DivisionByZero)
                    } else {
                        arith_val(
                            if y.num >= 0 {
                                x.num * y.den
                            } else {
                                -(x.num * y.den)
                            },
                            x.den * iabs(y.num as int),
                        )
                    }
                } else if op == TokenType::GREATER {
                    Ok(bool_val(num_lt(y, x)))
                } else if op == TokenType::GREATER_EQUAL {
                    Ok(bool_val(num_le(y, x)))
                } else if op == TokenType::LESS {
                    Ok(bool_val(num_lt(x, y)))
                } else if op == TokenType::LESS_EQUAL {
                    Ok(bool_val(num_le(x, y)))
                } else {
                    Err(SRtErr::BinaryTypeMismatch(op, type_text(a), type_text(b)))
                }
            },
            (SValue::VStr(s1), SValue::VStr(s2)) => {
                if op == TokenType::PLUS {
                    Ok(SValue::VStr(s1 + s2))
                } else {
                    Err(SRtErr::BinaryTypeMismatch(op, type_text(a), type_text(b)))
                }
            },
            _ => Err(SRtErr::BinaryTypeMismatch(op, type_text(a), type_text(b))),
        }
    }
}

/// What a unary operator yields: `-` negates a number, `!` negates
/// truthiness of any value; anything else is a type mismatch.
pub open spec fn eval_unary(op: TokenType, v: SValue) -> Result<SValue, SRtErr> {
    if op == TokenType::MINUS {
        match v {
            SValue::VNum(n) => Ok(
                SValue::VNum(NumVal { num: (-(n.num as int)) as i64, den: n.den }),
            ),
            _ => Err(SRtErr::UnaryTypeMismatch(op, type_text(v))),
        }
    } else if op == TokenType::BANG {
        Ok(bool_val(is_falsy_spec(v)))
    } else {
        Err(SRtErr::UnaryTypeMismatch(op, type_text(v)))
    }
}

/// What evaluating an expression yields, and the scope arena after it:
/// only assignment changes the arena; a subexpression's effects are kept
/// even when a later step fails.
pub open spec fn eval_expr(e: Expr, scopes: Seq<SScope>, active: int) -> (
    Result<SValue, SRtErr>,
    Seq<SScope>,
)
    decreases e,
{
    match e {
        Expr::Literal { value } => (Ok(value@), scopes),
        Expr::Grouping { expression } => eval_expr(*expression, scopes, active),
        Expr::Unary { operator, right } => {
            let (r, sc) = eval_expr(*right, scopes, active);
            match r {
                Ok(v) => (eval_unary(operator.token_type, v), sc),
                Err(er) => (Err(er), sc),
            }
        },
        Expr::Binary { left, operator, right } => {
            let (l, sc1) = eval_expr(*left, scopes, active);
            match l {
                Ok(lv) => {
                    let (r, sc2) = eval_expr(*right, sc1, active);
                    match r {
                        Ok(rv) => (eval_binary(operator.token_type, lv, rv), sc2),
                        Err(er) => (Err(er), sc2),
                    }
                },
                Err(er) => (Err(er), sc1),
            }
        },
        Expr::Variable { name } => (
            match lookup_chain(scopes, active, name.lexeme@) {
                Some(v) => Ok(v),
                None => Err(SRtErr::UndefinedVariable(name.lexeme@)),
            },
            scopes,
        ),
        Expr::Assign { name, value } => {
            let (r, sc) = eval_expr(*value, scopes, active);
            match r {
                Ok(v) => match assign_chain(sc, active, name.lexeme@, v) {
                    Some(ns) => (Ok(v), ns),
                    None => (Err(SRtErr::AssignUndefined(name.lexeme@)), sc),
                },
                Err(er) => (Err(er), sc),
            }
        },
    }
}

/// Structural equality of two values.
pub fn values_equal(a: &LiteralValue, b: &LiteralValue) -> (r: bool)
    requires
        a@.wf(),
        b@.wf(),
    ensures
        r == sval_eq(a@, b@),
{
    match (a, b) {
        (LiteralValue::Number(x), LiteralValue::Number(y)) => x.eq_val(y),
        (LiteralValue::StringValue(x), LiteralValue::StringValue(y)) => *x == *y,
        (LiteralValue::True, LiteralValue::True) => true,
        (LiteralValue::False, LiteralValue::False) => true,
        (LiteralValue::Nil, LiteralValue::Nil) => true,
        _ => false,
    }
}

/// Applies a binary operator to two values.
fn apply_binary(op: TokenType, l: &LiteralValue, r: &LiteralValue) -> (res: Result<
    LiteralValue,
    RuntimeError,
>)
    requires
        l@.wf(),
        r@.wf(),
    ensures
        match res {
            Ok(v) => eval_binary(op, l@, r@) == Ok::<SValue, SRtErr>(v@) && v@.wf(),
            Err(e) => eval_binary(op, l@, r@) == Err::<SValue, SRtErr>(e@),
        },
{
    if op == TokenType::EQUAL_EQUAL {
        return Ok(LiteralValue::from_bool(values_equal(l, r)));
    }
    if op == TokenType::BANG_EQUAL {
        return Ok(LiteralValue::from_bool(!values_equal(l, r)));
    }
    match (l, r) {
        (LiteralValue::Number(x), LiteralValue::Number(y)) => {
            if op == TokenType::PLUS {
                let a = x.checked_add(y);
                proof {
                    crate::number::lemma_den_product_pos(x.den as nat, y.den as nat);
                    crate::number::lemma_rat_result_read(
                        x.num * y.den + y.num * x.den,
                        x.den * y.den,
                        a,
                    );
                }
                map_arith(a)
            } else if op == TokenType::MINUS {
                let a = x.checked_sub(y);
                proof {
                    crate::number::lemma_den_product_pos(x.den as nat, y.den as nat);
                    crate::number::lemma_rat_result_read(
                        x.num * y.den - y.num * x.den,
                        x.den * y.den,
                        a,
                    );
                }
                map_arith(a)
            } else if op == TokenType::STAR {
                let a = x.checked_mul(y);
                proof {
                    crate::number::lemma_den_product_pos(x.den as nat, y.den as nat);
                    crate::number::lemma_rat_result_read(x.num * y.num, x.den * y.den, a);
                }
                map_arith(a)
            } else if op == TokenType::SLASH {
                if y.is_zero() {
                    Err(RuntimeError::DivisionByZero)
                } else {
                    let a = x.checked_div(y);
                    proof {
                        crate::number::lemma_den_product_pos(x.den as nat, iabs(y.num as int));
                        crate::number::lemma_rat_result_read(
                            if y.num >= 0 {
                                x.num * y.den
                            } else {
                                -(x.num * y.den)
                            },
                            x.den * iabs(y.num as int),
                            a,
                        );
                    }
                    map_arith(a)
                }
            } else if op == TokenType::GREATER {
                Ok(LiteralValue::from_bool(y.lt(x)))
            } else if op == TokenType::GREATER_EQUAL {
                Ok(LiteralValue::from_bool(y.le(x)))
            } else if op == TokenType::LESS {
                Ok(LiteralValue::from_bool(x.lt(y)))
            } else if op == TokenType::LESS_EQUAL {
                Ok(LiteralValue::from_bool(x.le(y)))
            } else {
                Err(mismatch(op, l, r))
            }
        },
        (LiteralValue::StringValue(a), LiteralValue::StringValue(b)) => {
            if op == TokenType::PLUS {
                let joined = a.clone().concat(b.as_str());
                Ok(LiteralValue::StringValue(joined))
            } else {
                Err(mismatch(op, l, r))
            }
        },
        _ => Err(mismatch(op, l, r)),
    }
}

/// The type-mismatch error for a binary operator on these values.
fn mismatch(op: TokenType, l: &LiteralValue, r: &LiteralValue) -> (e: RuntimeError)
    ensures
        e@ == SRtErr::BinaryTypeMismatch(op, type_text(l@), type_text(r@)),
{
    RuntimeError::BinaryTypeMismatch {
        operator: op,
        left: String::from_str(l.to_type()),
        right: String::from_str(r.to_type()),
    }
}

/// Packs an exact arithmetic result as a runtime value or error.
fn map_arith(a: Result<NumVal, NumError>) -> (res: Result<LiteralValue, RuntimeError>)
    ensures
        match res {
            Ok(v) => a matches Ok(n) && v == LiteralValue::Number(n),
            Err(e) => {
                ||| (a == Err::<NumVal, NumError>(NumError::Overflow) && e
                    == RuntimeError::NumericOverflow)
                ||| (a == Err::<NumVal, NumError>(NumError::DivideByZero) && e
                    == RuntimeError::DivisionByZero)
            },
        },
{
    match a {
        Ok(v) => Ok(LiteralValue::Number(v)),
        Err(NumError::Overflow) => Err(RuntimeError::NumericOverflow),
        Err(NumError::DivideByZero) => Err(RuntimeError::DivisionByZero),
    }
}

impl Expr {
    /// Evaluates the expression against the scope chain: exactly the
    /// value and arena change that the evaluation model gives.
    pub fn evaluate(&self, environment: &mut Environment) -> (r: Result<
        LiteralValue,
        RuntimeError,
    >)
        requires
            self.wf(),
            old(environment).wf(),
        ensures
            final(environment).wf(),
            final(environment)@.active == old(environment)@.active,
            ({
                let (res, sc) = eval_expr(
                    *self,
                    old(environment)@.scopes,
                    old(environment)@.active,
                );
                &&& final(environment)@.scopes == sc
                &&& match r {
                    Ok(v) => res == Ok::<SValue, SRtErr>(v@) && v@.wf(),
                    Err(e) => res == Err::<SValue, SRtErr>(e@),
                }
            }),
        decreases self,
    {
        match self {
            Expr::Literal { value } => Ok(clone_value(value)),
            Expr::Grouping { expression } => expression.evaluate(environment),
            Expr::Unary { operator, right } => {
                match right.evaluate(environment) {
                    Err(e) => Err(e),
                    Ok(v) => {
                        if operator.token_type == TokenType::MINUS {
                            match v {
                                LiteralValue::Number(n) => Ok(LiteralValue::Number(n.negate())),
                                _ => Err(
                                    RuntimeError::UnaryTypeMismatch {
                                        operator: operator.token_type,
                                        operand: String::from_str(v.to_type()),
                                    },
                                ),
                            }
                        } else if operator.token_type == TokenType::BANG {
                            Ok(LiteralValue::from_bool(v.is_falsy()))
                        } else {
                            Err(
                                RuntimeError::UnaryTypeMismatch {
                                    operator: operator.token_type,
                                    operand: String::from_str(v.to_type()),
                                },
                            )
                        }
                    },
                }
            },
            Expr::Binary { left, operator, right } => {
                match left.evaluate(environment) {
                    Err(e) => Err(e),
                    Ok(lv) => match right.evaluate(environment) {
                        Err(e) => Err(e),
                        Ok(rv) => apply_binary(operator.token_type, &lv, &rv),
                    },
                }
            },
            Expr::Variable { name } => {
                match environment.get(&name.lexeme) {
                    Some(v) => Ok(v),
                    None => Err(RuntimeError::UndefinedVariable { name: name.lexeme.clone() }),
                }
            },
            Expr::Assign { name, value } => {
                match value.evaluate(environment) {
                    Err(e) => Err(e),
                    Ok(v) => {
                        let stored = clone_value(&v);
                        if environment.assign(&name.lexeme, stored) {
                            Ok(v)
                        } else {
                            Err(RuntimeError::AssignUndefined { name: name.lexeme.clone() })
                        }
                    },
                }
            },
        }
    }
}

/// Evaluating an expression never changes how many scopes the arena
/// holds: only assignment touches it, and assignment only updates.
pub proof fn lemma_eval_scopes_len(e: Expr, scopes: Seq<SScope>, active: int)
    ensures
        eval_expr(e, scopes, active).1.len() == scopes.len(),
    decreases e,
{
    match e {
        Expr::Literal { value } => {},
        Expr::Grouping { expression } => {
            lemma_eval_scopes_len(*expression, scopes, active);
        },
        Expr::Unary { operator, right } => {
            lemma_eval_scopes_len(*right, scopes, active);
        },
        Expr::Binary { left, operator, right } => {
            lemma_eval_scopes_len(*left, scopes, active);
            let (l, sc1) = eval_expr(*left, scopes, active);
            lemma_eval_scopes_len(*right, sc1, active);
        },
        Expr::Variable { name } => {},
        Expr::Assign { name, value } => {
            lemma_eval_scopes_len(*value, scopes, active);
            let (r, sc) = eval_expr(*value, scopes, active);
            match r {
                Ok(v) => {
                    lemma_assign_chain_len(sc, active, name.lexeme@, v);
                },
                Err(er) => {},
            }
        },
    }
}

/// Overwriting a binding never changes how many scopes the arena holds.
pub proof fn lemma_assign_chain_len(scopes: Seq<SScope>, h: int, name: Seq<char>, v: SValue)
    ensures
        assign_chain(scopes, h, name, v) matches Some(ns) ==> ns.len() == scopes.len(),
    decreases h,
{
    if 0 <= h < scopes.len() && !scopes[h].table.contains_key(name) {
        match scopes[h].parent {
            Some(p) => {
                if 0 <= p < h {
                    lemma_assign_chain_len(scopes, p, name, v);
                }
            },
            None => {},
        }
    }
}

/// A grouping is semantically transparent: evaluating `( e )` yields
/// exactly the value, error, and scope effects of evaluating `e` itself.
/// This is the semantic half of print-then-parse round-tripping: the
/// groupings that re-reading a printed tree introduces never change what
/// an expression does.
pub proof fn lemma_eval_grouping(e: Expr, scopes: Seq<SScope>, active: int)
    ensures
        eval_expr(Expr::Grouping { expression: Box::new(e) }, scopes, active) == eval_expr(
            e,
            scopes,
            active,
        ),
{
}

} // verus!
