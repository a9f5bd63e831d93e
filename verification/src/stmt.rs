use vstd::prelude::*;
use vstd::string::*;
use crate::expr::{Expr, print_expr};
use crate::scanner::Token;

verus! {

broadcast use vstd::std_specs::vec::group_vec_axioms;

/// A statement: an expression, a print, a variable declaration, or a
/// block of statements.
#[derive(Debug)]
pub enum Stmt {
    Expression { expression: Expr },
    Print { expression: Expr },
    Var { name: Token, initialiser: Expr },
    Block { statements: Vec<Stmt> },
}

impl Stmt {
    /// Every number literal in the statement is well-formed.
    pub open spec fn wf(self) -> bool
        decreases self, 0int,
    {
        match self {
            Stmt::Expression { expression } => expression.wf(),
            Stmt::Print { expression } => expression.wf(),
            Stmt::Var { name, initialiser } => initialiser.wf(),
            Stmt::Block { statements } => stmts_wf(statements@, 0),
        }
    }
}

pub open spec fn stmts_wf(ss: Seq<Stmt>, i: int) -> bool
    decreases ss, ss.len() - i
        when 0 <= i
{
    i >= ss.len() || (ss[i].wf() && stmts_wf(ss, i + 1))
}

/// The structural text of a statement.
pub open spec fn print_stmt(s: Stmt) -> Seq<char>
    decreases s, 0int,
{
    match s {
        Stmt::Expression { expression } => print_expr(expression),
        Stmt::Print { expression } => "(print "@ + print_expr(expression) + ")"@,
        Stmt::Var { name, initialiser } => "(var "@ + name.lexeme@ + ")"@,
        Stmt::Block { statements } => "(block "@ + print_stmts_joined(statements@, 0) + ")"@,
    }
}

/// The texts of the statements from `i` on, joined with commas.
pub open spec fn print_stmts_joined(ss: Seq<Stmt>, i: int) -> Seq<char>
    decreases ss, ss.len() - i + 1
        when 0 <= i
{
    if i >= ss.len() {
        Seq::<char>::empty()
    } else {
        print_stmt(ss[i]) + print_stmts_tail(ss, i + 1)
    }
}

/// The comma-led texts of the statements from `i` on.
pub open spec fn print_stmts_tail(ss: Seq<Stmt>, i: int) -> Seq<char>
    decreases ss, ss.len() - i
        when 0 <= i
{
    if i >= ss.len() {
        Seq::<char>::empty()
    } else {
        ","@ + print_stmt(ss[i]) + print_stmts_tail(ss, i + 1)
    }
}

impl Stmt {
    /// The structural text of the statement.
    pub fn to_string(&self) -> (r: String)
        requires
            self.wf(),
        ensures
            r@ == print_stmt(*self),
        decreases self,
    {
        match self {
            Stmt::Expression { expression } => expression.to_string(),
            Stmt::Print { expression } => {
                let mut out = String::from_str("(print ");
                let inner = expression.to_string();
                out.append(inner.as_str());
                out.append(")");
                out
            },
            Stmt::Var { name, initialiser } => {
                let mut out = String::from_str("(var ");
                out.append(name.lexeme.as_str());
                out.append(")");
                out
            },
            Stmt::Block { statements } => {
                let mut out = String::from_str("(block ");
                proof {
                    lemma_stmts_wf_all(statements@, 0);
                }
                if statements.len() > 0 {
                    let first = statements[0].to_string();
                    out.append(first.as_str());
                    let rest = stmts_tail_string(statements, 1);
                    out.append(rest.as_str());
                }
                out.append(")");
                proof {
                    assert(out@ =~= print_stmt(*self));
                }
                out
            },
        }
    }
}

/// The comma-led texts of the statements from `i` on, as one string.
fn stmts_tail_string(statements: &Vec<Stmt>, i: usize) -> (r: String)
    requires
        forall|j: int| 0 <= j < statements@.len() ==> (#[trigger] statements@[j]).wf(),
    ensures
        r@ == print_stmts_tail(statements@, i as int),
    decreases statements, statements@.len() - i,
{
    if i >= statements.len() {
        String::new()
    } else {
        let mut out = String::from_str(",");
        let t = statements[i].to_string();
        out.append(t.as_str());
        let rest = stmts_tail_string(statements, i + 1);
        out.append(rest.as_str());
        out
    }
}

/// In a well-formed statement list, every statement is well-formed.
pub proof fn lemma_stmts_wf_all(ss: Seq<Stmt>, i: int)
    requires
        0 <= i,
        stmts_wf(ss, i),
    ensures
        forall|j: int| i <= j < ss.len() ==> (#[trigger] ss[j]).wf(),
    decreases ss.len() - i,
{
    if i < ss.len() {
        lemma_stmts_wf_all(ss, i + 1);
    }
}

/// A list whose statements are each well-formed is well-formed from any
/// starting point.
pub proof fn lemma_stmts_wf_build(ss: Seq<Stmt>, i: int)
    requires
        0 <= i,
        forall|j: int| i <= j < ss.len() ==> (#[trigger] ss[j]).wf(),
    ensures
        stmts_wf(ss, i),
    decreases ss.len() - i,
{
    if i < ss.len() {
        lemma_stmts_wf_build(ss, i + 1);
    }
}

} // verus!
