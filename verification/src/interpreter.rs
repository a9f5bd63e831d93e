use vstd::prelude::*;
use vstd::string::*;
use crate::environment::{Environment, SScope};
use crate::expr::{
    eval_expr, lemma_eval_scopes_len, value_text, RuntimeError, SRtErr, SValue,
};
use crate::stmt::{stmts_wf, Stmt};

verus! {

broadcast use vstd::std_specs::vec::group_vec_axioms;

/// The interpreter's whole state: the scope arena, the active handle, and
/// every line printed so far.
pub struct SState {
    pub scopes: Seq<SScope>,
    pub active: int,
    pub output: Seq<Seq<char>>,
}

/// What executing one statement does to the state, and the error that
/// aborts it, if any.
pub open spec fn run_stmt(s: Stmt, st: SState) -> (Option<SRtErr>, SState)
    decreases s, 0int,
{
    match s {
        Stmt::Expression { expression } => {
            let (r, sc) = eval_expr(expression, st.scopes, st.active);
            let st2 = SState { scopes: sc, active: st.active, output: st.output };
            match r {
                Ok(_) => (None, st2),
                Err(e) => (Some(e), st2),
            }
        },
        Stmt::Print { expression } => {
            let (r, sc) = eval_expr(expression, st.scopes, st.active);
            match r {
                Ok(v) => (
                    None,
                    SState {
                        scopes: sc,
                        active: st.active,
                        output: st.output.push(value_text(v)),
                    },
                ),
                Err(e) => (Some(e), SState { scopes: sc, active: st.active, output: st.output }),
            }
        },
        Stmt::Var { name, initialiser } => {
            let (r, sc) = eval_expr(initialiser, st.scopes, st.active);
            match r {
                Ok(v) => (
                    None,
                    SState {
                        scopes: sc.update(
                            st.active,
                            SScope {
                                table: sc[st.active].table.insert(name.lexeme@, v),
                                parent: sc[st.active].parent,
                            },
                        ),
                        active: st.active,
                        output: st.output,
                    },
                ),
                Err(e) => (Some(e), SState { scopes: sc, active: st.active, output: st.output }),
            }
        },
        Stmt::Block { statements } => {
            let entered = SState {
                scopes: st.scopes.push(
                    SScope { table: Map::<Seq<char>, SValue>::empty(), parent: Some(st.active) },
                ),
                active: st.scopes.len() as int,
                output: st.output,
            };
            let (r, st2) = run_stmts(statements@, 0, entered);
            (r, SState { scopes: st2.scopes, active: st.active, output: st2.output })
        },
    }
}

/// What executing the statements from `i` on does: each in order, until
/// all complete or one aborts with an error.
pub open spec fn run_stmts(ss: Seq<Stmt>, i: int, st: SState) -> (Option<SRtErr>, SState)
    decreases ss, ss.len() - i
        when 0 <= i
{
    if i >= ss.len() {
        (None, st)
    } else {
        let (r, st2) = run_stmt(ss[i], st);
        match r {
            Some(e) => (Some(e), st2),
            None => run_stmts(ss, i + 1, st2),
        }
    }
}

/// Executing statements never removes scopes from the arena.
pub proof fn lemma_run_stmt_grows(s: Stmt, st: SState)
    requires
        0 <= st.active < st.scopes.len(),
    ensures
        run_stmt(s, st).1.scopes.len() >= st.scopes.len(),
        run_stmt(s, st).1.active == st.active,
    decreases s, 0int,
{
    match s {
        Stmt::Expression { expression } => {
            lemma_eval_scopes_len(expression, st.scopes, st.active);
        },
        Stmt::Print { expression } => {
            lemma_eval_scopes_len(expression, st.scopes, st.active);
        },
        Stmt::Var { name, initialiser } => {
            lemma_eval_scopes_len(initialiser, st.scopes, st.active);
        },
        Stmt::Block { statements } => {
            let entered = SState {
                scopes: st.scopes.push(
                    SScope { table: Map::<Seq<char>, SValue>::empty(), parent: Some(st.active) },
                ),
                active: st.scopes.len() as int,
                output: st.output,
            };
            lemma_run_stmts_grows(statements@, 0, entered);
        },
    }
}

pub proof fn lemma_run_stmts_grows(ss: Seq<Stmt>, i: int, st: SState)
    requires
        0 <= i,
        0 <= st.active < st.scopes.len(),
    ensures
        run_stmts(ss, i, st).1.scopes.len() >= st.scopes.len(),
        run_stmts(ss, i, st).1.active == st.active,
    decreases ss, ss.len() - i,
{
    if i < ss.len() {
        lemma_run_stmt_grows(ss[i], st);
        let (r, st2) = run_stmt(ss[i], st);
        if r is None {
            lemma_run_stmts_grows(ss, i + 1, st2);
        }
    }
}

/// The tree-walking interpreter: a scope arena and the lines printed so
/// far, which the caller hands to its output sink.
pub struct Interpreter {
    environment: Environment,
    pub output: Vec<String>,
}

impl View for Interpreter {
    type V = SState;

    closed spec fn view(&self) -> SState {
        SState {
            scopes: self.environment@.scopes,
            active: self.environment@.active,
            output: self.output@.map_values(|x: String| x@),
        }
    }
}

impl Interpreter {
    pub open spec fn wf(self) -> bool {
        self.env_wf()
    }

    pub closed spec fn env_wf(self) -> bool {
        self.environment.wf()
    }

    /// A fresh interpreter: one root scope, nothing printed.
    pub fn new() -> (r: Interpreter)
        ensures
            r.wf(),
            r@.scopes.len() == 1,
            r@.active == 0,
            r@.scopes[0].table =~= Map::<Seq<char>, SValue>::empty(),
            r@.scopes[0].parent is None,
            r@.output =~= Seq::<Seq<char>>::empty(),
    {
        let r = Interpreter { environment: Environment::new(), output: Vec::new() };
        proof {
            assert(r@.output =~= Seq::<Seq<char>>::empty());
        }
        r
    }

    /// Executes one statement: exactly the state change and error that
    /// the execution model gives.
    pub fn execute(&mut self, s: &Stmt) -> (r: Result<(), RuntimeError>)
        requires
            old(self).wf(),
            s.wf(),
        ensures
            final(self).wf(),
            final(self)@.active == old(self)@.active,
            final(self)@.scopes.len() >= old(self)@.scopes.len(),
            ({
                let (sr, st2) = run_stmt(*s, old(self)@);
                &&& final(self)@ == st2
                &&& match r {
                    Ok(u) => sr is None,
                    Err(e) => sr == Some(e@),
                }
            }),
        decreases s, 0int,
    {
        proof {
            lemma_run_stmt_grows(*s, old(self)@);
        }
        match s {
            Stmt::Expression { expression } => {
                match expression.evaluate(&mut self.environment) {
                    Ok(_) => Ok(()),
                    Err(e) => Err(e),
                }
            },
            Stmt::Print { expression } => {
                match expression.evaluate(&mut self.environment) {
                    Ok(v) => {
                        let ghost pre = self@.output;
                        let line = v.to_string();
                        self.output.push(line);
                        proof {
                            assert(self@.output =~= pre.push(value_text(v@)));
                        }
                        Ok(())
                    },
                    Err(e) => Err(e),
                }
            },
            Stmt::Var { name, initialiser } => {
                match initialiser.evaluate(&mut self.environment) {
                    Ok(v) => {
                        self.environment.define(name.lexeme.clone(), v);
                        Ok(())
                    },
                    Err(e) => Err(e),
                }
            },
            Stmt::Block { statements } => {
                let prev = self.environment.active_handle();
                self.environment.push_scope();
                proof {
                    crate::stmt::lemma_stmts_wf_all(statements@, 0);
                }
                let result = self.run_block(statements, 0);
                self.environment.restore(prev);
                result
            },
        }
    }

    /// Executes the statements of a block from `i` on, in order, stopping
    /// at the first runtime error.
    fn run_block(&mut self, statements: &Vec<Stmt>, i: usize) -> (r: Result<(), RuntimeError>)
        requires
            old(self).wf(),
            forall|j: int| 0 <= j < statements@.len() ==> (#[trigger] statements@[j]).wf(),
        ensures
            final(self).wf(),
            final(self)@.active == old(self)@.active,
            final(self)@.scopes.len() >= old(self)@.scopes.len(),
            ({
                let (sr, st2) = run_stmts(statements@, i as int, old(self)@);
                &&& final(self)@ == st2
                &&& match r {
                    Ok(u) => sr is None,
                    Err(e) => sr == Some(e@),
                }
            }),
        decreases statements, statements@.len() - i,
    {
        if i >= statements.len() {
            Ok(())
        } else {
            match self.execute(&statements[i]) {
                Ok(_) => self.run_block(statements, i + 1),
                Err(e) => Err(e),
            }
        }
    }

    /// Executes the statements in order, until all complete or one aborts
    /// with a runtime error; completed statements keep their effects, the
    /// printed lines among them.
    pub fn interpret(&mut self, stmts: Vec<Stmt>) -> (r: Result<(), RuntimeError>)
        requires
            old(self).wf(),
            stmts_wf(stmts@, 0),
        ensures
            final(self).wf(),
            final(self)@.active == old(self)@.active,
            ({
                let (sr, st2) = run_stmts(stmts@, 0, old(self)@);
                &&& final(self)@ == st2
                &&& match r {
                    Ok(u) => sr is None,
                    Err(e) => sr == Some(e@),
                }
            }),
    {
        let ghost ss = stmts@;
        let ghost st0 = self@;
        proof {
            crate::stmt::lemma_stmts_wf_all(ss, 0);
        }
        let n = stmts.len();
        let mut i: usize = 0;
        while i < n
            invariant
                self.wf(),
                i <= n == ss.len(),
                stmts@ == ss,
                st0 == old(self)@,
                forall|j: int| 0 <= j < ss.len() ==> (#[trigger] ss[j]).wf(),
                self@.active == st0.active,
                run_stmts(ss, 0, st0) == run_stmts(ss, i as int, self@),
            decreases n - i,
        {
            match self.execute(&stmts[i]) {
                Ok(_) => {},
                Err(e) => {
                    return Err(e);
                },
            }
            i += 1;
        }
        Ok(())
    }
}

} // verus!
