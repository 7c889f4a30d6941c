//! The interpreter: executes a parsed program against one environment and
//! collects the printed lines. The embedding around it is expected to hand
//! the lines on to standard output.

use vstd::prelude::*;

use crate::environment::Environment;
use crate::error::{SpadeError, SpadeErrorModel};
use crate::evaluate::{evaluate_statement, spec_exec_stmt, spec_exec_stmts, stringify_value,
    value_text, StmtEffect, Value};
use crate::expressions::{lemma_view_stmt_list, view_stmt_list, Statement, StatementModel};

verus! {

use vstd::string::StringExecFns;

/// How many nested calls a program may make before the evaluator reports a
/// stack overflow.
pub const CALL_DEPTH_LIMIT: u64 = 256;

pub open spec fn spec_digit_char(d: nat) -> char {
    ((48 + d) as u8) as char
}

/// The decimal digits of a number.
pub open spec fn dec_str(n: nat) -> Seq<char>
    decreases n,
{
    if n < 10 {
        seq![spec_digit_char(n)]
    } else {
        dec_str(n / 10).push(spec_digit_char(n % 10))
    }
}

/// Render a number in decimal.
pub fn u64_to_string(n: u64) -> (r: String)
    ensures
        r@ == dec_str(n as nat),
    decreases n,
{
    if n < 10 {
        let mut s = String::new();
        s.push((48 + (n as u8)) as char);
        proof {
            assert(s@ =~= seq![spec_digit_char(n as nat)]);
        }
        s
    } else {
        let mut s = u64_to_string(n / 10);
        s.push((48 + ((n % 10) as u8)) as char);
        s
    }
}

/// The message the embedding sees for an evaluation signal: the error's own
/// message and its line, or the report that a `return` escaped every call.
pub open spec fn error_report(m: SpadeErrorModel) -> Seq<char> {
    match m {
        SpadeErrorModel::RuntimeError { message, line } => message + " at line "@ + dec_str(line),
        SpadeErrorModel::Return(_) => "Return outside of function at line 0"@,
    }
}

/// Execute a program: every statement in order, stopping at the first
/// failure. A return signal must be consumed by a call; one that reaches
/// this boundary is itself a failure.
#[verifier::loop_isolation(false)]
pub fn execute_program(
    statements: &Vec<Statement>,
    env: &mut Environment,
    out: &mut Vec<String>,
    fuel: u64,
) -> (r: Result<(), SpadeError>)
    requires
        old(env)@.len() >= 1,
    ensures
        ({
            let eff = spec_exec_stmts(view_stmt_list(statements@), old(env)@, fuel as nat);
            &&& final(env)@ =~= eff.env
            &&& final(env)@.len() == old(env)@.len()
            &&& final(out).deep_view() == old(out).deep_view() + eff.out
            &&& match eff.result {
                Ok(_) => r is Ok,
                Err(m) => r matches Err(e) && e@ == m,
            }
        }),
{
    let ghost env0 = old(env)@;
    let ghost out0 = old(out).deep_view();
    let ghost ssm = view_stmt_list(statements@);
    let ghost mut osofar: Seq<Seq<char>> = Seq::empty();
    proof {
        lemma_view_stmt_list(statements@);
        assert(ssm.subrange(0, ssm.len() as int) =~= ssm);
        assert(out.deep_view() =~= out0 + osofar);
    }
    let mut k: usize = 0;
    loop
        invariant
            k <= statements@.len(),
            env@.len() == env0.len(),
            out.deep_view() == out0 + osofar,
            ({
                let full = spec_exec_stmts(ssm, env0, fuel as nat);
                let part = spec_exec_stmts(
                    ssm.subrange(k as int, ssm.len() as int),
                    env@,
                    fuel as nat,
                );
                full == (StmtEffect {
                    env: part.env,
                    out: osofar + part.out,
                    result: part.result,
                })
            }),
        decreases statements@.len() - k,
    {
        if k >= statements.len() {
            break;
        }
        proof {
            broadcast use vstd::std_specs::vec::group_vec_axioms;

            assert(decreases_to!(*statements => statements@));
            assert(ssm.subrange(k as int, ssm.len() as int)[0] == ssm[k as int]);
            crate::evaluate::lemma_stmt_scopes(ssm[k as int], env@, fuel as nat);
        }
        let ghost envc = env@;
        match evaluate_statement(&statements[k], env, out, fuel) {
            Ok(_) => {},
            Err(e) => {
                proof {
                    let effk = spec_exec_stmt(ssm[k as int], envc, fuel as nat);
                    assert((out0 + osofar) + effk.out =~= out0 + (osofar + effk.out));
                }
                return Err(e);
            },
        }
        proof {
            let effk = spec_exec_stmt(ssm[k as int], envc, fuel as nat);
            let tail = ssm.subrange(k as int, ssm.len() as int);
            assert(tail.subrange(1, tail.len() as int) =~= ssm.subrange(k + 1, ssm.len() as int));
            let part2 = spec_exec_stmts(
                ssm.subrange(k + 1, ssm.len() as int),
                effk.env,
                fuel as nat,
            );
            assert(osofar + (effk.out + part2.out) =~= (osofar + effk.out) + part2.out);
            osofar = osofar + effk.out;
            assert(out.deep_view() =~= out0 + osofar);
        }
        k = k + 1;
    }
    proof {
        assert(ssm.subrange(ssm.len() as int, ssm.len() as int) =~= Seq::<StatementModel>::empty());
        assert(osofar + Seq::<Seq<char>>::empty() =~= osofar);
    }
    Ok(())
}

/// The interpreter: one environment, and the lines printed so far.
pub struct Interpreter {
    pub env: Environment,
    pub output: Vec<String>,
}

impl Interpreter {
    pub open spec fn wf(&self) -> bool {
        self.env@.len() >= 1
    }

    /// A fresh interpreter: an empty global scope and no output.
    pub fn new() -> (r: Self)
        ensures
            r.wf(),
            r.env@ =~= seq![Map::<Seq<char>, crate::evaluate::ValueModel>::empty()],
            r.output@.len() == 0,
    {
        Interpreter { env: Environment::new(), output: Vec::new() }
    }

    /// The lines printed so far, in order.
    pub fn output(&self) -> (r: &Vec<String>)
        ensures
            r == &self.output,
    {
        &self.output
    }

    /// Execute one statement, reporting an error as readable text.
    fn execute(&mut self, statement: &Statement) -> (r: Result<(), String>)
        requires
            old(self).wf(),
        ensures
            final(self).wf(),
            ({
                let eff = spec_exec_stmt(statement@, old(self).env@, CALL_DEPTH_LIMIT as nat);
                &&& final(self).env@ =~= eff.env
                &&& final(self).output.deep_view() == old(self).output.deep_view() + eff.out
                &&& match eff.result {
                    Ok(_) => r is Ok,
                    Err(m) => r matches Err(s) && s@ == error_report(m),
                }
            }),
    {
        let res = evaluate_statement(&statement, &mut self.env, &mut self.output, CALL_DEPTH_LIMIT);
        match res {
            Ok(_) => Ok(()),
            Err(SpadeError::RuntimeError { message, line }) => {
                let mut m = message;
                m.append(" at line ");
                m.append(u64_to_string(line as u64).as_str());
                Err(m)
            },
            Err(SpadeError::Return(_)) => Err(String::from_str("Return outside of function at line 0")),
        }
    }

    /// Run a program from the current state. The first failure stops it and
    /// is reported as text; its printed lines stay in `output`.
    #[verifier::loop_isolation(false)]
    pub fn interpret(&mut self, statements: Vec<Statement>) -> (r: Result<(), String>)
        requires
            old(self).wf(),
        ensures
            final(self).wf(),
            ({
                let eff = spec_exec_stmts(
                    view_stmt_list(statements@),
                    old(self).env@,
                    CALL_DEPTH_LIMIT as nat,
                );
                &&& final(self).env@ =~= eff.env
                &&& final(self).output.deep_view() == old(self).output.deep_view() + eff.out
                &&& match eff.result {
                    Ok(_) => r is Ok,
                    Err(m) => r matches Err(s) && s@ == error_report(m),
                }
            }),
    {
        let ghost env0 = old(self).env@;
        let ghost out0 = old(self).output.deep_view();
        let ghost ssm = view_stmt_list(statements@);
        let ghost mut osofar: Seq<Seq<char>> = Seq::empty();
        proof {
            lemma_view_stmt_list(statements@);
            assert(ssm.subrange(0, ssm.len() as int) =~= ssm);
            assert(self.output.deep_view() =~= out0 + osofar);
        }
        let mut k: usize = 0;
        loop
            invariant
                k <= statements@.len(),
                self.wf(),
                self.output.deep_view() == out0 + osofar,
                ({
                    let full = spec_exec_stmts(ssm, env0, CALL_DEPTH_LIMIT as nat);
                    let part = spec_exec_stmts(
                        ssm.subrange(k as int, ssm.len() as int),
                        self.env@,
                        CALL_DEPTH_LIMIT as nat,
                    );
                    full == (StmtEffect {
                        env: part.env,
                        out: osofar + part.out,
                        result: part.result,
                    })
                }),
            decreases statements@.len() - k,
        {
            if k >= statements.len() {
                break;
            }
            proof {
                assert(ssm.subrange(k as int, ssm.len() as int)[0] == ssm[k as int]);
                crate::evaluate::lemma_stmt_scopes(
                    ssm[k as int],
                    self.env@,
                    CALL_DEPTH_LIMIT as nat,
                );
            }
            let ghost envc = self.env@;
            match self.execute(&statements[k]) {
                Ok(_) => {},
                Err(e) => {
                    proof {
                        let effk = spec_exec_stmt(ssm[k as int], envc, CALL_DEPTH_LIMIT as nat);
                        assert((out0 + osofar) + effk.out =~= out0 + (osofar + effk.out));
                    }
                    return Err(e);
                },
            }
            proof {
                let effk = spec_exec_stmt(ssm[k as int], envc, CALL_DEPTH_LIMIT as nat);
                let tail = ssm.subrange(k as int, ssm.len() as int);
                assert(tail.subrange(1, tail.len() as int) =~= ssm.subrange(
                    k + 1,
                    ssm.len() as int,
                ));
                let part2 = spec_exec_stmts(
                    ssm.subrange(k + 1, ssm.len() as int),
                    effk.env,
                    CALL_DEPTH_LIMIT as nat,
                );
                assert(osofar + (effk.out + part2.out) =~= (osofar + effk.out) + part2.out);
                osofar = osofar + effk.out;
                assert(self.output.deep_view() =~= out0 + osofar);
            }
            k = k + 1;
        }
        proof {
            assert(ssm.subrange(ssm.len() as int, ssm.len() as int) =~= Seq::<
                StatementModel,
            >::empty());
            assert(osofar + Seq::<Seq<char>>::empty() =~= osofar);
        }
        Ok(())
    }

    /// The human rendering of a value, as `print` writes it.
    pub fn stringify(&self, value: Value) -> (r: String)
        ensures
            r@ == value_text(value@),
    {
        stringify_value(&value)
    }
}

} // verus!
