//! Runtime values and the tree-walking evaluator.

use vstd::prelude::*;

use crate::expressions::{view_stmt, Statement, StatementModel};

verus! {

/// A function value: its parameter names and its body (always a block).
#[derive(Debug)]
pub struct SpadeFn {
    pub parameters: Vec<String>,
    pub body: Box<Statement>,
}

/// The mathematical image of a function value.
pub ghost struct SpadeFnModel {
    pub parameters: Seq<Seq<char>>,
    pub body: StatementModel,
}

impl View for SpadeFn {
    type V = SpadeFnModel;

    open spec fn view(&self) -> SpadeFnModel {
        SpadeFnModel { parameters: self.parameters.deep_view(), body: view_stmt(*self.body) }
    }
}

impl SpadeFn {
    pub fn new(parameters: Vec<String>, body: Box<Statement>) -> (r: Self)
        ensures
            r@ == (SpadeFnModel { parameters: parameters.deep_view(), body: view_stmt(*body) }),
    {
        SpadeFn { parameters, body }
    }
}

impl Clone for SpadeFn {
    fn clone(&self) -> (r: Self)
        ensures
            r@ == self@,
    {
        let params = self.parameters.clone();
        proof {
            assert(params.deep_view() =~= self.parameters.deep_view());
        }
        SpadeFn { parameters: params, body: Box::new((*self.body).clone()) }
    }
}

/// A runtime value. Numbers are IEEE doubles carried as bit patterns.
#[derive(Debug)]
pub enum Value {
    Nil,
    Bool(bool),
    Number(u64),
    String(String),
    Function(SpadeFn),
}

/// The mathematical image of a runtime value.
pub ghost enum ValueModel {
    Nil,
    Bool(bool),
    Number(u64),
    String(Seq<char>),
    Function(SpadeFnModel),
}

impl View for Value {
    type V = ValueModel;

    open spec fn view(&self) -> ValueModel {
        match self {
            Value::Nil => ValueModel::Nil,
            Value::Bool(b) => ValueModel::Bool(*b),
            Value::Number(n) => ValueModel::Number(*n),
            Value::String(s) => ValueModel::String(s@),
            Value::Function(f) => ValueModel::Function(f@),
        }
    }
}

impl DeepView for Value {
    type V = ValueModel;

    open spec fn deep_view(&self) -> ValueModel {
        self.view()
    }
}

impl Clone for Value {
    fn clone(&self) -> (r: Self)
        ensures
            r@ == self@,
    {
        match self {
            Value::Nil => Value::Nil,
            Value::Bool(b) => Value::Bool(*b),
            Value::Number(n) => Value::Number(*n),
            Value::String(s) => Value::String(s.clone()),
            Value::Function(f) => Value::Function(f.clone()),
        }
    }
}

/// Truthiness: `nil` is false, a boolean is itself, everything else is true.
pub open spec fn spec_is_truthy(v: ValueModel) -> bool {
    match v {
        ValueModel::Nil => false,
        ValueModel::Bool(b) => b,
        _ => true,
    }
}

impl Value {
    /// Whether the value counts as true in a condition.
    pub fn is_truthy(&self) -> (r: bool)
        ensures
            r == spec_is_truthy(self@),
    {
        match self {
            Value::Nil => false,
            Value::Bool(b) => *b,
            _ => true,
        }
    }
}

} // verus!

verus! {

use crate::environment::lookup_scopes;
use crate::error::SpadeErrorModel;
use crate::expressions::{params_text, BinaryOp, ExprModel, LiteralModel, UnaryOp};
use crate::numeric::{add_bits, div_bits, is_zero_bits, mul_bits, negate_bits, number_text,
    sub_bits};

// --- What evaluation means ------------------------------------------------
//
// The executable evaluator below is specified against these functions. An
// expression yields a value (or a signal) and the lines it printed; it
// leaves the environment as it found it. A statement additionally yields
// the environment it leaves behind. A fuel bound pays for each function
// call, so that evaluation is a total mathematical function; the evaluator
// reports a runtime error when the bound runs out.

/// The human rendering of a value, as `print` writes it.
pub open spec fn value_text(v: ValueModel) -> Seq<char> {
    match v {
        ValueModel::Nil => "nil"@,
        ValueModel::Bool(b) => if b {
            "true"@
        } else {
            "false"@
        },
        ValueModel::Number(b) => number_text(b),
        ValueModel::String(s) => s,
        ValueModel::Function(f) => "fn("@ + params_text(f.parameters) + ")"@,
    }
}

/// What a binary operator yields on two values.
pub open spec fn spec_binary(left: ValueModel, op: BinaryOp, right: ValueModel) -> Result<
    ValueModel,
    SpadeErrorModel,
> {
    match op {
        BinaryOp::Plus => match (left, right) {
            (ValueModel::Number(l), ValueModel::Number(r)) => Ok(ValueModel::Number(add_bits(l, r))),
            _ => Err(SpadeErrorModel::RuntimeError { message: "Invalid operands for +"@, line: 0 }),
        },
        BinaryOp::Minus => match (left, right) {
            (ValueModel::Number(l), ValueModel::Number(r)) => Ok(ValueModel::Number(sub_bits(l, r))),
            _ => Err(SpadeErrorModel::RuntimeError { message: "Invalid operands for -"@, line: 0 }),
        },
        BinaryOp::Multiply => match (left, right) {
            (ValueModel::Number(l), ValueModel::Number(r)) => Ok(ValueModel::Number(mul_bits(l, r))),
            _ => Err(SpadeErrorModel::RuntimeError { message: "Invalid operands for *"@, line: 0 }),
        },
        BinaryOp::Divide => match (left, right) {
            (ValueModel::Number(l), ValueModel::Number(r)) => if is_zero_bits(r) {
                Err(SpadeErrorModel::RuntimeError { message: "Division by zero"@, line: 0 })
            } else {
                Ok(ValueModel::Number(div_bits(l, r)))
            },
            _ => Err(SpadeErrorModel::RuntimeError { message: "Invalid operands for /"@, line: 0 }),
        },
        _ => Err(SpadeErrorModel::RuntimeError { message: "Unsupported binary operator"@, line: 0 }),
    }
}

/// What a unary operator yields on a value.
pub open spec fn spec_unary_value(op: UnaryOp, v: ValueModel) -> Result<
    ValueModel,
    SpadeErrorModel,
> {
    match op {
        UnaryOp::Minus => match v {
            ValueModel::Number(n) => Ok(ValueModel::Number(negate_bits(n))),
            _ => Err(
                SpadeErrorModel::RuntimeError { message: "Invalid operand for unary -"@, line: 0 },
            ),
        },
        UnaryOp::Not => match v {
            ValueModel::Bool(b) => Ok(ValueModel::Bool(!b)),
            ValueModel::Nil => Ok(ValueModel::Bool(true)),
            _ => Ok(ValueModel::Bool(false)),
        },
    }
}

/// The parameter scope of a call: names bound to arguments in order, later
/// bindings shadowing earlier ones.
pub open spec fn bind_params(params: Seq<Seq<char>>, vals: Seq<ValueModel>) -> Map<
    Seq<char>,
    ValueModel,
>
    decreases params.len(),
{
    if params.len() == 0 || vals.len() == 0 {
        Map::empty()
    } else {
        bind_params(params.drop_last(), vals.drop_last()).insert(params.last(), vals.last())
    }
}


/// The size of an expression, counting every node; the evaluator's
/// termination measure within one fuel level.
pub open spec fn expr_size(e: ExprModel) -> nat
    decreases e, 1int,
{
    match e {
        ExprModel::Binary { left, right, .. } => 1 + expr_size(*left) + expr_size(*right),
        ExprModel::Unary { expr, .. } => 1 + expr_size(*expr),
        ExprModel::Literal(_) => 1,
        ExprModel::Grouping(inner) => 1 + expr_size(*inner),
        ExprModel::Assign { value, .. } => 1 + expr_size(*value),
        ExprModel::Call { callee, arguments } => 1 + expr_size(*callee) + exprs_size(arguments),
    }
}

pub open spec fn exprs_size(es: Seq<ExprModel>) -> nat
    decreases es, 0int,
{
    if es.len() == 0 {
        0
    } else {
        1 + expr_size(es[0]) + exprs_size(es.subrange(1, es.len() as int))
    }
}

pub open spec fn stmt_size(s: StatementModel) -> nat
    decreases s, 1int,
{
    match s {
        StatementModel::Expression(e) => 1 + expr_size(e),
        StatementModel::Print(e) => 1 + expr_size(e),
        StatementModel::Block(ss) => 1 + stmts_size(ss),
        StatementModel::VarDec { initializer, .. } => match initializer {
            Some(e) => 1 + expr_size(e),
            None => 1,
        },
        StatementModel::If { condition, then_branch, else_branch } => 1 + expr_size(condition)
            + stmt_size(*then_branch) + match else_branch {
            Some(b) => stmt_size(*b),
            None => 0,
        },
        StatementModel::Fn { body, .. } => 1 + stmt_size(*body),
        StatementModel::Return(e) => match e {
            Some(e) => 1 + expr_size(e),
            None => 1,
        },
    }
}

pub open spec fn stmts_size(ss: Seq<StatementModel>) -> nat
    decreases ss, 0int,
{
    if ss.len() == 0 {
        0
    } else {
        1 + stmt_size(ss[0]) + stmts_size(ss.subrange(1, ss.len() as int))
    }
}

/// What executing a statement leaves behind.
pub ghost struct StmtEffect {
    pub env: Seq<Map<Seq<char>, ValueModel>>,
    pub out: Seq<Seq<char>>,
    pub result: Result<(), SpadeErrorModel>,
}

pub open spec fn spec_eval_expr(e: ExprModel, env: Seq<Map<Seq<char>, ValueModel>>, fuel: nat) -> (
    Result<ValueModel, SpadeErrorModel>,
    Seq<Seq<char>>,
)
    decreases fuel, expr_size(e),
{
    match e {
        ExprModel::Binary { left, op, right } => {
            let (rl, ol) = spec_eval_expr(*left, env, fuel);
            match rl {
                Err(m) => (Err(m), ol),
                Ok(vl) => {
                    let (rr, or) = spec_eval_expr(*right, env, fuel);
                    match rr {
                        Err(m) => (Err(m), ol + or),
                        Ok(vr) => (spec_binary(vl, op, vr), ol + or),
                    }
                },
            }
        },
        ExprModel::Unary { op, expr } => {
            let (rv, o) = spec_eval_expr(*expr, env, fuel);
            match rv {
                Err(m) => (Err(m), o),
                Ok(v) => (spec_unary_value(op, v), o),
            }
        },
        ExprModel::Literal(l) => (
            match l {
                LiteralModel::Nil => Ok(ValueModel::Nil),
                LiteralModel::Number(b) => Ok(ValueModel::Number(b)),
                LiteralModel::String(s) => Ok(ValueModel::String(s)),
                LiteralModel::Bool(b) => Ok(ValueModel::Bool(b)),
                LiteralModel::Var(tok) => match lookup_scopes(env, tok.lexeme) {
                    Some(v) => Ok(v),
                    None => Err(
                        SpadeErrorModel::RuntimeError {
                            message: "Undefined variable '"@ + tok.lexeme + "'."@,
                            line: tok.line,
                        },
                    ),
                },
            },
            Seq::empty(),
        ),
        ExprModel::Grouping(inner) => spec_eval_expr(*inner, env, fuel),
        ExprModel::Assign { .. } => (
            Err(SpadeErrorModel::RuntimeError { message: "Unsupported expression"@, line: 0 }),
            Seq::empty(),
        ),
        ExprModel::Call { callee, arguments } => {
            let (rc, oc) = spec_eval_expr(*callee, env, fuel);
            match rc {
                Err(m) => (Err(m), oc),
                Ok(cv) => match cv {
                    ValueModel::Function(f) => if f.parameters.len() != arguments.len() {
                        (
                            Err(
                                SpadeErrorModel::RuntimeError {
                                    message:
                                        "Expected number of arguments to match number of parameters"@,
                                    line: 0,
                                },
                            ),
                            oc,
                        )
                    } else {
                        let (ra, oa) = spec_eval_args(arguments, env, fuel);
                        match ra {
                            Err(m) => (Err(m), oc + oa),
                            Ok(vals) => if fuel == 0 {
                                (
                                    Err(
                                        SpadeErrorModel::RuntimeError {
                                            message: "Stack overflow"@,
                                            line: 0,
                                        },
                                    ),
                                    oc + oa,
                                )
                            } else {
                                let eff = spec_exec_stmt(
                                    f.body,
                                    env.push(bind_params(f.parameters, vals)),
                                    (fuel - 1) as nat,
                                );
                                match eff.result {
                                    Ok(_) => (Ok(ValueModel::Nil), oc + oa + eff.out),
                                    Err(SpadeErrorModel::Return(v)) => (Ok(v), oc + oa + eff.out),
                                    Err(m) => (Err(m), oc + oa + eff.out),
                                }
                            },
                        }
                    },
                    _ => (
                        (
                            Err(
                                SpadeErrorModel::RuntimeError {
                                    message: "Expected function"@,
                                    line: 0,
                                },
                            )
                        ),
                        oc,
                    ),
                },
            }
        },
    }
}

/// Evaluate arguments left to right, stopping at the first failure.
pub open spec fn spec_eval_args(
    es: Seq<ExprModel>,
    env: Seq<Map<Seq<char>, ValueModel>>,
    fuel: nat,
) -> (Result<Seq<ValueModel>, SpadeErrorModel>, Seq<Seq<char>>)
    decreases fuel, exprs_size(es),
{
    if es.len() == 0 {
        (Ok(Seq::empty()), Seq::empty())
    } else {
        let (r0, o0) = spec_eval_expr(es[0], env, fuel);
        match r0 {
            Err(m) => (Err(m), o0),
            Ok(v) => {
                let (rr, orest) = spec_eval_args(es.subrange(1, es.len() as int), env, fuel);
                match rr {
                    Err(m) => (Err(m), o0 + orest),
                    Ok(vs) => (Ok(seq![v] + vs), o0 + orest),
                }
            },
        }
    }
}

pub open spec fn spec_exec_stmt(
    s: StatementModel,
    env: Seq<Map<Seq<char>, ValueModel>>,
    fuel: nat,
) -> StmtEffect
    decreases fuel, stmt_size(s),
{
    match s {
        StatementModel::Expression(e) => {
            let (r, o) = spec_eval_expr(e, env, fuel);
            match r {
                Ok(_) => StmtEffect { env, out: o, result: Ok(()) },
                Err(m) => StmtEffect { env, out: o, result: Err(m) },
            }
        },
        StatementModel::Print(e) => {
            let (r, o) = spec_eval_expr(e, env, fuel);
            match r {
                Ok(v) => StmtEffect { env, out: o.push(value_text(v)), result: Ok(()) },
                Err(m) => StmtEffect { env, out: o, result: Err(m) },
            }
        },
        StatementModel::VarDec { name, initializer } => {
            let (r, o) = match initializer {
                Some(e) => spec_eval_expr(e, env, fuel),
                None => (Ok(ValueModel::Nil), Seq::empty()),
            };
            match r {
                Ok(v) => if env.len() >= 1 {
                    StmtEffect {
                        env: env.update(env.len() - 1, env.last().insert(name, v)),
                        out: o,
                        result: Ok(()),
                    }
                } else {
                    StmtEffect { env, out: o, result: Ok(()) }
                },
                Err(m) => StmtEffect { env, out: o, result: Err(m) },
            }
        },
        StatementModel::Block(ss) => {
            let eff = spec_exec_stmts(ss, env.push(Map::empty()), fuel);
            StmtEffect { env: eff.env.drop_last(), out: eff.out, result: eff.result }
        },
        StatementModel::If { condition, then_branch, else_branch } => {
            let (r, o) = spec_eval_expr(condition, env, fuel);
            match r {
                Err(m) => StmtEffect { env, out: o, result: Err(m) },
                Ok(v) => if spec_is_truthy(v) {
                    let eff = spec_exec_stmt(*then_branch, env, fuel);
                    StmtEffect { env: eff.env, out: o + eff.out, result: eff.result }
                } else {
                    match else_branch {
                        Some(b) => {
                            let eff = spec_exec_stmt(*b, env, fuel);
                            StmtEffect { env: eff.env, out: o + eff.out, result: eff.result }
                        },
                        None => StmtEffect { env, out: o, result: Ok(()) },
                    }
                },
            }
        },
        StatementModel::Fn { name, parameters, body } => {
            let v = ValueModel::Function(SpadeFnModel { parameters, body: *body });
            if env.len() >= 1 {
                StmtEffect {
                    env: env.update(env.len() - 1, env.last().insert(name, v)),
                    out: Seq::empty(),
                    result: Ok(()),
                }
            } else {
                StmtEffect { env, out: Seq::empty(), result: Ok(()) }
            }
        },
        StatementModel::Return(e) => {
            let (r, o) = match e {
                Some(e) => spec_eval_expr(e, env, fuel),
                None => (Ok(ValueModel::Nil), Seq::empty()),
            };
            match r {
                Ok(v) => StmtEffect { env, out: o, result: Err(SpadeErrorModel::Return(v)) },
                Err(m) => StmtEffect { env, out: o, result: Err(m) },
            }
        },
    }
}

/// Execute statements in order until one fails or returns.
pub open spec fn spec_exec_stmts(
    ss: Seq<StatementModel>,
    env: Seq<Map<Seq<char>, ValueModel>>,
    fuel: nat,
) -> StmtEffect
    decreases fuel, stmts_size(ss),
{
    if ss.len() == 0 {
        StmtEffect { env, out: Seq::empty(), result: Ok(()) }
    } else {
        let eff = spec_exec_stmt(ss[0], env, fuel);
        match eff.result {
            Err(m) => eff,
            Ok(_) => {
                let eff2 = spec_exec_stmts(ss.subrange(1, ss.len() as int), eff.env, fuel);
                StmtEffect { env: eff2.env, out: eff.out + eff2.out, result: eff2.result }
            },
        }
    }
}

} // verus!

verus! {

/// Every element of a list is smaller than the whole list.
pub proof fn lemma_exprs_size_elem(es: Seq<ExprModel>, k: int)
    requires
        0 <= k < es.len(),
    ensures
        expr_size(es[k]) < exprs_size(es),
    decreases es.len(),
{
    if k > 0 {
        lemma_exprs_size_elem(es.subrange(1, es.len() as int), k - 1);
    }
}

pub proof fn lemma_stmts_size_elem(ss: Seq<StatementModel>, k: int)
    requires
        0 <= k < ss.len(),
    ensures
        stmt_size(ss[k]) < stmts_size(ss),
    decreases ss.len(),
{
    if k > 0 {
        lemma_stmts_size_elem(ss.subrange(1, ss.len() as int), k - 1);
    }
}

/// Executing a statement never changes how many scopes there are, nor any
/// scope but the innermost.
pub proof fn lemma_stmt_scopes(s: StatementModel, env: Seq<Map<Seq<char>, ValueModel>>, fuel: nat)
    ensures
        ({
            let eff = spec_exec_stmt(s, env, fuel);
            eff.env.len() == env.len() && forall|i: int|
                0 <= i < env.len() - 1 ==> eff.env[i] == env[i]
        }),
    decreases fuel, stmt_size(s), 1int,
{
    match s {
        StatementModel::Block(ss) => {
            lemma_stmts_scopes(ss, env.push(Map::empty()), fuel);
            let inner = spec_exec_stmts(ss, env.push(Map::empty()), fuel);
            assert(inner.env.len() == env.len() + 1);
            assert forall|i: int| 0 <= i < env.len() - 1 implies #[trigger] spec_exec_stmt(
                s,
                env,
                fuel,
            ).env[i] == env[i] by {
                assert(inner.env[i] == env.push(Map::empty())[i]);
                assert(spec_exec_stmt(s, env, fuel).env[i] == inner.env.drop_last()[i]);
            }
        },
        StatementModel::If { condition, then_branch, else_branch } => {
            lemma_stmt_scopes(*then_branch, env, fuel);
            match else_branch {
                Some(b) => {
                    lemma_stmt_scopes(*b, env, fuel);
                },
                None => {},
            }
        },
        _ => {},
    }
}

pub proof fn lemma_stmts_scopes(
    ss: Seq<StatementModel>,
    env: Seq<Map<Seq<char>, ValueModel>>,
    fuel: nat,
)
    ensures
        ({
            let eff = spec_exec_stmts(ss, env, fuel);
            eff.env.len() == env.len() && forall|i: int|
                0 <= i < env.len() - 1 ==> eff.env[i] == env[i]
        }),
    decreases fuel, stmts_size(ss), 0int,
{
    if ss.len() > 0 {
        lemma_stmt_scopes(ss[0], env, fuel);
        let eff = spec_exec_stmt(ss[0], env, fuel);
        if eff.result is Ok {
            lemma_stmts_scopes(ss.subrange(1, ss.len() as int), eff.env, fuel);
        }
    }
}

} // verus!

verus! {

use crate::environment::Environment;
use crate::error::SpadeError;
use crate::expressions::{lemma_view_expr_list, lemma_view_stmt_list, view_expr_list,
    view_stmt_list, Expr, Literal};
use crate::numeric::{is_zero, negate, num_add, num_div, num_mul, num_sub};

use vstd::string::StringExecFns;

/// Apply a binary operator to two already evaluated operands.
pub fn evaluate_binary(left: Value, op: BinaryOp, right: Value) -> (r: Result<Value, SpadeError>)
    ensures
        match spec_binary(left@, op, right@) {
            Ok(v) => r matches Ok(val) && val@ == v,
            Err(m) => r matches Err(e) && e@ == m,
        },
{
    match op {
        BinaryOp::Plus => match (left, right) {
            (Value::Number(l), Value::Number(r)) => Ok(Value::Number(num_add(l, r))),
            _ => Err(SpadeError::runtime_error(String::from_str("Invalid operands for +"), 0)),
        },
        BinaryOp::Minus => match (left, right) {
            (Value::Number(l), Value::Number(r)) => Ok(Value::Number(num_sub(l, r))),
            _ => Err(SpadeError::runtime_error(String::from_str("Invalid operands for -"), 0)),
        },
        BinaryOp::Multiply => match (left, right) {
            (Value::Number(l), Value::Number(r)) => Ok(Value::Number(num_mul(l, r))),
            _ => Err(SpadeError::runtime_error(String::from_str("Invalid operands for *"), 0)),
        },
        BinaryOp::Divide => match (left, right) {
            (Value::Number(l), Value::Number(r)) => {
                if is_zero(r) {
                    Err(SpadeError::runtime_error(String::from_str("Division by zero"), 0))
                } else {
                    Ok(Value::Number(num_div(l, r)))
                }
            },
            _ => Err(SpadeError::runtime_error(String::from_str("Invalid operands for /"), 0)),
        },
        _ => Err(SpadeError::runtime_error(String::from_str("Unsupported binary operator"), 0)),
    }
}

/// Evaluate an expression. The environment is left exactly as it was; the
/// lines that `print` statements inside calls emitted are appended to `out`.
#[verifier::loop_isolation(false)]
#[verifier::rlimit(100)]
pub fn evaluate_expression(
    expr: &Expr,
    env: &mut Environment,
    out: &mut Vec<String>,
    fuel: u64,
) -> (r: Result<Value, SpadeError>)
    requires
        old(env)@.len() >= 1,
    ensures
        final(env)@ =~= old(env)@,
        ({
            let (res, o) = spec_eval_expr(expr@, old(env)@, fuel as nat);
            &&& final(out).deep_view() == old(out).deep_view() + o
            &&& match res {
                Ok(v) => r matches Ok(val) && val@ == v,
                Err(m) => r matches Err(e) && e@ == m,
            }
        }),
    decreases fuel, expr_size(expr@), 0int,
{
    let ghost env0 = old(env)@;
    let ghost out0 = old(out).deep_view();
    match expr {
        Expr::Binary { left, op, right } => {
            let lv = match evaluate_expression(left, env, out, fuel) {
                Ok(v) => v,
                Err(e) => {
                    return Err(e);
                },
            };
            let rv = match evaluate_expression(right, env, out, fuel) {
                Ok(v) => v,
                Err(e) => {
                    proof {
                        let (_, ol) = spec_eval_expr(left@, env0, fuel as nat);
                        let (_, or) = spec_eval_expr(right@, env0, fuel as nat);
                        assert((out0 + ol) + or =~= out0 + (ol + or));
                    }
                    return Err(e);
                },
            };
            proof {
                let (_, ol) = spec_eval_expr(left@, env0, fuel as nat);
                let (_, or) = spec_eval_expr(right@, env0, fuel as nat);
                assert((out0 + ol) + or =~= out0 + (ol + or));
            }
            evaluate_binary(lv, *op, rv)
        },
        Expr::Unary { op, expr: inner } => {
            let v = match evaluate_expression(inner, env, out, fuel) {
                Ok(v) => v,
                Err(e) => {
                    return Err(e);
                },
            };
            match op {
                UnaryOp::Minus => match v {
                    Value::Number(n) => Ok(Value::Number(negate(n))),
                    _ => Err(
                        SpadeError::runtime_error(
                            String::from_str("Invalid operand for unary -"),
                            0,
                        ),
                    ),
                },
                UnaryOp::Not => match v {
                    Value::Bool(b) => Ok(Value::Bool(!b)),
                    Value::Nil => Ok(Value::Bool(true)),
                    _ => Ok(Value::Bool(false)),
                },
            }
        },
        Expr::Literal(l) => {
            proof {
                assert(out0 + Seq::<Seq<char>>::empty() =~= out0);
            }
            match l {
                Literal::Nil => Ok(Value::Nil),
                Literal::Number(b) => Ok(Value::Number(*b)),
                Literal::String(s) => Ok(Value::String(s.clone())),
                Literal::Bool(b) => Ok(Value::Bool(*b)),
                Literal::Var(token) => match env.get(token.lexeme.as_str()) {
                    Ok(v) => Ok(v),
                    Err(m) => Err(SpadeError::runtime_error(m, token.line)),
                },
            }
        },
        Expr::Grouping(inner) => evaluate_expression(inner, env, out, fuel),
        Expr::Assign { .. } => {
            proof {
                assert(out0 + Seq::<Seq<char>>::empty() =~= out0);
            }
            Err(SpadeError::runtime_error(String::from_str("Unsupported expression"), 0))
        },
        Expr::Call { callee, arguments } => {
            let cv = match evaluate_expression(callee, env, out, fuel) {
                Ok(v) => v,
                Err(e) => {
                    return Err(e);
                },
            };
            proof {
                broadcast use vstd::std_specs::vec::group_vec_axioms;

                assert(decreases_to!(*expr => (*expr)->Call_arguments));
            }
            match cv {
                Value::Function(fun) => {
                    let r = evaluate_function(&fun, arguments, env, out, fuel);
                    proof {
                        let (_, oc) = spec_eval_expr(callee@, env0, fuel as nat);
                        let (ra, oa) = spec_eval_args(
                            view_expr_list(arguments@),
                            env0,
                            fuel as nat,
                        );
                        if fun@.parameters.len() == view_expr_list(arguments@).len() && ra is Ok
                            && fuel > 0 {
                            let eff = spec_exec_stmt(
                                fun@.body,
                                env0.push(bind_params(fun@.parameters, ra->Ok_0)),
                                (fuel - 1) as nat,
                            );
                            assert((out0 + oc) + (oa + eff.out) =~= out0 + ((oc + oa) + eff.out));
                            assert(out0 + (oc + oa + eff.out) =~= out0 + ((oc + oa) + eff.out));
                        } else {
                            assert((out0 + oc) + oa =~= out0 + (oc + oa));
                        }
                        lemma_view_expr_list(arguments@);
                    }
                    r
                },
                _ => Err(SpadeError::runtime_error(String::from_str("Expected function"), 0)),
            }
        },
    }
}

/// Call a function value on argument expressions: check the arity, evaluate
/// the arguments left to right in the caller's environment, bind them in a
/// fresh scope, run the body, and consume any return signal. A `fuel` of
/// zero refuses the call, so that evaluation always ends.
#[verifier::loop_isolation(false)]
#[verifier::rlimit(100)]
pub fn evaluate_function(
    fun: &SpadeFn,
    arguments: &Vec<Expr>,
    env: &mut Environment,
    out: &mut Vec<String>,
    fuel: u64,
) -> (r: Result<Value, SpadeError>)
    requires
        old(env)@.len() >= 1,
    ensures
        final(env)@ =~= old(env)@,
        ({
            let argsm = view_expr_list(arguments@);
            if fun@.parameters.len() != argsm.len() {
                &&& final(out).deep_view() == old(out).deep_view()
                &&& r matches Err(e) && e@ == (SpadeErrorModel::RuntimeError {
                    message: "Expected number of arguments to match number of parameters"@,
                    line: 0,
                })
            } else {
                let (ra, oa) = spec_eval_args(argsm, old(env)@, fuel as nat);
                match ra {
                    Err(m) => final(out).deep_view() == old(out).deep_view() + oa && (r matches Err(
                        e,
                    ) && e@ == m),
                    Ok(vals) => if fuel == 0 {
                        &&& final(out).deep_view() == old(out).deep_view() + oa
                        &&& r matches Err(e) && e@ == (SpadeErrorModel::RuntimeError {
                            message: "Stack overflow"@,
                            line: 0,
                        })
                    } else {
                        let eff = spec_exec_stmt(
                            fun@.body,
                            old(env)@.push(bind_params(fun@.parameters, vals)),
                            (fuel - 1) as nat,
                        );
                        &&& final(out).deep_view() == old(out).deep_view() + (oa + eff.out)
                        &&& match eff.result {
                            Ok(_) => r matches Ok(v) && v@ == ValueModel::Nil,
                            Err(SpadeErrorModel::Return(v)) => r matches Ok(val) && val@ == v,
                            Err(m) => r matches Err(e) && e@ == m,
                        }
                    },
                }
            }
        }),
    decreases fuel, exprs_size(view_expr_list(arguments@)), 1int,
{
    let ghost env0 = old(env)@;
    let ghost out0 = old(out).deep_view();
    let ghost argsm = view_expr_list(arguments@);
    proof {
        lemma_view_expr_list(arguments@);
    }
    if fun.parameters.len() != arguments.len() {
        return Err(
            SpadeError::runtime_error(
                String::from_str("Expected number of arguments to match number of parameters"),
                0,
            ),
        );
    }
    // Evaluate every argument in the caller's environment, left to right.
    let mut values: Vec<Value> = Vec::new();
    let mut k: usize = 0;
    let ghost mut osofar: Seq<Seq<char>> = Seq::empty();
    proof {
        assert(argsm.subrange(0, argsm.len() as int) =~= argsm);
        assert(out0 + osofar =~= out0);
    }
    loop
        invariant
            env@ =~= env0,
            env@.len() >= 1,
            k <= arguments@.len(),
            values@.len() == k as int,
            out.deep_view() == out0 + osofar,
            ({
                let (full, fullo) = spec_eval_args(argsm, env0, fuel as nat);
                let (part, parto) = spec_eval_args(
                    argsm.subrange(k as int, argsm.len() as int),
                    env0,
                    fuel as nat,
                );
                &&& fullo == osofar + parto
                &&& match part {
                    Err(m) => full == Err::<Seq<ValueModel>, SpadeErrorModel>(m),
                    Ok(vs) => full matches Ok(allv) && allv == values.deep_view() + vs,
                }
            }),
        decreases arguments@.len() - k,
    {
        if k >= arguments.len() {
            break;
        }
        proof {
            broadcast use vstd::std_specs::vec::group_vec_axioms;

            assert(decreases_to!(*arguments => arguments@));
            assert(decreases_to!(arguments@ => arguments@[k as int]));
            lemma_exprs_size_elem(argsm, k as int);
            assert(argsm.subrange(k as int, argsm.len() as int)[0] == argsm[k as int]);
        }
        let v = match evaluate_expression(&arguments[k], env, out, fuel) {
            Ok(v) => v,
            Err(e) => {
                proof {
                    let (_, o0) = spec_eval_expr(argsm[k as int], env0, fuel as nat);
                    assert((out0 + osofar) + o0 =~= out0 + (osofar + o0));
                }
                return Err(e);
            },
        };
        let ghost prevals = values.deep_view();
        values.push(v);
        proof {
            let (_, o0) = spec_eval_expr(argsm[k as int], env0, fuel as nat);
            osofar = osofar + o0;
            assert(out.deep_view() =~= out0 + osofar);
            assert(values.deep_view() =~= prevals.push(v@));
            let tail = argsm.subrange(k as int, argsm.len() as int);
            assert(tail.subrange(1, tail.len() as int) =~= argsm.subrange(
                k + 1,
                argsm.len() as int,
            ));
            let (part2, _) = spec_eval_args(
                argsm.subrange(k + 1, argsm.len() as int),
                env0,
                fuel as nat,
            );
            if part2 is Ok {
                assert(prevals.push(v@) + part2->Ok_0 =~= prevals + (seq![v@] + part2->Ok_0));
            }
        }
        k = k + 1;
    }
    proof {
        assert(argsm.subrange(argsm.len() as int, argsm.len() as int) =~= Seq::<
            ExprModel,
        >::empty());
        assert(values.deep_view() + Seq::<ValueModel>::empty() =~= values.deep_view());
        assert(osofar + Seq::<Seq<char>>::empty() =~= osofar);
    }
    if fuel == 0 {
        return Err(SpadeError::runtime_error(String::from_str("Stack overflow"), 0));
    }
    // Bind each parameter to its argument in a fresh innermost scope.
    let ghost valsm = values.deep_view();
    env.push_scope();
    let mut j: usize = 0;
    proof {
        assert(bind_params(fun@.parameters.subrange(0, 0), valsm.subrange(0, 0)) =~= Map::<
            Seq<char>,
            ValueModel,
        >::empty());
        assert(env@ =~= env0.push(
            bind_params(fun@.parameters.subrange(0, 0), valsm.subrange(0, 0)),
        ));
    }
    while j < fun.parameters.len()
        invariant
            j <= fun.parameters@.len(),
            fun.parameters@.len() == valsm.len(),
            values.deep_view() == valsm,
            values@.len() == valsm.len(),
            out.deep_view() == out0 + osofar,
            env@ =~= env0.push(
                bind_params(fun@.parameters.subrange(0, j as int), valsm.subrange(0, j as int)),
            ),
            env@.len() == env0.len() + 1,
        decreases fun.parameters@.len() - j,
    {
        let name = fun.parameters[j].clone();
        let value = values[j].clone();
        env.define(name, value);
        proof {
            let pj = fun@.parameters.subrange(0, j + 1);
            let vj = valsm.subrange(0, j + 1);
            assert(pj.drop_last() =~= fun@.parameters.subrange(0, j as int));
            assert(vj.drop_last() =~= valsm.subrange(0, j as int));
            assert(pj.last() == fun.parameters@[j as int]@);
            assert(vj.last() == valsm[j as int]);
            assert(env@ =~= env0.push(bind_params(pj, vj)));
        }
        j = j + 1;
    }
    proof {
        assert(fun@.parameters.subrange(0, fun@.parameters.len() as int) =~= fun@.parameters);
        assert(valsm.subrange(0, valsm.len() as int) =~= valsm);
    }
    // Run the body one call deeper, then drop the parameter scope on every
    // path and consume a return signal at this boundary.
    let body_result = evaluate_statement(&fun.body, env, out, fuel - 1);
    proof {
        lemma_stmt_scopes(fun@.body, env0.push(bind_params(fun@.parameters, valsm)), (fuel - 1) as nat);
    }
    let ghost eff = spec_exec_stmt(
        fun@.body,
        env0.push(bind_params(fun@.parameters, valsm)),
        (fuel - 1) as nat,
    );
    env.pop();
    proof {
        assert forall|i: int| 0 <= i < env0.len() implies env@[i] == env0[i] by {
            assert(eff.env[i] == env0.push(bind_params(fun@.parameters, valsm))[i]);
        }
        assert(env@ =~= env0);
        assert((out0 + osofar) + eff.out =~= out0 + (osofar + eff.out));
    }
    match body_result {
        Ok(_) => Ok(Value::Nil),
        Err(e) => match e {
            SpadeError::Return(v) => Ok(v),
            other => Err(other),
        },
    }
}

} // verus!

verus! {

/// The human rendering of a value, as `print` writes it.
#[verifier::loop_isolation(false)]
pub fn stringify_value(v: &Value) -> (r: String)
    ensures
        r@ == value_text(v@),
{
    match v {
        Value::Nil => String::from_str("nil"),
        Value::Bool(b) => if *b {
            String::from_str("true")
        } else {
            String::from_str("false")
        },
        Value::Number(b) => crate::numeric::format_number(*b),
        Value::String(s) => s.clone(),
        Value::Function(f) => {
            let mut r = String::from_str("fn(");
            let ghost pm = f.parameters.deep_view();
            let mut k: usize = 0;
            proof {
                assert(pm.subrange(0, 0) =~= Seq::<Seq<char>>::empty());
            }
            while k < f.parameters.len()
                invariant
                    k <= f.parameters@.len(),
                    r@ == "fn("@ + params_text(pm.subrange(0, k as int)),
                decreases f.parameters@.len() - k,
            {
                if k > 0 {
                    r.append(", ");
                }
                r.append(f.parameters[k].as_str());
                proof {
                    assert(pm.subrange(0, k + 1).subrange(0, k as int) =~= pm.subrange(0, k as int));
                    assert(pm.subrange(0, k + 1)[k as int] == f.parameters@[k as int]@);
                }
                k = k + 1;
            }
            r.append(")");
            proof {
                assert(pm.subrange(0, f.parameters@.len() as int) =~= pm);
            }
            r
        },
    }
}

/// Execute one statement: its effect on the environment, the lines it
/// prints, and whether it completes, fails, or returns.
#[verifier::loop_isolation(false)]
#[verifier::rlimit(100)]
pub fn evaluate_statement(
    stmt: &Statement,
    env: &mut Environment,
    out: &mut Vec<String>,
    fuel: u64,
) -> (r: Result<(), SpadeError>)
    requires
        old(env)@.len() >= 1,
    ensures
        ({
            let eff = spec_exec_stmt(stmt@, old(env)@, fuel as nat);
            &&& final(env)@ =~= eff.env
            &&& final(env)@.len() == old(env)@.len()
            &&& final(out).deep_view() == old(out).deep_view() + eff.out
            &&& match eff.result {
                Ok(_) => r is Ok,
                Err(m) => r matches Err(e) && e@ == m,
            }
        }),
    decreases fuel, stmt_size(stmt@), 0int,
{
    let ghost env0 = old(env)@;
    let ghost out0 = old(out).deep_view();
    proof {
        lemma_stmt_scopes(stmt@, env0, fuel as nat);
    }
    match stmt {
        Statement::Expression(e) => {
            match evaluate_expression(e, env, out, fuel) {
                Ok(_) => Ok(()),
                Err(e2) => Err(e2),
            }
        },
        Statement::Print(e) => {
            let v = match evaluate_expression(e, env, out, fuel) {
                Ok(v) => v,
                Err(e2) => {
                    return Err(e2);
                },
            };
            let line = stringify_value(&v);
            let ghost mid = out.deep_view();
            out.push(line);
            proof {
                let (_, o) = spec_eval_expr(e@, env0, fuel as nat);
                assert(mid == out0 + o);
                assert(out.deep_view() =~= mid.push(value_text(v@)));
                assert((out0 + o).push(value_text(v@)) =~= out0 + o.push(value_text(v@)));
            }
            Ok(())
        },
        Statement::VarDec { name, initializer } => {
            let v = match initializer {
                Some(e) => match evaluate_expression(e, env, out, fuel) {
                    Ok(v) => v,
                    Err(e2) => {
                        return Err(e2);
                    },
                },
                None => Value::Nil,
            };
            env.define(name.clone(), v);
            proof {
                if initializer is None {
                    assert(out.deep_view() =~= out0 + Seq::<Seq<char>>::empty());
                }
            }
            Ok(())
        },
        Statement::Block(stmts) => {
            env.push_scope();
            let ghost pushed0 = env0.push(Map::empty());
            let ghost ssm = view_stmt_list(stmts@);
            let ghost mut osofar: Seq<Seq<char>> = Seq::empty();
            proof {
                lemma_view_stmt_list(stmts@);
                assert(ssm.subrange(0, ssm.len() as int) =~= ssm);
                assert(out.deep_view() =~= out0 + osofar);
            }
            let mut k: usize = 0;
            loop
                invariant
                    k <= stmts@.len(),
                    env@.len() == env0.len() + 1,
                    out.deep_view() == out0 + osofar,
                    ({
                        let full = spec_exec_stmts(ssm, pushed0, fuel as nat);
                        let part = spec_exec_stmts(
                            ssm.subrange(k as int, ssm.len() as int),
                            env@,
                            fuel as nat,
                        );
                        full == (StmtEffect {
                            env: part.env,
                            out: osofar + part.out,
                            result: part.result,
                        })
                    }),
                decreases stmts@.len() - k,
            {
                if k >= stmts.len() {
                    break;
                }
                proof {
                    broadcast use vstd::std_specs::vec::group_vec_axioms;

                    assert(decreases_to!(*stmts => stmts@));
                    assert(decreases_to!(stmts@ => stmts@[k as int]));
                    lemma_stmts_size_elem(ssm, k as int);
                    assert(ssm.subrange(k as int, ssm.len() as int)[0] == ssm[k as int]);
                    lemma_stmt_scopes(ssm[k as int], env@, fuel as nat);
                }
                let ghost envc = env@;
                match evaluate_statement(&stmts[k], env, out, fuel) {
                    Ok(_) => {},
                    Err(e2) => {
                        env.pop();
                        proof {
                            let effk = spec_exec_stmt(ssm[k as int], envc, fuel as nat);
                            assert((out0 + osofar) + effk.out =~= out0 + (osofar + effk.out));
                        }
                        return Err(e2);
                    },
                }
                proof {
                    let effk = spec_exec_stmt(ssm[k as int], envc, fuel as nat);
                    let tail = ssm.subrange(k as int, ssm.len() as int);
                    assert(tail.subrange(1, tail.len() as int) =~= ssm.subrange(
                        k + 1,
                        ssm.len() as int,
                    ));
                    let part2 = spec_exec_stmts(
                        ssm.subrange(k + 1, ssm.len() as int),
                        effk.env,
                        fuel as nat,
                    );
                    assert(osofar + (effk.out + part2.out) =~= (osofar + effk.out) + part2.out);
                    osofar = osofar + effk.out;
                    assert(out.deep_view() =~= out0 + osofar);
                }
                k = k + 1;
            }
            proof {
                assert(ssm.subrange(ssm.len() as int, ssm.len() as int) =~= Seq::<
                    StatementModel,
                >::empty());
                assert(osofar + Seq::<Seq<char>>::empty() =~= osofar);
            }
            env.pop();
            Ok(())
        },
        Statement::If { condition, then_branch, else_branch } => {
            let v = match evaluate_expression(condition, env, out, fuel) {
                Ok(v) => v,
                Err(e2) => {
                    return Err(e2);
                },
            };
            let ghost oc = spec_eval_expr(condition@, env0, fuel as nat).1;
            if v.is_truthy() {
                let r = evaluate_statement(then_branch, env, out, fuel);
                proof {
                    let eff = spec_exec_stmt(view_stmt(*(*then_branch)), env0, fuel as nat);
                    assert((out0 + oc) + eff.out =~= out0 + (oc + eff.out));
                }
                r
            } else {
                match else_branch {
                    Some(b) => {
                        let r = evaluate_statement(b, env, out, fuel);
                        proof {
                            let eff = spec_exec_stmt(view_stmt(*(*b)), env0, fuel as nat);
                            assert((out0 + oc) + eff.out =~= out0 + (oc + eff.out));
                        }
                        r
                    },
                    None => Ok(()),
                }
            }
        },
        Statement::Fn { name, parameters, body } => {
            let params = parameters.clone();
            proof {
                assert(params.deep_view() =~= parameters.deep_view());
            }
            let f = SpadeFn::new(params, Box::new((**body).clone()));
            env.define(name.clone(), Value::Function(f));
            proof {
                assert(out.deep_view() =~= out0 + Seq::<Seq<char>>::empty());
            }
            Ok(())
        },
        Statement::Return(e) => {
            let v = match e {
                Some(e) => match evaluate_expression(e, env, out, fuel) {
                    Ok(v) => v,
                    Err(e2) => {
                        return Err(e2);
                    },
                },
                None => Value::Nil,
            };
            proof {
                if e is None {
                    assert(out.deep_view() =~= out0 + Seq::<Seq<char>>::empty());
                }
            }
            Err(SpadeError::return_value(v))
        },
    }
}

} // verus!

verus! {

// --- Laws of evaluation ----------------------------------------------------

/// Scope containment: executing a block leaves the enclosing environment —
/// every scope, and with it the set of visible names — exactly as it was.
pub proof fn lemma_block_scope_containment(
    ss: Seq<StatementModel>,
    env: Seq<Map<Seq<char>, ValueModel>>,
    fuel: nat,
)
    ensures
        spec_exec_stmt(StatementModel::Block(ss), env, fuel).env == env,
{
    lemma_stmts_scopes(ss, env.push(Map::empty()), fuel);
    let inner = spec_exec_stmts(ss, env.push(Map::empty()), fuel);
    assert forall|i: int| 0 <= i < env.len() implies inner.env.drop_last()[i] == env[i] by {
        assert(inner.env[i] == env.push(Map::empty())[i]);
    }
    assert(inner.env.drop_last() =~= env);
}

/// Arity: a call that yields a value was handed exactly as many arguments
/// as its callee has parameters.
pub proof fn lemma_call_arity(
    callee: ExprModel,
    arguments: Seq<ExprModel>,
    env: Seq<Map<Seq<char>, ValueModel>>,
    fuel: nat,
)
    requires
        spec_eval_expr(ExprModel::Call { callee: Box::new(callee), arguments }, env, fuel).0 is Ok,
    ensures
        ({
            let (rc, _) = spec_eval_expr(callee, env, fuel);
            rc matches Ok(cv) && cv matches ValueModel::Function(f) && f.parameters.len()
                == arguments.len()
        }),
{
}

/// Determinism: the printed output of a program is a function of the
/// program, the starting environment and the call-depth bound alone, so two
/// executions that start alike print the same lines. The executable
/// interpreter's contract pins its output to exactly this function.
pub proof fn lemma_deterministic(
    ss: Seq<StatementModel>,
    env: Seq<Map<Seq<char>, ValueModel>>,
    fuel: nat,
    out1: Seq<Seq<char>>,
    out2: Seq<Seq<char>>,
)
    requires
        out1 == spec_exec_stmts(ss, env, fuel).out,
        out2 == spec_exec_stmts(ss, env, fuel).out,
    ensures
        out1 == out2,
{
}

} // verus!
