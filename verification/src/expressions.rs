//! The abstract syntax: expressions and statements, their mathematical
//! models, and a source-like text rendering of each.

use vstd::prelude::*;

use crate::numeric::number_text;
use crate::token::{Token, TokenModel};

verus! {

use vstd::string::StringExecFns;

/// The binary operators the parser knows.
#[derive(Clone, Copy, Debug, PartialEq, Eq, Structural)]
pub enum BinaryOp {
    Multiply,
    Divide,
    Plus,
    Minus,
    Greater,
    GreaterEqual,
    Less,
    LessEqual,
    NotEqual,
    EqualEqual,
    And,
    Or,
}

/// The unary operators.
#[derive(Clone, Copy, Debug, PartialEq, Eq, Structural)]
pub enum UnaryOp {
    Minus,
    Not,
}

/// A literal at the leaves of an expression. `Var` carries the identifier
/// token verbatim, to keep its line for error reporting.
#[derive(Debug)]
pub enum Literal {
    Nil,
    Number(u64),
    String(String),
    Bool(bool),
    Var(Token),
}

/// An expression.
#[derive(Debug)]
pub enum Expr {
    Binary { left: Box<Expr>, op: BinaryOp, right: Box<Expr> },
    Unary { op: UnaryOp, expr: Box<Expr> },
    Literal(Literal),
    Grouping(Box<Expr>),
    Assign { token: Token, value: Box<Expr> },
    Call { callee: Box<Expr>, arguments: Vec<Expr> },
}

/// A statement.
#[derive(Debug)]
pub enum Statement {
    Expression(Expr),
    Print(Expr),
    Block(Vec<Statement>),
    VarDec { name: String, initializer: Option<Expr> },
    If { condition: Expr, then_branch: Box<Statement>, else_branch: Option<Box<Statement>> },
    Fn { name: String, parameters: Vec<String>, body: Box<Statement> },
    Return(Option<Expr>),
}

/// The mathematical image of a literal.
pub ghost enum LiteralModel {
    Nil,
    Number(u64),
    String(Seq<char>),
    Bool(bool),
    Var(TokenModel),
}

/// The mathematical image of an expression.
pub ghost enum ExprModel {
    Binary { left: Box<ExprModel>, op: BinaryOp, right: Box<ExprModel> },
    Unary { op: UnaryOp, expr: Box<ExprModel> },
    Literal(LiteralModel),
    Grouping(Box<ExprModel>),
    Assign { token: TokenModel, value: Box<ExprModel> },
    Call { callee: Box<ExprModel>, arguments: Seq<ExprModel> },
}

/// The mathematical image of a statement.
pub ghost enum StatementModel {
    Expression(ExprModel),
    Print(ExprModel),
    Block(Seq<StatementModel>),
    VarDec { name: Seq<char>, initializer: Option<ExprModel> },
    If {
        condition: ExprModel,
        then_branch: Box<StatementModel>,
        else_branch: Option<Box<StatementModel>>,
    },
    Fn { name: Seq<char>, parameters: Seq<Seq<char>>, body: Box<StatementModel> },
    Return(Option<ExprModel>),
}

pub open spec fn view_literal(l: Literal) -> LiteralModel {
    match l {
        Literal::Nil => LiteralModel::Nil,
        Literal::Number(b) => LiteralModel::Number(b),
        Literal::String(s) => LiteralModel::String(s@),
        Literal::Bool(b) => LiteralModel::Bool(b),
        Literal::Var(t) => LiteralModel::Var(t@),
    }
}

/// The views of a sequence of expressions, element by element.
pub open spec fn view_expr_list(v: Seq<Expr>) -> Seq<ExprModel>
    decreases v, 0int,
{
    if v.len() == 0 {
        Seq::empty()
    } else {
        view_expr_list(v.subrange(0, v.len() - 1)).push(view_expr(v[v.len() - 1]))
    }
}

pub open spec fn view_expr(e: Expr) -> ExprModel
    decreases e, 1int,
    via view_expr_decreases
{
    match e {
        Expr::Binary { left, op, right } => ExprModel::Binary {
            left: Box::new(view_expr(*left)),
            op,
            right: Box::new(view_expr(*right)),
        },
        Expr::Unary { op, expr } => ExprModel::Unary { op, expr: Box::new(view_expr(*expr)) },
        Expr::Literal(l) => ExprModel::Literal(view_literal(l)),
        Expr::Grouping(inner) => ExprModel::Grouping(Box::new(view_expr(*inner))),
        Expr::Assign { token, value } => ExprModel::Assign {
            token: token@,
            value: Box::new(view_expr(*value)),
        },
        Expr::Call { callee, arguments } => ExprModel::Call {
            callee: Box::new(view_expr(*callee)),
            arguments: view_expr_list(arguments@),
        },
    }
}

/// The views of a sequence of statements, element by element.
pub open spec fn view_stmt_list(v: Seq<Statement>) -> Seq<StatementModel>
    decreases v, 0int,
{
    if v.len() == 0 {
        Seq::empty()
    } else {
        view_stmt_list(v.subrange(0, v.len() - 1)).push(view_stmt(v[v.len() - 1]))
    }
}

pub open spec fn view_stmt(s: Statement) -> StatementModel
    decreases s, 1int,
    via view_stmt_decreases
{
    match s {
        Statement::Expression(e) => StatementModel::Expression(view_expr(e)),
        Statement::Print(e) => StatementModel::Print(view_expr(e)),
        Statement::Block(stmts) => StatementModel::Block(view_stmt_list(stmts@)),
        Statement::VarDec { name, initializer } => StatementModel::VarDec {
            name: name@,
            initializer: match initializer {
                Some(e) => Some(view_expr(e)),
                None => None,
            },
        },
        Statement::If { condition, then_branch, else_branch } => StatementModel::If {
            condition: view_expr(condition),
            then_branch: Box::new(view_stmt(*then_branch)),
            else_branch: match else_branch {
                Some(b) => Some(Box::new(view_stmt(*b))),
                None => None,
            },
        },
        Statement::Fn { name, parameters, body } => StatementModel::Fn {
            name: name@,
            parameters: parameters.deep_view(),
            body: Box::new(view_stmt(*body)),
        },
        Statement::Return(e) => StatementModel::Return(
            match e {
                Some(e) => Some(view_expr(e)),
                None => None,
            },
        ),
    }
}

#[via_fn]
proof fn view_expr_decreases(e: Expr) {
    broadcast use vstd::std_specs::vec::group_vec_axioms;

    if e is Call {
        assert(decreases_to!(e => e->Call_arguments));
        assert(decreases_to!(e->Call_arguments => e->Call_arguments@));
        assert(decreases_to!(e => e->Call_arguments@));
    }
}

#[via_fn]
proof fn view_stmt_decreases(s: Statement) {
    broadcast use vstd::std_specs::vec::group_vec_axioms;

    if s is Block {
        assert(decreases_to!(s => s->Block_0));
        assert(decreases_to!(s->Block_0 => s->Block_0@));
        assert(decreases_to!(s => s->Block_0@));
    }
}

/// `view_expr_list` is the element-by-element image of its argument.
pub proof fn lemma_view_expr_list(v: Seq<Expr>)
    ensures
        view_expr_list(v).len() == v.len(),
        forall|i: int| 0 <= i < v.len() ==> view_expr_list(v)[i] == view_expr(#[trigger] v[i]),
    decreases v.len(),
{
    if v.len() > 0 {
        lemma_view_expr_list(v.subrange(0, v.len() - 1));
        assert forall|i: int| 0 <= i < v.len() implies view_expr_list(v)[i] == view_expr(
            #[trigger] v[i],
        ) by {
            if i < v.len() - 1 {
                assert(v.subrange(0, v.len() - 1)[i] == v[i]);
            }
        }
    }
}

/// `view_stmt_list` is the element-by-element image of its argument.
pub proof fn lemma_view_stmt_list(v: Seq<Statement>)
    ensures
        view_stmt_list(v).len() == v.len(),
        forall|i: int| 0 <= i < v.len() ==> view_stmt_list(v)[i] == view_stmt(#[trigger] v[i]),
    decreases v.len(),
{
    if v.len() > 0 {
        lemma_view_stmt_list(v.subrange(0, v.len() - 1));
        assert forall|i: int| 0 <= i < v.len() implies view_stmt_list(v)[i] == view_stmt(
            #[trigger] v[i],
        ) by {
            if i < v.len() - 1 {
                assert(v.subrange(0, v.len() - 1)[i] == v[i]);
            }
        }
    }
}

impl View for Literal {
    type V = LiteralModel;

    open spec fn view(&self) -> LiteralModel {
        view_literal(*self)
    }
}

impl DeepView for Literal {
    type V = LiteralModel;

    open spec fn deep_view(&self) -> LiteralModel {
        view_literal(*self)
    }
}

impl View for Expr {
    type V = ExprModel;

    open spec fn view(&self) -> ExprModel {
        view_expr(*self)
    }
}

impl DeepView for Expr {
    type V = ExprModel;

    open spec fn deep_view(&self) -> ExprModel {
        view_expr(*self)
    }
}

impl View for Statement {
    type V = StatementModel;

    open spec fn view(&self) -> StatementModel {
        view_stmt(*self)
    }
}

impl DeepView for Statement {
    type V = StatementModel;

    open spec fn deep_view(&self) -> StatementModel {
        view_stmt(*self)
    }
}

impl Clone for Literal {
    fn clone(&self) -> (r: Self)
        ensures
            r@ == self@,
    {
        match self {
            Literal::Nil => Literal::Nil,
            Literal::Number(b) => Literal::Number(*b),
            Literal::String(s) => Literal::String(s.clone()),
            Literal::Bool(b) => Literal::Bool(*b),
            Literal::Var(t) => Literal::Var(t.clone()),
        }
    }
}

impl Clone for Expr {
    #[verifier::loop_isolation(false)]
    fn clone(&self) -> (r: Self)
        ensures
            r@ == self@,
        decreases *self,
    {
        match self {
            Expr::Binary { left, op, right } => Expr::Binary {
                left: Box::new((**left).clone()),
                op: *op,
                right: Box::new((**right).clone()),
            },
            Expr::Unary { op, expr } => Expr::Unary {
                op: *op,
                expr: Box::new((**expr).clone()),
            },
            Expr::Literal(l) => Expr::Literal(l.clone()),
            Expr::Grouping(inner) => Expr::Grouping(Box::new((**inner).clone())),
            Expr::Assign { token, value } => Expr::Assign {
                token: token.clone(),
                value: Box::new((**value).clone()),
            },
            Expr::Call { callee, arguments } => {
                let mut args: Vec<Expr> = Vec::new();
                let mut k: usize = 0;
                while k < arguments.len()
                    invariant
                        k <= arguments.len(),
                        args@.len() == k as int,
                        forall|i: int| 0 <= i < k ==> args@[i]@ == arguments@[i]@,
                    decreases arguments.len() - k,
                {
                    proof {
                        broadcast use vstd::std_specs::vec::group_vec_axioms;
                        broadcast use vstd::seq::group_seq_axioms;

                        assert(decreases_to!(*self => (*self)->Call_arguments));
                        assert(decreases_to!((*self)->Call_arguments => (*self)->Call_arguments@));
                        assert(decreases_to!((*self)->Call_arguments@ => (*self)->Call_arguments@[k as int]));
                        assert(arguments@ == (*self)->Call_arguments@);
                    }
                    args.push(arguments[k].clone());
                    k = k + 1;
                }
                proof {
                    lemma_view_expr_list(args@);
                    lemma_view_expr_list(arguments@);
                    assert forall|i: int| 0 <= i < args@.len() implies view_expr_list(args@)[i]
                        == view_expr_list(arguments@)[i] by {
                        assert(args@[i]@ == arguments@[i]@);
                    }
                    assert(view_expr_list(args@) =~= view_expr_list(arguments@));
                }
                Expr::Call { callee: Box::new((**callee).clone()), arguments: args }
            },
        }
    }
}

impl Clone for Statement {
    #[verifier::loop_isolation(false)]
    fn clone(&self) -> (r: Self)
        ensures
            r@ == self@,
        decreases *self,
    {
        match self {
            Statement::Expression(e) => Statement::Expression(e.clone()),
            Statement::Print(e) => Statement::Print(e.clone()),
            Statement::Block(stmts) => {
                let mut out: Vec<Statement> = Vec::new();
                let mut k: usize = 0;
                while k < stmts.len()
                    invariant
                        k <= stmts.len(),
                        out@.len() == k as int,
                        forall|i: int| 0 <= i < k ==> out@[i]@ == stmts@[i]@,
                    decreases stmts.len() - k,
                {
                    proof {
                        broadcast use vstd::std_specs::vec::group_vec_axioms;
                        broadcast use vstd::seq::group_seq_axioms;

                        assert(decreases_to!(*self => (*self)->Block_0));
                        assert(decreases_to!((*self)->Block_0 => (*self)->Block_0@));
                        assert(decreases_to!((*self)->Block_0@ => (*self)->Block_0@[k as int]));
                        assert(stmts@ == (*self)->Block_0@);
                    }
                    out.push(stmts[k].clone());
                    k = k + 1;
                }
                proof {
                    lemma_view_stmt_list(out@);
                    lemma_view_stmt_list(stmts@);
                    assert forall|i: int| 0 <= i < out@.len() implies view_stmt_list(out@)[i]
                        == view_stmt_list(stmts@)[i] by {
                        assert(out@[i]@ == stmts@[i]@);
                    }
                    assert(view_stmt_list(out@) =~= view_stmt_list(stmts@));
                }
                Statement::Block(out)
            },
            Statement::VarDec { name, initializer } => Statement::VarDec {
                name: name.clone(),
                initializer: match initializer {
                    Some(e) => Some(e.clone()),
                    None => None,
                },
            },
            Statement::If { condition, then_branch, else_branch } => Statement::If {
                condition: condition.clone(),
                then_branch: Box::new((**then_branch).clone()),
                else_branch: match else_branch {
                    Some(b) => Some(Box::new((**b).clone())),
                    None => None,
                },
            },
            Statement::Fn { name, parameters, body } => {
                let params = parameters.clone();
                proof {
                    assert(params.deep_view() =~= parameters.deep_view());
                }
                Statement::Fn {
                    name: name.clone(),
                    parameters: params,
                    body: Box::new((**body).clone()),
                }
            },
            Statement::Return(e) => Statement::Return(
                match e {
                    Some(e) => Some(e.clone()),
                    None => None,
                },
            ),
        }
    }
}

} // verus!

verus! {

// --- Text rendering -------------------------------------------------------
//
// Every syntax type can render itself back to source-like text. Parentheses
// are printed only for `Grouping` nodes, so an expression in the parser's
// image renders to text that reads back as the same tree.

pub open spec fn binary_op_text(op: BinaryOp) -> Seq<char> {
    match op {
        BinaryOp::Multiply => "*"@,
        BinaryOp::Divide => "/"@,
        BinaryOp::Plus => "+"@,
        BinaryOp::Minus => "-"@,
        BinaryOp::Greater => ">"@,
        BinaryOp::GreaterEqual => ">="@,
        BinaryOp::Less => "<"@,
        BinaryOp::LessEqual => "<="@,
        BinaryOp::NotEqual => "!="@,
        BinaryOp::EqualEqual => "=="@,
        BinaryOp::And => "and"@,
        BinaryOp::Or => "or"@,
    }
}

pub open spec fn unary_op_text(op: UnaryOp) -> Seq<char> {
    match op {
        UnaryOp::Minus => "-"@,
        UnaryOp::Not => "!"@,
    }
}

pub open spec fn literal_text(l: LiteralModel) -> Seq<char> {
    match l {
        LiteralModel::Nil => "nil"@,
        LiteralModel::Number(b) => number_text(b),
        LiteralModel::String(s) => "\""@ + s + "\""@,
        LiteralModel::Bool(b) => if b {
            "true"@
        } else {
            "false"@
        },
        LiteralModel::Var(t) => t.lexeme,
    }
}

/// Argument lists render as the arguments separated by a comma and a space.
pub open spec fn args_text(args: Seq<ExprModel>) -> Seq<char>
    decreases args, 0int,
{
    if args.len() == 0 {
        Seq::empty()
    } else if args.len() == 1 {
        expr_text(args[0])
    } else {
        args_text(args.subrange(0, args.len() - 1)) + ", "@ + expr_text(args[args.len() - 1])
    }
}

pub open spec fn expr_text(e: ExprModel) -> Seq<char>
    decreases e, 1int,
{
    match e {
        ExprModel::Binary { left, op, right } => expr_text(*left) + " "@ + binary_op_text(op)
            + " "@ + expr_text(*right),
        ExprModel::Unary { op, expr } => unary_op_text(op) + expr_text(*expr),
        ExprModel::Literal(l) => literal_text(l),
        ExprModel::Grouping(inner) => "("@ + expr_text(*inner) + ")"@,
        ExprModel::Assign { token, value } => token.lexeme + " = "@ + expr_text(*value),
        ExprModel::Call { callee, arguments } => expr_text(*callee) + "("@ + args_text(arguments)
            + ")"@,
    }
}

/// Parameter lists render as the names separated by a comma and a space.
pub open spec fn params_text(params: Seq<Seq<char>>) -> Seq<char>
    decreases params.len(),
{
    if params.len() == 0 {
        Seq::empty()
    } else if params.len() == 1 {
        params[0]
    } else {
        params_text(params.subrange(0, params.len() - 1)) + ", "@ + params[params.len() - 1]
    }
}

/// The statements of a block, each preceded by one space.
pub open spec fn stmts_text(stmts: Seq<StatementModel>) -> Seq<char>
    decreases stmts, 0int,
{
    if stmts.len() == 0 {
        Seq::empty()
    } else {
        stmts_text(stmts.subrange(0, stmts.len() - 1)) + " "@ + stmt_text(
            stmts[stmts.len() - 1],
        )
    }
}

pub open spec fn stmt_text(s: StatementModel) -> Seq<char>
    decreases s, 1int,
{
    match s {
        StatementModel::Expression(e) => expr_text(e) + ";"@,
        StatementModel::Print(e) => "print "@ + expr_text(e) + ";"@,
        StatementModel::Block(stmts) => "{"@ + stmts_text(stmts) + " }"@,
        StatementModel::VarDec { name, initializer } => match initializer {
            Some(e) => "let "@ + name + " = "@ + expr_text(e) + ";"@,
            None => "let "@ + name + ";"@,
        },
        StatementModel::If { condition, then_branch, else_branch } => match else_branch {
            Some(e) => "if ("@ + expr_text(condition) + ") "@ + stmt_text(*then_branch)
                + " else "@ + stmt_text(*e),
            None => "if ("@ + expr_text(condition) + ") "@ + stmt_text(*then_branch),
        },
        StatementModel::Fn { name, parameters, body } => "fn "@ + name + "("@ + params_text(
            parameters,
        ) + ") "@ + stmt_text(*body),
        StatementModel::Return(e) => match e {
            Some(e) => "return "@ + expr_text(e) + ";"@,
            None => "return;"@,
        },
    }
}

} // verus!

verus! {

use crate::numeric::format_number;

impl BinaryOp {
    /// The operator as source text.
    pub fn to_text(&self) -> (r: String)
        ensures
            r@ == binary_op_text(*self),
    {
        match self {
            BinaryOp::Multiply => String::from_str("*"),
            BinaryOp::Divide => String::from_str("/"),
            BinaryOp::Plus => String::from_str("+"),
            BinaryOp::Minus => String::from_str("-"),
            BinaryOp::Greater => String::from_str(">"),
            BinaryOp::GreaterEqual => String::from_str(">="),
            BinaryOp::Less => String::from_str("<"),
            BinaryOp::LessEqual => String::from_str("<="),
            BinaryOp::NotEqual => String::from_str("!="),
            BinaryOp::EqualEqual => String::from_str("=="),
            BinaryOp::And => String::from_str("and"),
            BinaryOp::Or => String::from_str("or"),
        }
    }
}

impl UnaryOp {
    /// The operator as source text.
    pub fn to_text(&self) -> (r: String)
        ensures
            r@ == unary_op_text(*self),
    {
        match self {
            UnaryOp::Minus => String::from_str("-"),
            UnaryOp::Not => String::from_str("!"),
        }
    }
}

impl Literal {
    /// The literal as source text: strings regain their quotes, numbers
    /// render at the fewest digits that read back as the same value.
    pub fn to_text(&self) -> (r: String)
        ensures
            r@ == literal_text(self@),
    {
        match self {
            Literal::Nil => String::from_str("nil"),
            Literal::Number(b) => format_number(*b),
            Literal::String(s) => {
                let mut r = String::from_str("\"");
                r.append(s.as_str());
                r.append("\"");
                r
            },
            Literal::Bool(b) => if *b {
                String::from_str("true")
            } else {
                String::from_str("false")
            },
            Literal::Var(t) => t.lexeme.clone(),
        }
    }
}

impl Expr {
    /// The expression as source text. Parentheses appear only where the tree
    /// holds a `Grouping` node.
    #[verifier::loop_isolation(false)]
    pub fn to_text(&self) -> (r: String)
        ensures
            r@ == expr_text(self@),
        decreases *self, 1int,
    {
        match self {
            Expr::Binary { left, op, right } => {
                let mut r = left.to_text();
                r.append(" ");
                r.append(op.to_text().as_str());
                r.append(" ");
                r.append(right.to_text().as_str());
                r
            },
            Expr::Unary { op, expr } => {
                let mut r = op.to_text();
                r.append(expr.to_text().as_str());
                r
            },
            Expr::Literal(l) => l.to_text(),
            Expr::Grouping(inner) => {
                let mut r = String::from_str("(");
                r.append(inner.to_text().as_str());
                r.append(")");
                r
            },
            Expr::Assign { token, value } => {
                let mut r = token.lexeme.clone();
                r.append(" = ");
                r.append(value.to_text().as_str());
                r
            },
            Expr::Call { callee, arguments } => {
                let mut r = callee.to_text();
                r.append("(");
                let ghost am = view_expr_list(arguments@);
                let mut k: usize = 0;
                proof {
                    lemma_view_expr_list(arguments@);
                    assert(am.subrange(0, 0) =~= Seq::<ExprModel>::empty());
                }
                while k < arguments.len()
                    invariant
                        k <= arguments.len(),
                        r@ == expr_text(view_expr(**callee)) + "("@ + args_text(
                            am.subrange(0, k as int),
                        ),
                    decreases arguments.len() - k,
                {
                    proof {
                        broadcast use vstd::std_specs::vec::group_vec_axioms;

                        assert(decreases_to!(*self => (*self)->Call_arguments));
                        assert(decreases_to!((*self)->Call_arguments => (*self)->Call_arguments@));
                        assert(decreases_to!((*self)->Call_arguments@ => (*self)->Call_arguments@[k as int]));
                        assert(arguments@ == (*self)->Call_arguments@);
                    }
                    if k > 0 {
                        r.append(", ");
                    }
                    r.append(arguments[k].to_text().as_str());
                    proof {
                        assert(am.subrange(0, k + 1).subrange(0, k as int) =~= am.subrange(
                            0,
                            k as int,
                        ));
                        assert(am.subrange(0, k + 1)[k as int] == view_expr(arguments@[k as int]));
                    }
                    k = k + 1;
                }
                r.append(")");
                proof {
                    assert(am.subrange(0, arguments@.len() as int) =~= am);
                }
                r
            },
        }
    }
}

} // verus!

verus! {

impl Statement {
    /// The statement as source text.
    #[verifier::loop_isolation(false)]
    pub fn to_text(&self) -> (r: String)
        ensures
            r@ == stmt_text(self@),
        decreases *self, 1int,
    {
        match self {
            Statement::Expression(e) => {
                let mut r = e.to_text();
                r.append(";");
                r
            },
            Statement::Print(e) => {
                let mut r = String::from_str("print ");
                r.append(e.to_text().as_str());
                r.append(";");
                r
            },
            Statement::Block(stmts) => {
                let mut r = String::from_str("{");
                let ghost sm = view_stmt_list(stmts@);
                let mut k: usize = 0;
                proof {
                    lemma_view_stmt_list(stmts@);
                    assert(sm.subrange(0, 0) =~= Seq::<StatementModel>::empty());
                }
                while k < stmts.len()
                    invariant
                        k <= stmts.len(),
                        r@ == "{"@ + stmts_text(sm.subrange(0, k as int)),
                    decreases stmts.len() - k,
                {
                    proof {
                        broadcast use vstd::std_specs::vec::group_vec_axioms;

                        assert(decreases_to!(*self => (*self)->Block_0));
                        assert(decreases_to!((*self)->Block_0 => (*self)->Block_0@));
                        assert(decreases_to!((*self)->Block_0@ => (*self)->Block_0@[k as int]));
                        assert(stmts@ == (*self)->Block_0@);
                    }
                    r.append(" ");
                    r.append(stmts[k].to_text().as_str());
                    proof {
                        assert(sm.subrange(0, k + 1).subrange(0, k as int) =~= sm.subrange(
                            0,
                            k as int,
                        ));
                        assert(sm.subrange(0, k + 1)[k as int] == view_stmt(stmts@[k as int]));
                    }
                    k = k + 1;
                }
                r.append(" }");
                proof {
                    assert(sm.subrange(0, stmts@.len() as int) =~= sm);
                }
                r
            },
            Statement::VarDec { name, initializer } => {
                let mut r = String::from_str("let ");
                r.append(name.as_str());
                match initializer {
                    Some(e) => {
                        r.append(" = ");
                        r.append(e.to_text().as_str());
                    },
                    None => {},
                }
                r.append(";");
                r
            },
            Statement::If { condition, then_branch, else_branch } => {
                let mut r = String::from_str("if (");
                r.append(condition.to_text().as_str());
                r.append(") ");
                r.append(then_branch.to_text().as_str());
                match else_branch {
                    Some(e) => {
                        r.append(" else ");
                        r.append(e.to_text().as_str());
                    },
                    None => {},
                }
                r
            },
            Statement::Fn { name, parameters, body } => {
                let mut r = String::from_str("fn ");
                r.append(name.as_str());
                r.append("(");
                let ghost pm = parameters.deep_view();
                let mut k: usize = 0;
                proof {
                    assert(pm.subrange(0, 0) =~= Seq::<Seq<char>>::empty());
                }
                while k < parameters.len()
                    invariant
                        k <= parameters.len(),
                        r@ == "fn "@ + name@ + "("@ + params_text(pm.subrange(0, k as int)),
                    decreases parameters.len() - k,
                {
                    if k > 0 {
                        r.append(", ");
                    }
                    r.append(parameters[k].as_str());
                    proof {
                        assert(pm.subrange(0, k + 1).subrange(0, k as int) =~= pm.subrange(
                            0,
                            k as int,
                        ));
                        assert(pm.subrange(0, k + 1)[k as int] == parameters@[k as int]@);
                    }
                    k = k + 1;
                }
                r.append(") ");
                r.append(body.to_text().as_str());
                proof {
                    assert(pm.subrange(0, parameters@.len() as int) =~= pm);
                }
                r
            },
            Statement::Return(e) => {
                match e {
                    Some(e) => {
                        let mut r = String::from_str("return ");
                        r.append(e.to_text().as_str());
                        r.append(";");
                        r
                    },
                    None => String::from_str("return;"),
                }
            },
        }
    }
}

} // verus!
