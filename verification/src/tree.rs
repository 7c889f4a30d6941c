//! The recursive-descent parser: token sequence in, syntax tree out. Each
//! grammar production is one function; the call chain encodes precedence.

use vstd::prelude::*;

use crate::expressions::{view_expr_list, view_stmt_list, BinaryOp, Expr, ExprModel, Literal,
    LiteralModel, Statement, StatementModel, UnaryOp};
use crate::token::{Token, TokenModel, TokenType};

verus! {

// --- The mathematical parser ----------------------------------------------
//
// These functions define what the parser returns on every token sequence:
// the tree and the position after it, or the message of the failure. The
// executable parser below is specified against them. Recursion guards of
// the form `j <= i` keep the definitions well-founded; the executable
// parser proves its positions always advance, so those branches are never
// the ones it lands in.

pub open spec fn spec_primary(t: Seq<TokenModel>, i: int) -> Result<(ExprModel, int), Seq<char>>
    decreases t.len() - i, 3int,
{
    if i < 0 || i >= t.len() {
        Err("Expect expression"@)
    } else {
        let tok = t[i];
        if tok.token_type == TokenType::False {
            Ok((ExprModel::Literal(LiteralModel::Bool(false)), i + 1))
        } else if tok.token_type == TokenType::True {
            Ok((ExprModel::Literal(LiteralModel::Bool(true)), i + 1))
        } else if tok.token_type == TokenType::Nil {
            Ok((ExprModel::Literal(LiteralModel::Nil), i + 1))
        } else if tok.token_type == TokenType::Number {
            match tok.literal {
                Some(crate::token::LiteralModel::Number(b)) => Ok(
                    (ExprModel::Literal(LiteralModel::Number(b)), i + 1),
                ),
                _ => Err("Number token without number literal"@),
            }
        } else if tok.token_type == TokenType::Identifier {
            Ok((ExprModel::Literal(LiteralModel::Var(tok)), i + 1))
        } else if tok.token_type == TokenType::String {
            match tok.literal {
                Some(crate::token::LiteralModel::String(s)) => Ok(
                    (ExprModel::Literal(LiteralModel::String(s)), i + 1),
                ),
                _ => Err("String token without string literal"@),
            }
        } else if tok.token_type == TokenType::LeftParen {
            match spec_expression(t, i + 1) {
                Err(m) => Err(m),
                Ok((e, j)) => if j < t.len() && t[j].token_type == TokenType::RightParen {
                    Ok((ExprModel::Grouping(Box::new(e)), j + 1))
                } else {
                    Err("Expect ')' after expression"@)
                },
            }
        } else {
            Err("Expect expression"@)
        }
    }
}

/// Parses `expression ("," expression)* ")"` from inside an argument list,
/// accumulating arguments. After a comma another expression must follow.
pub open spec fn spec_args_more(t: Seq<TokenModel>, i: int, acc: Seq<ExprModel>) -> Result<
    (Seq<ExprModel>, int),
    Seq<char>,
>
    decreases t.len() - i, 11int,
{
    match spec_expression(t, i) {
        Err(m) => Err(m),
        Ok((e, j)) => if j <= i || j > t.len() {
            Err(Seq::empty())
        } else {
            let acc2 = acc.push(e);
            if j < t.len() && t[j].token_type == TokenType::Comma {
                spec_args_more(t, j + 1, acc2)
            } else {
                if j < t.len() && t[j].token_type == TokenType::RightParen {
                    Ok((acc2, j + 1))
                } else {
                    Err("Expect ')' after arguments"@)
                }
            }
        },
    }
}

/// Parses a whole argument list after its `(`: empty, or expressions
/// separated by commas, then the `)`.
pub open spec fn spec_args_loop(t: Seq<TokenModel>, i: int) -> Result<
    (Seq<ExprModel>, int),
    Seq<char>,
>
    decreases t.len() - i, 12int,
{
    if i < t.len() && t[i].token_type == TokenType::RightParen {
        Ok((Seq::empty(), i + 1))
    } else {
        spec_args_more(t, i, Seq::empty())
    }
}

/// Wraps a parsed callee in call applications while `(` follows.
pub open spec fn spec_call_rest(t: Seq<TokenModel>, e: ExprModel, j: int) -> Result<
    (ExprModel, int),
    Seq<char>,
>
    decreases t.len() - j, 13int,
{
    if j < t.len() && t[j].token_type == TokenType::LeftParen {
        match spec_args_loop(t, j + 1) {
            Err(m) => Err(m),
            Ok((args, k)) => if k <= j || k > t.len() {
                Err(Seq::empty())
            } else {
                spec_call_rest(t, ExprModel::Call { callee: Box::new(e), arguments: args }, k)
            },
        }
    } else {
        Ok((e, j))
    }
}

pub open spec fn spec_call(t: Seq<TokenModel>, i: int) -> Result<(ExprModel, int), Seq<char>>
    decreases t.len() - i, 4int,
{
    match spec_primary(t, i) {
        Err(m) => Err(m),
        Ok((e, j)) => if j <= i || j > t.len() {
            Err(Seq::empty())
        } else {
            spec_call_rest(t, e, j)
        },
    }
}

pub open spec fn spec_unary(t: Seq<TokenModel>, i: int) -> Result<(ExprModel, int), Seq<char>>
    decreases t.len() - i, 5int,
{
    if 0 <= i < t.len() && (t[i].token_type == TokenType::Bang || t[i].token_type
        == TokenType::Minus) {
        let op = if t[i].token_type == TokenType::Bang {
            UnaryOp::Not
        } else {
            UnaryOp::Minus
        };
        match spec_unary(t, i + 1) {
            Err(m) => Err(m),
            Ok((e, j)) => Ok((ExprModel::Unary { op, expr: Box::new(e) }, j)),
        }
    } else {
        spec_call(t, i)
    }
}

pub open spec fn spec_factor_rest(t: Seq<TokenModel>, e: ExprModel, j: int) -> Result<
    (ExprModel, int),
    Seq<char>,
>
    decreases t.len() - j, 12int,
{
    if j < t.len() && (t[j].token_type == TokenType::Slash || t[j].token_type == TokenType::Star) {
        let op = if t[j].token_type == TokenType::Slash {
            BinaryOp::Divide
        } else {
            BinaryOp::Multiply
        };
        match spec_unary(t, j + 1) {
            Err(m) => Err(m),
            Ok((r, k)) => if k <= j || k > t.len() {
                Err(Seq::empty())
            } else {
                spec_factor_rest(
                    t,
                    ExprModel::Binary { left: Box::new(e), op, right: Box::new(r) },
                    k,
                )
            },
        }
    } else {
        Ok((e, j))
    }
}

pub open spec fn spec_factor(t: Seq<TokenModel>, i: int) -> Result<(ExprModel, int), Seq<char>>
    decreases t.len() - i, 6int,
{
    match spec_unary(t, i) {
        Err(m) => Err(m),
        Ok((e, j)) => if j <= i || j > t.len() {
            Err(Seq::empty())
        } else {
            spec_factor_rest(t, e, j)
        },
    }
}

pub open spec fn spec_term_rest(t: Seq<TokenModel>, e: ExprModel, j: int) -> Result<
    (ExprModel, int),
    Seq<char>,
>
    decreases t.len() - j, 12int,
{
    if j < t.len() && (t[j].token_type == TokenType::Minus || t[j].token_type == TokenType::Plus) {
        let op = if t[j].token_type == TokenType::Minus {
            BinaryOp::Minus
        } else {
            BinaryOp::Plus
        };
        match spec_factor(t, j + 1) {
            Err(m) => Err(m),
            Ok((r, k)) => if k <= j || k > t.len() {
                Err(Seq::empty())
            } else {
                spec_term_rest(
                    t,
                    ExprModel::Binary { left: Box::new(e), op, right: Box::new(r) },
                    k,
                )
            },
        }
    } else {
        Ok((e, j))
    }
}

pub open spec fn spec_term(t: Seq<TokenModel>, i: int) -> Result<(ExprModel, int), Seq<char>>
    decreases t.len() - i, 7int,
{
    match spec_factor(t, i) {
        Err(m) => Err(m),
        Ok((e, j)) => if j <= i || j > t.len() {
            Err(Seq::empty())
        } else {
            spec_term_rest(t, e, j)
        },
    }
}

pub open spec fn spec_comparison_rest(t: Seq<TokenModel>, e: ExprModel, j: int) -> Result<
    (ExprModel, int),
    Seq<char>,
>
    decreases t.len() - j, 12int,
{
    if j < t.len() && (t[j].token_type == TokenType::Greater || t[j].token_type
        == TokenType::GreaterEqual || t[j].token_type == TokenType::Less || t[j].token_type
        == TokenType::LessEqual) {
        let op = if t[j].token_type == TokenType::Greater {
            BinaryOp::Greater
        } else if t[j].token_type == TokenType::GreaterEqual {
            BinaryOp::GreaterEqual
        } else if t[j].token_type == TokenType::Less {
            BinaryOp::Less
        } else {
            BinaryOp::LessEqual
        };
        match spec_term(t, j + 1) {
            Err(m) => Err(m),
            Ok((r, k)) => if k <= j || k > t.len() {
                Err(Seq::empty())
            } else {
                spec_comparison_rest(
                    t,
                    ExprModel::Binary { left: Box::new(e), op, right: Box::new(r) },
                    k,
                )
            },
        }
    } else {
        Ok((e, j))
    }
}

pub open spec fn spec_comparison(t: Seq<TokenModel>, i: int) -> Result<(ExprModel, int), Seq<char>>
    decreases t.len() - i, 8int,
{
    match spec_term(t, i) {
        Err(m) => Err(m),
        Ok((e, j)) => if j <= i || j > t.len() {
            Err(Seq::empty())
        } else {
            spec_comparison_rest(t, e, j)
        },
    }
}

pub open spec fn spec_equality_rest(t: Seq<TokenModel>, e: ExprModel, j: int) -> Result<
    (ExprModel, int),
    Seq<char>,
>
    decreases t.len() - j, 12int,
{
    if j < t.len() && (t[j].token_type == TokenType::BangEqual || t[j].token_type
        == TokenType::EqualEqual) {
        let op = if t[j].token_type == TokenType::BangEqual {
            BinaryOp::NotEqual
        } else {
            BinaryOp::EqualEqual
        };
        match spec_comparison(t, j + 1) {
            Err(m) => Err(m),
            Ok((r, k)) => if k <= j || k > t.len() {
                Err(Seq::empty())
            } else {
                spec_equality_rest(
                    t,
                    ExprModel::Binary { left: Box::new(e), op, right: Box::new(r) },
                    k,
                )
            },
        }
    } else {
        Ok((e, j))
    }
}

pub open spec fn spec_equality(t: Seq<TokenModel>, i: int) -> Result<(ExprModel, int), Seq<char>>
    decreases t.len() - i, 9int,
{
    match spec_comparison(t, i) {
        Err(m) => Err(m),
        Ok((e, j)) => if j <= i || j > t.len() {
            Err(Seq::empty())
        } else {
            spec_equality_rest(t, e, j)
        },
    }
}

pub open spec fn spec_expression(t: Seq<TokenModel>, i: int) -> Result<(ExprModel, int), Seq<char>>
    decreases t.len() - i, 10int,
{
    spec_equality(t, i)
}

} // verus!

verus! {

pub open spec fn spec_print_statement(t: Seq<TokenModel>, i: int) -> Result<
    (StatementModel, int),
    Seq<char>,
>
    decreases t.len() - i, 19int,
{
    match spec_expression(t, i) {
        Err(m) => Err(m),
        Ok((e, j)) => if j < t.len() && t[j].token_type == TokenType::Semicolon {
            Ok((StatementModel::Print(e), j + 1))
        } else {
            Err("Expect ';' after value."@)
        },
    }
}

pub open spec fn spec_expression_statement(t: Seq<TokenModel>, i: int) -> Result<
    (StatementModel, int),
    Seq<char>,
>
    decreases t.len() - i, 19int,
{
    match spec_expression(t, i) {
        Err(m) => Err(m),
        Ok((e, j)) => if j < t.len() && t[j].token_type == TokenType::Semicolon {
            Ok((StatementModel::Expression(e), j + 1))
        } else {
            Err("Expect ';' after value."@)
        },
    }
}

pub open spec fn spec_var_declaration(t: Seq<TokenModel>, i: int) -> Result<
    (StatementModel, int),
    Seq<char>,
>
    decreases t.len() - i, 19int,
{
    if i < t.len() && t[i].token_type == TokenType::Identifier {
        let name = t[i].lexeme;
        if i + 1 < t.len() && t[i + 1].token_type == TokenType::Semicolon {
            Ok((StatementModel::VarDec { name, initializer: None }, i + 2))
        } else if i + 1 < t.len() && t[i + 1].token_type == TokenType::Equal {
            match spec_expression(t, i + 2) {
                Err(m) => Err(m),
                Ok((e, j)) => if j < t.len() && t[j].token_type == TokenType::Semicolon {
                    Ok((StatementModel::VarDec { name, initializer: Some(e) }, j + 1))
                } else {
                    Err("Delaration must end with semicolon"@)
                },
            }
        } else {
            Err("'let' assignment must be followed by '='"@)
        }
    } else {
        Err("'let' assignment must be provided a name"@)
    }
}

/// Parses `statement*` up to a closing brace or the end of the tokens.
pub open spec fn spec_block_rest(t: Seq<TokenModel>, i: int, acc: Seq<StatementModel>) -> Result<
    (Seq<StatementModel>, int),
    Seq<char>,
>
    decreases t.len() - i, 21int,
{
    if i < t.len() && t[i].token_type != TokenType::RightBrace {
        match spec_statement(t, i) {
            Err(m) => Err(m),
            Ok((s, j)) => if j <= i || j > t.len() {
                Err(Seq::empty())
            } else {
                spec_block_rest(t, j, acc.push(s))
            },
        }
    } else {
        Ok((acc, i))
    }
}

pub open spec fn spec_block_statement(t: Seq<TokenModel>, i: int) -> Result<
    (StatementModel, int),
    Seq<char>,
>
    decreases t.len() - i, 22int,
{
    match spec_block_rest(t, i, Seq::empty()) {
        Err(m) => Err(m),
        Ok((ss, j)) => if j < t.len() && t[j].token_type == TokenType::RightBrace {
            Ok((StatementModel::Block(ss), j + 1))
        } else {
            Err("Expect '}' after block"@)
        },
    }
}

pub open spec fn spec_if_statement(t: Seq<TokenModel>, i: int) -> Result<
    (StatementModel, int),
    Seq<char>,
>
    decreases t.len() - i, 19int,
{
    if i < t.len() && t[i].token_type == TokenType::LeftParen {
        match spec_expression(t, i + 1) {
            Err(m) => Err(m),
            Ok((cond, j)) => if j <= i || j > t.len() {
                Err(Seq::empty())
            } else if j < t.len() && t[j].token_type == TokenType::RightParen {
                match spec_statement(t, j + 1) {
                    Err(m) => Err(m),
                    Ok((then_s, k)) => if k <= j || k > t.len() {
                        Err(Seq::empty())
                    } else if k < t.len() && t[k].token_type == TokenType::Else {
                        match spec_statement(t, k + 1) {
                            Err(m) => Err(m),
                            Ok((else_s, l)) => Ok(
                                (
                                    StatementModel::If {
                                        condition: cond,
                                        then_branch: Box::new(then_s),
                                        else_branch: Some(Box::new(else_s)),
                                    },
                                    l,
                                ),
                            ),
                        }
                    } else {
                        Ok(
                            (
                                StatementModel::If {
                                    condition: cond,
                                    then_branch: Box::new(then_s),
                                    else_branch: None,
                                },
                                k,
                            ),
                        )
                    },
                }
            } else {
                Err("Expect ')' after condition"@)
            },
        }
    } else {
        Err("Expect '(' after 'if'"@)
    }
}

/// Parses `IDENT ("," IDENT)*` up to the closing parenthesis of a parameter
/// list, then consumes it.
pub open spec fn spec_params_loop(t: Seq<TokenModel>, i: int, acc: Seq<Seq<char>>) -> Result<
    (Seq<Seq<char>>, int),
    Seq<char>,
>
    decreases t.len() - i, 19int,
{
    if i < t.len() && t[i].token_type != TokenType::RightParen {
        if t[i].token_type == TokenType::Identifier {
            let acc2 = acc.push(t[i].lexeme);
            if i + 1 < t.len() && t[i + 1].token_type == TokenType::Comma {
                spec_params_loop(t, i + 2, acc2)
            } else {
                if i + 1 < t.len() && t[i + 1].token_type == TokenType::RightParen {
                    Ok((acc2, i + 2))
                } else {
                    Err("Expect ')' after parameters"@)
                }
            }
        } else {
            Err("Expect parameter name"@)
        }
    } else {
        if i < t.len() && t[i].token_type == TokenType::RightParen {
            Ok((acc, i + 1))
        } else {
            Err("Expect ')' after parameters"@)
        }
    }
}

pub open spec fn spec_fn_statement(t: Seq<TokenModel>, i: int) -> Result<
    (StatementModel, int),
    Seq<char>,
>
    decreases t.len() - i, 19int,
{
    if i < t.len() && t[i].token_type == TokenType::Identifier {
        let name = t[i].lexeme;
        if i + 1 < t.len() && t[i + 1].token_type == TokenType::LeftParen {
            match spec_params_loop(t, i + 2, Seq::empty()) {
                Err(m) => Err(m),
                Ok((params, j)) => if j <= i + 1 || j > t.len() {
                    Err(Seq::empty())
                } else if j < t.len() && t[j].token_type == TokenType::LeftBrace {
                    match spec_block_statement(t, j + 1) {
                        Err(m) => Err(m),
                        Ok((body, k)) => Ok(
                            (
                                StatementModel::Fn {
                                    name,
                                    parameters: params,
                                    body: Box::new(body),
                                },
                                k,
                            ),
                        ),
                    }
                } else {
                    Err("Expect '{' before function body"@)
                },
            }
        } else {
            Err("Expect '(' after function name"@)
        }
    } else {
        Err("Expect function name"@)
    }
}

pub open spec fn spec_return_statement(t: Seq<TokenModel>, i: int) -> Result<
    (StatementModel, int),
    Seq<char>,
>
    decreases t.len() - i, 19int,
{
    if i < t.len() && t[i].token_type == TokenType::Semicolon {
        Ok((StatementModel::Return(None), i + 1))
    } else {
        match spec_expression(t, i) {
            Err(m) => Err(m),
            Ok((e, j)) => if j < t.len() && t[j].token_type == TokenType::Semicolon {
                Ok((StatementModel::Return(Some(e)), j + 1))
            } else {
                Err("Expect ';' after return value"@)
            },
        }
    }
}

pub open spec fn spec_statement(t: Seq<TokenModel>, i: int) -> Result<
    (StatementModel, int),
    Seq<char>,
>
    decreases t.len() - i, 20int,
{
    if i < 0 || i >= t.len() {
        Err("Expect expression"@)
    } else if t[i].token_type == TokenType::Print {
        spec_print_statement(t, i + 1)
    } else if t[i].token_type == TokenType::Let {
        spec_var_declaration(t, i + 1)
    } else if t[i].token_type == TokenType::LeftBrace {
        spec_block_statement(t, i + 1)
    } else if t[i].token_type == TokenType::If {
        spec_if_statement(t, i + 1)
    } else if t[i].token_type == TokenType::Fn {
        spec_fn_statement(t, i + 1)
    } else if t[i].token_type == TokenType::Return {
        spec_return_statement(t, i + 1)
    } else {
        spec_expression_statement(t, i)
    }
}

/// Parses `statement*` to the end of the tokens: a whole program.
pub open spec fn spec_program(t: Seq<TokenModel>, i: int, acc: Seq<StatementModel>) -> Result<
    Seq<StatementModel>,
    Seq<char>,
>
    decreases t.len() - i, 23int,
{
    if 0 <= i < t.len() {
        match spec_statement(t, i) {
            Err(m) => Err(m),
            Ok((s, j)) => if j <= i || j > t.len() {
                Err(Seq::empty())
            } else {
                spec_program(t, j, acc.push(s))
            },
        }
    } else {
        Ok(acc)
    }
}

/// The statements a whole token sequence parses to.
pub open spec fn spec_parse_program(t: Seq<TokenModel>) -> Result<Seq<StatementModel>, Seq<char>> {
    spec_program(t, 0, Seq::empty())
}

} // verus!

verus! {

use vstd::string::StringExecFns;

/// The parser's cursor over the token sequence.
pub struct Parser {
    pub tokens: Vec<Token>,
    pub current: usize,
}

impl Parser {
    /// The token sequence as its mathematical image.
    pub open spec fn toks(&self) -> Seq<TokenModel> {
        self.tokens.deep_view()
    }

    pub open spec fn wf(&self) -> bool {
        self.current <= self.toks().len()
    }

    pub fn new(tokens: Vec<Token>) -> (r: Self)
        ensures
            r.toks() == tokens.deep_view(),
            r.current == 0,
            r.wf(),
    {
        Parser { tokens, current: 0 }
    }

    fn is_at_end(&self) -> (r: bool)
        ensures
            r == (self.current as int >= self.toks().len()),
    {
        proof {
            assert(self.toks().len() == self.tokens@.len());
        }
        self.current >= self.tokens.len()
    }

    fn peek(&self) -> (r: &Token)
        requires
            self.current < self.toks().len(),
        ensures
            r@ == self.toks()[self.current as int],
    {
        proof {
            assert(self.toks().len() == self.tokens@.len());
            assert(self.toks()[self.current as int] == self.tokens@[self.current as int]@);
        }
        &self.tokens[self.current]
    }

    fn previous(&self) -> (r: &Token)
        requires
            0 < self.current <= self.toks().len(),
        ensures
            r@ == self.toks()[self.current - 1],
    {
        proof {
            assert(self.toks().len() == self.tokens@.len());
            assert(self.toks()[self.current - 1] == self.tokens@[self.current - 1]@);
        }
        &self.tokens[self.current - 1]
    }

    fn advance(&mut self)
        requires
            old(self).wf(),
        ensures
            final(self).wf(),
            final(self).tokens == old(self).tokens,
            if old(self).current < old(self).toks().len() {
                final(self).current == old(self).current + 1
            } else {
                final(self).current == old(self).current
            },
    {
        proof {
            assert(self.toks().len() == self.tokens@.len());
        }
        if self.current < self.tokens.len() {
            self.current = self.current + 1;
        }
    }

    fn check(&self, token_type: TokenType) -> (r: bool)
        requires
            self.wf(),
        ensures
            r == (self.current < self.toks().len() && self.toks()[self.current as int].token_type
                == token_type),
    {
        if self.is_at_end() {
            false
        } else {
            self.peek().token_type == token_type
        }
    }

    /// Consume the next token when it has the given kind.
    fn match_token(&mut self, token_type: TokenType) -> (r: bool)
        requires
            old(self).wf(),
        ensures
            final(self).wf(),
            final(self).tokens == old(self).tokens,
            ({
                let t = old(self).toks();
                let i = old(self).current as int;
                if i < t.len() && t[i].token_type == token_type {
                    r && final(self).current == old(self).current + 1
                } else {
                    !r && final(self).current == old(self).current
                }
            }),
    {
        if self.check(token_type) {
            self.advance();
            true
        } else {
            false
        }
    }

    /// Demand a token of the given kind; fail with the message otherwise.
    fn consume(&mut self, token_type: TokenType, error_message: &str) -> (r: Result<Token, String>)
        requires
            old(self).wf(),
        ensures
            final(self).wf(),
            final(self).tokens == old(self).tokens,
            ({
                let t = old(self).toks();
                let i = old(self).current as int;
                if i < t.len() && t[i].token_type == token_type {
                    r matches Ok(tok) && tok@ == t[i] && final(self).current == old(self).current
                        + 1
                } else {
                    (r matches Err(m) && m@ == error_message@) && final(self).current == old(
                        self,
                    ).current
                }
            }),
    {
        if self.match_token(token_type) {
            Ok(self.previous().clone())
        } else {
            Err(String::from_str(error_message))
        }
    }
}

} // verus!

verus! {

impl Parser {
    #[verifier::loop_isolation(false)]
    fn primary(&mut self) -> (r: Result<Expr, String>)
        requires
            old(self).wf(),
        ensures
            final(self).wf(),
            final(self).tokens == old(self).tokens,
            ({
                let t = old(self).toks();
                let i = old(self).current as int;
                match spec_primary(t, i) {
                    Ok(p) => r matches Ok(e) && e@ == p.0 && final(self).current as int == p.1 && i
                        < p.1 <= t.len(),
                    Err(m) => r matches Err(s) && s@ == m,
                }
            }),
        decreases self.toks().len() - self.current, 3int,
    {
        if self.match_token(TokenType::False) {
            return Ok(Expr::Literal(Literal::Bool(false)));
        }
        if self.match_token(TokenType::True) {
            return Ok(Expr::Literal(Literal::Bool(true)));
        }
        if self.match_token(TokenType::Nil) {
            return Ok(Expr::Literal(Literal::Nil));
        }
        if self.match_token(TokenType::Number) {
            let prev = self.previous();
            match &prev.literal {
                Some(crate::token::Literal::Number(b)) => {
                    return Ok(Expr::Literal(Literal::Number(*b)));
                },
                _ => {
                    return Err(String::from_str("Number token without number literal"));
                },
            }
        }
        if self.match_token(TokenType::Identifier) {
            return Ok(Expr::Literal(Literal::Var(self.previous().clone())));
        }
        if self.match_token(TokenType::String) {
            let prev = self.previous();
            match &prev.literal {
                Some(crate::token::Literal::String(s)) => {
                    return Ok(Expr::Literal(Literal::String(s.clone())));
                },
                _ => {
                    return Err(String::from_str("String token without string literal"));
                },
            }
        }
        if self.match_token(TokenType::LeftParen) {
            let e = match self.expression() {
                Ok(e) => e,
                Err(m) => {
                    return Err(m);
                },
            };
            if !self.match_token(TokenType::RightParen) {
                return Err(String::from_str("Expect ')' after expression"));
            }
            return Ok(Expr::Grouping(Box::new(e)));
        }
        Err(String::from_str("Expect expression"))
    }

    /// Parse the arguments of one call, up to and including the `)`.
    #[verifier::loop_isolation(false)]
    fn end_arguments(&mut self) -> (r: Result<Vec<Expr>, String>)
        requires
            old(self).wf(),
        ensures
            final(self).wf(),
            final(self).tokens == old(self).tokens,
            ({
                let t = old(self).toks();
                let i = old(self).current as int;
                match spec_args_loop(t, i) {
                    Ok(p) => r matches Ok(v) && view_expr_list(v@) == p.0
                        && final(self).current as int == p.1 && i < p.1 <= t.len(),
                    Err(m) => r matches Err(s) && s@ == m,
                }
            }),
        decreases self.toks().len() - self.current, 12int,
    {
        let ghost t = self.toks();
        let ghost i0 = self.current as int;
        let ghost tokens0 = self.tokens;
        let mut arguments: Vec<Expr> = Vec::new();
        proof {
            assert(view_expr_list(arguments@) =~= Seq::<ExprModel>::empty());
        }
        if self.match_token(TokenType::RightParen) {
            return Ok(arguments);
        }
        loop
            invariant
                self.wf(),
                self.tokens == tokens0,
                i0 <= self.current as int <= t.len(),
                spec_args_loop(t, i0) == spec_args_more(
                    t,
                    self.current as int,
                    view_expr_list(arguments@),
                ),
            decreases t.len() - self.current,
        {
            let e = match self.expression() {
                Ok(e) => e,
                Err(m) => {
                    return Err(m);
                },
            };
            let ghost pre = arguments@;
            arguments.push(e);
            proof {
                assert(arguments@.subrange(0, pre.len() as int) =~= pre);
                assert(view_expr_list(arguments@) == view_expr_list(pre).push(
                    arguments@.last()@,
                ));
            }
            if !self.match_token(TokenType::Comma) {
                let res = self.consume(TokenType::RightParen, "Expect ')' after arguments");
                match res {
                    Ok(_) => {
                        return Ok(arguments);
                    },
                    Err(m) => {
                        return Err(m);
                    },
                }
            }
        }
    }

    /// A call chain: a primary wrapped in zero or more argument lists.
    #[verifier::loop_isolation(false)]
    fn call(&mut self) -> (r: Result<Expr, String>)
        requires
            old(self).wf(),
        ensures
            final(self).wf(),
            final(self).tokens == old(self).tokens,
            ({
                let t = old(self).toks();
                let i = old(self).current as int;
                match spec_call(t, i) {
                    Ok(p) => r matches Ok(e) && e@ == p.0 && final(self).current as int == p.1 && i
                        < p.1 <= t.len(),
                    Err(m) => r matches Err(s) && s@ == m,
                }
            }),
        decreases self.toks().len() - self.current, 4int,
    {
        let ghost t = self.toks();
        let ghost i0 = self.current as int;
        let ghost tokens0 = self.tokens;
        let mut expr = match self.primary() {
            Ok(e) => e,
            Err(m) => {
                return Err(m);
            },
        };
        loop
            invariant
                self.wf(),
                self.tokens == tokens0,
                i0 < self.current as int <= t.len(),
                spec_call(t, i0) == spec_call_rest(t, expr@, self.current as int),
            decreases t.len() - self.current,
        {
            if !self.match_token(TokenType::LeftParen) {
                return Ok(expr);
            }
            let arguments = match self.end_arguments() {
                Ok(v) => v,
                Err(m) => {
                    return Err(m);
                },
            };
            expr = Expr::Call { callee: Box::new(expr), arguments };
        }
    }

    #[verifier::loop_isolation(false)]
    fn unary(&mut self) -> (r: Result<Expr, String>)
        requires
            old(self).wf(),
        ensures
            final(self).wf(),
            final(self).tokens == old(self).tokens,
            ({
                let t = old(self).toks();
                let i = old(self).current as int;
                match spec_unary(t, i) {
                    Ok(p) => r matches Ok(e) && e@ == p.0 && final(self).current as int == p.1 && i
                        < p.1 <= t.len(),
                    Err(m) => r matches Err(s) && s@ == m,
                }
            }),
        decreases self.toks().len() - self.current, 5int,
    {
        if self.match_token(TokenType::Bang) {
            let e = match self.unary() {
                Ok(e) => e,
                Err(m) => {
                    return Err(m);
                },
            };
            return Ok(Expr::Unary { op: UnaryOp::Not, expr: Box::new(e) });
        }
        if self.match_token(TokenType::Minus) {
            let e = match self.unary() {
                Ok(e) => e,
                Err(m) => {
                    return Err(m);
                },
            };
            return Ok(Expr::Unary { op: UnaryOp::Minus, expr: Box::new(e) });
        }
        self.call()
    }

    #[verifier::loop_isolation(false)]
    fn factor(&mut self) -> (r: Result<Expr, String>)
        requires
            old(self).wf(),
        ensures
            final(self).wf(),
            final(self).tokens == old(self).tokens,
            ({
                let t = old(self).toks();
                let i = old(self).current as int;
                match spec_factor(t, i) {
                    Ok(p) => r matches Ok(e) && e@ == p.0 && final(self).current as int == p.1 && i
                        < p.1 <= t.len(),
                    Err(m) => r matches Err(s) && s@ == m,
                }
            }),
        decreases self.toks().len() - self.current, 6int,
    {
        let ghost t = self.toks();
        let ghost i0 = self.current as int;
        let ghost tokens0 = self.tokens;
        let mut expr = match self.unary() {
            Ok(e) => e,
            Err(m) => {
                return Err(m);
            },
        };
        loop
            invariant
                self.wf(),
                self.tokens == tokens0,
                i0 < self.current as int <= t.len(),
                spec_factor(t, i0) == spec_factor_rest(t, expr@, self.current as int),
            decreases t.len() - self.current,
        {
            let op: Option<BinaryOp> = if self.match_token(TokenType::Slash) {
                Some(BinaryOp::Divide)
            } else if self.match_token(TokenType::Star) {
                Some(BinaryOp::Multiply)
            } else {
                None
            };
            match op {
                None => {
                    return Ok(expr);
                },
                Some(op) => {
                    let right = match self.unary() {
                        Ok(e) => e,
                        Err(m) => {
                            return Err(m);
                        },
                    };
                    expr = Expr::Binary { left: Box::new(expr), op, right: Box::new(right) };
                },
            }
        }
    }

    #[verifier::loop_isolation(false)]
    fn term(&mut self) -> (r: Result<Expr, String>)
        requires
            old(self).wf(),
        ensures
            final(self).wf(),
            final(self).tokens == old(self).tokens,
            ({
                let t = old(self).toks();
                let i = old(self).current as int;
                match spec_term(t, i) {
                    Ok(p) => r matches Ok(e) && e@ == p.0 && final(self).current as int == p.1 && i
                        < p.1 <= t.len(),
                    Err(m) => r matches Err(s) && s@ == m,
                }
            }),
        decreases self.toks().len() - self.current, 7int,
    {
        let ghost t = self.toks();
        let ghost i0 = self.current as int;
        let ghost tokens0 = self.tokens;
        let mut expr = match self.factor() {
            Ok(e) => e,
            Err(m) => {
                return Err(m);
            },
        };
        loop
            invariant
                self.wf(),
                self.tokens == tokens0,
                i0 < self.current as int <= t.len(),
                spec_term(t, i0) == spec_term_rest(t, expr@, self.current as int),
            decreases t.len() - self.current,
        {
            let op: Option<BinaryOp> = if self.match_token(TokenType::Minus) {
                Some(BinaryOp::Minus)
            } else if self.match_token(TokenType::Plus) {
                Some(BinaryOp::Plus)
            } else {
                None
            };
            match op {
                None => {
                    return Ok(expr);
                },
                Some(op) => {
                    let right = match self.factor() {
                        Ok(e) => e,
                        Err(m) => {
                            return Err(m);
                        },
                    };
                    expr = Expr::Binary { left: Box::new(expr), op, right: Box::new(right) };
                },
            }
        }
    }

    #[verifier::loop_isolation(false)]
    fn comparison(&mut self) -> (r: Result<Expr, String>)
        requires
            old(self).wf(),
        ensures
            final(self).wf(),
            final(self).tokens == old(self).tokens,
            ({
                let t = old(self).toks();
                let i = old(self).current as int;
                match spec_comparison(t, i) {
                    Ok(p) => r matches Ok(e) && e@ == p.0 && final(self).current as int == p.1 && i
                        < p.1 <= t.len(),
                    Err(m) => r matches Err(s) && s@ == m,
                }
            }),
        decreases self.toks().len() - self.current, 8int,
    {
        let ghost t = self.toks();
        let ghost i0 = self.current as int;
        let ghost tokens0 = self.tokens;
        let mut expr = match self.term() {
            Ok(e) => e,
            Err(m) => {
                return Err(m);
            },
        };
        loop
            invariant
                self.wf(),
                self.tokens == tokens0,
                i0 < self.current as int <= t.len(),
                spec_comparison(t, i0) == spec_comparison_rest(t, expr@, self.current as int),
            decreases t.len() - self.current,
        {
            let op: Option<BinaryOp> = if self.match_token(TokenType::Greater) {
                Some(BinaryOp::Greater)
            } else if self.match_token(TokenType::GreaterEqual) {
                Some(BinaryOp::GreaterEqual)
            } else if self.match_token(TokenType::Less) {
                Some(BinaryOp::Less)
            } else if self.match_token(TokenType::LessEqual) {
                Some(BinaryOp::LessEqual)
            } else {
                None
            };
            match op {
                None => {
                    return Ok(expr);
                },
                Some(op) => {
                    let right = match self.term() {
                        Ok(e) => e,
                        Err(m) => {
                            return Err(m);
                        },
                    };
                    expr = Expr::Binary { left: Box::new(expr), op, right: Box::new(right) };
                },
            }
        }
    }

    #[verifier::loop_isolation(false)]
    fn equality(&mut self) -> (r: Result<Expr, String>)
        requires
            old(self).wf(),
        ensures
            final(self).wf(),
            final(self).tokens == old(self).tokens,
            ({
                let t = old(self).toks();
                let i = old(self).current as int;
                match spec_equality(t, i) {
                    Ok(p) => r matches Ok(e) && e@ == p.0 && final(self).current as int == p.1 && i
                        < p.1 <= t.len(),
                    Err(m) => r matches Err(s) && s@ == m,
                }
            }),
        decreases self.toks().len() - self.current, 9int,
    {
        let ghost t = self.toks();
        let ghost i0 = self.current as int;
        let ghost tokens0 = self.tokens;
        let mut expr = match self.comparison() {
            Ok(e) => e,
            Err(m) => {
                return Err(m);
            },
        };
        loop
            invariant
                self.wf(),
                self.tokens == tokens0,
                i0 < self.current as int <= t.len(),
                spec_equality(t, i0) == spec_equality_rest(t, expr@, self.current as int),
            decreases t.len() - self.current,
        {
            let op: Option<BinaryOp> = if self.match_token(TokenType::BangEqual) {
                Some(BinaryOp::NotEqual)
            } else if self.match_token(TokenType::EqualEqual) {
                Some(BinaryOp::EqualEqual)
            } else {
                None
            };
            match op {
                None => {
                    return Ok(expr);
                },
                Some(op) => {
                    let right = match self.comparison() {
                        Ok(e) => e,
                        Err(m) => {
                            return Err(m);
                        },
                    };
                    expr = Expr::Binary { left: Box::new(expr), op, right: Box::new(right) };
                },
            }
        }
    }

    fn expression(&mut self) -> (r: Result<Expr, String>)
        requires
            old(self).wf(),
        ensures
            final(self).wf(),
            final(self).tokens == old(self).tokens,
            ({
                let t = old(self).toks();
                let i = old(self).current as int;
                match spec_expression(t, i) {
                    Ok(p) => r matches Ok(e) && e@ == p.0 && final(self).current as int == p.1 && i
                        < p.1 <= t.len(),
                    Err(m) => r matches Err(s) && s@ == m,
                }
            }),
        decreases self.toks().len() - self.current, 10int,
    {
        self.equality()
    }
}

} // verus!

verus! {

impl Parser {
    #[verifier::loop_isolation(false)]
    fn print_statement(&mut self) -> (r: Result<Statement, String>)
        requires
            old(self).wf(),
        ensures
            final(self).wf(),
            final(self).tokens == old(self).tokens,
            ({
                let t = old(self).toks();
                let i = old(self).current as int;
                match spec_print_statement(t, i) {
                    Ok(p) => r matches Ok(s) && s@ == p.0 && final(self).current as int == p.1 && i
                        < p.1 <= t.len(),
                    Err(m) => r matches Err(s) && s@ == m,
                }
            }),
        decreases self.toks().len() - self.current, 19int,
    {
        let value = match self.expression() {
            Ok(e) => e,
            Err(m) => {
                return Err(m);
            },
        };
        match self.consume(TokenType::Semicolon, "Expect ';' after value.") {
            Ok(_) => Ok(Statement::Print(value)),
            Err(m) => Err(m),
        }
    }

    #[verifier::loop_isolation(false)]
    fn expression_statement(&mut self) -> (r: Result<Statement, String>)
        requires
            old(self).wf(),
        ensures
            final(self).wf(),
            final(self).tokens == old(self).tokens,
            ({
                let t = old(self).toks();
                let i = old(self).current as int;
                match spec_expression_statement(t, i) {
                    Ok(p) => r matches Ok(s) && s@ == p.0 && final(self).current as int == p.1 && i
                        < p.1 <= t.len(),
                    Err(m) => r matches Err(s) && s@ == m,
                }
            }),
        decreases self.toks().len() - self.current, 19int,
    {
        let value = match self.expression() {
            Ok(e) => e,
            Err(m) => {
                return Err(m);
            },
        };
        match self.consume(TokenType::Semicolon, "Expect ';' after value.") {
            Ok(_) => Ok(Statement::Expression(value)),
            Err(m) => Err(m),
        }
    }

    #[verifier::loop_isolation(false)]
    fn var_declaration(&mut self) -> (r: Result<Statement, String>)
        requires
            old(self).wf(),
        ensures
            final(self).wf(),
            final(self).tokens == old(self).tokens,
            ({
                let t = old(self).toks();
                let i = old(self).current as int;
                match spec_var_declaration(t, i) {
                    Ok(p) => r matches Ok(s) && s@ == p.0 && final(self).current as int == p.1 && i
                        < p.1 <= t.len(),
                    Err(m) => r matches Err(s) && s@ == m,
                }
            }),
        decreases self.toks().len() - self.current, 19int,
    {
        let name = match self.consume(
            TokenType::Identifier,
            "'let' assignment must be provided a name",
        ) {
            Ok(tok) => tok,
            Err(m) => {
                return Err(m);
            },
        };
        if self.match_token(TokenType::Semicolon) {
            return Ok(Statement::VarDec { name: name.lexeme, initializer: None });
        }
        match self.consume(TokenType::Equal, "'let' assignment must be followed by '='") {
            Ok(_) => {},
            Err(m) => {
                return Err(m);
            },
        }
        let expr = match self.expression() {
            Ok(e) => e,
            Err(m) => {
                return Err(m);
            },
        };
        match self.consume(TokenType::Semicolon, "Delaration must end with semicolon") {
            Ok(_) => Ok(Statement::VarDec { name: name.lexeme, initializer: Some(expr) }),
            Err(m) => Err(m),
        }
    }

    /// The statements of a block, up to (but not including) its `}`.
    #[verifier::loop_isolation(false)]
    fn block(&mut self) -> (r: Result<Vec<Statement>, String>)
        requires
            old(self).wf(),
        ensures
            final(self).wf(),
            final(self).tokens == old(self).tokens,
            ({
                let t = old(self).toks();
                let i = old(self).current as int;
                match spec_block_rest(t, i, Seq::empty()) {
                    Ok(p) => r matches Ok(v) && view_stmt_list(v@) == p.0
                        && final(self).current as int == p.1 && i <= p.1 <= t.len(),
                    Err(m) => r matches Err(s) && s@ == m,
                }
            }),
        decreases self.toks().len() - self.current, 21int,
    {
        let ghost t = self.toks();
        let ghost i0 = self.current as int;
        let ghost tokens0 = self.tokens;
        let mut statements: Vec<Statement> = Vec::new();
        proof {
            assert(view_stmt_list(statements@) =~= Seq::<StatementModel>::empty());
        }
        loop
            invariant
                self.wf(),
                self.tokens == tokens0,
                i0 <= self.current as int <= t.len(),
                spec_block_rest(t, i0, Seq::empty()) == spec_block_rest(
                    t,
                    self.current as int,
                    view_stmt_list(statements@),
                ),
            decreases t.len() - self.current,
        {
            let done = self.is_at_end() || self.check(TokenType::RightBrace);
            if done {
                return Ok(statements);
            }
            let stmt = match self.statement() {
                Ok(s) => s,
                Err(m) => {
                    return Err(m);
                },
            };
            let ghost pre = statements@;
            statements.push(stmt);
            proof {
                assert(statements@.subrange(0, pre.len() as int) =~= pre);
                assert(view_stmt_list(statements@) == view_stmt_list(pre).push(
                    statements@.last()@,
                ));
            }
        }
    }

    #[verifier::loop_isolation(false)]
    fn block_statement(&mut self) -> (r: Result<Statement, String>)
        requires
            old(self).wf(),
        ensures
            final(self).wf(),
            final(self).tokens == old(self).tokens,
            ({
                let t = old(self).toks();
                let i = old(self).current as int;
                match spec_block_statement(t, i) {
                    Ok(p) => r matches Ok(s) && s@ == p.0 && final(self).current as int == p.1 && i
                        < p.1 <= t.len(),
                    Err(m) => r matches Err(s) && s@ == m,
                }
            }),
        decreases self.toks().len() - self.current, 22int,
    {
        let statements = match self.block() {
            Ok(v) => v,
            Err(m) => {
                return Err(m);
            },
        };
        match self.consume(TokenType::RightBrace, "Expect '}' after block") {
            Ok(_) => Ok(Statement::Block(statements)),
            Err(m) => Err(m),
        }
    }

    #[verifier::loop_isolation(false)]
    #[verifier::rlimit(100)]
    fn if_statement(&mut self) -> (r: Result<Statement, String>)
        requires
            old(self).wf(),
        ensures
            final(self).wf(),
            final(self).tokens == old(self).tokens,
            ({
                let t = old(self).toks();
                let i = old(self).current as int;
                match spec_if_statement(t, i) {
                    Ok(p) => r matches Ok(s) && s@ == p.0 && final(self).current as int == p.1 && i
                        < p.1 <= t.len(),
                    Err(m) => r matches Err(s) && s@ == m,
                }
            }),
        decreases self.toks().len() - self.current, 19int,
    {
        match self.consume(TokenType::LeftParen, "Expect '(' after 'if'") {
            Ok(_) => {},
            Err(m) => {
                return Err(m);
            },
        }
        let condition = match self.expression() {
            Ok(e) => e,
            Err(m) => {
                return Err(m);
            },
        };
        match self.consume(TokenType::RightParen, "Expect ')' after condition") {
            Ok(_) => {},
            Err(m) => {
                return Err(m);
            },
        }
        let then_branch = match self.statement() {
            Ok(s) => Box::new(s),
            Err(m) => {
                return Err(m);
            },
        };
        if self.match_token(TokenType::Else) {
            let else_branch = match self.statement() {
                Ok(s) => Some(Box::new(s)),
                Err(m) => {
                    return Err(m);
                },
            };
            Ok(Statement::If { condition, then_branch, else_branch })
        } else {
            Ok(Statement::If { condition, then_branch, else_branch: None })
        }
    }

    #[verifier::loop_isolation(false)]
    fn fn_statement(&mut self) -> (r: Result<Statement, String>)
        requires
            old(self).wf(),
        ensures
            final(self).wf(),
            final(self).tokens == old(self).tokens,
            ({
                let t = old(self).toks();
                let i = old(self).current as int;
                match spec_fn_statement(t, i) {
                    Ok(p) => r matches Ok(s) && s@ == p.0 && final(self).current as int == p.1 && i
                        < p.1 <= t.len(),
                    Err(m) => r matches Err(s) && s@ == m,
                }
            }),
        decreases self.toks().len() - self.current, 19int,
    {
        let ghost t = self.toks();
        let ghost i0 = self.current as int;
        let ghost tokens0 = self.tokens;
        let name = match self.consume(TokenType::Identifier, "Expect function name") {
            Ok(tok) => tok,
            Err(m) => {
                return Err(m);
            },
        };
        match self.consume(TokenType::LeftParen, "Expect '(' after function name") {
            Ok(_) => {},
            Err(m) => {
                return Err(m);
            },
        }
        let ghost ip = self.current as int;
        let mut parameters: Vec<String> = Vec::new();
        proof {
            assert(parameters.deep_view() =~= Seq::<Seq<char>>::empty());
        }
        loop
            invariant
                self.wf(),
                self.tokens == tokens0,
                ip <= self.current as int <= t.len(),
                spec_params_loop(t, ip, Seq::empty()) == spec_params_loop(
                    t,
                    self.current as int,
                    parameters.deep_view(),
                ),
            decreases t.len() - self.current,
        {
            let done = self.is_at_end() || self.check(TokenType::RightParen);
            if done {
                break;
            }
            let parameter = match self.consume(TokenType::Identifier, "Expect parameter name") {
                Ok(tok) => tok,
                Err(m) => {
                    return Err(m);
                },
            };
            let ghost pre = parameters.deep_view();
            parameters.push(parameter.lexeme);
            proof {
                assert(parameters.deep_view() =~= pre.push(parameters@.last()@));
            }
            if !self.match_token(TokenType::Comma) {
                break;
            }
        }
        match self.consume(TokenType::RightParen, "Expect ')' after parameters") {
            Ok(_) => {},
            Err(m) => {
                return Err(m);
            },
        }
        match self.consume(TokenType::LeftBrace, "Expect '{' before function body") {
            Ok(_) => {},
            Err(m) => {
                return Err(m);
            },
        }
        let body = match self.block_statement() {
            Ok(s) => Box::new(s),
            Err(m) => {
                return Err(m);
            },
        };
        Ok(Statement::Fn { name: name.lexeme, parameters, body })
    }

    #[verifier::loop_isolation(false)]
    fn return_statement(&mut self) -> (r: Result<Statement, String>)
        requires
            old(self).wf(),
        ensures
            final(self).wf(),
            final(self).tokens == old(self).tokens,
            ({
                let t = old(self).toks();
                let i = old(self).current as int;
                match spec_return_statement(t, i) {
                    Ok(p) => r matches Ok(s) && s@ == p.0 && final(self).current as int == p.1 && i
                        < p.1 <= t.len(),
                    Err(m) => r matches Err(s) && s@ == m,
                }
            }),
        decreases self.toks().len() - self.current, 19int,
    {
        if self.match_token(TokenType::Semicolon) {
            return Ok(Statement::Return(None));
        }
        let expr = match self.expression() {
            Ok(e) => e,
            Err(m) => {
                return Err(m);
            },
        };
        match self.consume(TokenType::Semicolon, "Expect ';' after return value") {
            Ok(_) => Ok(Statement::Return(Some(expr))),
            Err(m) => Err(m),
        }
    }

    #[verifier::loop_isolation(false)]
    fn statement(&mut self) -> (r: Result<Statement, String>)
        requires
            old(self).wf(),
        ensures
            final(self).wf(),
            final(self).tokens == old(self).tokens,
            ({
                let t = old(self).toks();
                let i = old(self).current as int;
                match spec_statement(t, i) {
                    Ok(p) => r matches Ok(s) && s@ == p.0 && final(self).current as int == p.1 && i
                        < p.1 <= t.len(),
                    Err(m) => r matches Err(s) && s@ == m,
                }
            }),
        decreases self.toks().len() - self.current, 20int,
    {
        if self.match_token(TokenType::Print) {
            return self.print_statement();
        } else if self.match_token(TokenType::Let) {
            return self.var_declaration();
        } else if self.match_token(TokenType::LeftBrace) {
            return self.block_statement();
        } else if self.match_token(TokenType::If) {
            return self.if_statement();
        } else if self.match_token(TokenType::Fn) {
            return self.fn_statement();
        } else if self.match_token(TokenType::Return) {
            return self.return_statement();
        }
        self.expression_statement()
    }

    /// Parse statements until the tokens run out: a whole program.
    #[verifier::loop_isolation(false)]
    pub fn parse_stmt(&mut self) -> (r: Result<Vec<Statement>, String>)
        requires
            old(self).wf(),
        ensures
            ({
                let t = old(self).toks();
                let i = old(self).current as int;
                match spec_program(t, i, Seq::empty()) {
                    Ok(ss) => r matches Ok(v) && view_stmt_list(v@) == ss,
                    Err(m) => r matches Err(s) && s@ == m,
                }
            }),
    {
        let ghost t = self.toks();
        let ghost i0 = self.current as int;
        let ghost tokens0 = self.tokens;
        let mut statements: Vec<Statement> = Vec::new();
        proof {
            assert(view_stmt_list(statements@) =~= Seq::<StatementModel>::empty());
        }
        loop
            invariant
                self.wf(),
                self.tokens == tokens0,
                i0 <= self.current as int <= t.len(),
                spec_program(t, i0, Seq::empty()) == spec_program(
                    t,
                    self.current as int,
                    view_stmt_list(statements@),
                ),
            decreases t.len() - self.current,
        {
            if self.is_at_end() {
                return Ok(statements);
            }
            let stmt = match self.statement() {
                Ok(s) => s,
                Err(m) => {
                    return Err(m);
                },
            };
            let ghost pre = statements@;
            statements.push(stmt);
            proof {
                assert(statements@.subrange(0, pre.len() as int) =~= pre);
                assert(view_stmt_list(statements@) == view_stmt_list(pre).push(
                    statements@.last()@,
                ));
            }
        }
    }
}

/// Parse one expression from the tokens. What follows it is ignored.
pub fn parse(tokens: Vec<Token>) -> (r: Result<Expr, String>)
    ensures
        match spec_expression(tokens.deep_view(), 0) {
            Ok(p) => r matches Ok(e) && e@ == p.0,
            Err(m) => r matches Err(s) && s@ == m,
        },
{
    let mut parser = Parser::new(tokens);
    parser.expression()
}

/// Parse a whole program: statements until the tokens run out.
pub fn parse_stmt(tokens: Vec<Token>) -> (r: Result<Vec<Statement>, String>)
    ensures
        match spec_parse_program(tokens.deep_view()) {
            Ok(ss) => r matches Ok(v) && view_stmt_list(v@) == ss,
            Err(m) => r matches Err(s) && s@ == m,
        },
{
    let mut parser = Parser::new(tokens);
    parser.parse_stmt()
}

} // verus!

verus! {

// --- Round-trip of parsing and printing ------------------------------------
//
// Rendering a parsed expression back to tokens reproduces exactly the
// tokens the parser consumed, kind for kind and payload for payload. The
// statement compares tokens through `token_core`, which blanks what no
// printer could know again: the line numbers, and the lexemes of all but
// identifier tokens.

/// A structural token, as printing an operator or a keyword would emit it.
pub open spec fn op_token(kind: TokenType) -> TokenModel {
    TokenModel { token_type: kind, lexeme: Seq::empty(), literal: None, line: 1 }
}

/// The kind of the token a binary operator prints to.
pub open spec fn bin_op_kind(op: BinaryOp) -> TokenType {
    match op {
        BinaryOp::Multiply => TokenType::Star,
        BinaryOp::Divide => TokenType::Slash,
        BinaryOp::Plus => TokenType::Plus,
        BinaryOp::Minus => TokenType::Minus,
        BinaryOp::Greater => TokenType::Greater,
        BinaryOp::GreaterEqual => TokenType::GreaterEqual,
        BinaryOp::Less => TokenType::Less,
        BinaryOp::LessEqual => TokenType::LessEqual,
        BinaryOp::NotEqual => TokenType::BangEqual,
        BinaryOp::EqualEqual => TokenType::EqualEqual,
        BinaryOp::And => TokenType::And,
        BinaryOp::Or => TokenType::Or,
    }
}

/// What a token keeps under printing: its kind, a literal payload where the
/// kind carries one, and the lexeme of an identifier.
pub open spec fn token_core(tm: TokenModel) -> TokenModel {
    TokenModel {
        token_type: tm.token_type,
        lexeme: if tm.token_type == TokenType::Identifier {
            tm.lexeme
        } else {
            Seq::empty()
        },
        literal: if tm.token_type == TokenType::Number || tm.token_type == TokenType::String {
            tm.literal
        } else {
            None
        },
        line: 1,
    }
}

pub open spec fn cores(ts: Seq<TokenModel>) -> Seq<TokenModel> {
    Seq::new(ts.len(), |k: int| token_core(ts[k]))
}

/// The tokens an expression renders to.
pub open spec fn expr_tokens(e: ExprModel) -> Seq<TokenModel>
    decreases e, 1int,
{
    match e {
        ExprModel::Binary { left, op, right } => expr_tokens(*left) + seq![
            op_token(bin_op_kind(op)),
        ] + expr_tokens(*right),
        ExprModel::Unary { op, expr } => seq![
            op_token(
                match op {
                    UnaryOp::Not => TokenType::Bang,
                    UnaryOp::Minus => TokenType::Minus,
                },
            ),
        ] + expr_tokens(*expr),
        ExprModel::Literal(l) => match l {
            LiteralModel::Nil => seq![op_token(TokenType::Nil)],
            LiteralModel::Bool(b) => seq![
                op_token(
                    if b {
                        TokenType::True
                    } else {
                        TokenType::False
                    },
                ),
            ],
            LiteralModel::Number(b) => seq![
                TokenModel {
                    token_type: TokenType::Number,
                    lexeme: Seq::empty(),
                    literal: Some(crate::token::LiteralModel::Number(b)),
                    line: 1,
                },
            ],
            LiteralModel::String(s) => seq![
                TokenModel {
                    token_type: TokenType::String,
                    lexeme: Seq::empty(),
                    literal: Some(crate::token::LiteralModel::String(s)),
                    line: 1,
                },
            ],
            LiteralModel::Var(tok) => seq![tok],
        },
        ExprModel::Grouping(inner) => seq![op_token(TokenType::LeftParen)] + expr_tokens(*inner)
            + seq![op_token(TokenType::RightParen)],
        ExprModel::Assign { token, value } => seq![token, op_token(TokenType::Equal)] + expr_tokens(
            *value,
        ),
        ExprModel::Call { callee, arguments } => expr_tokens(*callee) + seq![
            op_token(TokenType::LeftParen),
        ] + args_tokens(arguments) + seq![op_token(TokenType::RightParen)],
    }
}

/// The tokens of an argument list: the arguments separated by commas.
pub open spec fn args_tokens(args: Seq<ExprModel>) -> Seq<TokenModel>
    decreases args, 0int,
{
    if args.len() == 0 {
        Seq::empty()
    } else if args.len() == 1 {
        expr_tokens(args[0])
    } else {
        expr_tokens(args[0]) + seq![op_token(TokenType::Comma)] + args_tokens(
            args.subrange(1, args.len() as int),
        )
    }
}

proof fn lemma_cores_concat(a: Seq<TokenModel>, b: Seq<TokenModel>)
    ensures
        cores(a + b) == cores(a) + cores(b),
{
    assert(cores(a + b) =~= cores(a) + cores(b));
}

} // verus!

verus! {

#[verifier::rlimit(100)]
proof fn lemma_pt_primary(t: Seq<TokenModel>, i: int)
    requires
        spec_primary(t, i) is Ok,
    ensures
        ({
            let (e, j) = spec_primary(t, i)->Ok_0;
            &&& 0 <= i < j <= t.len()
            &&& cores(t.subrange(i, j)) == cores(expr_tokens(e))
        }),
    decreases t.len() - i, 3int,
{
    let (e, j) = spec_primary(t, i)->Ok_0;
    if t[i].token_type == TokenType::LeftParen {
        lemma_pt_expression(t, i + 1);
        let (x, m) = spec_expression(t, i + 1)->Ok_0;
        assert(t.subrange(i, j) =~= seq![t[i]] + t.subrange(i + 1, m) + seq![t[m]]);
        lemma_cores_concat(seq![t[i]] + t.subrange(i + 1, m), seq![t[m]]);
        lemma_cores_concat(seq![t[i]], t.subrange(i + 1, m));
        lemma_cores_concat(
            seq![op_token(TokenType::LeftParen)] + expr_tokens(x),
            seq![op_token(TokenType::RightParen)],
        );
        lemma_cores_concat(seq![op_token(TokenType::LeftParen)], expr_tokens(x));
        assert(cores(seq![t[i]]) =~= cores(seq![op_token(TokenType::LeftParen)]));
        assert(cores(seq![t[m]]) =~= cores(seq![op_token(TokenType::RightParen)]));
        assert(cores(t.subrange(i, j)) == cores(expr_tokens(e)));
    } else {
        assert(t.subrange(i, j) =~= seq![t[i]]);
        assert(cores(t.subrange(i, j)) =~= cores(expr_tokens(e)));
    }
}

#[verifier::rlimit(100)]
proof fn lemma_pt_args_more(t: Seq<TokenModel>, i: int, acc: Seq<ExprModel>)
    requires
        spec_args_more(t, i, acc) is Ok,
    ensures
        ({
            let (vs, j) = spec_args_more(t, i, acc)->Ok_0;
            &&& 0 <= i < j <= t.len()
            &&& vs.len() > acc.len()
            &&& vs.subrange(0, acc.len() as int) == acc
            &&& cores(t.subrange(i, j)) == cores(
                args_tokens(vs.subrange(acc.len() as int, vs.len() as int)) + seq![
                    op_token(TokenType::RightParen),
                ],
            )
        }),
    decreases t.len() - i, 11int,
{
    let (vs, j) = spec_args_more(t, i, acc)->Ok_0;
    lemma_pt_expression(t, i);
    let (e0, j0) = spec_expression(t, i)->Ok_0;
    let acc2 = acc.push(e0);
    if j0 < t.len() && t[j0].token_type == TokenType::Comma {
        lemma_pt_args_more(t, j0 + 1, acc2);
        let rest = vs.subrange(acc2.len() as int, vs.len() as int);
        let newlist = vs.subrange(acc.len() as int, vs.len() as int);
        assert(vs.subrange(0, acc2.len() as int) == acc2);
        assert(vs[acc.len() as int] == vs.subrange(0, acc2.len() as int)[acc.len() as int]);
        assert(newlist[0] == vs[acc.len() as int]);
        assert(newlist[0] == e0);
        assert(newlist.subrange(1, newlist.len() as int) =~= rest);
        assert(newlist.len() >= 2);
        assert(args_tokens(newlist) == expr_tokens(e0) + seq![op_token(TokenType::Comma)]
            + args_tokens(rest));
        assert(t.subrange(i, j) =~= t.subrange(i, j0) + seq![t[j0]] + t.subrange(j0 + 1, j));
        lemma_cores_concat(t.subrange(i, j0) + seq![t[j0]], t.subrange(j0 + 1, j));
        lemma_cores_concat(t.subrange(i, j0), seq![t[j0]]);
        lemma_cores_concat(
            expr_tokens(e0) + seq![op_token(TokenType::Comma)],
            args_tokens(rest) + seq![op_token(TokenType::RightParen)],
        );
        lemma_cores_concat(expr_tokens(e0), seq![op_token(TokenType::Comma)]);
        lemma_cores_concat(args_tokens(newlist), seq![op_token(TokenType::RightParen)]);
        lemma_cores_concat(
            expr_tokens(e0) + seq![op_token(TokenType::Comma)],
            args_tokens(rest),
        );
        assert(cores(seq![t[j0]]) =~= cores(seq![op_token(TokenType::Comma)]));
        assert(args_tokens(newlist) + seq![op_token(TokenType::RightParen)] == (expr_tokens(e0)
            + seq![op_token(TokenType::Comma)]) + (args_tokens(rest) + seq![
            op_token(TokenType::RightParen),
        ]));
        assert(vs.subrange(0, acc.len() as int) =~= acc);
    } else {
        // a `)` must close the list here
        assert(vs == acc2);
        assert(j == j0 + 1);
        let newlist = vs.subrange(acc.len() as int, vs.len() as int);
        assert(newlist =~= seq![e0]);
        assert(args_tokens(newlist) == expr_tokens(e0));
        assert(t.subrange(i, j) =~= t.subrange(i, j0) + seq![t[j0]]);
        lemma_cores_concat(t.subrange(i, j0), seq![t[j0]]);
        lemma_cores_concat(expr_tokens(e0), seq![op_token(TokenType::RightParen)]);
        assert(cores(seq![t[j0]]) =~= cores(seq![op_token(TokenType::RightParen)]));
        assert(vs.subrange(0, acc.len() as int) =~= acc);
    }
}

proof fn lemma_pt_args_loop(t: Seq<TokenModel>, i: int)
    requires
        0 <= i,
        spec_args_loop(t, i) is Ok,
    ensures
        ({
            let (vs, j) = spec_args_loop(t, i)->Ok_0;
            &&& 0 <= i < j <= t.len()
            &&& cores(t.subrange(i, j)) == cores(
                args_tokens(vs) + seq![op_token(TokenType::RightParen)],
            )
        }),
    decreases t.len() - i, 12int,
{
    let (vs, j) = spec_args_loop(t, i)->Ok_0;
    if i < t.len() && t[i].token_type == TokenType::RightParen {
        assert(t.subrange(i, j) =~= seq![t[i]]);
        assert(vs =~= Seq::<ExprModel>::empty());
        assert(args_tokens(vs) =~= Seq::<TokenModel>::empty());
        assert(args_tokens(vs) + seq![op_token(TokenType::RightParen)] =~= seq![
            op_token(TokenType::RightParen),
        ]);
        assert(cores(t.subrange(i, j)) =~= cores(
            args_tokens(vs) + seq![op_token(TokenType::RightParen)],
        ));
    } else {
        lemma_pt_args_more(t, i, Seq::empty());
        assert(vs.subrange(0, vs.len() as int) =~= vs);
    }
}

#[verifier::rlimit(100)]
proof fn lemma_pt_call_rest(t: Seq<TokenModel>, e0: ExprModel, j: int)
    requires
        spec_call_rest(t, e0, j) is Ok,
        0 <= j <= t.len(),
    ensures
        ({
            let (e, k) = spec_call_rest(t, e0, j)->Ok_0;
            &&& j <= k <= t.len()
            &&& cores(expr_tokens(e)) == cores(expr_tokens(e0)) + cores(t.subrange(j, k))
        }),
    decreases t.len() - j, 13int,
{
    let (e, k) = spec_call_rest(t, e0, j)->Ok_0;
    if j < t.len() && t[j].token_type == TokenType::LeftParen {
        lemma_pt_args_loop(t, j + 1);
        let (args, m) = spec_args_loop(t, j + 1)->Ok_0;
        let acc2 = ExprModel::Call { callee: Box::new(e0), arguments: args };
        lemma_pt_call_rest(t, acc2, m);
        assert(t.subrange(j, k) =~= seq![t[j]] + t.subrange(j + 1, m) + t.subrange(m, k));
        lemma_cores_concat(seq![t[j]] + t.subrange(j + 1, m), t.subrange(m, k));
        lemma_cores_concat(seq![t[j]], t.subrange(j + 1, m));
        assert(cores(seq![t[j]]) =~= cores(seq![op_token(TokenType::LeftParen)]));
        // the rendering of the wrapped callee
        assert(expr_tokens(acc2) == expr_tokens(e0) + seq![op_token(TokenType::LeftParen)]
            + args_tokens(args) + seq![op_token(TokenType::RightParen)]);
        lemma_cores_concat(
            expr_tokens(e0) + seq![op_token(TokenType::LeftParen)] + args_tokens(args),
            seq![op_token(TokenType::RightParen)],
        );
        lemma_cores_concat(
            expr_tokens(e0) + seq![op_token(TokenType::LeftParen)],
            args_tokens(args),
        );
        lemma_cores_concat(expr_tokens(e0), seq![op_token(TokenType::LeftParen)]);
        lemma_cores_concat(args_tokens(args), seq![op_token(TokenType::RightParen)]);
        assert(cores(expr_tokens(e)) == cores(expr_tokens(e0)) + cores(t.subrange(j, k)));
    } else {
        assert(t.subrange(j, j) =~= Seq::<TokenModel>::empty());
        assert(cores(expr_tokens(e0)) + cores(t.subrange(j, j)) =~= cores(expr_tokens(e0)));
    }
}

proof fn lemma_pt_call(t: Seq<TokenModel>, i: int)
    requires
        spec_call(t, i) is Ok,
    ensures
        ({
            let (e, j) = spec_call(t, i)->Ok_0;
            &&& 0 <= i < j <= t.len()
            &&& cores(t.subrange(i, j)) == cores(expr_tokens(e))
        }),
    decreases t.len() - i, 4int,
{
    let (e, j) = spec_call(t, i)->Ok_0;
    lemma_pt_primary(t, i);
    let (p, jp) = spec_primary(t, i)->Ok_0;
    lemma_pt_call_rest(t, p, jp);
    assert(t.subrange(i, j) =~= t.subrange(i, jp) + t.subrange(jp, j));
    lemma_cores_concat(t.subrange(i, jp), t.subrange(jp, j));
}

proof fn lemma_pt_unary(t: Seq<TokenModel>, i: int)
    requires
        spec_unary(t, i) is Ok,
    ensures
        ({
            let (e, j) = spec_unary(t, i)->Ok_0;
            &&& 0 <= i < j <= t.len()
            &&& cores(t.subrange(i, j)) == cores(expr_tokens(e))
        }),
    decreases t.len() - i, 5int,
{
    let (e, j) = spec_unary(t, i)->Ok_0;
    if 0 <= i < t.len() && (t[i].token_type == TokenType::Bang || t[i].token_type
        == TokenType::Minus) {
        lemma_pt_unary(t, i + 1);
        let (x, m) = spec_unary(t, i + 1)->Ok_0;
        assert(t.subrange(i, j) =~= seq![t[i]] + t.subrange(i + 1, j));
        lemma_cores_concat(seq![t[i]], t.subrange(i + 1, j));
        let kind = if t[i].token_type == TokenType::Bang {
            TokenType::Bang
        } else {
            TokenType::Minus
        };
        assert(cores(seq![t[i]]) =~= cores(seq![op_token(kind)]));
        lemma_cores_concat(seq![op_token(kind)], expr_tokens(x));
    } else {
        lemma_pt_call(t, i);
    }
}

} // verus!

verus! {

#[verifier::rlimit(100)]
proof fn lemma_pt_factor_rest(t: Seq<TokenModel>, e0: ExprModel, j: int)
    requires
        spec_factor_rest(t, e0, j) is Ok,
        0 <= j <= t.len(),
    ensures
        ({
            let (e, k) = spec_factor_rest(t, e0, j)->Ok_0;
            &&& j <= k <= t.len()
            &&& cores(expr_tokens(e)) == cores(expr_tokens(e0)) + cores(t.subrange(j, k))
        }),
    decreases t.len() - j, 13int,
{
    let (e, k) = spec_factor_rest(t, e0, j)->Ok_0;
    if j < t.len() && (t[j].token_type == TokenType::Slash || t[j].token_type == TokenType::Star) {
        let op = if t[j].token_type == TokenType::Slash {
            BinaryOp::Divide
        } else {
            BinaryOp::Multiply
        };
        lemma_pt_unary(t, j + 1);
        let (r, m) = spec_unary(t, j + 1)->Ok_0;
        let acc2 = ExprModel::Binary { left: Box::new(e0), op, right: Box::new(r) };
        lemma_pt_factor_rest(t, acc2, m);
        assert(t.subrange(j, k) =~= seq![t[j]] + t.subrange(j + 1, m) + t.subrange(m, k));
        lemma_cores_concat(seq![t[j]] + t.subrange(j + 1, m), t.subrange(m, k));
        lemma_cores_concat(seq![t[j]], t.subrange(j + 1, m));
        assert(cores(seq![t[j]]) =~= cores(seq![op_token(bin_op_kind(op))]));
        assert(expr_tokens(acc2) == expr_tokens(e0) + seq![op_token(bin_op_kind(op))]
            + expr_tokens(r));
        lemma_cores_concat(expr_tokens(e0) + seq![op_token(bin_op_kind(op))], expr_tokens(r));
        lemma_cores_concat(expr_tokens(e0), seq![op_token(bin_op_kind(op))]);
        assert(cores(expr_tokens(e)) == cores(expr_tokens(e0)) + cores(t.subrange(j, k)));
    } else {
        assert(t.subrange(j, j) =~= Seq::<TokenModel>::empty());
        assert(cores(expr_tokens(e0)) + cores(t.subrange(j, j)) =~= cores(expr_tokens(e0)));
    }
}

#[verifier::rlimit(100)]
proof fn lemma_pt_factor(t: Seq<TokenModel>, i: int)
    requires
        spec_factor(t, i) is Ok,
    ensures
        ({
            let (e, j) = spec_factor(t, i)->Ok_0;
            &&& 0 <= i < j <= t.len()
            &&& cores(t.subrange(i, j)) == cores(expr_tokens(e))
        }),
    decreases t.len() - i, 6int,
{
    let (e, j) = spec_factor(t, i)->Ok_0;
    lemma_pt_unary(t, i);
    let (p, jp) = spec_unary(t, i)->Ok_0;
    lemma_pt_factor_rest(t, p, jp);
    assert(t.subrange(i, j) =~= t.subrange(i, jp) + t.subrange(jp, j));
    lemma_cores_concat(t.subrange(i, jp), t.subrange(jp, j));
}

#[verifier::rlimit(100)]
proof fn lemma_pt_term_rest(t: Seq<TokenModel>, e0: ExprModel, j: int)
    requires
        spec_term_rest(t, e0, j) is Ok,
        0 <= j <= t.len(),
    ensures
        ({
            let (e, k) = spec_term_rest(t, e0, j)->Ok_0;
            &&& j <= k <= t.len()
            &&& cores(expr_tokens(e)) == cores(expr_tokens(e0)) + cores(t.subrange(j, k))
        }),
    decreases t.len() - j, 13int,
{
    let (e, k) = spec_term_rest(t, e0, j)->Ok_0;
    if j < t.len() && (t[j].token_type == TokenType::Minus || t[j].token_type == TokenType::Plus) {
        let op = if t[j].token_type == TokenType::Minus {
            BinaryOp::Minus
        } else {
            BinaryOp::Plus
        };
        lemma_pt_factor(t, j + 1);
        let (r, m) = spec_factor(t, j + 1)->Ok_0;
        let acc2 = ExprModel::Binary { left: Box::new(e0), op, right: Box::new(r) };
        lemma_pt_term_rest(t, acc2, m);
        assert(t.subrange(j, k) =~= seq![t[j]] + t.subrange(j + 1, m) + t.subrange(m, k));
        lemma_cores_concat(seq![t[j]] + t.subrange(j + 1, m), t.subrange(m, k));
        lemma_cores_concat(seq![t[j]], t.subrange(j + 1, m));
        assert(cores(seq![t[j]]) =~= cores(seq![op_token(bin_op_kind(op))]));
        assert(expr_tokens(acc2) == expr_tokens(e0) + seq![op_token(bin_op_kind(op))]
            + expr_tokens(r));
        lemma_cores_concat(expr_tokens(e0) + seq![op_token(bin_op_kind(op))], expr_tokens(r));
        lemma_cores_concat(expr_tokens(e0), seq![op_token(bin_op_kind(op))]);
        assert(cores(expr_tokens(e)) == cores(expr_tokens(e0)) + cores(t.subrange(j, k)));
    } else {
        assert(t.subrange(j, j) =~= Seq::<TokenModel>::empty());
        assert(cores(expr_tokens(e0)) + cores(t.subrange(j, j)) =~= cores(expr_tokens(e0)));
    }
}

#[verifier::rlimit(100)]
proof fn lemma_pt_term(t: Seq<TokenModel>, i: int)
    requires
        spec_term(t, i) is Ok,
    ensures
        ({
            let (e, j) = spec_term(t, i)->Ok_0;
            &&& 0 <= i < j <= t.len()
            &&& cores(t.subrange(i, j)) == cores(expr_tokens(e))
        }),
    decreases t.len() - i, 7int,
{
    let (e, j) = spec_term(t, i)->Ok_0;
    lemma_pt_factor(t, i);
    let (p, jp) = spec_factor(t, i)->Ok_0;
    lemma_pt_term_rest(t, p, jp);
    assert(t.subrange(i, j) =~= t.subrange(i, jp) + t.subrange(jp, j));
    lemma_cores_concat(t.subrange(i, jp), t.subrange(jp, j));
}

#[verifier::rlimit(100)]
proof fn lemma_pt_comparison_rest(t: Seq<TokenModel>, e0: ExprModel, j: int)
    requires
        spec_comparison_rest(t, e0, j) is Ok,
        0 <= j <= t.len(),
    ensures
        ({
            let (e, k) = spec_comparison_rest(t, e0, j)->Ok_0;
            &&& j <= k <= t.len()
            &&& cores(expr_tokens(e)) == cores(expr_tokens(e0)) + cores(t.subrange(j, k))
        }),
    decreases t.len() - j, 13int,
{
    let (e, k) = spec_comparison_rest(t, e0, j)->Ok_0;
    if j < t.len() && (t[j].token_type == TokenType::Greater || t[j].token_type == TokenType::GreaterEqual || t[j].token_type == TokenType::Less || t[j].token_type == TokenType::LessEqual) {
        let op = if t[j].token_type == TokenType::Greater {
            BinaryOp::Greater
        } else if t[j].token_type == TokenType::GreaterEqual {
            BinaryOp::GreaterEqual
        } else if t[j].token_type == TokenType::Less {
            BinaryOp::Less
        } else {
            BinaryOp::LessEqual
        };
        lemma_pt_term(t, j + 1);
        let (r, m) = spec_term(t, j + 1)->Ok_0;
        let acc2 = ExprModel::Binary { left: Box::new(e0), op, right: Box::new(r) };
        lemma_pt_comparison_rest(t, acc2, m);
        assert(t.subrange(j, k) =~= seq![t[j]] + t.subrange(j + 1, m) + t.subrange(m, k));
        lemma_cores_concat(seq![t[j]] + t.subrange(j + 1, m), t.subrange(m, k));
        lemma_cores_concat(seq![t[j]], t.subrange(j + 1, m));
        assert(cores(seq![t[j]]) =~= cores(seq![op_token(bin_op_kind(op))]));
        assert(expr_tokens(acc2) == expr_tokens(e0) + seq![op_token(bin_op_kind(op))]
            + expr_tokens(r));
        lemma_cores_concat(expr_tokens(e0) + seq![op_token(bin_op_kind(op))], expr_tokens(r));
        lemma_cores_concat(expr_tokens(e0), seq![op_token(bin_op_kind(op))]);
        assert(cores(expr_tokens(e)) == cores(expr_tokens(e0)) + cores(t.subrange(j, k)));
    } else {
        assert(t.subrange(j, j) =~= Seq::<TokenModel>::empty());
        assert(cores(expr_tokens(e0)) + cores(t.subrange(j, j)) =~= cores(expr_tokens(e0)));
    }
}

#[verifier::rlimit(100)]
proof fn lemma_pt_comparison(t: Seq<TokenModel>, i: int)
    requires
        spec_comparison(t, i) is Ok,
    ensures
        ({
            let (e, j) = spec_comparison(t, i)->Ok_0;
            &&& 0 <= i < j <= t.len()
            &&& cores(t.subrange(i, j)) == cores(expr_tokens(e))
        }),
    decreases t.len() - i, 8int,
{
    let (e, j) = spec_comparison(t, i)->Ok_0;
    lemma_pt_term(t, i);
    let (p, jp) = spec_term(t, i)->Ok_0;
    lemma_pt_comparison_rest(t, p, jp);
    assert(t.subrange(i, j) =~= t.subrange(i, jp) + t.subrange(jp, j));
    lemma_cores_concat(t.subrange(i, jp), t.subrange(jp, j));
}

#[verifier::rlimit(100)]
proof fn lemma_pt_equality_rest(t: Seq<TokenModel>, e0: ExprModel, j: int)
    requires
        spec_equality_rest(t, e0, j) is Ok,
        0 <= j <= t.len(),
    ensures
        ({
            let (e, k) = spec_equality_rest(t, e0, j)->Ok_0;
            &&& j <= k <= t.len()
            &&& cores(expr_tokens(e)) == cores(expr_tokens(e0)) + cores(t.subrange(j, k))
        }),
    decreases t.len() - j, 13int,
{
    let (e, k) = spec_equality_rest(t, e0, j)->Ok_0;
    if j < t.len() && (t[j].token_type == TokenType::BangEqual || t[j].token_type == TokenType::EqualEqual) {
        let op = if t[j].token_type == TokenType::BangEqual {
            BinaryOp::NotEqual
        } else {
            BinaryOp::EqualEqual
        };
        lemma_pt_comparison(t, j + 1);
        let (r, m) = spec_comparison(t, j + 1)->Ok_0;
        let acc2 = ExprModel::Binary { left: Box::new(e0), op, right: Box::new(r) };
        lemma_pt_equality_rest(t, acc2, m);
        assert(t.subrange(j, k) =~= seq![t[j]] + t.subrange(j + 1, m) + t.subrange(m, k));
        lemma_cores_concat(seq![t[j]] + t.subrange(j + 1, m), t.subrange(m, k));
        lemma_cores_concat(seq![t[j]], t.subrange(j + 1, m));
        assert(cores(seq![t[j]]) =~= cores(seq![op_token(bin_op_kind(op))]));
        assert(expr_tokens(acc2) == expr_tokens(e0) + seq![op_token(bin_op_kind(op))]
            + expr_tokens(r));
        lemma_cores_concat(expr_tokens(e0) + seq![op_token(bin_op_kind(op))], expr_tokens(r));
        lemma_cores_concat(expr_tokens(e0), seq![op_token(bin_op_kind(op))]);
        assert(cores(expr_tokens(e)) == cores(expr_tokens(e0)) + cores(t.subrange(j, k)));
    } else {
        assert(t.subrange(j, j) =~= Seq::<TokenModel>::empty());
        assert(cores(expr_tokens(e0)) + cores(t.subrange(j, j)) =~= cores(expr_tokens(e0)));
    }
}

#[verifier::rlimit(100)]
proof fn lemma_pt_equality(t: Seq<TokenModel>, i: int)
    requires
        spec_equality(t, i) is Ok,
    ensures
        ({
            let (e, j) = spec_equality(t, i)->Ok_0;
            &&& 0 <= i < j <= t.len()
            &&& cores(t.subrange(i, j)) == cores(expr_tokens(e))
        }),
    decreases t.len() - i, 9int,
{
    let (e, j) = spec_equality(t, i)->Ok_0;
    lemma_pt_comparison(t, i);
    let (p, jp) = spec_comparison(t, i)->Ok_0;
    lemma_pt_equality_rest(t, p, jp);
    assert(t.subrange(i, j) =~= t.subrange(i, jp) + t.subrange(jp, j));
    lemma_cores_concat(t.subrange(i, jp), t.subrange(jp, j));
}

proof fn lemma_pt_expression(t: Seq<TokenModel>, i: int)
    requires
        spec_expression(t, i) is Ok,
    ensures
        ({
            let (e, j) = spec_expression(t, i)->Ok_0;
            &&& 0 <= i < j <= t.len()
            &&& cores(t.subrange(i, j)) == cores(expr_tokens(e))
        }),
    decreases t.len() - i, 10int,
{
    lemma_pt_equality(t, i);
}

/// Round trip of parsing and printing: an expression the parser produced
/// renders back to exactly the tokens it was parsed from, kind for kind and
/// payload for payload (compared through `token_core`, which blanks the
/// line numbers and non-identifier lexemes that no printer could know
/// again).
pub proof fn lemma_parse_print_round_trip(t: Seq<TokenModel>)
    requires
        spec_expression(t, 0) is Ok,
    ensures
        ({
            let (e, j) = spec_expression(t, 0)->Ok_0;
            cores(expr_tokens(e)) == cores(t.subrange(0, j))
        }),
{
    lemma_pt_expression(t, 0);
}

} // verus!
