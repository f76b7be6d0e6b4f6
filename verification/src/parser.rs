//! The parser: from tokens to statements.
//!
//! The grammar is defined by spec functions over the stream of tokens,
//! [`parse_program`] and those it rests on. Each takes the tokens that are
//! left and gives what it parsed, or the message of the first error, and
//! the tokens that are left behind it. [`Parser`] pulls the tokens from a
//! [`Lexer`] one by one and is proved to compute the same.

use crate::ast::Binop;
use crate::ast::Expr;
use crate::ast::ExprView;
use crate::ast::FunctionDecl;
use crate::ast::Parameter;
use crate::ast::ParameterView;
use crate::ast::Return;
use crate::ast::Stmt;
use crate::ast::StmtView;
use crate::ast::VariableDecl;
use crate::ast::exprs_view;
use crate::ast::params_view;
use crate::ast::stmts_view;
use crate::lexer::Lexer;
use crate::lexer::Token;
use crate::lexer::TokenType;
use crate::lexer::TokenView;
use crate::lexer::goes_on;
use crate::lexer::outcome_view;
use crate::lexer::token_stream;
use crate::text::char_is_digit;
use crate::text::chars_of;
use crate::text::is_digit;
use vstd::prelude::*;
use vstd::string::StringExecFns;

verus! {

/// What the parser reads: tokens, the last of them `EOF`, or tokens and
/// then the message of a lexical error.
pub type Tokens = Seq<Result<TokenView, Seq<char>>>;

/// What a rule of the grammar gives: a value or the message of an error,
/// and the tokens behind what it read.
pub struct Parsed<T> {
    pub value: Result<T, Seq<char>>,
    pub rest: Tokens,
}

/// The kind of the first token, if the stream starts with a token.
pub open spec fn kind_at(ts: Tokens) -> Option<TokenType> {
    if ts.len() > 0 {
        match ts[0] {
            Ok(t) => Some(t.kind),
            Err(_) => None,
        }
    } else {
        None
    }
}

/// The text of the first token, if the stream starts with a token.
pub open spec fn lexeme_at(ts: Tokens) -> Seq<char> {
    if ts.len() > 0 {
        match ts[0] {
            Ok(t) => t.lexeme,
            Err(_) => Seq::empty(),
        }
    } else {
        Seq::empty()
    }
}

/// Whether the stream starts with a token of the kind `kind`.
pub open spec fn check(ts: Tokens, kind: TokenType) -> bool {
    kind_at(ts) == Some(kind)
}

/// The name of a kind of token, as messages show it.
pub open spec fn kind_name(kind: TokenType) -> Seq<char> {
    match kind {
        TokenType::Identifier => "Identifier"@,
        TokenType::Number => "Number"@,
        TokenType::String => "String"@,
        TokenType::Equals => "Equals"@,
        TokenType::DataType => "DataType"@,
        TokenType::Colon => "Colon"@,
        TokenType::Semi => "Semi"@,
        TokenType::Add => "Add"@,
        TokenType::Sub => "Sub"@,
        TokenType::Mul => "Mul"@,
        TokenType::Div => "Div"@,
        TokenType::LParen => "LParen"@,
        TokenType::RParen => "RParen"@,
        TokenType::LBrace => "LBrace"@,
        TokenType::RBrace => "RBrace"@,
        TokenType::Comma => "Comma"@,
        TokenType::Return => "Return"@,
        TokenType::EOF => "EOF"@,
    }
}

/// The message for a stream that has run out.
pub open spec fn unexpected_end() -> Seq<char> {
    "[twee::error] unexpected end of input"@
}

/// The message for a token of another kind than the grammar asks for.
pub open spec fn expected_but_got(expected: TokenType, actual: TokenType) -> Seq<char> {
    "[twee::error] expected "@ + kind_name(expected) + " but got Some("@ + kind_name(actual)
        + ")"@
}

/// The message for a token that no expression starts with.
pub open spec fn unexpected_token(actual: TokenType) -> Seq<char> {
    "[twee::error] unexpected token "@ + kind_name(actual)
}

/// The message for a number that is not written as digits, with at most
/// one point among them.
pub open spec fn invalid_number() -> Seq<char> {
    "invalid float literal"@
}

/// The message for a list of arguments that goes on with neither a comma
/// nor a closing parenthesis.
pub open spec fn bad_argument_list() -> Seq<char> {
    "Expected ',' or ')' in function call arguments list."@
}

/// The message for a list of parameters that goes on with neither a comma
/// nor a closing parenthesis.
pub open spec fn bad_parameter_list() -> Seq<char> {
    "Expected ',' or ')' in function parameters"@
}

/// Why parsing cannot go on at the first token, where the grammar asks
/// for something else: a lexical error is passed on as it is, a token of
/// the wrong kind gives `otherwise`.
pub open spec fn complaint(ts: Tokens, otherwise: Seq<char>) -> Seq<char> {
    if ts.len() > 0 {
        match ts[0] {
            Ok(_) => otherwise,
            Err(e) => e,
        }
    } else {
        unexpected_end()
    }
}

/// Parsing went through: `value`, and `rest` behind it.
pub open spec fn done<T>(value: T, rest: Tokens) -> Parsed<T> {
    Parsed { value: Ok(value), rest }
}

/// Parsing stopped at `rest` with `message`.
pub open spec fn failed<T>(message: Seq<char>, rest: Tokens) -> Parsed<T> {
    Parsed { value: Err(message), rest }
}

/// The same outcome of a rule that failed, for a rule with another type
/// of value that passes the failure on.
pub open spec fn pass_on<T, U>(p: Parsed<T>) -> Parsed<U> {
    Parsed {
        value: match p.value {
            Ok(_) => Err(Seq::empty()),
            Err(e) => Err(e),
        },
        rest: p.rest,
    }
}

/// Takes a token of the kind `expected` off the stream, and gives its
/// text.
pub open spec fn consume(ts: Tokens, expected: TokenType) -> Parsed<Seq<char>> {
    if check(ts, expected) {
        done(lexeme_at(ts), ts.drop_first())
    } else {
        failed(
            complaint(
                ts,
                match kind_at(ts) {
                    Some(actual) => expected_but_got(expected, actual),
                    None => unexpected_end(),
                },
            ),
            ts,
        )
    }
}

/// The binary operator that the stream starts with, if it does.
pub open spec fn binop_at(ts: Tokens) -> Option<Binop> {
    match kind_at(ts) {
        Some(TokenType::Add) => Some(Binop::Add),
        Some(TokenType::Sub) => Some(Binop::Sub),
        Some(TokenType::Mul) => Some(Binop::Mul),
        Some(TokenType::Div) => Some(Binop::Div),
        _ => None,
    }
}

/// The number that a run of digits writes in base ten.
pub open spec fn digits_value(digits: Seq<char>) -> nat
    decreases digits.len(),
{
    if digits.len() == 0 {
        0
    } else {
        digits_value(digits.drop_last()) * 10 + (digits.last() as nat - '0' as nat) as nat
    }
}

/// Whether all of `text` is digits.
pub open spec fn all_digits(text: Seq<char>) -> bool {
    forall|i: int| 0 <= i < text.len() ==> is_digit(#[trigger] text[i])
}

/// The length of the run of digits that `text` starts with.
pub open spec fn digits_len(text: Seq<char>) -> nat
    decreases text.len(),
{
    if text.len() > 0 && is_digit(text[0]) {
        1 + digits_len(text.drop_first())
    } else {
        0
    }
}

/// Whether `text` is written as a number: digits, and then perhaps a
/// point and digits again.
pub open spec fn is_number_literal(text: Seq<char>) -> bool {
    let whole = digits_len(text) as int;
    whole > 0 && (whole == text.len() || (text[whole] == '.' && whole + 1 < text.len()
        && all_digits(text.subrange(whole + 1, text.len() as int))))
}

/// The value of a numeric literal: its integer part, and the greatest
/// 64-bit integer where that is too large. `None` where the text is not
/// written as a number.
pub open spec fn literal_value(text: Seq<char>) -> Option<int> {
    if is_number_literal(text) {
        let whole = digits_value(text.subrange(0, digits_len(text) as int));
        Some(
            if whole <= i64::MAX {
                whole as int
            } else {
                i64::MAX as int
            },
        )
    } else {
        None
    }
}

/// An expression that is an operand: a number, a string, a variable, a
/// call, or an expression in parentheses.
pub open spec fn parse_primary(ts: Tokens) -> Parsed<ExprView>
    decreases ts.len(), 0nat,
{
    match kind_at(ts) {
        Some(TokenType::Number) => match literal_value(lexeme_at(ts)) {
            Some(n) => done(ExprView::Number(n), ts.drop_first()),
            None => failed(invalid_number(), ts),
        },
        Some(TokenType::Identifier) => {
            let rest = ts.drop_first();
            if check(rest, TokenType::LParen) {
                parse_function_call(lexeme_at(ts), rest)
            } else {
                done(ExprView::Identifier(lexeme_at(ts)), rest)
            }
        },
        Some(TokenType::String) => done(ExprView::String(lexeme_at(ts)), ts.drop_first()),
        Some(TokenType::LParen) => {
            let inner = parse_expr(ts.drop_first());
            match inner.value {
                Ok(e) => {
                    let close = consume(inner.rest, TokenType::RParen);
                    match close.value {
                        Ok(_) => done(e, close.rest),
                        Err(_) => pass_on(close),
                    }
                },
                Err(_) => inner,
            }
        },
        Some(other) => failed(unexpected_token(other), ts),
        None => failed(complaint(ts, unexpected_end()), ts),
    }
}

/// A call of `callee`, from the opening parenthesis on: the arguments,
/// with commas between them, and the closing parenthesis.
pub open spec fn parse_function_call(callee: Seq<char>, ts: Tokens) -> Parsed<ExprView>
    decreases ts.len(), 4nat,
{
    if ts.len() == 0 {
        failed(unexpected_end(), ts)
    } else {
        let rest = ts.drop_first();
        if check(rest, TokenType::RParen) {
            done(ExprView::FunctionCall { callee, args: Seq::empty() }, rest.drop_first())
        } else {
            parse_arguments(callee, rest, Seq::empty())
        }
    }
}

/// The arguments of a call of `callee` behind those in `args`, and the
/// closing parenthesis.
pub open spec fn parse_arguments(callee: Seq<char>, ts: Tokens, args: Seq<ExprView>) -> Parsed<
    ExprView,
>
    decreases ts.len(), 3nat,
{
    let arg = parse_expr(ts);
    match arg.value {
        Ok(e) => {
            if check(arg.rest, TokenType::Comma) {
                if arg.rest.len() <= ts.len() {
                    parse_arguments(callee, arg.rest.drop_first(), args.push(e))
                } else {
                    pass_on(arg)
                }
            } else if check(arg.rest, TokenType::RParen) {
                done(
                    ExprView::FunctionCall { callee, args: args.push(e) },
                    arg.rest.drop_first(),
                )
            } else {
                failed(bad_argument_list(), arg.rest)
            }
        },
        Err(_) => arg,
    }
}

/// An expression.
pub open spec fn parse_expr(ts: Tokens) -> Parsed<ExprView>
    decreases ts.len(), 2nat,
{
    parse_precedence(ts, 0)
}

/// An expression whose operators, outside parentheses, all bind at least
/// as tightly as `min`: an operand, and then operators and operands as far
/// as they go.
pub open spec fn parse_precedence(ts: Tokens, min: u8) -> Parsed<ExprView>
    decreases ts.len(), 1nat,
{
    let first = parse_primary(ts);
    match first.value {
        Ok(left) => {
            if first.rest.len() < ts.len() {
                parse_operators(left, first.rest, min)
            } else {
                first
            }
        },
        Err(_) => first,
    }
}

/// The rest of an expression behind its left part `left`: as long as an
/// operator follows that binds at least as tightly as `min`, it is taken
/// with a right operand of operators that bind more tightly than itself,
/// and the two parts become the left part of what follows.
pub open spec fn parse_operators(left: ExprView, ts: Tokens, min: u8) -> Parsed<ExprView>
    decreases ts.len(), 0nat,
{
    match binop_at(ts) {
        Some(op) => {
            if op.spec_precedence() < min {
                done(left, ts)
            } else {
                let operand = parse_precedence(ts.drop_first(), op.right_min());
                match operand.value {
                    Ok(right) => {
                        let joined = ExprView::BinaryOp {
                            left: Box::new(left),
                            op,
                            right: Box::new(right),
                        };
                        if operand.rest.len() < ts.len() {
                            parse_operators(joined, operand.rest, min)
                        } else {
                            done(joined, operand.rest)
                        }
                    },
                    Err(_) => operand,
                }
            }
        },
        None => done(left, ts),
    }
}

/// An operand takes tokens off the stream: some, where it goes through.
pub proof fn lemma_primary_progress(ts: Tokens)
    ensures
        parse_primary(ts).rest.len() <= ts.len(),
        parse_primary(ts).value is Ok ==> parse_primary(ts).rest.len() < ts.len(),
    decreases ts.len(), 0nat,
{
    match kind_at(ts) {
        Some(TokenType::Identifier) => {
            if check(ts.drop_first(), TokenType::LParen) {
                lemma_function_call_progress(lexeme_at(ts), ts.drop_first());
            }
        },
        Some(TokenType::LParen) => {
            lemma_precedence_progress(ts.drop_first(), 0);
        },
        _ => {},
    }
}

/// A call takes tokens off the stream: some, where it goes through.
pub proof fn lemma_function_call_progress(callee: Seq<char>, ts: Tokens)
    ensures
        parse_function_call(callee, ts).rest.len() <= ts.len(),
        parse_function_call(callee, ts).value is Ok ==> parse_function_call(
            callee,
            ts,
        ).rest.len() < ts.len(),
    decreases ts.len(), 4nat,
{
    if ts.len() > 0 && !check(ts.drop_first(), TokenType::RParen) {
        lemma_arguments_progress(callee, ts.drop_first(), Seq::empty());
    }
}

/// A list of arguments takes tokens off the stream: some, where it goes
/// through.
pub proof fn lemma_arguments_progress(callee: Seq<char>, ts: Tokens, args: Seq<ExprView>)
    ensures
        parse_arguments(callee, ts, args).rest.len() <= ts.len(),
        parse_arguments(callee, ts, args).value is Ok ==> parse_arguments(
            callee,
            ts,
            args,
        ).rest.len() < ts.len(),
    decreases ts.len(), 3nat,
{
    lemma_precedence_progress(ts, 0);
    let arg = parse_expr(ts);
    match arg.value {
        Ok(e) => {
            if check(arg.rest, TokenType::Comma) {
                lemma_arguments_progress(callee, arg.rest.drop_first(), args.push(e));
            }
        },
        Err(_) => {},
    }
}

/// An expression takes tokens off the stream: some, where it goes
/// through.
pub proof fn lemma_precedence_progress(ts: Tokens, min: u8)
    ensures
        parse_precedence(ts, min).rest.len() <= ts.len(),
        parse_precedence(ts, min).value is Ok ==> parse_precedence(ts, min).rest.len()
            < ts.len(),
    decreases ts.len(), 1nat,
{
    lemma_primary_progress(ts);
    let first = parse_primary(ts);
    match first.value {
        Ok(left) => {
            lemma_operators_progress(left, first.rest, min);
        },
        Err(_) => {},
    }
}

/// Operators and their operands take tokens off the stream.
pub proof fn lemma_operators_progress(left: ExprView, ts: Tokens, min: u8)
    ensures
        parse_operators(left, ts, min).rest.len() <= ts.len(),
    decreases ts.len(), 0nat,
{
    match binop_at(ts) {
        Some(op) => {
            if op.spec_precedence() >= min {
                lemma_precedence_progress(ts.drop_first(), op.right_min());
                let operand = parse_precedence(ts.drop_first(), op.right_min());
                match operand.value {
                    Ok(right) => {
                        let joined = ExprView::BinaryOp {
                            left: Box::new(left),
                            op,
                            right: Box::new(right),
                        };
                        lemma_operators_progress(joined, operand.rest, min);
                    },
                    Err(_) => {},
                }
            }
        },
        None => {},
    }
}

/// The stream without the semicolon that it starts with, if it does.
pub open spec fn skip_semi(ts: Tokens) -> Tokens {
    if check(ts, TokenType::Semi) {
        ts.drop_first()
    } else {
        ts
    }
}

/// The type that a declaration names where it names none.
pub open spec fn default_type() -> Seq<char> {
    "auto"@
}

/// The parameters of a function behind those in `params`, each a type
/// and a name, with commas between them, and the closing parenthesis.
pub open spec fn parse_parameters(ts: Tokens, params: Seq<ParameterView>) -> Parsed<
    Seq<ParameterView>,
>
    decreases ts.len(),
{
    let typed = consume(ts, TokenType::DataType);
    match typed.value {
        Ok(data_type) => {
            let named = consume(typed.rest, TokenType::Identifier);
            match named.value {
                Ok(name) => {
                    let all = params.push(ParameterView { data_type, name });
                    if check(named.rest, TokenType::Comma) {
                        parse_parameters(named.rest.drop_first(), all)
                    } else if check(named.rest, TokenType::RParen) {
                        done(all, named.rest.drop_first())
                    } else {
                        failed(bad_parameter_list(), named.rest)
                    }
                },
                Err(_) => pass_on(named),
            }
        },
        Err(_) => pass_on(typed),
    }
}

/// A list of parameters takes tokens off the stream.
pub proof fn lemma_parameters_progress(ts: Tokens, params: Seq<ParameterView>)
    ensures
        parse_parameters(ts, params).rest.len() <= ts.len(),
    decreases ts.len(),
{
    let typed = consume(ts, TokenType::DataType);
    match typed.value {
        Ok(data_type) => {
            let named = consume(typed.rest, TokenType::Identifier);
            match named.value {
                Ok(name) => {
                    if check(named.rest, TokenType::Comma) {
                        lemma_parameters_progress(
                            named.rest.drop_first(),
                            params.push(ParameterView { data_type, name }),
                        );
                    }
                },
                Err(_) => {},
            }
        },
        Err(_) => {},
    }
}

/// A statement, and the semicolon behind it if there is one: a
/// declaration where a type comes first, a return where `return` does,
/// an expression otherwise.
pub open spec fn parse_stmt(ts: Tokens) -> Parsed<StmtView>
    decreases ts.len(), 2nat,
{
    let stmt = match kind_at(ts) {
        Some(TokenType::DataType) => parse_variable_declaration(ts),
        Some(TokenType::Return) => parse_return_stmt(ts),
        Some(_) => {
            let e = parse_expr(ts);
            match e.value {
                Ok(value) => done(StmtView::Expression(value), e.rest),
                Err(_) => pass_on(e),
            }
        },
        None => failed(complaint(ts, unexpected_end()), ts),
    };
    match stmt.value {
        Ok(_) => Parsed { value: stmt.value, rest: skip_semi(stmt.rest) },
        Err(_) => stmt,
    }
}

/// `return` and an expression.
pub open spec fn parse_return_stmt(ts: Tokens) -> Parsed<StmtView> {
    let word = consume(ts, TokenType::Return);
    match word.value {
        Ok(_) => {
            let e = parse_expr(word.rest);
            match e.value {
                Ok(value) => done(StmtView::Return { value }, e.rest),
                Err(_) => pass_on(e),
            }
        },
        Err(_) => pass_on(word),
    }
}

/// A declaration: a type, if one stands there, and a name; then the rest
/// of a function where a parenthesis follows, and `=` and the value of a
/// variable otherwise.
pub open spec fn parse_variable_declaration(ts: Tokens) -> Parsed<StmtView>
    decreases ts.len(), 1nat,
{
    let data_type = if check(ts, TokenType::DataType) {
        lexeme_at(ts)
    } else {
        default_type()
    };
    let named = consume(
        if check(ts, TokenType::DataType) {
            ts.drop_first()
        } else {
            ts
        },
        TokenType::Identifier,
    );
    match named.value {
        Ok(name) => {
            if check(named.rest, TokenType::LParen) {
                parse_function_declaration(data_type, name, named.rest)
            } else {
                let equals = consume(named.rest, TokenType::Equals);
                match equals.value {
                    Ok(_) => {
                        let e = parse_expr(equals.rest);
                        match e.value {
                            Ok(value) => done(
                                StmtView::VariableDecl { data_type, name, value },
                                e.rest,
                            ),
                            Err(_) => pass_on(e),
                        }
                    },
                    Err(_) => pass_on(equals),
                }
            }
        },
        Err(_) => pass_on(named),
    }
}

/// The rest of the declaration of a function `name` that returns
/// `data_type`, from the opening parenthesis on: the parameters in
/// parentheses, and the body in braces.
pub open spec fn parse_function_declaration(
    data_type: Seq<char>,
    name: Seq<char>,
    ts: Tokens,
) -> Parsed<StmtView>
    decreases ts.len(), 0nat,
{
    let open = consume(ts, TokenType::LParen);
    match open.value {
        Ok(_) => {
            let params = if check(open.rest, TokenType::RParen) {
                done(Seq::empty(), open.rest.drop_first())
            } else {
                parse_parameters(open.rest, Seq::empty())
            };
            match params.value {
                Ok(params_value) => {
                    let brace = consume(params.rest, TokenType::LBrace);
                    match brace.value {
                        Ok(_) => {
                            proof {
                                lemma_parameters_progress(open.rest, Seq::empty());
                            }
                            let body = parse_body(brace.rest, Seq::empty());
                            match body.value {
                                Ok(body_value) => {
                                    let close = consume(body.rest, TokenType::RBrace);
                                    match close.value {
                                        Ok(_) => done(
                                            StmtView::FunctionDecl {
                                                data_type,
                                                name,
                                                body: body_value,
                                                params: params_value,
                                            },
                                            close.rest,
                                        ),
                                        Err(_) => pass_on(close),
                                    }
                                },
                                Err(_) => pass_on(body),
                            }
                        },
                        Err(_) => pass_on(brace),
                    }
                },
                Err(_) => pass_on(params),
            }
        },
        Err(_) => pass_on(open),
    }
}

/// The statements of a body behind those in `body`, up to the closing
/// brace, which stays.
pub open spec fn parse_body(ts: Tokens, body: Seq<StmtView>) -> Parsed<Seq<StmtView>>
    decreases ts.len(), 3nat,
{
    if check(ts, TokenType::RBrace) {
        done(body, ts)
    } else {
        let stmt = parse_stmt(ts);
        match stmt.value {
            Ok(value) => {
                if stmt.rest.len() < ts.len() {
                    parse_body(stmt.rest, body.push(value))
                } else {
                    pass_on(stmt)
                }
            },
            Err(_) => pass_on(stmt),
        }
    }
}

/// A statement takes tokens off the stream: some, where it goes through.
pub proof fn lemma_stmt_progress(ts: Tokens)
    ensures
        parse_stmt(ts).rest.len() <= ts.len(),
        parse_stmt(ts).value is Ok ==> parse_stmt(ts).rest.len() < ts.len(),
    decreases ts.len(), 2nat,
{
    match kind_at(ts) {
        Some(TokenType::DataType) => {
            lemma_variable_declaration_progress(ts);
        },
        Some(TokenType::Return) => {
            lemma_precedence_progress(ts.drop_first(), 0);
        },
        Some(_) => {
            lemma_precedence_progress(ts, 0);
        },
        None => {},
    }
}

/// A declaration takes tokens off the stream: some, where it goes
/// through.
pub proof fn lemma_variable_declaration_progress(ts: Tokens)
    ensures
        parse_variable_declaration(ts).rest.len() <= ts.len(),
        parse_variable_declaration(ts).value is Ok ==> parse_variable_declaration(
            ts,
        ).rest.len() < ts.len(),
    decreases ts.len(), 1nat,
{
    let named = consume(
        if check(ts, TokenType::DataType) {
            ts.drop_first()
        } else {
            ts
        },
        TokenType::Identifier,
    );
    match named.value {
        Ok(name) => {
            if check(named.rest, TokenType::LParen) {
                lemma_function_declaration_progress(
                    if check(ts, TokenType::DataType) {
                        lexeme_at(ts)
                    } else {
                        default_type()
                    },
                    name,
                    named.rest,
                );
            } else {
                let equals = consume(named.rest, TokenType::Equals);
                if equals.value is Ok {
                    lemma_precedence_progress(equals.rest, 0);
                }
            }
        },
        Err(_) => {},
    }
}

/// The rest of a function takes tokens off the stream: some, where it
/// goes through.
pub proof fn lemma_function_declaration_progress(
    data_type: Seq<char>,
    name: Seq<char>,
    ts: Tokens,
)
    ensures
        parse_function_declaration(data_type, name, ts).rest.len() <= ts.len(),
        parse_function_declaration(data_type, name, ts).value is Ok
            ==> parse_function_declaration(data_type, name, ts).rest.len() < ts.len(),
    decreases ts.len(), 0nat,
{
    let open = consume(ts, TokenType::LParen);
    if open.value is Ok {
        let params = if check(open.rest, TokenType::RParen) {
            done(Seq::empty(), open.rest.drop_first())
        } else {
            parse_parameters(open.rest, Seq::empty())
        };
        lemma_parameters_progress(open.rest, Seq::empty());
        if params.value is Ok {
            let brace = consume(params.rest, TokenType::LBrace);
            if brace.value is Ok {
                lemma_body_progress(brace.rest, Seq::empty());
            }
        }
    }
}

/// A body takes tokens off the stream.
pub proof fn lemma_body_progress(ts: Tokens, body: Seq<StmtView>)
    ensures
        parse_body(ts, body).rest.len() <= ts.len(),
    decreases ts.len(), 3nat,
{
    if !check(ts, TokenType::RBrace) {
        lemma_stmt_progress(ts);
        let stmt = parse_stmt(ts);
        match stmt.value {
            Ok(value) => {
                lemma_body_progress(stmt.rest, body.push(value));
            },
            Err(_) => {},
        }
    }
}

/// The statements of a program behind those in `stmts`, up to `EOF`.
/// Behind each statement one more semicolon may stand.
pub open spec fn parse_program(ts: Tokens, stmts: Seq<StmtView>) -> Parsed<Seq<StmtView>>
    decreases ts.len(),
{
    if check(ts, TokenType::EOF) {
        done(stmts, ts)
    } else {
        let stmt = parse_stmt(ts);
        match stmt.value {
            Ok(value) => {
                proof {
                    lemma_stmt_progress(ts);
                }
                parse_program(skip_semi(stmt.rest), stmts.push(value))
            },
            Err(_) => pass_on(stmt),
        }
    }
}

/// What parsing an expression gave, as a value.
pub open spec fn expr_outcome(r: Result<Expr, String>) -> Result<ExprView, Seq<char>> {
    match r {
        Ok(e) => Ok(e@),
        Err(m) => Err(m@),
    }
}

/// What parsing a statement gave, as a value.
pub open spec fn stmt_outcome(r: Result<Stmt, String>) -> Result<StmtView, Seq<char>> {
    match r {
        Ok(s) => Ok(s@),
        Err(m) => Err(m@),
    }
}

/// What parsing statements gave, as a value.
pub open spec fn stmts_outcome(r: Result<Vec<Stmt>, String>) -> Result<
    Seq<StmtView>,
    Seq<char>,
> {
    match r {
        Ok(stmts) => Ok(stmts_view(stmts@)),
        Err(m) => Err(m@),
    }
}

/// The name of a kind of token.
fn kind_text(kind: TokenType) -> (name: &'static str)
    ensures
        name@ == kind_name(kind),
{
    match kind {
        TokenType::Identifier => "Identifier",
        TokenType::Number => "Number",
        TokenType::String => "String",
        TokenType::Equals => "Equals",
        TokenType::DataType => "DataType",
        TokenType::Colon => "Colon",
        TokenType::Semi => "Semi",
        TokenType::Add => "Add",
        TokenType::Sub => "Sub",
        TokenType::Mul => "Mul",
        TokenType::Div => "Div",
        TokenType::LParen => "LParen",
        TokenType::RParen => "RParen",
        TokenType::LBrace => "LBrace",
        TokenType::RBrace => "RBrace",
        TokenType::Comma => "Comma",
        TokenType::Return => "Return",
        TokenType::EOF => "EOF",
    }
}

/// A parser over the tokens of one scanner. It looks one token ahead and
/// never goes back.
pub struct Parser<'a> {
    lexer: Lexer<'a>,
    current: Result<Token, String>,
}

impl<'a> View for Parser<'a> {
    type V = Tokens;

    /// The tokens that are left: the one that the parser looks at, and
    /// behind it what the scanner will yield.
    closed spec fn view(&self) -> Tokens {
        let head = outcome_view(self.current);
        if goes_on(head) {
            seq![head] + token_stream(self.lexer@.text, self.lexer@.pos)
        } else {
            seq![head]
        }
    }
}

impl<'a> Parser<'a> {
    /// A parser over all that `lexer` will yield.
    pub fn new(lexer: Lexer<'a>) -> (parser: Self)
        ensures
            parser@ == token_stream(lexer@.text, lexer@.pos),
    {
        let mut lexer = lexer;
        let current = lexer.next_token();
        Parser { lexer, current }
    }

    /// There is always a token to look at, or an error in its place.
    pub proof fn lemma_never_empty(&self)
        ensures
            self@.len() > 0,
    {
    }

    /// Takes the token that the parser looks at, and looks at the next.
    fn take(&mut self) -> (taken: Result<Token, String>)
        requires
            goes_on(old(self)@[0]),
        ensures
            outcome_view(taken) == old(self)@[0],
            final(self)@ == old(self)@.drop_first(),
    {
        let mut next = self.lexer.next_token();
        core::mem::swap(&mut self.current, &mut next);
        assert(self@ =~= old(self)@.drop_first());
        next
    }

    /// Goes on to the next token.
    fn advance(&mut self)
        requires
            goes_on(old(self)@[0]),
        ensures
            final(self)@ == old(self)@.drop_first(),
    {
        let _ = self.take();
    }

    /// The kind of the token that the parser looks at.
    fn kind(&self) -> (kind: Option<TokenType>)
        ensures
            kind == kind_at(self@),
            self@.len() > 0,
    {
        match &self.current {
            Ok(t) => Some(t.token_type),
            Err(_) => None,
        }
    }

    /// Whether the parser looks at a token of the kind `target`.
    fn check(&self, target: TokenType) -> (b: bool)
        ensures
            b == check(self@, target),
            self@.len() > 0,
    {
        match &self.current {
            Ok(t) => t.token_type == target,
            Err(_) => false,
        }
    }

    /// Why parsing cannot go on at the token that the parser looks at.
    fn fault(&self, otherwise: String) -> (message: String)
        ensures
            message@ == complaint(self@, otherwise@),
    {
        match &self.current {
            Ok(_) => otherwise,
            Err(e) => e.clone(),
        }
    }

    /// Takes a token of the kind `expected`.
    fn consume(&mut self, expected: TokenType) -> (r: Result<Token, String>)
        requires
            expected != TokenType::EOF,
        ensures
            final(self)@ == consume(old(self)@, expected).rest,
            match consume(old(self)@, expected).value {
                Ok(lexeme) => r matches Ok(t) && t@.lexeme == lexeme && t@.kind == expected,
                Err(m) => r matches Err(e) && e@ == m,
            },
    {
        if self.check(expected) {
            self.take()
        } else {
            match &self.current {
                Ok(t) => {
                    let mut message = String::from_str("[twee::error] expected ");
                    message.append(kind_text(expected));
                    message.append(" but got Some(");
                    message.append(kind_text(t.token_type));
                    message.append(")");
                    Err(message)
                },
                Err(e) => Err(e.clone()),
            }
        }
    }

    /// The binary operator that the parser looks at, if it is one.
    fn binop(&self) -> (op: Option<Binop>)
        ensures
            op == binop_at(self@),
            self@.len() > 0,
    {
        match &self.current {
            Ok(t) => match t.token_type {
                TokenType::Add => Some(Binop::Add),
                TokenType::Sub => Some(Binop::Sub),
                TokenType::Mul => Some(Binop::Mul),
                TokenType::Div => Some(Binop::Div),
                _ => None,
            },
            Err(_) => None,
        }
    }

    /// Parses an operand.
    fn parse_primary(&mut self) -> (r: Result<Expr, String>)
        ensures
            final(self)@ == parse_primary(old(self)@).rest,
            expr_outcome(r) == parse_primary(old(self)@).value,
        decreases old(self)@.len(), 0nat,
    {
        let kind = match self.kind() {
            Some(kind) => kind,
            None => {
                return Err(self.fault(String::from_str("[twee::error] unexpected end of input")));
            },
        };
        match kind {
            TokenType::Number => {
                let value = match &self.current {
                    Ok(t) => number_value(t.lexeme.as_str()),
                    Err(_) => None,
                };
                match value {
                    Some(n) => {
                        self.advance();
                        Ok(Expr::Number(n))
                    },
                    None => Err(String::from_str("invalid float literal")),
                }
            },
            TokenType::Identifier => {
                match self.take() {
                    Ok(t) => {
                        if self.check(TokenType::LParen) {
                            self.parse_function_call(t.lexeme)
                        } else {
                            Ok(Expr::Identifier(t.lexeme))
                        }
                    },
                    Err(e) => Err(e),
                }
            },
            TokenType::String => {
                match self.take() {
                    Ok(t) => Ok(Expr::String(t.lexeme)),
                    Err(e) => Err(e),
                }
            },
            TokenType::LParen => {
                self.advance();
                let e = match self.parse_expr() {
                    Ok(e) => e,
                    Err(m) => {
                        return Err(m);
                    },
                };
                match self.consume(TokenType::RParen) {
                    Ok(_) => Ok(e),
                    Err(m) => Err(m),
                }
            },
            other => {
                let mut message = String::from_str("[twee::error] unexpected token ");
                message.append(kind_text(other));
                Err(message)
            },
        }
    }

    /// Parses a call of `callee`, from the opening parenthesis on.
    fn parse_function_call(&mut self, callee: String) -> (r: Result<Expr, String>)
        requires
            check(old(self)@, TokenType::LParen),
        ensures
            final(self)@ == parse_function_call(callee@, old(self)@).rest,
            expr_outcome(r) == parse_function_call(callee@, old(self)@).value,
        decreases old(self)@.len(), 4nat,
    {
        self.advance();
        let mut args: Vec<Expr> = Vec::new();
        if self.check(TokenType::RParen) {
            self.advance();
            let call = Expr::FunctionCall { callee, args };
            assert(call@->args =~= Seq::<ExprView>::empty());
            return Ok(call);
        }
        assert(exprs_view(args@) =~= Seq::<ExprView>::empty());
        loop
            invariant
                self@.len() < old(self)@.len(),
                parse_arguments(callee@, self@, exprs_view(args@)) == parse_function_call(
                    callee@,
                    old(self)@,
                ),
            decreases self@.len(),
        {
            let ghost here = self@;
            let ghost before = exprs_view(args@);
            proof {
                lemma_precedence_progress(here, 0);
            }
            let arg = match self.parse_expr() {
                Ok(e) => e,
                Err(m) => {
                    return Err(m);
                },
            };
            args.push(arg);
            assert(exprs_view(args@) =~= before.push(arg@));
            if self.check(TokenType::Comma) {
                self.advance();
            } else if self.check(TokenType::RParen) {
                self.advance();
                let call = Expr::FunctionCall { callee, args };
                assert(call@->args =~= before.push(arg@));
                return Ok(call);
            } else {
                return Err(
                    String::from_str("Expected ',' or ')' in function call arguments list."),
                );
            }
        }
    }

    /// Parses an expression.
    fn parse_expr(&mut self) -> (r: Result<Expr, String>)
        ensures
            final(self)@ == parse_expr(old(self)@).rest,
            expr_outcome(r) == parse_expr(old(self)@).value,
        decreases old(self)@.len(), 2nat,
    {
        self.parse_precedence(0)
    }

    /// Parses an expression of operators that bind at least as tightly as
    /// `min`.
    fn parse_precedence(&mut self, min: u8) -> (r: Result<Expr, String>)
        ensures
            final(self)@ == parse_precedence(old(self)@, min).rest,
            expr_outcome(r) == parse_precedence(old(self)@, min).value,
        decreases old(self)@.len(), 1nat,
    {
        proof {
            lemma_primary_progress(self@);
        }
        let mut left = match self.parse_primary() {
            Ok(e) => e,
            Err(m) => {
                return Err(m);
            },
        };
        loop
            invariant
                self@.len() < old(self)@.len(),
                parse_operators(left@, self@, min) == parse_precedence(old(self)@, min),
            decreases self@.len(),
        {
            let ghost here = self@;
            let op = match self.binop() {
                Some(op) => op,
                None => {
                    return Ok(left);
                },
            };
            let precedence = op.precedence();
            if precedence < min {
                return Ok(left);
            }
            self.advance();
            let right_min = if op.is_left_linked() {
                precedence + 1
            } else {
                precedence
            };
            proof {
                lemma_precedence_progress(here.drop_first(), right_min);
            }
            let right = match self.parse_precedence(right_min) {
                Ok(e) => e,
                Err(m) => {
                    return Err(m);
                },
            };
            left = Expr::BinaryOp { left: Box::new(left), op, right: Box::new(right) };
        }
    }

    /// Parses a statement, and the semicolon behind it if there is one.
    fn parse_stmt(&mut self) -> (r: Result<Stmt, String>)
        ensures
            final(self)@ == parse_stmt(old(self)@).rest,
            stmt_outcome(r) == parse_stmt(old(self)@).value,
        decreases old(self)@.len(), 2nat,
    {
        let parsed = match self.kind() {
            Some(TokenType::DataType) => self.parse_variable_declaration(),
            Some(TokenType::Return) => self.parse_return_stmt(),
            Some(_) => match self.parse_expr() {
                Ok(e) => Ok(Stmt::Expression(e)),
                Err(m) => Err(m),
            },
            None => Err(self.fault(String::from_str("[twee::error] unexpected end of input"))),
        };
        match parsed {
            Ok(stmt) => {
                if self.check(TokenType::Semi) {
                    self.advance();
                }
                Ok(stmt)
            },
            Err(m) => Err(m),
        }
    }

    /// Parses `return` and the expression behind it.
    fn parse_return_stmt(&mut self) -> (r: Result<Stmt, String>)
        ensures
            final(self)@ == parse_return_stmt(old(self)@).rest,
            stmt_outcome(r) == parse_return_stmt(old(self)@).value,
    {
        match self.consume(TokenType::Return) {
            Ok(_) => {},
            Err(m) => {
                return Err(m);
            },
        }
        match self.parse_expr() {
            Ok(value) => Ok(Stmt::Return(Return { value })),
            Err(m) => Err(m),
        }
    }

    /// Parses the declaration of a variable or of a function.
    fn parse_variable_declaration(&mut self) -> (r: Result<Stmt, String>)
        ensures
            final(self)@ == parse_variable_declaration(old(self)@).rest,
            stmt_outcome(r) == parse_variable_declaration(old(self)@).value,
        decreases old(self)@.len(), 1nat,
    {
        let data_type = if self.check(TokenType::DataType) {
            match self.take() {
                Ok(t) => t.lexeme,
                Err(m) => {
                    return Err(m);
                },
            }
        } else {
            String::from_str("auto")
        };
        let name = match self.consume(TokenType::Identifier) {
            Ok(t) => t.lexeme,
            Err(m) => {
                return Err(m);
            },
        };
        if self.check(TokenType::LParen) {
            return self.parse_function_declaration(data_type, name);
        }
        match self.consume(TokenType::Equals) {
            Ok(_) => {},
            Err(m) => {
                return Err(m);
            },
        }
        match self.parse_expr() {
            Ok(value) => Ok(Stmt::VariableDecl(VariableDecl { data_type, name, value })),
            Err(m) => Err(m),
        }
    }

    /// Parses the parameters of a function and the closing parenthesis.
    fn parse_parameters(&mut self) -> (r: Result<Vec<Parameter>, String>)
        ensures
            final(self)@ == parse_parameters(old(self)@, Seq::empty()).rest,
            match r {
                Ok(params) => Ok::<Seq<ParameterView>, Seq<char>>(params_view(params@)),
                Err(m) => Err(m@),
            } == parse_parameters(old(self)@, Seq::empty()).value,
    {
        let mut params: Vec<Parameter> = Vec::new();
        assert(params_view(params@) =~= Seq::<ParameterView>::empty());
        loop
            invariant
                parse_parameters(self@, params_view(params@)) == parse_parameters(
                    old(self)@,
                    Seq::empty(),
                ),
            decreases self@.len(),
        {
            let ghost before = params_view(params@);
            let data_type = match self.consume(TokenType::DataType) {
                Ok(t) => t.lexeme,
                Err(m) => {
                    return Err(m);
                },
            };
            let name = match self.consume(TokenType::Identifier) {
                Ok(t) => t.lexeme,
                Err(m) => {
                    return Err(m);
                },
            };
            let param = Parameter { data_type, name };
            let ghost added = param@;
            params.push(param);
            assert(params_view(params@) =~= before.push(added));
            if self.check(TokenType::Comma) {
                self.advance();
            } else if self.check(TokenType::RParen) {
                self.advance();
                return Ok(params);
            } else {
                return Err(String::from_str("Expected ',' or ')' in function parameters"));
            }
        }
    }

    /// Parses the statements of a body, up to its closing brace.
    fn parse_body(&mut self) -> (r: Result<Vec<Stmt>, String>)
        ensures
            final(self)@ == parse_body(old(self)@, Seq::empty()).rest,
            stmts_outcome(r) == parse_body(old(self)@, Seq::empty()).value,
        decreases old(self)@.len(), 3nat,
    {
        let mut body: Vec<Stmt> = Vec::new();
        assert(stmts_view(body@) =~= Seq::<StmtView>::empty());
        loop
            invariant
                self@.len() <= old(self)@.len(),
                parse_body(self@, stmts_view(body@)) == parse_body(old(self)@, Seq::empty()),
            decreases self@.len(),
        {
            let ghost before = stmts_view(body@);
            if self.check(TokenType::RBrace) {
                return Ok(body);
            }
            proof {
                lemma_stmt_progress(self@);
            }
            let stmt = match self.parse_stmt() {
                Ok(stmt) => stmt,
                Err(m) => {
                    return Err(m);
                },
            };
            let ghost added = stmt@;
            body.push(stmt);
            assert(stmts_view(body@) =~= before.push(added));
        }
    }

    /// Parses the rest of the declaration of a function, from the opening
    /// parenthesis on.
    fn parse_function_declaration(&mut self, data_type: String, name: String) -> (r: Result<
        Stmt,
        String,
    >)
        ensures
            final(self)@ == parse_function_declaration(data_type@, name@, old(self)@).rest,
            stmt_outcome(r) == parse_function_declaration(data_type@, name@, old(self)@).value,
        decreases old(self)@.len(), 0nat,
    {
        match self.consume(TokenType::LParen) {
            Ok(_) => {},
            Err(m) => {
                return Err(m);
            },
        }
        let ghost opened = self@;
        let params = if self.check(TokenType::RParen) {
            self.advance();
            let none: Vec<Parameter> = Vec::new();
            assert(params_view(none@) =~= Seq::<ParameterView>::empty());
            none
        } else {
            match self.parse_parameters() {
                Ok(params) => params,
                Err(m) => {
                    return Err(m);
                },
            }
        };
        match self.consume(TokenType::LBrace) {
            Ok(_) => {},
            Err(m) => {
                return Err(m);
            },
        }
        proof {
            lemma_parameters_progress(opened, Seq::empty());
        }
        let body = match self.parse_body() {
            Ok(body) => body,
            Err(m) => {
                return Err(m);
            },
        };
        match self.consume(TokenType::RBrace) {
            Ok(_) => {},
            Err(m) => {
                return Err(m);
            },
        }
        let decl = Stmt::FunctionDecl(FunctionDecl { data_type, name, body, params });
        assert(decl@->body =~= stmts_view(body@));
        Ok(decl)
    }

    /// Parses a program: statements up to the end of the tokens. The first
    /// error ends it, a lexical one as well as one of syntax, and its
    /// message is what comes back.
    pub fn parse(&mut self) -> (r: Result<Vec<Stmt>, String>)
        ensures
            final(self)@ == parse_program(old(self)@, Seq::empty()).rest,
            stmts_outcome(r) == parse_program(old(self)@, Seq::empty()).value,
    {
        let mut stmts: Vec<Stmt> = Vec::new();
        assert(stmts_view(stmts@) =~= Seq::<StmtView>::empty());
        loop
            invariant
                parse_program(self@, stmts_view(stmts@)) == parse_program(
                    old(self)@,
                    Seq::empty(),
                ),
            decreases self@.len(),
        {
            let ghost before = stmts_view(stmts@);
            if self.check(TokenType::EOF) {
                return Ok(stmts);
            }
            proof {
                lemma_stmt_progress(self@);
            }
            let stmt = match self.parse_stmt() {
                Ok(stmt) => stmt,
                Err(m) => {
                    return Err(m);
                },
            };
            let ghost added = stmt@;
            stmts.push(stmt);
            assert(stmts_view(stmts@) =~= before.push(added));
            if self.check(TokenType::Semi) {
                self.advance();
            }
        }
    }
}

/// The value of a numeric literal.
fn number_value(lexeme: &str) -> (value: Option<i64>)
    ensures
        match literal_value(lexeme@) {
            Some(n) => value == Some(n as i64),
            None => value is None,
        },
{
    let chars = chars_of(lexeme);
    let ghost text = chars@;
    let mut i: usize = 0;
    let mut whole: i64 = 0;
    while i < chars.len() && char_is_digit(chars[i])
        invariant
            i <= chars.len(),
            text == chars@,
            all_digits(text.take(i as int)),
            0 <= whole,
            whole as int == if digits_value(text.take(i as int)) <= i64::MAX {
                digits_value(text.take(i as int)) as int
            } else {
                i64::MAX as int
            },
        decreases chars.len() - i,
    {
        let digit: i64 = (chars[i] as u32 - '0' as u32) as i64;
        proof {
            assert(text.take(i + 1).drop_last() =~= text.take(i as int));
            assert(text.take(i + 1).last() == text[i as int]);
        }
        whole = if whole > (i64::MAX - digit) / 10 {
            i64::MAX
        } else {
            whole * 10 + digit
        };
        i += 1;
    }
    proof {
        lemma_digits_len(text, i as nat);
        assert(text.subrange(0, i as int) =~= text.take(i as int));
    }
    if i == 0 {
        return None;
    }
    if i == chars.len() {
        return Some(whole);
    }
    if chars[i] != '.' || i + 1 == chars.len() {
        return None;
    }
    let mut j: usize = i + 1;
    while j < chars.len()
        invariant
            i + 1 <= j <= chars.len(),
            0 < i,
            text == chars@,
            text == lexeme@,
            digits_len(text) == i,
            text[i as int] == '.',
            i + 1 < text.len(),
            all_digits(text.subrange(i + 1, j as int)),
            whole as int == if digits_value(text.subrange(0, i as int)) <= i64::MAX {
                digits_value(text.subrange(0, i as int)) as int
            } else {
                i64::MAX as int
            },
        decreases chars.len() - j,
    {
        if !char_is_digit(chars[j]) {
            assert(text.subrange(i + 1, text.len() as int)[j - (i + 1)] == text[j as int]);
            return None;
        }
        proof {
            let shorter = text.subrange(i + 1, j as int);
            let longer = text.subrange(i + 1, j + 1);
            assert forall|k: int| 0 <= k < longer.len() implies is_digit(
                #[trigger] longer[k],
            ) by {
                if k < shorter.len() {
                    assert(longer[k] == shorter[k]);
                }
            }
        }
        j += 1;
    }
    Some(whole)
}

/// The run of digits that a text starts with ends where the first
/// character stands that is no digit.
pub proof fn lemma_digits_len(text: Seq<char>, n: nat)
    requires
        n <= text.len(),
        all_digits(text.take(n as int)),
        n == text.len() || !is_digit(text[n as int]),
    ensures
        digits_len(text) == n,
    decreases n,
{
    if n > 0 {
        assert(text.take(n as int)[0] == text[0]);
        let tail = text.drop_first();
        assert forall|i: int| 0 <= i < n - 1 implies is_digit(
            #[trigger] tail.take(n - 1)[i],
        ) by {
            assert(tail.take(n - 1)[i] == text.take(n as int)[i + 1]);
        }
        lemma_digits_len(tail, (n - 1) as nat);
    }
}

} // verus!
