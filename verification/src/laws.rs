//! What holds of the compiler as a whole, proved from the definitions.

use crate::ast::StmtView;
use crate::codegen::GenState;
use crate::codegen::REGISTERS;
use crate::codegen::generate;
use crate::codegen::lower_stmt;
use crate::codegen::place_parameters;
use crate::ast::ParameterView;
use crate::codegen::pool_entry;
use crate::codegen::too_many_parameters;
use crate::ast::Binop;
use crate::ast::ExprView;
use crate::parser::Tokens;
use crate::parser::binop_at;
use crate::parser::done;
use crate::parser::lemma_primary_progress;
use crate::parser::parse_expr;
use crate::parser::parse_operators;
use crate::parser::parse_precedence;
use crate::parser::parse_primary;
use crate::lexer::Quoted;
use crate::lexer::Scan;
use crate::lexer::TokenType;
use crate::lexer::TokenView;
use crate::lexer::number_end;
use crate::lexer::quoted;
use crate::lexer::scan;
use crate::lexer::token_stream;
use crate::lexer::trivia_end;
use crate::lexer::unescape;
use crate::lexer::unterminated_string;
use crate::parser::digits_len;
use crate::parser::is_number_literal;
use crate::text::is_digit;
use vstd::prelude::*;

verus! {

/// A string that is in the pool is not added again: the pool, the
/// read-only data and all else stay as they are, and so does its label.
pub proof fn lemma_intern_again(st: GenState, text: Seq<char>)
    ensures
        st.intern(text).strings.contains_key(text),
        st.intern(text).intern(text) == st.intern(text),
        st.strings.contains_key(text) ==> st.intern(text) == st,
{
}

/// Adding a string to the pool leaves every string that was there under
/// its label, and adds to the read-only data at most the one constant.
pub proof fn lemma_intern_keeps_labels(st: GenState, text: Seq<char>, other: Seq<char>)
    requires
        st.strings.contains_key(other),
    ensures
        st.intern(text).strings.contains_key(other),
        st.intern(text).strings[other] == st.strings[other],
        st.intern(text).string_sect == st.string_sect || st.intern(text).string_sect
            == st.string_sect + pool_entry(st.strings.len(), text),
{
}

/// A function with more parameters than there are registers for them is
/// refused, whatever else it holds, and the generator stays as it was.
pub proof fn lemma_too_many_parameters(st: GenState, function: StmtView)
    requires
        function matches StmtView::FunctionDecl { params, .. } && params.len() > REGISTERS,
    ensures
        lower_stmt(st, function).error == Some(too_many_parameters()),
        lower_stmt(st, function).state == st,
{
}

/// A program that holds such a function at its top level is refused.
pub proof fn lemma_program_with_too_many_parameters(
    st: GenState,
    stmts: Seq<StmtView>,
    i: int,
)
    requires
        0 <= i < stmts.len(),
        stmts[i] matches StmtView::FunctionDecl { params, .. } && params.len() > REGISTERS,
    ensures
        generate(st, stmts).result is Err,
{
    lemma_block_stops(GenState { output: Seq::empty(), ..st }, stmts, 0, i);
}

/// Lowering stops at the first statement that fails, at the latest.
pub proof fn lemma_block_stops(st: GenState, stmts: Seq<StmtView>, from: nat, i: int)
    requires
        from <= i < stmts.len(),
        forall|s: GenState| (#[trigger] lower_stmt(s, stmts[i])).error is Some,
    ensures
        crate::codegen::lower_block(st, stmts, from).error is Some,
    decreases i - from,
{
    let one = lower_stmt(st, stmts[from as int]);
    if from < i && one.error is None {
        lemma_block_stops(one.state, stmts, from + 1, i);
    }
}

/// Generating is a function of the state and the program alone: two
/// generators in the same state give the same text for the same program,
/// and end in the same state.
pub proof fn lemma_generate_deterministic(a: GenState, b: GenState, stmts: Seq<StmtView>)
    requires
        a == b,
    ensures
        generate(a, stmts) == generate(b, stmts),
{
}

/// The two operands `left` and `right` under the operator `op`.
pub open spec fn binary(left: ExprView, op: Binop, right: ExprView) -> ExprView {
    ExprView::BinaryOp { left: Box::new(left), op, right: Box::new(right) }
}

/// An operand with no operator behind it is an expression by itself.
pub proof fn lemma_single_operand(ts: Tokens, min: u8)
    requires
        parse_primary(ts).value is Ok,
        binop_at(parse_primary(ts).rest) is None,
    ensures
        parse_precedence(ts, min) == parse_primary(ts),
{
    lemma_primary_progress(ts);
}

/// How two operators in a row group their three operands `a`, `b` and
/// `c`: where the second binds more tightly than the first, it takes `b`
/// and `c` first, as in `a + (b * c)`; where it does not, and so where
/// both bind alike, the first takes `a` and `b` first, as in
/// `(a - b) - c`.
pub proof fn lemma_two_operators(ts: Tokens)
    requires
        parse_primary(ts).value is Ok,
        binop_at(parse_primary(ts).rest) is Some,
        parse_primary(parse_primary(ts).rest.drop_first()).value is Ok,
        binop_at(parse_primary(parse_primary(ts).rest.drop_first()).rest) is Some,
        parse_primary(
            parse_primary(parse_primary(ts).rest.drop_first()).rest.drop_first(),
        ).value is Ok,
        binop_at(
            parse_primary(
                parse_primary(parse_primary(ts).rest.drop_first()).rest.drop_first(),
            ).rest,
        ) is None,
    ensures
        ({
            let first = parse_primary(ts);
            let second = parse_primary(first.rest.drop_first());
            let third = parse_primary(second.rest.drop_first());
            let a = first.value->Ok_0;
            let b = second.value->Ok_0;
            let c = third.value->Ok_0;
            let op1 = binop_at(first.rest)->Some_0;
            let op2 = binop_at(second.rest)->Some_0;
            parse_expr(ts) == done(
                if op2.spec_precedence() > op1.spec_precedence() {
                    binary(a, op1, binary(b, op2, c))
                } else {
                    binary(binary(a, op1, b), op2, c)
                },
                third.rest,
            )
        }),
{
    let first = parse_primary(ts);
    let second = parse_primary(first.rest.drop_first());
    let third = parse_primary(second.rest.drop_first());
    let a = first.value->Ok_0;
    let b = second.value->Ok_0;
    let c = third.value->Ok_0;
    let op1 = binop_at(first.rest)->Some_0;
    let op2 = binop_at(second.rest)->Some_0;
    lemma_primary_progress(ts);
    lemma_primary_progress(first.rest.drop_first());
    lemma_primary_progress(second.rest.drop_first());
    assert(parse_expr(ts) == parse_operators(a, first.rest, 0));
    assert(parse_operators(c, third.rest, op2.right_min()) == done(c, third.rest));
    assert(parse_precedence(second.rest.drop_first(), op2.right_min()) == done(c, third.rest));
    if op2.spec_precedence() > op1.spec_precedence() {
        let inner = binary(b, op2, c);
        assert(parse_operators(inner, third.rest, op1.right_min()) == done(inner, third.rest));
        assert(parse_operators(b, second.rest, op1.right_min()) == done(inner, third.rest));
        assert(parse_precedence(first.rest.drop_first(), op1.right_min()) == done(
            inner,
            third.rest,
        ));
        let outer = binary(a, op1, inner);
        assert(parse_operators(outer, third.rest, 0) == done(outer, third.rest));
        assert(parse_operators(a, first.rest, 0) == done(outer, third.rest));
    } else {
        assert(parse_operators(b, second.rest, op1.right_min()) == done(b, second.rest));
        assert(parse_precedence(first.rest.drop_first(), op1.right_min()) == done(
            b,
            second.rest,
        ));
        let inner = binary(a, op1, b);
        let outer = binary(inner, op2, c);
        assert(parse_operators(outer, third.rest, 0) == done(outer, third.rest));
        assert(parse_operators(inner, second.rest, 0) == done(outer, third.rest));
        assert(parse_operators(a, first.rest, 0) == done(outer, third.rest));
    }
}

/// The run of digits that a text starts with holds digits only, and ends
/// within the text before a character that is no digit.
pub proof fn lemma_digits_run(text: Seq<char>)
    ensures
        digits_len(text) <= text.len(),
        forall|i: int| 0 <= i < digits_len(text) ==> is_digit(#[trigger] text[i]),
        digits_len(text) < text.len() ==> !is_digit(text[digits_len(text) as int]),
    decreases text.len(),
{
    if text.len() > 0 && is_digit(text[0]) {
        let tail = text.drop_first();
        lemma_digits_run(tail);
        assert forall|i: int| 0 <= i < digits_len(text) implies is_digit(#[trigger] text[i]) by {
            if i > 0 {
                assert(text[i] == tail[i - 1]);
            }
        }
        if digits_len(text) < text.len() {
            assert(text[digits_len(text) as int] == tail[digits_len(tail) as int]);
        }
    }
}

/// A numeric literal goes on over digits.
pub proof fn lemma_number_end_over_digits(s: Seq<char>, i: nat, j: nat, floating: bool)
    requires
        i <= j <= s.len(),
        forall|k: int| i <= k < j ==> is_digit(#[trigger] s[k]),
    ensures
        number_end(s, i, floating) == number_end(s, j, floating),
    decreases j - i,
{
    if i < j {
        assert(is_digit(s[i as int]));
        lemma_number_end_over_digits(s, i + 1, j, floating);
    }
}

/// A text that is written as a number, digits and then perhaps a point and
/// digits again, is scanned as one token: a number with that text. Behind
/// it the text is used up.
pub proof fn lemma_number_is_one_token(literal: Seq<char>)
    requires
        is_number_literal(literal),
    ensures
        scan(literal, 0) == (Scan {
            outcome: Ok(
                TokenView { kind: TokenType::Number, lexeme: literal, line: 1, column: 1 },
            ),
            next: literal.len(),
        }),
        scan(literal, literal.len()).outcome matches Ok(t) && t.kind == TokenType::EOF,
        token_stream(literal, 0) == seq![
            scan(literal, 0).outcome,
            scan(literal, literal.len()).outcome,
        ],
{
    let n = literal.len();
    let whole = digits_len(literal);
    lemma_digits_run(literal);
    assert(is_digit(literal[0]));
    assert(trivia_end(literal, 0) == 0);
    lemma_number_end_over_digits(literal, 0, whole, false);
    if whole < n {
        let rest = literal.subrange(whole as int + 1, n as int);
        assert forall|k: int| whole + 1 <= k < n implies is_digit(#[trigger] literal[k]) by {
            assert(literal[k] == rest[k - (whole + 1)]);
        }
        assert(is_digit(literal[whole as int + 1]));
        lemma_number_end_over_digits(literal, whole + 1, n, true);
        assert(number_end(literal, whole, false) == number_end(literal, whole + 1, true));
    }
    assert(number_end(literal, 0, false) == n);
    assert(literal.subrange(0, n as int) =~= literal);
    assert(trivia_end(literal, n) == n);
    assert(token_stream(literal, n) == seq![scan(literal, n).outcome]);
    assert(token_stream(literal, 0) =~= seq![scan(literal, 0).outcome] + token_stream(
        literal,
        n,
    ));
}

/// A piece of the text between the quotes of a string literal: one
/// character by itself, or an escape, a backslash and the character `c`
/// behind it.
pub struct Piece {
    pub escaped: bool,
    pub c: char,
}

impl Piece {
    /// Whether the piece may stand in a literal delimited by `quote`: an
    /// escape is one of `\n \t \r \\ \' \" \0`, and a character by itself is
    /// neither a backslash nor the quote.
    pub open spec fn fits(self, quote: char) -> bool {
        if self.escaped {
            self.c == 'n' || self.c == 't' || self.c == 'r' || self.c == '\\' || self.c == '\''
                || self.c == '"' || self.c == '0'
        } else {
            self.c != '\\' && self.c != quote
        }
    }

    /// The piece as it is written.
    pub open spec fn spelled(self) -> Seq<char> {
        if self.escaped {
            seq!['\\', self.c]
        } else {
            seq![self.c]
        }
    }

    /// The one character that the piece stands for.
    pub open spec fn meaning(self) -> char {
        if !self.escaped {
            self.c
        } else if self.c == 'n' {
            '\n'
        } else if self.c == 't' {
            '\t'
        } else if self.c == 'r' {
            '\r'
        } else if self.c == '0' {
            '\0'
        } else {
            self.c
        }
    }
}

/// The pieces as they are written, one behind the other.
pub open spec fn spelled(pieces: Seq<Piece>) -> Seq<char>
    decreases pieces.len(),
{
    if pieces.len() == 0 {
        Seq::empty()
    } else {
        pieces[0].spelled() + spelled(pieces.drop_first())
    }
}

/// The text that the pieces stand for: one character for each.
pub open spec fn meaning(pieces: Seq<Piece>) -> Seq<char> {
    Seq::new(pieces.len(), |k: int| pieces[k].meaning())
}

/// Reading a string literal resolves its escapes: where pieces that fit
/// stand written from `i` on and the quote behind them, the literal is
/// read up to behind that quote, and its text holds for each piece the one
/// character that it stands for, in order.
pub proof fn lemma_quoted_resolves_escapes(s: Seq<char>, i: nat, quote: char, pieces: Seq<Piece>)
    requires
        quote == '"' || quote == '\'',
        forall|k: int| 0 <= k < pieces.len() ==> (#[trigger] pieces[k]).fits(quote),
        i + spelled(pieces).len() < s.len(),
        s.subrange(i as int, i as int + spelled(pieces).len()) == spelled(pieces),
        s[i as int + spelled(pieces).len()] == quote,
    ensures
        quoted(s, i, quote) == (Quoted {
            text: Some(meaning(pieces)),
            end: i + spelled(pieces).len() + 1,
        }),
        meaning(pieces).len() == pieces.len(),
    decreases pieces.len(),
{
    let w = spelled(pieces);
    if pieces.len() == 0 {
        assert(meaning(pieces) =~= Seq::<char>::empty());
    } else {
        let piece = pieces[0];
        let head = piece.spelled();
        let tail = pieces.drop_first();
        let at = i as int;
        let next = at + head.len();
        assert(piece.fits(quote));
        assert(w == head + spelled(tail));
        assert forall|k: int| 0 <= k < head.len() implies s[at + k] == head[k] by {
            assert(s.subrange(at, at + w.len())[k] == w[k]);
        }
        assert(s.subrange(next, next + spelled(tail).len()) =~= spelled(tail)) by {
            assert forall|k: int| 0 <= k < spelled(tail).len() implies s[next + k] == spelled(
                tail,
            )[k] by {
                assert(s.subrange(at, at + w.len())[head.len() + k] == w[head.len() + k]);
            }
        }
        assert forall|k: int| 0 <= k < tail.len() implies (#[trigger] tail[k]).fits(quote) by {
            assert(tail[k] == pieces[k + 1]);
        }
        lemma_quoted_resolves_escapes(s, next as nat, quote, tail);
        assert(s[at] == head[0]);
        assert(seq![piece.meaning()] + meaning(tail) =~= meaning(pieces));
        if piece.escaped {
            assert(s[at + 1] == head[1]);
            assert(unescape(s[at + 1]) =~= seq![piece.meaning()]);
            assert(quoted(s, i, quote) == quoted(s, i + 2, quote).after(unescape(s[at + 1])));
        } else {
            assert(quoted(s, i, quote) == quoted(s, i + 1, quote).after(seq![piece.c]));
        }
    }
}

/// A string literal as it stands in a source of its own, pieces that fit
/// between two quotes of one kind, is scanned as one string token, whose
/// text is what the pieces stand for.
pub proof fn lemma_string_is_one_token(quote: char, pieces: Seq<Piece>)
    requires
        quote == '"' || quote == '\'',
        forall|k: int| 0 <= k < pieces.len() ==> (#[trigger] pieces[k]).fits(quote),
    ensures
        scan(seq![quote] + spelled(pieces) + seq![quote], 0) == (Scan {
            outcome: Ok(
                TokenView {
                    kind: TokenType::String,
                    lexeme: meaning(pieces),
                    line: 1,
                    column: 1,
                },
            ),
            next: spelled(pieces).len() + 2,
        }),
{
    let s = seq![quote] + spelled(pieces) + seq![quote];
    assert(s[0] == quote);
    assert(trivia_end(s, 0) == 0);
    assert(s.subrange(1, 1 + spelled(pieces).len() as int) =~= spelled(pieces));
    lemma_quoted_resolves_escapes(s, 1, quote, pieces);
}

/// A string literal that no quote closes is no token.
pub proof fn lemma_unterminated(s: Seq<char>, i: nat, quote: char)
    requires
        forall|k: int| i <= k < s.len() ==> s[k] != quote,
    ensures
        quoted(s, i, quote).text is None,
    decreases s.len() - i,
{
    if i < s.len() {
        if s[i as int] == '\\' {
            if i + 1 < s.len() {
                lemma_unterminated(s, i + 2, quote);
            }
        } else {
            lemma_unterminated(s, i + 1, quote);
        }
    }
}

/// Where a quote opens a string literal and its kind of quote does not
/// come again, scanning fails, and says that the literal has no end.
pub proof fn lemma_unterminated_is_an_error(s: Seq<char>, pos: nat)
    requires
        trivia_end(s, pos) < s.len(),
        s[trivia_end(s, pos) as int] == '"' || s[trivia_end(s, pos) as int] == '\'',
        forall|k: int|
            trivia_end(s, pos) < k < s.len() ==> #[trigger] s[k] != s[trivia_end(s, pos) as int],
    ensures
        scan(s, pos).outcome == Err::<TokenView, Seq<char>>(unterminated_string()),
{
    let start = trivia_end(s, pos);
    lemma_unterminated(s, start + 1, s[start as int]);
}

/// Placing parameters leaves a variable alone whose name none of them has.
pub proof fn lemma_place_keeps(
    st: GenState,
    params: Seq<ParameterView>,
    i: nat,
    name: Seq<char>,
)
    requires
        forall|j: int| i <= j < params.len() ==> (#[trigger] params[j]).name != name,
    ensures
        place_parameters(st, params, i).types.contains_key(name) == st.types.contains_key(name),
        place_parameters(st, params, i).offsets.contains_key(name) == st.offsets.contains_key(
            name,
        ),
        st.types.contains_key(name) ==> place_parameters(st, params, i).types[name]
            == st.types[name],
        st.offsets.contains_key(name) ==> place_parameters(st, params, i).offsets[name]
            == st.offsets[name],
    decreases params.len() - i,
{
    if i < params.len() {
        let p = params[i as int];
        let offset = (st.rbp_offset + crate::codegen::type_size(p.data_type)) as u64;
        lemma_place_keeps(st.declare(p.name, p.data_type, offset), params, i + 1, name);
    }
}

/// A parameter is a variable of its function: once the parameters are
/// placed, each has a place in the frame and its declared type, unless a
/// later parameter of the same name took them over.
pub proof fn lemma_parameters_are_variables(
    st: GenState,
    params: Seq<ParameterView>,
    i: nat,
    k: int,
)
    requires
        i <= k < params.len(),
        forall|j: int| k < j < params.len() ==> (#[trigger] params[j]).name != params[k].name,
    ensures
        place_parameters(st, params, i).offsets.contains_key(params[k].name),
        place_parameters(st, params, i).types.contains_key(params[k].name),
        place_parameters(st, params, i).types[params[k].name] == params[k].data_type,
    decreases k - i,
{
    let p = params[i as int];
    let offset = (st.rbp_offset + crate::codegen::type_size(p.data_type)) as u64;
    let declared = st.declare(p.name, p.data_type, offset);
    if i == k {
        lemma_place_keeps(declared, params, i + 1, p.name);
    } else {
        lemma_parameters_are_variables(declared, params, i + 1, k);
    }
}

} // verus!
