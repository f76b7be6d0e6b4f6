//! The scanner: from source text to tokens, one at a time.
//!
//! What the scanner yields is defined by [`scan`], a function of the text
//! and a position in it. [`Lexer`] walks the text and is proved to yield
//! exactly that.

use crate::text::char_is_digit;
use crate::text::char_is_numeric;
use crate::text::char_is_whitespace;
use crate::text::char_is_word_part;
use crate::text::char_is_word_start;
use crate::text::chars_of;
use crate::text::is_digit;
use crate::text::is_numeric;
use crate::text::is_whitespace;
use crate::text::is_word_part;
use crate::text::is_word_start;
use vstd::hash_map::StringHashMap;
use vstd::prelude::*;
use vstd::string::StringExecFns;

verus! {

/// The kinds of token.
#[derive(Debug, Clone, Copy, PartialEq, Eq, Structural)]
pub enum TokenType {
    Identifier,
    Number,
    String,
    Equals,
    DataType,
    Colon,
    Semi,
    Add,
    Sub,
    Mul,
    Div,
    LParen,
    RParen,
    LBrace,
    RBrace,
    Comma,
    Return,
    EOF,
}

/// A token: its kind, its text, and the line and column of its first
/// character (of the end of the text, for the token that ends the stream).
#[derive(Debug, Clone)]
pub struct Token {
    pub token_type: TokenType,
    pub lexeme: String,
    pub line: usize,
    pub column: usize,
}

/// What a [`Token`] stands for.
pub struct TokenView {
    pub kind: TokenType,
    pub lexeme: Seq<char>,
    pub line: nat,
    pub column: nat,
}

impl View for Token {
    type V = TokenView;

    open spec fn view(&self) -> TokenView {
        TokenView {
            kind: self.token_type,
            lexeme: self.lexeme@,
            line: self.line as nat,
            column: self.column as nat,
        }
    }
}

/// What one step of scanning gives, a token or the message of a lexical
/// error, as a value.
pub open spec fn outcome_view(r: Result<Token, String>) -> Result<TokenView, Seq<char>> {
    match r {
        Ok(t) => Ok(t@),
        Err(e) => Err(e@),
    }
}

/// The line of position `i` of `s`, counted from 1: one more than the
/// number of line feeds before it.
pub open spec fn line_at(s: Seq<char>, i: nat) -> nat
    decreases i,
{
    if i == 0 {
        1
    } else if s[i - 1] == '\n' {
        line_at(s, (i - 1) as nat) + 1
    } else {
        line_at(s, (i - 1) as nat)
    }
}

/// The column of position `i` of `s`, counted from 1: one more than the
/// number of characters between the last line feed before it and itself.
pub open spec fn column_at(s: Seq<char>, i: nat) -> nat
    decreases i,
{
    if i == 0 {
        1
    } else if s[i - 1] == '\n' {
        1
    } else {
        column_at(s, (i - 1) as nat) + 1
    }
}

/// The first position from `i` on that holds no whitespace.
pub open spec fn blank_end(s: Seq<char>, i: nat) -> nat
    decreases s.len() - i,
{
    if i < s.len() && is_whitespace(s[i as int]) {
        blank_end(s, i + 1)
    } else {
        i
    }
}

/// The first position from `i` on that holds a line feed, or the end.
pub open spec fn line_end(s: Seq<char>, i: nat) -> nat
    decreases s.len() - i,
{
    if i < s.len() && s[i as int] != '\n' {
        line_end(s, i + 1)
    } else {
        i
    }
}

/// Whether a comment starts at `i`: two hyphens.
pub open spec fn starts_comment(s: Seq<char>, i: nat) -> bool {
    i + 1 < s.len() && s[i as int] == '-' && s[(i + 1) as int] == '-'
}

/// What is passed over lies between the start and the end of the text.
pub proof fn lemma_blank_end_bounds(s: Seq<char>, i: nat)
    ensures
        i <= blank_end(s, i),
        i <= s.len() ==> blank_end(s, i) <= s.len(),
    decreases s.len() - i,
{
    if i < s.len() && is_whitespace(s[i as int]) {
        lemma_blank_end_bounds(s, i + 1);
    }
}

/// The end of a line lies between the start and the end of the text.
pub proof fn lemma_line_end_bounds(s: Seq<char>, i: nat)
    ensures
        i <= line_end(s, i),
        i <= s.len() ==> line_end(s, i) <= s.len(),
    decreases s.len() - i,
{
    if i < s.len() && s[i as int] != '\n' {
        lemma_line_end_bounds(s, i + 1);
    }
}

/// Where the next token starts: the first position from `i` on that is
/// neither whitespace nor inside a comment. A comment runs from two
/// hyphens to the end of its line.
pub open spec fn trivia_end(s: Seq<char>, i: nat) -> nat
    decreases s.len() - i,
{
    let j = blank_end(s, i);
    if starts_comment(s, j) {
        proof {
            lemma_blank_end_bounds(s, i);
            lemma_line_end_bounds(s, j + 1);
        }
        trivia_end(s, line_end(s, j))
    } else {
        j
    }
}

/// What an escape stands for: the character after the backslash gives one
/// character where the escape is known, and stays behind its backslash
/// where it is not.
pub open spec fn unescape(c: char) -> Seq<char> {
    if c == 'n' {
        seq!['\n']
    } else if c == 't' {
        seq!['\t']
    } else if c == 'r' {
        seq!['\r']
    } else if c == '\\' {
        seq!['\\']
    } else if c == '\'' {
        seq!['\'']
    } else if c == '"' {
        seq!['"']
    } else if c == '0' {
        seq!['\0']
    } else {
        seq!['\\', c]
    }
}

/// A string literal read from behind its opening quote: the text, if the
/// closing quote was found, and the position behind what was read.
pub struct Quoted {
    pub text: Option<Seq<char>>,
    pub end: nat,
}

impl Quoted {
    /// The same with `front` before the text.
    pub open spec fn after(self, front: Seq<char>) -> Quoted {
        Quoted {
            text: match self.text {
                Some(t) => Some(front + t),
                None => None,
            },
            end: self.end,
        }
    }
}

/// Reads a string literal from `i`, a position behind its opening quote,
/// up to the next `quote` that no backslash stands before.
pub open spec fn quoted(s: Seq<char>, i: nat, quote: char) -> Quoted
    decreases s.len() - i,
{
    if i >= s.len() {
        Quoted { text: None, end: s.len() }
    } else if s[i as int] == quote {
        Quoted { text: Some(Seq::empty()), end: i + 1 }
    } else if s[i as int] == '\\' {
        if i + 1 >= s.len() {
            Quoted { text: None, end: s.len() }
        } else {
            quoted(s, i + 2, quote).after(unescape(s[(i + 1) as int]))
        }
    } else {
        quoted(s, i + 1, quote).after(seq![s[i as int]])
    }
}

/// Where a numeric literal ends that has been read up to `i`: it goes on
/// over numeric characters and over one point, which must have a numeric
/// character behind it. `floating` says that the point has been read.
pub open spec fn number_end(s: Seq<char>, i: nat, floating: bool) -> nat
    decreases s.len() - i,
{
    if i >= s.len() {
        i
    } else if is_numeric(s[i as int]) {
        number_end(s, i + 1, floating)
    } else if s[i as int] == '.' && !floating && i + 1 < s.len() && is_numeric(s[(i + 1) as int]) {
        number_end(s, i + 1, true)
    } else {
        i
    }
}

/// Where a word ends that has been read up to `i`.
pub open spec fn word_end(s: Seq<char>, i: nat) -> nat
    decreases s.len() - i,
{
    if i < s.len() && is_word_part(s[i as int]) {
        word_end(s, i + 1)
    } else {
        i
    }
}

/// The keywords, each with the kind of its token: the names of the types,
/// and `return`.
pub open spec fn keyword_table() -> Map<Seq<char>, TokenType> {
    Map::empty().insert("int"@, TokenType::DataType).insert("char"@, TokenType::DataType).insert(
        "char*"@,
        TokenType::DataType,
    ).insert("return"@, TokenType::Return)
}

/// The kind of a word: that of the keyword where it is one, an identifier
/// otherwise.
pub open spec fn word_kind(w: Seq<char>) -> TokenType {
    if keyword_table().contains_key(w) {
        keyword_table()[w]
    } else {
        TokenType::Identifier
    }
}

/// The kind of the token that a character is by itself, if it is one.
pub open spec fn punct_kind(c: char) -> Option<TokenType> {
    if c == '=' {
        Some(TokenType::Equals)
    } else if c == ';' {
        Some(TokenType::Semi)
    } else if c == ':' {
        Some(TokenType::Colon)
    } else if c == ',' {
        Some(TokenType::Comma)
    } else if c == '+' {
        Some(TokenType::Add)
    } else if c == '-' {
        Some(TokenType::Sub)
    } else if c == '/' {
        Some(TokenType::Div)
    } else if c == '*' {
        Some(TokenType::Mul)
    } else if c == '(' {
        Some(TokenType::LParen)
    } else if c == ')' {
        Some(TokenType::RParen)
    } else if c == '{' {
        Some(TokenType::LBrace)
    } else if c == '}' {
        Some(TokenType::RBrace)
    } else {
        None
    }
}

/// The message for a string literal without its closing quote.
pub open spec fn unterminated_string() -> Seq<char> {
    "Unterminated string literal"@
}

/// The message for a character that starts no token.
pub open spec fn unknown_character(c: char) -> Seq<char> {
    "[twee::error] unknown character '"@.push(c).push('\'')
}

/// One step of scanning: a token or the message of a lexical error, and
/// the position from which scanning goes on.
pub struct Scan {
    pub outcome: Result<TokenView, Seq<char>>,
    pub next: nat,
}

/// Scans `s` from `pos` for one token.
///
/// Whitespace and comments before the token are passed over. At the end of
/// the text the token is `EOF`, with no text, and the position stays. A
/// quote starts a string literal, a digit a number, a letter or an
/// underscore a word; one of `= ; : , + - / * ( ) { }` is a token by
/// itself; any other character is an error, and scanning goes on behind
/// it.
pub open spec fn scan(s: Seq<char>, pos: nat) -> Scan {
    let start = trivia_end(s, pos);
    let line = line_at(s, start);
    let column = column_at(s, start);
    if start >= s.len() {
        Scan {
            outcome: Ok(
                TokenView { kind: TokenType::EOF, lexeme: Seq::empty(), line, column },
            ),
            next: start,
        }
    } else {
        let c = s[start as int];
        if c == '"' || c == '\'' {
            let q = quoted(s, start + 1, c);
            Scan {
                outcome: match q.text {
                    Some(text) => Ok(
                        TokenView { kind: TokenType::String, lexeme: text, line, column },
                    ),
                    None => Err(unterminated_string()),
                },
                next: q.end,
            }
        } else if is_digit(c) {
            let end = number_end(s, start, false);
            Scan {
                outcome: Ok(
                    TokenView {
                        kind: TokenType::Number,
                        lexeme: s.subrange(start as int, end as int),
                        line,
                        column,
                    },
                ),
                next: end,
            }
        } else if is_word_start(c) {
            let end = word_end(s, start);
            let word = s.subrange(start as int, end as int);
            Scan {
                outcome: Ok(TokenView { kind: word_kind(word), lexeme: word, line, column }),
                next: end,
            }
        } else {
            Scan {
                outcome: match punct_kind(c) {
                    Some(kind) => Ok(TokenView { kind, lexeme: seq![c], line, column }),
                    None => Err(unknown_character(c)),
                },
                next: start + 1,
            }
        }
    }
}

/// A string literal ends behind where its reading started.
pub proof fn lemma_quoted_bounds(s: Seq<char>, i: nat, quote: char)
    requires
        i <= s.len(),
    ensures
        i <= quoted(s, i, quote).end <= s.len(),
    decreases s.len() - i,
{
    if i >= s.len() {
    } else if s[i as int] == quote {
    } else if s[i as int] == '\\' {
        if i + 1 < s.len() {
            lemma_quoted_bounds(s, i + 2, quote);
        }
    } else {
        lemma_quoted_bounds(s, i + 1, quote);
    }
}

/// A numeric literal ends behind where its reading stood.
pub proof fn lemma_number_end_bounds(s: Seq<char>, i: nat, floating: bool)
    ensures
        i <= number_end(s, i, floating),
        i <= s.len() ==> number_end(s, i, floating) <= s.len(),
    decreases s.len() - i,
{
    if i >= s.len() {
    } else if is_numeric(s[i as int]) {
        lemma_number_end_bounds(s, i + 1, floating);
    } else if s[i as int] == '.' && !floating && i + 1 < s.len() && is_numeric(
        s[(i + 1) as int],
    ) {
        lemma_number_end_bounds(s, i + 1, true);
    }
}

/// A word ends behind where its reading stood.
pub proof fn lemma_word_end_bounds(s: Seq<char>, i: nat)
    ensures
        i <= word_end(s, i),
        i <= s.len() ==> word_end(s, i) <= s.len(),
    decreases s.len() - i,
{
    if i < s.len() && is_word_part(s[i as int]) {
        lemma_word_end_bounds(s, i + 1);
    }
}

/// The next token starts at or behind the position, within the text.
pub proof fn lemma_trivia_end_bounds(s: Seq<char>, i: nat)
    ensures
        i <= trivia_end(s, i),
        i <= s.len() ==> trivia_end(s, i) <= s.len(),
    decreases s.len() - i,
{
    let j = blank_end(s, i);
    lemma_blank_end_bounds(s, i);
    if starts_comment(s, j) {
        lemma_line_end_bounds(s, j + 1);
        lemma_trivia_end_bounds(s, line_end(s, j));
    }
}

/// Scanning moves forward: it never goes back, it stays within the text,
/// and whatever it yields but `EOF` takes at least one character.
pub proof fn lemma_scan_advances(s: Seq<char>, pos: nat)
    ensures
        pos <= scan(s, pos).next,
        pos <= s.len() ==> scan(s, pos).next <= s.len(),
        !(scan(s, pos).outcome matches Ok(t) && t.kind == TokenType::EOF) ==> pos < scan(
            s,
            pos,
        ).next,
{
    let start = trivia_end(s, pos);
    lemma_trivia_end_bounds(s, pos);
    if start < s.len() {
        let c = s[start as int];
        if c == '"' || c == '\'' {
            lemma_quoted_bounds(s, start + 1, c);
        } else if is_digit(c) {
            lemma_number_end_bounds(s, start + 1, false);
        } else if is_word_start(c) {
            lemma_word_end_bounds(s, start + 1);
        }
    }
}

/// Whether a step of scanning yielded a token after which more may follow:
/// one that is not `EOF`.
pub open spec fn goes_on(outcome: Result<TokenView, Seq<char>>) -> bool {
    outcome matches Ok(t) && t.kind != TokenType::EOF
}

/// All that scanning `s` from `pos` yields, in order: the tokens up to the
/// `EOF` that ends them, or up to the message of the first lexical error.
pub open spec fn token_stream(s: Seq<char>, pos: nat) -> Seq<Result<TokenView, Seq<char>>>
    decreases s.len() - pos,
{
    let step = scan(s, pos);
    if goes_on(step.outcome) {
        proof {
            lemma_scan_advances(s, pos);
            lemma_trivia_end_bounds(s, pos);
        }
        seq![step.outcome] + token_stream(s, step.next)
    } else {
        seq![step.outcome]
    }
}

/// Where a scanner stands: a position in the text, and its line and column.
#[derive(Debug, Clone, Copy)]
struct Cursor {
    pos: usize,
    line: usize,
    column: usize,
}

/// A scanner over one source text. It yields the tokens of the text one
/// by one, and `EOF` again and again once the text is used up.
pub struct Lexer<'a> {
    source: &'a str,
    chars: Vec<char>,
    cursor: Cursor,
    keywords: StringHashMap<TokenType>,
}

/// What a [`Lexer`] stands for: the text, and how far it has been read.
pub struct LexerView {
    pub text: Seq<char>,
    pub pos: nat,
}

/// Lines and columns are at most one more than the position.
pub proof fn lemma_line_column_bounds(s: Seq<char>, i: nat)
    ensures
        1 <= line_at(s, i) <= i + 1,
        1 <= column_at(s, i) <= i + 1,
    decreases i,
{
    if i > 0 {
        lemma_line_column_bounds(s, (i - 1) as nat);
    }
}

/// The table of the keywords.
fn keywords() -> (table: StringHashMap<TokenType>)
    ensures
        table@ == keyword_table(),
{
    let mut table = StringHashMap::new();
    table.insert(String::from_str("int"), TokenType::DataType);
    table.insert(String::from_str("char"), TokenType::DataType);
    table.insert(String::from_str("char*"), TokenType::DataType);
    table.insert(String::from_str("return"), TokenType::Return);
    table
}

/// The kind of the token that `c` is by itself, if it is one.
fn punctuation(c: char) -> (kind: Option<TokenType>)
    ensures
        kind == punct_kind(c),
{
    if c == '=' {
        Some(TokenType::Equals)
    } else if c == ';' {
        Some(TokenType::Semi)
    } else if c == ':' {
        Some(TokenType::Colon)
    } else if c == ',' {
        Some(TokenType::Comma)
    } else if c == '+' {
        Some(TokenType::Add)
    } else if c == '-' {
        Some(TokenType::Sub)
    } else if c == '/' {
        Some(TokenType::Div)
    } else if c == '*' {
        Some(TokenType::Mul)
    } else if c == '(' {
        Some(TokenType::LParen)
    } else if c == ')' {
        Some(TokenType::RParen)
    } else if c == '{' {
        Some(TokenType::LBrace)
    } else if c == '}' {
        Some(TokenType::RBrace)
    } else {
        None
    }
}

impl<'a> View for Lexer<'a> {
    type V = LexerView;

    closed spec fn view(&self) -> LexerView {
        LexerView { text: self.chars@, pos: self.cursor.pos as nat }
    }
}

impl<'a> Clone for Lexer<'a> {
    fn clone(&self) -> (copy: Self)
        ensures
            copy@ == self@,
    {
        proof {
            use_type_invariant(self);
        }
        Lexer {
            source: self.source,
            chars: self.chars.clone(),
            cursor: self.cursor,
            keywords: keywords(),
        }
    }
}

impl<'a> Lexer<'a> {
    #[verifier::type_invariant]
    spec fn well_formed(self) -> bool {
        &&& self.chars@ == self.source@
        &&& self.keywords@ == keyword_table()
        &&& self.chars.len() < usize::MAX
        &&& self.cursor.pos <= self.chars.len()
        &&& self.cursor.line == line_at(self.chars@, self.cursor.pos as nat)
        &&& self.cursor.column == column_at(self.chars@, self.cursor.pos as nat)
    }

    /// A scanner at the start of `source`. The text must be short enough
    /// for its lines and columns to be counted.
    pub fn new(source: &'a str) -> (lexer: Self)
        requires
            source@.len() < usize::MAX,
        ensures
            lexer@ == (LexerView { text: source@, pos: 0 }),
    {
        let chars = chars_of(source);
        Lexer { source, chars, cursor: Cursor { pos: 0, line: 1, column: 1 }, keywords: keywords() }
    }

    /// The character at the position, if the text goes that far.
    fn current(&self) -> (c: Option<char>)
        ensures
            self@.pos <= self@.text.len(),
            c == (if self@.pos < self@.text.len() {
                Some(self@.text[self@.pos as int])
            } else {
                None::<char>
            }),
    {
        proof {
            use_type_invariant(self);
        }
        if self.cursor.pos < self.chars.len() {
            Some(self.chars[self.cursor.pos])
        } else {
            None
        }
    }

    /// The character behind the one at the position, if the text goes
    /// that far.
    fn peek(&self) -> (c: Option<char>)
        ensures
            c == (if self@.pos + 1 < self@.text.len() {
                Some(self@.text[(self@.pos + 1) as int])
            } else {
                None::<char>
            }),
    {
        proof {
            use_type_invariant(self);
        }
        if self.cursor.pos + 1 < self.chars.len() {
            Some(self.chars[self.cursor.pos + 1])
        } else {
            None
        }
    }

    /// Goes one character on, and counts lines and columns: behind a line
    /// feed a new line starts, at column 1.
    fn advance(&mut self)
        requires
            old(self)@.pos < old(self)@.text.len(),
        ensures
            final(self)@ == (LexerView { text: old(self)@.text, pos: old(self)@.pos + 1 }),
    {
        proof {
            use_type_invariant(&*self);
            lemma_line_column_bounds(self.chars@, self.cursor.pos as nat);
        }
        let at = self.cursor;
        if self.chars[at.pos] == '\n' {
            self.cursor = Cursor { pos: at.pos + 1, line: at.line + 1, column: 1 };
        } else {
            self.cursor = Cursor { pos: at.pos + 1, line: at.line, column: at.column + 1 };
        }
    }

    /// A token at the place `at`.
    fn make(at: Cursor, token_type: TokenType, lexeme: String) -> (token: Token)
        ensures
            token@ == (TokenView {
                kind: token_type,
                lexeme: lexeme@,
                line: at.line as nat,
                column: at.column as nat,
            }),
    {
        Token { token_type, lexeme, line: at.line, column: at.column }
    }

    /// Passes over whitespace.
    fn skip_whitespace(&mut self)
        ensures
            final(self)@ == (LexerView {
                text: old(self)@.text,
                pos: blank_end(old(self)@.text, old(self)@.pos),
            }),
    {
        loop
            invariant
                self@.text == old(self)@.text,
                blank_end(self@.text, self@.pos) == blank_end(old(self)@.text, old(self)@.pos),
            ensures
                self@.text == old(self)@.text,
                self@.pos == blank_end(old(self)@.text, old(self)@.pos),
            decreases self@.text.len() - self@.pos,
        {
            match self.current() {
                Some(c) => {
                    if char_is_whitespace(c) {
                        self.advance();
                    } else {
                        break ;
                    }
                },
                None => {
                    break ;
                },
            }
        }
    }

    /// Passes over a comment, up to the line feed that ends it, if one
    /// starts at the position.
    fn skip_comment(&mut self)
        ensures
            final(self)@ == (LexerView {
                text: old(self)@.text,
                pos: if starts_comment(old(self)@.text, old(self)@.pos) {
                    line_end(old(self)@.text, old(self)@.pos)
                } else {
                    old(self)@.pos
                },
            }),
    {
        let first = self.current();
        let second = self.peek();
        if first == Some('-') && second == Some('-') {
            loop
                invariant
                    self@.text == old(self)@.text,
                    line_end(self@.text, self@.pos) == line_end(old(self)@.text, old(self)@.pos),
                ensures
                    self@.text == old(self)@.text,
                    self@.pos == line_end(old(self)@.text, old(self)@.pos),
                decreases self@.text.len() - self@.pos,
            {
                match self.current() {
                    Some(c) => {
                        if c == '\n' {
                            break ;
                        }
                        self.advance();
                    },
                    None => {
                        break ;
                    },
                }
            }
        }
    }

    /// Reads a string literal, from its opening quote, at which the scanner
    /// stands, to its closing one: the text between them with the escapes
    /// resolved, or the message that the literal has no end.
    pub fn process_string(&mut self) -> (r: Result<String, String>)
        requires
            old(self)@.pos < old(self)@.text.len(),
        ensures
            final(self)@.text == old(self)@.text,
            final(self)@.pos == quoted(
                old(self)@.text,
                old(self)@.pos + 1,
                old(self)@.text[old(self)@.pos as int],
            ).end,
            match quoted(
                old(self)@.text,
                old(self)@.pos + 1,
                old(self)@.text[old(self)@.pos as int],
            ).text {
                Some(text) => r matches Ok(value) && value@ == text,
                None => r matches Err(e) && e@ == unterminated_string(),
            },
    {
        let ghost s = self@.text;
        let ghost start = self@.pos + 1;
        let quote = match self.current() {
            Some(c) => c,
            None => {
                return Err(String::from_str("Unterminated string literal"));
            },
        };
        self.advance();
        let mut value = String::new();
        loop
            invariant
                s == old(self)@.text,
                start == old(self)@.pos + 1,
                quote == s[old(self)@.pos as int],
                self@.text == s,
                self@.pos <= s.len(),
                start <= s.len(),
                quoted(s, start, quote) == quoted(s, self@.pos, quote).after(value@),
            decreases s.len() - self@.pos,
        {
            let ghost before = self@.pos;
            let ghost so_far = value@;
            let ghost step: Seq<char>;
            let ch = match self.current() {
                Some(c) => c,
                None => {
                    return Err(String::from_str("Unterminated string literal"));
                },
            };
            if ch == quote {
                self.advance();
                assert(value@ + Seq::<char>::empty() =~= value@);
                return Ok(value);
            }
            if ch == '\\' {
                self.advance();
                match self.current() {
                    Some(c) => {
                        if c == 'n' {
                            value.push('\n');
                        } else if c == 't' {
                            value.push('\t');
                        } else if c == 'r' {
                            value.push('\r');
                        } else if c == '\\' {
                            value.push('\\');
                        } else if c == '\'' {
                            value.push('\'');
                        } else if c == '"' {
                            value.push('"');
                        } else if c == '0' {
                            value.push('\0');
                        } else {
                            value.push('\\');
                            value.push(c);
                        }
                        proof {
                            step = unescape(c);
                        }
                        assert(value@ =~= so_far + step);
                    },
                    None => {
                        return Err(String::from_str("Unterminated string literal"));
                    },
                }
            } else {
                value.push(ch);
                proof {
                    step = seq![ch];
                }
                assert(value@ =~= so_far + step);
            }
            self.advance();
            proof {
                let rest = quoted(s, self@.pos, quote);
                assert(quoted(s, before, quote) == rest.after(step));
                match rest.text {
                    Some(t) => {
                        assert(so_far + (step + t) =~= value@ + t);
                    },
                    None => {},
                }
            }
        }
    }

    /// Reads a numeric literal.
    fn process_numeric(&mut self) -> (value: String)
        ensures
            final(self)@.text == old(self)@.text,
            final(self)@.pos == number_end(old(self)@.text, old(self)@.pos, false),
            old(self)@.pos <= final(self)@.pos <= old(self)@.text.len(),
            value@ == old(self)@.text.subrange(old(self)@.pos as int, final(self)@.pos as int),
    {
        let ghost s = self@.text;
        let ghost start = self@.pos;
        proof {
            use_type_invariant(&*self);
        }
        let mut value = String::new();
        let mut floating = false;
        loop
            invariant
                self@.text == s,
                start <= self@.pos <= s.len(),
                number_end(s, start, false) == number_end(s, self@.pos, floating),
                value@ == s.subrange(start as int, self@.pos as int),
            ensures
                self@.text == s,
                start <= self@.pos <= s.len(),
                self@.pos == number_end(s, start, false),
                value@ == s.subrange(start as int, self@.pos as int),
            decreases s.len() - self@.pos,
        {
            let ghost before = self@.pos;
            let ch = match self.current() {
                Some(c) => c,
                None => {
                    break ;
                },
            };
            if char_is_numeric(ch) {
                self.advance();
                value.push(ch);
            } else if ch == '.' && !floating {
                let digit_follows = match self.peek() {
                    Some(n) => char_is_numeric(n),
                    None => false,
                };
                if !digit_follows {
                    break ;
                }
                floating = true;
                value.push(ch);
                self.advance();
            } else {
                break ;
            }
            assert(value@ =~= s.subrange(start as int, self@.pos as int));
        }
        value
    }

    /// Reads a word: an identifier or a keyword.
    fn process_identifier(&mut self) -> (value: String)
        ensures
            final(self)@.text == old(self)@.text,
            final(self)@.pos == word_end(old(self)@.text, old(self)@.pos),
            old(self)@.pos <= final(self)@.pos <= old(self)@.text.len(),
            value@ == old(self)@.text.subrange(old(self)@.pos as int, final(self)@.pos as int),
    {
        let ghost s = self@.text;
        let ghost start = self@.pos;
        proof {
            use_type_invariant(&*self);
        }
        let mut value = String::new();
        loop
            invariant
                self@.text == s,
                start <= self@.pos <= s.len(),
                word_end(s, start) == word_end(s, self@.pos),
                value@ == s.subrange(start as int, self@.pos as int),
            ensures
                self@.text == s,
                start <= self@.pos <= s.len(),
                self@.pos == word_end(s, start),
                value@ == s.subrange(start as int, self@.pos as int),
            decreases s.len() - self@.pos,
        {
            let ch = match self.current() {
                Some(c) => c,
                None => {
                    break ;
                },
            };
            if char_is_word_part(ch) {
                value.push(ch);
                self.advance();
            } else {
                break ;
            }
            assert(value@ =~= s.subrange(start as int, self@.pos as int));
        }
        value
    }

    /// Scans the next token, or says why there is none: a character that
    /// starts no token, or a string literal that the text ends in.
    pub fn next_token(&mut self) -> (r: Result<Token, String>)
        ensures
            final(self)@.text == old(self)@.text,
            final(self)@.pos == scan(old(self)@.text, old(self)@.pos).next,
            outcome_view(r) == scan(old(self)@.text, old(self)@.pos).outcome,
    {
        let ghost s = self@.text;
        let ghost from = self@.pos;
        loop
            invariant
                s == old(self)@.text,
                from == old(self)@.pos,
                self@.text == s,
                trivia_end(s, self@.pos) == trivia_end(s, from),
            decreases s.len() - self@.pos,
        {
            let ghost before = self@.pos;
            self.skip_whitespace();
            proof {
                use_type_invariant(&*self);
                lemma_blank_end_bounds(s, before);
                use_type_invariant(&*self);
            }
            let at = self.cursor;
            let ch = match self.current() {
                Some(c) => c,
                None => {
                    return Ok(Self::make(at, TokenType::EOF, String::new()));
                },
            };
            let comment = ch == '-' && match self.peek() {
                Some(n) => n == '-',
                None => false,
            };
            if comment {
                self.skip_comment();
                proof {
                    lemma_line_end_bounds(s, self.cursor.pos as nat);
                    lemma_line_end_bounds(s, (at.pos + 1) as nat);
                }
                continue ;
            }
            assert(trivia_end(s, from) == at.pos);
            if ch == '"' || ch == '\'' {
                return match self.process_string() {
                    Ok(value) => Ok(Self::make(at, TokenType::String, value)),
                    Err(e) => Err(e),
                };
            } else if char_is_digit(ch) {
                let value = self.process_numeric();
                return Ok(Self::make(at, TokenType::Number, value));
            } else if char_is_word_start(ch) {
                let value = self.process_identifier();
                proof {
                    use_type_invariant(&*self);
                }
                let kind = match self.keywords.get(value.as_str()) {
                    Some(kind) => *kind,
                    None => TokenType::Identifier,
                };
                return Ok(Self::make(at, kind, value));
            } else {
                self.advance();
                return match punctuation(ch) {
                    Some(kind) => {
                        let mut lexeme = String::new();
                        lexeme.push(ch);
                        assert(lexeme@ =~= seq![ch]);
                        Ok(Self::make(at, kind, lexeme))
                    },
                    None => {
                        let mut message = String::from_str("[twee::error] unknown character '");
                        message.push(ch);
                        message.push('\'');
                        Err(message)
                    },
                };
            }
        }
    }

    /// The next token, or nothing where scanning fails.
    pub fn next(&mut self) -> (r: Option<Token>)
        ensures
            final(self)@.text == old(self)@.text,
            final(self)@.pos == scan(old(self)@.text, old(self)@.pos).next,
            match scan(old(self)@.text, old(self)@.pos).outcome {
                Ok(t) => r matches Some(token) && token@ == t,
                Err(_) => r is None,
            },
    {
        match self.next_token() {
            Ok(t) => Some(t),
            Err(_) => None,
        }
    }
}

} // verus!
