//! Tokens and the lexical scanner: source text in, token sequence out.

use vstd::prelude::*;

use crate::numeric::{bits_of_decimal, is_digit_char, is_number_lexeme, all_digit_chars};

verus! {

use vstd::string::StrSliceExecFns;
use vstd::string::StringExecFns;

/// The closed set of token kinds.
#[derive(PartialEq, Eq, Structural, Debug, Clone, Copy)]
pub enum TokenType {
    LeftParen,
    RightParen,
    LeftBrace,
    RightBrace,
    Comma,
    Dot,
    // Arithmetic
    Minus,
    Plus,
    Slash,
    Star,
    // General
    Semicolon,
    // Equality and comparison
    Bang,
    BangEqual,
    Equal,
    EqualEqual,
    Greater,
    GreaterEqual,
    Less,
    LessEqual,
    // Literals
    Identifier,
    String,
    Number,
    // Keywords
    And,
    Class,
    Else,
    False,
    Fn,
    For,
    If,
    Nil,
    Or,
    Print,
    Return,
    Super,
    This,
    True,
    Let,
    While,
    EOF,
}

/// The literal payload of a string or number token. A number is carried as
/// the bit pattern of the IEEE double it denotes.
#[derive(Debug)]
pub enum Literal {
    String(String),
    Number(u64),
}

/// The mathematical image of a literal payload.
pub ghost enum LiteralModel {
    String(Seq<char>),
    Number(u64),
}

impl View for Literal {
    type V = LiteralModel;

    open spec fn view(&self) -> LiteralModel {
        match self {
            Literal::String(s) => LiteralModel::String(s@),
            Literal::Number(b) => LiteralModel::Number(*b),
        }
    }
}

impl Clone for Literal {
    fn clone(&self) -> (r: Self)
        ensures
            r@ == self@,
    {
        match self {
            Literal::String(s) => Literal::String(s.clone()),
            Literal::Number(b) => Literal::Number(*b),
        }
    }
}

impl PartialEq for Literal {
    fn eq(&self, other: &Self) -> (r: bool) {
        match (self, other) {
            (Literal::String(a), Literal::String(b)) => str_eq(a.as_str(), b.as_str()),
            (Literal::Number(a), Literal::Number(b)) => a == b,
            _ => false,
        }
    }
}

impl vstd::std_specs::cmp::PartialEqSpecImpl for Literal {
    open spec fn obeys_eq_spec() -> bool {
        true
    }

    open spec fn eq_spec(&self, other: &Self) -> bool {
        match (self, other) {
            (Literal::String(a), Literal::String(b)) => a@ == b@,
            (Literal::Number(a), Literal::Number(b)) => a == b,
            _ => false,
        }
    }
}

/// One token: its kind, the exact source text it came from, an optional
/// literal payload, and the 1-based line it starts on.
#[derive(Debug)]
pub struct Token {
    pub token_type: TokenType,
    pub lexeme: String,
    pub literal: Option<Literal>,
    pub line: usize,
}

/// The mathematical image of a token.
pub ghost struct TokenModel {
    pub token_type: TokenType,
    pub lexeme: Seq<char>,
    pub literal: Option<LiteralModel>,
    pub line: nat,
}

impl View for Token {
    type V = TokenModel;

    open spec fn view(&self) -> TokenModel {
        TokenModel {
            token_type: self.token_type,
            lexeme: self.lexeme@,
            literal: match self.literal {
                Some(l) => Some(l@),
                None => None,
            },
            line: self.line as nat,
        }
    }
}

impl Clone for Token {
    fn clone(&self) -> (r: Self)
        ensures
            r@ == self@,
    {
        Token {
            token_type: self.token_type,
            lexeme: self.lexeme.clone(),
            literal: match &self.literal {
                Some(l) => Some(l.clone()),
                None => None,
            },
            line: self.line,
        }
    }
}

/// Compare two string slices character by character.
pub fn str_eq(a: &str, b: &str) -> (r: bool)
    ensures
        r == (a@ == b@),
{
    let alen = a.unicode_len();
    let blen = b.unicode_len();
    if alen != blen {
        return false;
    }
    let mut i: usize = 0;
    while i < alen
        invariant
            alen == a@.len(),
            alen == b@.len(),
            0 <= i <= alen,
            forall|j: int| 0 <= j < i ==> a@[j] == b@[j],
        decreases alen - i,
    {
        if a.get_char(i) != b.get_char(i) {
            return false;
        }
        i = i + 1;
    }
    proof {
        assert(a@ =~= b@);
    }
    true
}

/// The kind reserved for a lexeme, if any.
pub open spec fn spec_match_reserved(s: Seq<char>) -> Option<TokenType> {
    if s == "and"@ {
        Some(TokenType::And)
    } else if s == "class"@ {
        Some(TokenType::Class)
    } else if s == "else"@ {
        Some(TokenType::Else)
    } else if s == "false"@ {
        Some(TokenType::False)
    } else if s == "for"@ {
        Some(TokenType::For)
    } else if s == "fn"@ {
        Some(TokenType::Fn)
    } else if s == "if"@ {
        Some(TokenType::If)
    } else if s == "nil"@ {
        Some(TokenType::Nil)
    } else if s == "or"@ {
        Some(TokenType::Or)
    } else if s == "print"@ {
        Some(TokenType::Print)
    } else if s == "return"@ {
        Some(TokenType::Return)
    } else if s == "super"@ {
        Some(TokenType::Super)
    } else if s == "this"@ {
        Some(TokenType::This)
    } else if s == "true"@ {
        Some(TokenType::True)
    } else if s == "let"@ {
        Some(TokenType::Let)
    } else if s == "while"@ {
        Some(TokenType::While)
    } else {
        None
    }
}

/// Look a lexeme up in the reserved-word table.
pub fn match_reserved(s: &str) -> (r: Option<TokenType>)
    ensures
        r == spec_match_reserved(s@),
{
    if str_eq(s, "and") {
        Some(TokenType::And)
    } else if str_eq(s, "class") {
        Some(TokenType::Class)
    } else if str_eq(s, "else") {
        Some(TokenType::Else)
    } else if str_eq(s, "false") {
        Some(TokenType::False)
    } else if str_eq(s, "for") {
        Some(TokenType::For)
    } else if str_eq(s, "fn") {
        Some(TokenType::Fn)
    } else if str_eq(s, "if") {
        Some(TokenType::If)
    } else if str_eq(s, "nil") {
        Some(TokenType::Nil)
    } else if str_eq(s, "or") {
        Some(TokenType::Or)
    } else if str_eq(s, "print") {
        Some(TokenType::Print)
    } else if str_eq(s, "return") {
        Some(TokenType::Return)
    } else if str_eq(s, "super") {
        Some(TokenType::Super)
    } else if str_eq(s, "this") {
        Some(TokenType::This)
    } else if str_eq(s, "true") {
        Some(TokenType::True)
    } else if str_eq(s, "let") {
        Some(TokenType::Let)
    } else if str_eq(s, "while") {
        Some(TokenType::While)
    } else {
        None
    }
}

/// Letters and the underscore open identifiers.
pub open spec fn is_alpha_char(c: char) -> bool {
    ('a' <= c && c <= 'z') || ('A' <= c && c <= 'Z') || c == '_'
}

pub open spec fn is_alphanumeric_char(c: char) -> bool {
    is_digit_char(c) || is_alpha_char(c)
}

fn is_digit(c: char) -> (r: bool)
    ensures
        r == is_digit_char(c),
{
    c >= '0' && c <= '9'
}

fn is_alpha(c: char) -> (r: bool)
    ensures
        r == is_alpha_char(c),
{
    (c >= 'a' && c <= 'z') || (c >= 'A' && c <= 'Z') || c == '_'
}

fn is_alphanumeric(c: char) -> (r: bool)
    ensures
        r == is_alphanumeric_char(c),
{
    is_digit(c) || is_alpha(c)
}

} // verus!

verus! {

// --- The mathematical scanner -------------------------------------------
//
// The executable scanner below is specified against these functions: they
// say, position by position, what one step of scanning yields and what the
// whole token sequence of a source text is.

/// Newlines in a piece of text.
pub open spec fn count_newlines(s: Seq<char>) -> nat
    decreases s.len(),
{
    if s.len() == 0 {
        0
    } else {
        count_newlines(s.drop_last()) + if s.last() == '\n' {
            1nat
        } else {
            0nat
        }
    }
}

/// The first position at or after `j` that leaves a line comment: the next
/// newline, or the end of the text.
pub open spec fn line_comment_end(src: Seq<char>, j: int) -> int
    decreases src.len() - j,
{
    if j < src.len() && src[j] != '\n' {
        line_comment_end(src, j + 1)
    } else {
        j
    }
}

/// The first position at or after `j` holding a non-digit, or the end.
pub open spec fn digits_end(src: Seq<char>, j: int) -> int
    decreases src.len() - j,
{
    if j < src.len() && is_digit_char(src[j]) {
        digits_end(src, j + 1)
    } else {
        j
    }
}

/// The first position at or after `j` past identifier characters.
pub open spec fn ident_end(src: Seq<char>, j: int) -> int
    decreases src.len() - j,
{
    if j < src.len() && is_alphanumeric_char(src[j]) {
        ident_end(src, j + 1)
    } else {
        j
    }
}

/// The position of the closing quote at or after `j`, or the end of the text
/// when the string is unterminated.
pub open spec fn string_close(src: Seq<char>, j: int) -> int
    decreases src.len() - j,
{
    if j < src.len() && src[j] != '"' {
        string_close(src, j + 1)
    } else {
        j
    }
}

/// Where a number lexeme that starts at `i` ends: digits, then a fraction
/// only when a dot is followed by another digit.
pub open spec fn number_end(src: Seq<char>, i: int) -> int {
    let j = digits_end(src, i);
    if j + 1 < src.len() && src[j] == '.' && is_digit_char(src[j + 1]) {
        digits_end(src, j + 2)
    } else {
        j
    }
}

/// The bit pattern a number lexeme denotes.
pub open spec fn spec_num_bits(lex: Seq<char>) -> u64 {
    match bits_of_decimal(lex) {
        Some(b) => b,
        None => 0,
    }
}

/// What one scanner step yields besides a possible token: where scanning
/// continues and on which line.
pub ghost struct ScanStep {
    pub token: Option<TokenModel>,
    pub next: int,
    pub line: nat,
}

pub open spec fn simple_step(src: Seq<char>, i: int, line: nat, kind: TokenType, next: int) -> ScanStep {
    ScanStep {
        token: Some(
            TokenModel { token_type: kind, lexeme: src.subrange(i, next), literal: None, line },
        ),
        next,
        line,
    }
}

/// One step of scanning at position `i` (which must be in range): a token,
/// a skip, or a failure with its message.
pub open spec fn spec_scan_token(src: Seq<char>, i: int, line: nat) -> Result<ScanStep, Seq<char>> {
    let c = src[i];
    if c == '(' {
        Ok(simple_step(src, i, line, TokenType::LeftParen, i + 1))
    } else if c == ')' {
        Ok(simple_step(src, i, line, TokenType::RightParen, i + 1))
    } else if c == '{' {
        Ok(simple_step(src, i, line, TokenType::LeftBrace, i + 1))
    } else if c == '}' {
        Ok(simple_step(src, i, line, TokenType::RightBrace, i + 1))
    } else if c == ',' {
        Ok(simple_step(src, i, line, TokenType::Comma, i + 1))
    } else if c == '.' {
        Ok(simple_step(src, i, line, TokenType::Dot, i + 1))
    } else if c == '-' {
        Ok(simple_step(src, i, line, TokenType::Minus, i + 1))
    } else if c == '+' {
        Ok(simple_step(src, i, line, TokenType::Plus, i + 1))
    } else if c == ';' {
        Ok(simple_step(src, i, line, TokenType::Semicolon, i + 1))
    } else if c == '*' {
        Ok(simple_step(src, i, line, TokenType::Star, i + 1))
    } else if c == '!' {
        if i + 1 < src.len() && src[i + 1] == '=' {
            Ok(simple_step(src, i, line, TokenType::BangEqual, i + 2))
        } else {
            Ok(simple_step(src, i, line, TokenType::Bang, i + 1))
        }
    } else if c == '=' {
        if i + 1 < src.len() && src[i + 1] == '=' {
            Ok(simple_step(src, i, line, TokenType::EqualEqual, i + 2))
        } else {
            Ok(simple_step(src, i, line, TokenType::Equal, i + 1))
        }
    } else if c == '<' {
        if i + 1 < src.len() && src[i + 1] == '=' {
            Ok(simple_step(src, i, line, TokenType::LessEqual, i + 2))
        } else {
            Ok(simple_step(src, i, line, TokenType::Less, i + 1))
        }
    } else if c == '>' {
        if i + 1 < src.len() && src[i + 1] == '=' {
            Ok(simple_step(src, i, line, TokenType::GreaterEqual, i + 2))
        } else {
            Ok(simple_step(src, i, line, TokenType::Greater, i + 1))
        }
    } else if c == '/' {
        if i + 1 < src.len() && src[i + 1] == '/' {
            Ok(ScanStep { token: None, next: line_comment_end(src, i + 2), line })
        } else {
            Ok(simple_step(src, i, line, TokenType::Slash, i + 1))
        }
    } else if c == ' ' || c == '\r' || c == '\t' {
        Ok(ScanStep { token: None, next: i + 1, line })
    } else if c == '\n' {
        Ok(ScanStep { token: None, next: i + 1, line: line + 1 })
    } else if c == '"' {
        let close = string_close(src, i + 1);
        if close >= src.len() {
            Err("Unterminated string"@)
        } else {
            let content = src.subrange(i + 1, close);
            let new_line = line + count_newlines(content);
            Ok(
                ScanStep {
                    token: Some(
                        TokenModel {
                            token_type: TokenType::String,
                            lexeme: src.subrange(i, close + 1),
                            literal: Some(LiteralModel::String(content)),
                            line: new_line,
                        },
                    ),
                    next: close + 1,
                    line: new_line,
                },
            )
        }
    } else if is_digit_char(c) {
        let end = number_end(src, i);
        let lex = src.subrange(i, end);
        Ok(
            ScanStep {
                token: Some(
                    TokenModel {
                        token_type: TokenType::Number,
                        lexeme: lex,
                        literal: Some(LiteralModel::Number(spec_num_bits(lex))),
                        line,
                    },
                ),
                next: end,
                line,
            },
        )
    } else if is_alpha_char(c) {
        let end = ident_end(src, i);
        let lex = src.subrange(i, end);
        let kind = match spec_match_reserved(lex) {
            Some(k) => k,
            None => TokenType::Identifier,
        };
        Ok(
            ScanStep {
                token: Some(
                    TokenModel { token_type: kind, lexeme: lex, literal: None, line },
                ),
                next: end,
                line,
            },
        )
    } else {
        Err("Unexpected character: "@.push(c))
    }
}

/// The token sequence of the text from position `i` on, or the message of
/// the failure that stops scanning.
pub open spec fn spec_scan(src: Seq<char>, i: int, line: nat) -> Result<Seq<TokenModel>, Seq<char>>
    decreases src.len() - i,
{
    if i >= src.len() {
        Ok(Seq::empty())
    } else {
        match spec_scan_token(src, i, line) {
            Err(m) => Err(m),
            Ok(step) => if i < step.next <= src.len() {
                match spec_scan(src, step.next, step.line) {
                    Err(m) => Err(m),
                    Ok(rest) => Ok(
                        match step.token {
                            Some(t) => seq![t] + rest,
                            None => rest,
                        },
                    ),
                }
            } else {
                Err(Seq::empty())
            },
        }
    }
}

/// The tokens of a whole source text.
pub open spec fn spec_scan_tokens(src: Seq<char>) -> Result<Seq<TokenModel>, Seq<char>> {
    spec_scan(src, 0, 1)
}

} // verus!

verus! {

// --- Facts about the helper functions ------------------------------------

pub proof fn lemma_count_newlines_le(s: Seq<char>)
    ensures
        count_newlines(s) <= s.len(),
    decreases s.len(),
{
    if s.len() > 0 {
        lemma_count_newlines_le(s.drop_last());
    }
}

pub proof fn lemma_count_newlines_push(s: Seq<char>, c: char)
    ensures
        count_newlines(s.push(c)) == count_newlines(s) + if c == '\n' {
            1nat
        } else {
            0nat
        },
{
    assert(s.push(c).drop_last() =~= s);
    assert(s.push(c).last() == c);
}

pub proof fn lemma_digits_end(src: Seq<char>, j: int)
    requires
        0 <= j <= src.len(),
    ensures
        j <= digits_end(src, j) <= src.len(),
        all_digit_chars(src.subrange(j, digits_end(src, j))),
        digits_end(src, j) < src.len() ==> !is_digit_char(src[digits_end(src, j)]),
    decreases src.len() - j,
{
    if j < src.len() && is_digit_char(src[j]) {
        lemma_digits_end(src, j + 1);
        let e = digits_end(src, j);
        assert(forall|k: int| 0 <= k < e - j ==> is_digit_char(
            #[trigger] src.subrange(j, e)[k],
        )) by {
            assert forall|k: int| 0 <= k < e - j implies is_digit_char(
                src.subrange(j, e)[k],
            ) by {
                if k > 0 {
                    assert(src.subrange(j, e)[k] == src.subrange(j + 1, e)[k - 1]);
                }
            }
        }
    }
}

pub proof fn lemma_ident_end(src: Seq<char>, j: int)
    requires
        0 <= j <= src.len(),
    ensures
        j <= ident_end(src, j) <= src.len(),
        ident_end(src, j) < src.len() ==> !is_alphanumeric_char(src[ident_end(src, j)]),
        forall|k: int| j <= k < ident_end(src, j) ==> is_alphanumeric_char(#[trigger] src[k]),
    decreases src.len() - j,
{
    if j < src.len() && is_alphanumeric_char(src[j]) {
        lemma_ident_end(src, j + 1);
    }
}

pub proof fn lemma_string_close(src: Seq<char>, j: int)
    requires
        0 <= j <= src.len(),
    ensures
        j <= string_close(src, j) <= src.len(),
        string_close(src, j) < src.len() ==> src[string_close(src, j)] == '"',
        forall|k: int| j <= k < string_close(src, j) ==> #[trigger] src[k] != '"',
    decreases src.len() - j,
{
    if j < src.len() && src[j] != '"' {
        lemma_string_close(src, j + 1);
    }
}

pub proof fn lemma_comment_end(src: Seq<char>, j: int)
    requires
        0 <= j <= src.len(),
    ensures
        j <= line_comment_end(src, j) <= src.len(),
        line_comment_end(src, j) < src.len() ==> src[line_comment_end(src, j)] == '\n',
        forall|k: int| j <= k < line_comment_end(src, j) ==> #[trigger] src[k] != '\n',
    decreases src.len() - j,
{
    if j < src.len() && src[j] != '\n' {
        lemma_comment_end(src, j + 1);
    }
}

/// A number lexeme cut out by `number_end` has the lexeme shape, so it
/// denotes a bit pattern.
pub proof fn lemma_number_lexeme(src: Seq<char>, i: int)
    requires
        0 <= i < src.len(),
        is_digit_char(src[i]),
    ensures
        i < number_end(src, i) <= src.len(),
        is_number_lexeme(src.subrange(i, number_end(src, i))),
{
    let j = digits_end(src, i);
    lemma_digits_end(src, i);
    let end = number_end(src, i);
    let lex = src.subrange(i, end);
    if j + 1 < src.len() && src[j] == '.' && is_digit_char(src[j + 1]) {
        lemma_digits_end(src, j + 2);
        let k = j - i;
        assert(lex[k] == '.');
        assert(end >= j + 2);
        assert(lex.subrange(0, k) =~= src.subrange(i, j));
        assert(all_digit_chars(lex.subrange(0, k)));
        assert(all_digit_chars(lex.subrange(k + 1, lex.len() as int))) by {
            let tail = lex.subrange(k + 1, lex.len() as int);
            assert forall|m: int| 0 <= m < tail.len() implies is_digit_char(
                #[trigger] tail[m],
            ) by {
                assert(tail[m] == src[j + 1 + m]);
                if m == 0 {
                } else {
                    assert(src.subrange(j + 2, end)[m - 1] == src[j + 1 + m]);
                }
            }
        }
        assert(1 <= k <= lex.len() - 2);
    } else {
        assert(lex =~= src.subrange(i, j));
        assert(is_digit_char(lex[0]));
    }
}

} // verus!

verus! {

use vstd::pervasive::unreached;

impl DeepView for Token {
    type V = TokenModel;

    open spec fn deep_view(&self) -> TokenModel {
        self.view()
    }
}

/// Relies on `String::push`: appends exactly the one character.
pub assume_specification[ std::string::String::push ](
    s: &mut std::string::String,
    c: char,
)
    ensures
        final(s)@ == old(s)@.push(c),
;

/// The scanner's cursors into the source: `start` opens the token being
/// built, `current` is the next character to consume, `line` is 1-based.
pub struct Scanner {
    pub source: String,
    pub start: usize,
    pub current: usize,
    pub line: usize,
}

impl Scanner {
    pub open spec fn src(&self) -> Seq<char> {
        self.source@
    }

    /// The cursors stay in range, and the line counter never runs ahead of
    /// the newlines actually seen, so it cannot overflow.
    pub open spec fn wf(&self) -> bool {
        &&& self.start <= self.current <= self.src().len()
        &&& self.src().len() < usize::MAX
        &&& self.line as nat <= 1 + count_newlines(self.src().take(self.current as int))
    }

    pub fn new(source: String) -> (r: Self)
        requires
            source@.len() < usize::MAX,
        ensures
            r.src() == source@,
            r.start == 0,
            r.current == 0,
            r.line == 1,
            r.wf(),
    {
        let r = Scanner { source, start: 0, current: 0, line: 1 };
        proof {
            assert(r.src().take(0) =~= Seq::<char>::empty());
        }
        r
    }

    fn is_at_end(&self) -> (r: bool)
        ensures
            r == (self.current as int >= self.src().len()),
    {
        self.current >= self.source.as_str().unicode_len()
    }

    /// Build a token from the text between the cursors.
    pub fn get_token(&self, token_type: TokenType, literal: Option<Literal>) -> (t: Token)
        requires
            self.start <= self.current <= self.src().len(),
        ensures
            t.token_type == token_type,
            t.lexeme@ == self.src().subrange(self.start as int, self.current as int),
            t.literal == literal,
            t.line == self.line,
    {
        let lexeme = self.source.as_str().substring_char(self.start, self.current);
        Token {
            token_type,
            lexeme: String::from_str(lexeme),
            literal,
            line: self.line,
        }
    }

    /// Build a token without a literal payload.
    pub fn get_token_simple(&self, token_type: TokenType) -> (t: Token)
        requires
            self.start <= self.current <= self.src().len(),
        ensures
            t.token_type == token_type,
            t.lexeme@ == self.src().subrange(self.start as int, self.current as int),
            t.literal is None,
            t.line == self.line,
    {
        self.get_token(token_type, None)
    }

    fn advance(&mut self) -> (c: char)
        requires
            old(self).wf(),
            old(self).current < old(self).src().len(),
        ensures
            final(self).wf(),
            final(self).source == old(self).source,
            final(self).start == old(self).start,
            final(self).line == old(self).line,
            final(self).current == old(self).current + 1,
            c == old(self).src()[old(self).current as int],
    {
        let c = self.source.as_str().get_char(self.current);
        proof {
            let j = self.current as int;
            assert(self.src().take(j + 1) =~= self.src().take(j).push(self.src()[j]));
            lemma_count_newlines_push(self.src().take(j), self.src()[j]);
        }
        self.current = self.current + 1;
        c
    }

    fn advance_if(&mut self, condition: char) -> (r: bool)
        requires
            old(self).wf(),
        ensures
            final(self).wf(),
            final(self).source == old(self).source,
            final(self).start == old(self).start,
            final(self).line == old(self).line,
            if old(self).current < old(self).src().len() && old(self).src()[old(
                self,
            ).current as int] == condition {
                r && final(self).current == old(self).current + 1
            } else {
                !r && final(self).current == old(self).current
            },
    {
        if self.is_at_end() {
            return false;
        }
        let current_char = self.source.as_str().get_char(self.current);
        if current_char != condition {
            return false;
        }
        proof {
            let j = self.current as int;
            assert(self.src().take(j + 1) =~= self.src().take(j).push(self.src()[j]));
            lemma_count_newlines_push(self.src().take(j), self.src()[j]);
        }
        self.current = self.current + 1;
        true
    }

    fn look(&self, look_ahead: usize) -> (r: Option<char>)
        requires
            self.current <= self.src().len(),
        ensures
            r == (if self.current + look_ahead >= self.src().len() {
                Option::<char>::None
            } else {
                Some(self.src()[self.current as int + look_ahead as int])
            }),
    {
        let len = self.source.as_str().unicode_len();
        if look_ahead >= len - self.current {
            return None;
        }
        Some(self.source.as_str().get_char(self.current + look_ahead))
    }

    fn peek(&self) -> (r: Option<char>)
        requires
            self.current <= self.src().len(),
        ensures
            r == (if self.current as int >= self.src().len() {
                Option::<char>::None
            } else {
                Some(self.src()[self.current as int])
            }),
    {
        self.look(0)
    }
}

} // verus!

verus! {

use vstd::string::StrSliceExecFns as _;
use vstd::string::StringExecFns as _;

impl Scanner {
    /// Scan the rest of a string literal; `start` sits on the opening quote
    /// and `current` just past it.
    #[verifier::loop_isolation(false)]
    fn scan_string(&mut self) -> (r: Result<Option<Token>, String>)
        requires
            old(self).wf(),
            old(self).start < old(self).src().len(),
            old(self).current == old(self).start + 1,
            old(self).src()[old(self).start as int] == '"',
        ensures
            final(self).wf(),
            final(self).source == old(self).source,
            final(self).start == old(self).start,
            ({
                let src = old(self).src();
                let close = string_close(src, old(self).current as int);
                if close >= src.len() {
                    &&& r matches Err(m) && m@ == "Unterminated string"@
                } else {
                    let content = src.subrange(old(self).current as int, close);
                    &&& r matches Ok(t2)
                    &&& t2 matches Some(t)
                    &&& t@ == TokenModel {
                        token_type: TokenType::String,
                        lexeme: src.subrange(old(self).start as int, close + 1),
                        literal: Some(LiteralModel::String(content)),
                        line: old(self).line as nat + count_newlines(content),
                    }
                    &&& final(self).current as int == close + 1
                    &&& final(self).line as nat == old(self).line as nat + count_newlines(content)
                }
            }),
    {
        let ghost source0 = self.source;
        let ghost src = self.src();
        let ghost c0 = self.current as int;
        let ghost start0 = self.start as int;
        let ghost line0 = self.line as nat;
        let ghost close = string_close(src, c0);
        proof {
            lemma_string_close(src, c0);
        }
        loop
            invariant
                self.wf(),
                self.source == source0,
                self.src() == src,
                self.start as int == start0,
                start0 < src.len(),
                src[start0] == '"',
                c0 == start0 + 1,
                close == string_close(src, c0),
                c0 <= self.current as int <= close <= src.len(),
                string_close(src, self.current as int) == close,
                self.line as nat == line0 + count_newlines(
                    src.subrange(c0, self.current as int),
                ),
            decreases src.len() - self.current,
        {
            let p = self.peek();
            match p {
                None => {
                    proof {
                        assert(close == src.len());
                    }
                    return Err(String::from_str("Unterminated string"));
                },
                Some(t) => {
                    if t == '"' {
                        proof {
                            assert(self.current as int == close);
                        }
                        let content_str = self.source.as_str().substring_char(
                            self.start + 1,
                            self.current,
                        );
                        let literal = Some(Literal::String(String::from_str(content_str)));
                        let _ = self.advance();
                        let tok = self.get_token(TokenType::String, literal);
                        proof {
                            assert(close < src.len());
                            let content = src.subrange(c0, close);
                            assert(tok@.token_type == TokenType::String);
                            assert(tok@.lexeme == src.subrange(start0, close + 1));
                            assert(tok@.literal == Some(LiteralModel::String(content)));
                            assert(tok@.line == line0 + count_newlines(content));
                            assert(self.current as int == close + 1);
                            assert(self.line as nat == line0 + count_newlines(content));
                        }
                        return Ok(Some(tok));
                    }
                    proof {
                        let j = self.current as int;
                        assert(src.subrange(c0, j + 1) =~= src.subrange(c0, j).push(src[j]));
                        lemma_count_newlines_push(src.subrange(c0, j), src[j]);
                        assert(src.take(j + 1) =~= src.take(j).push(src[j]));
                        lemma_count_newlines_push(src.take(j), src[j]);
                        lemma_count_newlines_le(src.take(j + 1));
                        lemma_string_close(src, j + 1);
                    }
                    let _ = self.advance();
                    if t == '\n' {
                        self.line = self.line + 1;
                    }
                },
            }
        }
    }

    /// Scan the rest of an identifier or reserved word; `start` sits on its
    /// first character and `current` just past it.
    #[verifier::loop_isolation(false)]
    fn scan_identifier(&mut self) -> (t: Token)
        requires
            old(self).wf(),
            old(self).start < old(self).src().len(),
            old(self).current == old(self).start + 1,
            is_alpha_char(old(self).src()[old(self).start as int]),
        ensures
            final(self).wf(),
            final(self).source == old(self).source,
            final(self).start == old(self).start,
            final(self).line == old(self).line,
            final(self).current as int == ident_end(old(self).src(), old(self).start as int),
            ({
                let src = old(self).src();
                let end = ident_end(src, old(self).start as int);
                let lex = src.subrange(old(self).start as int, end);
                t@ == TokenModel {
                    token_type: match spec_match_reserved(lex) {
                        Some(k) => k,
                        None => TokenType::Identifier,
                    },
                    lexeme: lex,
                    literal: None,
                    line: old(self).line as nat,
                }
            }),
    {
        let ghost source0 = self.source;
        let ghost src = self.src();
        let ghost s0 = self.start as int;
        let ghost line0 = self.line as nat;
        proof {
            lemma_ident_end(src, s0);
        }
        loop
            invariant
                self.wf(),
                self.source == source0,
                self.src() == src,
                self.start as int == s0,
                self.line as nat == line0,
                s0 < self.current as int <= src.len(),
                ident_end(src, self.current as int) == ident_end(src, s0),
                self.current as int <= ident_end(src, s0),
            decreases src.len() - self.current,
        {
            let p = self.peek();
            let go = match p {
                Some(c) => is_alphanumeric(c),
                None => false,
            };
            if !go {
                let lexeme_str = self.source.as_str().substring_char(self.start, self.current);
                let reserved = match_reserved(lexeme_str);
                match reserved {
                    Some(kind) => {
                        return self.get_token_simple(kind);
                    },
                    None => {
                        return self.get_token_simple(TokenType::Identifier);
                    },
                }
            }
            proof {
                lemma_ident_end(src, self.current as int + 1);
            }
            let _ = self.advance();
        }
    }

    /// Scan the rest of a number literal; `start` sits on its first digit
    /// and `current` just past it.
    fn scan_number(&mut self) -> (t: Option<Token>)
        requires
            old(self).wf(),
            old(self).start < old(self).src().len(),
            old(self).current == old(self).start + 1,
            is_digit_char(old(self).src()[old(self).start as int]),
        ensures
            final(self).wf(),
            final(self).source == old(self).source,
            final(self).start == old(self).start,
            final(self).line == old(self).line,
            final(self).current as int == number_end(old(self).src(), old(self).start as int),
            ({
                let src = old(self).src();
                let end = number_end(src, old(self).start as int);
                let lex = src.subrange(old(self).start as int, end);
                t matches Some(t) && t@ == TokenModel {
                    token_type: TokenType::Number,
                    lexeme: lex,
                    literal: Some(LiteralModel::Number(spec_num_bits(lex))),
                    line: old(self).line as nat,
                }
            }),
    {
        let ghost source0 = self.source;
        let ghost src = self.src();
        let ghost s0 = self.start as int;
        let ghost line0 = self.line as nat;
        proof {
            lemma_digits_end(src, s0);
            lemma_number_lexeme(src, s0);
        }
        loop
            invariant
                self.wf(),
                self.source == source0,
                self.src() == src,
                self.start as int == s0,
                self.line as nat == line0,
                s0 < self.current as int <= src.len(),
                digits_end(src, self.current as int) == digits_end(src, s0),
                self.current as int <= digits_end(src, s0),
            ensures
                self.wf(),
                self.source == source0,
                self.start as int == s0,
                self.line as nat == line0,
                self.current as int == digits_end(src, s0),
            decreases src.len() - self.current,
        {
            let p = self.peek();
            let go = match p {
                Some(c) => is_digit(c),
                None => false,
            };
            if !go {
                break;
            }
            proof {
                lemma_digits_end(src, self.current as int + 1);
            }
            let _ = self.advance();
        }
        // A fraction follows only when the dot has a digit after it.
        let ghost j = digits_end(src, s0);
        let dot = self.peek();
        if dot == Some('.') {
            let after = self.look(1);
            let has_fraction = match after {
                Some(c) => is_digit(c),
                None => false,
            };
            if has_fraction {
                proof {
                    lemma_digits_end(src, j + 2);
                }
                let _ = self.advance();
                loop
                    invariant
                        self.wf(),
                        self.source == source0,
                        self.src() == src,
                        self.start as int == s0,
                        self.line as nat == line0,
                        j == digits_end(src, s0),
                        j + 1 < src.len() && src[j] == '.' && is_digit_char(src[j + 1]),
                        j < self.current as int <= src.len(),
                        digits_end(src, self.current as int) == digits_end(src, j + 2),
                        self.current as int <= digits_end(src, j + 2),
                    ensures
                        self.wf(),
                        self.source == source0,
                        self.start as int == s0,
                        self.line as nat == line0,
                        self.current as int == digits_end(src, j + 2),
                        j + 1 < src.len() && src[j] == '.' && is_digit_char(src[j + 1]),
                    decreases src.len() - self.current,
                {
                    let p = self.peek();
                    let go = match p {
                        Some(c) => is_digit(c),
                        None => false,
                    };
                    if !go {
                        break;
                    }
                    proof {
                        lemma_digits_end(src, self.current as int + 1);
                    }
                    let _ = self.advance();
                }
            }
        }
        let lexeme_str = self.source.as_str().substring_char(self.start, self.current);
        let parsed = crate::numeric::num_parse(lexeme_str);
        match parsed {
            Some(bits) => Some(self.get_token(TokenType::Number, Some(Literal::Number(bits)))),
            None => {
                proof {
                    assert(false);
                }
                unreached()
            },
        }
    }
}

} // verus!

verus! {

impl Scanner {
    /// Consume one character and dispatch on it: a token, nothing (for
    /// whitespace and comments), or a failure with its message.
    fn scan_token(&mut self) -> (r: Result<Option<Token>, String>)
        requires
            old(self).wf(),
            old(self).start == old(self).current,
            old(self).current < old(self).src().len(),
        ensures
            final(self).wf(),
            final(self).source == old(self).source,
            final(self).start == old(self).start,
            match spec_scan_token(
                old(self).src(),
                old(self).current as int,
                old(self).line as nat,
            ) {
                Ok(step) => {
                    &&& final(self).current as int == step.next
                    &&& final(self).line as nat == step.line
                    &&& old(self).current < final(self).current
                    &&& match r {
                        Ok(Some(t)) => step.token == Some(t@),
                        Ok(None) => step.token is None,
                        Err(_) => false,
                    }
                },
                Err(m) => r matches Err(s) && s@ == m,
            },
    {
        let ghost src = self.src();
        let ghost i = self.current as int;
        let ghost line0 = self.line as nat;
        let ghost source0 = self.source;
        let ghost start0 = self.start;
        let c = self.advance();
        if c == '(' {
            Ok(Some(self.get_token_simple(TokenType::LeftParen)))
        } else if c == ')' {
            Ok(Some(self.get_token_simple(TokenType::RightParen)))
        } else if c == '{' {
            Ok(Some(self.get_token_simple(TokenType::LeftBrace)))
        } else if c == '}' {
            Ok(Some(self.get_token_simple(TokenType::RightBrace)))
        } else if c == ',' {
            Ok(Some(self.get_token_simple(TokenType::Comma)))
        } else if c == '.' {
            Ok(Some(self.get_token_simple(TokenType::Dot)))
        } else if c == '-' {
            Ok(Some(self.get_token_simple(TokenType::Minus)))
        } else if c == '+' {
            Ok(Some(self.get_token_simple(TokenType::Plus)))
        } else if c == ';' {
            Ok(Some(self.get_token_simple(TokenType::Semicolon)))
        } else if c == '*' {
            Ok(Some(self.get_token_simple(TokenType::Star)))
        } else if c == '!' {
            let token_type = if self.advance_if('=') {
                TokenType::BangEqual
            } else {
                TokenType::Bang
            };
            Ok(Some(self.get_token_simple(token_type)))
        } else if c == '=' {
            let token_type = if self.advance_if('=') {
                TokenType::EqualEqual
            } else {
                TokenType::Equal
            };
            Ok(Some(self.get_token_simple(token_type)))
        } else if c == '<' {
            let token_type = if self.advance_if('=') {
                TokenType::LessEqual
            } else {
                TokenType::Less
            };
            Ok(Some(self.get_token_simple(token_type)))
        } else if c == '>' {
            let token_type = if self.advance_if('=') {
                TokenType::GreaterEqual
            } else {
                TokenType::Greater
            };
            Ok(Some(self.get_token_simple(token_type)))
        } else if c == '/' {
            if self.advance_if('/') {
                // A comment runs to the end of the line and yields nothing.
                let ghost e = line_comment_end(src, i + 2);
                proof {
                    lemma_comment_end(src, i + 2);
                }
                loop
                    invariant
                        self.wf(),
                        self.source == source0,
                        self.src() == src,
                        self.start == start0,
                        self.line as nat == line0,
                        i + 2 <= self.current as int <= e <= src.len(),
                        line_comment_end(src, self.current as int) == e,
                    ensures
                        self.wf(),
                        self.source == source0,
                        self.start == start0,
                        self.line as nat == line0,
                        self.current as int == e,
                    decreases src.len() - self.current,
                {
                    let p = self.peek();
                    let go = match p {
                        Some(ch) => ch != '\n',
                        None => false,
                    };
                    if !go {
                        break;
                    }
                    proof {
                        lemma_comment_end(src, self.current as int + 1);
                    }
                    let _ = self.advance();
                }
                Ok(None)
            } else {
                Ok(Some(self.get_token_simple(TokenType::Slash)))
            }
        } else if c == ' ' || c == '\r' || c == '\t' {
            Ok(None)
        } else if c == '\n' {
            proof {
                assert(src.take(i + 1) =~= src.take(i).push(src[i]));
                lemma_count_newlines_push(src.take(i), src[i]);
                lemma_count_newlines_le(src.take(i + 1));
            }
            self.line = self.line + 1;
            Ok(None)
        } else if c == '"' {
            proof {
                lemma_string_close(src, i + 1);
            }
            self.scan_string()
        } else {
            if is_digit(c) {
                proof {
                    lemma_number_lexeme(src, i);
                }
                return Ok(self.scan_number());
            }
            if is_alpha(c) {
                proof {
                    lemma_ident_end(src, i);
                    lemma_ident_end(src, i + 1);
                }
                return Ok(Some(self.scan_identifier()));
            }
            let mut message = String::from_str("Unexpected character: ");
            message.push(c);
            Err(message)
        }
    }

    /// Scan the remaining source into a token sequence; the first failure
    /// stops scanning and is returned instead.
    #[verifier::loop_isolation(false)]
    fn scan_tokens(&mut self) -> (r: Result<Vec<Token>, String>)
        requires
            old(self).wf(),
        ensures
            match spec_scan(old(self).src(), old(self).current as int, old(self).line as nat) {
                Ok(ts) => r matches Ok(v) && v.deep_view() == ts,
                Err(m) => r matches Err(s) && s@ == m,
            },
    {
        let ghost src = self.src();
        let ghost c00 = self.current as int;
        let ghost line00 = self.line as nat;
        let ghost source0 = self.source;
        let mut tokens: Vec<Token> = Vec::new();
        loop
            invariant
                self.wf(),
                self.source == source0,
                self.src() == src,
                ({
                    let full = spec_scan(src, c00, line00);
                    match spec_scan(src, self.current as int, self.line as nat) {
                        Ok(ts) => full matches Ok(fs) && fs == tokens.deep_view() + ts,
                        Err(m) => full == Err::<Seq<TokenModel>, Seq<char>>(m),
                    }
                }),
            decreases src.len() - self.current,
        {
            if self.is_at_end() {
                proof {
                    assert(tokens.deep_view() + Seq::<TokenModel>::empty() =~= tokens.deep_view());
                }
                return Ok(tokens);
            }
            self.start = self.current;
            let ghost cur0 = self.current as int;
            let ghost ln0 = self.line as nat;
            let ghost toks0 = tokens.deep_view();
            let step_res = self.scan_token();
            proof {
                reveal_with_fuel(spec_scan, 2);
            }
            match step_res {
                Ok(tok_opt) => {
                    match tok_opt {
                        Some(t) => {
                            tokens.push(t);
                            proof {
                                assert(tokens.deep_view() =~= toks0.push(t@));
                                let step = spec_scan_token(src, cur0, ln0)->Ok_0;
                                if spec_scan(src, self.current as int, self.line as nat) is Ok {
                                    let ts = spec_scan(
                                        src,
                                        self.current as int,
                                        self.line as nat,
                                    )->Ok_0;
                                    assert(toks0 + (seq![t@] + ts) =~= tokens.deep_view() + ts);
                                }
                            }
                        },
                        None => {},
                    }
                },
                Err(e) => {
                    return Err(e);
                },
            }
        }
    }
}

/// Scan a whole source text into tokens.
pub fn scan_tokens(source: String) -> (r: Result<Vec<Token>, String>)
    requires
        source@.len() < usize::MAX,
    ensures
        match spec_scan_tokens(source@) {
            Ok(ts) => r matches Ok(v) && v.deep_view() == ts,
            Err(m) => r matches Err(s) && s@ == m,
        },
{
    let mut scanner = Scanner::new(source);
    scanner.scan_tokens()
}

} // verus!
