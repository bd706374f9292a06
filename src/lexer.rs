//! The scanner: turns source text into tokens, one per call.
//!
//! The grammar is stated by the spec functions below over the characters of the
//! source (`Seq<char>`) and character indices; tokens and errors carry the byte
//! offsets of those indices (`byte_offset`).
use crate::chars::{
    byte_len, byte_offset, char_width, chars_of, is_blank_char, is_forbidden, is_forbidden_char,
    is_line_terminator_char, is_white_space, is_white_space_char, lemma_byte_offset_monotonic,
    string_of,
};
use crate::text::{hex4, push_hex4};
use crate::{ConfError, ConfOptions};
use std::ops::Range;
use vstd::prelude::*;

verus! {

/// The kinds of token.
#[derive(Debug, Clone, Copy, PartialEq, Eq, Structural)]
pub enum TokenType {
    /// End of input.
    Eof,
    /// A comment.
    Comment,
    /// Whitespace.
    Whitespace,
    /// A line terminator.
    Newline,
    /// An argument.
    Argument,
    /// A line continuation: a backslash before a line terminator.
    Continuation,
    /// A semicolon.
    Semicolon,
    /// A left curly brace.
    LeftCurlyBrace,
    /// A right curly brace.
    RightCurlyBrace,
}

/// A token: its kind, its byte span in the source and its flags.
#[derive(Debug)]
pub struct Token {
    /// The type of the token.
    pub token_type: TokenType,
    /// The byte span of the token in the source text.
    pub span: Range<usize>,
    /// Whether the token is quoted.
    pub is_quoted: bool,
    /// Whether the token is triple-quoted.
    pub is_triple_quoted: bool,
    /// Whether the token is an expression.
    pub is_expression: bool,
}

/// What went wrong while scanning.
#[derive(Debug, Clone, Copy, PartialEq, Eq, Structural)]
pub enum LexFault {
    /// A forbidden character where a token starts.
    Forbidden(char),
    /// A forbidden character inside a comment.
    ForbiddenInComment(char),
    /// A forbidden character inside a quoted argument.
    ForbiddenInQuote(char),
    /// A forbidden character inside a bare argument.
    ForbiddenInArgument(char),
    /// No comment starts here.
    ExpectedComment,
    /// A `/*` comment without its `*/`.
    UnterminatedComment,
    /// A backslash at the end of the input.
    UnterminatedEscape,
    /// A line terminator inside a single-quoted argument.
    NewlineInQuote,
    /// A quoted argument without its closing quote.
    UnterminatedQuote,
    /// A triple-quoted argument without its closing quotes.
    UnterminatedTripleQuote,
    /// An argument of no characters.
    ExpectedArgument,
}

/// The message that an error of the given fault carries.
pub open spec fn fault_message(f: LexFault) -> Seq<char> {
    match f {
        LexFault::Forbidden(c) => "Forbidden character: U+"@ + hex4(c as nat),
        LexFault::ForbiddenInComment(c) => "Forbidden character in comment: U+"@ + hex4(c as nat),
        LexFault::ForbiddenInQuote(c) => "Forbidden character in quoted argument: U+"@ + hex4(
            c as nat,
        ),
        LexFault::ForbiddenInArgument(c) => "Forbidden character in argument: U+"@ + hex4(
            c as nat,
        ),
        LexFault::ExpectedComment => "Expected comment"@,
        LexFault::UnterminatedComment => "Unterminated multi-line comment"@,
        LexFault::UnterminatedEscape => "Unterminated escape sequence"@,
        LexFault::NewlineInQuote => "Newline in quoted string"@,
        LexFault::UnterminatedQuote => "Unterminated quoted string"@,
        LexFault::UnterminatedTripleQuote => "Unterminated triple-quoted string"@,
        LexFault::ExpectedArgument => "Expected argument"@,
    }
}

/// `e` is a lexical error at byte offset `pos` with message `msg`.
pub open spec fn is_lex_error(e: ConfError, pos: nat, msg: Seq<char>) -> bool {
    match e {
        ConfError::LexerError { position, message } => position == pos && message@ == msg,
        _ => false,
    }
}

/// `e` reports the fault `f` at character index `k` of `s`.
pub open spec fn reports(e: ConfError, s: Seq<char>, k: int, f: LexFault) -> bool {
    is_lex_error(e, byte_offset(s, k), fault_message(f))
}

/// A token as the grammar sees it: character indices instead of bytes.
pub struct TokenModel {
    pub kind: TokenType,
    pub start: int,
    pub end: int,
    pub quoted: bool,
    pub triple: bool,
    pub expression: bool,
}

/// The outcome of a scan: a value, or a fault at a character index.
pub type Scan<T> = Result<T, (int, LexFault)>;

pub open spec fn char_at(s: Seq<char>, i: int) -> Option<char> {
    if 0 <= i < s.len() {
        Some(s[i])
    } else {
        None
    }
}

pub open spec fn plain(kind: TokenType, start: int, end: int) -> TokenModel {
    TokenModel { kind, start, end, quoted: false, triple: false, expression: false }
}

/// First index at or after `i` that is not blank.
pub open spec fn skip_blanks(s: Seq<char>, i: int) -> int
    decreases s.len() - i,
{
    if 0 <= i < s.len() && is_blank_char(s[i]) {
        skip_blanks(s, i + 1)
    } else {
        i
    }
}

/// Index just past the line terminator at `i`; CR LF counts as one terminator.
pub open spec fn past_terminator(s: Seq<char>, i: int) -> int {
    if s[i] == '\r' && char_at(s, i + 1) == Some('\n') {
        i + 2
    } else {
        i + 1
    }
}

/// Whether a comment starts at `i`.
pub open spec fn comment_starts(s: Seq<char>, i: int, o: ConfOptions) -> bool {
    char_at(s, i) == Some('#') || (o.allow_c_style_comments && char_at(s, i) == Some('/') && (
    char_at(s, i + 1) == Some('*') || char_at(s, i + 1) == Some('/')))
}

/// End of a line comment whose body starts at `i`: the next line terminator or the
/// end of input.
pub open spec fn line_comment_end(s: Seq<char>, i: int, o: ConfOptions) -> Scan<int>
    decreases s.len() - i,
{
    if !(0 <= i < s.len()) || is_line_terminator_char(s[i]) {
        Ok(i)
    } else if is_forbidden_char(s[i], o.forbid_bidi_characters) {
        Err((i, LexFault::ForbiddenInComment(s[i])))
    } else {
        line_comment_end(s, i + 1, o)
    }
}

/// End of a block comment opened at `start` whose body goes on at `i`: just past `*/`.
pub open spec fn block_comment_end(s: Seq<char>, i: int, start: int, o: ConfOptions) -> Scan<int>
    decreases s.len() - i,
{
    if !(0 <= i < s.len()) {
        Err((start, LexFault::UnterminatedComment))
    } else if is_forbidden_char(s[i], o.forbid_bidi_characters) {
        Err((i, LexFault::ForbiddenInComment(s[i])))
    } else if s[i] == '*' && char_at(s, i + 1) == Some('/') {
        Ok(i + 2)
    } else {
        block_comment_end(s, i + 1, start, o)
    }
}

/// End of the comment that starts at `i`.
pub open spec fn comment_end(s: Seq<char>, i: int, o: ConfOptions) -> Scan<int> {
    if char_at(s, i) == Some('#') {
        line_comment_end(s, i + 1, o)
    } else if char_at(s, i) == Some('/') && char_at(s, i + 1) == Some('/')
        && o.allow_c_style_comments {
        line_comment_end(s, i + 2, o)
    } else if char_at(s, i) == Some('/') && char_at(s, i + 1) == Some('*')
        && o.allow_c_style_comments {
        block_comment_end(s, i + 2, i, o)
    } else {
        Err((i, LexFault::ExpectedComment))
    }
}

/// End of a quoted argument opened at `start` whose body goes on at `i`: just past
/// the closing quote (three of them for a triple-quoted argument).
pub open spec fn quoted_end(s: Seq<char>, i: int, triple: bool, start: int, o: ConfOptions) -> Scan<
    int,
>
    decreases s.len() - i,
{
    if !(0 <= i < s.len()) {
        Err(
            (
                start,
                if triple {
                    LexFault::UnterminatedTripleQuote
                } else {
                    LexFault::UnterminatedQuote
                },
            ),
        )
    } else if is_forbidden_char(s[i], o.forbid_bidi_characters) {
        Err((i, LexFault::ForbiddenInQuote(s[i])))
    } else if s[i] == '\\' {
        if i + 1 >= s.len() {
            Err((i + 1, LexFault::UnterminatedEscape))
        } else if is_forbidden_char(s[i + 1], o.forbid_bidi_characters) {
            Err((i + 1, LexFault::ForbiddenInQuote(s[i + 1])))
        } else if triple && o.allow_line_continuations && is_line_terminator_char(s[i + 1]) {
            quoted_end(s, past_terminator(s, i + 1), triple, start, o)
        } else {
            quoted_end(s, i + 2, triple, start, o)
        }
    } else if s[i] == '"' {
        if !triple {
            Ok(i + 1)
        } else if char_at(s, i + 1) == Some('"') && char_at(s, i + 2) == Some('"') {
            Ok(i + 3)
        } else {
            quoted_end(s, i + 1, triple, start, o)
        }
    } else if !triple && is_line_terminator_char(s[i]) {
        Err((i, LexFault::NewlineInQuote))
    } else {
        quoted_end(s, i + 1, triple, start, o)
    }
}

/// Whether a triple quote opens at `i`.
pub open spec fn opens_triple(s: Seq<char>, i: int, o: ConfOptions) -> bool {
    o.allow_triple_quotes && char_at(s, i + 1) == Some('"') && char_at(s, i + 2) == Some('"')
}

/// Whether an argument that ends at `e` is an expression.
pub open spec fn expression_at(s: Seq<char>, e: int, o: ConfOptions) -> bool {
    o.allow_expression_arguments && char_at(s, e) == Some('(')
}

/// The quoted argument that opens at `i`: its end, whether it is triple-quoted and
/// whether it is an expression.
pub open spec fn quoted_scan(s: Seq<char>, i: int, o: ConfOptions) -> Scan<(int, bool, bool)> {
    let triple = opens_triple(s, i, o);
    let body = if triple {
        i + 3
    } else {
        i + 1
    };
    match quoted_end(s, body, triple, i, o) {
        Ok(e) => Ok((e, triple, expression_at(s, e, o))),
        Err(x) => Err(x),
    }
}

/// The characters that end a bare argument.
pub open spec fn ends_bare(c: char) -> bool {
    is_white_space_char(c) || c == ';' || c == '{' || c == '}' || c == '(' || c == '"' || c == '#'
}

/// End of a bare argument that goes on at `i`.
pub open spec fn bare_end(s: Seq<char>, i: int, o: ConfOptions) -> Scan<int>
    decreases s.len() - i, 0int,
{
    if !(0 <= i < s.len()) || ends_bare(s[i]) {
        Ok(i)
    } else if is_forbidden_char(s[i], o.forbid_bidi_characters) {
        Err((i, LexFault::ForbiddenInArgument(s[i])))
    } else if s[i] == '\\' {
        if i + 1 >= s.len() {
            Err((i + 1, LexFault::UnterminatedEscape))
        } else if is_forbidden_char(s[i + 1], o.forbid_bidi_characters) {
            Err((i + 1, LexFault::ForbiddenInArgument(s[i + 1])))
        } else if o.allow_line_continuations && is_line_terminator_char(s[i + 1]) {
            bare_end_after_break(s, past_terminator(s, i + 1), o)
        } else {
            bare_end(s, i + 2, o)
        }
    } else {
        bare_end(s, i + 1, o)
    }
}

/// End of a bare argument after a line continuation inside it: the blanks that
/// begin the next line are part of the continuation.
pub open spec fn bare_end_after_break(s: Seq<char>, i: int, o: ConfOptions) -> Scan<int>
    decreases s.len() - i, 1int,
{
    if 0 <= i < s.len() && is_blank_char(s[i]) {
        bare_end_after_break(s, i + 1, o)
    } else {
        bare_end(s, i, o)
    }
}

/// The bare argument that starts at `i`: its end and whether it is an expression.
pub open spec fn bare_scan(s: Seq<char>, i: int, o: ConfOptions) -> Scan<(int, bool)> {
    match bare_end(s, i, o) {
        Ok(e) => if e == i {
            Err((i, LexFault::ExpectedArgument))
        } else {
            Ok((e, expression_at(s, e, o)))
        },
        Err(x) => Err(x),
    }
}

/// The token that the scanner returns with its cursor at `i`, and where the cursor
/// goes next.
pub open spec fn token_at(s: Seq<char>, i: int, o: ConfOptions) -> Scan<(TokenModel, int)> {
    if 0 <= i < s.len() && is_forbidden_char(s[i], o.forbid_bidi_characters) {
        Err((i, LexFault::Forbidden(s[i])))
    } else {
        let j = skip_blanks(s, i);
        if !(0 <= j < s.len()) {
            Ok((plain(TokenType::Eof, j, j), j))
        } else if comment_starts(s, j, o) {
            match comment_end(s, j, o) {
                Ok(e) => Ok((plain(TokenType::Comment, j, e), e)),
                Err(x) => Err(x),
            }
        } else if is_line_terminator_char(s[j]) {
            Ok((plain(TokenType::Newline, j, past_terminator(s, j)), past_terminator(s, j)))
        } else if s[j] == ';' {
            Ok((plain(TokenType::Semicolon, j, j + 1), j + 1))
        } else if s[j] == '{' {
            Ok((plain(TokenType::LeftCurlyBrace, j, j + 1), j + 1))
        } else if s[j] == '}' {
            Ok((plain(TokenType::RightCurlyBrace, j, j + 1), j + 1))
        } else if s[j] == '\\' && o.allow_line_continuations && j + 1 < s.len()
            && is_line_terminator_char(s[j + 1]) {
            let e = skip_blanks(s, past_terminator(s, j + 1));
            Ok((plain(TokenType::Continuation, j, j + 1), e))
        } else if s[j] == '"' {
            match quoted_scan(s, j, o) {
                Ok((e, triple, expr)) => Ok(
                    (
                        TokenModel {
                            kind: TokenType::Argument,
                            start: j,
                            end: e,
                            quoted: true,
                            triple,
                            expression: expr,
                        },
                        e,
                    ),
                ),
                Err(x) => Err(x),
            }
        } else {
            match bare_scan(s, j, o) {
                Ok((e, expr)) => Ok(
                    (
                        TokenModel {
                            kind: TokenType::Argument,
                            start: j,
                            end: e,
                            quoted: false,
                            triple: false,
                            expression: expr,
                        },
                        e,
                    ),
                ),
                Err(x) => Err(x),
            }
        }
    }
}

/// The token `t` is the model `m` over the source `s`.
pub open spec fn token_is(t: Token, m: TokenModel, s: Seq<char>) -> bool {
    &&& t.token_type == m.kind
    &&& t.span.start == byte_offset(s, m.start)
    &&& t.span.end == byte_offset(s, m.end)
    &&& t.is_quoted == m.quoted
    &&& t.is_triple_quoted == m.triple
    &&& t.is_expression == m.expression
}

/// Builds the error for a fault.
fn fault_error(position: usize, f: LexFault) -> (e: ConfError)
    ensures
        is_lex_error(e, position as nat, fault_message(f)),
{
    let mut message = String::new();
    match f {
        LexFault::Forbidden(c) => {
            message.append("Forbidden character: U+");
            push_hex4(&mut message, c as u32);
        },
        LexFault::ForbiddenInComment(c) => {
            message.append("Forbidden character in comment: U+");
            push_hex4(&mut message, c as u32);
        },
        LexFault::ForbiddenInQuote(c) => {
            message.append("Forbidden character in quoted argument: U+");
            push_hex4(&mut message, c as u32);
        },
        LexFault::ForbiddenInArgument(c) => {
            message.append("Forbidden character in argument: U+");
            push_hex4(&mut message, c as u32);
        },
        LexFault::ExpectedComment => message.append("Expected comment"),
        LexFault::UnterminatedComment => message.append("Unterminated multi-line comment"),
        LexFault::UnterminatedEscape => message.append("Unterminated escape sequence"),
        LexFault::NewlineInQuote => message.append("Newline in quoted string"),
        LexFault::UnterminatedQuote => message.append("Unterminated quoted string"),
        LexFault::UnterminatedTripleQuote => message.append("Unterminated triple-quoted string"),
        LexFault::ExpectedArgument => message.append("Expected argument"),
    }
    ConfError::LexerError { position, message }
}

/// A scanner over one source text.
pub struct Lexer<'a> {
    /// The source text.
    input: &'a str,
    /// The characters of the source text.
    chars: Vec<char>,
    /// The cursor, as a character index.
    index: usize,
    /// The cursor, as a byte offset.
    position: usize,
    /// Character index where the last token returned starts.
    token_start: usize,
    /// Character index where the last token returned ends.
    token_end: usize,
    /// The grammar variant.
    options: ConfOptions,
}

impl<'a> Lexer<'a> {
    /// The characters of the source text.
    pub closed spec fn source(&self) -> Seq<char> {
        self.chars@
    }

    /// The cursor, as a character index.
    pub closed spec fn cursor(&self) -> int {
        self.index as int
    }

    /// The options the scanner was made with.
    pub closed spec fn config(&self) -> ConfOptions {
        self.options
    }

    /// Character indices of the last token returned.
    pub closed spec fn last_token(&self) -> (int, int) {
        (self.token_start as int, self.token_end as int)
    }

    pub closed spec fn wf(&self) -> bool {
        &&& self.chars@ == self.input@
        &&& self.index <= self.chars@.len()
        &&& self.position == byte_offset(self.chars@, self.index as int)
        &&& byte_len(self.chars@) <= usize::MAX
        &&& self.token_start <= self.token_end <= self.chars@.len()
    }

    /// The cursor of a well-formed scanner lies within its text.
    pub proof fn lemma_cursor_in_text(&self)
        requires
            self.wf(),
        ensures
            0 <= self.cursor() <= self.source().len(),
    {
    }

    /// `self` is `other` but for where the cursor stands.
    pub open spec fn moved_from(&self, other: &Lexer<'a>) -> bool {
        &&& self.wf()
        &&& self.source() == other.source()
        &&& self.config() == other.config()
        &&& self.last_token() == other.last_token()
    }

    /// Creates a new lexer.
    pub fn new(input: &'a str, options: ConfOptions) -> (r: Self)
        ensures
            r.wf(),
            r.source() == input@,
            r.cursor() == 0,
            r.config() == options,
            r.last_token() == (0int, 0int),
    {
        let chars = chars_of(input);
        Lexer { input, chars, index: 0, position: 0, token_start: 0, token_end: 0, options }
    }

    /// Returns the input string.
    pub fn input(&self) -> (r: &'a str)
        requires
            self.wf(),
        ensures
            r@ == self.source(),
    {
        self.input
    }

    /// The cursor, as a byte offset.
    pub fn position(&self) -> (r: usize)
        requires
            self.wf(),
        ensures
            r == byte_offset(self.source(), self.cursor()),
    {
        self.position
    }

    /// The text of the last token returned.
    pub fn token_text(&self) -> (r: String)
        requires
            self.wf(),
        ensures
            r@ == self.source().subrange(self.last_token().0, self.last_token().1),
    {
        string_of(&self.chars, self.token_start, self.token_end)
    }

    /// Whether the last token returned opens with `/*`.
    pub fn token_opens_block_comment(&self) -> (r: bool)
        requires
            self.wf(),
        ensures
            r == (char_at(self.source(), self.last_token().0) == Some('/') && char_at(
                self.source(),
                self.last_token().0 + 1,
            ) == Some('*')),
    {
        self.token_start < self.chars.len() && self.chars[self.token_start] == '/'
            && self.token_start + 1 < self.chars.len() && self.chars[self.token_start + 1] == '*'
    }

    /// Returns the character at the cursor.
    pub fn current_char(&self) -> (r: Option<char>)
        requires
            self.wf(),
        ensures
            r == char_at(self.source(), self.cursor()),
    {
        if self.index < self.chars.len() {
            Some(self.chars[self.index])
        } else {
            None
        }
    }

    /// Returns the character after the one at the cursor.
    pub fn next_char(&self) -> (r: Option<char>)
        requires
            self.wf(),
        ensures
            r == char_at(self.source(), self.cursor() + 1),
    {
        if self.index < self.chars.len() && self.index + 1 < self.chars.len() {
            Some(self.chars[self.index + 1])
        } else {
            None
        }
    }

    /// Whether the character `ahead` places after the cursor is `c`.
    fn peek_is(&self, ahead: usize, c: char) -> (r: bool)
        requires
            self.wf(),
            ahead <= 2,
        ensures
            r == (char_at(self.source(), self.cursor() + ahead) == Some(c)),
    {
        self.index < self.chars.len() && ahead < self.chars.len() - self.index
            && self.chars[self.index + ahead] == c
    }

    /// Advances the position by one character.
    pub fn advance(&mut self)
        requires
            old(self).wf(),
        ensures
            final(self).moved_from(old(self)),
            final(self).cursor() == if old(self).cursor() < old(self).source().len() {
                old(self).cursor() + 1
            } else {
                old(self).cursor()
            },
    {
        if self.index < self.chars.len() {
            proof {
                lemma_byte_offset_monotonic(self.chars@, self.index + 1, self.chars@.len() as int);
            }
            let w = char_width(self.chars[self.index]);
            self.position = self.position + w;
            self.index = self.index + 1;
        }
    }

    /// Returns whether the current character is white space that does not end a line.
    pub fn is_whitespace(&self) -> (r: bool)
        requires
            self.wf(),
        ensures
            r == (self.cursor() < self.source().len() && is_blank_char(
                self.source()[self.cursor()],
            )),
    {
        self.index < self.chars.len() && is_white_space(self.chars[self.index])
            && !crate::chars::is_line_terminator(self.chars[self.index])
    }

    /// Returns whether the character is a line terminator.
    pub fn is_line_terminator(&self, c: char) -> (r: bool)
        ensures
            r == is_line_terminator_char(c),
    {
        crate::chars::is_line_terminator(c)
    }

    /// Returns whether the current character is a line terminator.
    pub fn is_newline(&self) -> (r: bool)
        requires
            self.wf(),
        ensures
            r == (self.cursor() < self.source().len() && is_line_terminator_char(
                self.source()[self.cursor()],
            )),
    {
        self.index < self.chars.len() && crate::chars::is_line_terminator(self.chars[self.index])
    }

    /// Returns whether the character is forbidden under the scanner's options.
    pub fn is_forbidden_char(&self, c: char) -> (r: bool)
        ensures
            r == is_forbidden_char(c, self.config().forbid_bidi_characters),
    {
        is_forbidden(c, self.options.forbid_bidi_characters)
    }

    /// Returns whether a comment starts at the cursor.
    pub fn is_comment(&self) -> (r: bool)
        requires
            self.wf(),
        ensures
            r == comment_starts(self.source(), self.cursor(), self.config()),
    {
        self.peek_is(0, '#') || (self.options.allow_c_style_comments && self.peek_is(0, '/') && (
        self.peek_is(1, '*') || self.peek_is(1, '/')))
    }

    /// The error for a fault at the cursor.
    fn fail_here(&self, f: LexFault) -> (e: ConfError)
        requires
            self.wf(),
        ensures
            reports(e, self.source(), self.cursor(), f),
    {
        fault_error(self.position, f)
    }

    /// Consumes a line terminator at the cursor, CR LF as one.
    fn skip_terminator(&mut self)
        requires
            old(self).wf(),
            old(self).cursor() < old(self).source().len(),
        ensures
            final(self).moved_from(old(self)),
            final(self).cursor() == past_terminator(old(self).source(), old(self).cursor()),
    {
        let c = self.chars[self.index];
        self.advance();
        if c == '\r' && self.peek_is(0, '\n') {
            self.advance();
        }
    }

    /// Consumes blanks.
    fn skip_blanks(&mut self)
        requires
            old(self).wf(),
        ensures
            final(self).moved_from(old(self)),
            final(self).cursor() == skip_blanks(old(self).source(), old(self).cursor()),
            final(self).cursor() >= old(self).cursor(),
    {
        let ghost s = self.chars@;
        let ghost i0 = self.index as int;
        while self.is_whitespace()
            invariant
                self.moved_from(old(self)),
                s == old(self).source(),
                i0 == old(self).cursor(),
                old(self).cursor() <= self.cursor(),
                skip_blanks(s, self.cursor()) == skip_blanks(s, i0),
            decreases self.chars@.len() - self.index,
        {
            self.advance();
        }
    }

    /// Scans a line comment whose body starts at the cursor.
    fn scan_line_comment_body(&mut self) -> (r: Result<(), ConfError>)
        requires
            old(self).wf(),
        ensures
            final(self).moved_from(old(self)),
            match (r, line_comment_end(old(self).source(), old(self).cursor(), old(self).config())) {
                (Ok(_), Ok(e)) => final(self).cursor() == e,
                (Err(err), Err((k, f))) => reports(err, old(self).source(), k, f),
                _ => false,
            },
    {
        let ghost s = self.chars@;
        let ghost o = self.options;
        let ghost i0 = self.index as int;
        loop
            invariant
                self.moved_from(old(self)),
                s == old(self).source(),
                o == old(self).config(),
                i0 == old(self).cursor(),
                line_comment_end(s, self.cursor(), o) == line_comment_end(s, i0, o),
            decreases self.chars@.len() - self.index,
        {
            if self.index >= self.chars.len() {
                return Ok(());
            }
            let c = self.chars[self.index];
            if crate::chars::is_line_terminator(c) {
                return Ok(());
            }
            if is_forbidden(c, self.options.forbid_bidi_characters) {
                return Err(self.fail_here(LexFault::ForbiddenInComment(c)));
            }
            self.advance();
        }
    }

    /// Scans a block comment, opened at byte `start_pos`, whose body starts at the cursor.
    fn scan_block_comment_body(&mut self, start_pos: usize, Ghost(start): Ghost<int>) -> (r: Result<
        (),
        ConfError,
    >)
        requires
            old(self).wf(),
            start_pos == byte_offset(old(self).source(), start),
        ensures
            final(self).moved_from(old(self)),
            match (
                r,
                block_comment_end(old(self).source(), old(self).cursor(), start, old(self).config()),
            ) {
                (Ok(_), Ok(e)) => final(self).cursor() == e,
                (Err(err), Err((k, f))) => reports(err, old(self).source(), k, f),
                _ => false,
            },
    {
        let ghost s = self.chars@;
        let ghost o = self.options;
        let ghost i0 = self.index as int;
        loop
            invariant
                self.moved_from(old(self)),
                s == old(self).source(),
                o == old(self).config(),
                i0 == old(self).cursor(),
                start_pos == byte_offset(s, start),
                block_comment_end(s, self.cursor(), start, o) == block_comment_end(s, i0, start, o),
            decreases self.chars@.len() - self.index,
        {
            if self.index >= self.chars.len() {
                return Err(fault_error(start_pos, LexFault::UnterminatedComment));
            }
            let c = self.chars[self.index];
            if is_forbidden(c, self.options.forbid_bidi_characters) {
                return Err(self.fail_here(LexFault::ForbiddenInComment(c)));
            }
            if c == '*' && self.peek_is(1, '/') {
                self.advance();
                self.advance();
                return Ok(());
            }
            self.advance();
        }
    }

    /// Scans a comment.
    pub fn scan_comment(&mut self) -> (r: Result<(), ConfError>)
        requires
            old(self).wf(),
        ensures
            final(self).moved_from(old(self)),
            match (r, comment_end(old(self).source(), old(self).cursor(), old(self).config())) {
                (Ok(_), Ok(e)) => final(self).cursor() == e,
                (Err(err), Err((k, f))) => reports(err, old(self).source(), k, f),
                _ => false,
            },
    {
        let start_pos = self.position;
        let ghost start = self.index as int;
        if self.peek_is(0, '#') {
            self.advance();
            self.scan_line_comment_body()
        } else if self.peek_is(0, '/') && self.peek_is(1, '/') && self.options.allow_c_style_comments {
            self.advance();
            self.advance();
            self.scan_line_comment_body()
        } else if self.peek_is(0, '/') && self.peek_is(1, '*') && self.options.allow_c_style_comments {
            self.advance();
            self.advance();
            self.scan_block_comment_body(start_pos, Ghost(start))
        } else {
            Err(fault_error(start_pos, LexFault::ExpectedComment))
        }
    }

    /// Scans the body of a quoted argument, opened at byte `start_pos`, from the cursor
    /// through its closing quote.
    fn scan_quoted_body(&mut self, triple: bool, start_pos: usize, Ghost(start): Ghost<int>) -> (r:
        Result<(), ConfError>)
        requires
            old(self).wf(),
            start_pos == byte_offset(old(self).source(), start),
        ensures
            final(self).moved_from(old(self)),
            match (
                r,
                quoted_end(old(self).source(), old(self).cursor(), triple, start, old(self).config()),
            ) {
                (Ok(_), Ok(e)) => final(self).cursor() == e,
                (Err(err), Err((k, f))) => reports(err, old(self).source(), k, f),
                _ => false,
            },
    {
        let ghost s = self.chars@;
        let ghost o = self.options;
        let ghost i0 = self.index as int;
        loop
            invariant
                self.moved_from(old(self)),
                s == old(self).source(),
                o == old(self).config(),
                i0 == old(self).cursor(),
                start_pos == byte_offset(s, start),
                quoted_end(s, self.cursor(), triple, start, o) == quoted_end(s, i0, triple, start, o),
            decreases self.chars@.len() - self.index,
        {
            if self.index >= self.chars.len() {
                if triple {
                    return Err(fault_error(start_pos, LexFault::UnterminatedTripleQuote));
                } else {
                    return Err(fault_error(start_pos, LexFault::UnterminatedQuote));
                }
            }
            let c = self.chars[self.index];
            if is_forbidden(c, self.options.forbid_bidi_characters) {
                return Err(self.fail_here(LexFault::ForbiddenInQuote(c)));
            }
            if c == '\\' {
                self.advance();
                if self.index >= self.chars.len() {
                    return Err(self.fail_here(LexFault::UnterminatedEscape));
                }
                let e = self.chars[self.index];
                if is_forbidden(e, self.options.forbid_bidi_characters) {
                    return Err(self.fail_here(LexFault::ForbiddenInQuote(e)));
                }
                if triple && self.options.allow_line_continuations && crate::chars::is_line_terminator(
                    self.chars[self.index],
                ) {
                    self.skip_terminator();
                } else {
                    self.advance();
                }
            } else if c == '"' {
                if !triple {
                    self.advance();
                    return Ok(());
                } else if self.peek_is(1, '"') && self.peek_is(2, '"') {
                    self.advance();
                    self.advance();
                    self.advance();
                    return Ok(());
                } else {
                    self.advance();
                }
            } else if !triple && crate::chars::is_line_terminator(c) {
                return Err(self.fail_here(LexFault::NewlineInQuote));
            } else {
                self.advance();
            }
        }
    }

    /// Scans a quoted argument that opens at the cursor; returns whether it is
    /// triple-quoted and whether it is an expression.
    pub fn scan_quoted_argument(&mut self) -> (r: Result<(bool, bool), ConfError>)
        requires
            old(self).wf(),
            char_at(old(self).source(), old(self).cursor()) == Some('"'),
        ensures
            final(self).moved_from(old(self)),
            match (r, quoted_scan(old(self).source(), old(self).cursor(), old(self).config())) {
                (Ok((t, x)), Ok((e, t2, x2))) => final(self).cursor() == e && t == t2 && x == x2,
                (Err(err), Err((k, f))) => reports(err, old(self).source(), k, f),
                _ => false,
            },
    {
        let start_pos = self.position;
        let ghost start = self.index as int;
        let is_triple_quoted = self.options.allow_triple_quotes && self.peek_is(1, '"')
            && self.peek_is(2, '"');
        self.advance();
        if is_triple_quoted {
            self.advance();
            self.advance();
        }
        match self.scan_quoted_body(is_triple_quoted, start_pos, Ghost(start)) {
            Ok(_) => {
                let is_expression = self.options.allow_expression_arguments && self.peek_is(0, '(');
                Ok((is_triple_quoted, is_expression))
            },
            Err(e) => Err(e),
        }
    }

    /// Scans a bare argument that starts at the cursor; returns whether it is an
    /// expression.
    pub fn scan_argument(&mut self) -> (r: Result<bool, ConfError>)
        requires
            old(self).wf(),
        ensures
            final(self).moved_from(old(self)),
            match (r, bare_scan(old(self).source(), old(self).cursor(), old(self).config())) {
                (Ok(x), Ok((e, x2))) => final(self).cursor() == e && x == x2,
                (Err(err), Err((k, f))) => reports(err, old(self).source(), k, f),
                _ => false,
            },
    {
        let ghost s = self.chars@;
        let ghost o = self.options;
        let ghost i0 = self.index as int;
        let start = self.index;
        let start_pos = self.position;
        loop
            invariant
                self.moved_from(old(self)),
                s == old(self).source(),
                o == old(self).config(),
                i0 == old(self).cursor(),
                start == i0,
                start_pos == byte_offset(s, i0),
                i0 <= self.cursor(),
                bare_end(s, self.cursor(), o) == bare_end(s, i0, o),
            ensures
                bare_end(s, self.cursor(), o) == Ok::<int, (int, LexFault)>(self.cursor()),
            decreases self.chars@.len() - self.index,
        {
            if self.index >= self.chars.len() {
                break;
            }
            let c = self.chars[self.index];
            if is_white_space(c) || c == ';' || c == '{' || c == '}' || c == '(' || c == '"' || c
                == '#' {
                break;
            }
            if is_forbidden(c, self.options.forbid_bidi_characters) {
                return Err(self.fail_here(LexFault::ForbiddenInArgument(c)));
            }
            if c == '\\' {
                self.advance();
                if self.index >= self.chars.len() {
                    return Err(self.fail_here(LexFault::UnterminatedEscape));
                }
                let e = self.chars[self.index];
                if is_forbidden(e, self.options.forbid_bidi_characters) {
                    return Err(self.fail_here(LexFault::ForbiddenInArgument(e)));
                }
                if self.options.allow_line_continuations && crate::chars::is_line_terminator(
                    self.chars[self.index],
                ) {
                    self.skip_terminator();
                    let ghost j = self.cursor();
                    assert(bare_end_after_break(s, j, o) == bare_end(s, i0, o));
                    self.skip_blanks();
                    proof {
                        lemma_after_break_skips(s, j, o);
                    }
                } else {
                    self.advance();
                }
            } else {
                self.advance();
            }
        }
        if self.index == start {
            return Err(fault_error(start_pos, LexFault::ExpectedArgument));
        }
        Ok(self.options.allow_expression_arguments && self.peek_is(0, '('))
    }

    /// Records the token from character `start` (at byte `start_pos`) to the cursor.
    fn finish(
        &mut self,
        token_type: TokenType,
        start: usize,
        start_pos: usize,
        is_quoted: bool,
        is_triple_quoted: bool,
        is_expression: bool,
    ) -> (t: Token)
        requires
            old(self).wf(),
            start <= old(self).cursor(),
            start_pos == byte_offset(old(self).source(), start as int),
        ensures
            final(self).wf(),
            final(self).source() == old(self).source(),
            final(self).config() == old(self).config(),
            final(self).cursor() == old(self).cursor(),
            final(self).last_token() == (start as int, old(self).cursor()),
            token_is(
                t,
                TokenModel {
                    kind: token_type,
                    start: start as int,
                    end: old(self).cursor(),
                    quoted: is_quoted,
                    triple: is_triple_quoted,
                    expression: is_expression,
                },
                old(self).source(),
            ),
    {
        self.token_start = start;
        self.token_end = self.index;
        Token {
            token_type,
            span: Range { start: start_pos, end: self.position },
            is_quoted,
            is_triple_quoted,
            is_expression,
        }
    }

    /// Returns the next token in the input string.
    pub fn next_token(&mut self) -> (r: Result<Token, ConfError>)
        requires
            old(self).wf(),
        ensures
            final(self).wf(),
            final(self).source() == old(self).source(),
            final(self).config() == old(self).config(),
            0 <= final(self).cursor() <= final(self).source().len(),
            match (r, token_at(old(self).source(), old(self).cursor(), old(self).config())) {
                (Ok(t), Ok((m, e))) => {
                    &&& token_is(t, m, old(self).source())
                    &&& final(self).cursor() == e
                    &&& final(self).last_token() == (m.start, m.end)
                },
                (Err(err), Err((k, f))) => reports(err, old(self).source(), k, f),
                _ => false,
            },
    {
        let ghost s = self.chars@;
        let ghost o = self.options;
        if self.index < self.chars.len() {
            let c = self.chars[self.index];
            if is_forbidden(c, self.options.forbid_bidi_characters) {
                return Err(self.fail_here(LexFault::Forbidden(c)));
            }
        }
        self.skip_blanks();
        let start = self.index;
        let start_pos = self.position;
        if self.index >= self.chars.len() {
            return Ok(self.finish(TokenType::Eof, start, start_pos, false, false, false));
        }
        proof {
            lemma_token_at_range(s, old(self).cursor(), o);
            lemma_skip_blanks_range(s, old(self).cursor());
            lemma_line_comment_end_range(s, start + 1, o);
            if start + 1 < s.len() {
                lemma_line_comment_end_range(s, start + 2, o);
                lemma_block_comment_end_range(s, start + 2, start as int, o);
            }
            lemma_bare_end_range(s, start as int, o);
        }
        if self.is_comment() {
            match self.scan_comment() {
                Ok(_) => {
                    return Ok(self.finish(TokenType::Comment, start, start_pos, false, false, false));
                },
                Err(e) => {
                    return Err(e);
                },
            }
        }
        let c = self.chars[self.index];
        if crate::chars::is_line_terminator(c) {
            self.skip_terminator();
            Ok(self.finish(TokenType::Newline, start, start_pos, false, false, false))
        } else if c == ';' {
            self.advance();
            Ok(self.finish(TokenType::Semicolon, start, start_pos, false, false, false))
        } else if c == '{' {
            self.advance();
            Ok(self.finish(TokenType::LeftCurlyBrace, start, start_pos, false, false, false))
        } else if c == '}' {
            self.advance();
            Ok(self.finish(TokenType::RightCurlyBrace, start, start_pos, false, false, false))
        } else if c == '\\' && self.options.allow_line_continuations && self.index + 1
            < self.chars.len() && crate::chars::is_line_terminator(self.chars[self.index + 1]) {
            self.advance();
            let t = self.finish(TokenType::Continuation, start, start_pos, false, false, false);
            self.skip_terminator();
            self.skip_blanks();
            Ok(t)
        } else if c == '"' {
            match self.scan_quoted_argument() {
                Ok((is_triple_quoted, is_expression)) => Ok(
                    self.finish(
                        TokenType::Argument,
                        start,
                        start_pos,
                        true,
                        is_triple_quoted,
                        is_expression,
                    ),
                ),
                Err(e) => Err(e),
            }
        } else {
            match self.scan_argument() {
                Ok(is_expression) => Ok(
                    self.finish(TokenType::Argument, start, start_pos, false, false, is_expression),
                ),
                Err(e) => Err(e),
            }
        }
    }
}

/// After a break inside a bare argument, the scan goes on where the blanks end.
proof fn lemma_after_break_skips(s: Seq<char>, i: int, o: ConfOptions)
    requires
        0 <= i,
    ensures
        bare_end_after_break(s, i, o) == bare_end(s, skip_blanks(s, i), o),
    decreases s.len() - i,
{
    if 0 <= i < s.len() && is_blank_char(s[i]) {
        lemma_after_break_skips(s, i + 1, o);
    }
}

pub proof fn lemma_skip_blanks_range(s: Seq<char>, i: int)
    requires
        0 <= i <= s.len(),
    ensures
        i <= skip_blanks(s, i) <= s.len(),
    decreases s.len() - i,
{
    if 0 <= i < s.len() && is_blank_char(s[i]) {
        lemma_skip_blanks_range(s, i + 1);
    }
}

proof fn lemma_line_comment_end_range(s: Seq<char>, i: int, o: ConfOptions)
    requires
        0 <= i <= s.len(),
    ensures
        line_comment_end(s, i, o) matches Ok(e) ==> i <= e <= s.len(),
    decreases s.len() - i,
{
    if 0 <= i < s.len() && !is_line_terminator_char(s[i]) && !is_forbidden_char(
        s[i],
        o.forbid_bidi_characters,
    ) {
        lemma_line_comment_end_range(s, i + 1, o);
    }
}

proof fn lemma_block_comment_end_range(s: Seq<char>, i: int, start: int, o: ConfOptions)
    requires
        0 <= i <= s.len(),
    ensures
        block_comment_end(s, i, start, o) matches Ok(e) ==> i < e <= s.len(),
    decreases s.len() - i,
{
    if 0 <= i < s.len() {
        lemma_block_comment_end_range(s, i + 1, start, o);
    }
}

proof fn lemma_quoted_end_range(s: Seq<char>, i: int, triple: bool, start: int, o: ConfOptions)
    requires
        0 <= i <= s.len(),
    ensures
        quoted_end(s, i, triple, start, o) matches Ok(e) ==> i < e <= s.len(),
    decreases s.len() - i,
{
    if 0 <= i < s.len() {
        if s[i] == '\\' && i + 1 < s.len() {
            if triple && o.allow_line_continuations && is_line_terminator_char(s[i + 1]) {
                lemma_quoted_end_range(s, past_terminator(s, i + 1), triple, start, o);
            } else {
                lemma_quoted_end_range(s, i + 2, triple, start, o);
            }
        } else {
            lemma_quoted_end_range(s, i + 1, triple, start, o);
        }
    }
}

proof fn lemma_bare_end_range(s: Seq<char>, i: int, o: ConfOptions)
    requires
        0 <= i <= s.len(),
    ensures
        bare_end(s, i, o) matches Ok(e) ==> i <= e <= s.len(),
        bare_end_after_break(s, i, o) matches Ok(e) ==> i <= e <= s.len(),
    decreases s.len() - i,
{
    if 0 <= i < s.len() {
        if is_blank_char(s[i]) {
            lemma_bare_end_range(s, i + 1, o);
        }
        if !ends_bare(s[i]) && s[i] == '\\' && i + 1 < s.len() {
            if o.allow_line_continuations && is_line_terminator_char(s[i + 1]) {
                lemma_bare_end_range(s, past_terminator(s, i + 1), o);
            } else {
                lemma_bare_end_range(s, i + 2, o);
            }
        } else {
            lemma_bare_end_range(s, i + 1, o);
        }
    }
}

/// A token lies within the text, after the cursor it was scanned from; every token
/// but the end of input moves the cursor, and the end of input leaves it at the end.
pub proof fn lemma_token_at_range(s: Seq<char>, i: int, o: ConfOptions)
    requires
        0 <= i <= s.len(),
    ensures
        token_at(s, i, o) matches Ok((m, e)) ==> {
            &&& i <= m.start <= m.end <= e <= s.len()
            &&& m.kind != TokenType::Eof ==> i < e && m.start < m.end
            &&& m.kind == TokenType::Eof ==> e == s.len()
        },
{
    lemma_skip_blanks_range(s, i);
    let j = skip_blanks(s, i);
    if j < s.len() {
        lemma_line_comment_end_range(s, j + 1, o);
        if j + 1 < s.len() {
            lemma_line_comment_end_range(s, j + 2, o);
            lemma_block_comment_end_range(s, j + 2, j, o);
            lemma_skip_blanks_range(s, past_terminator(s, j + 1));
        }
        lemma_bare_end_range(s, j, o);
        lemma_quoted_end_range(s, j + 1, false, j, o);
        if opens_triple(s, j, o) {
            lemma_quoted_end_range(s, j + 3, true, j, o);
        }
    }
}

} // verus!
