//! A configuration language front end: a scanner and a directive-tree parser with
//! optional grammar extensions, and a renderer that writes a tree back as text.
use crate::chars::{chars_of, is_white_space, is_white_space_char, push_char};
use crate::parser::{fails_with, parse_text, unit_is, Parser};
use std::ops::Range;
use vstd::prelude::*;

pub mod chars;
pub mod text;
pub mod lexer;
pub mod parser;
pub mod mapper;
pub mod laws;

pub use crate::mapper::{MapperError, MapperOptions, ValueConverter};

verus! {

/// Represents a configuration argument.
#[derive(Debug)]
pub struct ConfArgument {
    /// The text of the argument as written, quotes included.
    pub value: String,
    /// The byte span of the argument in the source text.
    pub span: Range<usize>,
    /// Whether the argument is quoted.
    pub is_quoted: bool,
    /// Whether the argument is a triple-quoted string.
    pub is_triple_quoted: bool,
    /// Whether the argument is an expression.
    pub is_expression: bool,
}

/// Represents a configuration directive.
#[derive(Debug)]
pub struct ConfDirective {
    /// The name of the directive.
    pub name: ConfArgument,
    /// The arguments of the directive.
    pub arguments: Vec<ConfArgument>,
    /// The child directives of this directive.
    pub children: Vec<ConfDirective>,
}

/// Represents a configuration unit: the top-level directives and every comment.
#[derive(Debug)]
pub struct ConfUnit {
    /// The root directives of the configuration.
    pub directives: Vec<ConfDirective>,
    /// The comments in the configuration, in document order.
    pub comments: Vec<ConfComment>,
}

/// Represents a comment in the configuration.
#[derive(Debug)]
pub struct ConfComment {
    /// The text of the comment, markers included.
    pub content: String,
    /// The byte span of the comment in the source text.
    pub span: Range<usize>,
    /// Whether the comment is a `/* */` comment.
    pub is_multi_line: bool,
}

/// Represents an error that can occur during parsing.
#[derive(Debug)]
pub enum ConfError {
    /// A malformed character stream.
    LexerError {
        /// The byte offset in the source text where the error occurred.
        position: usize,
        /// A description of the error.
        message: String,
    },
    /// A malformed token stream.
    ParserError {
        /// The byte offset in the source text where the error occurred.
        position: usize,
        /// A description of the error.
        message: String,
    },
}

impl ConfError {
    /// The error as text: its kind, its byte position and its message.
    pub open spec fn text(&self) -> Seq<char> {
        match self {
            ConfError::LexerError { position, message } => "Lexer error at position "@
                + crate::text::dec_digits(*position as nat) + ": "@ + message@,
            ConfError::ParserError { position, message } => "Parser error at position "@
                + crate::text::dec_digits(*position as nat) + ": "@ + message@,
        }
    }

    /// Formats the error as text.
    pub fn to_string(&self) -> (r: String)
        ensures
            r@ == self.text(),
    {
        let mut r = String::new();
        match self {
            ConfError::LexerError { position, message } => {
                r.append("Lexer error at position ");
                crate::text::push_dec(&mut r, *position as u64);
                r.append(": ");
                r.append(message.as_str());
            },
            ConfError::ParserError { position, message } => {
                r.append("Parser error at position ");
                crate::text::push_dec(&mut r, *position as u64);
                r.append(": ");
                r.append(message.as_str());
            },
        }
        r
    }
}

/// Options for parsing configuration.
#[derive(Debug, Clone, Copy)]
pub struct ConfOptions {
    /// Whether to allow C-style comments (/* */ and //).
    pub allow_c_style_comments: bool,
    /// Whether to allow expression arguments.
    pub allow_expression_arguments: bool,
    /// The maximum depth of nested directives.
    pub max_depth: usize,
    /// Whether to forbid bidirectional formatting characters.
    pub forbid_bidi_characters: bool,
    /// Whether to require semicolons at the end of directives (reserved).
    pub require_semicolons: bool,
    /// Whether to allow triple-quoted strings.
    pub allow_triple_quotes: bool,
    /// Whether to allow line continuations with backslash.
    pub allow_line_continuations: bool,
}

impl Default for ConfOptions {
    fn default() -> (r: Self)
        ensures
            !r.allow_c_style_comments,
            !r.allow_expression_arguments,
            r.max_depth == 100,
            r.forbid_bidi_characters,
            !r.require_semicolons,
            r.allow_triple_quotes,
            r.allow_line_continuations,
    {
        ConfOptions {
            allow_c_style_comments: false,
            allow_expression_arguments: false,
            max_depth: 100,
            forbid_bidi_characters: true,
            require_semicolons: false,
            allow_triple_quotes: true,
            allow_line_continuations: true,
        }
    }
}

/// Parses a configuration string.
pub fn parse(input: &str, options: ConfOptions) -> (r: Result<ConfUnit, ConfError>)
    ensures
        match (r, parse_text(input@, options)) {
            (Ok(u), Ok((ds, cs))) => unit_is(u, ds, cs, input@),
            (Err(e), Err(f)) => fails_with(e, input@, f, options),
            _ => false,
        },
{
    match Parser::new(input, options) {
        Ok(mut parser) => parser.parse(),
        Err(e) => Err(e),
    }
}

/// The text with its escapes processed: a backslash before a character that is not
/// white space stands for that character; any other backslash stays.
pub open spec fn unescape(s: Seq<char>) -> Seq<char>
    decreases s.len(),
{
    if s.len() == 0 {
        seq![]
    } else if s[0] == '\\' && s.len() >= 2 && !is_white_space_char(s[1]) {
        seq![s[1]] + unescape(s.subrange(2, s.len() as int))
    } else {
        seq![s[0]] + unescape(s.subrange(1, s.len() as int))
    }
}

/// Processes escape sequences: a backslash followed by a character that is not white
/// space yields that character literally (`\n` gives `n`).
pub fn process_escapes(input: &str) -> (r: String)
    ensures
        r@ == unescape(input@),
{
    let chars = chars_of(input);
    let ghost s = chars@;
    let mut result = String::new();
    let mut i: usize = 0;
    assert(s.subrange(0, s.len() as int) =~= s);
    assert(result@ + unescape(s) =~= unescape(s));
    while i < chars.len()
        invariant
            s == chars@,
            i <= s.len(),
            result@ + unescape(s.subrange(i as int, s.len() as int)) == unescape(s),
        decreases s.len() - i,
    {
        let ghost rest = s.subrange(i as int, s.len() as int);
        let c = chars[i];
        if c == '\\' && i + 1 < chars.len() && !is_white_space(chars[i + 1]) {
            push_char(&mut result, chars[i + 1]);
            assert(rest.subrange(2, rest.len() as int) =~= s.subrange(i + 2, s.len() as int));
            i = i + 2;
        } else {
            push_char(&mut result, c);
            assert(rest.subrange(1, rest.len() as int) =~= s.subrange(i + 1, s.len() as int));
            i = i + 1;
        }
        assert(result@ + unescape(s.subrange(i as int, s.len() as int)) =~= unescape(s));
    }
    assert(s.subrange(i as int, s.len() as int) =~= Seq::<char>::empty());
    assert(result@ =~= result@ + unescape(Seq::<char>::empty()));
    result
}

/// The text between a pair of surrounding double quotes, or the text itself.
pub open spec fn unquoted(s: Seq<char>) -> Seq<char> {
    if s.len() >= 2 && s[0] == '"' && s[s.len() - 1] == '"' {
        s.subrange(1, s.len() - 1)
    } else {
        s
    }
}

/// Removes one pair of surrounding double quotes.
pub fn strip_quotes(value: &str) -> (r: String)
    ensures
        r@ == unquoted(value@),
{
    let chars = chars_of(value);
    let n = chars.len();
    if n >= 2 && chars[0] == '"' && chars[n - 1] == '"' {
        crate::chars::string_of(&chars, 1, n - 1)
    } else {
        crate::chars::string_of(&chars, 0, n)
    }
}

/// Whether `s` starts with `p`.
pub open spec fn starts_with(s: Seq<char>, p: Seq<char>) -> bool {
    p.len() <= s.len() && s.subrange(0, p.len() as int) == p
}

/// Whether a type name names `Option<..>` by its full path.
pub open spec fn names_option(s: Seq<char>) -> bool {
    starts_with(s, "core::option::Option<"@) || starts_with(s, "std::option::Option<"@)
}

fn has_prefix(chars: &Vec<char>, prefix: &str) -> (r: bool)
    ensures
        r == starts_with(chars@, prefix@),
{
    let p = chars_of(prefix);
    if p.len() > chars.len() {
        return false;
    }
    let mut i: usize = 0;
    while i < p.len()
        invariant
            p@ == prefix@,
            p.len() <= chars.len(),
            i <= p.len(),
            forall|k: int| 0 <= k < i ==> chars@[k] == p@[k],
        decreases p.len() - i,
    {
        if chars[i] != p[i] {
            assert(chars@.subrange(0, p@.len() as int)[i as int] != p@[i as int]);
            return false;
        }
        i = i + 1;
    }
    assert(chars@.subrange(0, p@.len() as int) =~= p@);
    true
}

/// Returns whether the type name is a full path to `Option<..>`.
pub fn is_option_type(name: &str) -> (r: bool)
    ensures
        r == names_option(name@),
{
    let chars = chars_of(name);
    has_prefix(&chars, "core::option::Option<") || has_prefix(&chars, "std::option::Option<")
}

/// The text strictly between the first `<` and the last `>` of `s`, when `s` names
/// `Option<..>` and holds a `>` after its first `<`.
pub open spec fn option_inner(s: Seq<char>, a: int, b: int) -> bool {
    &&& 0 < a <= b < s.len()
    &&& s[a - 1] == '<'
    &&& forall|k: int| 0 <= k < a - 1 ==> s[k] != '<'
    &&& s[b] == '>'
    &&& forall|k: int| b < k < s.len() ==> s[k] != '>'
}

/// Returns the type inside a full path to `Option<..>`.
pub fn extract_option_type(name: &str) -> (r: Option<&str>)
    ensures
        match r {
            Some(t) => names_option(name@) && exists|a: int, b: int|
                option_inner(name@, a, b) && t@ == name@.subrange(a, b),
            None => !names_option(name@) || !exists|a: int, b: int|
                option_inner(name@, a, b),
        },
{
    if !is_option_type(name) {
        return None;
    }
    let chars = chars_of(name);
    let ghost s = chars@;
    let mut open: usize = 0;
    while open < chars.len() && chars[open] != '<'
        invariant
            s == chars@,
            open <= s.len(),
            forall|k: int| 0 <= k < open ==> s[k] != '<',
        decreases s.len() - open,
    {
        open = open + 1;
    }
    if open == chars.len() {
        proof {
            assert forall|a: int, b: int| !option_inner(s, a, b) by {
                if option_inner(s, a, b) {
                    assert(s[a - 1] != '<');
                }
            }
        }
        return None;
    }
    let mut close: usize = chars.len();
    while close > open + 1 && chars[close - 1] != '>'
        invariant
            s == chars@,
            open < s.len(),
            open + 1 <= close <= s.len(),
            forall|k: int| close <= k < s.len() ==> s[k] != '>',
        decreases close,
    {
        close = close - 1;
    }
    if close == open + 1 {
        proof {
            assert forall|a: int, b: int| !option_inner(s, a, b) by {
                if option_inner(s, a, b) {
                    if a - 1 < open {
                        assert(s[a - 1] != '<');
                    } else if a - 1 > open {
                        assert(s[open as int] != '<');
                    }
                }
            }
        }
        return None;
    }
    let inner = name.substring_char(open + 1, close - 1);
    assert(option_inner(s, open + 1, close - 1));
    Some(inner)
}

} // verus!
