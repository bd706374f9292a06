//! The directive builder: pulls tokens from the scanner and builds the directive tree
//! and the flat list of comments.
//!
//! The grammar of the token stream is stated by the spec functions `document`,
//! `directive`, `arguments` and `block`, over the tokens that `token_at` gives.
use crate::chars::byte_offset;
use crate::lexer::{
    char_at, lemma_token_at_range, reports, token_at, token_is, LexFault, Lexer, Token, TokenModel,
    TokenType,
};
use crate::text::{dec_digits, push_dec};
use crate::{ConfArgument, ConfComment, ConfDirective, ConfError, ConfOptions, ConfUnit};
use std::ops::Range;
use vstd::prelude::*;

verus! {

broadcast use vstd::std_specs::vec::group_vec_axioms;

/// What went wrong in the token stream.
#[derive(Debug, Clone, Copy, PartialEq, Eq, Structural)]
pub enum SyntaxFault {
    /// A directive would nest deeper than the maximum depth.
    DepthExceeded,
    /// A directive does not start with an argument.
    ExpectedName,
    /// A block ends without its `}`.
    ExpectedClose,
    /// A directive is not followed by `;`, `{`, a line terminator or the end of input.
    ExpectedTerminator,
}

/// Why a parse fails: a scanning fault, or a syntax fault at a character index.
pub enum Failure {
    Lexical(int, LexFault),
    Syntax(int, SyntaxFault),
}

/// A directive as the grammar sees it.
pub struct DirModel {
    pub name: TokenModel,
    pub args: Seq<TokenModel>,
    pub children: Seq<DirModel>,
}

/// The outcome of parsing a directive: the directive, the cursor and current token
/// after it, and the comments seen so far.
pub type DirParse = Result<(DirModel, int, TokenModel, Seq<TokenModel>), Failure>;

pub open spec fn syntax_message(f: SyntaxFault, max_depth: usize) -> Seq<char> {
    match f {
        SyntaxFault::DepthExceeded => "Maximum directive depth of "@ + dec_digits(max_depth as nat)
            + " exceeded"@,
        SyntaxFault::ExpectedName => "Expected directive name"@,
        SyntaxFault::ExpectedClose => "Expected '}'"@,
        SyntaxFault::ExpectedTerminator => "Expected ';', '{', or newline"@,
    }
}

/// `e` is the error for the failure `f` over the source `s`.
pub open spec fn fails_with(e: ConfError, s: Seq<char>, f: Failure, o: ConfOptions) -> bool {
    match f {
        Failure::Lexical(k, lf) => reports(e, s, k, lf),
        Failure::Syntax(k, sf) => match e {
            ConfError::ParserError { position, message } => position == byte_offset(s, k)
                && message@ == syntax_message(sf, o.max_depth),
            _ => false,
        },
    }
}

/// Progress measure of a parse: what is left of the text, and whether the current
/// token is more than the end of input.
pub open spec fn rank(s: Seq<char>, i: int, cur: TokenModel) -> nat {
    2 * (if 0 <= i <= s.len() {
        (s.len() - i) as nat
    } else {
        0nat
    }) + if cur.kind == TokenType::Eof {
        0nat
    } else {
        1nat
    }
}

/// The next token from cursor `i`, and the cursor after it.
pub open spec fn step(s: Seq<char>, o: ConfOptions, i: int) -> Result<(TokenModel, int), Failure> {
    match token_at(s, i, o) {
        Ok((m, e)) => if 0 <= i <= e <= s.len() && (m.kind != TokenType::Eof ==> i < e) {
            Ok((m, e))
        } else {
            Err(Failure::Lexical(i, LexFault::ExpectedArgument))
        },
        Err((k, f)) => Err(Failure::Lexical(k, f)),
    }
}

/// A directive whose name is the current token `cur`, at nesting depth `d`.
pub open spec fn directive(
    s: Seq<char>,
    o: ConfOptions,
    i: int,
    cur: TokenModel,
    d: nat,
    cs: Seq<TokenModel>,
) -> DirParse
    decreases rank(s, i, cur), 0nat,
{
    if d >= o.max_depth {
        Err(Failure::Syntax(cur.start, SyntaxFault::DepthExceeded))
    } else if cur.kind != TokenType::Argument {
        Err(Failure::Syntax(cur.start, SyntaxFault::ExpectedName))
    } else {
        match step(s, o, i) {
            Ok((t, e)) => arguments(s, o, e, t, d, cur, seq![], cs),
            Err(x) => Err(x),
        }
    }
}

/// The arguments of the directive named `name`, from the current token `cur`, and
/// what ends the directive.
pub open spec fn arguments(
    s: Seq<char>,
    o: ConfOptions,
    i: int,
    cur: TokenModel,
    d: nat,
    name: TokenModel,
    args: Seq<TokenModel>,
    cs: Seq<TokenModel>,
) -> DirParse
    decreases rank(s, i, cur), 1nat,
{
    if cur.kind == TokenType::Argument || cur.kind == TokenType::Continuation {
        match step(s, o, i) {
            Ok((t, e)) => arguments(
                s,
                o,
                e,
                t,
                d,
                name,
                if cur.kind == TokenType::Argument {
                    args.push(cur)
                } else {
                    args
                },
                cs,
            ),
            Err(x) => Err(x),
        }
    } else if cur.kind == TokenType::LeftCurlyBrace {
        match step(s, o, i) {
            Ok((t, e)) => block(s, o, e, t, d + 1, name, args, seq![], cs),
            Err(x) => Err(x),
        }
    } else if cur.kind == TokenType::Semicolon {
        match step(s, o, i) {
            Ok((t, e)) => Ok((DirModel { name, args, children: seq![] }, e, t, cs)),
            Err(x) => Err(x),
        }
    } else if cur.kind == TokenType::Newline || cur.kind == TokenType::Eof {
        Ok((DirModel { name, args, children: seq![] }, i, cur, cs))
    } else {
        Err(Failure::Syntax(cur.start, SyntaxFault::ExpectedTerminator))
    }
}

/// The children of a block at depth `d`, from the current token `cur` through the
/// closing brace. Comments inside go to the document's list.
pub open spec fn block(
    s: Seq<char>,
    o: ConfOptions,
    i: int,
    cur: TokenModel,
    d: nat,
    name: TokenModel,
    args: Seq<TokenModel>,
    children: Seq<DirModel>,
    cs: Seq<TokenModel>,
) -> DirParse
    decreases rank(s, i, cur), 1nat,
{
    if cur.kind == TokenType::RightCurlyBrace {
        match step(s, o, i) {
            Ok((t, e)) => Ok((DirModel { name, args, children }, e, t, cs)),
            Err(x) => Err(x),
        }
    } else if cur.kind == TokenType::Eof {
        Err(Failure::Syntax(cur.start, SyntaxFault::ExpectedClose))
    } else if cur.kind == TokenType::Comment || cur.kind == TokenType::Newline || cur.kind
        == TokenType::Whitespace {
        match step(s, o, i) {
            Ok((t, e)) => block(
                s,
                o,
                e,
                t,
                d,
                name,
                args,
                children,
                if cur.kind == TokenType::Comment {
                    cs.push(cur)
                } else {
                    cs
                },
            ),
            Err(x) => Err(x),
        }
    } else {
        match directive(s, o, i, cur, d, cs) {
            Ok((child, e, t, cs2)) => if rank(s, e, t) < rank(s, i, cur) {
                block(s, o, e, t, d, name, args, children.push(child), cs2)
            } else {
                Err(Failure::Syntax(cur.start, SyntaxFault::ExpectedClose))
            },
            Err(x) => Err(x),
        }
    }
}

/// The top-level directives and all comments, from the current token `cur` to the end
/// of input.
pub open spec fn document(
    s: Seq<char>,
    o: ConfOptions,
    i: int,
    cur: TokenModel,
    dirs: Seq<DirModel>,
    cs: Seq<TokenModel>,
) -> Result<(Seq<DirModel>, Seq<TokenModel>), Failure>
    decreases rank(s, i, cur), 1nat,
{
    if cur.kind == TokenType::Eof {
        Ok((dirs, cs))
    } else if cur.kind == TokenType::Comment || cur.kind == TokenType::Newline || cur.kind
        == TokenType::Whitespace || cur.kind == TokenType::Continuation {
        match step(s, o, i) {
            Ok((t, e)) => document(
                s,
                o,
                e,
                t,
                dirs,
                if cur.kind == TokenType::Comment {
                    cs.push(cur)
                } else {
                    cs
                },
            ),
            Err(x) => Err(x),
        }
    } else {
        match directive(s, o, i, cur, 0, cs) {
            Ok((dm, e, t, cs2)) => if rank(s, e, t) < rank(s, i, cur) {
                document(s, o, e, t, dirs.push(dm), cs2)
            } else {
                Err(Failure::Syntax(cur.start, SyntaxFault::ExpectedClose))
            },
            Err(x) => Err(x),
        }
    }
}

/// The parse of a whole text: its top-level directives and its comments.
pub open spec fn parse_text(s: Seq<char>, o: ConfOptions) -> Result<
    (Seq<DirModel>, Seq<TokenModel>),
    Failure,
> {
    match step(s, o, 0) {
        Ok((t, e)) => document(s, o, e, t, seq![], seq![]),
        Err(x) => Err(x),
    }
}

/// The argument `a` is the token `m` of the source `s`, with its text.
pub open spec fn arg_is(a: ConfArgument, m: TokenModel, s: Seq<char>) -> bool {
    &&& a.value@ == s.subrange(m.start, m.end)
    &&& a.span.start == byte_offset(s, m.start)
    &&& a.span.end == byte_offset(s, m.end)
    &&& a.is_quoted == m.quoted
    &&& a.is_triple_quoted == m.triple
    &&& a.is_expression == m.expression
}

pub open spec fn args_are(v: Seq<ConfArgument>, m: Seq<TokenModel>, s: Seq<char>) -> bool {
    &&& v.len() == m.len()
    &&& forall|k: int| 0 <= k < m.len() ==> #[trigger] arg_is(v[k], m[k], s)
}

/// The directive `d` is the model `m` over the source `s`.
pub open spec fn dir_is(d: ConfDirective, m: DirModel, s: Seq<char>) -> bool
    decreases m,
{
    &&& arg_is(d.name, m.name, s)
    &&& args_are(d.arguments@, m.args, s)
    &&& d.children@.len() == m.children.len()
    &&& forall|k: int|
        0 <= k < m.children.len() ==> dir_is(#[trigger] d.children@[k], m.children[k], s)
}

pub open spec fn dirs_are(v: Seq<ConfDirective>, m: Seq<DirModel>, s: Seq<char>) -> bool {
    &&& v.len() == m.len()
    &&& forall|k: int| 0 <= k < m.len() ==> dir_is(#[trigger] v[k], m[k], s)
}

/// The comment `c` is the comment token `m` of the source `s`.
pub open spec fn comment_is(c: ConfComment, m: TokenModel, s: Seq<char>) -> bool {
    &&& c.content@ == s.subrange(m.start, m.end)
    &&& c.span.start == byte_offset(s, m.start)
    &&& c.span.end == byte_offset(s, m.end)
    &&& c.is_multi_line == (char_at(s, m.start) == Some('/') && char_at(s, m.start + 1) == Some(
        '*',
    ))
}

pub open spec fn comments_are(v: Seq<ConfComment>, m: Seq<TokenModel>, s: Seq<char>) -> bool {
    &&& v.len() == m.len()
    &&& forall|k: int| 0 <= k < m.len() ==> #[trigger] comment_is(v[k], m[k], s)
}

/// The unit `u` holds the directives `ds` and the comments `cs` of the source `s`.
pub open spec fn unit_is(u: ConfUnit, ds: Seq<DirModel>, cs: Seq<TokenModel>, s: Seq<char>) -> bool {
    dirs_are(u.directives@, ds, s) && comments_are(u.comments@, cs, s)
}

/// From a cursor within the text, `step` is the scanner's next token.
pub proof fn lemma_step_is_token(s: Seq<char>, o: ConfOptions, i: int)
    requires
        0 <= i <= s.len(),
    ensures
        match token_at(s, i, o) {
            Ok((m, e)) => step(s, o, i) == Ok::<(TokenModel, int), Failure>((m, e)),
            Err((k, f)) => step(s, o, i) == Err::<(TokenModel, int), Failure>(
                Failure::Lexical(k, f),
            ),
        },
{
    lemma_token_at_range(s, i, o);
}

/// A directive consumes at least its name.
pub proof fn lemma_directive_progress(
    s: Seq<char>,
    o: ConfOptions,
    i: int,
    cur: TokenModel,
    d: nat,
    cs: Seq<TokenModel>,
)
    ensures
        directive(s, o, i, cur, d, cs) matches Ok((_, e, t, _)) ==> rank(s, e, t) < rank(s, i, cur),
    decreases rank(s, i, cur), 0nat,
{
    if d < o.max_depth && cur.kind == TokenType::Argument {
        if let Ok((t, e)) = step(s, o, i) {
            lemma_arguments_progress(s, o, e, t, d, cur, seq![], cs);
        }
    }
}

proof fn lemma_arguments_progress(
    s: Seq<char>,
    o: ConfOptions,
    i: int,
    cur: TokenModel,
    d: nat,
    name: TokenModel,
    args: Seq<TokenModel>,
    cs: Seq<TokenModel>,
)
    ensures
        arguments(s, o, i, cur, d, name, args, cs) matches Ok((_, e, t, _)) ==> rank(s, e, t)
            <= rank(s, i, cur),
    decreases rank(s, i, cur), 1nat,
{
    if let Ok((t, e)) = step(s, o, i) {
        if cur.kind == TokenType::Argument || cur.kind == TokenType::Continuation {
            let a2 = if cur.kind == TokenType::Argument {
                args.push(cur)
            } else {
                args
            };
            lemma_arguments_progress(s, o, e, t, d, name, a2, cs);
        } else if cur.kind == TokenType::LeftCurlyBrace {
            lemma_block_progress(s, o, e, t, d + 1, name, args, seq![], cs);
        }
    }
}

proof fn lemma_block_progress(
    s: Seq<char>,
    o: ConfOptions,
    i: int,
    cur: TokenModel,
    d: nat,
    name: TokenModel,
    args: Seq<TokenModel>,
    children: Seq<DirModel>,
    cs: Seq<TokenModel>,
)
    ensures
        block(s, o, i, cur, d, name, args, children, cs) matches Ok((_, e, t, _)) ==> rank(s, e, t)
            <= rank(s, i, cur),
    decreases rank(s, i, cur), 1nat,
{
    if cur.kind == TokenType::RightCurlyBrace || cur.kind == TokenType::Eof {
    } else if cur.kind == TokenType::Comment || cur.kind == TokenType::Newline || cur.kind
        == TokenType::Whitespace {
        if let Ok((t, e)) = step(s, o, i) {
            let cs2 = if cur.kind == TokenType::Comment {
                cs.push(cur)
            } else {
                cs
            };
            lemma_block_progress(s, o, e, t, d, name, args, children, cs2);
        }
    } else {
        lemma_directive_progress(s, o, i, cur, d, cs);
        if let Ok((child, e, t, cs2)) = directive(s, o, i, cur, d, cs) {
            lemma_block_progress(s, o, e, t, d, name, args, children.push(child), cs2);
        }
    }
}

/// Parser for the configuration language.
pub struct Parser<'a> {
    /// The scanner the tokens come from.
    lexer: Lexer<'a>,
    /// The current token.
    current_token: Token,
    /// The options for the parser.
    options: ConfOptions,
    /// The current depth of nested directives.
    current_depth: usize,
    /// The current token, as the grammar sees it.
    current: Ghost<TokenModel>,
}

impl<'a> Parser<'a> {
    /// The characters of the source text.
    pub closed spec fn source(&self) -> Seq<char> {
        self.lexer.source()
    }

    /// Where the scanner stands, as a character index.
    pub closed spec fn cursor(&self) -> int {
        self.lexer.cursor()
    }

    /// The current token.
    pub closed spec fn current(&self) -> TokenModel {
        self.current@
    }

    /// The options the parser was made with.
    pub closed spec fn config(&self) -> ConfOptions {
        self.options
    }

    /// The current nesting depth.
    pub closed spec fn depth(&self) -> nat {
        self.current_depth as nat
    }

    pub closed spec fn wf(&self) -> bool {
        &&& self.lexer.wf()
        &&& self.lexer.config() == self.options
        &&& token_is(self.current_token, self.current@, self.lexer.source())
        &&& self.lexer.last_token() == (self.current@.start, self.current@.end)
        &&& self.current_depth <= self.options.max_depth
        &&& 0 <= self.lexer.cursor() <= self.lexer.source().len()
    }

    /// The scanner of a well-formed parser stands within its text.
    pub proof fn lemma_cursor_in_text(&self)
        requires
            self.wf(),
        ensures
            0 <= self.cursor() <= self.source().len(),
            self.depth() <= self.config().max_depth,
    {
    }

    /// Creates a new parser, positioned on the first token.
    pub fn new(input: &'a str, options: ConfOptions) -> (r: Result<Self, ConfError>)
        ensures
            match (r, step(input@, options, 0)) {
                (Ok(p), Ok((t, e))) => {
                    &&& p.wf()
                    &&& p.source() == input@
                    &&& p.config() == options
                    &&& p.cursor() == e
                    &&& p.current() == t
                    &&& p.depth() == 0
                },
                (Err(err), Err(f)) => fails_with(err, input@, f, options),
                _ => false,
            },
    {
        let mut lexer = Lexer::new(input, options);
        let ghost s = lexer.source();
        proof {
            lemma_step_is_token(s, options, 0);
        }
        let ghost m = match token_at(s, 0, options) {
            Ok((m, _)) => m,
            Err(_) => crate::lexer::plain(TokenType::Eof, 0, 0),
        };
        match lexer.next_token() {
            Ok(current_token) => Ok(
                Parser { lexer, current_token, options, current_depth: 0, current: Ghost(m) },
            ),
            Err(e) => Err(e),
        }
    }

    /// Advances to the next token.
    fn advance(&mut self) -> (r: Result<(), ConfError>)
        requires
            old(self).wf(),
        ensures
            final(self).source() == old(self).source(),
            final(self).config() == old(self).config(),
            final(self).depth() == old(self).depth(),
            match (r, step(old(self).source(), old(self).config(), old(self).cursor())) {
                (Ok(_), Ok((t, e))) => {
                    &&& final(self).wf()
                    &&& final(self).cursor() == e
                    &&& final(self).current() == t
                },
                (Err(err), Err(f)) => fails_with(err, old(self).source(), f, old(self).config()),
                _ => false,
            },
    {
        let ghost s = self.lexer.source();
        let ghost i = self.lexer.cursor();
        proof {
            lemma_step_is_token(s, self.options, i);
        }
        let ghost m = match token_at(s, i, self.options) {
            Ok((m, _)) => m,
            Err(_) => self.current@,
        };
        match self.lexer.next_token() {
            Ok(t) => {
                self.current_token = t;
                self.current = Ghost(m);
                Ok(())
            },
            Err(e) => Err(e),
        }
    }

    /// The error for a syntax fault at the current token.
    fn syntax_error(&self, f: SyntaxFault) -> (e: ConfError)
        requires
            self.wf(),
        ensures
            fails_with(
                e,
                self.source(),
                Failure::Syntax(self.current().start, f),
                self.config(),
            ),
    {
        let mut message = String::new();
        match f {
            SyntaxFault::DepthExceeded => {
                message.append("Maximum directive depth of ");
                push_dec(&mut message, self.options.max_depth as u64);
                message.append(" exceeded");
            },
            SyntaxFault::ExpectedName => message.append("Expected directive name"),
            SyntaxFault::ExpectedClose => message.append("Expected '}'"),
            SyntaxFault::ExpectedTerminator => message.append("Expected ';', '{', or newline"),
        }
        ConfError::ParserError { position: self.current_token.span.start, message }
    }

    /// The current token as an argument.
    fn argument_here(&self) -> (a: ConfArgument)
        requires
            self.wf(),
        ensures
            arg_is(a, self.current(), self.source()),
    {
        ConfArgument {
            value: self.lexer.token_text(),
            span: Range { start: self.current_token.span.start, end: self.current_token.span.end },
            is_quoted: self.current_token.is_quoted,
            is_triple_quoted: self.current_token.is_triple_quoted,
            is_expression: self.current_token.is_expression,
        }
    }

    /// Takes the current comment token and advances past it.
    fn parse_comment(&mut self) -> (r: Result<ConfComment, ConfError>)
        requires
            old(self).wf(),
        ensures
            final(self).source() == old(self).source(),
            final(self).config() == old(self).config(),
            final(self).depth() == old(self).depth(),
            match (r, step(old(self).source(), old(self).config(), old(self).cursor())) {
                (Ok(c), Ok((t, e))) => {
                    &&& comment_is(c, old(self).current(), old(self).source())
                    &&& final(self).wf()
                    &&& final(self).cursor() == e
                    &&& final(self).current() == t
                },
                (Err(err), Err(f)) => fails_with(err, old(self).source(), f, old(self).config()),
                _ => false,
            },
    {
        let comment = ConfComment {
            content: self.lexer.token_text(),
            span: Range { start: self.current_token.span.start, end: self.current_token.span.end },
            is_multi_line: self.lexer.token_opens_block_comment(),
        };
        match self.advance() {
            Ok(_) => Ok(comment),
            Err(e) => Err(e),
        }
    }

    /// Parses a directive whose name is the current token, and its block if it has one.
    fn parse_directive(
        &mut self,
        comments: &mut Vec<ConfComment>,
        Ghost(cs): Ghost<Seq<TokenModel>>,
    ) -> (r: Result<ConfDirective, ConfError>)
        requires
            old(self).wf(),
            comments_are(old(comments)@, cs, old(self).source()),
        ensures
            final(self).source() == old(self).source(),
            final(self).config() == old(self).config(),
            match (
                r,
                directive(
                    old(self).source(),
                    old(self).config(),
                    old(self).cursor(),
                    old(self).current(),
                    old(self).depth(),
                    cs,
                ),
            ) {
                (Ok(d), Ok((dm, e, t, cs2))) => {
                    &&& dir_is(d, dm, old(self).source())
                    &&& final(self).wf()
                    &&& final(self).depth() == old(self).depth()
                    &&& final(self).cursor() == e
                    &&& final(self).current() == t
                    &&& comments_are(final(comments)@, cs2, old(self).source())
                },
                (Err(err), Err(f)) => fails_with(err, old(self).source(), f, old(self).config()),
                _ => false,
            },
        decreases rank(old(self).source(), old(self).cursor(), old(self).current()),
    {
        let ghost s = self.source();
        let ghost o = self.options;
        let ghost d = self.depth();
        let ghost entry = rank(s, self.cursor(), self.current());
        let ghost target = directive(s, o, self.cursor(), self.current(), d, cs);
        if self.current_depth >= self.options.max_depth {
            return Err(self.syntax_error(SyntaxFault::DepthExceeded));
        }
        if self.current_token.token_type != TokenType::Argument {
            return Err(self.syntax_error(SyntaxFault::ExpectedName));
        }
        let name = self.argument_here();
        let ghost name_m = self.current();
        match self.advance() {
            Ok(_) => {},
            Err(e) => {
                return Err(e);
            },
        }
        let mut arguments: Vec<ConfArgument> = Vec::new();
        let ghost mut args_m: Seq<TokenModel> = seq![];
        while self.current_token.token_type == TokenType::Argument
            || self.current_token.token_type == TokenType::Continuation
            invariant
                self.wf(),
                self.source() == s,
                self.config() == o,
                s == old(self).source(),
                o == old(self).config(),
                d == old(self).depth(),
                target == directive(s, o, old(self).cursor(), old(self).current(), d, cs),
                entry == rank(s, old(self).cursor(), old(self).current()),
                self.depth() == d,
                d < o.max_depth,
                rank(s, self.cursor(), self.current()) < entry,
                self::arguments(s, o, self.cursor(), self.current(), d, name_m, args_m, cs) == target,
                args_are(arguments@, args_m, s),
                comments_are(comments@, cs, s),
                arg_is(name, name_m, s),
            decreases rank(s, self.cursor(), self.current()),
        {
            if self.current_token.token_type == TokenType::Argument {
                let a = self.argument_here();
                arguments.push(a);
                proof {
                    args_m = args_m.push(self.current());
                }
            }
            match self.advance() {
                Ok(_) => {},
                Err(e) => {
                    return Err(e);
                },
            }
        }
        let mut children: Vec<ConfDirective> = Vec::new();
        let ghost mut children_m: Seq<DirModel> = seq![];
        let ghost mut cs_now = cs;
        if self.current_token.token_type == TokenType::LeftCurlyBrace {
            match self.advance() {
                Ok(_) => {},
                Err(e) => {
                    return Err(e);
                },
            }
            self.current_depth = self.current_depth + 1;
            while self.current_token.token_type != TokenType::RightCurlyBrace
                && self.current_token.token_type != TokenType::Eof
                invariant
                    self.wf(),
                    self.source() == s,
                    self.config() == o,
                    s == old(self).source(),
                    o == old(self).config(),
                    d == old(self).depth(),
                    target == directive(s, o, old(self).cursor(), old(self).current(), d, cs),
                    entry == rank(s, old(self).cursor(), old(self).current()),
                    self.depth() == d + 1,
                    d < o.max_depth,
                    rank(s, self.cursor(), self.current()) < entry,
                    block(
                        s,
                        o,
                        self.cursor(),
                        self.current(),
                        d + 1,
                        name_m,
                        args_m,
                        children_m,
                        cs_now,
                    ) == target,
                    args_are(arguments@, args_m, s),
                    dirs_are(children@, children_m, s),
                    comments_are(comments@, cs_now, s),
                    arg_is(name, name_m, s),
                decreases rank(s, self.cursor(), self.current()),
            {
                if self.current_token.token_type == TokenType::Comment {
                    let ghost cur = self.current();
                    match self.parse_comment() {
                        Ok(c) => {
                            comments.push(c);
                            proof {
                                cs_now = cs_now.push(cur);
                            }
                        },
                        Err(e) => {
                            return Err(e);
                        },
                    }
                } else if self.current_token.token_type == TokenType::Newline
                    || self.current_token.token_type == TokenType::Whitespace {
                    match self.advance() {
                        Ok(_) => {},
                        Err(e) => {
                            return Err(e);
                        },
                    }
                } else {
                    let ghost res = directive(s, o, self.cursor(), self.current(), d + 1, cs_now);
                    proof {
                        lemma_directive_progress(s, o, self.cursor(), self.current(), d + 1, cs_now);
                    }
                    match self.parse_directive(comments, Ghost(cs_now)) {
                        Ok(child) => {
                            children.push(child);
                            proof {
                                if let Ok((cm, _, _, cs2)) = res {
                                    children_m = children_m.push(cm);
                                    cs_now = cs2;
                                }
                                assert(dirs_are(children@, children_m, s));
                            }
                        },
                        Err(e) => {
                            return Err(e);
                        },
                    }
                }
            }
            if self.current_token.token_type != TokenType::RightCurlyBrace {
                return Err(self.syntax_error(SyntaxFault::ExpectedClose));
            }
            match self.advance() {
                Ok(_) => {},
                Err(e) => {
                    return Err(e);
                },
            }
            self.current_depth = self.current_depth - 1;
        } else if self.current_token.token_type == TokenType::Semicolon {
            match self.advance() {
                Ok(_) => {},
                Err(e) => {
                    return Err(e);
                },
            }
        } else if self.current_token.token_type != TokenType::Newline
            && self.current_token.token_type != TokenType::Eof {
            return Err(self.syntax_error(SyntaxFault::ExpectedTerminator));
        }
        Ok(ConfDirective { name, arguments, children })
    }

    /// Parses the rest of the input as a configuration unit.
    pub fn parse(&mut self) -> (r: Result<ConfUnit, ConfError>)
        requires
            old(self).wf(),
            old(self).depth() == 0,
        ensures
            match (
                r,
                document(
                    old(self).source(),
                    old(self).config(),
                    old(self).cursor(),
                    old(self).current(),
                    seq![],
                    seq![],
                ),
            ) {
                (Ok(u), Ok((ds, cs))) => unit_is(u, ds, cs, old(self).source()),
                (Err(err), Err(f)) => fails_with(err, old(self).source(), f, old(self).config()),
                _ => false,
            },
    {
        let ghost s = self.source();
        let ghost o = self.options;
        let ghost target = document(s, o, self.cursor(), self.current(), seq![], seq![]);
        let mut directives: Vec<ConfDirective> = Vec::new();
        let mut comments: Vec<ConfComment> = Vec::new();
        let ghost mut dirs_m: Seq<DirModel> = seq![];
        let ghost mut cs_m: Seq<TokenModel> = seq![];
        while self.current_token.token_type != TokenType::Eof
            invariant
                self.wf(),
                self.source() == s,
                self.config() == o,
                s == old(self).source(),
                o == old(self).config(),
                target == document(s, o, old(self).cursor(), old(self).current(), seq![], seq![]),
                self.depth() == 0,
                document(s, o, self.cursor(), self.current(), dirs_m, cs_m) == target,
                dirs_are(directives@, dirs_m, s),
                comments_are(comments@, cs_m, s),
            decreases rank(s, self.cursor(), self.current()),
        {
            let kind = self.current_token.token_type;
            if kind == TokenType::Comment {
                let ghost cur = self.current();
                match self.parse_comment() {
                    Ok(c) => {
                        comments.push(c);
                        proof {
                            cs_m = cs_m.push(cur);
                        }
                    },
                    Err(e) => {
                        return Err(e);
                    },
                }
            } else if kind == TokenType::Newline || kind == TokenType::Whitespace || kind
                == TokenType::Continuation {
                match self.advance() {
                    Ok(_) => {},
                    Err(e) => {
                        return Err(e);
                    },
                }
            } else {
                let ghost res = directive(s, o, self.cursor(), self.current(), 0, cs_m);
                proof {
                    lemma_directive_progress(s, o, self.cursor(), self.current(), 0, cs_m);
                }
                match self.parse_directive(&mut comments, Ghost(cs_m)) {
                    Ok(dir) => {
                        directives.push(dir);
                        proof {
                            if let Ok((dm, _, _, cs2)) = res {
                                dirs_m = dirs_m.push(dm);
                                cs_m = cs2;
                            }
                            assert(dirs_are(directives@, dirs_m, s));
                        }
                    },
                    Err(e) => {
                        return Err(e);
                    },
                }
            }
        }
        Ok(ConfUnit { directives, comments })
    }
}

} // verus!
