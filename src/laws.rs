//! Properties of the whole front end, stated over the grammar's spec functions.
use crate::chars::{is_blank_char, is_forbidden_char, is_line_terminator_char, is_white_space_char};
use crate::lexer::{
    bare_end, bare_end_after_break, LexFault, block_comment_end, lemma_token_at_range, line_comment_end,
    opens_triple, past_terminator, quoted_end, skip_blanks, token_at, TokenModel, TokenType,
};
use crate::parser::{arguments, block, directive, document, parse_text, step, DirModel, Failure};
use crate::ConfOptions;
use vstd::prelude::*;

verus! {

/// A character that no scan accepts.
pub open spec fn unscannable(c: char, o: ConfOptions) -> bool {
    is_forbidden_char(c, o.forbid_bidi_characters)
}

/// Position `p` holds an unscannable character.
pub open spec fn bad_at(s: Seq<char>, p: int, o: ConfOptions) -> bool {
    &&& 0 <= p < s.len()
    &&& unscannable(s[p], o)
}

/// The fault `f` reports the forbidden character `c`.
pub open spec fn reports_char(f: LexFault, c: char) -> bool {
    f == LexFault::Forbidden(c) || f == LexFault::ForbiddenInComment(c) || f
        == LexFault::ForbiddenInQuote(c) || f == LexFault::ForbiddenInArgument(c)
}

/// A scan fault before index `p`, or the report of the forbidden character at `p`.
pub open spec fn early_fault(x: (int, LexFault), s: Seq<char>, p: int) -> bool {
    x.0 < p || (x.0 == p && reports_char(x.1, s[p]))
}

/// A parse failure before index `p`, or the lexical report of the forbidden character
/// at `p`.
pub open spec fn early_failure(f: Failure, s: Seq<char>, p: int) -> bool {
    match f {
        Failure::Lexical(k, lf) => early_fault((k, lf), s, p),
        Failure::Syntax(k, _) => k < p,
    }
}

proof fn lemma_unscannable_not_white(c: char, o: ConfOptions)
    requires
        unscannable(c, o),
    ensures
        !is_white_space_char(c),
{
}

proof fn lemma_skip_blanks_stops(s: Seq<char>, i: int, p: int, o: ConfOptions)
    requires
        bad_at(s, p, o),
        0 <= i <= p,
    ensures
        skip_blanks(s, i) <= p,
    decreases s.len() - i,
{
    lemma_unscannable_not_white(s[p], o);
    if i < p && is_blank_char(s[i]) {
        lemma_skip_blanks_stops(s, i + 1, p, o);
    }
}

proof fn lemma_line_comment_stops(s: Seq<char>, i: int, p: int, o: ConfOptions)
    requires
        bad_at(s, p, o),
        0 <= i <= p,
    ensures
        line_comment_end(s, i, o) matches Ok(e) ==> e <= p,
        line_comment_end(s, i, o) matches Err(x) ==> early_fault(x, s, p),
    decreases s.len() - i,
{
    lemma_unscannable_not_white(s[p], o);
    if i < p && !is_line_terminator_char(s[i]) && !is_forbidden_char(
        s[i],
        o.forbid_bidi_characters,
    ) {
        lemma_line_comment_stops(s, i + 1, p, o);
    }
}

proof fn lemma_block_comment_stops(s: Seq<char>, i: int, start: int, p: int, o: ConfOptions)
    requires
        bad_at(s, p, o),
        0 <= i <= p,
    ensures
        block_comment_end(s, i, start, o) matches Ok(e) ==> e <= p,
        block_comment_end(s, i, start, o) matches Err(x) ==> early_fault(x, s, p),
    decreases s.len() - i,
{
    if i < p {
        lemma_block_comment_stops(s, i + 1, start, p, o);
    }
}

proof fn lemma_quoted_stops(s: Seq<char>, i: int, triple: bool, start: int, p: int, o: ConfOptions)
    requires
        bad_at(s, p, o),
        0 <= i <= p,
    ensures
        quoted_end(s, i, triple, start, o) matches Ok(e) ==> e <= p,
        quoted_end(s, i, triple, start, o) matches Err(x) ==> early_fault(x, s, p),
    decreases s.len() - i,
{
    lemma_unscannable_not_white(s[p], o);
    if i < p {
        if s[i] == '\\' && i + 1 < s.len() {
            if triple && o.allow_line_continuations && is_line_terminator_char(s[i + 1]) {
                if past_terminator(s, i + 1) <= p {
                    lemma_quoted_stops(s, past_terminator(s, i + 1), triple, start, p, o);
                }
            } else if i + 2 <= p {
                lemma_quoted_stops(s, i + 2, triple, start, p, o);
            }
        } else {
            lemma_quoted_stops(s, i + 1, triple, start, p, o);
        }
    }
}

proof fn lemma_bare_stops(s: Seq<char>, i: int, p: int, o: ConfOptions)
    requires
        bad_at(s, p, o),
        0 <= i <= p,
    ensures
        bare_end(s, i, o) matches Ok(e) ==> e <= p,
        bare_end(s, i, o) matches Err(x) ==> early_fault(x, s, p),
        bare_end_after_break(s, i, o) matches Ok(e) ==> e <= p,
        bare_end_after_break(s, i, o) matches Err(x) ==> early_fault(x, s, p),
    decreases s.len() - i,
{
    lemma_unscannable_not_white(s[p], o);
    if i < p {
        if is_blank_char(s[i]) {
            lemma_bare_stops(s, i + 1, p, o);
        }
        if s[i] == '\\' && i + 1 < s.len() {
            if o.allow_line_continuations && is_line_terminator_char(s[i + 1]) {
                if past_terminator(s, i + 1) <= p {
                    lemma_bare_stops(s, past_terminator(s, i + 1), p, o);
                }
            } else if i + 2 <= p {
                lemma_bare_stops(s, i + 2, p, o);
            }
        } else {
            lemma_bare_stops(s, i + 1, p, o);
        }
    }
}

/// No token that scans without error covers a bad position.
proof fn lemma_token_stops(s: Seq<char>, i: int, p: int, o: ConfOptions)
    requires
        bad_at(s, p, o),
        0 <= i <= p,
    ensures
        token_at(s, i, o) matches Ok((m, e)) ==> e <= p,
        token_at(s, i, o) matches Err(x) ==> early_fault(x, s, p),
{
    lemma_unscannable_not_white(s[p], o);
    lemma_skip_blanks_stops(s, i, p, o);
    crate::lexer::lemma_skip_blanks_range(s, i);
    let j = skip_blanks(s, i);
    if j < p {
        lemma_line_comment_stops(s, j + 1, p, o);
        lemma_bare_stops(s, j, p, o);
        lemma_quoted_stops(s, j + 1, false, j, p, o);
        if j + 1 < p {
            lemma_line_comment_stops(s, j + 2, p, o);
            lemma_block_comment_stops(s, j + 2, j, p, o);
            if past_terminator(s, j + 1) <= p {
                lemma_skip_blanks_stops(s, past_terminator(s, j + 1), p, o);
            }
        }
        if opens_triple(s, j, o) && j + 3 <= p {
            lemma_quoted_stops(s, j + 3, true, j, p, o);
        }
    }
}

/// What a parse state after a scanned token satisfies: the cursor is within the text
/// and the end of input leaves it at the end.
pub open spec fn state_ok(s: Seq<char>, i: int, cur: TokenModel) -> bool {
    &&& 0 <= i <= s.len()
    &&& cur.kind == TokenType::Eof ==> i == s.len()
    &&& cur.kind != TokenType::Eof ==> cur.start < cur.end <= i
}

proof fn lemma_step_stops(s: Seq<char>, o: ConfOptions, i: int, p: int)
    requires
        bad_at(s, p, o),
        0 <= i <= p,
    ensures
        step(s, o, i) matches Ok((t, e)) ==> e <= p && state_ok(s, e, t),
        step(s, o, i) matches Err(f) ==> early_failure(f, s, p),
{
    lemma_token_stops(s, i, p, o);
    lemma_token_at_range(s, i, o);
}

proof fn lemma_directive_stops(
    s: Seq<char>,
    o: ConfOptions,
    i: int,
    cur: TokenModel,
    d: nat,
    cs: Seq<TokenModel>,
    p: int,
)
    requires
        bad_at(s, p, o),
        0 <= i <= p,
        state_ok(s, i, cur),
    ensures
        directive(s, o, i, cur, d, cs) matches Ok((_, e, t, _)) ==> e <= p && state_ok(s, e, t),
        directive(s, o, i, cur, d, cs) matches Err(f) ==> early_failure(f, s, p),
    decreases crate::parser::rank(s, i, cur), 0nat,
{
    lemma_step_stops(s, o, i, p);
    if d < o.max_depth && cur.kind == TokenType::Argument {
        if let Ok((t, e)) = step(s, o, i) {
            lemma_arguments_stops(s, o, e, t, d, cur, seq![], cs, p);
        }
    }
}

proof fn lemma_arguments_stops(
    s: Seq<char>,
    o: ConfOptions,
    i: int,
    cur: TokenModel,
    d: nat,
    name: TokenModel,
    args: Seq<TokenModel>,
    cs: Seq<TokenModel>,
    p: int,
)
    requires
        bad_at(s, p, o),
        0 <= i <= p,
        state_ok(s, i, cur),
    ensures
        arguments(s, o, i, cur, d, name, args, cs) matches Ok((_, e, t, _)) ==> e <= p && state_ok(
            s,
            e,
            t,
        ),
        arguments(s, o, i, cur, d, name, args, cs) matches Err(f) ==> early_failure(f, s, p),
    decreases crate::parser::rank(s, i, cur), 1nat,
{
    lemma_step_stops(s, o, i, p);
    if let Ok((t, e)) = step(s, o, i) {
        if cur.kind == TokenType::Argument || cur.kind == TokenType::Continuation {
            let a2 = if cur.kind == TokenType::Argument {
                args.push(cur)
            } else {
                args
            };
            lemma_arguments_stops(s, o, e, t, d, name, a2, cs, p);
        } else if cur.kind == TokenType::LeftCurlyBrace {
            lemma_block_stops(s, o, e, t, d + 1, name, args, seq![], cs, p);
        }
    }
}

proof fn lemma_block_stops(
    s: Seq<char>,
    o: ConfOptions,
    i: int,
    cur: TokenModel,
    d: nat,
    name: TokenModel,
    args: Seq<TokenModel>,
    children: Seq<DirModel>,
    cs: Seq<TokenModel>,
    p: int,
)
    requires
        bad_at(s, p, o),
        0 <= i <= p,
        state_ok(s, i, cur),
    ensures
        block(s, o, i, cur, d, name, args, children, cs) matches Ok((_, e, t, _)) ==> e <= p
            && state_ok(s, e, t),
        block(s, o, i, cur, d, name, args, children, cs) matches Err(f) ==> early_failure(f, s, p),
    decreases crate::parser::rank(s, i, cur), 1nat,
{
    lemma_step_stops(s, o, i, p);
    if cur.kind == TokenType::RightCurlyBrace || cur.kind == TokenType::Eof {
    } else if cur.kind == TokenType::Comment || cur.kind == TokenType::Newline || cur.kind
        == TokenType::Whitespace {
        if let Ok((t, e)) = step(s, o, i) {
            let cs2 = if cur.kind == TokenType::Comment {
                cs.push(cur)
            } else {
                cs
            };
            lemma_block_stops(s, o, e, t, d, name, args, children, cs2, p);
        }
    } else {
        lemma_directive_stops(s, o, i, cur, d, cs, p);
        if let Ok((child, e, t, cs2)) = directive(s, o, i, cur, d, cs) {
            if crate::parser::rank(s, e, t) < crate::parser::rank(s, i, cur) {
                lemma_block_stops(s, o, e, t, d, name, args, children.push(child), cs2, p);
            }
        }
    }
}

proof fn lemma_document_fails(
    s: Seq<char>,
    o: ConfOptions,
    i: int,
    cur: TokenModel,
    dirs: Seq<DirModel>,
    cs: Seq<TokenModel>,
    p: int,
)
    requires
        bad_at(s, p, o),
        0 <= i <= p,
        state_ok(s, i, cur),
    ensures
        document(s, o, i, cur, dirs, cs) is Err,
        document(s, o, i, cur, dirs, cs) matches Err(f) ==> early_failure(f, s, p),
    decreases crate::parser::rank(s, i, cur), 1nat,
{
    lemma_step_stops(s, o, i, p);
    if cur.kind == TokenType::Eof {
    } else if cur.kind == TokenType::Comment || cur.kind == TokenType::Newline || cur.kind
        == TokenType::Whitespace || cur.kind == TokenType::Continuation {
        if let Ok((t, e)) = step(s, o, i) {
            let cs2 = if cur.kind == TokenType::Comment {
                cs.push(cur)
            } else {
                cs
            };
            lemma_document_fails(s, o, e, t, dirs, cs2, p);
        }
    } else {
        lemma_directive_stops(s, o, i, cur, 0, cs, p);
        if let Ok((dm, e, t, cs2)) = directive(s, o, i, cur, 0, cs) {
            if crate::parser::rank(s, e, t) < crate::parser::rank(s, i, cur) {
                lemma_document_fails(s, o, e, t, dirs.push(dm), cs2, p);
            }
        }
    }
}

/// A text that holds a forbidden character anywhere (U+0000, say, or a bidirectional
/// control while those are forbidden) is rejected: no scan passes over such a
/// character, in an argument, a comment, quotes or an escape. The parse fails with the
/// lexical report of that character at its position, unless a fault earlier in the
/// text stops it first.
pub proof fn lemma_forbidden_character_rejected(s: Seq<char>, o: ConfOptions, p: int)
    requires
        0 <= p < s.len(),
        is_forbidden_char(s[p], o.forbid_bidi_characters),
    ensures
        parse_text(s, o) is Err,
        parse_text(s, o) matches Err(f) ==> early_failure(f, s, p),
{
    lemma_step_stops(s, o, 0, p);
    if let Ok((t, e)) = step(s, o, 0) {
        lemma_document_fails(s, o, e, t, seq![], seq![], p);
    }
}

} // verus!
