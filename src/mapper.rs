//! Rendering of directive trees as text, and the conversions that the mapping layer
//! uses between configuration values and plain values.
use crate::chars::{chars_of, push_char};
use crate::{unquoted, ConfArgument, ConfDirective, ConfOptions};
use vstd::prelude::*;

verus! {

broadcast use vstd::std_specs::vec::group_vec_axioms;

/// The I/O error that reading or writing a configuration file reports; carried as is.
#[verifier::external_type_specification]
#[verifier::external_body]
pub struct ExIoError(std::io::Error);

/// Error type for mapping operations.
#[derive(Debug)]
pub enum MapperError {
    /// Error during parsing.
    ParseError(String),
    /// Error during serialization.
    SerializeError(String),
    /// Error during file I/O.
    IoError(std::io::Error),
    /// Error during value conversion.
    ConversionError(String),
    /// Error when a required field is missing.
    MissingField(String),
}

/// Relies on the `Display` of `std::io::Error`: a description of the error, of which
/// nothing more is claimed.
#[verifier::external_body]
fn io_error_text(e: &std::io::Error) -> (r: String) {
    e.to_string()
}

impl MapperError {
    /// The error as text, for every kind but I/O; an I/O error starts with `I/O error: `.
    pub open spec fn text_is(&self, t: Seq<char>) -> bool {
        match self {
            MapperError::ParseError(m) => t == "Parse error: "@ + m@,
            MapperError::SerializeError(m) => t == "Serialization error: "@ + m@,
            MapperError::IoError(_) => t.len() >= 11 && t.subrange(0, 11) == "I/O error: "@,
            MapperError::ConversionError(m) => t == "Conversion error: "@ + m@,
            MapperError::MissingField(m) => t == "Missing required field: "@ + m@,
        }
    }

    /// Formats the error as text.
    pub fn to_string(&self) -> (r: String)
        ensures
            self.text_is(r@),
    {
        let mut r = String::new();
        match self {
            MapperError::ParseError(m) => {
                push_str(&mut r, "Parse error: ");
                push_str(&mut r, m.as_str());
            },
            MapperError::SerializeError(m) => {
                push_str(&mut r, "Serialization error: ");
                push_str(&mut r, m.as_str());
            },
            MapperError::IoError(e) => {
                push_str(&mut r, "I/O error: ");
                proof {
                    reveal_strlit("I/O error: ");
                }
                let ghost head = r@;
                let text = io_error_text(e);
                push_str(&mut r, text.as_str());
                assert(r@.subrange(0, 11) =~= head);
            },
            MapperError::ConversionError(m) => {
                push_str(&mut r, "Conversion error: ");
                push_str(&mut r, m.as_str());
            },
            MapperError::MissingField(m) => {
                push_str(&mut r, "Missing required field: ");
                push_str(&mut r, m.as_str());
            },
        }
        r
    }
}

/// Options for mapper configuration.
#[derive(Debug, Clone)]
pub struct MapperOptions {
    /// Options for the parser.
    pub parser_options: ConfOptions,
    /// Whether field names should be converted to kebab-case in the config.
    pub use_kebab_case: bool,
    /// Indentation string to use when writing configs.
    pub indent: String,
}

impl Default for MapperOptions {
    fn default() -> (r: Self)
        ensures
            r.parser_options.max_depth == 100,
            r.parser_options.forbid_bidi_characters,
            !r.use_kebab_case,
            r.indent@ == seq![' ', ' '],
    {
        let mut indent = String::new();
        push_char(&mut indent, ' ');
        push_char(&mut indent, ' ');
        MapperOptions { parser_options: ConfOptions::default(), use_kebab_case: false, indent }
    }
}

/// `s` without the commas that end it.
pub open spec fn trim_end_commas(s: Seq<char>) -> Seq<char>
    decreases s.len(),
{
    if s.len() > 0 && s.last() == ',' {
        trim_end_commas(s.drop_last())
    } else {
        s
    }
}

/// `s` without one comma that ends it.
pub open spec fn trim_one_comma(s: Seq<char>) -> Seq<char> {
    if s.len() > 0 && s.last() == ',' {
        s.drop_last()
    } else {
        s
    }
}

/// Two spaces for each level of depth.
pub open spec fn indentation(depth: nat) -> Seq<char> {
    Seq::new(2 * depth, |i: int| ' ')
}

/// An argument as written: a quoted one is wrapped in fresh quotes, after losing any
/// surrounding quotes and one trailing comma; any other is written as it is.
pub open spec fn rendered_argument(a: ConfArgument) -> Seq<char> {
    if a.is_quoted {
        seq!['"'] + trim_one_comma(unquoted(a.value@)) + seq!['"']
    } else {
        a.value@
    }
}

/// The first `n` arguments, each after a space.
pub open spec fn rendered_arguments(args: Seq<ConfArgument>, n: int) -> Seq<char>
    decreases n,
{
    if n <= 0 {
        seq![]
    } else {
        rendered_arguments(args, n - 1) + seq![' '] + rendered_argument(args[n - 1])
    }
}

/// A directive written at the given depth, its children one level deeper.
pub open spec fn rendered_directive(d: ConfDirective, depth: nat) -> Seq<char>
    decreases d, 1nat,
{
    indentation(depth) + d.name.value@ + rendered_arguments(
        d.arguments@,
        d.arguments@.len() as int,
    ) + if d.children@.len() == 0 {
        seq![';', '\n']
    } else {
        seq![' ', '{', '\n'] + rendered_children(d, d.children@.len() as int, depth + 1)
            + indentation(depth) + seq!['}', '\n']
    }
}

/// The first `n` children of `d`, written at the given depth.
pub open spec fn rendered_children(d: ConfDirective, n: int, depth: nat) -> Seq<char>
    decreases d, 0nat, n,
{
    if n <= 0 || n > d.children@.len() {
        seq![]
    } else {
        rendered_children(d, n - 1, depth) + rendered_directive(d.children@[n - 1], depth)
    }
}

/// Every level of `d`, written from the given depth, has a depth that fits in `usize`.
pub open spec fn depth_fits(d: ConfDirective, depth: nat) -> bool
    decreases d, 1nat,
{
    depth <= usize::MAX && children_fit(d, d.children@.len() as int, depth + 1)
}

pub open spec fn children_fit(d: ConfDirective, n: int, depth: nat) -> bool
    decreases d, 0nat, n,
{
    if n <= 0 || n > d.children@.len() {
        true
    } else {
        children_fit(d, n - 1, depth) && depth_fits(d.children@[n - 1], depth)
    }
}

proof fn lemma_child_fits(d: ConfDirective, n: int, k: int, depth: nat)
    requires
        children_fit(d, n, depth),
        0 <= k < n <= d.children@.len(),
    ensures
        depth_fits(d.children@[k], depth),
    decreases n,
{
    if k < n - 1 {
        lemma_child_fits(d, n - 1, k, depth);
    }
}

/// Whether `serialize_directive` can write `directive` from the given depth.
pub fn nesting_fits(directive: &ConfDirective, depth: usize) -> (r: bool)
    ensures
        r == depth_fits(*directive, depth as nat),
    decreases directive,
{
    if depth == usize::MAX {
        if directive.children.len() == 0 {
            return true;
        }
        assert(!depth_fits(directive.children@[0], (depth + 1) as nat));
        assert(!children_fit(*directive, 1, (depth + 1) as nat));
        proof {
            let n = directive.children@.len() as int;
            if children_fit(*directive, n, (depth + 1) as nat) {
                lemma_children_fit_prefix(*directive, n, 1, (depth + 1) as nat);
            }
        }
        return false;
    }
    let mut k: usize = 0;
    while k < directive.children.len()
        invariant
            depth < usize::MAX,
            k <= directive.children@.len(),
            children_fit(*directive, k as int, (depth + 1) as nat),
        decreases directive.children@.len() - k,
    {
        if !nesting_fits(&directive.children[k], depth + 1) {
            proof {
                let n = directive.children@.len() as int;
                if children_fit(*directive, n, (depth + 1) as nat) {
                    lemma_children_fit_prefix(*directive, n, k + 1, (depth + 1) as nat);
                }
            }
            return false;
        }
        k = k + 1;
    }
    true
}

proof fn lemma_children_fit_prefix(d: ConfDirective, n: int, m: int, depth: nat)
    requires
        children_fit(d, n, depth),
        0 <= m <= n <= d.children@.len(),
    ensures
        children_fit(d, m, depth),
    decreases n,
{
    if m < n {
        lemma_children_fit_prefix(d, n - 1, m, depth);
    }
}

fn push_str(out: &mut String, s: &str)
    ensures
        final(out)@ == old(out)@ + s@,
{
    out.append(s);
}

/// Appends a quoted argument's text: without surrounding quotes and one trailing comma.
fn push_quoted_body(out: &mut String, value: &String)
    ensures
        final(out)@ == old(out)@ + trim_one_comma(unquoted(value@)),
{
    let chars = chars_of(value.as_str());
    let n = chars.len();
    let mut from: usize = 0;
    let mut to: usize = n;
    if n >= 2 && chars[0] == '"' && chars[n - 1] == '"' {
        from = 1;
        to = n - 1;
    }
    assert(chars@.subrange(from as int, to as int) == unquoted(value@));
    if to > from && chars[to - 1] == ',' {
        assert(chars@.subrange(from as int, to - 1) =~= chars@.subrange(
            from as int,
            to as int,
        ).drop_last());
        to = to - 1;
    }
    let mut i = from;
    let ghost start = out@;
    while i < to
        invariant
            from <= i <= to <= chars@.len(),
            out@ == start + chars@.subrange(from as int, i as int),
        decreases to - i,
    {
        push_char(out, chars[i]);
        i = i + 1;
        assert(out@ =~= start + chars@.subrange(from as int, i as int));
    }
}

/// Appends a text as the mapping layer writes a string: without surrounding quotes and
/// trailing commas.
fn push_unquoted_text(out: &mut String, value: &String)
    ensures
        final(out)@ == old(out)@ + trim_end_commas(unquoted(value@)),
{
    let chars = chars_of(value.as_str());
    let n = chars.len();
    let mut from: usize = 0;
    let mut to: usize = n;
    if n >= 2 && chars[0] == '"' && chars[n - 1] == '"' {
        from = 1;
        to = n - 1;
    }
    let ghost body = chars@.subrange(from as int, to as int);
    assert(body == unquoted(value@));
    while to > from && chars[to - 1] == ','
        invariant
            from <= to <= chars@.len(),
            trim_end_commas(chars@.subrange(from as int, to as int)) == trim_end_commas(body),
        decreases to,
    {
        assert(chars@.subrange(from as int, to - 1) =~= chars@.subrange(
            from as int,
            to as int,
        ).drop_last());
        to = to - 1;
    }
    let mut i = from;
    let ghost start = out@;
    while i < to
        invariant
            from <= i <= to <= chars@.len(),
            out@ == start + chars@.subrange(from as int, i as int),
        decreases to - i,
    {
        push_char(out, chars[i]);
        i = i + 1;
        assert(out@ =~= start + chars@.subrange(from as int, i as int));
    }
}

/// Writes `directive` at the given depth: indentation, name, arguments, and then `;`
/// or a block of its children.
pub fn serialize_directive(directive: &ConfDirective, output: &mut String, depth: usize) -> (r:
    Result<(), MapperError>)
    requires
        depth_fits(*directive, depth as nat),
    ensures
        r is Ok,
        final(output)@ == old(output)@ + rendered_directive(*directive, depth as nat),
    decreases directive,
{
    let ghost start = output@;
    let mut level: usize = 0;
    while level < depth
        invariant
            level <= depth,
            output@ == start + indentation(level as nat),
        decreases depth - level,
    {
        push_char(output, ' ');
        push_char(output, ' ');
        level = level + 1;
        assert(output@ =~= start + indentation(level as nat));
    }
    push_str(output, directive.name.value.as_str());
    let ghost head = output@;
    let mut k: usize = 0;
    while k < directive.arguments.len()
        invariant
            k <= directive.arguments@.len(),
            output@ == head + rendered_arguments(directive.arguments@, k as int),
        decreases directive.arguments@.len() - k,
    {
        let arg = &directive.arguments[k];
        push_char(output, ' ');
        if arg.is_quoted {
            push_char(output, '"');
            push_quoted_body(output, &arg.value);
            push_char(output, '"');
        } else {
            push_str(output, arg.value.as_str());
        }
        k = k + 1;
        assert(output@ =~= head + rendered_arguments(directive.arguments@, k as int));
    }
    if directive.children.len() == 0 {
        push_char(output, ';');
        push_char(output, '\n');
    } else {
        push_char(output, ' ');
        push_char(output, '{');
        push_char(output, '\n');
        let ghost open = output@;
        let mut c: usize = 0;
        while c < directive.children.len()
            invariant
                depth_fits(*directive, depth as nat),
                c <= directive.children@.len(),
                output@ == open + rendered_children(*directive, c as int, (depth + 1) as nat),
            decreases directive.children@.len() - c,
        {
            proof {
                lemma_child_fits(
                    *directive,
                    directive.children@.len() as int,
                    c as int,
                    (depth + 1) as nat,
                );
            }
            let r = serialize_directive(&directive.children[c], output, depth + 1);
            c = c + 1;
            assert(output@ =~= open + rendered_children(*directive, c as int, (depth + 1) as nat));
        }
        let mut level: usize = 0;
        let ghost before = output@;
        while level < depth
            invariant
                level <= depth,
                output@ == before + indentation(level as nat),
            decreases depth - level,
        {
            push_char(output, ' ');
            push_char(output, ' ');
            level = level + 1;
            assert(output@ =~= before + indentation(level as nat));
        }
        push_char(output, '}');
        push_char(output, '\n');
    }
    assert(output@ =~= start + rendered_directive(*directive, depth as nat));
    Ok(())
}

/// Whether `c` has the Unicode `Uppercase` property.
pub uninterp spec fn uppercase_char(c: char) -> bool;

/// The first character of the lower-case mapping of `c`.
pub uninterp spec fn lower_of(c: char) -> char;

/// The first character of the upper-case mapping of `c`.
pub uninterp spec fn upper_of(c: char) -> char;

/// `c` shifted by `delta` code points, when that is a character.
pub open spec fn shifted(c: char, delta: int) -> char {
    ((c as int + delta) as u32) as char
}

/// Whether `c` is upper case: within ASCII, exactly `A`..=`Z`.
pub open spec fn is_upper_char(c: char) -> bool {
    if (c as u32) < 0x80 {
        'A' <= c <= 'Z'
    } else {
        uppercase_char(c)
    }
}

/// The first character of the lower-case mapping of `c`: within ASCII, `A`..=`Z`
/// become `a`..=`z` and the rest stay.
pub open spec fn lowered_char(c: char) -> char {
    if (c as u32) < 0x80 {
        if 'A' <= c <= 'Z' {
            shifted(c, 32)
        } else {
            c
        }
    } else {
        lower_of(c)
    }
}

/// The first character of the upper-case mapping of `c`: within ASCII, `a`..=`z`
/// become `A`..=`Z` and the rest stay.
pub open spec fn raised_char(c: char) -> char {
    if (c as u32) < 0x80 {
        if 'a' <= c <= 'z' {
            shifted(c, -32)
        } else {
            c
        }
    } else {
        upper_of(c)
    }
}

/// Relies on char::is_uppercase: the `Uppercase` property, which within ASCII holds
/// of `A`..=`Z` alone.
#[verifier::external_body]
fn is_uppercase(c: char) -> (r: bool)
    ensures
        r == uppercase_char(c),
        (c as u32) < 0x80 ==> (r <==> ('A' <= c <= 'Z')),
{
    c.is_uppercase()
}

/// Relies on char::to_lowercase, whose mapping is never empty and within ASCII sends
/// `A`..=`Z` to `a`..=`z` and keeps every other character; the first character is kept.
#[verifier::external_body]
fn first_lowercase(c: char) -> (r: char)
    ensures
        r == lower_of(c),
        (c as u32) < 0x80 ==> r == (if 'A' <= c <= 'Z' {
            shifted(c, 32)
        } else {
            c
        }),
{
    c.to_lowercase().next().unwrap()
}

/// Relies on char::to_uppercase, whose mapping is never empty and within ASCII sends
/// `a`..=`z` to `A`..=`Z` and keeps every other character; the first character is kept.
#[verifier::external_body]
fn first_uppercase(c: char) -> (r: char)
    ensures
        r == upper_of(c),
        (c as u32) < 0x80 ==> r == (if 'a' <= c <= 'z' {
            shifted(c, -32)
        } else {
            c
        }),
{
    c.to_uppercase().next().unwrap()
}

/// Kebab case of `s` from index `i`: each upper-case character is lowered, with a
/// hyphen before it when the character before it was not upper case.
pub open spec fn kebab_from(s: Seq<char>, i: int, after_lower: bool) -> Seq<char>
    decreases s.len() - i,
{
    if i < 0 || i >= s.len() {
        seq![]
    } else if is_upper_char(s[i]) {
        (if after_lower {
            seq!['-']
        } else {
            seq![]
        }) + seq![lowered_char(s[i])] + kebab_from(s, i + 1, false)
    } else {
        seq![s[i]] + kebab_from(s, i + 1, true)
    }
}

/// Camel case of kebab-case `s` from index `i`: hyphens are dropped and the
/// character after one is raised.
pub open spec fn camel_from(s: Seq<char>, i: int, after_hyphen: bool) -> Seq<char>
    decreases s.len() - i,
{
    if i < 0 || i >= s.len() {
        seq![]
    } else if s[i] == '-' {
        camel_from(s, i + 1, true)
    } else if after_hyphen {
        seq![raised_char(s[i])] + camel_from(s, i + 1, false)
    } else {
        seq![s[i]] + camel_from(s, i + 1, false)
    }
}

/// Converts a name to kebab case (`serverName` gives `server-name`).
pub fn to_kebab_case(s: &str) -> (r: String)
    ensures
        r@ == kebab_from(s@, 0, false),
{
    let chars = chars_of(s);
    let ghost t = chars@;
    let mut result = String::new();
    let mut prev_is_lowercase = false;
    let mut i: usize = 0;
    while i < chars.len()
        invariant
            t == chars@,
            t == s@,
            i <= t.len(),
            result@ + kebab_from(t, i as int, prev_is_lowercase) == kebab_from(t, 0, false),
        decreases t.len() - i,
    {
        let c = chars[i];
        let ghost before = result@;
        if is_uppercase(c) {
            if prev_is_lowercase {
                push_char(&mut result, '-');
            }
            push_char(&mut result, first_lowercase(c));
            prev_is_lowercase = false;
        } else {
            push_char(&mut result, c);
            prev_is_lowercase = true;
        }
        i = i + 1;
        assert(result@ + kebab_from(t, i as int, prev_is_lowercase) =~= kebab_from(t, 0, false));
    }
    assert(result@ =~= result@ + kebab_from(t, i as int, prev_is_lowercase));
    result
}

/// Converts a kebab-case name back (`server-name` gives `serverName`).
pub fn from_kebab_case(s: &str) -> (r: String)
    ensures
        r@ == camel_from(s@, 0, false),
{
    let chars = chars_of(s);
    let ghost t = chars@;
    let mut result = String::new();
    let mut capitalize_next = false;
    let mut i: usize = 0;
    while i < chars.len()
        invariant
            t == chars@,
            t == s@,
            i <= t.len(),
            result@ + camel_from(t, i as int, capitalize_next) == camel_from(t, 0, false),
        decreases t.len() - i,
    {
        let c = chars[i];
        if c == '-' {
            capitalize_next = true;
        } else if capitalize_next {
            push_char(&mut result, first_uppercase(c));
            capitalize_next = false;
        } else {
            push_char(&mut result, c);
        }
        i = i + 1;
        assert(result@ + camel_from(t, i as int, capitalize_next) =~= camel_from(t, 0, false));
    }
    assert(result@ =~= result@ + camel_from(t, i as int, capitalize_next));
    result
}

/// Why a text is not an `i32`.
#[derive(Debug, Clone, Copy, PartialEq, Eq, Structural)]
pub enum IntFault {
    /// The text is empty.
    Empty,
    /// A character is not a digit, or no digit follows the sign.
    InvalidDigit,
    /// The number is above `i32::MAX`.
    PosOverflow,
    /// The number is below `i32::MIN`.
    NegOverflow,
}

pub open spec fn int_fault_message(f: IntFault) -> Seq<char> {
    match f {
        IntFault::Empty => "cannot parse integer from empty string"@,
        IntFault::InvalidDigit => "invalid digit found in string"@,
        IntFault::PosOverflow => "number too large to fit in target type"@,
        IntFault::NegOverflow => "number too small to fit in target type"@,
    }
}

pub open spec fn is_digit(c: char) -> bool {
    '0' <= c <= '9'
}

/// The digits of `s` from index `i` on, read left to right onto `acc`, away from
/// zero in the direction of the sign; the first fault met ends the reading.
pub open spec fn read_digits(s: Seq<char>, i: int, acc: int, negative: bool) -> Result<
    int,
    IntFault,
>
    decreases s.len() - i,
{
    if i < 0 || i >= s.len() {
        Ok(acc)
    } else if !is_digit(s[i]) {
        Err(IntFault::InvalidDigit)
    } else {
        let d = s[i] as int - '0' as int;
        let next = if negative {
            acc * 10 - d
        } else {
            acc * 10 + d
        };
        if next > i32::MAX {
            Err(IntFault::PosOverflow)
        } else if next < i32::MIN {
            Err(IntFault::NegOverflow)
        } else {
            read_digits(s, i + 1, next, negative)
        }
    }
}

/// The `i32` that a text writes in decimal, with an optional sign.
pub open spec fn i32_of_text(s: Seq<char>) -> Result<i32, IntFault> {
    if s.len() == 0 {
        Err(IntFault::Empty)
    } else {
        let signed = s[0] == '+' || s[0] == '-';
        if signed && s.len() == 1 {
            Err(IntFault::InvalidDigit)
        } else {
            match read_digits(
                s,
                if signed {
                    1
                } else {
                    0
                },
                0,
                s[0] == '-',
            ) {
                Ok(v) => Ok(v as i32),
                Err(f) => Err(f),
            }
        }
    }
}

/// Reads a decimal `i32`, as `str::parse::<i32>` does.
pub fn parse_i32(value: &str) -> (r: Result<i32, IntFault>)
    ensures
        r == i32_of_text(value@),
{
    let chars = chars_of(value);
    let ghost s = chars@;
    if chars.len() == 0 {
        return Err(IntFault::Empty);
    }
    let signed = chars[0] == '+' || chars[0] == '-';
    if signed && chars.len() == 1 {
        return Err(IntFault::InvalidDigit);
    }
    let negative = chars[0] == '-';
    let mut i: usize = if signed {
        1
    } else {
        0
    };
    let mut acc: i64 = 0;
    let ghost first = i as int;
    while i < chars.len()
        invariant
            s == chars@,
            s == value@,
            s.len() > 0,
            negative == (s[0] == '-'),
            signed == (s[0] == '+' || s[0] == '-'),
            first == (if signed {
                1int
            } else {
                0int
            }),
            i <= s.len(),
            i32::MIN <= acc <= i32::MAX,
            read_digits(s, i as int, acc as int, negative) == read_digits(s, first, 0, negative),
        decreases s.len() - i,
    {
        let c = chars[i];
        if !('0' <= c && c <= '9') {
            return Err(IntFault::InvalidDigit);
        }
        let d = (c as u32 - '0' as u32) as i64;
        let next = if negative {
            acc * 10 - d
        } else {
            acc * 10 + d
        };
        if next > 2147483647 {
            return Err(IntFault::PosOverflow);
        }
        if next < -2147483648 {
            return Err(IntFault::NegOverflow);
        }
        acc = next;
        i = i + 1;
    }
    Ok(acc as i32)
}

/// The word that `lowered` is, as a truth value: `true`, `yes`, `on` and `1`, or
/// `false`, `no`, `off` and `0`.
pub open spec fn truth_of_word(w: Seq<char>) -> Option<bool> {
    if w == "true"@ || w == "yes"@ || w == "on"@ || w == "1"@ {
        Some(true)
    } else if w == "false"@ || w == "no"@ || w == "off"@ || w == "0"@ {
        Some(false)
    } else {
        None
    }
}

fn same_text(a: &str, b: &str) -> (r: bool)
    ensures
        r == (a@ == b@),
{
    let x = chars_of(a);
    let y = chars_of(b);
    if x.len() != y.len() {
        return false;
    }
    let mut i: usize = 0;
    while i < x.len()
        invariant
            x@ == a@,
            y@ == b@,
            x.len() == y.len(),
            i <= x.len(),
            forall|k: int| 0 <= k < i ==> x@[k] == y@[k],
        decreases x.len() - i,
    {
        if x[i] != y[i] {
            return false;
        }
        i = i + 1;
    }
    assert(x@ =~= y@);
    true
}

/// Reads a truth value from a lower-case word.
pub fn truth_of(lowered: &str) -> (r: Option<bool>)
    ensures
        r == truth_of_word(lowered@),
{
    if same_text(lowered, "true") || same_text(lowered, "yes") || same_text(lowered, "on")
        || same_text(lowered, "1") {
        Some(true)
    } else if same_text(lowered, "false") || same_text(lowered, "no") || same_text(lowered, "off")
        || same_text(lowered, "0") {
        Some(false)
    } else {
        None
    }
}

/// The lower-case mapping of a text.
pub uninterp spec fn lowercase_text(s: Seq<char>) -> Seq<char>;

/// The lower-case mapping of a text: an ASCII text has `A`..=`Z` lowered and every
/// other character kept.
pub open spec fn lowered_text(s: Seq<char>) -> Seq<char> {
    if forall|k: int| 0 <= k < s.len() ==> (#[trigger] s[k] as u32) < 0x80 {
        s.map_values(|c: char| lowered_char(c))
    } else {
        lowercase_text(s)
    }
}

/// Relies on str::to_lowercase: the lower-case mapping depends on the text alone, and
/// on ASCII it lowers `A`..=`Z` and keeps the rest.
#[verifier::external_body]
fn lowercase(s: &str) -> (r: String)
    ensures
        r@ == lowercase_text(s@),
        (forall|k: int| 0 <= k < s@.len() ==> (#[trigger] s@[k] as u32) < 0x80) ==> r@
            == s@.map_values(|c: char| lowered_char(c)),
{
    s.to_lowercase()
}

/// Reads a truth value as the mapping layer does: the lower-case text must be one of
/// the words of `truth_of_word`.
pub fn read_bool(value: &str) -> (r: Option<bool>)
    ensures
        r == truth_of_word(lowered_text(value@)),
{
    let lowered = lowercase(value);
    truth_of(lowered.as_str())
}

/// `n` in decimal, with a minus sign when negative.
pub open spec fn i32_text(n: i32) -> Seq<char> {
    if n < 0 {
        seq!['-'] + crate::text::dec_digits((-(n as int)) as nat)
    } else {
        crate::text::dec_digits(n as nat)
    }
}

/// Writes `n` in decimal.
pub fn i32_to_text(n: i32) -> (r: String)
    ensures
        r@ == i32_text(n),
{
    let mut r = String::new();
    if n < 0 {
        push_char(&mut r, '-');
        let m: i64 = -(n as i64);
        crate::text::push_dec(&mut r, m as u64);
    } else {
        crate::text::push_dec(&mut r, n as u64);
    }
    r
}

/// Whether every character of `s` is white space.
pub open spec fn all_white_space(s: Seq<char>) -> bool {
    forall|k: int| 0 <= k < s.len() ==> crate::chars::is_white_space_char(#[trigger] s[k])
}

/// Returns whether `value` holds nothing but white space.
pub fn is_blank_text(value: &str) -> (r: bool)
    ensures
        r == all_white_space(value@),
{
    let chars = chars_of(value);
    let mut i: usize = 0;
    while i < chars.len()
        invariant
            chars@ == value@,
            i <= chars.len(),
            forall|k: int| 0 <= k < i ==> crate::chars::is_white_space_char(#[trigger] chars@[k]),
        decreases chars.len() - i,
    {
        if !crate::chars::is_white_space(chars[i]) {
            return false;
        }
        i = i + 1;
    }
    true
}

/// Writes a message `prefix` + `value` + `suffix`.
fn message3(prefix: &str, value: &str, suffix: &str) -> (r: String)
    ensures
        r@ == prefix@ + value@ + suffix@,
{
    let mut r = String::new();
    push_str(&mut r, prefix);
    push_str(&mut r, value);
    push_str(&mut r, suffix);
    r
}

/// Value converter trait for converting between config strings and plain values.
pub trait ValueConverter: Sized {
    /// Convert from a string to this type.
    fn from_conf_value(value: &str) -> Result<Self, MapperError>;

    /// Convert this type to a string representation.
    fn to_conf_value(&self) -> Result<String, MapperError>;

    /// Determine if this type requires quotes when serialized.
    fn requires_quotes(&self) -> bool {
        true
    }
}

impl ValueConverter for String {
    fn from_conf_value(value: &str) -> Result<Self, MapperError> {
        Ok(value.to_owned())
    }

    fn to_conf_value(&self) -> Result<String, MapperError> {
        let mut r = String::new();
        push_unquoted_text(&mut r, self);
        Ok(r)
    }

    fn requires_quotes(&self) -> bool {
        true
    }
}

impl ValueConverter for bool {
    fn from_conf_value(value: &str) -> Result<Self, MapperError> {
        match read_bool(value) {
            Some(b) => Ok(b),
            None => Err(MapperError::ConversionError(message3("Cannot convert '", value, "' to bool"))),
        }
    }

    fn to_conf_value(&self) -> Result<String, MapperError> {
        if *self {
            Ok("true".to_owned())
        } else {
            Ok("false".to_owned())
        }
    }

    fn requires_quotes(&self) -> bool {
        false
    }
}

impl ValueConverter for i32 {
    fn from_conf_value(value: &str) -> Result<Self, MapperError> {
        match parse_i32(value) {
            Ok(n) => Ok(n),
            Err(f) => {
                let mut m = message3("Cannot convert '", value, "' to i32: ");
                match f {
                    IntFault::Empty => push_str(&mut m, "cannot parse integer from empty string"),
                    IntFault::InvalidDigit => push_str(&mut m, "invalid digit found in string"),
                    IntFault::PosOverflow => push_str(&mut m, "number too large to fit in target type"),
                    IntFault::NegOverflow => push_str(&mut m, "number too small to fit in target type"),
                }
                Err(MapperError::ConversionError(m))
            },
        }
    }

    fn to_conf_value(&self) -> Result<String, MapperError> {
        Ok(i32_to_text(*self))
    }

    fn requires_quotes(&self) -> bool {
        false
    }
}

impl<T: ValueConverter> ValueConverter for Option<T> {
    fn from_conf_value(value: &str) -> Result<Self, MapperError> {
        if is_blank_text(value) {
            Ok(None)
        } else {
            match T::from_conf_value(value) {
                Ok(v) => Ok(Some(v)),
                Err(e) => Err(e),
            }
        }
    }

    fn to_conf_value(&self) -> Result<String, MapperError> {
        match self {
            Some(v) => v.to_conf_value(),
            None => Ok(String::new()),
        }
    }

    fn requires_quotes(&self) -> bool {
        match self {
            Some(v) => v.requires_quotes(),
            None => false,
        }
    }
}

/// `s` without the white space that begins it.
pub open spec fn trim_start(s: Seq<char>) -> Seq<char>
    decreases s.len(),
{
    if s.len() > 0 && crate::chars::is_white_space_char(s[0]) {
        trim_start(s.drop_first())
    } else {
        s
    }
}

/// `s` without the white space that ends it.
pub open spec fn trim_end(s: Seq<char>) -> Seq<char>
    decreases s.len(),
{
    if s.len() > 0 && crate::chars::is_white_space_char(s.last()) {
        trim_end(s.drop_last())
    } else {
        s
    }
}

/// `s` without white space at either end.
pub open spec fn trimmed(s: Seq<char>) -> Seq<char> {
    trim_end(trim_start(s))
}

/// The piece `p` of a list, trimmed, unless nothing is left of it.
pub open spec fn kept_piece(p: Seq<char>) -> Seq<Seq<char>> {
    if trimmed(p).len() == 0 {
        seq![]
    } else {
        seq![trimmed(p)]
    }
}

/// The items of a comma-separated list from index `i`, the current piece being `cur`:
/// each piece trimmed, the empty ones left out.
pub open spec fn list_items_from(s: Seq<char>, i: int, cur: Seq<char>) -> Seq<Seq<char>>
    decreases s.len() - i,
{
    if i < 0 || i >= s.len() {
        kept_piece(cur)
    } else if s[i] == ',' {
        kept_piece(cur) + list_items_from(s, i + 1, seq![])
    } else {
        list_items_from(s, i + 1, cur.push(s[i]))
    }
}

/// The text of the characters `from..to`, trimmed.
fn trimmed_string(chars: &Vec<char>, from: usize, to: usize) -> (r: String)
    requires
        from <= to <= chars@.len(),
    ensures
        r@ == trimmed(chars@.subrange(from as int, to as int)),
{
    let mut a = from;
    while a < to && crate::chars::is_white_space(chars[a])
        invariant
            from <= a <= to <= chars@.len(),
            trim_start(chars@.subrange(a as int, to as int)) == trim_start(
                chars@.subrange(from as int, to as int),
            ),
        decreases to - a,
    {
        assert(chars@.subrange(a + 1, to as int) =~= chars@.subrange(a as int, to as int).drop_first());
        a = a + 1;
    }
    let mut b = to;
    while b > a && crate::chars::is_white_space(chars[b - 1])
        invariant
            from <= a <= b <= to <= chars@.len(),
            trim_end(chars@.subrange(a as int, b as int)) == trimmed(
                chars@.subrange(from as int, to as int),
            ),
        decreases b,
    {
        assert(chars@.subrange(a as int, b - 1) =~= chars@.subrange(a as int, b as int).drop_last());
        b = b - 1;
    }
    crate::chars::string_of(chars, a, b)
}

/// The items of a comma-separated list: each piece trimmed, the empty ones left out.
pub fn list_items(value: &str) -> (r: Vec<String>)
    ensures
        r@.len() == list_items_from(value@, 0, seq![]).len(),
        forall|k: int| 0 <= k < r@.len() ==> #[trigger] r@[k]@ == list_items_from(value@, 0, seq![])[k],
{
    let chars = chars_of(value);
    let ghost s = chars@;
    let ghost all = list_items_from(s, 0, seq![]);
    let mut items: Vec<String> = Vec::new();
    let ghost mut views: Seq<Seq<char>> = seq![];
    let mut start: usize = 0;
    let mut i: usize = 0;
    assert(s.subrange(0, 0) =~= Seq::<char>::empty());
    assert(views + list_items_from(s, 0, s.subrange(0, 0)) =~= all);
    while i < chars.len()
        invariant
            s == chars@,
            s == value@,
            start <= i <= s.len(),
            all == list_items_from(s, 0, seq![]),
            views + list_items_from(s, i as int, s.subrange(start as int, i as int)) == all,
            items@.len() == views.len(),
            forall|k: int| 0 <= k < views.len() ==> #[trigger] items@[k]@ == views[k],
        decreases s.len() - i,
    {
        if chars[i] == ',' {
            let piece = trimmed_string(&chars, start, i);
            proof {
                if piece@.len() > 0 {
                    views = views.push(piece@);
                }
                assert(s.subrange(i + 1, i + 1) =~= Seq::<char>::empty());
            }
            if !piece.as_str().is_empty() {
                items.push(piece);
            }
            assert(views + list_items_from(s, i + 1, s.subrange(i + 1, i + 1)) =~= all);
            start = i + 1;
        } else {
            assert(s.subrange(start as int, i + 1) =~= s.subrange(start as int, i as int).push(s[i as int]));
        }
        i = i + 1;
    }
    let piece = trimmed_string(&chars, start, i);
    proof {
        if piece@.len() > 0 {
            views = views.push(piece@);
        }
        assert(views =~= all);
    }
    if !piece.as_str().is_empty() {
        items.push(piece);
    }
    items
}

impl<T: ValueConverter> ValueConverter for Vec<T> {
    fn from_conf_value(value: &str) -> Result<Self, MapperError> {
        let items = list_items(value);
        let mut values: Vec<T> = Vec::new();
        let mut k: usize = 0;
        while k < items.len()
            decreases items.len() - k,
        {
            match T::from_conf_value(items[k].as_str()) {
                Ok(v) => values.push(v),
                Err(e) => {
                    return Err(e);
                },
            }
            k = k + 1;
        }
        Ok(values)
    }

    fn to_conf_value(&self) -> Result<String, MapperError> {
        let mut out = String::new();
        let mut k: usize = 0;
        while k < self.len()
            decreases self.len() - k,
        {
            if k > 0 {
                push_str(&mut out, ", ");
            }
            match self[k].to_conf_value() {
                Ok(v) => push_str(&mut out, v.as_str()),
                Err(e) => {
                    return Err(e);
                },
            }
            k = k + 1;
        }
        Ok(out)
    }

    fn requires_quotes(&self) -> bool {
        true
    }
}

} // verus!
