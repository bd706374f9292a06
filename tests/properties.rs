use confetti_rs::lexer::{Lexer, TokenType};
use confetti_rs::mapper::{from_kebab_case, parse_i32, serialize_directive, to_kebab_case, IntFault};
use confetti_rs::parser::Parser;
use confetti_rs::{
    extract_option_type, is_option_type, parse, process_escapes, strip_quotes, ConfError,
    ConfOptions, ConfUnit, MapperError, MapperOptions, ValueConverter,
};

fn lexer_error(r: Result<ConfUnit, ConfError>) -> (usize, String) {
    match r {
        Err(ConfError::LexerError { position, message }) => (position, message),
        other => panic!("expected a lexer error, got {:?}", other),
    }
}

fn parser_error(r: Result<ConfUnit, ConfError>) -> (usize, String) {
    match r {
        Err(ConfError::ParserError { position, message }) => (position, message),
        other => panic!("expected a parser error, got {:?}", other),
    }
}

#[test]
fn depth_limit_two_rejects_three_levels() {
    let input = "a { b { c { } } }";
    let two = ConfOptions { max_depth: 2, ..ConfOptions::default() };
    let (position, message) = parser_error(parse(input, two));
    assert_eq!(position, 8);
    assert_eq!(message, "Maximum directive depth of 2 exceeded");
    let three = ConfOptions { max_depth: 3, ..ConfOptions::default() };
    let unit = parse(input, three).unwrap();
    assert_eq!(unit.directives[0].children[0].children[0].name.value, "c");
}

#[test]
fn nul_rejected_in_argument_comment_and_quotes() {
    let (position, message) = lexer_error(parse("a\u{0}b;", ConfOptions::default()));
    assert_eq!(position, 1);
    assert_eq!(message, "Forbidden character in argument: U+0000");
    let (position, message) = lexer_error(parse("# x\u{0}\na;", ConfOptions::default()));
    assert_eq!(position, 3);
    assert_eq!(message, "Forbidden character in comment: U+0000");
    let (position, message) = lexer_error(parse("a \"x\u{0}\";", ConfOptions::default()));
    assert_eq!(position, 4);
    assert_eq!(message, "Forbidden character in quoted argument: U+0000");
    let (position, message) = lexer_error(parse("\u{0}", ConfOptions::default()));
    assert_eq!(position, 0);
    assert_eq!(message, "Forbidden character: U+0000");
}

#[test]
fn bidi_override_rejected_only_when_forbidden() {
    let input = "a b\u{202E}c;";
    let (position, message) = lexer_error(parse(input, ConfOptions::default()));
    assert_eq!(position, 3);
    assert_eq!(message, "Forbidden character in argument: U+202E");
    let allowed = ConfOptions { forbid_bidi_characters: false, ..ConfOptions::default() };
    let unit = parse(input, allowed).unwrap();
    assert_eq!(unit.directives[0].arguments[0].value, "b\u{202E}c");
}

#[test]
fn crlf_gives_two_siblings() {
    let unit = parse("a;\r\nb;\r\n", ConfOptions::default()).unwrap();
    assert_eq!(unit.directives.len(), 2);
    assert_eq!(unit.directives[0].name.value, "a");
    assert_eq!(unit.directives[1].name.value, "b");
}

#[test]
fn escaped_letter_processes_to_the_letter() {
    let unit = parse("d a\\q", ConfOptions::default()).unwrap();
    let arg = &unit.directives[0].arguments[0];
    assert_eq!(arg.value, "a\\q");
    assert_eq!(process_escapes(&arg.value), "aq");
}

#[test]
fn triple_quote_line_break_is_folded() {
    let unit = parse("d \"\"\"line1\\\nline2\"\"\"", ConfOptions::default()).unwrap();
    let args = &unit.directives[0].arguments;
    assert_eq!(args.len(), 1);
    assert!(args[0].is_triple_quoted);
    assert_eq!(args[0].value, "\"\"\"line1\\\nline2\"\"\"");
    assert_eq!(args[0].span, 2..20);
}

#[test]
fn terminators_are_equivalent() {
    for input in ["a 1;", "a 1\n", "a 1"] {
        let unit = parse(input, ConfOptions::default()).unwrap();
        assert_eq!(unit.directives.len(), 1);
        assert_eq!(unit.directives[0].name.value, "a");
        assert_eq!(unit.directives[0].arguments.len(), 1);
        assert_eq!(unit.directives[0].arguments[0].value, "1");
        assert!(unit.directives[0].children.is_empty());
    }
}

#[test]
fn expression_flag_covers_only_the_name() {
    let options = ConfOptions { allow_expression_arguments: true, ..ConfOptions::default() };
    let mut lexer = Lexer::new("foo(", options);
    let token = lexer.next_token().unwrap();
    assert_eq!(token.token_type, TokenType::Argument);
    assert!(token.is_expression);
    assert_eq!(token.span, 0..3);
    let mut plain = Lexer::new("foo(", ConfOptions::default());
    assert!(!plain.next_token().unwrap().is_expression);
}

#[test]
fn rendered_tree_parses_back() {
    let input = "server \"a b\" 80 {\n  listen 443;\n  # note\n  inner { x; }\n}\nport 8080;";
    let unit = parse(input, ConfOptions::default()).unwrap();
    let mut text = String::new();
    for d in &unit.directives {
        serialize_directive(d, &mut text, 0).unwrap();
    }
    assert_eq!(
        text,
        "server \"a b\" 80 {\n  listen 443;\n  inner {\n    x;\n  }\n}\nport 8080;\n"
    );
    let again = parse(&text, ConfOptions::default()).unwrap();
    assert_eq!(again.directives.len(), 2);
    let s = &again.directives[0];
    assert_eq!(s.name.value, "server");
    assert_eq!(s.arguments[0].value, "\"a b\"");
    assert!(s.arguments[0].is_quoted);
    assert_eq!(s.arguments[1].value, "80");
    assert_eq!(s.children.len(), 2);
    assert_eq!(s.children[1].children[0].name.value, "x");
    assert_eq!(again.directives[1].arguments[0].value, "8080");
}

#[test]
fn byte_positions_count_utf8_bytes() {
    let unit = parse("é ü;\nñ", ConfOptions::default()).unwrap();
    assert_eq!(unit.directives[0].name.span, 0..2);
    assert_eq!(unit.directives[0].arguments[0].span, 3..5);
    assert_eq!(unit.directives[1].name.span, 7..9);
    let (position, _) = parser_error(parse("é }", ConfOptions::default()));
    assert_eq!(position, 3);
}

#[test]
fn lexical_faults_have_messages_and_positions() {
    let c = ConfOptions { allow_c_style_comments: true, ..ConfOptions::default() };
    let (p, m) = lexer_error(parse("a /* open", c));
    assert_eq!((p, m.as_str()), (2, "Unterminated multi-line comment"));
    let (p, m) = lexer_error(parse("a b\\", ConfOptions::default()));
    assert_eq!((p, m.as_str()), (4, "Unterminated escape sequence"));
    let (p, m) = lexer_error(parse("a \"x\ny\"", ConfOptions::default()));
    assert_eq!((p, m.as_str()), (4, "Newline in quoted string"));
    let (p, m) = lexer_error(parse("a \"xy", ConfOptions::default()));
    assert_eq!((p, m.as_str()), (2, "Unterminated quoted string"));
    let (p, m) = lexer_error(parse("a \"\"\"xy\"\"", ConfOptions::default()));
    assert_eq!((p, m.as_str()), (2, "Unterminated triple-quoted string"));
    let mut lexer = Lexer::new(";", ConfOptions::default());
    match lexer.scan_argument() {
        Err(ConfError::LexerError { position, message }) => {
            assert_eq!((position, message.as_str()), (0, "Expected argument"));
        }
        other => panic!("unexpected {:?}", other),
    }
    let mut lexer = Lexer::new("x", ConfOptions::default());
    match lexer.scan_comment() {
        Err(ConfError::LexerError { position, message }) => {
            assert_eq!((position, message.as_str()), (0, "Expected comment"));
        }
        other => panic!("unexpected {:?}", other),
    }
}

#[test]
fn syntax_faults_have_messages_and_positions() {
    let (p, m) = parser_error(parse("a;\n}", ConfOptions::default()));
    assert_eq!((p, m.as_str()), (3, "Expected directive name"));
    let (p, m) = parser_error(parse("a {\n b;", ConfOptions::default()));
    assert_eq!((p, m.as_str()), (7, "Expected '}'"));
    let (p, m) = parser_error(parse("a b }", ConfOptions::default()));
    assert_eq!((p, m.as_str()), (4, "Expected ';', '{', or newline"));
    let (p, m) = parser_error(parse("a", ConfOptions { max_depth: 0, ..ConfOptions::default() }));
    assert_eq!((p, m.as_str()), (0, "Maximum directive depth of 0 exceeded"));
}

#[test]
fn quote_inside_triple_quotes_is_content() {
    let unit = parse("a \"\"\"x \" y \"\" z\"\"\";", ConfOptions::default()).unwrap();
    assert_eq!(unit.directives[0].arguments[0].value, "\"\"\"x \" y \"\" z\"\"\"");
}

#[test]
fn line_terminators_of_every_kind_end_directives() {
    let unit = parse("a\u{0B}b\u{0C}c\u{85}d\u{2028}e\u{2029}f\rg", ConfOptions::default()).unwrap();
    assert_eq!(unit.directives.len(), 7);
}

#[test]
fn continuation_joins_a_bare_argument() {
    let unit = parse("a x\\\n   y;", ConfOptions::default()).unwrap();
    assert_eq!(unit.directives[0].arguments.len(), 1);
    assert_eq!(unit.directives[0].arguments[0].value, "x\\\n   y");
}

#[test]
fn comments_keep_document_order_and_kind() {
    let c = ConfOptions { allow_c_style_comments: true, ..ConfOptions::default() };
    let unit = parse("# one\na { /* two */ b; // three\n}\n", c).unwrap();
    assert_eq!(unit.comments.len(), 3);
    assert_eq!(unit.comments[0].content, "# one");
    assert_eq!(unit.comments[1].content, "/* two */");
    assert!(unit.comments[1].is_multi_line);
    assert!(!unit.comments[2].is_multi_line);
    assert_eq!(unit.comments[2].span, 23..31);
    let hash_only = parse("//x", ConfOptions::default()).unwrap();
    assert_eq!(hash_only.comments.len(), 0);
    assert_eq!(hash_only.directives[0].name.value, "//x");
}

#[test]
fn disabled_triple_quotes_read_an_empty_string() {
    let off = ConfOptions { allow_triple_quotes: false, ..ConfOptions::default() };
    let unit = parse("a \"\"\"x\"\"\"", off).unwrap();
    let args = &unit.directives[0].arguments;
    assert_eq!(args.len(), 3);
    assert_eq!(args[0].value, "\"\"");
    assert_eq!(args[1].value, "\"x\"");
}

#[test]
fn disabled_continuations_keep_the_break_escaped() {
    let off = ConfOptions { allow_line_continuations: false, ..ConfOptions::default() };
    let unit = parse("a x\\\ny", off).unwrap();
    assert_eq!(unit.directives.len(), 1);
    assert_eq!(unit.directives[0].arguments[0].value, "x\\\ny");
}

#[test]
fn parser_reports_first_token_error() {
    match Parser::new("\u{1}", ConfOptions::default()) {
        Err(ConfError::LexerError { position, message }) => {
            assert_eq!(position, 0);
            assert_eq!(message, "Forbidden character: U+0001");
        }
        _ => panic!("expected a lexer error"),
    }
}

#[test]
fn quotes_and_option_names() {
    assert_eq!(strip_quotes("\"abc\""), "abc");
    assert_eq!(strip_quotes("\""), "\"");
    assert_eq!(strip_quotes("abc"), "abc");
    assert!(is_option_type("core::option::Option<i32>"));
    assert!(is_option_type("std::option::Option<String>"));
    assert!(!is_option_type("Option<i32>"));
    assert_eq!(extract_option_type("std::option::Option<Vec<u8>>"), Some("Vec<u8>"));
    assert_eq!(extract_option_type("core::option::Option<"), None);
    assert_eq!(extract_option_type("i32"), None);
}

#[test]
fn escapes_edge_cases() {
    assert_eq!(process_escapes(""), "");
    assert_eq!(process_escapes("\\"), "\\");
    assert_eq!(process_escapes("\\\\n"), "\\n");
    assert_eq!(process_escapes("a\\\nb"), "a\\\nb");
}

#[test]
fn kebab_case_round_trip() {
    assert_eq!(to_kebab_case("serverName"), "server-name");
    assert_eq!(to_kebab_case("HTTPPort"), "httpport");
    assert_eq!(to_kebab_case("maxConnCount"), "max-conn-count");
    assert_eq!(from_kebab_case("server-name"), "serverName");
    assert_eq!(from_kebab_case("max-conn-count"), "maxConnCount");
}

#[test]
fn integers_read_as_std_does() {
    assert_eq!(parse_i32("3000"), Ok(3000));
    assert_eq!(parse_i32("-2147483648"), Ok(i32::MIN));
    assert_eq!(parse_i32("+7"), Ok(7));
    assert_eq!(parse_i32(""), Err(IntFault::Empty));
    assert_eq!(parse_i32("-"), Err(IntFault::InvalidDigit));
    assert_eq!(parse_i32("12a"), Err(IntFault::InvalidDigit));
    assert_eq!(parse_i32("2147483648"), Err(IntFault::PosOverflow));
    assert_eq!(parse_i32("-2147483649"), Err(IntFault::NegOverflow));
    for text in ["0", "-17", "2147483647", "99999999999x", " 1"] {
        let ours = parse_i32(text).ok();
        assert_eq!(ours, text.parse::<i32>().ok());
    }
}

#[test]
fn value_converters() {
    assert_eq!(i32::from_conf_value("42").unwrap(), 42);
    assert_eq!(42i32.to_conf_value().unwrap(), "42");
    assert_eq!((-5i32).to_conf_value().unwrap(), "-5");
    assert!(!7i32.requires_quotes());
    match i32::from_conf_value("x") {
        Err(MapperError::ConversionError(m)) => {
            assert_eq!(m, "Cannot convert 'x' to i32: invalid digit found in string");
        }
        _ => panic!("expected a conversion error"),
    }
    assert!(bool::from_conf_value("TRUE").unwrap());
    assert!(bool::from_conf_value("Yes").unwrap());
    assert!(!bool::from_conf_value("off").unwrap());
    assert!(bool::from_conf_value("maybe").is_err());
    assert_eq!(true.to_conf_value().unwrap(), "true");
    assert!(!false.requires_quotes());
    assert_eq!(String::from_conf_value("abc").unwrap(), "abc");
    assert!(String::from("x").requires_quotes());
    assert_eq!(Option::<i32>::from_conf_value("  ").unwrap(), None);
    assert_eq!(Option::<i32>::from_conf_value("5").unwrap(), Some(5));
    assert_eq!(None::<i32>.to_conf_value().unwrap(), "");
    assert!(!None::<String>.requires_quotes());
    assert!(Some(String::from("a")).requires_quotes());
}

#[test]
fn mapper_options_default() {
    let o = MapperOptions::default();
    assert_eq!(o.indent, "  ");
    assert!(!o.use_kebab_case);
    assert_eq!(o.parser_options.max_depth, 100);
}

#[test]
fn conf_options_default() {
    let o = ConfOptions::default();
    assert!(!o.allow_c_style_comments);
    assert!(!o.allow_expression_arguments);
    assert_eq!(o.max_depth, 100);
    assert!(!o.require_semicolons);
    assert!(o.allow_triple_quotes);
    assert!(o.allow_line_continuations);
}

#[test]
fn lists_split_on_commas() {
    let items = confetti_rs::mapper::list_items(" 1, 2 ,,3 ");
    assert_eq!(items, vec!["1".to_string(), "2".to_string(), "3".to_string()]);
    assert_eq!(Vec::<i32>::from_conf_value("1, 2, 3").unwrap(), vec![1, 2, 3]);
    assert!(Vec::<i32>::from_conf_value("1, x").is_err());
    assert_eq!(vec![1, 2, 3].to_conf_value().unwrap(), "1, 2, 3");
    assert!(Vec::<i32>::new().requires_quotes());
    assert!(confetti_rs::mapper::list_items("").is_empty());
}

#[test]
fn nesting_fits_small_trees() {
    let unit = parse("a { b { c; } }", ConfOptions::default()).unwrap();
    assert!(confetti_rs::mapper::nesting_fits(&unit.directives[0], 0));
    assert!(!confetti_rs::mapper::nesting_fits(&unit.directives[0], usize::MAX));
}

#[test]
fn mapper_errors_as_text() {
    assert_eq!(
        MapperError::ConversionError("bad".to_string()).to_string(),
        "Conversion error: bad"
    );
    assert_eq!(
        MapperError::MissingField("host".to_string()).to_string(),
        "Missing required field: host"
    );
    let io = MapperError::IoError(std::io::Error::new(std::io::ErrorKind::NotFound, "gone"));
    assert_eq!(io.to_string(), "I/O error: gone");
}

#[test]
fn token_text_is_the_last_token() {
    let mut lexer = Lexer::new("ab \"c d\"", ConfOptions::default());
    lexer.next_token().unwrap();
    assert_eq!(lexer.token_text(), "ab");
    let t = lexer.next_token().unwrap();
    assert_eq!(lexer.token_text(), "\"c d\"");
    assert_eq!(t.span, 3..8);
    assert_eq!(lexer.next_token().unwrap().token_type, TokenType::Eof);
}

#[test]
fn forbidden_rule_on_given_categories() {
    let f = confetti_rs::chars::forbidden_given;
    assert!(f(true, '\u{0}', false));
    assert!(!f(true, '\n', false));
    assert!(!f(false, 'a', true));
    assert!(f(false, '\u{202E}', true));
    assert!(!f(false, '\u{202E}', false));
    assert!(confetti_rs::chars::is_forbidden('\u{1F}', false));
    assert!(!confetti_rs::chars::is_forbidden('\u{85}', true));
    assert!(confetti_rs::chars::is_forbidden('\u{E0000}', false));
}

#[test]
fn escaped_forbidden_characters_are_rejected() {
    let (p, m) = lexer_error(parse("k \\\u{0};", ConfOptions::default()));
    assert_eq!((p, m.as_str()), (3, "Forbidden character in argument: U+0000"));
    let (p, m) = lexer_error(parse("k \\\u{202E};", ConfOptions::default()));
    assert_eq!((p, m.as_str()), (3, "Forbidden character in argument: U+202E"));
    let (p, m) = lexer_error(parse("k \"a\\\u{0}\";", ConfOptions::default()));
    assert_eq!((p, m.as_str()), (5, "Forbidden character in quoted argument: U+0000"));
    let (p, _) = lexer_error(parse("k \"\"\"a\\\u{0}\"\"\";", ConfOptions::default()));
    assert_eq!(p, 7);
    let allowed = ConfOptions { forbid_bidi_characters: false, ..ConfOptions::default() };
    assert!(parse("k \\\u{202E};", allowed).is_ok());
}
