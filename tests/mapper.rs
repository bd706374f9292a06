use confetti_rs::mapper::serialize_directive;
use confetti_rs::{ConfArgument, ConfDirective, ValueConverter};

fn argument(value: &str, is_quoted: bool) -> ConfArgument {
    ConfArgument {
        value: value.to_string(),
        span: 0..0,
        is_quoted,
        is_triple_quoted: false,
        is_expression: false,
    }
}

fn directive(name: &str, arguments: Vec<ConfArgument>, children: Vec<ConfDirective>) -> ConfDirective {
    ConfDirective {
        name: argument(name, false),
        arguments,
        children,
    }
}

#[test]
fn test_serialize_string_without_comma() {
    let d = directive(
        "TestConfig",
        vec![],
        vec![directive("host", vec![argument("127.0.0.1,", true)], vec![])],
    );
    let mut output = String::new();
    serialize_directive(&d, &mut output, 0).unwrap();
    assert!(output.contains("\"127.0.0.1\""));
    assert!(!output.contains("\"127.0.0.1,\""));
}

#[test]
fn test_serialize_numeric_without_quotes() {
    let d = directive(
        "TestConfig",
        vec![],
        vec![directive("port", vec![argument("3000", false)], vec![])],
    );
    let mut output = String::new();
    serialize_directive(&d, &mut output, 0).unwrap();
    assert!(output.contains("port 3000;"));
    assert!(!output.contains("port \"3000\";"));
}

#[test]
fn test_server_config_serialization() {
    let d = directive(
        "ServerConfig",
        vec![],
        vec![
            directive("host", vec![argument("127.0.0.1,", true)], vec![]),
            directive("port", vec![argument("3000", false)], vec![]),
        ],
    );
    let mut output = String::new();
    serialize_directive(&d, &mut output, 0).unwrap();
    let expected = "ServerConfig {\n  host \"127.0.0.1\";\n  port 3000;\n}\n";
    assert_eq!(output, expected);
}

#[test]
fn test_to_conf_value_string_with_quotes() {
    let value = "\"test value\"".to_string();
    let result = value.to_conf_value().unwrap();
    assert_eq!(result, "test value");
}

#[test]
fn test_to_conf_value_string_with_comma() {
    let value = "test value,".to_string();
    let result = value.to_conf_value().unwrap();
    assert_eq!(result, "test value");
}

#[test]
fn test_requires_quotes() {
    let string_value = String::from("test");
    assert!(string_value.requires_quotes());

    let int_value = 3000;
    assert!(!int_value.requires_quotes());

    let bool_value = true;
    assert!(!bool_value.requires_quotes());
}

#[test]
fn rendering_trims_one_trailing_comma() {
    let d = directive("k", vec![argument("x,,", true), argument("\"y,\"", true)], vec![]);
    let mut output = String::new();
    serialize_directive(&d, &mut output, 0).unwrap();
    assert_eq!(output, "k \"x,\" \"y\";\n");
    assert_eq!("x,,".to_string().to_conf_value().unwrap(), "x");
}
