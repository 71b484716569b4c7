use dunsumday::config::parse::{BoolParser, StringParser, WebPortParser};
use dunsumday::config::validate::WebPathValidator;
use dunsumday::config::{ValueParser, ValueValidator};
use dunsumday::web::join_path;

#[test]
fn parses_strings_as_they_stand() {
    assert_eq!(StringParser {}.parse(" a b "), Ok(" a b ".to_string()));
}

#[test]
fn parses_booleans() {
    assert_eq!(BoolParser {}.parse("true"), Ok(true));
    assert_eq!(BoolParser {}.parse("false"), Ok(false));
    assert_eq!(BoolParser {}.parse("yes"), Err("invalid boolean value: yes".to_string()));
}

#[test]
fn parses_ports() {
    assert_eq!(WebPortParser {}.parse("26300"), Ok(26300));
    assert_eq!(WebPortParser {}.parse("65536"), Err("invalid port number: 65536".to_string()));
    assert_eq!(WebPortParser {}.parse("-1"), Err("invalid port number: -1".to_string()));
}

#[test]
fn validates_web_paths() {
    assert_eq!(WebPathValidator {}.validate(&"/api".to_string()), Ok(()));
    assert_eq!(
        WebPathValidator {}.validate(&"api".to_string()),
        Err("path must start with / character: api".to_string())
    );
    assert!(WebPathValidator {}.validate(&String::new()).is_err());
}

#[test]
fn joins_paths_with_one_slash() {
    assert_eq!(join_path("/root//".to_string(), "//item"), "/root/item");
    assert_eq!(join_path("/".to_string(), "ui"), "/ui");
    assert_eq!(join_path(String::new(), ""), "/");
}
