use style_minimizer::catalog::{config_language, parse_style_names};
use style_minimizer::document::Node;
use style_minimizer::language::Language;

#[test]
fn style_names_come_sorted_from_listing_line() {
    let help = "USAGE: clang-format [options] <file>\n  --style=<string> - Set coding style.\n                     Google, LLVM, Chromium, Mozilla, WebKit.\n  other\n";
    let names = parse_style_names(help).unwrap();
    assert_eq!(names, vec!["Chromium", "Google", "LLVM", "Mozilla", "WebKit"]);
}

#[test]
fn style_names_missing_listing_line() {
    assert!(parse_style_names("no list here\nnor, here\n").is_none());
    assert!(parse_style_names("").is_none());
}

#[test]
fn configuration_language_is_read() {
    let config = vec![
        (Node::Str("A".to_string()), Node::Integer(1)),
        (Node::Str("Language".to_string()), Node::Str("JavaScript".to_string())),
    ];
    assert_eq!(config_language(&config), Some(Language::JavaScript));
}

#[test]
fn configuration_language_unknown_or_absent() {
    let unknown = vec![(Node::Str("Language".to_string()), Node::Str("Rust".to_string()))];
    assert_eq!(config_language(&unknown), None);
    let not_text = vec![(Node::Str("Language".to_string()), Node::Integer(3))];
    assert_eq!(config_language(&not_text), None);
    assert_eq!(config_language(&vec![]), None);
}

#[test]
fn language_names_and_extensions() {
    assert_eq!(Language::CSharp.get_name(), "CSharp");
    assert_eq!(Language::TextProto.get_name(), "TextProto");
    assert_eq!(Language::Cpp.get_file_extension(), ".cpp");
    assert_eq!(Language::ObjC.get_file_extension(), ".m");
    assert_eq!(Language::TableGen.get_file_extension(), ".td");
}

#[test]
fn language_parses_from_its_name() {
    assert_eq!(Language::parse("Java").ok(), Some(Language::Java));
    assert_eq!("Proto".parse::<Language>().ok(), Some(Language::Proto));
    assert!(Language::parse("java").is_err());
    assert!("".parse::<Language>().is_err());
}
