use firelang::ast::{BinaryOperator, KeyWord};
use firelang::error_generator::{FireError, Type};
use firelang::parser::{ParseErrorKind};
use firelang::token::{LiteralKind, TokenKind};
use firelang::tree::Node;

#[test]
fn new_node_is_a_leaf() {
    let mut node = Node::new();
    assert!(node.is_leaf_node());
    node.subs.push(Node::new());
    assert!(!node.is_leaf_node());
    assert!(node.subs[0].is_leaf_node());
}

#[test]
fn report_begins_with_its_heading() {
    assert_eq!(FireError::new(Type::Error).messages, vec!["Error".to_string()]);
    assert_eq!(FireError::new(Type::Warning).messages, vec!["Warning".to_string()]);
}

#[test]
fn report_text_has_one_line_for_each_message() {
    let mut report = FireError::new(Type::Error);
    assert_eq!(report.to_string(), "Error\n");
    report.messages.push("unexpected token".to_string());
    assert_eq!(report.to_string(), "Error\nunexpected token\n");
    assert_eq!(FireError { messages: vec![] }.to_string(), "");
}

#[test]
fn operators_of_one_character() {
    assert_eq!(BinaryOperator::try_from(&TokenKind::Star), Some(BinaryOperator::Multiplication));
    assert_eq!(BinaryOperator::try_from(&TokenKind::Slash), Some(BinaryOperator::Division));
    assert_eq!(BinaryOperator::try_from(&TokenKind::Plus), Some(BinaryOperator::Addition));
    assert_eq!(BinaryOperator::try_from(&TokenKind::Minus), Some(BinaryOperator::Subtraction));
    assert_eq!(BinaryOperator::try_from(&TokenKind::Percent), Some(BinaryOperator::Modulus));
    assert_eq!(BinaryOperator::try_from(&TokenKind::And), Some(BinaryOperator::And));
    assert_eq!(BinaryOperator::try_from(&TokenKind::Or), Some(BinaryOperator::Or));
    assert_eq!(BinaryOperator::try_from(&TokenKind::Equal), None);
    assert_eq!(BinaryOperator::try_from(&TokenKind::Ident), None);
    assert_eq!(
        BinaryOperator::try_from(&TokenKind::Literal {
            kind: LiteralKind::Float { dangling: false },
            suffix: String::new(),
        }),
        None
    );
}

#[test]
fn error_messages() {
    assert_eq!(
        ParseErrorKind::MissingInitializer.message(),
        "Must initialize the variable when declare it."
    );
    assert_eq!(ParseErrorKind::UnclosedParen.message(), "Error: Unclosed '('.");
    assert_eq!(
        ParseErrorKind::ExpectedPrimary.message(),
        "Error: Unexpected token: Expected <literal>, <identifier> or '('."
    );
    assert_eq!(ParseErrorKind::ExpectedStatement.message(), "Error: Expected <statement>.");
    assert_eq!(
        ParseErrorKind::MissingSemicolon.message(),
        "There must be a ';' after a <statement>."
    );
    assert_eq!(
        ParseErrorKind::KeywordAsIdentifier(KeyWord::LET).message(),
        "Expected an <identifier>, found keyword LET"
    );
}
