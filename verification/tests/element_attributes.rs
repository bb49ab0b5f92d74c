use asciidoc_parser::Parser;
use asciidoc_parser::attributes::element_attribute::{AttrlistContext, ElementAttribute};
use asciidoc_parser::warnings::WarningType;

fn parse(src: &str, shorthand: bool) -> (ElementAttribute, usize, Vec<WarningType>) {
    let p = Parser::default();
    ElementAttribute::parse(src, 0, &p, shorthand, AttrlistContext::Inline)
}

#[test]
fn element_attribute_impl_clone() {
    let (b1, _, _) = parse("abc", false);
    let b2 = b1.copy();
    assert_eq!(b1.value(), b2.value());
    assert_eq!(b1.name(), b2.name());
}

#[test]
fn element_attribute_empty_source() {
    let (a, offset, warnings) = parse("", false);
    assert!(warnings.is_empty());
    assert_eq!(a.name(), None);
    assert_eq!(a.shorthand_items(), Vec::<&str>::new());
    assert_eq!(a.value(), "");
    assert!(a.block_style().is_none());
    assert!(a.id().is_none());
    assert!(a.roles().is_empty());
    assert!(a.options().is_empty());
    assert_eq!(offset, 0);
}

#[test]
fn element_attribute_only_spaces() {
    let (a, offset, warnings) = parse("   ", false);
    assert!(warnings.is_empty());
    assert_eq!(a.name(), None);
    assert_eq!(a.shorthand_items(), Vec::<&str>::new());
    assert_eq!(a.value(), "");
    assert!(a.block_style().is_none());
    assert!(a.id().is_none());
    assert!(a.roles().is_empty());
    assert!(a.options().is_empty());
    assert_eq!(offset, 3);
}

#[test]
fn unquoted_and_unnamed_value() {
    let (a, offset, warnings) = parse("abc", false);
    assert!(warnings.is_empty());
    assert_eq!(a.name(), None);
    assert_eq!(a.shorthand_items(), Vec::<&str>::new());
    assert_eq!(a.value(), "abc");
    assert!(a.block_style().is_none());
    assert!(a.id().is_none());
    assert!(a.roles().is_empty());
    assert!(a.options().is_empty());
    assert_eq!(offset, 3);
}

#[test]
fn unquoted_stops_at_comma() {
    let (a, offset, warnings) = parse("abc,def", false);
    assert!(warnings.is_empty());
    assert_eq!(a.name(), None);
    assert_eq!(a.shorthand_items(), Vec::<&str>::new());
    assert_eq!(a.value(), "abc");
    assert!(a.block_style().is_none());
    assert!(a.id().is_none());
    assert!(a.roles().is_empty());
    assert!(a.options().is_empty());
    assert_eq!(offset, 3);
}

#[test]
fn err_unterminated_double_quote() {
    let (a, offset, warnings) = parse("\"xyz", false);
    assert_eq!(warnings, vec![WarningType::AttributeValueMissingTerminatingQuote]);
    assert_eq!(a.name(), None);
    assert_eq!(a.shorthand_items(), Vec::<&str>::new());
    assert_eq!(a.value(), "\"xyz");
    assert!(a.block_style().is_none());
    assert!(a.id().is_none());
    assert!(a.roles().is_empty());
    assert!(a.options().is_empty());
    assert_eq!(offset, 4);
}

#[test]
fn err_unterminated_double_quote_ends_at_comma() {
    let (a, offset, warnings) = parse("\"xyz,abc", false);
    assert_eq!(warnings, vec![WarningType::AttributeValueMissingTerminatingQuote]);
    assert_eq!(a.name(), None);
    assert_eq!(a.shorthand_items(), Vec::<&str>::new());
    assert_eq!(a.value(), "\"xyz");
    assert!(a.block_style().is_none());
    assert!(a.id().is_none());
    assert!(a.roles().is_empty());
    assert!(a.options().is_empty());
    assert_eq!(offset, 4);
}

#[test]
fn double_quoted_string() {
    let (a, offset, warnings) = parse("\"abc\"def", false);
    assert!(warnings.is_empty());
    assert_eq!(a.name(), None);
    assert_eq!(a.shorthand_items(), Vec::<&str>::new());
    assert_eq!(a.value(), "abc");
    assert!(a.block_style().is_none());
    assert!(a.id().is_none());
    assert!(a.roles().is_empty());
    assert!(a.options().is_empty());
    assert_eq!(offset, 5);
}

#[test]
fn double_quoted_with_escape() {
    let (a, offset, warnings) = parse("\"a\\\"bc\"def", false);
    assert!(warnings.is_empty());
    assert_eq!(a.name(), None);
    assert_eq!(a.shorthand_items(), Vec::<&str>::new());
    assert_eq!(a.value(), "a\"bc");
    assert!(a.block_style().is_none());
    assert!(a.id().is_none());
    assert!(a.roles().is_empty());
    assert!(a.options().is_empty());
    assert_eq!(offset, 7);
}

#[test]
fn double_quoted_with_single_quote() {
    let (a, offset, warnings) = parse("\"a'bc\"def", false);
    assert!(warnings.is_empty());
    assert_eq!(a.name(), None);
    assert_eq!(a.shorthand_items(), Vec::<&str>::new());
    assert_eq!(a.value(), "a'bc");
    assert!(a.block_style().is_none());
    assert!(a.id().is_none());
    assert!(a.roles().is_empty());
    assert!(a.options().is_empty());
    assert_eq!(offset, 6);
}

#[test]
fn err_unterminated_single_quote() {
    let (a, offset, warnings) = parse("'xyz", false);
    assert_eq!(warnings, vec![WarningType::AttributeValueMissingTerminatingQuote]);
    assert_eq!(a.name(), None);
    assert_eq!(a.shorthand_items(), Vec::<&str>::new());
    assert_eq!(a.value(), "'xyz");
    assert!(a.block_style().is_none());
    assert!(a.id().is_none());
    assert!(a.roles().is_empty());
    assert!(a.options().is_empty());
    assert_eq!(offset, 4);
}

#[test]
fn err_unterminated_single_quote_ends_at_comma() {
    let (a, offset, warnings) = parse("'xyz,abc", false);
    assert_eq!(warnings, vec![WarningType::AttributeValueMissingTerminatingQuote]);
    assert_eq!(a.name(), None);
    assert_eq!(a.shorthand_items(), Vec::<&str>::new());
    assert_eq!(a.value(), "'xyz");
    assert!(a.block_style().is_none());
    assert!(a.id().is_none());
    assert!(a.roles().is_empty());
    assert!(a.options().is_empty());
    assert_eq!(offset, 4);
}

#[test]
fn single_quoted_string() {
    let (a, offset, warnings) = parse("'abc'def", false);
    assert!(warnings.is_empty());
    assert_eq!(a.name(), None);
    assert_eq!(a.shorthand_items(), Vec::<&str>::new());
    assert_eq!(a.value(), "abc");
    assert!(a.block_style().is_none());
    assert!(a.id().is_none());
    assert!(a.roles().is_empty());
    assert!(a.options().is_empty());
    assert_eq!(offset, 5);
}

#[test]
fn single_quoted_with_escape() {
    let (a, offset, warnings) = parse("'a\\'bc'def", false);
    assert!(warnings.is_empty());
    assert_eq!(a.name(), None);
    assert_eq!(a.shorthand_items(), Vec::<&str>::new());
    assert_eq!(a.value(), "a'bc");
    assert!(a.block_style().is_none());
    assert!(a.id().is_none());
    assert!(a.roles().is_empty());
    assert!(a.options().is_empty());
    assert_eq!(offset, 7);
}

#[test]
fn single_quoted_with_double_quote() {
    let (a, offset, warnings) = parse("'a\"bc'def", false);
    assert!(warnings.is_empty());
    assert_eq!(a.name(), None);
    assert_eq!(a.shorthand_items(), Vec::<&str>::new());
    assert_eq!(a.value(), "a\"bc");
    assert!(a.block_style().is_none());
    assert!(a.id().is_none());
    assert!(a.roles().is_empty());
    assert!(a.options().is_empty());
    assert_eq!(offset, 6);
}

#[test]
fn simple_named_value() {
    let (a, offset, warnings) = parse("abc=def", false);
    assert!(warnings.is_empty());
    assert_eq!(a.name(), Some("abc"));
    assert_eq!(a.shorthand_items(), Vec::<&str>::new());
    assert_eq!(a.value(), "def");
    assert!(a.block_style().is_none());
    assert!(a.id().is_none());
    assert!(a.roles().is_empty());
    assert!(a.options().is_empty());
    assert_eq!(offset, 7);
}

#[test]
fn ignores_spaces_around_equals() {
    let (a, offset, warnings) = parse("abc =  def", false);
    assert!(warnings.is_empty());
    assert_eq!(a.name(), Some("abc"));
    assert_eq!(a.shorthand_items(), Vec::<&str>::new());
    assert_eq!(a.value(), "def");
    assert_eq!(offset, 10);
}

#[test]
fn numeric_name() {
    let (a, offset, warnings) = parse("94-x =def", false);
    assert!(warnings.is_empty());
    assert_eq!(a.name(), Some("94-x"));
    assert_eq!(a.shorthand_items(), Vec::<&str>::new());
    assert_eq!(a.value(), "def");
    assert!(a.block_style().is_none());
    assert!(a.id().is_none());
    assert!(a.roles().is_empty());
    assert!(a.options().is_empty());
    assert_eq!(offset, 9);
}

#[test]
fn quoted_value() {
    let (a, offset, warnings) = parse("abc='def'g", false);
    assert!(warnings.is_empty());
    assert_eq!(a.name(), Some("abc"));
    assert_eq!(a.shorthand_items(), Vec::<&str>::new());
    assert_eq!(a.value(), "def");
    assert!(a.block_style().is_none());
    assert!(a.id().is_none());
    assert!(a.roles().is_empty());
    assert!(a.options().is_empty());
    assert_eq!(offset, 9);
}

#[test]
fn fallback_if_no_value() {
    let (a, offset, warnings) = parse("abc=", false);
    assert!(warnings.is_empty());
    assert_eq!(a.name(), None);
    assert_eq!(a.shorthand_items(), Vec::<&str>::new());
    assert_eq!(a.value(), "abc=");
    assert!(a.block_style().is_none());
    assert!(a.id().is_none());
    assert!(a.roles().is_empty());
    assert!(a.options().is_empty());
    assert_eq!(offset, 4);
}

#[test]
fn fallback_if_immediate_comma() {
    let (a, offset, warnings) = parse("abc=,def", false);
    assert!(warnings.is_empty());
    assert_eq!(a.name(), None);
    assert_eq!(a.shorthand_items(), Vec::<&str>::new());
    assert_eq!(a.value(), "abc=");
    assert!(a.block_style().is_none());
    assert!(a.id().is_none());
    assert!(a.roles().is_empty());
    assert!(a.options().is_empty());
    assert_eq!(offset, 4);
}

#[test]
fn block_style_only() {
    let (a, offset, warnings) = parse("abc", true);
    assert!(warnings.is_empty());
    assert_eq!(a.name(), None);
    assert_eq!(a.shorthand_items(), vec!["abc"]);
    assert_eq!(a.value(), "abc");
    assert!(a.id().is_none());
    assert!(a.roles().is_empty());
    assert!(a.options().is_empty());
    assert_eq!(a.block_style().unwrap(), "abc");
    assert_eq!(offset, 3);
}

#[test]
fn ignore_if_named_attribute() {
    let (a, offset, warnings) = parse("name=block_style#id", true);
    assert!(warnings.is_empty());
    assert_eq!(a.name(), Some("name"));
    assert_eq!(a.shorthand_items(), Vec::<&str>::new());
    assert_eq!(a.value(), "block_style#id");
    assert!(a.block_style().is_none());
    assert!(a.id().is_none());
    assert!(a.roles().is_empty());
    assert!(a.options().is_empty());
    assert_eq!(offset, 19);
}

#[test]
fn error_empty_id() {
    let (a, offset, warnings) = parse("abc#", true);
    assert_eq!(warnings, vec![WarningType::EmptyShorthandItem]);
    assert_eq!(a.name(), None);
    assert_eq!(a.shorthand_items(), vec!["abc"]);
    assert_eq!(a.value(), "abc#");
    assert_eq!(offset, 4);
}

#[test]
fn error_duplicate_delimiter() {
    let (a, offset, warnings) = parse("abc##id", true);
    assert_eq!(warnings, vec![WarningType::EmptyShorthandItem]);
    assert_eq!(a.name(), None);
    assert_eq!(a.shorthand_items(), vec!["abc", "#id"]);
    assert_eq!(a.value(), "abc##id");
    assert_eq!(offset, 7);
}

#[test]
fn id_only() {
    let (a, offset, warnings) = parse("#xyz", true);
    assert!(warnings.is_empty());
    assert_eq!(a.name(), None);
    assert_eq!(a.shorthand_items(), vec!["#xyz"]);
    assert_eq!(a.value(), "#xyz");
    assert!(a.block_style().is_none());
    assert!(a.roles().is_empty());
    assert!(a.options().is_empty());
    assert_eq!(a.id().unwrap(), "xyz");
    assert_eq!(offset, 4);
}

#[test]
fn one_role_only() {
    let (a, offset, warnings) = parse(".role1", true);
    assert!(warnings.is_empty());
    assert_eq!(a.name(), None);
    assert_eq!(a.shorthand_items(), vec![".role1"]);
    assert_eq!(a.value(), ".role1");
    assert!(a.block_style().is_none());
    assert!(a.id().is_none());
    assert!(a.options().is_empty());
    assert_eq!(a.roles(), vec!["role1"]);
    assert_eq!(offset, 6);
}

#[test]
fn multiple_roles() {
    let (a, offset, warnings) = parse(".role1.role2.role3", true);
    assert!(warnings.is_empty());
    assert_eq!(a.name(), None);
    assert_eq!(a.shorthand_items(), vec![".role1", ".role2", ".role3"]);
    assert_eq!(a.value(), ".role1.role2.role3");
    assert!(a.block_style().is_none());
    assert!(a.id().is_none());
    assert!(a.options().is_empty());
    assert_eq!(a.roles(), vec!["role1", "role2", "role3"]);
    assert_eq!(offset, 18);
}

#[test]
fn one_option_only() {
    let (a, offset, warnings) = parse("%option1", true);
    assert!(warnings.is_empty());
    assert_eq!(a.name(), None);
    assert_eq!(a.shorthand_items(), vec!["%option1"]);
    assert_eq!(a.value(), "%option1");
    assert!(a.block_style().is_none());
    assert!(a.id().is_none());
    assert!(a.roles().is_empty());
    assert_eq!(a.options(), vec!["option1"]);
    assert_eq!(offset, 8);
}

#[test]
fn multiple_options() {
    let (a, offset, warnings) = parse("%option1%option2%option3", true);
    assert!(warnings.is_empty());
    assert_eq!(a.name(), None);
    assert_eq!(a.shorthand_items(), vec!["%option1", "%option2", "%option3"]);
    assert_eq!(a.value(), "%option1%option2%option3");
    assert!(a.block_style().is_none());
    assert!(a.id().is_none());
    assert!(a.roles().is_empty());
    assert_eq!(a.options(), vec!["option1", "option2", "option3"]);
    assert_eq!(offset, 24);
}

#[test]
fn block_style_and_id() {
    let (a, offset, warnings) = parse("appendix#custom-id", true);
    assert!(warnings.is_empty());
    assert_eq!(a.name(), None);
    assert_eq!(a.shorthand_items(), vec!["appendix", "#custom-id"]);
    assert_eq!(a.value(), "appendix#custom-id");
    assert!(a.roles().is_empty());
    assert!(a.options().is_empty());
    assert_eq!(a.block_style().unwrap(), "appendix");
    assert_eq!(a.id().unwrap(), "custom-id");
    assert_eq!(offset, 18);
}

#[test]
fn id_role_and_option() {
    let (a, offset, warnings) = parse("#rules.prominent%incremental", true);
    assert!(warnings.is_empty());
    assert_eq!(a.name(), None);
    assert_eq!(a.shorthand_items(), vec!["#rules", ".prominent", "%incremental"]);
    assert_eq!(a.value(), "#rules.prominent%incremental");
    assert!(a.block_style().is_none());
    assert_eq!(a.id().unwrap(), "rules");
    assert_eq!(a.roles(), vec!["prominent"]);
    assert_eq!(a.options(), vec!["incremental"]);
    assert_eq!(offset, 28);
}

#[test]
fn single_quoted_gets_substitions() {
    let mut p = Parser::default();
    p.set_attribute("foo", Some("bar"));
    let (a, offset, warnings) = ElementAttribute::parse("'*abc* def {foo}'", 0, &p, false, AttrlistContext::Block);
    assert!(warnings.is_empty());
    assert_eq!(a.name(), None);
    assert_eq!(a.shorthand_items(), Vec::<&str>::new());
    assert_eq!(a.value(), "<strong>abc</strong> def bar");
    assert!(a.block_style().is_none());
    assert!(a.id().is_none());
    assert!(a.roles().is_empty());
    assert!(a.options().is_empty());
    assert_eq!(offset, 17);
}
