use asciidoc_parser::attributes::attrlist::Attrlist;
use asciidoc_parser::attributes::element_attribute::{AttrlistContext, ElementAttribute};
use asciidoc_parser::span::MatchedItem;
use asciidoc_parser::warnings::{Warning, WarningType};
use asciidoc_parser::{Parser, Span};

fn sp(s: &Span) -> (&str, usize, usize, usize) {
    (s.data(), s.line(), s.col(), s.byte_offset())
}

fn ea(a: &ElementAttribute) -> (Option<&str>, Vec<&str>, &str) {
    (a.name(), a.shorthand_items(), a.value())
}

fn parse_with(p: &Parser, src: &str) -> (MatchedItem<Attrlist>, Vec<Warning>) {
    let maw = Attrlist::parse(&Span::new(src), p, AttrlistContext::Inline);
    (maw.item, maw.warnings)
}

fn parse(src: &str) -> (MatchedItem<Attrlist>, Vec<Warning>) {
    parse_with(&Parser::default(), src)
}

fn attrs(a: &Attrlist) -> Vec<(Option<&str>, Vec<&str>, &str)> {
    a.attributes().iter().map(ea).collect()
}

fn check_empty(a: &Attrlist) {
    assert!(a.attributes().is_empty());
    assert!(a.anchor().is_none());
    assert!(a.named_attribute("foo").is_none());
    assert!(a.nth_attribute(0).is_none());
    assert!(a.nth_attribute(1).is_none());
    assert!(a.nth_attribute(42).is_none());
    assert!(a.named_or_positional_attribute("foo", 0).is_none());
    assert!(a.named_or_positional_attribute("foo", 1).is_none());
    assert!(a.named_or_positional_attribute("foo", 42).is_none());
    assert!(a.id().is_none());
    assert!(a.roles().is_empty());
    assert_eq!(sp(a.span()), ("", 1, 1, 0));
}

#[test]
fn attrlist_impl_clone() {
    let (mi, warnings) = parse("abc");
    assert!(warnings.is_empty());
    let b2 = mi.item.copy();
    assert_eq!(attrs(&mi.item), attrs(&b2));
    assert_eq!(sp(mi.item.span()), sp(b2.span()));
}

#[test]
fn impl_default() {
    let a = Attrlist::default();
    check_empty(&a);
}

#[test]
fn attrlist_empty_source() {
    let (mi, warnings) = parse("");
    assert!(warnings.is_empty());
    check_empty(&mi.item);
    assert_eq!(sp(&mi.after), ("", 1, 1, 0));
}

#[test]
fn attrlist_via_shorthand_syntax() {
    let (mi, warnings) = parse("#goals");
    assert!(warnings.is_empty());
    assert_eq!(attrs(&mi.item), vec![(None, vec!["#goals"], "#goals")]);
    assert!(mi.item.named_attribute("foo").is_none());
    assert!(mi.item.named_or_positional_attribute("foo", 0).is_none());
    assert_eq!(mi.item.id().unwrap(), "goals");
    assert!(mi.item.roles().is_empty());
    assert_eq!(sp(mi.item.span()), ("#goals", 1, 1, 0));
    assert_eq!(sp(&mi.after), ("", 1, 7, 6));

    let (mi, _) = parse(".rolename");
    assert_eq!(attrs(&mi.item), vec![(None, vec![".rolename"], ".rolename")]);
    assert_eq!(mi.item.roles(), vec!["rolename"]);
    assert_eq!(sp(&mi.after), ("", 1, 10, 9));

    let (mi, _) = parse("%option");
    assert_eq!(attrs(&mi.item), vec![(None, vec!["%option"], "%option")]);
    assert_eq!(mi.item.options(), vec!["option"]);
    assert!(mi.item.has_option("option"));
    assert!(!mi.item.has_option("option1"));
    assert_eq!(sp(&mi.after), ("", 1, 8, 7));
}

#[test]
fn attrlist_via_named_attribute() {
    let (mi, warnings) = parse("foo=bar,id=goals");
    assert!(warnings.is_empty());
    assert_eq!(attrs(&mi.item), vec![(Some("foo"), vec![], "bar"), (Some("id"), vec![], "goals")]);
    assert_eq!(ea(mi.item.named_attribute("foo").unwrap()), (Some("foo"), vec![], "bar"));
    assert_eq!(ea(mi.item.named_attribute("id").unwrap()), (Some("id"), vec![], "goals"));
    assert_eq!(mi.item.id().unwrap(), "goals");
    assert!(mi.item.roles().is_empty());
    assert_eq!(sp(&mi.after), ("", 1, 17, 16));

    let (mi, _) = parse("foo=bar,role=role1");
    assert_eq!(attrs(&mi.item), vec![(Some("foo"), vec![], "bar"), (Some("role"), vec![], "role1")]);
    assert_eq!(mi.item.roles(), vec!["role1"]);
    assert_eq!(sp(&mi.after), ("", 1, 19, 18));
}

#[test]
fn attrlist_shorthand_only_first_attribute() {
    let (mi, _) = parse("foo,blah#goals");
    assert_eq!(attrs(&mi.item), vec![(None, vec!["foo"], "foo"), (None, vec![], "blah#goals")]);
    assert!(mi.item.id().is_none());
    assert!(mi.item.roles().is_empty());
    assert_eq!(sp(&mi.after), ("", 1, 15, 14));

    let (mi, _) = parse("foo,blah.rolename");
    assert_eq!(attrs(&mi.item), vec![(None, vec!["foo"], "foo"), (None, vec![], "blah.rolename")]);
    assert!(mi.item.roles().is_empty());
    assert_eq!(sp(&mi.after), ("", 1, 18, 17));

    let (mi, _) = parse("foo,blah%option");
    assert_eq!(attrs(&mi.item), vec![(None, vec!["foo"], "foo"), (None, vec![], "blah%option")]);
    assert!(mi.item.options().is_empty());
    assert!(!mi.item.has_option("option"));
    assert_eq!(sp(&mi.after), ("", 1, 16, 15));
}

#[test]
fn empty_positional_attributes() {
    let (mi, warnings) = parse(",300,400");
    assert_eq!(attrs(&mi.item), vec![(None, vec![], ""), (None, vec![], "300"), (None, vec![], "400")] as Vec<(Option<&str>, Vec<&str>, &str)>);
    assert!(mi.item.anchor().is_none());
    assert_eq!(sp(mi.item.span()), (",300,400", 1, 1, 0));
    assert_eq!(sp(&mi.after), ("", 1, 9, 8));
    assert!(mi.item.named_attribute("foo").is_none());
    assert!(mi.item.nth_attribute(0).is_none());
    assert!(mi.item.named_or_positional_attribute("foo", 0).is_none());
    assert!(mi.item.id().is_none());
    assert!(mi.item.roles().is_empty());
    assert_eq!(ea(mi.item.nth_attribute(1).unwrap()), (None, vec![], ""));
    assert_eq!(ea(mi.item.named_or_positional_attribute("alt", 1).unwrap()), (None, vec![], ""));
    assert_eq!(ea(mi.item.nth_attribute(2).unwrap()), (None, vec![], "300"));
    assert_eq!(ea(mi.item.named_or_positional_attribute("width", 2).unwrap()), (None, vec![], "300"));
    assert_eq!(ea(mi.item.nth_attribute(3).unwrap()), (None, vec![], "400"));
    assert_eq!(ea(mi.item.named_or_positional_attribute("height", 3).unwrap()), (None, vec![], "400"));
    assert!(mi.item.nth_attribute(4).is_none());
    assert!(mi.item.named_or_positional_attribute("height", 4).is_none());
    assert!(mi.item.nth_attribute(42).is_none());
    assert!(warnings.is_empty());
}

#[test]
fn only_positional_attributes() {
    let (mi, warnings) = parse("Sunset,300,400");
    assert_eq!(attrs(&mi.item), vec![(None, vec!["Sunset"], "Sunset"), (None, vec![], "300"), (None, vec![], "400")] as Vec<(Option<&str>, Vec<&str>, &str)>);
    assert!(mi.item.anchor().is_none());
    assert_eq!(sp(mi.item.span()), ("Sunset,300,400", 1, 1, 0));
    assert_eq!(sp(&mi.after), ("", 1, 15, 14));
    assert!(mi.item.named_attribute("foo").is_none());
    assert!(mi.item.nth_attribute(0).is_none());
    assert!(mi.item.named_or_positional_attribute("foo", 0).is_none());
    assert!(mi.item.id().is_none());
    assert!(mi.item.roles().is_empty());
    assert_eq!(ea(mi.item.nth_attribute(1).unwrap()), (None, vec!["Sunset"], "Sunset"));
    assert_eq!(ea(mi.item.named_or_positional_attribute("alt", 1).unwrap()), (None, vec!["Sunset"], "Sunset"));
    assert_eq!(ea(mi.item.nth_attribute(2).unwrap()), (None, vec![], "300"));
    assert_eq!(ea(mi.item.named_or_positional_attribute("width", 2).unwrap()), (None, vec![], "300"));
    assert_eq!(ea(mi.item.nth_attribute(3).unwrap()), (None, vec![], "400"));
    assert_eq!(ea(mi.item.named_or_positional_attribute("height", 3).unwrap()), (None, vec![], "400"));
    assert!(mi.item.nth_attribute(4).is_none());
    assert!(mi.item.named_or_positional_attribute("height", 4).is_none());
    assert!(mi.item.nth_attribute(42).is_none());
    assert!(warnings.is_empty());
}

#[test]
fn trim_trailing_space() {
    let (mi, warnings) = parse("Sunset ,300 , 400");
    assert_eq!(attrs(&mi.item), vec![(None, vec!["Sunset"], "Sunset"), (None, vec![], "300"), (None, vec![], "400")] as Vec<(Option<&str>, Vec<&str>, &str)>);
    assert!(mi.item.anchor().is_none());
    assert_eq!(sp(mi.item.span()), ("Sunset ,300 , 400", 1, 1, 0));
    assert_eq!(sp(&mi.after), ("", 1, 18, 17));
    assert!(mi.item.named_attribute("foo").is_none());
    assert!(mi.item.nth_attribute(0).is_none());
    assert!(mi.item.named_or_positional_attribute("foo", 0).is_none());
    assert!(mi.item.id().is_none());
    assert!(mi.item.roles().is_empty());
    assert_eq!(ea(mi.item.nth_attribute(1).unwrap()), (None, vec!["Sunset"], "Sunset"));
    assert_eq!(ea(mi.item.named_or_positional_attribute("alt", 1).unwrap()), (None, vec!["Sunset"], "Sunset"));
    assert_eq!(ea(mi.item.nth_attribute(2).unwrap()), (None, vec![], "300"));
    assert_eq!(ea(mi.item.named_or_positional_attribute("width", 2).unwrap()), (None, vec![], "300"));
    assert_eq!(ea(mi.item.nth_attribute(3).unwrap()), (None, vec![], "400"));
    assert_eq!(ea(mi.item.named_or_positional_attribute("height", 3).unwrap()), (None, vec![], "400"));
    assert!(mi.item.nth_attribute(4).is_none());
    assert!(mi.item.named_or_positional_attribute("height", 4).is_none());
    assert!(mi.item.nth_attribute(42).is_none());
    assert!(warnings.is_empty());
}

#[test]
fn only_named_attributes() {
    let (mi, warnings) = parse("alt=Sunset,width=300,height=400");
    assert_eq!(attrs(&mi.item), vec![(Some("alt"), vec![], "Sunset"), (Some("width"), vec![], "300"), (Some("height"), vec![], "400")] as Vec<(Option<&str>, Vec<&str>, &str)>);
    assert!(mi.item.anchor().is_none());
    assert_eq!(sp(mi.item.span()), ("alt=Sunset,width=300,height=400", 1, 1, 0));
    assert_eq!(sp(&mi.after), ("", 1, 32, 31));
    assert!(mi.item.named_attribute("foo").is_none());
    assert!(mi.item.named_or_positional_attribute("foo", 0).is_none());
    assert_eq!(ea(mi.item.named_attribute("alt").unwrap()), (Some("alt"), vec![], "Sunset"));
    assert_eq!(ea(mi.item.named_or_positional_attribute("alt", 1).unwrap()), (Some("alt"), vec![], "Sunset"));
    assert_eq!(ea(mi.item.named_attribute("width").unwrap()), (Some("width"), vec![], "300"));
    assert_eq!(ea(mi.item.named_or_positional_attribute("width", 2).unwrap()), (Some("width"), vec![], "300"));
    assert_eq!(ea(mi.item.named_attribute("height").unwrap()), (Some("height"), vec![], "400"));
    assert_eq!(ea(mi.item.named_or_positional_attribute("height", 3).unwrap()), (Some("height"), vec![], "400"));
    assert!(mi.item.nth_attribute(0).is_none());
    assert!(mi.item.nth_attribute(1).is_none());
    assert!(mi.item.nth_attribute(2).is_none());
    assert!(mi.item.nth_attribute(3).is_none());
    assert!(mi.item.nth_attribute(4).is_none());
    assert!(mi.item.nth_attribute(42).is_none());
    assert!(mi.item.id().is_none());
    assert!(mi.item.roles().is_empty());
    assert!(warnings.is_empty());
}

#[test]
fn ignore_named_attribute_with_none_value() {
    let (mi, warnings) = parse("alt=Sunset,width=None,height=400");
    assert_eq!(attrs(&mi.item), vec![(Some("alt"), vec![], "Sunset"), (Some("height"), vec![], "400")] as Vec<(Option<&str>, Vec<&str>, &str)>);
    assert!(mi.item.anchor().is_none());
    assert_eq!(sp(mi.item.span()), ("alt=Sunset,width=None,height=400", 1, 1, 0));
    assert_eq!(sp(&mi.after), ("", 1, 33, 32));
    assert!(mi.item.named_attribute("foo").is_none());
    assert_eq!(ea(mi.item.named_attribute("alt").unwrap()), (Some("alt"), vec![], "Sunset"));
    assert!(mi.item.named_attribute("width").is_none());
    assert!(mi.item.named_or_positional_attribute("width", 2).is_none());
    assert_eq!(ea(mi.item.named_attribute("height").unwrap()), (Some("height"), vec![], "400"));
    assert_eq!(ea(mi.item.named_or_positional_attribute("height", 2).unwrap()), (Some("height"), vec![], "400"));
    assert!(mi.item.nth_attribute(1).is_none());
    assert!(mi.item.id().is_none());
    assert!(warnings.is_empty());
}

#[test]
fn err_unparsed_remainder_after_value() {
    let (mi, warnings) = parse("alt=\"Sunset\"width=300");
    assert_eq!(attrs(&mi.item), vec![(Some("alt"), vec![], "Sunset")] as Vec<(Option<&str>, Vec<&str>, &str)>);
    assert!(mi.item.anchor().is_none());
    assert_eq!(sp(mi.item.span()), ("alt=\"Sunset\"width=300", 1, 1, 0));
    assert_eq!(sp(&mi.after), ("", 1, 22, 21));
    assert_eq!(warnings.len(), 1);
    assert_eq!(sp(&warnings[0].source), ("alt=\"Sunset\"width=300", 1, 1, 0));
    assert_eq!(warnings[0].warning, WarningType::MissingCommaAfterQuotedAttributeValue);
}

#[test]
fn propagates_error_from_element_attribute() {
    let (mi, warnings) = parse("foo%#id");
    assert_eq!(attrs(&mi.item), vec![(None, vec!["foo", "#id"], "foo%#id")] as Vec<(Option<&str>, Vec<&str>, &str)>);
    assert!(mi.item.anchor().is_none());
    assert_eq!(sp(mi.item.span()), ("foo%#id", 1, 1, 0));
    assert_eq!(sp(&mi.after), ("", 1, 8, 7));
    assert_eq!(warnings.len(), 1);
    assert_eq!(sp(&warnings[0].source), ("foo%#id", 1, 1, 0));
    assert_eq!(warnings[0].warning, WarningType::EmptyShorthandItem);
}

#[test]
fn anchor_syntax() {
    let (mi, warnings) = parse("[notice]");
    assert_eq!(attrs(&mi.item), vec![] as Vec<(Option<&str>, Vec<&str>, &str)>);
    assert_eq!(mi.item.anchor(), Some("notice"));
    assert_eq!(sp(mi.item.span()), ("[notice]", 1, 1, 0));
    assert_eq!(sp(&mi.after), ("", 1, 9, 8));
    assert!(warnings.is_empty());
}

#[test]
fn via_block_anchor_syntax() {
    let (mi, warnings) = parse("[goals]");
    assert_eq!(attrs(&mi.item), vec![] as Vec<(Option<&str>, Vec<&str>, &str)>);
    assert_eq!(mi.item.anchor(), Some("goals"));
    assert_eq!(sp(mi.item.span()), ("[goals]", 1, 1, 0));
    assert_eq!(sp(&mi.after), ("", 1, 8, 7));
    assert_eq!(mi.item.id().unwrap(), "goals");
    assert!(warnings.is_empty());
}

#[test]
fn via_shorthand_syntax_trim_trailing_whitespace() {
    let (mi, warnings) = parse(".rolename ");
    assert_eq!(attrs(&mi.item), vec![(None, vec![".rolename"], ".rolename")] as Vec<(Option<&str>, Vec<&str>, &str)>);
    assert!(mi.item.anchor().is_none());
    assert_eq!(sp(mi.item.span()), (".rolename ", 1, 1, 0));
    assert_eq!(sp(&mi.after), ("", 1, 11, 10));
    assert_eq!(mi.item.roles(), vec!["rolename"]);
    assert!(warnings.is_empty());
}

#[test]
fn multiple_roles_via_shorthand_syntax() {
    let (mi, warnings) = parse(".role1.role2.role3");
    assert_eq!(attrs(&mi.item), vec![(None, vec![".role1", ".role2", ".role3"], ".role1.role2.role3")] as Vec<(Option<&str>, Vec<&str>, &str)>);
    assert!(mi.item.anchor().is_none());
    assert_eq!(sp(mi.item.span()), (".role1.role2.role3", 1, 1, 0));
    assert_eq!(sp(&mi.after), ("", 1, 19, 18));
    assert_eq!(mi.item.roles(), vec!["role1", "role2", "role3"]);
    assert!(warnings.is_empty());
}

#[test]
fn multiple_roles_via_shorthand_syntax_trim_whitespace() {
    let (mi, warnings) = parse(".role1 .role2 .role3 ");
    assert_eq!(attrs(&mi.item), vec![(None, vec![".role1", ".role2", ".role3"], ".role1 .role2 .role3")] as Vec<(Option<&str>, Vec<&str>, &str)>);
    assert!(mi.item.anchor().is_none());
    assert_eq!(sp(mi.item.span()), (".role1 .role2 .role3 ", 1, 1, 0));
    assert_eq!(sp(&mi.after), ("", 1, 22, 21));
    assert_eq!(mi.item.roles(), vec!["role1", "role2", "role3"]);
    assert!(warnings.is_empty());
}

#[test]
fn multiple_roles_via_named_attribute() {
    let (mi, warnings) = parse("foo=bar,role=role1 role2   role3 ");
    assert_eq!(attrs(&mi.item), vec![(Some("foo"), vec![], "bar"), (Some("role"), vec![], "role1 role2   role3")] as Vec<(Option<&str>, Vec<&str>, &str)>);
    assert!(mi.item.anchor().is_none());
    assert_eq!(sp(mi.item.span()), ("foo=bar,role=role1 role2   role3 ", 1, 1, 0));
    assert_eq!(sp(&mi.after), ("", 1, 34, 33));
    assert_eq!(mi.item.roles(), vec!["role1", "role2", "role3"]);
    assert!(warnings.is_empty());
}

#[test]
fn shorthand_role_and_named_attribute_role() {
    let (mi, warnings) = parse("#foo.sh1.sh2,role=na1 na2   na3 ");
    assert_eq!(attrs(&mi.item), vec![(None, vec!["#foo", ".sh1", ".sh2"], "#foo.sh1.sh2"), (Some("role"), vec![], "na1 na2   na3")] as Vec<(Option<&str>, Vec<&str>, &str)>);
    assert!(mi.item.anchor().is_none());
    assert_eq!(sp(mi.item.span()), ("#foo.sh1.sh2,role=na1 na2   na3 ", 1, 1, 0));
    assert_eq!(sp(&mi.after), ("", 1, 33, 32));
    assert!(mi.item.named_attribute("foo").is_none());
    assert_eq!(mi.item.roles(), vec!["sh1", "sh2", "na1", "na2", "na3"]);
    assert!(warnings.is_empty());
}

#[test]
fn multiple_options_via_shorthand_syntax() {
    let (mi, warnings) = parse("%option1%option2%option3");
    assert_eq!(attrs(&mi.item), vec![(None, vec!["%option1", "%option2", "%option3"], "%option1%option2%option3")] as Vec<(Option<&str>, Vec<&str>, &str)>);
    assert!(mi.item.anchor().is_none());
    assert_eq!(sp(mi.item.span()), ("%option1%option2%option3", 1, 1, 0));
    assert_eq!(sp(&mi.after), ("", 1, 25, 24));
    assert_eq!(mi.item.options(), vec!["option1", "option2", "option3"]);
    assert!(mi.item.has_option("option1"));
    assert!(mi.item.has_option("option2"));
    assert!(mi.item.has_option("option3"));
    assert!(!mi.item.has_option("option4"));
    assert!(warnings.is_empty());
}

#[test]
fn via_options_attribute() {
    let (mi, warnings) = parse("foo=bar,options=option1");
    assert_eq!(attrs(&mi.item), vec![(Some("foo"), vec![], "bar"), (Some("options"), vec![], "option1")] as Vec<(Option<&str>, Vec<&str>, &str)>);
    assert!(mi.item.anchor().is_none());
    assert_eq!(sp(mi.item.span()), ("foo=bar,options=option1", 1, 1, 0));
    assert_eq!(sp(&mi.after), ("", 1, 24, 23));
    assert_eq!(mi.item.options(), vec!["option1"]);
    assert!(mi.item.has_option("option1"));
    assert!(!mi.item.has_option("option2"));
    assert!(warnings.is_empty());
}

#[test]
fn via_opts_attribute() {
    let (mi, warnings) = parse("foo=bar,opts=option1");
    assert_eq!(attrs(&mi.item), vec![(Some("foo"), vec![], "bar"), (Some("opts"), vec![], "option1")] as Vec<(Option<&str>, Vec<&str>, &str)>);
    assert!(mi.item.anchor().is_none());
    assert_eq!(sp(mi.item.span()), ("foo=bar,opts=option1", 1, 1, 0));
    assert_eq!(sp(&mi.after), ("", 1, 21, 20));
    assert_eq!(mi.item.options(), vec!["option1"]);
    assert!(!mi.item.has_option("option"));
    assert!(mi.item.has_option("option1"));
    assert!(!mi.item.has_option("option2"));
    assert!(warnings.is_empty());
}

#[test]
fn multiple_options_via_named_attribute() {
    let (mi, warnings) = parse("foo=bar,options=\"option1,option2,option3\"");
    assert_eq!(attrs(&mi.item), vec![(Some("foo"), vec![], "bar"), (Some("options"), vec![], "option1,option2,option3")] as Vec<(Option<&str>, Vec<&str>, &str)>);
    assert!(mi.item.anchor().is_none());
    assert_eq!(sp(mi.item.span()), ("foo=bar,options=\"option1,option2,option3\"", 1, 1, 0));
    assert_eq!(sp(&mi.after), ("", 1, 42, 41));
    assert_eq!(mi.item.options(), vec!["option1", "option2", "option3"]);
    assert!(mi.item.has_option("option1"));
    assert!(mi.item.has_option("option2"));
    assert!(mi.item.has_option("option3"));
    assert!(!mi.item.has_option("option4"));
    assert!(warnings.is_empty());
}

#[test]
fn shorthand_option_and_named_attribute_option() {
    let (mi, warnings) = parse("#foo%sh1%sh2,options=\"na1,na2,na3\"");
    assert_eq!(attrs(&mi.item), vec![(None, vec!["#foo", "%sh1", "%sh2"], "#foo%sh1%sh2"), (Some("options"), vec![], "na1,na2,na3")] as Vec<(Option<&str>, Vec<&str>, &str)>);
    assert!(mi.item.anchor().is_none());
    assert_eq!(sp(mi.item.span()), ("#foo%sh1%sh2,options=\"na1,na2,na3\"", 1, 1, 0));
    assert_eq!(sp(&mi.after), ("", 1, 35, 34));
    assert!(mi.item.named_attribute("foo").is_none());
    assert_eq!(mi.item.options(), vec!["sh1", "sh2", "na1", "na2", "na3"]);
    assert!(mi.item.has_option("sh1"));
    assert!(!mi.item.has_option("sh3"));
    assert!(mi.item.has_option("na3"));
    assert!(!mi.item.has_option("na4"));
    assert!(warnings.is_empty());
}

#[test]
fn err_double_comma() {
    let (mi, warnings) = parse("alt=Sunset,width=300,,height=400");
    assert_eq!(attrs(&mi.item), vec![(Some("alt"), vec![], "Sunset"), (Some("width"), vec![], "300"), (Some("height"), vec![], "400")] as Vec<(Option<&str>, Vec<&str>, &str)>);
    assert!(mi.item.anchor().is_none());
    assert_eq!(sp(mi.item.span()), ("alt=Sunset,width=300,,height=400", 1, 1, 0));
    assert_eq!(sp(&mi.after), ("", 1, 33, 32));
    assert_eq!(warnings.len(), 1);
    assert_eq!(sp(&warnings[0].source), ("alt=Sunset,width=300,,height=400", 1, 1, 0));
    assert_eq!(warnings[0].warning, WarningType::EmptyAttributeValue);
}

#[test]
fn applies_attribute_substitution_before_parsing() {
    let mut p = Parser::default();
    p.set_attribute("sunset_dimensions", Some("300,400"));
    let (mi, warnings) = parse_with(&p, "Sunset,{sunset_dimensions}");
    assert_eq!(attrs(&mi.item), vec![(None, vec!["Sunset"], "Sunset"), (None, vec![], "300"), (None, vec![], "400")] as Vec<(Option<&str>, Vec<&str>, &str)>);
    assert!(mi.item.anchor().is_none());
    assert_eq!(sp(mi.item.span()), ("Sunset,{sunset_dimensions}", 1, 1, 0));
    assert!(mi.item.named_attribute("foo").is_none());
    assert!(mi.item.nth_attribute(0).is_none());
    assert!(mi.item.named_or_positional_attribute("foo", 0).is_none());
    assert!(mi.item.id().is_none());
    assert!(mi.item.roles().is_empty());
    assert_eq!(ea(mi.item.nth_attribute(1).unwrap()), (None, vec!["Sunset"], "Sunset"));
    assert_eq!(ea(mi.item.named_or_positional_attribute("alt", 1).unwrap()), (None, vec!["Sunset"], "Sunset"));
    assert_eq!(ea(mi.item.nth_attribute(2).unwrap()), (None, vec![], "300"));
    assert_eq!(ea(mi.item.named_or_positional_attribute("width", 2).unwrap()), (None, vec![], "300"));
    assert_eq!(ea(mi.item.nth_attribute(3).unwrap()), (None, vec![], "400"));
    assert_eq!(ea(mi.item.named_or_positional_attribute("height", 3).unwrap()), (None, vec![], "400"));
    assert!(mi.item.nth_attribute(4).is_none());
    assert!(mi.item.named_or_positional_attribute("height", 4).is_none());
    assert!(mi.item.nth_attribute(42).is_none());
    assert!(warnings.is_empty());
}

#[test]
fn ignores_unknown_attribute_when_applying_attribution_substitution() {
    let mut p = Parser::default();
    p.set_attribute("sunset_dimensions", Some("300,400"));
    let (mi, warnings) = parse_with(&p, "Sunset,{not_sunset_dimensions}");
    assert_eq!(attrs(&mi.item), vec![(None, vec!["Sunset"], "Sunset"), (None, vec![], "{not_sunset_dimensions}")] as Vec<(Option<&str>, Vec<&str>, &str)>);
    assert!(mi.item.anchor().is_none());
    assert_eq!(sp(mi.item.span()), ("Sunset,{not_sunset_dimensions}", 1, 1, 0));
    assert_eq!(sp(&mi.after), ("", 1, 31, 30));
    assert!(mi.item.named_attribute("foo").is_none());
    assert!(mi.item.nth_attribute(0).is_none());
    assert!(mi.item.named_or_positional_attribute("foo", 0).is_none());
    assert!(mi.item.id().is_none());
    assert!(mi.item.roles().is_empty());
    assert!(mi.item.nth_attribute(3).is_none());
    assert!(mi.item.named_or_positional_attribute("height", 3).is_none());
    assert!(warnings.is_empty());
}
