use asciidoc_parser::blocks::metadata::BlockMetadata;
use asciidoc_parser::blocks::{Block, Break, BreakType, ContentModel, IsBlock};
use asciidoc_parser::content::SubstitutionGroup;
use asciidoc_parser::span::MatchedItem;
use asciidoc_parser::{Parser, Span};

fn sp(s: &Span) -> (&str, usize, usize, usize) {
    (s.data(), s.line(), s.col(), s.byte_offset())
}

fn parse_break(src: &str) -> MatchedItem<Break> {
    let parser = Parser::default();
    Break::parse(&BlockMetadata::new(src), &parser).unwrap()
}

fn parse_block(src: &str) -> MatchedItem<Block> {
    let mut parser = Parser::default();
    let maw = Block::parse(&Span::new(src), &mut parser);
    assert!(maw.warnings.is_empty());
    maw.item.unwrap()
}

fn as_break(b: &Block) -> &Break {
    match b {
        Block::Break(brk) => brk,
        _ => panic!("expected a break block"),
    }
}

fn assert_no_metadata<B: IsBlock>(b: &B) {
    assert!(b.nested_blocks().is_empty());
    assert!(b.title_source().is_none());
    assert!(b.title().is_none());
    assert!(b.anchor().is_none());
    assert!(b.anchor_reftext().is_none());
    assert!(b.attrlist().is_none());
    assert_eq!(b.substitution_group(), SubstitutionGroup::Normal);
}

fn check_direct_break(src: &str, data: &str, type_: BreakType, context: &str) {
    let mi = parse_break(src);
    assert_eq!(mi.item.type_(), type_);
    assert_eq!(sp(mi.item.span()), (data, 1, 1, 0));
    assert_eq!(mi.item.content_model(), ContentModel::Empty);
    assert_eq!(mi.item.raw_context(), context);
    assert_no_metadata(&mi.item);
}

fn check_block_break(src: &str, data: &str, type_: BreakType, context: &str) -> MatchedItem<Block> {
    let mi = parse_block(src);
    let brk = as_break(&mi.item);
    assert_eq!(brk.type_(), type_);
    assert_eq!(sp(brk.span()), (data, 1, 1, 0));
    assert_eq!(sp(mi.item.span()), (data, 1, 1, 0));
    assert_eq!(mi.item.content_model(), ContentModel::Empty);
    assert_eq!(mi.item.raw_context(), context);
    mi
}

#[test]
fn break_impl_clone() {
    let b1 = parse_break("'''");
    let b2 = parse_break("'''");
    assert_eq!(b1.item.type_(), b2.item.type_());
    assert_eq!(sp(b1.item.span()), sp(b2.item.span()));
}

#[test]
fn break_thematic_break_triple_apostrophe() {
    let mi = parse_break("'''");
    assert_eq!(sp(&mi.after), ("", 1, 4, 3));
    check_direct_break("'''", "'''", BreakType::Thematic, "thematic_break");

    let mi = check_block_break("'''", "'''", BreakType::Thematic, "thematic_break");
    assert_no_metadata(&mi.item);
    assert_eq!(sp(&mi.after), ("", 1, 4, 3));
}

#[test]
fn break_thematic_break_triple_hyphen() {
    let mi = parse_break("---");
    assert_eq!(sp(&mi.after), ("", 1, 4, 3));
    check_direct_break("---", "---", BreakType::Thematic, "thematic_break");
    check_block_break("---", "---", BreakType::Thematic, "thematic_break");
}

#[test]
fn break_thematic_break_spaced_hyphen() {
    let mi = parse_break("- - -");
    assert_eq!(sp(&mi.after), ("", 1, 6, 5));
    check_direct_break("- - -", "- - -", BreakType::Thematic, "thematic_break");
    check_block_break("- - -", "- - -", BreakType::Thematic, "thematic_break");
}

#[test]
fn break_thematic_break_triple_asterisk() {
    check_direct_break("***", "***", BreakType::Thematic, "thematic_break");
    check_block_break("***", "***", BreakType::Thematic, "thematic_break");
}

#[test]
fn break_thematic_break_spaced_asterisk() {
    check_direct_break("* * *", "* * *", BreakType::Thematic, "thematic_break");
    check_block_break("* * *", "* * *", BreakType::Thematic, "thematic_break");
}

#[test]
fn break_page_break() {
    let mi = parse_break("<<<");
    assert_eq!(sp(&mi.after), ("", 1, 4, 3));
    check_direct_break("<<<", "<<<", BreakType::Page, "page_break");

    let mi = check_block_break("<<<", "<<<", BreakType::Page, "page_break");
    assert_eq!(sp(&mi.after), ("", 1, 4, 3));
    assert_no_metadata(&mi.item);
}

#[test]
fn break_thematic_break_with_trailing_whitespace() {
    check_direct_break("'''   ", "'''", BreakType::Thematic, "thematic_break");
    check_block_break("'''   ", "'''", BreakType::Thematic, "thematic_break");
}

#[test]
fn break_page_break_with_trailing_whitespace() {
    check_direct_break("<<<   ", "<<<", BreakType::Page, "page_break");
    check_block_break("<<<   ", "<<<", BreakType::Page, "page_break");
}

#[test]
fn thematic_break_with_title() {
    let mi = parse_block(".My Break Title\n'''\n");
    let brk = as_break(&mi.item);
    assert_eq!(brk.type_(), BreakType::Thematic);
    assert_eq!(sp(brk.span()), (".My Break Title\n'''", 1, 1, 0));
    assert_eq!(sp(mi.item.title_source().unwrap()), ("My Break Title", 1, 2, 1));
    assert_eq!(mi.item.title(), Some("My Break Title"));
    assert!(mi.item.anchor().is_none());
    assert!(mi.item.attrlist().is_none());
    assert_eq!(sp(&mi.after), ("", 3, 1, 20));
}

#[test]
fn page_break_with_title() {
    let mi = parse_block(".Page Break\n<<<\n");
    let brk = as_break(&mi.item);
    assert_eq!(brk.type_(), BreakType::Page);
    assert_eq!(sp(brk.span()), (".Page Break\n<<<", 1, 1, 0));
    assert_eq!(sp(mi.item.title_source().unwrap()), ("Page Break", 1, 2, 1));
    assert_eq!(mi.item.title(), Some("Page Break"));
    assert_eq!(mi.item.content_model(), ContentModel::Empty);
    assert_eq!(mi.item.raw_context(), "page_break");
}

#[test]
fn break_with_anchor() {
    let mi = parse_block("[[my-break]]\n'''\n");
    let brk = as_break(&mi.item);
    assert_eq!(brk.type_(), BreakType::Thematic);
    assert_eq!(sp(brk.span()), ("[[my-break]]\n'''", 1, 1, 0));
    assert_eq!(sp(mi.item.anchor().unwrap()), ("my-break", 1, 3, 2));
    assert_eq!(mi.item.anchor().unwrap().data(), "my-break");
    assert_eq!(mi.item.id(), Some("my-break"));
    assert!(mi.item.anchor_reftext().is_none());
}

#[test]
fn break_with_attrlist() {
    let mi = parse_block("[#mybreak.role1.role2%option1]\n'''\n");
    assert_eq!(as_break(&mi.item).type_(), BreakType::Thematic);
    assert!(mi.item.attrlist().is_some());
    assert_eq!(mi.item.id(), Some("mybreak"));
    assert_eq!(mi.item.roles(), vec!["role1", "role2"]);
    assert_eq!(mi.item.options(), vec!["option1"]);
    assert!(mi.item.has_option("option1"));
    assert!(!mi.item.has_option("option2"));
    assert!(mi.item.declared_style().is_none());
    assert_eq!(mi.item.raw_context(), "thematic_break");
    assert_eq!(mi.item.resolved_context(), "thematic_break");
    assert!(mi.item.title_source().is_none());
    assert!(mi.item.title().is_none());
}

#[test]
fn break_trait_methods_without_metadata() {
    let mi = parse_block("<<<");
    assert_eq!(mi.item.content_model(), ContentModel::Empty);
    assert_eq!(mi.item.raw_context(), "page_break");
    assert_eq!(mi.item.resolved_context(), "page_break");
    assert!(mi.item.declared_style().is_none());
    assert!(mi.item.id().is_none());
    assert!(mi.item.roles().is_empty());
    assert!(mi.item.options().is_empty());
    assert!(!mi.item.has_option("any_option"));
    assert_no_metadata(&mi.item);
    assert_eq!(sp(mi.item.span()), ("<<<", 1, 1, 0));
}
