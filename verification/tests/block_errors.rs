use asciidoc_parser::blocks::metadata::BlockMetadata;
use asciidoc_parser::blocks::{
    Block, Break, CompoundDelimitedBlock, MediaBlock, RawDelimitedBlock, SectionBlock, SimpleBlock,
};
use asciidoc_parser::warnings::Warning;
use asciidoc_parser::{Parser, Span};

fn raw_valid(s: &str) -> bool {
    RawDelimitedBlock::is_valid_delimiter(&Span::new(s))
}

fn compound_valid(s: &str) -> bool {
    CompoundDelimitedBlock::is_valid_delimiter(&Span::new(s))
}

fn raw_parse_is_none(s: &str) -> bool {
    let mut parser = Parser::default();
    RawDelimitedBlock::parse(&BlockMetadata::new(s), &mut parser).is_none()
}

fn compound_parse_is_none(s: &str) -> bool {
    let mut parser = Parser::default();
    CompoundDelimitedBlock::parse(&BlockMetadata::new(s), &mut parser).is_none()
}

fn media_is_none_without_warnings(s: &str) -> bool {
    let mut parser = Parser::default();
    let maw = MediaBlock::parse(&BlockMetadata::new(s), &mut parser);
    maw.warnings.is_empty() && maw.item.is_none()
}

fn section_is_none(s: &str) -> bool {
    let mut parser = Parser::default();
    let mut warnings: Vec<Warning> = vec![];
    SectionBlock::parse(&BlockMetadata::new(s), &mut parser, &mut warnings).is_none()
}

#[test]
fn break_err_empty_source() {
    let mut parser = Parser::default();
    assert!(Break::parse(&BlockMetadata::new(""), &mut parser).is_none());
}

#[test]
fn break_err_only_spaces() {
    let mut parser = Parser::default();
    assert!(Break::parse(&BlockMetadata::new("    "), &mut parser).is_none());
}

#[test]
fn break_err_unknown_break_pattern() {
    let mut parser = Parser::default();
    assert!(Break::parse(&BlockMetadata::new("=="), &mut parser).is_none());
    assert!(Break::parse(&BlockMetadata::new("~~~"), &mut parser).is_none());
    assert!(Break::parse(&BlockMetadata::new("****"), &mut parser).is_none());
    assert!(Break::parse(&BlockMetadata::new(">>>"), &mut parser).is_none());

    // As a block, an unknown pattern becomes a simple block.
    let maw = Block::parse(&Span::new("==="), &mut parser);
    assert!(maw.warnings.is_empty());
    let mi = maw.item.unwrap();
    match &mi.item {
        Block::Simple(b) => {
            assert_eq!(b.content().original().data(), "===");
            assert_eq!(b.content().rendered(), "===");
        },
        _ => panic!("expected a simple block"),
    }
    assert_eq!(mi.item.span().data(), "===");
    assert_eq!(mi.after.data(), "");
    assert_eq!(mi.after.col(), 4);
    assert_eq!(mi.after.byte_offset(), 3);
}

#[test]
fn compound_delimited_comment() {
    assert!(!compound_valid("////"));
    assert!(!compound_valid("/////"));
    assert!(!compound_valid("/////////"));
    assert!(!compound_valid("///"));
    assert!(!compound_valid("//-/"));
    assert!(!compound_valid("////-"));
    assert!(!compound_valid("//////////x"));
    assert!(!compound_valid("//😀/"));
}

#[test]
fn compound_delimited_example() {
    assert!(compound_valid("===="));
    assert!(compound_valid("====="));
    assert!(compound_valid("======="));
    assert!(!compound_valid("==="));
    assert!(!compound_valid("==-="));
    assert!(!compound_valid("====-"));
    assert!(!compound_valid("==========x"));
}

#[test]
fn compound_delimited_listing() {
    assert!(!compound_valid("----"));
    assert!(!compound_valid("-----"));
    assert!(!compound_valid("---------"));
}

#[test]
fn compound_delimited_literal() {
    assert!(!compound_valid("...."));
    assert!(!compound_valid("....."));
    assert!(!compound_valid("........."));
}

#[test]
fn compound_delimited_sidebar() {
    assert!(compound_valid("****"));
    assert!(compound_valid("*****"));
    assert!(compound_valid("*********"));
    assert!(!compound_valid("***"));
    assert!(!compound_valid("**-*"));
    assert!(!compound_valid("****-"));
    assert!(!compound_valid("**********x"));
}

#[test]
fn compound_delimited_table() {
    assert!(!compound_valid("|==="));
    assert!(!compound_valid(",==="));
    assert!(!compound_valid(":==="));
    assert!(!compound_valid("!==="));
}

#[test]
fn compound_delimited_pass() {
    assert!(!compound_valid("++++"));
    assert!(!compound_valid("+++++"));
    assert!(!compound_valid("+++++++++"));
}

#[test]
fn compound_delimited_quote() {
    assert!(compound_valid("____"));
    assert!(compound_valid("_____"));
    assert!(compound_valid("_________"));
    assert!(!compound_valid("___"));
    assert!(!compound_valid("__-_"));
    assert!(!compound_valid("____-"));
    assert!(!compound_valid("_________x"));
}

#[test]
fn compound_delimited_err_invalid_delimiter() {
    assert!(compound_parse_is_none(""));
    assert!(compound_parse_is_none("///"));
    assert!(compound_parse_is_none("////x"));
    assert!(compound_parse_is_none("--x"));
    assert!(compound_parse_is_none("****x"));
    assert!(compound_parse_is_none("__\n__"));
}

#[test]
fn no_panic_for_utf8_code_point_using_more_than_one_byte() {
    assert!(compound_parse_is_none("===😀"));
}

#[test]
fn media_err_empty_source() {
    assert!(media_is_none_without_warnings(""));
}

#[test]
fn media_err_only_spaces() {
    assert!(media_is_none_without_warnings("    "));
}

#[test]
fn err_macro_name_not_ident() {
    let mut parser = Parser::default();
    let maw = MediaBlock::parse(&BlockMetadata::new("98xyz::bar[blah,blap]"), &mut parser);
    assert!(maw.item.is_none());
    assert!(maw.warnings.is_empty());
}

#[test]
fn err_unknown_type() {
    assert!(media_is_none_without_warnings("imagex::bar[]"));
}

#[test]
fn err_no_attr_list() {
    assert!(media_is_none_without_warnings("image::bar"));
}

#[test]
fn err_attr_list_not_closed() {
    assert!(media_is_none_without_warnings("image::bar[blah"));
}

#[test]
fn err_unexpected_after_attr_list() {
    assert!(media_is_none_without_warnings("image::bar[blah]bonus"));
}

#[test]
fn raw_delimited_comment() {
    assert!(raw_valid("////"));
    assert!(raw_valid("/////"));
    assert!(raw_valid("/////////"));
    assert!(!raw_valid("///"));
    assert!(!raw_valid("//-/"));
    assert!(!raw_valid("////-"));
    assert!(!raw_valid("//////////x"));
}

#[test]
fn raw_delimited_example() {
    assert!(!raw_valid("===="));
    assert!(!raw_valid("====="));
    assert!(!raw_valid("==="));
}

#[test]
fn raw_delimited_listing() {
    assert!(raw_valid("----"));
    assert!(raw_valid("-----"));
    assert!(raw_valid("---------"));
    assert!(!raw_valid("---"));
    assert!(!raw_valid("--/-"));
    assert!(!raw_valid("----/"));
    assert!(!raw_valid("----------x"));
}

#[test]
fn raw_delimited_literal() {
    assert!(raw_valid("...."));
    assert!(raw_valid("....."));
    assert!(raw_valid("........."));
    assert!(!raw_valid("..."));
    assert!(!raw_valid("../."));
    assert!(!raw_valid("..../"));
    assert!(!raw_valid("..........x"));
}

#[test]
fn raw_delimited_sidebar() {
    assert!(!raw_valid("****"));
    assert!(!raw_valid("*****"));
    assert!(!raw_valid("***"));
}

#[test]
fn raw_delimited_table() {
    assert!(!raw_valid("|==="));
    assert!(!raw_valid(",==="));
    assert!(!raw_valid(":==="));
    assert!(!raw_valid("!==="));
}

#[test]
fn raw_delimited_pass() {
    assert!(raw_valid("++++"));
    assert!(raw_valid("+++++"));
    assert!(raw_valid("+++++++++"));
    assert!(!raw_valid("+++"));
    assert!(!raw_valid("++/+"));
    assert!(!raw_valid("++++/"));
    assert!(!raw_valid("++++++++++x"));
}

#[test]
fn raw_delimited_quote() {
    assert!(!raw_valid("____"));
    assert!(!raw_valid("_____"));
    assert!(!raw_valid("___"));
}

#[test]
fn raw_delimited_err_invalid_delimiter() {
    assert!(raw_parse_is_none(""));
    assert!(raw_parse_is_none("..."));
    assert!(raw_parse_is_none("++++x"));
    assert!(raw_parse_is_none("____x"));
    assert!(raw_parse_is_none("====x"));
    assert!(raw_parse_is_none("==\n=="));
}

#[test]
fn section_err_empty_source() {
    assert!(section_is_none(""));
}

#[test]
fn section_err_only_spaces() {
    assert!(section_is_none("    "));
}

#[test]
fn err_not_section() {
    assert!(section_is_none("blah blah"));
}

#[test]
fn section_err_missing_space_before_title() {
    assert!(section_is_none("=blah blah"));
    assert!(section_is_none("#blah blah"));
}

#[test]
fn simple_empty_source() {
    let mut parser = Parser::default();
    assert!(SimpleBlock::parse(&BlockMetadata::new(""), &mut parser).is_none());
}

#[test]
fn simple_only_spaces() {
    let mut parser = Parser::default();
    assert!(SimpleBlock::parse(&BlockMetadata::new("    "), &mut parser).is_none());
}
