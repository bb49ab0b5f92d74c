use asciidoc_parser::blocks::metadata::BlockMetadata;
use asciidoc_parser::blocks::{
    ContentModel, IsBlock, MacroBlock, MediaBlock, MediaType, SimpleBlock, SimpleBlockStyle,
};
use asciidoc_parser::content::{SubstitutionGroup, SubstitutionStep};
use asciidoc_parser::span::MatchedItem;
use asciidoc_parser::warnings::{Warning, WarningType};
use asciidoc_parser::{Parser, Span};

fn sp(s: &Span) -> (&str, usize, usize, usize) {
    (s.data(), s.line(), s.col(), s.byte_offset())
}

fn media(src: &str) -> (Option<MatchedItem<MediaBlock>>, Vec<Warning>) {
    let mut parser = Parser::default();
    let maw = MediaBlock::parse(&BlockMetadata::new(src), &mut parser);
    (maw.item, maw.warnings)
}

fn media_ok(src: &str) -> MatchedItem<MediaBlock> {
    let (item, warnings) = media(src);
    assert!(warnings.is_empty());
    item.unwrap()
}

fn simple(src: &str) -> MatchedItem<SimpleBlock> {
    let mut parser = Parser::default();
    SimpleBlock::parse(&BlockMetadata::new(src), &mut parser).unwrap()
}

fn check_media(src: &str, t: MediaType, context: &str) {
    let mi = media_ok(src);
    assert_eq!(mi.item.type_(), t);
    assert_eq!(sp(mi.item.target().unwrap()), ("bar", 1, 8, 7));
    assert_eq!(sp(mi.item.macro_attrlist().span()), ("", 1, 12, 11));
    assert!(mi.item.macro_attrlist().attributes().is_empty());
    assert_eq!(sp(mi.item.span()), (src, 1, 1, 0));
    assert_eq!(sp(&mi.after), ("", 1, 13, 12));
    assert_eq!(mi.item.content_model(), ContentModel::Empty);
    assert_eq!(mi.item.raw_context(), context);
    assert!(mi.item.title_source().is_none());
    assert!(mi.item.title().is_none());
    assert_eq!(mi.item.substitution_group(), SubstitutionGroup::Normal);
}

#[test]
fn media_impl_clone() {
    let b1 = media_ok("image::foo.jpg[]");
    let b2 = media_ok("image::foo.jpg[]");
    assert_eq!(sp(b1.item.target().unwrap()), sp(b2.item.target().unwrap()));
}

#[test]
fn err_missing_double_colon() {
    let (item, warnings) = media("image:bar[blah,blap]");
    assert!(item.is_none());
    assert_eq!(warnings.len(), 1);
    assert_eq!(sp(&warnings[0].source), (":bar[blah,blap]", 1, 6, 5));
    assert_eq!(warnings[0].warning, WarningType::MacroMissingDoubleColon);
}

#[test]
fn err_missing_macro_attrlist() {
    let (item, warnings) = media("image::barblah,blap]");
    assert!(item.is_none());
    assert_eq!(warnings.len(), 1);
    assert_eq!(sp(&warnings[0].source), ("", 1, 21, 20));
    assert_eq!(warnings[0].warning, WarningType::MacroMissingAttributeList);
}

#[test]
fn simplest_block_macro() {
    let (item, warnings) = media("image::[]");
    assert!(item.is_none());
    assert_eq!(warnings.len(), 1);
    assert_eq!(sp(&warnings[0].source), ("[]", 1, 8, 7));
    assert_eq!(warnings[0].warning, WarningType::MediaMacroMissingTarget);
}

#[test]
fn has_target() {
    check_media("image::bar[]", MediaType::Image, "image");
}

#[test]
fn has_target_and_attrlist() {
    let mi = media_ok("image::bar[blah]");
    assert_eq!(mi.item.type_(), MediaType::Image);
    assert_eq!(sp(mi.item.target().unwrap()), ("bar", 1, 8, 7));
    let al = mi.item.macro_attrlist();
    assert_eq!(al.attributes().len(), 1);
    let a = &al.attributes()[0];
    assert!(a.name().is_none());
    assert_eq!(a.shorthand_items(), vec!["blah"]);
    assert_eq!(a.value(), "blah");
    assert_eq!(sp(al.span()), ("blah", 1, 12, 11));
    assert_eq!(sp(mi.item.span()), ("image::bar[blah]", 1, 1, 0));
    assert_eq!(sp(&mi.after), ("", 1, 17, 16));
}

#[test]
fn media_audio() {
    check_media("audio::bar[]", MediaType::Audio, "audio");
}

#[test]
fn media_video() {
    check_media("video::bar[]", MediaType::Video, "video");
}

#[test]
fn image() {
    check_media("image::bar[]", MediaType::Image, "image");
}

#[test]
fn err_duplicate_comma() {
    let (item, warnings) = media("image::bar[blah,,blap]");
    let mi = item.unwrap();
    assert_eq!(mi.item.type_(), MediaType::Image);
    assert_eq!(sp(mi.item.target().unwrap()), ("bar", 1, 8, 7));
    let al = mi.item.macro_attrlist();
    assert_eq!(al.attributes().len(), 2);
    assert!(al.attributes()[0].name().is_none());
    assert_eq!(al.attributes()[0].shorthand_items(), vec!["blah"]);
    assert_eq!(al.attributes()[0].value(), "blah");
    assert!(al.attributes()[1].name().is_none());
    assert_eq!(al.attributes()[1].value(), "blap");
    assert_eq!(sp(al.span()), ("blah,,blap", 1, 12, 11));
    assert_eq!(sp(mi.item.span()), ("image::bar[blah,,blap]", 1, 1, 0));
    assert_eq!(sp(&mi.after), ("", 1, 23, 22));
    assert_eq!(warnings.len(), 1);
    assert_eq!(sp(&warnings[0].source), ("blah,,blap", 1, 12, 11));
    assert_eq!(warnings[0].warning, WarningType::EmptyAttributeValue);
}

#[test]
fn media_with_title_consumes_blank_lines() {
    let mi = media_ok(".A picture\nimage::pic.png[Alt text]\n\n\nnext");
    assert_eq!(mi.item.title(), Some("A picture"));
    assert_eq!(mi.item.span().data(), ".A picture\nimage::pic.png[Alt text]");
    assert_eq!(mi.after.data(), "next");
}

#[test]
fn block_macro_of_any_name() {
    let mut parser = Parser::default();
    let maw = MacroBlock::parse(&BlockMetadata::new("toc::[]"), &mut parser);
    assert!(maw.warnings.is_empty());
    let mi = maw.item.unwrap();
    assert_eq!(sp(mi.item.name()), ("toc", 1, 1, 0));
    assert!(mi.item.target().is_none());
    assert_eq!(mi.item.content_model(), ContentModel::Simple);
    assert_eq!(mi.item.raw_context(), "paragraph");

    let maw = MacroBlock::parse(&BlockMetadata::new("98xyz::bar[]"), &mut parser);
    assert!(maw.item.is_none());
    assert_eq!(maw.warnings.len(), 1);
    assert_eq!(maw.warnings[0].warning, WarningType::InvalidMacroName);

    let maw = MacroBlock::parse(&BlockMetadata::new("foo::bar[x]"), &mut parser);
    let mi = maw.item.unwrap();
    assert_eq!(mi.item.target().unwrap().data(), "bar");
    assert_eq!(mi.item.macro_attrlist().span().data(), "x");
}

#[test]
fn simple_impl_clone() {
    let b1 = simple("abc");
    let b2 = simple("abc");
    assert_eq!(b1.item.content().rendered(), b2.item.content().rendered());
}

#[test]
fn single_line() {
    let mi = simple("abc");
    assert_eq!(sp(mi.item.content().original()), ("abc", 1, 1, 0));
    assert_eq!(mi.item.content().rendered(), "abc");
    assert_eq!(sp(mi.item.span()), ("abc", 1, 1, 0));
    assert_eq!(mi.item.style(), SimpleBlockStyle::Paragraph);
    assert_eq!(mi.item.content_model(), ContentModel::Simple);
    assert_eq!(mi.item.rendered_content().unwrap(), "abc");
    assert_eq!(mi.item.raw_context(), "paragraph");
    assert_eq!(mi.item.resolved_context(), "paragraph");
    assert!(mi.item.declared_style().is_none());
    assert!(mi.item.title_source().is_none());
    assert!(mi.item.title().is_none());
    assert_eq!(mi.item.substitution_group(), SubstitutionGroup::Normal);
    assert_eq!(sp(&mi.after), ("", 1, 4, 3));
}

#[test]
fn simple_multiple_lines() {
    let mi = simple("abc\ndef");
    assert_eq!(sp(mi.item.content().original()), ("abc\ndef", 1, 1, 0));
    assert_eq!(mi.item.content().rendered(), "abc\ndef");
    assert_eq!(sp(mi.item.span()), ("abc\ndef", 1, 1, 0));
    assert_eq!(mi.item.style(), SimpleBlockStyle::Paragraph);
    assert_eq!(sp(&mi.after), ("", 2, 4, 7));
    assert_eq!(mi.item.rendered_content().unwrap(), "abc\ndef");
}

#[test]
fn consumes_blank_lines_after() {
    let mi = simple("abc\n\ndef");
    assert_eq!(sp(mi.item.content().original()), ("abc", 1, 1, 0));
    assert_eq!(mi.item.content().rendered(), "abc");
    assert_eq!(sp(mi.item.span()), ("abc", 1, 1, 0));
    assert_eq!(sp(&mi.after), ("def", 3, 1, 5));
}

#[test]
fn indented_lines_make_a_literal_block() {
    let mi = simple("  a < b\n  c");
    assert_eq!(mi.item.style(), SimpleBlockStyle::Literal);
    assert_eq!(mi.item.content().rendered(), "a &lt; b\nc");
}

#[test]
fn block_style_overrides_indentation() {
    let mi = simple("[normal]\n  a\n  b");
    assert_eq!(mi.item.style(), SimpleBlockStyle::Paragraph);
    assert_eq!(mi.item.content().rendered(), "a\nb");
    let mi = simple("[listing]\na < b");
    assert_eq!(mi.item.style(), SimpleBlockStyle::Listing);
    assert_eq!(mi.item.content().rendered(), "a &lt; b");
    let mi = simple("[source]\nx");
    assert_eq!(mi.item.style(), SimpleBlockStyle::Source);
}

#[test]
fn simple_block_stops_at_delimiters_and_drops_comments() {
    let mi = simple("abc\n// a comment\ndef\n----\nlisting");
    assert_eq!(mi.item.content().rendered(), "abc\ndef");
    assert_eq!(mi.item.span().data(), "abc\n// a comment\ndef");
    assert_eq!(mi.after.data(), "----\nlisting");
    let mi = simple("abc\n[role=x]\ndef");
    assert_eq!(mi.item.content().rendered(), "abc");
    let mi = simple("abc\n+\ndef");
    assert_eq!(mi.item.content().rendered(), "abc");
}

#[test]
fn simple_block_attribute_references() {
    let mut parser = Parser::default();
    parser.set_attribute("name", Some("World"));
    let mi = SimpleBlock::parse(&BlockMetadata::new("Hello, {name} & {unknown}!"), &mut parser).unwrap();
    assert_eq!(mi.item.content().rendered(), "Hello, World &amp; {unknown}!");
}

#[test]
fn simple_overrides_sub_group_via_subs_attribute() {
    let mi = simple("[subs=quotes]\na<b>c *bold*\n\ndef");
    assert_eq!(sp(mi.item.content().original()), ("a<b>c *bold*", 2, 1, 14));
    assert_eq!(mi.item.content().rendered(), "a<b>c <strong>bold</strong>");
    assert_eq!(sp(mi.item.span()), ("[subs=quotes]\na<b>c *bold*", 1, 1, 0));
    assert_eq!(mi.item.style(), SimpleBlockStyle::Paragraph);
    assert!(mi.item.title_source().is_none());
    assert!(mi.item.title().is_none());
    assert!(mi.item.anchor().is_none());
    assert!(mi.item.anchor_reftext().is_none());
    let al = mi.item.attrlist().unwrap();
    assert_eq!(sp(al.span()), ("subs=quotes", 1, 2, 1));
    let subs = al.named_attribute("subs").unwrap();
    assert_eq!(subs.name(), Some("subs"));
    assert_eq!(subs.value(), "quotes");
    assert_eq!(sp(&mi.after), ("def", 4, 1, 28));
    assert_eq!(mi.item.rendered_content().unwrap(), "a<b>c <strong>bold</strong>");
}
