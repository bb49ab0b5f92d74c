use asciidoc_parser::blocks::{Block, ContentModel, IsBlock, ListItemMarker, ListType, Preamble};
use asciidoc_parser::content::SubstitutionGroup;
use asciidoc_parser::span::MatchedItem;
use asciidoc_parser::warnings::WarningType;
use asciidoc_parser::{Parser, Span};

fn parse(src: &str) -> MatchedItem<Block> {
    let mut parser = Parser::default();
    let maw = Block::parse(&Span::new(src), &mut parser);
    maw.item.unwrap()
}

#[test]
fn paragraph_takes_fast_path() {
    let mi = parse("Just some text\nover two lines\n\nnext");
    assert!(matches!(mi.item, Block::Simple(_)));
    assert_eq!(mi.item.raw_context(), "paragraph");
    assert_eq!(mi.item.rendered_content(), Some("Just some text\nover two lines"));
    assert_eq!(mi.after.data(), "next");
}

#[test]
fn delimited_blocks_by_delimiter() {
    let mi = parse("----\ncode\n----\n");
    match &mi.item {
        Block::RawDelimited(b) => assert_eq!(b.content().rendered(), "code"),
        _ => panic!("expected a raw block"),
    }
    let mi = parse("====\ninside\n====");
    assert!(matches!(mi.item, Block::CompoundDelimited(_)));
    assert_eq!(mi.item.nested_blocks().len(), 1);
}

#[test]
fn literal_style_turns_delimiter_into_paragraph() {
    let mi = parse("[literal]\n----\nabc");
    match &mi.item {
        Block::Simple(b) => assert_eq!(b.content().rendered(), "----\nabc"),
        _ => panic!("expected a simple block"),
    }
}

#[test]
fn media_section_break_and_list() {
    assert!(matches!(parse("image::a.png[]").item, Block::Media(_)));
    assert!(matches!(parse("audio::a.mp3[]").item, Block::Media(_)));
    assert!(matches!(parse("== Title").item, Block::Section(_)));
    assert!(matches!(parse("'''").item, Block::Break(_)));
    let mi = parse("* one\n* two");
    match &mi.item {
        Block::List(l) => {
            assert_eq!(l.type_(), ListType::Unordered);
            assert_eq!(l.nested_blocks().len(), 2);
        },
        _ => panic!("expected a list"),
    }
}

#[test]
fn metadata_without_block_warns() {
    let mut parser = Parser::default();
    let maw = Block::parse(&Span::new(".Title only"), &mut parser);
    let mi = maw.item.unwrap();
    match &mi.item {
        Block::Simple(b) => assert_eq!(b.content().rendered(), ".Title only"),
        _ => panic!("expected a simple block"),
    }
    assert_eq!(maw.warnings.len(), 1);
    assert_eq!(maw.warnings[0].warning, WarningType::MissingBlockAfterTitleOrAttributeList);
}

#[test]
fn duplicate_block_anchor_warns() {
    let mut parser = Parser::default();
    let first = Block::parse(&Span::new("[[x]]\nabc\n\n[[x]]\ndef"), &mut parser);
    assert!(first.warnings.is_empty());
    let after = first.item.unwrap().after;
    let second = Block::parse(&after, &mut parser);
    assert_eq!(second.warnings.len(), 1);
    assert_eq!(second.warnings[0].warning, WarningType::DuplicateId("x".to_owned()));
    assert!(parser.has_ref("x"));
}

#[test]
fn blank_input_has_no_block() {
    let mut parser = Parser::default();
    let maw = Block::parse(&Span::new("\n\n   \n"), &mut parser);
    assert!(maw.item.is_none());
}

#[test]
fn resolved_context_uses_built_in_style() {
    let mi = parse("[sidebar]\nSome text");
    assert_eq!(mi.item.declared_style(), Some("sidebar"));
    assert_eq!(mi.item.resolved_context(), "sidebar");
    let mi = parse("[unknown]\nSome text");
    assert_eq!(mi.item.resolved_context(), "paragraph");
}

#[test]
fn preamble_from_blocks() {
    let source = Span::new("Some early words go here.\n\n== First Section");
    let mut parser = Parser::default();
    let first = Block::parse(&source, &mut parser).item.unwrap();
    let preamble = Preamble::from_blocks(vec![first.item], &source);
    assert_eq!(preamble.span().data(), "Some early words go here.");
    assert_eq!(preamble.content_model(), ContentModel::Compound);
    assert_eq!(preamble.raw_context(), "preamble");
    assert_eq!(preamble.nested_blocks().len(), 1);
    assert!(preamble.title().is_none());
    assert!(preamble.attrlist().is_none());
    assert_eq!(preamble.substitution_group(), SubstitutionGroup::Normal);

    let empty = Preamble::from_blocks(vec![], &source);
    assert_eq!(empty.span().data(), "");
}

#[test]
fn warnings_come_in_reading_order() {
    let mut parser = Parser::default();
    let src = "[[a]]\n[alt=Sunset,,width=300]\n----\ncode";
    let first = Block::parse(&Span::new(src), &mut parser);
    assert!(matches!(first.item.as_ref().unwrap().item, Block::RawDelimited(_)));
    let kinds: Vec<WarningType> = first.warnings.iter().map(|w| w.warning.clone()).collect();
    assert_eq!(kinds, vec![WarningType::EmptyAttributeValue, WarningType::UnterminatedDelimitedBlock]);
    assert!(parser.has_ref("a"));

    let second = Block::parse(&Span::new(src), &mut parser);
    let kinds: Vec<WarningType> = second.warnings.iter().map(|w| w.warning.clone()).collect();
    assert_eq!(
        kinds,
        vec![
            WarningType::EmptyAttributeValue,
            WarningType::UnterminatedDelimitedBlock,
            WarningType::DuplicateId("a".to_string()),
        ]
    );
    assert_eq!(second.warnings[2].source.data(), src);
}

#[test]
fn blank_lines_after_delimited_blocks_are_consumed() {
    let mi = parse("----\nx\n----\n\n\nnext");
    assert!(matches!(mi.item, Block::RawDelimited(_)));
    assert_eq!(mi.after.data(), "next");
    let mi = parse("====\nx\n====\n\n\nnext");
    assert!(matches!(mi.item, Block::CompoundDelimited(_)));
    assert_eq!(mi.after.data(), "next");
}

#[test]
fn unknown_break_pattern_is_paragraph_without_warnings() {
    let mut parser = Parser::default();
    let maw = Block::parse(&Span::new("==="), &mut parser);
    assert!(maw.warnings.is_empty());
    let mi = maw.item.unwrap();
    match &mi.item {
        Block::Simple(b) => {
            assert_eq!(b.content().original().data(), "===");
            assert_eq!(b.content().rendered(), "===");
            assert!(b.title().is_none());
        },
        _ => panic!("expected a simple block"),
    }
    assert_eq!(mi.after.data(), "");
    assert_eq!(mi.after.byte_offset(), 3);
}

#[test]
fn title_only_warns_at_metadata_source() {
    let mut parser = Parser::default();
    let maw = Block::parse(&Span::new(".Title only"), &mut parser);
    assert_eq!(maw.warnings.len(), 1);
    assert_eq!(maw.warnings[0].source.data(), ".Title only");
    let mi = maw.item.unwrap();
    match &mi.item {
        Block::Simple(b) => {
            assert_eq!(b.content().original().data(), ".Title only");
            assert!(b.title().is_none());
            assert!(b.title_source().is_none());
        },
        _ => panic!("expected a simple block"),
    }
    assert!(mi.after.is_empty());
}

#[test]
fn section_title_ends_list_item_without_side_effects() {
    let mut parser = Parser::default();
    let parents = vec![ListItemMarker::Hyphen(Span::new("-"))];
    let before = parser.catalog_len();
    let maw = Block::parse_for_list_item(&Span::new("== Section"), &mut parser, &parents);
    assert!(maw.item.is_none());
    assert!(maw.warnings.is_empty());
    assert_eq!(parser.catalog_len(), before);
    assert!(!parser.has_ref("_section"));
}

#[test]
fn parent_marker_and_line_comment_end_list_item() {
    let mut parser = Parser::default();
    let parents = vec![ListItemMarker::Hyphen(Span::new("-"))];
    let maw = Block::parse_for_list_item(&Span::new("- next item"), &mut parser, &parents);
    assert!(maw.item.is_none());
    assert!(maw.warnings.is_empty());
    let maw = Block::parse_for_list_item(&Span::new("// a comment"), &mut parser, &parents);
    assert!(maw.item.is_none());
    let maw = Block::parse_for_list_item(&Span::new("* nested"), &mut parser, &parents);
    assert!(matches!(maw.item.unwrap().item, Block::List(_)));
    let maw = Block::parse_for_list_item(&Span::new("more text"), &mut parser, &parents);
    assert!(matches!(maw.item.unwrap().item, Block::Simple(_)));
}

#[test]
fn compound_block_id_is_registered_after_its_blocks() {
    let mut parser = Parser::default();
    let maw = Block::parse(&Span::new("[[x]]\n====\n[[x]]\nabc\n===="), &mut parser);
    let kinds: Vec<WarningType> = maw.warnings.iter().map(|w| w.warning.clone()).collect();
    assert_eq!(kinds, vec![WarningType::DuplicateId("x".to_string())]);
    assert_eq!(maw.warnings[0].source.data(), "[[x]]\n====\n[[x]]\nabc\n====");
    assert!(matches!(maw.item.unwrap().item, Block::CompoundDelimited(_)));
}

#[test]
fn unterminated_compound_block_warns_once() {
    let mut parser = Parser::default();
    let maw = Block::parse(&Span::new("====\nfoo"), &mut parser);
    assert_eq!(maw.warnings.len(), 1);
    assert_eq!(maw.warnings[0].warning, WarningType::UnterminatedDelimitedBlock);
    assert_eq!(maw.warnings[0].source.data(), "====");
}

#[test]
fn blank_lines_before_block_are_not_part_of_it() {
    let mi = parse("\n  \nabc\n\n");
    assert_eq!(mi.item.span().data(), "abc");
    assert_eq!(mi.item.span().byte_offset(), 4);
    assert_eq!(mi.item.span().line(), 3);
    assert_eq!(mi.after.data(), "");

    let mi = parse("\n\n.Title\n----\nx\n----");
    assert_eq!(mi.item.span().byte_offset(), 2);
    assert_eq!(mi.item.span().data(), ".Title\n----\nx\n----");

    let mi = parse("\n\n* one\n* two");
    assert_eq!(mi.item.span().byte_offset(), 2);
    assert_eq!(mi.item.span().data(), "* one\n* two");
}

#[test]
fn form_feed_line_before_block_is_blank() {
    let mi = parse("\x0C\nabc");
    assert_eq!(mi.item.span().data(), "abc");
    assert_eq!(mi.item.span().byte_offset(), 2);
}
