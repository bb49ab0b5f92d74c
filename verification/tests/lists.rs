use asciidoc_parser::blocks::list_item_marker::{marker_from_captures, term_from_captures};
use asciidoc_parser::blocks::metadata::BlockMetadata;
use asciidoc_parser::blocks::{
    Block, ContentModel, IsBlock, ListBlock, ListItem, ListItemMarker, ListType, SimpleBlockStyle,
};
use asciidoc_parser::span::MatchedItem;
use asciidoc_parser::warnings::Warning;
use asciidoc_parser::{Parser, Span};

fn sp(s: &Span) -> (&str, usize, usize, usize) {
    (s.data(), s.line(), s.col(), s.byte_offset())
}

fn lim_parse(source: &str) -> Option<MatchedItem<ListItemMarker>> {
    ListItemMarker::parse(&Span::new(source))
}

fn list_parse(source: &str) -> Option<MatchedItem<ListBlock>> {
    let mut parser = Parser::default();
    let mut warnings: Vec<Warning> = vec![];
    let r = ListBlock::parse(&BlockMetadata::new(source), &mut parser, &mut warnings);
    assert!(warnings.is_empty());
    r
}

fn li_parse(source: &str) -> Option<MatchedItem<ListItem>> {
    let mut parser = Parser::default();
    let mut warnings: Vec<Warning> = vec![];
    let metadata = BlockMetadata::new(source);
    let r = ListItem::parse(&metadata, &[], &mut parser, &mut warnings);
    assert!(warnings.is_empty());
    r
}

fn check_single_text(blocks: &[Block], text: (&str, usize, usize, usize)) {
    assert_eq!(blocks.len(), 1);
    match &blocks[0] {
        Block::Simple(b) => {
            assert_eq!(sp(b.content().original()), text);
            assert_eq!(b.content().rendered(), text.0);
            assert_eq!(sp(b.span()), text);
            assert_eq!(b.style(), SimpleBlockStyle::Paragraph);
            assert!(b.title().is_none());
            assert!(b.anchor().is_none());
            assert!(b.attrlist().is_none());
        },
        _ => panic!("expected a simple block"),
    }
}

#[test]
fn list_item_marker_hyphen() {
    assert!(lim_parse("-").is_none());
    assert!(lim_parse("-- x").is_none());

    let lim = lim_parse("- blah").unwrap();
    match &lim.item {
        ListItemMarker::Hyphen(s) => assert_eq!(sp(s), ("-", 1, 1, 0)),
        _ => panic!("expected a hyphen marker"),
    }
    assert_eq!(sp(&lim.after), ("blah", 1, 3, 2));
    assert_eq!(sp(lim.item.span()), ("-", 1, 1, 0));
}

#[test]
fn list_item_marker_asterisks() {
    assert!(lim_parse("*").is_none());
    assert!(lim_parse("*- x").is_none());

    let lim = lim_parse("* blah").unwrap();
    match &lim.item {
        ListItemMarker::Asterisks(s) => assert_eq!(sp(s), ("*", 1, 1, 0)),
        _ => panic!("expected an asterisks marker"),
    }
    assert_eq!(sp(&lim.after), ("blah", 1, 3, 2));
    assert_eq!(sp(lim.item.span()), ("*", 1, 1, 0));

    let lim = lim_parse("***** blah").unwrap();
    match &lim.item {
        ListItemMarker::Asterisks(s) => assert_eq!(sp(s), ("*****", 1, 1, 0)),
        _ => panic!("expected an asterisks marker"),
    }
    assert_eq!(sp(&lim.after), ("blah", 1, 7, 6));
    assert_eq!(sp(lim.item.span()), ("*****", 1, 1, 0));
}

#[test]
fn dots() {
    assert!(lim_parse(".").is_none());
    assert!(lim_parse(".- x").is_none());

    let lim = lim_parse(". blah").unwrap();
    match &lim.item {
        ListItemMarker::Dots(s) => assert_eq!(sp(s), (".", 1, 1, 0)),
        _ => panic!("expected a dots marker"),
    }
    assert_eq!(sp(&lim.after), ("blah", 1, 3, 2));
    assert_eq!(sp(lim.item.span()), (".", 1, 1, 0));

    let lim = lim_parse("..... blah").unwrap();
    match &lim.item {
        ListItemMarker::Dots(s) => assert_eq!(sp(s), (".....", 1, 1, 0)),
        _ => panic!("expected a dots marker"),
    }
    assert_eq!(sp(&lim.after), ("blah", 1, 7, 6));
    assert_eq!(sp(lim.item.span()), (".....", 1, 1, 0));
}

#[test]
fn basic_case() {
    assert!(list_parse("-xyz").is_none());
    assert!(list_parse("-- x").is_none());

    let list = list_parse("- blah").unwrap();
    assert_eq!(list.item.type_(), ListType::Unordered);
    assert_eq!(list.item.content_model(), ContentModel::Compound);
    assert_eq!(list.item.raw_context(), "list");
    assert_eq!(sp(list.item.span()), ("- blah", 1, 1, 0));
    assert!(list.item.title().is_none());

    let items = list.item.nested_blocks();
    assert_eq!(items.len(), 1);
    match &items[0] {
        Block::ListItem(li) => {
            match li.list_item_marker() {
                ListItemMarker::Hyphen(s) => assert_eq!(sp(s), ("-", 1, 1, 0)),
                _ => panic!("expected a hyphen marker"),
            }
            assert_eq!(sp(li.span()), ("- blah", 1, 1, 0));
            check_single_text(li.nested_blocks(), ("blah", 1, 3, 2));
        },
        _ => panic!("expected a list item"),
    }
    assert_eq!(sp(&list.after), ("", 1, 7, 6));
}

#[test]
fn list_item_hyphen() {
    assert!(li_parse("-xyz").is_none());
    assert!(li_parse("-- x").is_none());

    let li = li_parse("- blah").unwrap();
    match li.item.list_item_marker() {
        ListItemMarker::Hyphen(s) => assert_eq!(sp(s), ("-", 1, 1, 0)),
        _ => panic!("expected a hyphen marker"),
    }
    check_single_text(li.item.nested_blocks(), ("blah", 1, 3, 2));
    assert_eq!(sp(li.item.span()), ("- blah", 1, 1, 0));
    assert!(li.item.anchor().is_none());
    assert!(li.item.anchor_reftext().is_none());
    assert!(li.item.attrlist().is_none());
    assert_eq!(li.item.content_model(), ContentModel::Compound);
    assert_eq!(li.item.raw_context(), "list_item");
}

#[test]
fn list_item_asterisks() {
    assert!(li_parse("*").is_none());
    assert!(li_parse("*xyz").is_none());
    assert!(li_parse("*- xyz").is_none());

    let li = li_parse("* blah").unwrap();
    match li.item.list_item_marker() {
        ListItemMarker::Asterisks(s) => assert_eq!(sp(s), ("*", 1, 1, 0)),
        _ => panic!("expected an asterisks marker"),
    }
    check_single_text(li.item.nested_blocks(), ("blah", 1, 3, 2));
    assert_eq!(sp(li.item.span()), ("* blah", 1, 1, 0));
}

#[test]
fn marker_kinds() {
    match &lim_parse("\u{2022} item").unwrap().item {
        ListItemMarker::Bullet(s) => assert_eq!(s.data(), "\u{2022}"),
        _ => panic!("expected a bullet marker"),
    }
    match &lim_parse("B. item").unwrap().item {
        ListItemMarker::AlphaListCapital(s) => assert_eq!(s.data(), "B."),
        _ => panic!("expected a capital letter marker"),
    }
    // Numbered, lowercase and roman markers are not supported.
    assert!(lim_parse("1. item").is_none());
    assert!(lim_parse("b. item").is_none());
    assert!(lim_parse("iv) item").is_none());
}

#[test]
fn marker_after_leading_blanks() {
    let lim = lim_parse("  - x").unwrap();
    match &lim.item {
        ListItemMarker::Hyphen(s) => assert_eq!(sp(s), ("-", 1, 3, 2)),
        _ => panic!("expected a hyphen marker"),
    }
    assert_eq!(sp(&lim.after), ("x", 1, 5, 4));
}

#[test]
fn description_list_term() {
    let lim = lim_parse("CPU:: The brain").unwrap();
    match &lim.item {
        ListItemMarker::DefinedTerm { term, marker, source } => {
            assert_eq!(term.rendered(), "CPU");
            assert_eq!(sp(term.original()), ("CPU", 1, 1, 0));
            assert_eq!(sp(marker), ("::", 1, 4, 3));
            assert_eq!(sp(source), ("CPU::", 1, 1, 0));
        },
        _ => panic!("expected a defined term"),
    }
    assert_eq!(sp(&lim.after), ("The brain", 1, 7, 6));

    let lim = lim_parse("Term;;").unwrap();
    match &lim.item {
        ListItemMarker::DefinedTerm { marker, .. } => assert_eq!(marker.data(), ";;"),
        _ => panic!("expected a defined term"),
    }
    assert!(lim_parse("no marker here").is_none());
}

#[test]
fn markers_match_by_kind_and_text() {
    let a = lim_parse("* x").unwrap().item;
    let b = lim_parse("* y").unwrap().item;
    let c = lim_parse("** y").unwrap().item;
    let d = lim_parse("- y").unwrap().item;
    assert!(a.is_match_for(&b));
    assert!(b.is_match_for(&a));
    assert!(!a.is_match_for(&c));
    assert!(!a.is_match_for(&d));
    let e = lim_parse("A. x").unwrap().item;
    let f = lim_parse("C. y").unwrap().item;
    assert!(e.is_match_for(&f));
    let g = lim_parse("One:: x").unwrap().item;
    let h = lim_parse("Two:: y").unwrap().item;
    let i = lim_parse("Three::: y").unwrap().item;
    assert!(g.is_match_for(&h));
    assert!(!g.is_match_for(&i));
}

#[test]
fn starts_with_marker_uses_list_pattern() {
    assert!(ListItemMarker::starts_with_marker(&Span::new("- x")));
    assert!(ListItemMarker::starts_with_marker(&Span::new("1. x")));
    assert!(!ListItemMarker::starts_with_marker(&Span::new("x")));
}

#[test]
fn list_of_several_items() {
    let list = list_parse("* one\n* two\n* three").unwrap();
    assert_eq!(list.item.type_(), ListType::Unordered);
    assert_eq!(list.item.nested_blocks().len(), 3);
    assert_eq!(sp(list.item.span()), ("* one\n* two\n* three", 1, 1, 0));
    assert_eq!(list.after.data(), "");
}

#[test]
fn ordered_and_description_list_types() {
    assert_eq!(list_parse(". one\n. two").unwrap().item.type_(), ListType::Ordered);
    assert_eq!(list_parse("A. one\nB. two").unwrap().item.type_(), ListType::Ordered);
    assert_eq!(list_parse("CPU:: one").unwrap().item.type_(), ListType::Description);
}

#[test]
fn nested_list_in_item() {
    let list = list_parse("* one\n** nested\n* two").unwrap();
    let items = list.item.nested_blocks();
    assert_eq!(items.len(), 2);
    match &items[0] {
        Block::ListItem(li) => {
            let blocks = li.nested_blocks();
            assert_eq!(blocks.len(), 2);
            match &blocks[1] {
                Block::List(nested) => {
                    assert_eq!(nested.nested_blocks().len(), 1);
                },
                _ => panic!("expected a nested list"),
            }
        },
        _ => panic!("expected a list item"),
    }
}

#[test]
fn other_marker_starts_nested_list() {
    let list = list_parse("- one\n* two").unwrap();
    let items = list.item.nested_blocks();
    assert_eq!(items.len(), 1);
    match &items[0] {
        Block::ListItem(li) => assert_eq!(li.nested_blocks().len(), 2),
        _ => panic!("expected a list item"),
    }
    assert_eq!(list.after.data(), "");
}

#[test]
fn list_item_continuation() {
    let li = li_parse("* one\n+\nmore text").unwrap();
    assert_eq!(li.item.nested_blocks().len(), 2);
}

#[test]
fn marker_from_list_pattern_groups() {
    let s = Span::new("* item");
    let caps = vec![Some("* ".to_string()), Some("*".to_string())];
    let mi = marker_from_captures(&s, &caps).unwrap();
    match &mi.item {
        ListItemMarker::Asterisks(m) => assert_eq!(sp(m), ("*", 1, 1, 0)),
        _ => panic!("expected asterisks"),
    }
    assert_eq!(sp(&mi.after), ("item", 1, 3, 2));
    let numbered = vec![Some("1. ".to_string()), Some("1.".to_string())];
    assert!(marker_from_captures(&Span::new("1. item"), &numbered).is_none());
    assert!(marker_from_captures(&s, &vec![Some("* ".to_string())]).is_none());
}

#[test]
fn term_from_description_pattern_groups() {
    let s = Span::new("CPU:: The brain");
    let d = vec![Some("CPU:: ".to_string()), Some("CPU".to_string())];
    let mi = term_from_captures(&s, &d).unwrap();
    match &mi.item {
        ListItemMarker::DefinedTerm { term, marker, source } => {
            assert_eq!(term.original().data(), "CPU");
            assert_eq!(sp(marker), ("::", 1, 4, 3));
            assert_eq!(sp(source), ("CPU::", 1, 1, 0));
        },
        _ => panic!("expected a term"),
    }
    assert_eq!(sp(&mi.after), ("The brain", 1, 7, 6));
    assert!(term_from_captures(&s, &vec![Some("X:: ".to_string()), Some("X".to_string())]).is_none());
}

#[test]
fn list_item_ends_at_peer_marker_past_blank_lines() {
    let li = li_parse("- one\n\n- two").unwrap();
    assert_eq!(li.item.nested_blocks().len(), 1);
    assert_eq!(li.after.data(), "- two");
}

#[test]
fn nested_list_item_ends_after_blank_line() {
    let mut parser = Parser::default();
    let mut warnings: Vec<Warning> = vec![];
    let parents = vec![ListItemMarker::Hyphen(Span::new("-"))];
    let metadata = BlockMetadata::new("* one\n\nnext");
    let li = ListItem::parse(&metadata, &parents, &mut parser, &mut warnings).unwrap();
    assert_eq!(li.item.nested_blocks().len(), 1);
    assert_eq!(li.after.data(), "next");
}

#[test]
fn list_item_fails_at_marker_without_text() {
    assert!(li_parse("- a\n* ").is_none());
    assert!(list_parse("- a\n* ").is_none());
    let mut parser = Parser::default();
    let mi = Block::parse(&Span::new("- a\n* "), &mut parser).item.unwrap();
    assert!(matches!(mi.item, Block::Simple(_)));
    assert_eq!(parser.catalog_len(), 0);
}

#[test]
fn two_hyphen_items_exact() {
    let li = li_parse("- a\n- b").unwrap();
    assert_eq!(sp(li.item.span()), ("- a", 1, 1, 0));
    check_single_text(li.item.nested_blocks(), ("a", 1, 3, 2));
    assert_eq!(sp(&li.after), ("- b", 2, 1, 4));

    let list = list_parse("- a\n- b").unwrap();
    assert_eq!(list.item.type_(), ListType::Unordered);
    assert_eq!(sp(list.item.span()), ("- a\n- b", 1, 1, 0));
    let items = list.item.nested_blocks();
    assert_eq!(items.len(), 2);
    let expected = [(("-", 1, 1, 0), ("- a", 1, 1, 0), ("a", 1, 3, 2)), (("-", 2, 1, 4), ("- b", 2, 1, 4), ("b", 2, 3, 6))];
    for (block, (marker, span, text)) in items.iter().zip(expected.iter()) {
        match block {
            Block::ListItem(li) => {
                match li.list_item_marker() {
                    ListItemMarker::Hyphen(s) => assert_eq!(sp(s), *marker),
                    _ => panic!("expected a hyphen marker"),
                }
                assert_eq!(sp(li.span()), *span);
                check_single_text(li.nested_blocks(), *text);
            },
            _ => panic!("expected a list item"),
        }
    }
    assert_eq!(sp(&list.after), ("", 2, 4, 7));
}

#[test]
fn bare_marker_after_list_does_not_affect_it() {
    let list = list_parse("- a\n- b\n\nText\n\n- ").unwrap();
    assert_eq!(list.item.nested_blocks().len(), 2);

    let mut parser = Parser::default();
    let mi = Block::parse(&Span::new("- a\n- b\n\nText\n\n- "), &mut parser).item.unwrap();
    match &mi.item {
        Block::List(l) => assert_eq!(l.nested_blocks().len(), 2),
        _ => panic!("expected a list"),
    }
}
