use asciidoc_parser::blocks::metadata::BlockMetadata;
use asciidoc_parser::blocks::{
    Block, BreakType, CompoundDelimitedBlock, ContentModel, IsBlock, RawDelimitedBlock,
};
use asciidoc_parser::content::{SubstitutionGroup, SubstitutionStep};
use asciidoc_parser::span::MatchedItem;
use asciidoc_parser::warnings::{Warning, WarningType};
use asciidoc_parser::{Parser, Span};

fn sp(s: &Span) -> (&str, usize, usize, usize) {
    (s.data(), s.line(), s.col(), s.byte_offset())
}

fn raw(s: &str) -> (MatchedItem<RawDelimitedBlock>, Vec<Warning>) {
    let mut parser = Parser::default();
    let maw = RawDelimitedBlock::parse(&BlockMetadata::new(s), &mut parser).unwrap();
    (maw.item.unwrap(), maw.warnings)
}

fn compound(s: &str) -> (MatchedItem<CompoundDelimitedBlock>, Vec<Warning>) {
    let mut parser = Parser::default();
    let maw = CompoundDelimitedBlock::parse(&BlockMetadata::new(s), &mut parser).unwrap();
    (maw.item.unwrap(), maw.warnings)
}

fn raw_parse_is_none(s: &str) -> bool {
    let mut parser = Parser::default();
    RawDelimitedBlock::parse(&BlockMetadata::new(s), &mut parser).is_none()
}

fn compound_parse_is_none(s: &str) -> bool {
    let mut parser = Parser::default();
    CompoundDelimitedBlock::parse(&BlockMetadata::new(s), &mut parser).is_none()
}

fn check_raw(
    src: &str,
    content: (&str, usize, usize, usize),
    model: ContentModel,
    context: &str,
    group: SubstitutionGroup,
) {
    let (mi, warnings) = raw(src);
    assert!(warnings.is_empty());
    assert_eq!(sp(mi.item.content().original()), content);
    assert_eq!(mi.item.content().rendered(), content.0);
    assert_eq!(mi.item.rendered_content().unwrap(), content.0);
    assert_eq!(mi.item.content_model(), model);
    assert_eq!(mi.item.raw_context(), context);
    assert_eq!(mi.item.resolved_context(), context);
    assert_eq!(sp(mi.item.span()), (src, 1, 1, 0));
    assert!(mi.item.declared_style().is_none());
    assert!(mi.item.id().is_none());
    assert!(mi.item.roles().is_empty());
    assert!(mi.item.options().is_empty());
    assert!(mi.item.title_source().is_none());
    assert!(mi.item.title().is_none());
    assert!(mi.item.anchor().is_none());
    assert!(mi.item.anchor_reftext().is_none());
    assert!(mi.item.attrlist().is_none());
    assert_eq!(mi.item.substitution_group(), group);
}

fn simple_text(b: &Block) -> (&str, usize, usize, usize) {
    match b {
        Block::Simple(s) => {
            assert_eq!(s.content().rendered(), s.content().original().data());
            sp(s.span())
        },
        _ => panic!("expected a simple block"),
    }
}

fn check_compound_empty(src: &str, context: &str) {
    let (mi, warnings) = compound(src);
    assert!(warnings.is_empty());
    assert_eq!(sp(mi.item.span()), (src, 1, 1, 0));
    assert_eq!(mi.item.content_model(), ContentModel::Compound);
    assert!(mi.item.rendered_content().is_none());
    assert_eq!(mi.item.raw_context(), context);
    assert_eq!(mi.item.resolved_context(), context);
    assert!(mi.item.nested_blocks().is_empty());
    assert!(mi.item.title_source().is_none());
    assert!(mi.item.title().is_none());
    assert_eq!(mi.item.substitution_group(), SubstitutionGroup::Normal);
}

fn check_compound_two_blocks(src: &str, context: &str) {
    let (mi, warnings) = compound(src);
    assert!(warnings.is_empty());
    assert_eq!(sp(mi.item.span()), (src, 1, 1, 0));
    assert_eq!(mi.item.raw_context(), context);
    let blocks = mi.item.nested_blocks();
    assert_eq!(blocks.len(), 2);
    assert_eq!(simple_text(&blocks[0]), ("block1", 2, 1, src.find('\n').unwrap() + 1));
    assert_eq!(simple_text(&blocks[1]).0, "block2");
    assert_eq!(simple_text(&blocks[1]).1, 4);
}

#[test]
fn raw_delimited_err_unterminated() {
    let (mi, warnings) = raw("....\nblah blah blah");
    assert_eq!(warnings.len(), 1);
    assert_eq!(sp(&warnings[0].source), ("....", 1, 1, 0));
    assert_eq!(warnings[0].warning, WarningType::UnterminatedDelimitedBlock);
    assert_eq!(mi.item.content().rendered(), "blah blah blah");
    assert_eq!(mi.after.data(), "");
}

#[test]
fn raw_delimited_empty() {
    assert!(raw_parse_is_none("====\n===="));
    assert!(raw_parse_is_none("****\n****"));
    assert!(raw_parse_is_none("|===\n|==="));
    assert!(raw_parse_is_none(",===\n,==="));
    assert!(raw_parse_is_none(":===\n:==="));
    assert!(raw_parse_is_none("!===\n!==="));
    assert!(raw_parse_is_none("____\n____"));

    check_raw("////\n////", ("", 2, 1, 5), ContentModel::Raw, "comment", SubstitutionGroup::NoSubstitutions);
    let (mi, _) = raw("////\n////");
    assert!(mi.item.content().is_empty());
    check_raw("----\n----", ("", 2, 1, 5), ContentModel::Verbatim, "listing", SubstitutionGroup::Verbatim);
    check_raw("++++\n++++", ("", 2, 1, 5), ContentModel::Raw, "pass", SubstitutionGroup::Pass);
}

#[test]
fn raw_delimited_multiple_lines() {
    assert!(raw_parse_is_none("====\nline1  \nline2\n===="));
    assert!(raw_parse_is_none("****\nline1  \nline2\n****"));
    assert!(raw_parse_is_none("|===\nline1  \nline2\n|==="));
    assert!(raw_parse_is_none(",===\nline1  \nline2\n,==="));
    assert!(raw_parse_is_none(":===\nline1  \nline2\n:==="));
    assert!(raw_parse_is_none("!===\nline1  \nline2\n!==="));
    assert!(raw_parse_is_none("____\nline1  \nline2\n____"));

    check_raw(
        "////\nline1  \nline2\n////",
        ("line1  \nline2", 2, 1, 5),
        ContentModel::Raw,
        "comment",
        SubstitutionGroup::NoSubstitutions,
    );
    check_raw(
        "----\nline1  \nline2\n----",
        ("line1  \nline2", 2, 1, 5),
        ContentModel::Verbatim,
        "listing",
        SubstitutionGroup::Verbatim,
    );
    check_raw(
        "++++\nline1  \nline2\n++++",
        ("line1  \nline2", 2, 1, 5),
        ContentModel::Raw,
        "pass",
        SubstitutionGroup::Pass,
    );
}

#[test]
fn raw_delimited_ignores_delimiter_prefix() {
    check_raw(
        "////\nline1  \n/////\nline2\n////",
        ("line1  \n/////\nline2", 2, 1, 5),
        ContentModel::Raw,
        "comment",
        SubstitutionGroup::NoSubstitutions,
    );
    check_raw(
        "----\nline1  \n-----\nline2\n----",
        ("line1  \n-----\nline2", 2, 1, 5),
        ContentModel::Verbatim,
        "listing",
        SubstitutionGroup::Verbatim,
    );
    check_raw(
        "++++\nline1  \n+++++\nline2\n++++",
        ("line1  \n+++++\nline2", 2, 1, 5),
        ContentModel::Raw,
        "pass",
        SubstitutionGroup::Pass,
    );
}

#[test]
fn raw_listing_escapes_special_characters() {
    let (mi, _) = raw("----\na < b & c\n----");
    assert_eq!(mi.item.content().rendered(), "a &lt; b &amp; c");
    let (mi, _) = raw("++++\na < b\n++++");
    assert_eq!(mi.item.content().rendered(), "a < b");
}

#[test]
fn raw_subs_attribute_overrides_group() {
    let (mi, _) = raw("[subs=none]\n----\na < b\n----");
    assert_eq!(mi.item.substitution_group(), SubstitutionGroup::NoSubstitutions);
    assert_eq!(mi.item.content().rendered(), "a < b");
    let (mi, _) = raw("[subs=normal]\n....\n{sp}<\n....");
    assert_eq!(mi.item.substitution_group(), SubstitutionGroup::Normal);
    assert_eq!(mi.item.content().rendered(), " &lt;");
}

#[test]
fn compound_delimited_err_unterminated() {
    let (mi, warnings) = compound("====\nblah blah blah");
    assert_eq!(warnings.len(), 1);
    assert_eq!(sp(&warnings[0].source), ("====", 1, 1, 0));
    assert_eq!(warnings[0].warning, WarningType::UnterminatedDelimitedBlock);
    assert_eq!(mi.item.raw_context(), "example");
    assert_eq!(sp(mi.item.span()), ("====\nblah blah blah", 1, 1, 0));
    let blocks = mi.item.nested_blocks();
    assert_eq!(blocks.len(), 1);
    assert_eq!(simple_text(&blocks[0]), ("blah blah blah", 2, 1, 5));
}

#[test]
fn compound_delimited_empty() {
    assert!(compound_parse_is_none("////\n////"));
    assert!(compound_parse_is_none("----\n----"));
    assert!(compound_parse_is_none("....\n...."));
    assert!(compound_parse_is_none("|===\n|==="));
    assert!(compound_parse_is_none(",===\n,==="));
    assert!(compound_parse_is_none(":===\n:==="));
    assert!(compound_parse_is_none("!===\n!==="));
    assert!(compound_parse_is_none("++++\n++++"));

    check_compound_empty("====\n====", "example");
    check_compound_empty("--\n--", "open");
    check_compound_empty("****\n****", "sidebar");
    check_compound_empty("____\n____", "quote");
}

#[test]
fn compound_delimited_multiple_lines() {
    assert!(compound_parse_is_none("////\nline1  \nline2\n////"));
    assert!(compound_parse_is_none("----\nline1  \nline2\n----"));
    assert!(compound_parse_is_none("....\nline1  \nline2\n...."));
    assert!(compound_parse_is_none("|===\nline1  \nline2\n|==="));
    assert!(compound_parse_is_none(",===\nline1  \nline2\n,==="));
    assert!(compound_parse_is_none(":===\nline1  \nline2\n:==="));
    assert!(compound_parse_is_none("!===\nline1  \nline2\n!==="));
    assert!(compound_parse_is_none("++++\nline1  \nline2\n++++"));
}

#[test]
fn compound_delimited_multiple_blocks() {
    check_compound_two_blocks("====\nblock1\n\nblock2\n====", "example");
    check_compound_two_blocks("--\nblock1\n\nblock2\n--", "open");
    check_compound_two_blocks("****\nblock1\n\nblock2\n****", "sidebar");
    check_compound_two_blocks("____\nblock1\n\nblock2\n____", "quote");
    let (mi, _) = compound("====\nblock1\n\nblock2\n====");
    let blocks = mi.item.nested_blocks();
    assert_eq!(simple_text(&blocks[0]), ("block1", 2, 1, 5));
    assert_eq!(simple_text(&blocks[1]), ("block2", 4, 1, 13));
}

#[test]
fn compound_delimited_nested_blocks() {
    for (src, context, inner) in [
        ("====\nblock1\n\n=====\nblock2\n=====\n====", "example", "example"),
        ("****\nblock1\n\n*****\nblock2\n*****\n****", "sidebar", "sidebar"),
        ("____\nblock1\n\n_____\nblock2\n_____\n____", "quote", "quote"),
    ] {
        let (mi, warnings) = compound(src);
        assert!(warnings.is_empty());
        assert_eq!(mi.item.raw_context(), context);
        let blocks = mi.item.nested_blocks();
        assert_eq!(blocks.len(), 2);
        assert_eq!(simple_text(&blocks[0]).0, "block1");
        match &blocks[1] {
            Block::CompoundDelimited(c) => {
                assert_eq!(c.raw_context(), inner);
                assert_eq!(c.nested_blocks().len(), 1);
                assert_eq!(simple_text(&c.nested_blocks()[0]).0, "block2");
            },
            _ => panic!("expected a nested compound block"),
        }
    }

    let (mi, _) = compound("--\nblock1\n\n---\nblock2\n---\n--");
    assert_eq!(mi.item.raw_context(), "open");
    let blocks = mi.item.nested_blocks();
    assert_eq!(blocks.len(), 3);
    assert_eq!(simple_text(&blocks[0]).0, "block1");
    match &blocks[1] {
        Block::Break(b) => {
            assert_eq!(b.type_(), BreakType::Thematic);
            assert_eq!(b.span().data(), "---");
        },
        _ => panic!("expected a break"),
    }
    assert_eq!(simple_text(&blocks[2]).0, "block2\n---");
}

#[test]
fn raw_delimited_overrides_sub_group_via_subs_attribute() {
    let (mi, warnings) = raw("[subs=quotes]\n----\nline1 < *line2*\n----");
    assert!(warnings.is_empty());
    assert_eq!(mi.item.content_model(), ContentModel::Verbatim);
    assert_eq!(mi.item.raw_context(), "listing");
    assert_eq!(mi.item.resolved_context(), "listing");
    assert!(mi.item.declared_style().is_none());
    assert!(mi.item.id().is_none());
    assert!(mi.item.roles().is_empty());
    assert!(mi.item.options().is_empty());
    assert!(mi.item.title_source().is_none());
    assert!(mi.item.title().is_none());
    assert!(mi.item.anchor().is_none());
    assert!(mi.item.anchor_reftext().is_none());
    let al = mi.item.attrlist().unwrap();
    assert_eq!(sp(al.span()), ("subs=quotes", 1, 2, 1));
    let subs = al.named_attribute("subs").unwrap();
    assert_eq!(subs.name(), Some("subs"));
    assert_eq!(subs.value(), "quotes");
    assert_eq!(sp(mi.item.span()), ("[subs=quotes]\n----\nline1 < *line2*\n----", 1, 1, 0));
    assert_eq!(sp(mi.item.content().original()), ("line1 < *line2*", 3, 1, 19));
    assert_eq!(mi.item.content().rendered(), "line1 < <strong>line2</strong>");
    assert_eq!(mi.item.substitution_group(), SubstitutionGroup::Custom(vec![SubstitutionStep::Quotes]));
}

#[test]
fn subs_lists_of_steps() {
    let (mi, _) = raw("[subs=\"attributes,quotes\"]\n----\n*{x}* < y\n----");
    assert_eq!(
        mi.item.substitution_group(),
        SubstitutionGroup::Custom(vec![SubstitutionStep::AttributeReferences, SubstitutionStep::Quotes])
    );
    assert_eq!(mi.item.content().rendered(), "<strong>{x}</strong> < y");
    let (mi, _) = raw("[subs=\"quotes,specialchars\"]\n----\n*a* < b\n----");
    assert_eq!(mi.item.content().rendered(), "&lt;strong&gt;a&lt;/strong&gt; &lt; b");
    let (mi, _) = raw("[subs=\"quotes,bogus\"]\n----\n*a* < b\n----");
    assert_eq!(mi.item.substitution_group(), SubstitutionGroup::Verbatim);
    assert_eq!(mi.item.content().rendered(), "*a* &lt; b");
}
