use asciidoc_parser::blocks::section_title::section_id_from_cleaned;
use asciidoc_parser::blocks::metadata::BlockMetadata;
use asciidoc_parser::blocks::{Block, ContentModel, IsBlock, MediaType, SectionBlock, SectionNumber};
use asciidoc_parser::span::MatchedItem;
use asciidoc_parser::warnings::{Warning, WarningType};
use asciidoc_parser::{Parser, Span};
use asciidoc_parser::parser::RefType;

fn sp(s: &Span) -> (&str, usize, usize, usize) {
    (s.data(), s.line(), s.col(), s.byte_offset())
}

fn section(src: &str) -> (Option<MatchedItem<SectionBlock>>, Vec<Warning>) {
    let mut parser = Parser::default();
    let mut warnings: Vec<Warning> = vec![];
    let r = SectionBlock::parse(&BlockMetadata::new(src), &mut parser, &mut warnings);
    (r, warnings)
}

fn section_ok(src: &str) -> MatchedItem<SectionBlock> {
    let (r, warnings) = section(src);
    assert!(warnings.is_empty());
    r.unwrap()
}

fn text_of(b: &Block) -> &str {
    match b {
        Block::Simple(s) => s.content().rendered(),
        _ => panic!("expected a simple block"),
    }
}

/// The first section of a document read with `parser` (whose attributes
/// stand for the document's attribute entries).
fn first_section_id(parser: &mut Parser, src: &str) -> Option<String> {
    let maw = Block::parse(&Span::new(src), parser);
    match maw.item.unwrap().item {
        Block::Section(s) => s.id().map(|x| x.to_owned()),
        _ => panic!("expected a section block"),
    }
}

fn section_id_with(attrs: &[(&str, Option<&str>)], src: &str) -> Option<String> {
    let mut parser = Parser::default();
    for (name, value) in attrs {
        parser.set_attribute(name, *value);
    }
    first_section_id(&mut parser, src)
}

#[test]
fn section_impl_clone() {
    let a = section_ok("== Section Title");
    let b = section_ok("== Section Title");
    assert_eq!(a.item.section_title(), b.item.section_title());
}

#[test]
fn section_simplest_section_block() {
    for (src, title_col) in [("== Section Title", 4), ("## Section Title", 4)] {
        let mi = section_ok(src);
        assert_eq!(mi.item.content_model(), ContentModel::Compound);
        assert_eq!(mi.item.raw_context(), "section");
        assert_eq!(mi.item.resolved_context(), "section");
        assert_eq!(mi.item.id().unwrap(), "_section_title");
        assert_eq!(mi.item.level(), 1);
        assert_eq!(sp(mi.item.section_title_source()), ("Section Title", 1, title_col, 3));
        assert_eq!(mi.item.section_title(), "Section Title");
        assert!(mi.item.nested_blocks().is_empty());
        assert_eq!(sp(mi.item.span()), (src, 1, 1, 0));
        assert_eq!(mi.item.section_id(), Some("_section_title"));
        assert!(mi.item.section_number().is_none());
        assert_eq!(sp(&mi.after), ("", 1, 17, 16));
    }
}

#[test]
fn section_has_child_block() {
    for src in ["== Section Title\n\nabc", "## Section Title\n\nabc"] {
        let mi = section_ok(src);
        assert_eq!(mi.item.id().unwrap(), "_section_title");
        assert_eq!(mi.item.level(), 1);
        let blocks = mi.item.nested_blocks();
        assert_eq!(blocks.len(), 1);
        assert_eq!(text_of(&blocks[0]), "abc");
        assert_eq!(sp(blocks[0].span()), ("abc", 3, 1, 18));
        assert_eq!(sp(mi.item.span()), (src, 1, 1, 0));
        assert_eq!(sp(&mi.after), ("", 3, 4, 21));
    }
}

#[test]
fn section_has_macro_block_with_extra_blank_line() {
    for src in [
        "== Section Title\n\nimage::bar[alt=Sunset,width=300,height=400]\n\n",
        "## Section Title\n\nimage::bar[alt=Sunset,width=300,height=400]\n\n",
    ] {
        let mi = section_ok(src);
        let blocks = mi.item.nested_blocks();
        assert_eq!(blocks.len(), 1);
        match &blocks[0] {
            Block::Media(m) => {
                assert_eq!(m.type_(), MediaType::Image);
                assert_eq!(m.target().unwrap().data(), "bar");
                let al = m.macro_attrlist();
                assert_eq!(al.attributes().len(), 3);
                assert_eq!(al.attributes()[0].name(), Some("alt"));
                assert_eq!(al.attributes()[0].value(), "Sunset");
                assert_eq!(al.attributes()[1].name(), Some("width"));
                assert_eq!(al.attributes()[1].value(), "300");
                assert_eq!(al.attributes()[2].name(), Some("height"));
                assert_eq!(al.attributes()[2].value(), "400");
                assert_eq!(al.span().data(), "alt=Sunset,width=300,height=400");
                assert_eq!(m.span().data(), "image::bar[alt=Sunset,width=300,height=400]");
            },
            _ => panic!("expected a media block"),
        }
        assert_eq!(
            mi.item.span().data(),
            &src[..src.len() - 2]
        );
        assert_eq!(mi.after.data(), "");
    }
}

#[test]
fn section_has_child_block_with_errors() {
    for src in [
        "== Section Title\n\nimage::bar[alt=Sunset,width=300,,height=400]",
        "## Section Title\n\nimage::bar[alt=Sunset,width=300,,height=400]",
    ] {
        let (r, warnings) = section(src);
        let mi = r.unwrap();
        assert_eq!(mi.item.id().unwrap(), "_section_title");
        match &mi.item.nested_blocks()[0] {
            Block::Media(m) => {
                let al = m.macro_attrlist();
                assert_eq!(al.attributes().len(), 3);
                assert_eq!(al.attributes()[2].name(), Some("height"));
                assert_eq!(al.attributes()[2].value(), "400");
            },
            _ => panic!("expected a media block"),
        }
        assert_eq!(warnings.len(), 1);
        assert_eq!(warnings[0].source.data(), "alt=Sunset,width=300,,height=400");
        assert_eq!(warnings[0].warning, WarningType::EmptyAttributeValue);
    }
}

#[test]
fn section_dont_stop_at_child_section() {
    for (src, child) in [
        ("== Section Title\n\nabc\n\n=== Section 2\n\ndef", "=== Section 2\n\ndef"),
        ("## Section Title\n\nabc\n\n### Section 2\n\ndef", "### Section 2\n\ndef"),
    ] {
        let mi = section_ok(src);
        assert_eq!(mi.item.level(), 1);
        let blocks = mi.item.nested_blocks();
        assert_eq!(blocks.len(), 2);
        assert_eq!(text_of(&blocks[0]), "abc");
        match &blocks[1] {
            Block::Section(s) => {
                assert_eq!(s.level(), 2);
                assert_eq!(s.section_title(), "Section 2");
                assert_eq!(s.span().data(), child);
                assert_eq!(s.section_id(), Some("_section_2"));
                assert_eq!(text_of(&s.nested_blocks()[0]), "def");
            },
            _ => panic!("expected a section"),
        }
        assert_eq!(mi.item.span().data(), src);
        assert_eq!(mi.after.data(), "");
    }
}

#[test]
fn section_stop_at_peer_section() {
    for (src, body, rest) in [
        ("== Section Title\n\nabc\n\n== Section 2\n\ndef", "== Section Title\n\nabc", "== Section 2\n\ndef"),
        ("## Section Title\n\nabc\n\n## Section 2\n\ndef", "## Section Title\n\nabc", "## Section 2\n\ndef"),
    ] {
        let mi = section_ok(src);
        assert_eq!(mi.item.level(), 1);
        assert_eq!(mi.item.nested_blocks().len(), 1);
        assert_eq!(mi.item.span().data(), body);
        assert_eq!(mi.after.data(), rest);
        assert_eq!(mi.after.line(), 5);
    }
}

#[test]
fn section_stop_at_ancestor_section() {
    for (src, body, rest) in [
        ("=== Section Title\n\nabc\n\n== Section 2\n\ndef", "=== Section Title\n\nabc", "== Section 2\n\ndef"),
        ("### Section Title\n\nabc\n\n## Section 2\n\ndef", "### Section Title\n\nabc", "## Section 2\n\ndef"),
    ] {
        let mi = section_ok(src);
        assert_eq!(mi.item.level(), 2);
        assert_eq!(mi.item.id().unwrap(), "_section_title");
        assert_eq!(mi.item.nested_blocks().len(), 1);
        assert_eq!(mi.item.span().data(), body);
        assert_eq!(mi.after.data(), rest);
    }
}

#[test]
fn section_section_title_with_special_chars() {
    for src in [
        "== Section with <brackets> & ampersands",
        "## Section with <brackets> & ampersands",
    ] {
        let mi = section_ok(src);
        assert_eq!(mi.item.section_title_source().data(), "Section with <brackets> & ampersands");
        assert_eq!(mi.item.section_title(), "Section with &lt;brackets&gt; &amp; ampersands");
        assert_eq!(mi.item.id().unwrap(), "_section_with_ampersands");
    }
}

#[test]
fn section_err_level_0_section_heading() {
    for src in ["= Document Title", "# Document Title"] {
        let (r, warnings) = section(src);
        assert!(r.is_none());
        assert_eq!(warnings.len(), 1);
        assert_eq!(sp(&warnings[0].source), (src, 1, 1, 0));
        assert_eq!(warnings[0].warning, WarningType::Level0SectionHeadingNotSupported);
    }
}

#[test]
fn section_err_section_heading_level_exceeds_maximum() {
    for src in ["======= Level 6 Section", "####### Level 6 Section"] {
        let (r, warnings) = section(src);
        assert!(r.is_none());
        assert_eq!(warnings.len(), 1);
        assert_eq!(sp(&warnings[0].source), (src, 1, 1, 0));
        assert_eq!(warnings[0].warning, WarningType::SectionHeadingLevelExceedsMaximum(6));
    }
}

#[test]
fn section_valid_maximum_level_5_section() {
    for src in ["====== Level 5 Section", "###### Level 5 Section"] {
        let mi = section_ok(src);
        assert_eq!(mi.item.level(), 5);
        assert_eq!(mi.item.section_title(), "Level 5 Section");
        assert_eq!(mi.item.id().unwrap(), "_level_5_section");
    }
}

#[test]
fn section_warn_section_level_skipped() {
    for (src, line) in [
        ("== Level 1\n\n==== Level 3 (skipped level 2)", "==== Level 3 (skipped level 2)"),
        ("## Level 1\n\n#### Level 3 (skipped level 2)", "#### Level 3 (skipped level 2)"),
    ] {
        let (r, warnings) = section(src);
        let mi = r.unwrap();
        assert_eq!(mi.item.level(), 1);
        assert_eq!(mi.item.section_title(), "Level 1");
        assert_eq!(mi.item.id().unwrap(), "_level_1");
        assert_eq!(warnings.len(), 1);
        assert_eq!(sp(&warnings[0].source), (line, 3, 1, 12));
        assert_eq!(warnings[0].warning, WarningType::SectionHeadingLevelSkipped(1, 3));
    }
}

#[test]
fn warn_multiple_section_levels_skipped() {
    let (r, warnings) = section("== Level 1\n\n===== Level 4 (skipped levels 2 and 3)");
    let mi = r.unwrap();
    assert_eq!(mi.item.level(), 1);
    assert_eq!(mi.item.section_title(), "Level 1");
    assert_eq!(mi.item.id().unwrap(), "_level_1");
    assert_eq!(warnings.len(), 1);
    assert_eq!(sp(&warnings[0].source), ("===== Level 4 (skipped levels 2 and 3)", 3, 1, 12));
    assert_eq!(warnings[0].warning, WarningType::SectionHeadingLevelSkipped(1, 4));
}

#[test]
fn no_warning_for_consecutive_section_levels() {
    let (r, warnings) = section("== Level 1\n\n=== Level 2 (no skip)");
    let mi = r.unwrap();
    assert_eq!(mi.item.level(), 1);
    assert_eq!(mi.item.section_title(), "Level 1");
    assert_eq!(mi.item.id().unwrap(), "_level_1");
    assert!(warnings.is_empty());
}

#[test]
fn section_id_generation_basic() {
    assert_eq!(section_id_with(&[], "== Section One"), Some("_section_one".to_owned()));
}

#[test]
fn section_id_generation_with_special_characters() {
    assert_eq!(
        section_id_with(&[], "== We're back! & Company"),
        Some("_were_back_company".to_owned())
    );
}

#[test]
fn section_id_generation_disabled_when_sectids_unset() {
    assert_eq!(section_id_with(&[("sectids", None)], "== Section One"), None);
}

#[test]
fn section_id_generation_with_custom_prefix() {
    assert_eq!(
        section_id_with(&[("idprefix", Some("id_"))], "== Section One"),
        Some("id_section_one".to_owned())
    );
}

#[test]
fn section_id_generation_with_custom_separator() {
    assert_eq!(
        section_id_with(&[("idseparator", Some("-"))], "== Section One"),
        Some("_section-one".to_owned())
    );
}

#[test]
fn section_id_generation_with_empty_prefix() {
    assert_eq!(
        section_id_with(&[("idprefix", Some(""))], "== Section One"),
        Some("section_one".to_owned())
    );
}

#[test]
fn section_id_generation_removes_trailing_separator() {
    assert_eq!(
        section_id_with(&[("idseparator", Some("-"))], "== Section Title-"),
        Some("_section-title".to_owned())
    );
}

#[test]
fn section_id_generation_removes_leading_separator_when_prefix_empty() {
    assert_eq!(
        section_id_with(&[("idprefix", Some("")), ("idseparator", Some("-"))], "== -Section Title"),
        Some("section-title".to_owned())
    );
}

#[test]
fn section_id_generation_handles_multiple_trailing_separators() {
    assert_eq!(
        section_id_with(&[("idseparator", Some("_"))], "== Title with Multiple Dots..."),
        Some("_title_with_multiple_dots".to_owned())
    );
}

#[test]
fn warn_duplicate_manual_section_id() {
    let mut parser = Parser::default();
    let src = Span::new("[#my_id]\n== First Section\n\n[#my_id]\n== Second Section");
    let first = Block::parse(&src, &mut parser);
    assert!(first.warnings.is_empty());
    let after = first.item.unwrap().after;
    let second = Block::parse(&after, &mut parser);
    assert_eq!(second.warnings.len(), 1);
    assert_eq!(sp(&second.warnings[0].source), ("[#my_id]\n== Second Section", 4, 1, 27));
    assert_eq!(second.warnings[0].warning, WarningType::DuplicateId("my_id".to_owned()));
}

#[test]
fn section_with_custom_reftext_attribute() {
    let mut parser = Parser::default();
    let id = first_section_id(&mut parser, "[reftext=\"Custom Reference Text\"]\n== Section Title");
    assert_eq!(id, Some("_section_title".to_owned()));
    assert_eq!(parser.reftext("_section_title"), Some(Some("Custom Reference Text")));
}

#[test]
fn section_without_reftext_uses_title() {
    let mut parser = Parser::default();
    let id = first_section_id(&mut parser, "== Section Title");
    assert_eq!(id, Some("_section_title".to_owned()));
    assert_eq!(parser.reftext("_section_title"), Some(Some("Section Title")));
}

#[test]
fn default() {
    let sn = SectionNumber::default();
    assert!(sn.components().is_empty());
    assert_eq!(sn.to_dotted_string(), "");
}

#[test]
fn level_1() {
    let mut sn = SectionNumber::default();
    sn.assign_next_number(1);
    assert_eq!(sn.components(), [1]);
    assert_eq!(sn.to_dotted_string(), "1");
}

#[test]
fn level_3() {
    let mut sn = SectionNumber::default();
    sn.assign_next_number(3);
    assert_eq!(sn.components(), [1, 1, 1]);
    assert_eq!(sn.to_dotted_string(), "1.1.1");
}

#[test]
fn level_3_then_1() {
    let mut sn = SectionNumber::default();
    sn.assign_next_number(3);
    sn.assign_next_number(1);
    assert_eq!(sn.components(), [2]);
    assert_eq!(sn.to_dotted_string(), "2");
}

#[test]
fn level_3_then_1_then_2() {
    let mut sn = SectionNumber::default();
    sn.assign_next_number(3);
    sn.assign_next_number(1);
    sn.assign_next_number(2);
    assert_eq!(sn.components(), [2, 1]);
    assert_eq!(sn.to_dotted_string(), "2.1");
}

#[test]
fn section_numbers_with_sectnums() {
    let mut parser = Parser::default();
    parser.set_attribute("sectnums", Some(""));
    let maw = Block::parse(&Span::new("==== Deep"), &mut parser);
    match maw.item.unwrap().item {
        Block::Section(s) => assert_eq!(s.section_number().unwrap().components(), [1, 1, 1]),
        _ => panic!("expected a section"),
    }
}

#[test]
fn section_with_manual_id_is_not_generated() {
    let (r, _) = section("[[intro]]\n== Introduction");
    let mi = r.unwrap();
    assert_eq!(mi.item.id(), Some("intro"));
    assert!(mi.item.section_id().is_none());
}

#[test]
fn generated_ids_are_made_unique() {
    let mut parser = Parser::default();
    let src = Span::new("== Same\n\n== Same");
    let first = Block::parse(&src, &mut parser).item.unwrap();
    let second = Block::parse(&first.after, &mut parser).item.unwrap();
    assert_eq!(first.item.id(), Some("_same"));
    assert_eq!(second.item.id(), Some("_same_2"));
}

#[test]
fn generated_ids_skip_registered_ones() {
    let mut parser = Parser::default();
    assert_eq!(parser.generate_and_register_unique_id("a", None, RefType::Section), "a");
    assert_eq!(parser.generate_and_register_unique_id("a", None, RefType::Section), "a_2");
    assert!(parser.register_ref("a_3", Some("by hand"), RefType::Anchor));
    assert!(!parser.register_ref("a_3", None, RefType::Anchor));
    assert_eq!(parser.generate_and_register_unique_id("a", None, RefType::Section), "a_4");
    assert_eq!(parser.catalog_len(), 4);
    assert_eq!(parser.reftext("a_3"), Some(Some("by hand")));
}

#[test]
fn set_attribute_then_read_back() {
    let mut parser = Parser::default();
    assert_eq!(parser.attribute_value("idprefix"), Some("_"));
    parser.set_attribute("x", Some("1"));
    assert_eq!(parser.attribute_value("x"), Some("1"));
    parser.set_attribute("x", Some("2"));
    assert_eq!(parser.attribute_value("x"), Some("2"));
    parser.set_attribute("x", None);
    assert_eq!(parser.attribute_value("x"), None);
    assert!(!parser.is_attribute_set("x"));
    assert_eq!(parser.attribute_value("idprefix"), Some("_"));
}

#[test]
fn sectnumlevels_limits_numbered_depth() {
    let mut parser = Parser::default();
    parser.set_attribute("sectnums", Some(""));
    let mut warnings: Vec<Warning> = vec![];
    let s1 = SectionBlock::parse(&BlockMetadata::new("== A"), &mut parser, &mut warnings).unwrap().item;
    let s4 = SectionBlock::parse(&BlockMetadata::new("===== D"), &mut parser, &mut warnings).unwrap().item;
    assert_eq!(s1.section_number().unwrap().components(), [1]);
    assert!(s4.section_number().is_none());
}

#[test]
fn section_section_title_with_markup() {
    for src in ["== Section with *bold* text", "## Section with *bold* text"] {
        let s = section_ok(src).item;
        assert_eq!(s.section_title(), "Section with <strong>bold</strong> text");
        assert_eq!(sp(s.section_title_source()), ("Section with *bold* text", 1, 4, 3));
        assert_eq!(s.section_id(), Some("_section_with_bold_text"));
    }
}

#[test]
fn strong_text_forms() {
    use_strong("a *b* c", "a <strong>b</strong> c");
    use_strong("**un**constrained", "<strong>un</strong>constrained");
    use_strong("no*strong* here", "no*strong* here");
    use_strong("*a*b* c", "<strong>a*b</strong> c");
    use_strong("a * b * c", "a * b * c");
    use_strong("x < *y*", "x &lt; <strong>y</strong>");
}

fn use_strong(src: &str, rendered: &str) {
    let mut parser = Parser::default();
    let mi = Block::parse(&Span::new(src), &mut parser).item.unwrap();
    assert_eq!(text_of(&mi.item), rendered);
}

#[test]
fn quoted_text_forms() {
    use_strong("an _emphasized_ word", "an <em>emphasized</em> word");
    use_strong("some `code` here", "some <code>code</code> here");
    use_strong("a #marked# word", "a <mark>marked</mark> word");
    use_strong("un__constrained__ emphasis", "un<em>constrained</em> emphasis");
    use_strong("snake_case_name stays", "snake_case_name stays");
    use_strong("x `*not strong*` y", "x <code><strong>not strong</strong></code> y");
}

#[test]
fn superscript_and_subscript() {
    use_strong("E=mc^2^ and H~2~O", "E=mc<sup>2</sup> and H<sub>2</sub>O");
    use_strong("a ^b c^ d", "a ^b c^ d");
    use_strong("path ~/home stays", "path ~/home stays");
}

#[test]
fn section_id_from_cleaned_title() {
    let parser = Parser::default();
    assert_eq!(section_id_from_cleaned("section with bold text", &parser), "_section_with_bold_text");
    assert_eq!(section_id_from_cleaned("a--b..c ", &parser), "_a_b_c");
}

#[test]
fn section_after_list_keeps_its_id() {
    let mut parser = Parser::default();
    let list = Block::parse(&Span::new("- item\n\n== Section"), &mut parser).item.unwrap();
    assert!(matches!(list.item, Block::List(_)));
    assert_eq!(list.after.data(), "== Section");
    assert!(!parser.has_ref("_section"));
    let section = Block::parse(&list.after, &mut parser).item.unwrap();
    assert!(matches!(section.item, Block::Section(_)));
    assert_eq!(section.item.id(), Some("_section"));
}
