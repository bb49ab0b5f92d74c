use asciidoc_parser::Span;
use asciidoc_parser::blocks::metadata::BlockMetadata;

fn assert_span(s: &Span, data: &str, line: usize, col: usize, offset: usize) {
    assert_eq!(s.data(), data);
    assert_eq!(s.line(), line);
    assert_eq!(s.col(), col);
    assert_eq!(s.byte_offset(), offset);
}

#[test]
fn metadata_order_title_anchor_attrlist() {
    let input = ".My Title\n[[my-anchor]]\n[role=\"example\"]\nContent\n";
    let metadata = BlockMetadata::new(input);

    assert_eq!(metadata.title.as_deref(), Some("My Title"));
    assert_span(metadata.anchor.as_ref().unwrap(), "my-anchor", 2, 3, 12);
    assert!(metadata.attrlist.is_some());
}

#[test]
fn metadata_order_anchor_title_attrlist() {
    let input = "[[another-anchor]]\n.Another Title\n[role=\"sidebar\"]\nContent\n";
    let metadata = BlockMetadata::new(input);

    assert_eq!(metadata.title.as_deref(), Some("Another Title"));
    assert_span(metadata.anchor.as_ref().unwrap(), "another-anchor", 1, 3, 2);
    assert!(metadata.attrlist.is_some());
}

#[test]
fn metadata_order_attrlist_title_anchor() {
    let input = "[role=\"note\"]\n.Third Title\n[[third-anchor]]\nContent\n";
    let metadata = BlockMetadata::new(input);

    assert_eq!(metadata.title.as_deref(), Some("Third Title"));
    assert_span(metadata.anchor.as_ref().unwrap(), "third-anchor", 3, 3, 29);
    assert!(metadata.attrlist.is_some());
}

#[test]
fn metadata_order_anchor_attrlist_title() {
    let input = "[[fourth-anchor]]\n[role=\"warning\"]\n.Fourth Title\nContent\n";
    let metadata = BlockMetadata::new(input);

    assert_eq!(metadata.title.as_deref(), Some("Fourth Title"));
    assert_span(metadata.anchor.as_ref().unwrap(), "fourth-anchor", 1, 3, 2);
    assert!(metadata.attrlist.is_some());
}

#[test]
fn metadata_order_title_attrlist_only() {
    let input = ".Just Title\n[role=\"tip\"]\nContent\n";
    let metadata = BlockMetadata::new(input);

    assert_eq!(metadata.title.as_deref(), Some("Just Title"));
    assert!(metadata.anchor.is_none());
    assert!(metadata.attrlist.is_some());
}

#[test]
fn metadata_order_anchor_attrlist_only() {
    let input = "[[just-anchor]]\n[role=\"caution\"]\nContent\n";
    let metadata = BlockMetadata::new(input);

    assert_eq!(metadata.title.as_deref(), None);
    assert_span(metadata.anchor.as_ref().unwrap(), "just-anchor", 1, 3, 2);
    assert!(metadata.attrlist.is_some());
}

#[test]
fn metadata_order_attrlist_anchor_only() {
    let input = "[role=\"important\"]\n[[attrlist-first]]\nContent\n";
    let metadata = BlockMetadata::new(input);

    assert_eq!(metadata.title.as_deref(), None);
    assert_span(metadata.anchor.as_ref().unwrap(), "attrlist-first", 2, 3, 21);
    assert!(metadata.attrlist.is_some());
}
