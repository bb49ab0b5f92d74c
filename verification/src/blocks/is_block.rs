use vstd::prelude::*;

use crate::attributes::attrlist::Attrlist;
use crate::attributes::element_attribute::str_views;
use crate::blocks::block::Block;
use crate::content::{GroupView, SubstitutionGroup};
use crate::blocks::metadata::HeaderView;
use crate::span::Span;
use crate::text::str_eq;

verus! {

/// The content model of a block determines what kind of content the block
/// can have (if any) and how that content is processed.
#[derive(Clone, Copy, Debug, PartialEq, Eq, Structural)]
pub enum ContentModel {
    /// A block that may only contain other blocks (e.g., a section).
    Compound,
    /// Contiguous lines of paragraph text (e.g., a paragraph block).
    Simple,
    /// Verbatim text (e.g., a listing block).
    Verbatim,
    /// Unprocessed content passed through (e.g., a passthrough block).
    Raw,
    /// No content (e.g., an image block).
    Empty,
    /// A table.
    Table,
}

/// The contexts that AsciiDoc defines for its built-in blocks.
pub open spec fn built_in_contexts() -> Seq<Seq<char>> {
    seq![
        "admonition"@, "audio"@, "colist"@, "dlist"@, "document"@, "example"@,
        "floating_title"@, "image"@, "list_item"@, "listing"@, "literal"@, "olist"@,
        "open"@, "page_break"@, "paragraph"@, "pass"@, "preamble"@, "quote"@,
        "section"@, "sidebar"@, "table"@, "table_cell"@, "thematic_break"@, "toc"@,
        "ulist"@, "verse"@, "video"@,
    ]
}

/// Returns `true` if `context` is the context of a built-in block.
pub fn is_built_in_context(context: &str) -> (r: bool)
    ensures
        r == built_in_contexts().contains(context@),
{
    let names: [&str; 27] = [
        "admonition", "audio", "colist", "dlist", "document", "example",
        "floating_title", "image", "list_item", "listing", "literal", "olist",
        "open", "page_break", "paragraph", "pass", "preamble", "quote",
        "section", "sidebar", "table", "table_cell", "thematic_break", "toc",
        "ulist", "verse", "video",
    ];
    let ghost all = built_in_contexts();
    assert(names@.map_values(|s: &str| s@) =~= all);
    let mut i: usize = 0;
    while i < 27
        invariant
            i <= 27,
            names@.map_values(|s: &str| s@) == all,
            all == built_in_contexts(),
            forall|j: int| 0 <= j < i ==> all[j] != context@,
        decreases 27 - i,
    {
        if str_eq(names[i], context) {
            assert(all[i as int] == context@);
            return true;
        }
        i = i + 1;
    }
    assert forall|j: int| 0 <= j < all.len() implies all[j] != context@ by {}
    false
}

/// The ID of a block with header `h`: its anchor, else the ID given by its
/// attribute list, else `fallback` (an ID the parser generated for it).
pub open spec fn id_of(h: HeaderView, fallback: Option<Seq<char>>) -> Option<Seq<char>> {
    match h.anchor {
        Some(a) => Some(a.data),
        None => match h.attrlist {
            Some(al) if al.id() is Some => al.id(),
            _ => fallback,
        },
    }
}

/// The properties that every kind of block has.
pub trait IsBlock {
    /// The block's title, anchor and attribute list, as a model.
    spec fn block_header(&self) -> HeaderView;

    /// The ID that the block was given by the parser itself, if any (a
    /// section's generated ID).
    spec fn fallback_id(&self) -> Option<Seq<char>>;

    /// The block's content model, as a model.
    spec fn block_model(&self) -> ContentModel;

    /// The block's raw context, as a model.
    spec fn block_context(&self) -> Seq<char>;

    /// The blocks nested in this block.
    spec fn block_nested(&self) -> Seq<Block>;

    /// The block's rendered content, if it has content of its own.
    spec fn block_rendered(&self) -> Option<Seq<char>>;

    /// The substitution group applied to the block's content.
    spec fn block_group(&self) -> GroupView;

    /// Returns the content model of this block.
    fn content_model(&self) -> (r: ContentModel)
        ensures
            r == self.block_model(),
    ;

    /// Returns the raw (uninterpreted) context of this block, such as
    /// `paragraph` or `example`.
    fn raw_context(&self) -> (r: &str)
        ensures
            r@ == self.block_context(),
    ;

    /// Returns the blocks nested in this block.
    fn nested_blocks(&self) -> (r: &[Block])
        ensures
            r@ == self.block_nested(),
    ;

    /// Returns the source text of this block's title, if any.
    fn title_source(&self) -> (r: Option<&Span>)
        ensures
            r is Some == self.block_header().title_source is Some,
            r matches Some(s) ==> self.block_header().title_source == Some(s@),
    ;

    /// Returns the rendered title of this block, if any.
    fn title(&self) -> (r: Option<&str>)
        ensures
            r is Some == self.block_header().title is Some,
            r matches Some(s) ==> self.block_header().title == Some(s@),
    ;

    /// Returns the anchor of this block, if any.
    fn anchor(&self) -> (r: Option<&Span>)
        ensures
            r is Some == self.block_header().anchor is Some,
            r matches Some(a) ==> self.block_header().anchor == Some(a@),
    ;

    /// Returns the reference text of this block's anchor, if any.
    fn anchor_reftext(&self) -> (r: Option<&Span>)
        ensures
            r is Some == self.block_header().anchor_reftext is Some,
            r matches Some(a) ==> self.block_header().anchor_reftext == Some(a@),
    ;

    /// Returns the attribute list of this block, if any.
    fn attrlist(&self) -> (r: Option<&Attrlist>)
        ensures
            r is Some == self.block_header().attrlist is Some,
            r matches Some(a) ==> self.block_header().attrlist == Some(a@),
    ;

    /// Returns the ID that the parser gave this block itself, if any.
    fn generated_id(&self) -> (r: Option<&str>)
        ensures
            r is Some == self.fallback_id() is Some,
            r matches Some(s) ==> self.fallback_id() == Some(s@),
    ;

    /// Returns the rendered content of this block, if it has content of its
    /// own.
    fn rendered_content(&self) -> (r: Option<&str>)
        ensures
            r is Some == self.block_rendered() is Some,
            r matches Some(s) ==> self.block_rendered() == Some(s@),
    ;

    /// Returns the substitution group applied to this block's content.
    fn substitution_group(&self) -> (r: SubstitutionGroup)
        ensures
            r@ == self.block_group(),
    ;

    /// Returns the declared (uninterpreted) style: the block style of the
    /// first positional attribute of the attribute list.
    fn declared_style(&self) -> (r: Option<&str>)
        ensures
            r is Some == (self.block_header().attrlist is Some && self.block_header().attrlist->0.block_style() is Some),
            r matches Some(s) ==> self.block_header().attrlist->0.block_style() == Some(s@),
    {
        match self.attrlist() {
            Some(a) => a.block_style(),
            None => None,
        }
    }

    /// Returns the resolved context: the declared style if it names a
    /// built-in context, else the raw context.
    fn resolved_context(&self) -> (r: &str)
        ensures
            !(self.block_header().attrlist is Some && self.block_header().attrlist->0.block_style() is Some
                && built_in_contexts().contains(self.block_header().attrlist->0.block_style()->0)) ==> r@
                == self.block_context(),
            self.block_header().attrlist is Some && self.block_header().attrlist->0.block_style() is Some
                && built_in_contexts().contains(self.block_header().attrlist->0.block_style()->0) ==> r@
                == self.block_header().attrlist->0.block_style()->0,
    {
        match self.declared_style() {
            Some(s) => {
                if is_built_in_context(s) {
                    s
                } else {
                    self.raw_context()
                }
            },
            None => self.raw_context(),
        }
    }

    /// Returns the ID of this block: its anchor, else the ID given by its
    /// attribute list, else the ID the parser generated for it.
    fn id(&self) -> (r: Option<&str>)
        ensures
            match r {
                Some(s) => id_of(self.block_header(), self.fallback_id()) == Some(s@),
                None => id_of(self.block_header(), self.fallback_id()) is None,
            },
    {
        match self.anchor() {
            Some(a) => Some(a.data()),
            None => {
                let from_attrlist = match self.attrlist() {
                    Some(al) => al.id(),
                    None => None,
                };
                match from_attrlist {
                    Some(id) => Some(id),
                    None => self.generated_id(),
                }
            },
        }
    }

    /// Returns the roles of this block.
    fn roles(&self) -> (r: Vec<&str>)
        ensures
            str_views(r@) == match self.block_header().attrlist {
                Some(a) => a.roles(),
                None => Seq::empty(),
            },
    {
        match self.attrlist() {
            Some(a) => a.roles(),
            None => {
                let v: Vec<&str> = Vec::new();
                assert(str_views(v@) =~= Seq::<Seq<char>>::empty());
                v
            },
        }
    }

    /// Returns the options of this block.
    fn options(&self) -> (r: Vec<&str>)
        ensures
            str_views(r@) == match self.block_header().attrlist {
                Some(a) => a.options(),
                None => Seq::empty(),
            },
    {
        match self.attrlist() {
            Some(a) => a.options(),
            None => {
                let v: Vec<&str> = Vec::new();
                assert(str_views(v@) =~= Seq::<Seq<char>>::empty());
                v
            },
        }
    }

    /// Returns `true` if this block has the option `name`.
    fn has_option(&self, name: &str) -> (r: bool)
        ensures
            r == (self.block_header().attrlist is Some && self.block_header().attrlist->0.options().contains(name@)),
    {
        match self.attrlist() {
            Some(a) => a.has_option(name),
            None => false,
        }
    }
}

} // verus!
