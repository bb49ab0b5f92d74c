use vstd::prelude::*;
use crate::blocks::is_block::{ContentModel, IsBlock};
use crate::attributes::attrlist::Attrlist;

use crate::blocks::block::Block;
use crate::blocks::layout::{
    before, consumed, lemma_parser_kept_refl, lemma_parser_kept_trans, parser_kept,
    past_blank_lines,
};
use crate::blocks::metadata::{BlockHeader, BlockMetadata, HeaderView, MetadataView};
use crate::blocks::parse_utils::{blocks_run, catalog_before, parse_blocks_until, run_warnings};
use crate::blocks::section_title::{
    generate_section_id, parse_title_line, section_id_of, title_line,
};
use crate::content::{Content, ContentView, SubstitutionGroup, apply_group, GroupView};
use crate::parser::{Parser, ParserView, RefType, attr_lookup, catalog_has, unique_id};
use crate::span::{
    MatchedItem, Span, SpanView, empty_lines_len, lemma_suffix_trans, trailing_ws_pred, trimmed_len,
};
use crate::text::{chars_to_string, push_decimal, decimal};
use crate::warnings::{
    Warning, WarningType, lemma_warnings_extend_trans, warning_views, warnings_extend,
};

verus! {

/// Represents an assigned section number.
///
/// Section numbers aren't assigned by default, but can be enabled using the
/// `sectnums` and `sectnumlevels` attributes.
#[derive(Debug)]
pub struct SectionNumber {
    components: Vec<usize>,
}

/// The components of the section number that follows `c` at `level`.
pub open spec fn next_section_number(c: Seq<usize>, level: int) -> Seq<usize> {
    let t = if c.len() > level { c.take(level) } else { c };
    if t.len() < level {
        t + Seq::new((level - t.len()) as nat, |i: int| 1usize)
    } else if level > 0 {
        t.update(level - 1, (t[level - 1] + 1) as usize)
    } else {
        t
    }
}

/// The components joined with dots, e.g. `1.2.3`.
pub open spec fn dotted(c: Seq<usize>) -> Seq<char>
    decreases c.len(),
{
    if c.len() == 0 {
        Seq::empty()
    } else if c.len() == 1 {
        decimal(c[0] as nat)
    } else {
        dotted(c.drop_last()).push('.') + decimal(c.last() as nat)
    }
}

/// Assigning the next section number at a level of 1 or more gives a
/// number with as many components as the level: the components above the
/// level are kept, and the one at the level is one more than before, or 1
/// where the number had no component there.
pub proof fn lemma_next_section_number(c: Seq<usize>, level: int)
    requires
        level >= 1,
        c.len() >= level ==> c[level - 1] < usize::MAX,
    ensures
        next_section_number(c, level).len() == level,
        forall|i: int|
            0 <= i < level - 1 && i < c.len() ==> #[trigger] next_section_number(c, level)[i] == c[i],
        forall|i: int| c.len() <= i < level - 1 ==> #[trigger] next_section_number(c, level)[i] == 1,
        next_section_number(c, level)[level - 1] == if c.len() >= level {
            c[level - 1] + 1
        } else {
            1
        },
{
}

impl View for SectionNumber {
    type V = Seq<usize>;

    closed spec fn view(&self) -> Seq<usize> {
        self.components@
    }
}

impl Default for SectionNumber {
    fn default() -> (r: SectionNumber)
        ensures
            r@ == Seq::<usize>::empty(),
    {
        SectionNumber::new()
    }
}

impl SectionNumber {
    /// A section number with no components.
    pub fn new() -> (r: SectionNumber)
        ensures
            r@ == Seq::<usize>::empty(),
    {
        SectionNumber { components: Vec::new() }
    }

    /// An identical copy of this section number.
    pub fn copy(&self) -> (r: SectionNumber)
        ensures
            r@ == self@,
    {
        SectionNumber { components: self.components.clone() }
    }

    /// Generate the next section number for the specified level, based on
    /// this section number.
    ///
    /// Components beyond `level` are dropped; missing components up to
    /// `level` are set to 1; otherwise the component at `level` is
    /// incremented.
    pub fn assign_next_number(&mut self, level: usize)
        requires
            level > 0 && old(self)@.len() >= level ==> old(self)@[level - 1] < usize::MAX,
        ensures
            final(self)@ == next_section_number(old(self)@, level as int),
    {
        self.components.truncate(level);
        proof {
            assert(self.components@ =~= (if old(self)@.len() > level {
                old(self)@.take(level as int)
            } else {
                old(self)@
            }));
        }
        let ghost t = self.components@;
        if self.components.len() < level {
            while self.components.len() < level
                invariant
                    t.len() <= self.components@.len() <= level,
                    self.components@ =~= t + Seq::new(
                        (self.components@.len() - t.len()) as nat,
                        |i: int| 1usize,
                    ),
                decreases level - self.components@.len(),
            {
                self.components.push(1);
            }
        } else if level > 0 {
            let v = self.components[level - 1];
            self.components.set(level - 1, v + 1);
        }
    }

    /// The components of the section number.
    pub fn components(&self) -> (r: &[usize])
        ensures
            r@ == self@,
    {
        self.components.as_slice()
    }

    /// The section number written with dots between its components, e.g.
    /// `1.2.3`.
    pub fn to_dotted_string(&self) -> (r: String)
        ensures
            r@ == dotted(self@),
    {
        let mut out: Vec<char> = Vec::new();
        let n = self.components.len();
        let mut i: usize = 0;
        while i < n
            invariant
                n == self@.len(),
                i <= n,
                out@ == dotted(self@.take(i as int)),
            decreases n - i,
        {
            if i > 0 {
                out.push('.');
            }
            push_decimal(&mut out, self.components[i]);
            proof {
                let c = self@.take(i + 1);
                assert(c.drop_last() =~= self@.take(i as int));
                if i == 0 {
                    assert(Seq::<char>::empty() + decimal(c[0] as nat) =~= decimal(c[0] as nat));
                }
            }
            i = i + 1;
        }
        assert(self@.take(n as int) =~= self@);
        chars_to_string(&out)
    }
}


pub struct SectionView {
    pub level: usize,
    pub section_title: ContentView,
    pub source: SpanView,
    pub header: HeaderView,
    pub section_id: Option<Seq<char>>,
    pub section_number: Option<Seq<usize>>,
}

/// Sections partition the document into a content hierarchy. A section is
/// an implicit enclosure. Each section begins with a title and ends at the
/// next sibling section, ancestor section, or end of document. Nested
/// section levels must be sequential.
#[derive(Debug)]
pub struct SectionBlock {
    level: usize,
    section_title: Content,
    blocks: Vec<Block>,
    source: Span,
    header: BlockHeader,
    section_id: Option<String>,
    section_number: Option<SectionNumber>,
}

impl View for SectionBlock {
    type V = SectionView;

    closed spec fn view(&self) -> SectionView {
        SectionView {
            level: self.level,
            section_title: self.section_title@,
            source: self.source@,
            header: self.header@,
            section_id: match self.section_id {
                Some(s) => Some(s@),
                None => None,
            },
            section_number: match self.section_number {
                Some(n) => Some(n@),
                None => None,
            },
        }
    }
}

/// The ID that the metadata gives a section: that of its attribute list,
/// else its block anchor.
pub open spec fn manual_section_id(h: HeaderView) -> Option<Seq<char>> {
    match h.attrlist {
        Some(a) if a.id() is Some => a.id(),
        _ => match h.anchor {
            Some(an) => Some(an.data),
            None => None,
        },
    }
}

/// Where the blocks of the section that the metadata `md` introduces
/// start: the line after its title.
pub open spec fn section_body(md: MetadataView) -> SpanView {
    match title_line(past_blank_lines(md.block_start)).0 {
        Some((_, _, after)) => after,
        None => md.block_start,
    }
}

/// The warnings that registering the ID given to the section that the
/// metadata `md` introduces adds, where the catalog is `catalog` once its
/// blocks were read: where that ID is already registered, one duplicate ID
/// warning at the section's title line; else none.
pub open spec fn section_dup_warnings(
    md: MetadataView,
    catalog: Seq<(Seq<char>, Option<Seq<char>>, RefType)>,
    w: Seq<(SpanView, WarningType)>,
) -> bool {
    match manual_section_id(md.header) {
        Some(id) if catalog_has(catalog, id) => {
            &&& w.len() == 1
            &&& w[0].0 == before(md.source, section_body(md))
            &&& w[0].1 matches WarningType::DuplicateId(s) && s@ == id
        },
        _ => w.len() == 0,
    }
}

/// What is known of the section `v` that the metadata `md` introduces,
/// read up to `after`, given the parser's state `p` once it was read: its
/// level, title, header and source; an ID only where `sectids` is set and
/// none is given (generated from the rendered title so as to be new to the
/// catalog as it stood, and registered last), and always then unless the
/// catalog is near its limit; a given ID is registered; a section number
/// exactly where `sectnums` is set and the level is at most
/// `sectnumlevels` (unless the number's last component would pass the
/// largest `usize`), the parser's latest one.
pub open spec fn section_parsed(md: MetadataView, p: ParserView, v: SectionView, after: SpanView) -> bool {
    let src = md.block_start.skip(empty_lines_len(md.block_start.data));
    let b = before(md.source, after);
    let sectids = attr_lookup(p.attributes, "sectids"@) is Some;
    let sectnums = attr_lookup(p.attributes, "sectnums"@) is Some;
    let manual = manual_section_id(md.header);
    &&& title_line(src).0 matches Some((level, title, _))
    &&& v.level == level
    &&& 1 <= level <= 5
    &&& v.section_title == (ContentView {
        original: title,
        rendered: apply_group(GroupView::Title, title.data, p.attributes),
    })
    &&& v.header == md.header
    &&& v.source == b.sub(0, trimmed_len(b.data, trailing_ws_pred()))
    &&& consumed(after, md.block_start)
    &&& (v.section_id matches Some(id) ==> {
        &&& sectids
        &&& manual is None
        &&& p.catalog.len() > 0
        &&& p.catalog.last().0 == id
        &&& p.catalog.last().2 == RefType::Section
        &&& id == unique_id(p.catalog.drop_last(), section_id_of(v.section_title.rendered, p.attributes))
    })
    &&& (manual matches Some(id) ==> catalog_has(p.catalog, id))
    &&& (sectids && manual is None && p.catalog.len() + 4 <= usize::MAX ==> v.section_id is Some)
    &&& (v.section_number matches Some(n) ==> n == p.section_number && sectnums && level
        <= p.sectnumlevels)
    &&& (!sectnums || level > p.sectnumlevels ==> v.section_number is None)
    &&& (sectnums && level <= p.sectnumlevels && v.section_number is None ==> {
        &&& p.section_number.len() >= level
        &&& p.section_number[level - 1] == usize::MAX
    })
}

impl SectionBlock {
    /// The blocks of this section.
    pub closed spec fn blocks_view(&self) -> Seq<Block> {
        self.blocks@
    }

    /// Parses a section: its title line, then the blocks up to the next
    /// section title at the same level or above.
    ///
    /// Registers the section's ID (generated from its title when the
    /// `sectids` attribute is set and no ID is given) and, when `sectnums`
    /// is set, assigns it a section number.
    #[verifier::rlimit(40)]
    #[verifier::spinoff_prover]
    pub fn parse(metadata: &BlockMetadata, parser: &mut Parser, warnings: &mut Vec<Warning>) -> (r: Option<
        MatchedItem<SectionBlock>,
    >)
        requires
            metadata.wf(),
        ensures
            parser_kept(old(parser)@, final(parser)@),
            warnings_extend(old(warnings)@, final(warnings)@),
            r is None ==> final(parser)@ == old(parser)@,
            r is None ==> warning_views(final(warnings)@) == warning_views(old(warnings)@) + title_line(
                past_blank_lines(metadata.block_start@),
            ).1,
            r is Some == title_line(
                metadata.block_start@.skip(empty_lines_len(metadata.block_start@.data)),
            ).0 is Some,
            r matches Some(mi) ==> section_parsed(metadata.md_view(), final(parser)@, mi.item@, mi.after@),
            r matches Some(mi) ==> exists|afters: Seq<SpanView>, ps: Seq<ParserView>|
                blocks_run(
                    section_body(metadata.md_view()),
                    old(parser)@.attributes,
                    Some(mi.item@.level),
                    mi.item.blocks_view(),
                    afters,
                    ps,
                    mi.after@,
                ),
            r matches Some(mi) ==> exists|afters: Seq<SpanView>, ps: Seq<ParserView>, rw: Seq<(SpanView, WarningType)>|
                #![trigger blocks_run(section_body(metadata.md_view()), old(parser)@.attributes, Some(mi.item@.level), mi.item.blocks_view(), afters, ps, mi.after@), run_warnings(section_body(metadata.md_view()), old(parser)@.attributes, old(parser)@.catalog, Some(mi.item@.level), mi.item@.level, mi.item.blocks_view(), afters, ps, mi.after@, rw)]
                {
                    let k = old(warnings)@.len() + rw.len();
                    &&& blocks_run(
                        section_body(metadata.md_view()),
                        old(parser)@.attributes,
                        Some(mi.item@.level),
                        mi.item.blocks_view(),
                        afters,
                        ps,
                        mi.after@,
                    )
                    &&& run_warnings(
                        section_body(metadata.md_view()),
                        old(parser)@.attributes,
                        old(parser)@.catalog,
                        Some(mi.item@.level),
                        mi.item@.level,
                        mi.item.blocks_view(),
                        afters,
                        ps,
                        mi.after@,
                        rw,
                    )
                    &&& k <= final(warnings)@.len()
                    &&& warning_views(final(warnings)@).take(k as int) == warning_views(old(warnings)@) + rw
                    &&& section_dup_warnings(
                        metadata.md_view(),
                        catalog_before(old(parser)@.catalog, ps, mi.item.blocks_view().len() as int),
                        warning_views(final(warnings)@).skip(k as int),
                    )
                },
        decreases metadata.source@.len(), 3int,
    {
        proof {
            lemma_parser_kept_refl(parser@);
        }
        let ghost bs = metadata.block_start@;
        let ghost w0 = warnings@;
        let source = metadata.block_start.discard_empty_lines();
        let title_opt = parse_title_line(&source, warnings);
        proof {
            assert(warning_views(warnings@).len() == warnings@.len());
            assert(warning_views(w0).len() == w0.len());
            assert(warning_views(warnings@).take(w0.len() as int) =~= warning_views(w0));
            assert(warnings_extend(w0, warnings@));
        }
        let title = match title_opt {
            Some(t) => t,
            None => {
                return None;
            },
        };
        proof {
            crate::span::lemma_line_lens(source@.data);
            crate::blocks::metadata::lemma_skip_is_suffix(source@, crate::span::line_after_len(source@.data));
            lemma_suffix_trans(title.after@, source@, bs);
            lemma_suffix_trans(source@, bs, metadata.source@);
        }
        let level = title.item.0;
        let mut section_title = Content::from_span(&title.item.1);
        SubstitutionGroup::Title.apply(&mut section_title, parser);
        let sectids = parser.is_attribute_set("sectids");
        let mut most_recent_level = level;
        let ghost p0 = parser@;
        let ghost w1 = warnings@;
        let blocks = parse_blocks_until(&title.after, Some(level), &mut most_recent_level, parser, warnings);
        proof {
            assert(warning_views(warnings@).take(w1.len() as int) =~= warning_views(w1));
            lemma_warnings_extend_trans(w0, w1, warnings@);
        }
        let ghost w2 = warnings@;
        let ghost rw = warning_views(warnings@).skip(w1.len() as int);
        let ghost wit = choose|a: Seq<SpanView>, q: Seq<ParserView>|
            #[trigger] blocks_run(title.after@, p0.attributes, Some(level), blocks.item@, a, q, blocks.after@)
                && run_warnings(title.after@, p0.attributes, p0.catalog, Some(level), level, blocks.item@, a, q, blocks.after@, rw)
                && parser@.catalog == catalog_before(p0.catalog, q, blocks.item@.len() as int);
        proof {
            assert(warning_views(warnings@).take((w0.len() + rw.len()) as int) =~= warning_views(w0) + rw);
        }
        proof {
            lemma_parser_kept_trans(old(parser)@, p0, parser@);
            lemma_suffix_trans(blocks.after@, title.after@, bs);
        }
        let src = metadata.source.trim_remainder(&blocks.after).trim_trailing_whitespace();
        let proposed_base_id = generate_section_id(section_title.rendered(), parser);
        let manual_id: Option<&str> = match &metadata.attrlist {
            Some(a) => a.id(),
            None => None,
        };
        let manual_id: Option<&str> = match manual_id {
            Some(id) => Some(id),
            None => match &metadata.anchor {
                Some(anchor) => Some(anchor.data()),
                None => None,
            },
        };
        let reftext: &str = match &metadata.attrlist {
            Some(a) => match a.named_attribute("reftext") {
                Some(attr) => attr.value(),
                None => section_title.rendered(),
            },
            None => section_title.rendered(),
        };
        let ghost p1 = parser@;
        let section_id = if sectids && manual_id.is_none() {
            if parser.catalog_len() < usize::MAX - 3 {
                Some(parser.generate_and_register_unique_id(proposed_base_id.as_str(), Some(reftext), RefType::Section))
            } else {
                None
            }
        } else {
            if let Some(id) = manual_id {
                if !parser.register_ref(id, Some(reftext), RefType::Section) {
                    warnings.push(Warning {
                        source: metadata.source.trim_remainder(&title.after),
                        warning: WarningType::DuplicateId(id.to_owned()),
                    });
                }
            }
            None
        };
        proof {
            assert(parser_kept(p1, parser@)) by {
                assert(parser@.catalog.take(p1.catalog.len() as int) =~= p1.catalog);
            }
            lemma_parser_kept_trans(old(parser)@, p1, parser@);
            assert(warning_views(warnings@).take(w2.len() as int) =~= warning_views(w2));
            lemma_warnings_extend_trans(w0, w2, warnings@);
            let k = (w0.len() + rw.len()) as int;
            assert(w2.len() == k);
            assert(warning_views(warnings@).take(k) =~= warning_views(w0) + rw);
            assert(title.after@ == section_body(metadata.md_view()));
            assert(section_dup_warnings(metadata.md_view(), p1.catalog, warning_views(warnings@).skip(k)));
        }
        let ghost p2 = parser@;
        let section_number = if parser.is_attribute_set("sectnums") && level <= parser.sectnumlevels()
            && parser.can_assign_section_number(level) {
            Some(parser.assign_section_number(level))
        } else {
            None
        };
        proof {
            assert(parser_kept(p2, parser@)) by {
                assert(parser@.catalog.take(p2.catalog.len() as int) =~= p2.catalog);
            }
            lemma_parser_kept_trans(old(parser)@, p2, parser@);
            assert(parser@.catalog == p2.catalog);
            if let Some(id) = &section_id {
                assert(parser@.catalog.drop_last() =~= p1.catalog);
            }
        }
        let section = SectionBlock {
            level,
            section_title,
            blocks: blocks.item,
            source: src,
            header: metadata.header(),
            section_id,
            section_number,
        };
        let mi = MatchedItem { item: section, after: blocks.after };
        proof {
            assert(blocks_run(
                section_body(metadata.md_view()),
                old(parser)@.attributes,
                Some(mi.item@.level),
                mi.item.blocks_view(),
                wit.0,
                wit.1,
                mi.after@,
            ));
            assert(run_warnings(
                section_body(metadata.md_view()),
                old(parser)@.attributes,
                old(parser)@.catalog,
                Some(mi.item@.level),
                mi.item@.level,
                mi.item.blocks_view(),
                wit.0,
                wit.1,
                mi.after@,
                rw,
            ));
        }
        Some(mi)
    }

    /// Returns the section's level: the number of `=` (or `#`) marks of its
    /// title, less one. It is between 1 and 5.
    pub fn level(&self) -> (r: usize)
        ensures
            r == self@.level,
    {
        self.level
    }

    /// Returns the source text of the section title.
    pub fn section_title_source(&self) -> (r: &Span)
        ensures
            r@ == self@.section_title.original,
    {
        self.section_title.original()
    }

    /// Returns the section title after substitutions have been applied.
    pub fn section_title(&self) -> (r: &str)
        ensures
            r@ == self@.section_title.rendered,
    {
        self.section_title.rendered()
    }

    /// Returns the ID generated for this section, if any.
    pub fn section_id(&self) -> (r: Option<&str>)
        ensures
            r is Some == self@.section_id is Some,
            r matches Some(s) ==> self@.section_id == Some(s@),
    {
        match &self.section_id {
            Some(s) => Some(s.as_str()),
            None => None,
        }
    }

    /// Returns the section number assigned to this section, if any.
    pub fn section_number(&self) -> (r: Option<&SectionNumber>)
        ensures
            r is Some == self@.section_number is Some,
            r matches Some(n) ==> self@.section_number == Some(n@),
    {
        self.section_number.as_ref()
    }

    /// Returns the blocks of this section.
    pub fn blocks(&self) -> (r: &[Block])
        ensures
            r@ == self.blocks_view(),
    {
        self.blocks.as_slice()
    }

    /// Returns the source text of this block.
    pub fn span(&self) -> (r: &Span)
        ensures
            r@ == self@.source,
    {
        &self.source
    }

    /// Returns the title, anchor and attribute list of this block.
    pub fn header(&self) -> (r: &BlockHeader)
        ensures
            r@ == self@.header,
    {
        &self.header
    }
}

impl IsBlock for SectionBlock {
    open spec fn block_header(&self) -> HeaderView {
        self@.header
    }

    open spec fn fallback_id(&self) -> Option<Seq<char>> {
        self@.section_id
    }

    open spec fn block_model(&self) -> ContentModel {
        ContentModel::Compound
    }

    open spec fn block_context(&self) -> Seq<char> {
        "section"@
    }

    open spec fn block_nested(&self) -> Seq<Block> {
        self.blocks_view()
    }

    open spec fn block_rendered(&self) -> Option<Seq<char>> {
        None
    }

    open spec fn block_group(&self) -> GroupView {
        GroupView::Normal
    }

    fn content_model(&self) -> (r: ContentModel) {
        ContentModel::Compound
    }

    fn raw_context(&self) -> (r: &str) {
        "section"
    }

    fn nested_blocks(&self) -> (r: &[Block]) {
        self.blocks.as_slice()
    }

    fn title_source(&self) -> (r: Option<&Span>) {
        self.header().title_source()
    }

    fn title(&self) -> (r: Option<&str>) {
        self.header().title()
    }

    fn anchor(&self) -> (r: Option<&Span>) {
        self.header().anchor()
    }

    fn anchor_reftext(&self) -> (r: Option<&Span>) {
        self.header().anchor_reftext()
    }

    fn attrlist(&self) -> (r: Option<&Attrlist>) {
        self.header().attrlist()
    }

    fn generated_id(&self) -> (r: Option<&str>) {
        match &self.section_id {
            Some(s) => Some(s.as_str()),
            None => None,
        }
    }

    fn rendered_content(&self) -> (r: Option<&str>) {
        None
    }

    fn substitution_group(&self) -> (r: SubstitutionGroup) {
        SubstitutionGroup::Normal
    }
}

} // verus!
