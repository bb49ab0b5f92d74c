use vstd::prelude::*;

use crate::span::Span;

verus! {

/// The kinds of problems that the parser reports without giving up.
#[derive(Clone, Debug, PartialEq, Eq)]
pub enum WarningType {
    EmptyAttributeValue,
    MissingCommaAfterQuotedAttributeValue,
    AttributeValueMissingTerminatingQuote,
    EmptyShorthandItem,
    InvalidBlockAnchorName,
    EmptyBlockAnchorName,
    MissingBlockAfterTitleOrAttributeList,
    DuplicateId(String),
    UnterminatedDelimitedBlock,
    InvalidMacroName,
    MacroMissingDoubleColon,
    MacroMissingAttributeList,
    MediaMacroMissingTarget,
    Level0SectionHeadingNotSupported,
    SectionHeadingLevelExceedsMaximum(usize),
    SectionHeadingLevelSkipped(usize, usize),
}

/// A problem found in the source, with the span where it was found.
#[derive(Debug, PartialEq, Eq)]
pub struct Warning {
    pub source: Span,
    pub warning: WarningType,
}

/// A parse result together with the warnings found while producing it.
pub struct MatchAndWarnings<T> {
    pub item: T,
    pub warnings: Vec<Warning>,
}

} // verus!

verus! {

use crate::span::SpanView;

/// The models of a sequence of warnings: where each points and its kind.
pub open spec fn warning_views(w: Seq<Warning>) -> Seq<(SpanView, WarningType)> {
    w.map_values(|x: Warning| (x.source@, x.warning))
}

/// `new` begins with the warnings of `old`.
pub open spec fn warnings_extend(old: Seq<Warning>, new: Seq<Warning>) -> bool {
    &&& old.len() <= new.len()
    &&& warning_views(new).take(old.len() as int) == warning_views(old)
}

/// Warnings kept as a prefix stay kept.
pub proof fn lemma_warnings_extend_trans(a: Seq<Warning>, b: Seq<Warning>, c: Seq<Warning>)
    requires
        warnings_extend(a, b),
        warnings_extend(b, c),
    ensures
        warnings_extend(a, c),
{
    assert(warning_views(c).take(a.len() as int) =~= warning_views(c).take(b.len() as int).take(
        a.len() as int,
    ));
}

/// Appending warnings keeps those already there.
pub proof fn lemma_warnings_extend_append(a: Seq<Warning>, b: Seq<Warning>)
    ensures
        warnings_extend(a, a + b),
        warning_views(a + b) == warning_views(a) + warning_views(b),
{
    assert(warning_views(a + b) =~= warning_views(a) + warning_views(b));
    assert(warning_views(a + b).take(a.len() as int) =~= warning_views(a));
}

/// Warnings extend themselves.
pub proof fn lemma_warnings_extend_refl(a: Seq<Warning>)
    ensures
        warnings_extend(a, a),
{
    assert(warning_views(a).take(a.len() as int) =~= warning_views(a));
}

/// `kinds`, each pointing at `source`.
pub open spec fn all_at(source: SpanView, kinds: Seq<WarningType>) -> Seq<(SpanView, WarningType)> {
    kinds.map_values(|k: WarningType| (source, k))
}

} // verus!
