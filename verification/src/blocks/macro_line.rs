use vstd::prelude::*;

use crate::span::{
    CharClass, Span, SpanView, class_pred, ident_len, word_pred, lemma_run_len, lemma_skip_skip,
    not_char, run_len,
};

verus! {

/// How far a line gets in the block macro syntax `name::target[attrlist]`.
pub enum MacroLineView {
    /// The line does not end with `]`.
    NotMacro,
    /// The line does not start with an identifier.
    NoName,
    /// The name is not followed by `::`.
    NoColons { name: SpanView, rest: SpanView },
    /// The target is not followed by `[`.
    NoAttrlist { name: SpanView, target: SpanView, after_target: SpanView },
    /// All parts are there: the attribute list is the text between `[` and
    /// the final `]`.
    Complete { name: SpanView, target: SpanView, after_target: SpanView, attrlist: SpanView },
}

/// Splits `line` into the parts of a block macro.
pub open spec fn macro_line(line: SpanView) -> MacroLineView {
    if line.len() == 0 || line.data.last() != ']' {
        MacroLineView::NotMacro
    } else if ident_len(line.data) == 0 {
        MacroLineView::NoName
    } else {
        let k = ident_len(line.data);
        let name = line.sub(0, k);
        let rest = line.skip(k);
        if !rest.starts_with("::"@) {
            MacroLineView::NoColons { name, rest }
        } else {
            let after_colons = rest.skip(2);
            let t = run_len(after_colons.data, not_char('['));
            let target = after_colons.sub(0, t);
            let after_target = after_colons.skip(t);
            if !after_target.starts_with("["@) {
                MacroLineView::NoAttrlist { name, target, after_target }
            } else {
                let inner = after_target.skip(1);
                MacroLineView::Complete {
                    name,
                    target,
                    after_target,
                    attrlist: inner.sub(0, inner.len() - 1),
                }
            }
        }
    }
}

/// The parts of a block macro line that was split by [`parse_macro_line`].
pub enum MacroLine {
    NotMacro,
    NoName,
    NoColons { name: Span, rest: Span },
    NoAttrlist { name: Span, target: Span, after_target: Span },
    Complete { name: Span, target: Span, after_target: Span, attrlist: Span },
}

impl View for MacroLine {
    type V = MacroLineView;

    open spec fn view(&self) -> MacroLineView {
        match self {
            MacroLine::NotMacro => MacroLineView::NotMacro,
            MacroLine::NoName => MacroLineView::NoName,
            MacroLine::NoColons { name, rest } => MacroLineView::NoColons { name: name@, rest: rest@ },
            MacroLine::NoAttrlist { name, target, after_target } => MacroLineView::NoAttrlist {
                name: name@,
                target: target@,
                after_target: after_target@,
            },
            MacroLine::Complete { name, target, after_target, attrlist } => MacroLineView::Complete {
                name: name@,
                target: target@,
                after_target: after_target@,
                attrlist: attrlist@,
            },
        }
    }
}

/// All the spans of a split macro line are well-formed.
pub open spec fn macro_line_wf(m: MacroLineView) -> bool {
    match m {
        MacroLineView::NoColons { name, rest } => name.wf() && rest.wf(),
        MacroLineView::NoAttrlist { name, target, after_target } => name.wf() && target.wf()
            && after_target.wf(),
        MacroLineView::Complete { name, target, after_target, attrlist } => name.wf() && target.wf()
            && after_target.wf() && attrlist.wf(),
        _ => true,
    }
}

/// Splits a (normalized) line into the parts of a block macro
/// `name::target[attrlist]`.
pub fn parse_macro_line(line: &Span) -> (r: MacroLine)
    requires
        line@.wf(),
    ensures
        r@ == macro_line(line@),
        macro_line_wf(r@),
{
    let n = line.len();
    if n == 0 || line.char_at(n - 1) != ']' {
        return MacroLine::NotMacro;
    }
    proof {
        lemma_run_len(line@.data.skip(1), word_pred());
    }
    let name = match line.take_ident() {
        Some(mi) => mi,
        None => {
            return MacroLine::NoName;
        },
    };
    let colons = match name.after.take_prefix("::") {
        Some(mi) => mi,
        None => {
            return MacroLine::NoColons { name: name.item, rest: name.after };
        },
    };
    proof {
        reveal_strlit("::");
        reveal_strlit("[");
    }
    let target = colons.after.take_class(CharClass::Not('['));
    let open = match target.after.take_prefix("[") {
        Some(mi) => mi,
        None => {
            return MacroLine::NoAttrlist { name: name.item, target: target.item, after_target: target.after };
        },
    };
    let ghost k = ident_len(line@.data);
    let ghost t = run_len(colons.after@.data, not_char('['));
    proof {
        lemma_run_len(colons.after@.data, not_char('['));
        assert(class_pred(CharClass::Not('[')) == not_char('['));
        lemma_skip_skip(line@, k, 2);
        lemma_skip_skip(line@, k + 2, t);
        lemma_skip_skip(line@, k + 2 + t, 1);
        assert(open.after@ == line@.skip(k + 3 + t));
        assert(open.after@.data.len() > 0 ==> open.after@.data.last() == line@.data.last());
        assert(open.after@.data.len() > 0) by {
            if open.after@.data.len() == 0 {
                assert(target.after@.data =~= seq!['[']);
                assert(line@.data.last() == target.after@.data.last());
            }
        }
    }
    let inner_len = open.after.len() - 1;
    let attrlist = open.after.slice_to(inner_len);
    MacroLine::Complete { name: name.item, target: target.item, after_target: target.after, attrlist }
}

} // verus!
