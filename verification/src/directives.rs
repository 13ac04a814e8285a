//! Directives in a source file that switch checking off for a line.

use crate::config::modules::lemma_deep_view_push;
use crate::seqs::{lemma_filter_empty, lemma_filter_push};
use vstd::prelude::*;

verus! {

/// A directive: checking is off on line `line_no`, for the modules named, or
/// for every module where none is named.
#[derive(Debug)]
pub struct IgnoreDirective {
    pub line_no: usize,
    pub modules: Vec<String>,
}

pub struct DirectiveView {
    pub line_no: usize,
    pub modules: Seq<Seq<char>>,
}

impl DeepView for IgnoreDirective {
    type V = DirectiveView;

    open spec fn deep_view(&self) -> DirectiveView {
        DirectiveView { line_no: self.line_no, modules: self.modules.deep_view() }
    }
}

impl Clone for IgnoreDirective {
    fn clone(&self) -> (r: Self)
        ensures
            r.deep_view() == self.deep_view(),
    {
        IgnoreDirective {
            line_no: self.line_no,
            modules: crate::config::modules::clone_texts(&self.modules),
        }
    }
}

/// Whether `directive` switches checking off for the module `path` on line
/// `line`.
pub open spec fn covers(directive: DirectiveView, path: Seq<char>, line: usize) -> bool {
    directive.line_no == line && (directive.modules.len() == 0 || directive.modules.contains(path))
}

/// Whether one of `directives` switches checking off for `path` on `line`.
pub open spec fn ignores(directives: Seq<DirectiveView>, path: Seq<char>, line: usize) -> bool {
    exists|i: int| 0 <= i < directives.len() && covers(#[trigger] directives[i], path, line)
}

/// `directives` without those on `line`.
pub open spec fn without_line(directives: Seq<DirectiveView>, line: usize) -> Seq<DirectiveView> {
    directives.filter(|directive: DirectiveView| directive.line_no != line)
}

/// What `without_line` keeps: every directive that is not on `line`, in
/// order, and nothing on `line`.
pub proof fn lemma_without_line(directives: Seq<DirectiveView>, line: usize)
    ensures
        forall|i: int|
            0 <= i < without_line(directives, line).len() ==> (#[trigger] without_line(
                directives,
                line,
            )[i]).line_no != line,
        (forall|i: int| 0 <= i < directives.len() ==> (#[trigger] directives[i]).line_no != line)
            ==> without_line(directives, line) == directives,
    decreases directives.len(),
{
    let keep = |directive: DirectiveView| directive.line_no != line;
    if directives.len() == 0 {
        lemma_filter_empty(keep);
        assert(directives =~= Seq::empty());
    } else {
        let front = directives.drop_last();
        lemma_without_line(front, line);
        lemma_filter_push(front, directives.last(), keep);
        assert(front.push(directives.last()) =~= directives);
        if forall|i: int| 0 <= i < directives.len() ==> (#[trigger] directives[i]).line_no != line {
            assert forall|i: int| 0 <= i < front.len() implies (#[trigger] front[i]).line_no
                != line by {
                assert(front[i] == directives[i]);
            }
            assert(directives[directives.len() - 1].line_no != line);
        }
    }
}

/// Taking out the directives of a line that has none changes nothing.
pub proof fn lemma_remove_nothing(directives: Seq<DirectiveView>, line: usize)
    requires
        forall|i: int| 0 <= i < directives.len() ==> (#[trigger] directives[i]).line_no != line,
    ensures
        without_line(directives, line) == directives,
{
    lemma_without_line(directives, line);
}

/// Once the directives of a line are taken out, none of them covers
/// anything, and taking them out again changes nothing.
pub proof fn lemma_removed_stays_removed(
    directives: Seq<DirectiveView>,
    line: usize,
    path: Seq<char>,
)
    ensures
        !ignores(without_line(directives, line), path, line),
        without_line(without_line(directives, line), line) == without_line(directives, line),
{
    lemma_without_line(directives, line);
    lemma_without_line(without_line(directives, line), line);
}

/// The directives of one file.
#[derive(Debug)]
pub struct IgnoreDirectives {
    pub directives: Vec<IgnoreDirective>,
}

impl DeepView for IgnoreDirectives {
    type V = Seq<DirectiveView>;

    open spec fn deep_view(&self) -> Seq<DirectiveView> {
        self.directives.deep_view()
    }
}

impl IgnoreDirectives {
    /// No directives.
    pub fn empty() -> (r: Self)
        ensures
            r.deep_view() == Seq::<DirectiveView>::empty(),
    {
        let r = IgnoreDirectives { directives: Vec::new() };
        assert(r.directives.deep_view() =~= Seq::<DirectiveView>::empty());
        r
    }

    /// How many directives there are.
    pub fn len(&self) -> (r: usize)
        ensures
            r == self.deep_view().len(),
    {
        self.directives.len()
    }

    /// Whether checking is off for the module `path` on line `line_no`.
    pub fn ignores_at(&self, path: &str, line_no: usize) -> (r: bool)
        ensures
            r == ignores(self.deep_view(), path@, line_no),
    {
        let mut i: usize = 0;
        while i < self.directives.len()
            invariant
                i <= self.directives.len(),
                forall|j: int| 0 <= j < i ==> !covers(#[trigger] self.deep_view()[j], path@, line_no),
            decreases self.directives.len() - i,
        {
            let directive = &self.directives[i];
            assert(directive.deep_view() == self.deep_view()[i as int]);
            if directive.line_no == line_no {
                if directive.modules.len() == 0 || crate::config::sync::has_path(
                    &directive.modules,
                    path,
                ) {
                    assert(covers(self.deep_view()[i as int], path@, line_no));
                    return true;
                }
            }
            i += 1;
        }
        false
    }

    /// Takes out the directives on line `line_no`. The others stay, in order.
    pub fn remove_matching_directives(&mut self, line_no: usize)
        ensures
            final(self).deep_view() == without_line(old(self).deep_view(), line_no),
    {
        let ghost before = self.deep_view();
        let ghost keep = |directive: DirectiveView| directive.line_no != line_no;
        let mut kept: Vec<IgnoreDirective> = Vec::new();
        let mut i: usize = 0;
        proof {
            assert(before.subrange(0, 0) =~= Seq::empty());
            lemma_filter_empty(keep);
            assert(kept.deep_view() =~= Seq::empty());
        }
        while i < self.directives.len()
            invariant
                i <= self.directives.len(),
                before == self.deep_view(),
                keep == |directive: DirectiveView| directive.line_no != line_no,
                kept.deep_view() == before.subrange(0, i as int).filter(keep),
            decreases self.directives.len() - i,
        {
            proof {
                assert(before.subrange(0, i + 1) =~= before.subrange(0, i as int).push(
                    before[i as int],
                ));
                lemma_filter_push(before.subrange(0, i as int), before[i as int], keep);
            }
            if self.directives[i].line_no != line_no {
                let ghost shorter = kept;
                kept.push(self.directives[i].clone());
                proof {
                    assert(kept@.drop_last() =~= shorter@);
                    lemma_deep_view_push(shorter, kept);
                }
            }
            i += 1;
        }
        assert(before.subrange(0, self.directives.len() as int) =~= before);
        self.directives = kept;
    }
}

} // verus!
