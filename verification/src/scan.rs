//! Finding the directives in a source text.
//!
//! A directive is written `# tach-ignore`, and may be followed on its line
//! by the modules that it is about, with spaces between them. It counts for
//! the line on which it stands. Lines are told apart here by line feeds.

use crate::config::modules::lemma_deep_view_push;
use crate::directives::{DirectiveView, IgnoreDirective, IgnoreDirectives};
use crate::paths::chars_of;
use crate::seqs::{lemma_filter_empty, lemma_filter_push};
use vstd::prelude::*;
use vstd::string::StrSliceExecFns;

verus! {

/// The text that marks a directive.
pub open spec fn marker() -> Seq<char> {
    "# tach-ignore"@
}

/// Whether `pattern` stands in `text` at `at`.
pub open spec fn stands_at(text: Seq<char>, at: int, pattern: Seq<char>) -> bool {
    0 <= at && at + pattern.len() <= text.len() && text.subrange(at, at + pattern.len())
        == pattern
}

/// Where the line that holds `at` ends: at the next line feed, or at the end
/// of the text.
pub open spec fn line_end(text: Seq<char>, at: int) -> int
    decreases text.len() - at,
{
    if at >= text.len() {
        text.len() as int
    } else if 0 <= at && text[at] == '\n' {
        at
    } else {
        line_end(text, at + 1)
    }
}

/// How many line feeds stand before `at`.
pub open spec fn feeds_before(text: Seq<char>, at: int) -> nat
    decreases at,
{
    if at <= 0 {
        0
    } else if at <= text.len() && text[at - 1] == '\n' {
        feeds_before(text, at - 1) + 1
    } else {
        feeds_before(text, at - 1)
    }
}

/// `text` cut at its spaces: the pieces between them, empty ones too.
pub open spec fn pieces(text: Seq<char>) -> Seq<Seq<char>>
    decreases text.len(),
{
    if text.len() == 0 {
        seq![Seq::empty()]
    } else if text.last() == ' ' {
        pieces(text.drop_last()).push(Seq::empty())
    } else {
        let before = pieces(text.drop_last());
        before.drop_last().push(before.last().push(text.last()))
    }
}

/// The words of `text`: what stands between its spaces, without the empty
/// pieces.
pub open spec fn words(text: Seq<char>) -> Seq<Seq<char>> {
    pieces(text).filter(|piece: Seq<char>| piece.len() > 0)
}

/// The directive whose marker stands at `at`.
pub open spec fn directive_at(text: Seq<char>, at: int) -> DirectiveView {
    DirectiveView {
        line_no: (feeds_before(text, at) + 1) as usize,
        modules: words(text.subrange(at + marker().len(), line_end(text, at + marker().len()))),
    }
}

/// The directives whose markers stand before `upto`, in order.
pub open spec fn directives_before(text: Seq<char>, upto: int) -> Seq<DirectiveView>
    decreases upto,
{
    if upto <= 0 {
        Seq::empty()
    } else if stands_at(text, upto - 1, marker()) {
        directives_before(text, upto - 1).push(directive_at(text, upto - 1))
    } else {
        directives_before(text, upto - 1)
    }
}

/// The directives of `text`, in order.
pub open spec fn directives_of(text: Seq<char>) -> Seq<DirectiveView> {
    directives_before(text, text.len() as int)
}

/// The line of a place in the text is no later than the place itself.
pub proof fn lemma_feeds_bounded(text: Seq<char>, at: int)
    requires
        0 <= at,
    ensures
        feeds_before(text, at) <= at,
    decreases at,
{
    if at > 0 {
        lemma_feeds_bounded(text, at - 1);
    }
}

/// Whether `pattern` stands in `text` at `at`.
pub fn matches_at(text: &Vec<char>, at: usize, pattern: &Vec<char>) -> (r: bool)
    ensures
        r == stands_at(text@, at as int, pattern@),
{
    if pattern.len() > text.len() || at > text.len() - pattern.len() {
        return false;
    }
    let ghost window = text@.subrange(at as int, at + pattern.len());
    let mut i: usize = 0;
    while i < pattern.len()
        invariant
            i <= pattern.len(),
            at + pattern.len() <= text.len(),
            window == text@.subrange(at as int, at + pattern.len()),
            forall|j: int| 0 <= j < i ==> window[j] == pattern@[j],
        decreases pattern.len() - i,
    {
        if text[at + i] != pattern[i] {
            assert(window[i as int] != pattern@[i as int]);
            return false;
        }
        i += 1;
    }
    assert(window =~= pattern@);
    true
}

/// Where the line that holds `at` ends.
pub fn find_line_end(text: &Vec<char>, at: usize) -> (r: usize)
    ensures
        r == line_end(text@, at as int),
        r <= text.len(),
        at <= text.len() ==> at <= r,
{
    let mut i: usize = at;
    while i < text.len() && text[i] != '\n'
        invariant
            at <= i,
            line_end(text@, at as int) == line_end(text@, i as int),
        decreases text.len() - i,
    {
        i += 1;
    }
    if i > text.len() {
        text.len()
    } else {
        i
    }
}

/// The words of `source` between `from` and `to`.
pub fn split_words(source: &str, text: &Vec<char>, from: usize, to: usize) -> (r: Vec<String>)
    requires
        text@ == source@,
        from <= to <= text.len(),
    ensures
        r.deep_view() == words(text@.subrange(from as int, to as int)),
{
    let ghost keep = |piece: Seq<char>| piece.len() > 0;
    let ghost span = text@.subrange(from as int, to as int);
    let mut out: Vec<String> = Vec::new();
    let mut start: usize = from;
    let mut i: usize = from;
    let ghost mut done: Seq<Seq<char>> = Seq::empty();
    proof {
        lemma_filter_empty(keep);
        assert(span.subrange(0, 0) =~= Seq::empty());
        assert(pieces(span.subrange(0, 0)) =~= done.push(Seq::empty()));
        assert(text@.subrange(from as int, from as int) =~= Seq::empty());
        assert(out.deep_view() =~= Seq::empty());
    }
    while i < to
        invariant
            from <= start <= i <= to <= text.len(),
            text@ == source@,
            span == text@.subrange(from as int, to as int),
            keep == |piece: Seq<char>| piece.len() > 0,
            pieces(span.subrange(0, i - from)) == done.push(
                text@.subrange(start as int, i as int),
            ),
            out.deep_view() == done.filter(keep),
        decreases to - i,
    {
        let ghost current = text@.subrange(start as int, i as int);
        proof {
            let next = span.subrange(0, i + 1 - from);
            assert(next.drop_last() =~= span.subrange(0, i - from));
            assert(next.last() == text@[i as int]);
            assert(done.push(current).drop_last() =~= done);
            assert(done.push(current).last() == current);
        }
        if text[i] == ' ' {
            proof {
                lemma_filter_push(done, current, keep);
            }
            if i > start {
                let word = source.substring_char(start, i).to_owned();
                let ghost shorter = out;
                out.push(word);
                proof {
                    assert(out@.drop_last() =~= shorter@);
                    lemma_deep_view_push(shorter, out);
                }
            } else {
                assert(current =~= Seq::empty());
            }
            proof {
                done = done.push(current);
                assert(text@.subrange(i + 1, i + 1) =~= Seq::empty());
            }
            start = i + 1;
        } else {
            assert(text@.subrange(start as int, i + 1) =~= current.push(text@[i as int]));
        }
        i += 1;
    }
    let ghost current = text@.subrange(start as int, to as int);
    proof {
        assert(span.subrange(0, to - from) =~= span);
        lemma_filter_push(done, current, keep);
    }
    if to > start {
        let word = source.substring_char(start, to).to_owned();
        let ghost shorter = out;
        out.push(word);
        proof {
            assert(out@.drop_last() =~= shorter@);
            lemma_deep_view_push(shorter, out);
        }
    } else {
        assert(current =~= Seq::empty());
    }
    out
}

/// The directives in `contents`, in the order in which they stand.
pub fn get_ignore_directives(contents: &str) -> (r: IgnoreDirectives)
    ensures
        r.deep_view() == directives_of(contents@),
{
    let text = chars_of(contents);
    let pattern = chars_of("# tach-ignore");
    let mut found: Vec<IgnoreDirective> = Vec::new();
    let mut feeds: usize = 0;
    let mut at: usize = 0;
    assert(found.deep_view() =~= directives_before(text@, 0));
    while at < text.len()
        invariant
            at <= text.len(),
            text@ == contents@,
            pattern@ == marker(),
            feeds == feeds_before(text@, at as int),
            found.deep_view() == directives_before(text@, at as int),
        decreases text.len() - at,
    {
        proof {
            lemma_feeds_bounded(text@, at as int);
            lemma_feeds_bounded(text@, at + 1);
        }
        if matches_at(&text, at, &pattern) {
            let after = at + pattern.len();
            let end = find_line_end(&text, after);
            let directive = IgnoreDirective {
                line_no: feeds + 1,
                modules: split_words(contents, &text, after, end),
            };
            assert(directive.deep_view() == directive_at(text@, at as int));
            let ghost shorter = found;
            found.push(directive);
            proof {
                assert(found@.drop_last() =~= shorter@);
                lemma_deep_view_push(shorter, found);
            }
        }
        if text[at] == '\n' {
            feeds += 1;
        }
        at += 1;
    }
    IgnoreDirectives { directives: found }
}

} // verus!
