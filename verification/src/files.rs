//! The module path that a file's place under a source root gives it, and
//! the places at which an imported module is looked for.
//!
//! Paths are written with `/` between their parts.

use crate::paths::{chars_of, same_prefix};
use vstd::prelude::*;
use vstd::string::{StrSliceExecFns, StringExecFns};

verus! {

/// Whether `text` begins with `prefix`.
pub open spec fn starts_with(text: Seq<char>, prefix: Seq<char>) -> bool {
    prefix.len() <= text.len() && text.subrange(0, prefix.len() as int) == prefix
}

/// Whether `text` ends with `suffix`.
pub open spec fn ends_with(text: Seq<char>, suffix: Seq<char>) -> bool {
    suffix.len() <= text.len() && text.subrange(text.len() - suffix.len(), text.len() as int)
        == suffix
}

/// `path` with `new` in place of each `old`.
pub open spec fn swapped(path: Seq<char>, old: char, new: char) -> Seq<char> {
    path.map_values(
        |c: char|
            if c == old {
                new
            } else {
                c
            },
    )
}

/// `path` with a dot in place of each `/`.
pub open spec fn dotted(path: Seq<char>) -> Seq<char> {
    swapped(path, '/', '.')
}

/// `path` with a `/` in place of each dot.
pub open spec fn slashed(path: Seq<char>) -> Seq<char> {
    swapped(path, '.', '/')
}

/// Where the module `path` would lie under a source root: as a package, or
/// as a file of its own.
pub open spec fn module_files(path: Seq<char>) -> Seq<Seq<char>> {
    seq![slashed(path) + "/__init__.py"@, slashed(path) + ".py"@]
}

/// The files to look for, under a source root, to tell whether what is
/// imported as `path` belongs to the project: the places of the module
/// `path`, and those of the module that would hold `path` as a member.
pub open spec fn candidate_files(path: Seq<char>) -> Seq<Seq<char>> {
    let holder = crate::imports::parent_path(path);
    if holder.len() > 0 {
        module_files(path) + module_files(holder)
    } else {
        module_files(path)
    }
}

/// The place of `file` under `root`: `file` itself under the root `.` or the
/// empty root, what follows `root` and a `/` under any other, and `None`
/// where `file` does not lie under `root`.
pub open spec fn relative_to(root: Seq<char>, file: Seq<char>) -> Option<Seq<char>> {
    if root.len() == 0 || root == seq!['.'] {
        Some(file)
    } else if starts_with(file, root + seq!['/']) {
        Some(file.skip(root.len() as int + 1))
    } else {
        None
    }
}

/// The module of a source file at the place `relative` under a source root,
/// and whether the file is the body of a package: the place without its
/// `.py`, with dots between its parts; for a package's `__init__.py` the
/// package itself. `None` where the file is no source file.
pub open spec fn module_at(relative: Seq<char>) -> Option<(Seq<char>, bool)> {
    if !ends_with(relative, seq!['.', 'p', 'y']) {
        None
    } else {
        let stem = relative.take(relative.len() - 3);
        let init = seq!['_', '_', 'i', 'n', 'i', 't', '_', '_'];
        if stem == init {
            Some((Seq::empty(), true))
        } else if ends_with(stem, seq!['/'] + init) {
            Some((dotted(stem.take(stem.len() - 9)), true))
        } else {
            Some((dotted(stem), false))
        }
    }
}

/// The module of the source file `file`, by the first of `roots` under
/// which it lies; `None` where it lies under none of them or is no source
/// file.
pub open spec fn module_of_file(roots: Seq<Seq<char>>, file: Seq<char>) -> Option<
    (Seq<char>, bool),
>
    decreases roots.len(),
{
    if roots.len() == 0 {
        None
    } else {
        match relative_to(roots[0], file) {
            Some(relative) => module_at(relative),
            None => module_of_file(roots.drop_first(), file),
        }
    }
}

/// Whether `text` holds `part` from `at` on.
fn holds_at(text: &Vec<char>, at: usize, part: &Vec<char>) -> (r: bool)
    ensures
        r == (at + part.len() <= text.len() && text@.subrange(at as int, at + part.len())
            == part@),
{
    crate::scan::matches_at(text, at, part)
}

/// `text` between `from` and `to`, with `new` in place of each `old`.
/// `new_text` is `new` as a text.
fn swapped_part(
    source: &str,
    text: &Vec<char>,
    from: usize,
    to: usize,
    old: char,
    new: char,
    new_text: &str,
) -> (r: String)
    requires
        text@ == source@,
        from <= to <= text.len(),
        new_text@ == seq![new],
    ensures
        r@ == swapped(text@.subrange(from as int, to as int), old, new),
{
    let ghost span = text@.subrange(from as int, to as int);
    let mut out = String::new();
    let mut start: usize = from;
    let mut i: usize = from;
    assert(swapped(span.subrange(0, 0), old, new) =~= Seq::empty());
    while i < to
        invariant
            from <= start <= i <= to <= text.len(),
            text@ == source@,
            span == text@.subrange(from as int, to as int),
            out@ == swapped(span.subrange(0, start - from), old, new),
            forall|j: int| start <= j < i ==> text@[j] != old,
            new_text@ == seq![new],
        decreases to - i,
    {
        if text[i] == old {
            let ghost before = out@;
            out.append(source.substring_char(start, i));
            out.append(new_text);
            proof {
                let piece = text@.subrange(start as int, i as int);
                assert(out@ =~= before + piece + seq![new]);
                assert(out@ =~= swapped(span.subrange(0, i + 1 - from), old, new));
            }
            start = i + 1;
        }
        i += 1;
    }
    let ghost before = out@;
    out.append(source.substring_char(start, to));
    proof {
        let piece = text@.subrange(start as int, to as int);
        assert(out@ =~= before + piece);
        assert(span.subrange(0, to - from) =~= span);
        assert(out@ =~= swapped(span, old, new));
    }
    out
}

/// Where the module `path` would lie under a source root.
fn files_of_module(path: &str) -> (r: Vec<String>)
    ensures
        r.deep_view() == module_files(path@),
{
    let text = chars_of(path);
    proof {
        reveal_strlit("/");
        assert("/"@ =~= seq!['/']);
        assert(text@.subrange(0, text.len() as int) =~= text@);
    }
    let mut package = swapped_part(path, &text, 0, text.len(), '.', '/', "/");
    let mut file = package.clone();
    package.append("/__init__.py");
    file.append(".py");
    let mut out: Vec<String> = Vec::new();
    out.push(package);
    out.push(file);
    assert(out.deep_view() =~= module_files(path@));
    out
}

/// The files to look for, under a source root, to tell whether what is
/// imported as `mod_path` belongs to the project.
pub fn files_to_look_for(mod_path: &str) -> (r: Vec<String>)
    ensures
        r.deep_view() == candidate_files(mod_path@),
{
    let mut out = files_of_module(mod_path);
    let holder = crate::imports::parent(mod_path);
    if holder.as_str().unicode_len() > 0 {
        let ghost own = out.deep_view();
        let mut more = files_of_module(holder.as_str());
        let ghost added = more.deep_view();
        out.append(&mut more);
        assert(out.deep_view() =~= own + added);
    }
    out
}

/// The module of the source file `file_path`, by the first of
/// `source_roots` under which it lies, and whether the file is the body of a
/// package.
pub fn file_to_module_path(source_roots: &Vec<String>, file_path: &str) -> (r: Option<
    (String, bool),
>)
    ensures
        match module_of_file(source_roots.deep_view(), file_path@) {
            Some((module, is_package)) => r matches Some(found) && found.0@ == module && found.1
                == is_package,
            None => r is None,
        },
{
    let file = chars_of(file_path);
    let suffix = chars_of(".py");
    let init = chars_of("__init__");
    let nested = chars_of("/__init__");
    proof {
        reveal_strlit(".py");
        reveal_strlit("__init__");
        reveal_strlit("/__init__");
        reveal_strlit(".");
        assert("."@ =~= seq!['.']);
        assert(suffix@ =~= seq!['.', 'p', 'y']);
        assert(init@ =~= seq!['_', '_', 'i', 'n', 'i', 't', '_', '_']);
        assert(nested@ =~= seq!['/'] + init@);
    }
    let ghost roots = source_roots.deep_view();
    let mut k: usize = 0;
    assert(roots.subrange(0, roots.len() as int) =~= roots);
    while k < source_roots.len()
        invariant
            k <= source_roots.len(),
            roots == source_roots.deep_view(),
            file@ == file_path@,
            suffix@ == seq!['.', 'p', 'y'],
            init@ == seq!['_', '_', 'i', 'n', 'i', 't', '_', '_'],
            nested@ == seq!['/'] + init@,
            "."@ == seq!['.'],
            module_of_file(roots, file_path@) == module_of_file(
                roots.subrange(k as int, roots.len() as int),
                file_path@,
            ),
        decreases source_roots.len() - k,
    {
        let ghost rest = roots.subrange(k as int, roots.len() as int);
        assert(rest[0] == roots[k as int]);
        assert(rest.drop_first() =~= roots.subrange(k + 1, roots.len() as int));
        let root = chars_of(source_roots[k].as_str());
        let begin: Option<usize> = if root.len() == 0 || (root.len() == 1 && root[0] == '.') {
            assert(root.len() == 1 && root@[0] == '.' ==> root@ =~= seq!['.']);
            Some(0)
        } else if root.len() < file.len() && same_prefix(&file, &root, root.len()) && file[root.len()]
            == '/' {
            proof {
                assert(root@.subrange(0, root.len() as int) =~= root@);
                assert(file@.subrange(0, root.len() + 1) =~= root@ + seq!['/']);
            }
            Some(root.len() + 1)
        } else {
            proof {
                assert(root@.subrange(0, root.len() as int) =~= root@);
                if starts_with(file@, root@ + seq!['/']) {
                    let lead = file@.subrange(0, root.len() + 1);
                    assert(lead[root.len() as int] == '/');
                    assert(file@.subrange(0, root.len() as int) =~= lead.subrange(
                        0,
                        root.len() as int,
                    ));
                    assert(lead.subrange(0, root.len() as int) =~= root@);
                }
            }
            None
        };
        match begin {
            None => {},
            Some(begin) => {
                let ghost relative = file@.skip(begin as int);
                assert(relative_to(roots[k as int], file_path@) == Some(relative)) by {
                    assert(file@.skip(0) =~= file@);
                }
                let size = file.len() - begin;
                if size < 3 || !holds_at(&file, file.len() - 3, &suffix) {
                    proof {
                        if size >= 3 {
                            assert(relative.subrange(relative.len() - 3, relative.len() as int)
                                =~= file@.subrange(file.len() - 3, file.len() as int));
                        }
                    }
                    return None;
                }
                let end = file.len() - 3;
                let ghost stem = relative.take(relative.len() - 3);
                proof {
                    assert(relative.subrange(relative.len() - 3, relative.len() as int)
                        =~= file@.subrange(file.len() - 3, file.len() as int));
                    assert(stem =~= file@.subrange(begin as int, end as int));
                }
                if end - begin == 8 && holds_at(&file, begin, &init) {
                    return Some((String::new(), true));
                }
                assert(stem != init@);
                if end - begin >= 9 && holds_at(&file, end - 9, &nested) {
                    proof {
                        assert(stem.subrange(stem.len() - 9, stem.len() as int) =~= file@.subrange(
                            end - 9,
                            end as int,
                        ));
                        assert(stem.take(stem.len() - 9) =~= file@.subrange(
                            begin as int,
                            end - 9,
                        ));
                    }
                    return Some(
                        (swapped_part(file_path, &file, begin, end - 9, '/', '.', "."), true),
                    );
                }
                proof {
                    if end - begin >= 9 {
                        assert(stem.subrange(stem.len() - 9, stem.len() as int) =~= file@.subrange(
                            end - 9,
                            end as int,
                        ));
                    }
                }
                return Some((swapped_part(file_path, &file, begin, end, '/', '.', "."), false));
            },
        }
        k += 1;
    }
    None
}

} // verus!
