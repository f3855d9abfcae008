//! What holds of the names of a path when paths are cut and put together.

use vstd::prelude::*;
use crate::path::{
    is_absolute, is_name, joined, lemma_piece_end, name_spans, names, parent_of, piece_end,
    starts_with, stripped, tail_after, SEPARATOR,
};

verus! {

/// The spans `spans`, each moved by `by`.
pub open spec fn shifted(spans: Seq<(int, int)>, by: int) -> Seq<(int, int)> {
    spans.map_values(|span: (int, int)| (span.0 + by, span.1 + by))
}

/// The names that a relative path consists of, in order.
pub open spec fn relative_names(path: Seq<u8>) -> Seq<Seq<u8>> {
    name_spans(path, 0).map_values(|span: (int, int)| path.subrange(span.0, span.1))
}

/// A piece ends where it ends in the same path without its first `cut`
/// bytes.
proof fn lemma_piece_end_skip(path: Seq<u8>, cut: int, from: int)
    requires
        0 <= cut <= from <= path.len(),
    ensures
        piece_end(path.skip(cut), from - cut) == piece_end(path, from) - cut,
    decreases path.len() - from,
{
    if from < path.len() && path[from] != SEPARATOR {
        lemma_piece_end_skip(path, cut, from + 1);
    }
}

/// A piece of a path that is cut off at `cut` ends where it ended, or at
/// the cut.
proof fn lemma_piece_end_take(path: Seq<u8>, cut: int, from: int)
    requires
        0 <= from <= cut <= path.len(),
    ensures
        piece_end(path.take(cut), from) == if piece_end(path, from) < cut {
            piece_end(path, from)
        } else {
            cut
        },
    decreases cut - from,
{
    if from < cut && path[from] != SEPARATOR {
        lemma_piece_end_take(path, cut, from + 1);
    } else if from == cut {
        lemma_piece_end(path, from);
    }
}

/// The names of a path without its first `cut` bytes are the names of the
/// path, at places that are `cut` lower.
proof fn lemma_spans_skip(path: Seq<u8>, cut: int, from: int)
    requires
        0 <= cut <= from,
        cut <= path.len(),
    ensures
        name_spans(path.skip(cut), from - cut) == shifted(name_spans(path, from), -cut),
    decreases path.len() + 1 - from,
{
    if from < path.len() {
        lemma_piece_end(path, from);
        lemma_piece_end_skip(path, cut, from);
        lemma_spans_skip(path, cut, piece_end(path, from) + 1);
    }
}

/// A separator, or the end of the path, parts the names before it from the
/// names after it.
proof fn lemma_spans_split(path: Seq<u8>, cut: int, from: int)
    requires
        0 <= from <= cut <= path.len(),
        cut == path.len() || path[cut] == SEPARATOR,
    ensures
        name_spans(path, from) == name_spans(path.take(cut), from) + name_spans(path, cut + 1),
    decreases cut - from,
{
    if from < cut {
        let end = piece_end(path, from);
        lemma_piece_end(path, from);
        lemma_piece_end_take(path, cut, from);
        if end == cut {
            assert(name_spans(path.take(cut), end + 1) =~= Seq::<(int, int)>::empty());
        } else {
            lemma_spans_split(path, cut, end + 1);
        }
    }
}

/// Where the names of a path are, one after the other: each is a piece of
/// the path that is not empty, lies behind the one before it, and ends at a
/// separator or at the end of the path; the names that follow it are the
/// names from its beginning, or from behind its end, on.
pub proof fn lemma_spans(path: Seq<u8>, from: int, k: int)
    requires
        0 <= from,
        0 <= k < name_spans(path, from).len(),
    ensures
        ({
            let spans = name_spans(path, from);
            &&& from <= spans[k].0 < spans[k].1 <= path.len()
            &&& spans[k].1 == piece_end(path, spans[k].0)
            &&& is_name(path, spans[k].0, spans[k].1)
            &&& spans[k].1 == path.len() || path[spans[k].1] == SEPARATOR
            &&& k > 0 ==> spans[k - 1].1 < spans[k].0
            &&& name_spans(path, spans[k].0) == spans.skip(k)
            &&& name_spans(path, spans[k].1 + 1) == spans.skip(k + 1)
        }),
    decreases path.len() + 1 - from,
{
    let end = piece_end(path, from);
    lemma_piece_end(path, from);
    if !is_name(path, from, end) {
        lemma_spans(path, end + 1, k);
    } else if k > 0 {
        lemma_spans(path, end + 1, k - 1);
    }
}

/// What is left of a path beyond its first `skip` names is relative and
/// consists of its other names.
pub proof fn lemma_tail_names(path: Seq<u8>, skip: int)
    requires
        0 <= skip <= names(path).len(),
    ensures
        !is_absolute(tail_after(path, skip)),
        relative_names(tail_after(path, skip)) == names(path).skip(skip),
{
    let spans = name_spans(path, 1);
    let count = spans.len() as int;
    let tail = tail_after(path, skip);
    if skip < count {
        let first = spans[skip].0;
        let last = spans[count - 1].1;
        lemma_spans(path, 1, skip);
        lemma_spans(path, first, count - 1 - skip);
        let cut_off = path.take(last);
        lemma_spans_split(path, last, first);
        lemma_spans_skip(cut_off, first, first);
        assert(tail =~= cut_off.skip(first));
        assert(relative_names(tail) =~= names(path).skip(skip)) by {
            assert forall|i: int| 0 <= i < count - skip implies relative_names(tail)[i] == names(
                path,
            ).skip(skip)[i] by {
                lemma_spans(cut_off, first, i);
            }
        }
    }
}

/// An absolute directory joined with a relative path is absolute and
/// consists of the names of the directory followed by the names of the
/// relative path.
pub proof fn lemma_joined_names(dir: Seq<u8>, rel: Seq<u8>)
    requires
        is_absolute(dir),
        !is_absolute(rel),
    ensures
        is_absolute(joined(dir, rel)),
        names(joined(dir, rel)) == names(dir) + relative_names(rel),
{
    let whole = joined(dir, rel);
    let head = if dir.last() != SEPARATOR {
        dir + seq![SEPARATOR]
    } else {
        dir
    };
    let at = head.len() as int;
    let dir_spans = name_spans(dir, 1);
    let rel_spans = name_spans(rel, 0);
    // The names behind the separator that ends `head` are those of `rel`.
    lemma_spans_skip(whole, at, at);
    assert(whole.skip(at) =~= rel);
    // The names before it are those of `dir`.
    assert(name_spans(whole.take(at - 1), 1) =~= dir_spans) by {
        if at >= 2 {
            if dir.last() != SEPARATOR {
                assert(whole.take(at - 1) =~= dir);
            } else {
                assert(whole.take(at - 1) =~= dir.take(at - 1));
                lemma_spans_split(dir, at - 1, 1);
            }
        }
    }
    assert(name_spans(whole, 1) =~= dir_spans + shifted(rel_spans, at)) by {
        if at >= 2 {
            lemma_spans_split(whole, at - 1, 1);
        }
    }
    assert(names(whole) =~= names(dir) + relative_names(rel)) by {
        assert forall|i: int| 0 <= i < names(whole).len() implies names(whole)[i] == (names(dir)
            + relative_names(rel))[i] by {
            if i < dir_spans.len() {
                lemma_spans(dir, 1, i);
            } else {
                lemma_spans(rel, 0, i - dir_spans.len());
            }
        }
    }
}

/// The parent of a path is absolute and consists of the names of the path
/// but the last.
pub proof fn lemma_parent_names(path: Seq<u8>)
    requires
        parent_of(path) is Some,
    ensures
        is_absolute(parent_of(path)->0),
        names(path).len() > 0,
        names(parent_of(path)->0) == names(path).drop_last(),
{
    let spans = name_spans(path, 1);
    let count = spans.len() as int;
    let up = parent_of(path)->0;
    if count > 1 {
        let cut = spans[count - 2].1;
        lemma_spans(path, 1, count - 2);
        lemma_spans_split(path, cut, 1);
        assert(names(up) =~= names(path).drop_last()) by {
            assert forall|i: int| 0 <= i < count - 1 implies names(up)[i] == names(path)[i] by {
                lemma_spans(up, 1, i);
            }
        }
    }
}

/// Whether a path lies at or under a directory is a matter of names alone,
/// and what is stripped from it holds the names beyond the directory's.
pub proof fn lemma_stripped_names(path: Seq<u8>, base: Seq<u8>)
    requires
        starts_with(path, base),
    ensures
        stripped(path, base) is Some,
        !is_absolute(stripped(path, base)->0),
        names(path) == names(base) + relative_names(stripped(path, base)->0),
{
    lemma_tail_names(path, names(base).len() as int);
}

} // verus!
