//! Absolute Unix paths as byte strings.
//!
//! A path is read as a root `/` followed by pieces separated by `/`. The
//! pieces that are empty or a single dot carry no meaning; the others are the
//! path's names. Two paths are compared name by name, so `/a//b/.` lies
//! under `/a` and `/ab` does not.

use vstd::prelude::*;

verus! {

/// The byte that separates the pieces of a path.
pub const SEPARATOR: u8 = 0x2f;

/// The byte of which the "current directory" piece consists.
pub const DOT: u8 = 0x2e;

/// A path is absolute when it begins at the root.
pub open spec fn is_absolute(path: Seq<u8>) -> bool {
    path.len() > 0 && path[0] == SEPARATOR
}

/// The end of the piece that begins at `from`: the index of the next
/// separator, or the length of the path where none follows.
pub open spec fn piece_end(path: Seq<u8>, from: int) -> int
    decreases path.len() - from,
{
    if from >= path.len() || path[from] == SEPARATOR {
        from
    } else {
        piece_end(path, from + 1)
    }
}

/// The piece `start..end` is a name: it is not empty and not a single dot.
pub open spec fn is_name(path: Seq<u8>, start: int, end: int) -> bool {
    start < end && !(end == start + 1 && path[start] == DOT)
}

/// The names of `path` from the piece that begins at `from` on, each as the
/// pair of the index where it begins and the index where it ends.
pub open spec fn name_spans(path: Seq<u8>, from: int) -> Seq<(int, int)>
    decreases path.len() + 1 - from,
    via name_spans_decreases
{
    if from < 0 || from >= path.len() {
        Seq::empty()
    } else {
        let end = piece_end(path, from);
        if is_name(path, from, end) {
            seq![(from, end)] + name_spans(path, end + 1)
        } else {
            name_spans(path, end + 1)
        }
    }
}

#[via_fn]
proof fn name_spans_decreases(path: Seq<u8>, from: int) {
    if 0 <= from < path.len() {
        lemma_piece_end(path, from);
    }
}

/// The names of an absolute path, in order, root excluded.
pub open spec fn names(path: Seq<u8>) -> Seq<Seq<u8>> {
    name_spans(path, 1).map_values(|span: (int, int)| path.subrange(span.0, span.1))
}

/// A piece ends at or after its beginning, within the path, at a separator
/// or at the end, and holds no separator.
pub proof fn lemma_piece_end(path: Seq<u8>, from: int)
    requires
        0 <= from <= path.len(),
    ensures
        from <= piece_end(path, from) <= path.len(),
        piece_end(path, from) < path.len() ==> path[piece_end(path, from)] == SEPARATOR,
        forall|i: int| from <= i < piece_end(path, from) ==> path[i] != SEPARATOR,
    decreases path.len() - from,
{
    if from < path.len() && path[from] != SEPARATOR {
        lemma_piece_end(path, from + 1);
    }
}

/// `path` lies at or under `base`: both are absolute, and the names of `base`
/// are the first names of `path`.
pub open spec fn starts_with(path: Seq<u8>, base: Seq<u8>) -> bool {
    is_absolute(path) && is_absolute(base) && names(base).is_prefix_of(names(path))
}

/// The text of `path` from the beginning of its name number `skip` (counted
/// from zero) to the end of its last name; empty where it has no such name.
pub open spec fn tail_after(path: Seq<u8>, skip: int) -> Seq<u8> {
    let spans = name_spans(path, 1);
    if 0 <= skip < spans.len() {
        path.subrange(spans[skip].0, spans.last().1)
    } else {
        Seq::empty()
    }
}

/// `path` without the leading `base`: what follows the names of `base`, where
/// `path` lies at or under `base`.
pub open spec fn stripped(path: Seq<u8>, base: Seq<u8>) -> Option<Seq<u8>> {
    if starts_with(path, base) {
        Some(tail_after(path, names(base).len() as int))
    } else {
        None
    }
}

/// `rel` appended to `dir` with one separator between them, unless `dir` is
/// empty or ends in one already. An absolute `rel` stands for itself.
pub open spec fn joined(dir: Seq<u8>, rel: Seq<u8>) -> Seq<u8> {
    if is_absolute(rel) {
        rel
    } else if dir.len() > 0 && dir.last() != SEPARATOR {
        dir + seq![SEPARATOR] + rel
    } else {
        dir + rel
    }
}

/// The path without its last name and without what separates the two. The
/// root alone, and a relative path, have no parent.
pub open spec fn parent_of(path: Seq<u8>) -> Option<Seq<u8>> {
    let spans = name_spans(path, 1);
    if !is_absolute(path) || spans.len() == 0 {
        None
    } else if spans.len() == 1 {
        Some(path.take(1))
    } else {
        Some(path.take(spans[spans.len() - 2].1))
    }
}

/// What an optional byte vector holds.
pub open spec fn bytes_of(value: Option<Vec<u8>>) -> Option<Seq<u8>> {
    match value {
        Some(bytes) => Some(bytes@),
        None => None,
    }
}

/// Beyond the end of a path there are no names.
pub proof fn lemma_no_names_at_end(path: Seq<u8>, from: int)
    requires
        from >= path.len(),
    ensures
        name_spans(path, from) == Seq::<(int, int)>::empty(),
{
}

proof fn lemma_skip_head<T>(whole: Seq<T>, n: int, head: T, tail: Seq<T>)
    requires
        0 <= n <= whole.len(),
        whole.skip(n) == seq![head] + tail,
    ensures
        n < whole.len(),
        whole[n] == head,
        whole.skip(n + 1) == tail,
{
    assert(whole.skip(n)[0] == head);
    assert(whole.skip(n + 1) =~= whole.skip(n).skip(1));
}

proof fn lemma_skip_empty<T>(whole: Seq<T>, n: int)
    requires
        0 <= n <= whole.len(),
        whole.skip(n) == Seq::<T>::empty(),
    ensures
        n == whole.len(),
{
    assert(whole.skip(n).len() == 0);
}

fn find_piece_end(path: &[u8], from: usize) -> (end: usize)
    requires
        from <= path.len(),
    ensures
        end == piece_end(path@, from as int),
        from <= end <= path.len(),
{
    let mut i = from;
    while i < path.len() && path[i] != SEPARATOR
        invariant
            from <= i <= path.len(),
            piece_end(path@, from as int) == piece_end(path@, i as int),
        decreases path.len() - i,
    {
        i += 1;
    }
    i
}

/// The first name at or after the piece that begins at `from`.
fn next_name(path: &[u8], from: usize) -> (found: Option<(usize, usize)>)
    requires
        from <= path.len(),
    ensures
        match found {
            Some((start, end)) => {
                &&& from <= start < end <= path.len()
                &&& name_spans(path@, from as int) == seq![(start as int, end as int)]
                    + name_spans(path@, end + 1)
            },
            None => name_spans(path@, from as int) == Seq::<(int, int)>::empty(),
        },
{
    let mut start = from;
    while start < path.len()
        invariant
            from <= start <= path.len(),
            name_spans(path@, from as int) == name_spans(path@, start as int),
        decreases path.len() - start,
    {
        let end = find_piece_end(path, start);
        if end > start && !(end == start + 1 && path[start] == DOT) {
            return Some((start, end));
        }
        if end == path.len() {
            proof {
                lemma_no_names_at_end(path@, end + 1);
            }
            return None;
        }
        start = end + 1;
    }
    None
}

/// Where the piece after the one that ends at `end` begins.
fn piece_after(path: &[u8], end: usize) -> (next: usize)
    requires
        end <= path.len(),
    ensures
        end <= next <= path.len(),
        end < path.len() ==> next == end + 1,
        name_spans(path@, next as int) == name_spans(path@, end + 1),
{
    if end < path.len() {
        end + 1
    } else {
        end
    }
}

fn same_bytes(a: &[u8], a_start: usize, a_end: usize, b: &[u8], b_start: usize, b_end: usize) -> (same: bool)
    requires
        a_start <= a_end <= a.len(),
        b_start <= b_end <= b.len(),
    ensures
        same == (a@.subrange(a_start as int, a_end as int) == b@.subrange(
            b_start as int,
            b_end as int,
        )),
{
    if a_end - a_start != b_end - b_start {
        assert(a@.subrange(a_start as int, a_end as int).len() != b@.subrange(
            b_start as int,
            b_end as int,
        ).len());
        return false;
    }
    let len = a_end - a_start;
    let mut i: usize = 0;
    while i < len
        invariant
            a_start <= a_end <= a.len(),
            b_start <= b_end <= b.len(),
            len == a_end - a_start,
            len == b_end - b_start,
            0 <= i <= len,
            a@.subrange(a_start as int, a_start + i) == b@.subrange(b_start as int, b_start + i),
        decreases len - i,
    {
        if a[a_start + i] != b[b_start + i] {
            assert(a@.subrange(a_start as int, a_end as int)[i as int] != b@.subrange(
                b_start as int,
                b_end as int,
            )[i as int]);
            return false;
        }
        i += 1;
    }
    true
}

pub(crate) fn push_bytes(buffer: &mut Vec<u8>, bytes: &[u8], start: usize, end: usize)
    requires
        start <= end <= bytes.len(),
    ensures
        final(buffer)@ == old(buffer)@ + bytes@.subrange(start as int, end as int),
{
    let mut i = start;
    while i < end
        invariant
            start <= i <= end <= bytes.len(),
            buffer@ == old(buffer)@ + bytes@.subrange(start as int, i as int),
        decreases end - i,
    {
        buffer.push(bytes[i]);
        i += 1;
    }
}

/// A fresh vector with the bytes of `bytes`.
pub(crate) fn to_vec(bytes: &[u8]) -> (copy: Vec<u8>)
    ensures
        copy@ == bytes@,
{
    let mut copy: Vec<u8> = Vec::new();
    push_bytes(&mut copy, bytes, 0, bytes.len());
    copy
}

/// Tells whether `path` is relative, that is: does not begin with `/`.
pub fn is_relative(path: &[u8]) -> (relative: bool)
    ensures
        relative == !is_absolute(path@),
{
    path.len() == 0 || path[0] != SEPARATOR
}

/// Removes the leading `base` from `path`.
///
/// Succeeds where both are absolute and the names of `base` are the first
/// names of `path`. What comes back is relative: the text of `path` from the
/// first name that `base` does not account for to the end of its last name,
/// with everything between them as it stands; empty where nothing is left.
pub fn strip_prefix(path: &[u8], base: &[u8]) -> (rest: Option<Vec<u8>>)
    ensures
        bytes_of(rest) == stripped(path@, base@),
{
    if is_relative(path) || is_relative(base) {
        return None;
    }
    let ghost path_spans = name_spans(path@, 1);
    let ghost base_spans = name_spans(base@, 1);
    let mut i: usize = 1;
    let mut j: usize = 1;
    let ghost mut matched: int = 0;
    loop
        invariant
            is_absolute(path@),
            is_absolute(base@),
            path_spans == name_spans(path@, 1),
            base_spans == name_spans(base@, 1),
            1 <= i <= path.len(),
            1 <= j <= base.len(),
            0 <= matched <= path_spans.len(),
            matched <= base_spans.len(),
            name_spans(path@, i as int) == path_spans.skip(matched),
            name_spans(base@, j as int) == base_spans.skip(matched),
            forall|m: int|
                0 <= m < matched ==> (#[trigger] names(path@)[m]) == names(base@)[m],
        ensures
            matched == base_spans.len(),
        decreases base.len() - j,
    {
        match next_name(base, j) {
            None => {
                proof {
                    lemma_skip_empty(base_spans, matched);
                }
                break ;
            },
            Some((base_start, base_end)) => {
                proof {
                    lemma_skip_head(
                        base_spans,
                        matched,
                        (base_start as int, base_end as int),
                        name_spans(base@, base_end + 1),
                    );
                }
                match next_name(path, i) {
                    None => {
                        return None;
                    },
                    Some((path_start, path_end)) => {
                        proof {
                            lemma_skip_head(
                                path_spans,
                                matched,
                                (path_start as int, path_end as int),
                                name_spans(path@, path_end + 1),
                            );
                        }
                        if !same_bytes(path, path_start, path_end, base, base_start, base_end) {
                            assert(names(path@)[matched] != names(base@)[matched]);
                            return None;
                        }
                        i = piece_after(path, path_end);
                        j = piece_after(base, base_end);
                        proof {
                            matched = matched + 1;
                        }
                    },
                }
            },
        }
    }
    match next_name(path, i) {
        None => Some(Vec::new()),
        Some((first_start, first_end)) => {
            proof {
                lemma_skip_head(
                    path_spans,
                    matched,
                    (first_start as int, first_end as int),
                    name_spans(path@, first_end + 1),
                );
            }
            let mut last_end = first_end;
            let mut cursor = piece_after(path, first_end);
            let ghost mut seen: int = matched + 1;
            loop
                invariant
                    path_spans == name_spans(path@, 1),
                    cursor <= path.len(),
                    0 <= matched < seen <= path_spans.len(),
                    name_spans(path@, cursor as int) == path_spans.skip(seen),
                    last_end == path_spans[seen - 1].1,
                    first_start < first_end <= last_end <= cursor,
                ensures
                    seen == path_spans.len(),
                decreases path.len() - cursor,
            {
                match next_name(path, cursor) {
                    None => {
                        proof {
                            lemma_skip_empty(path_spans, seen);
                        }
                        break ;
                    },
                    Some((start, end)) => {
                        proof {
                            lemma_skip_head(
                                path_spans,
                                seen,
                                (start as int, end as int),
                                name_spans(path@, end + 1),
                            );
                        }
                        last_end = end;
                        cursor = piece_after(path, end);
                        proof {
                            seen = seen + 1;
                        }
                    },
                }
            }
            let mut rest: Vec<u8> = Vec::new();
            push_bytes(&mut rest, path, first_start, last_end);
            Some(rest)
        },
    }
}

/// Appends `rel` to `dir`.
///
/// One separator is put between the two unless `dir` is empty or ends in one
/// already; an empty `rel` therefore leaves `dir` with a trailing separator.
/// An absolute `rel` replaces `dir` altogether.
pub fn join(dir: &[u8], rel: &[u8]) -> (whole: Vec<u8>)
    ensures
        whole@ == joined(dir@, rel@),
{
    let mut whole: Vec<u8> = Vec::new();
    if !is_relative(rel) {
        push_bytes(&mut whole, rel, 0, rel.len());
        return whole;
    }
    push_bytes(&mut whole, dir, 0, dir.len());
    if dir.len() > 0 && dir[dir.len() - 1] != SEPARATOR {
        whole.push(SEPARATOR);
    }
    push_bytes(&mut whole, rel, 0, rel.len());
    whole
}

/// The parent of an absolute path: the path up to the end of the name
/// before its last, or the root where it has one name only. The root itself
/// has no parent, and neither has a relative path.
pub fn parent(path: &[u8]) -> (up: Option<Vec<u8>>)
    ensures
        bytes_of(up) == parent_of(path@),
{
    if is_relative(path) {
        return None;
    }
    let ghost spans = name_spans(path@, 1);
    match next_name(path, 1) {
        None => None,
        Some((_, first_end)) => {
            let mut keep: usize = 1;
            let mut last_end = first_end;
            let mut cursor = piece_after(path, first_end);
            let ghost mut seen: int = 1;
            loop
                invariant
                    spans == name_spans(path@, 1),
                    cursor <= path.len(),
                    1 <= seen <= spans.len(),
                    name_spans(path@, cursor as int) == spans.skip(seen),
                    last_end == spans[seen - 1].1,
                    1 <= last_end <= cursor,
                    1 <= keep <= path.len(),
                    seen == 1 ==> keep == 1,
                    seen > 1 ==> keep == spans[seen - 2].1,
                ensures
                    seen == spans.len(),
                decreases path.len() - cursor,
            {
                match next_name(path, cursor) {
                    None => {
                        proof {
                            lemma_skip_empty(spans, seen);
                        }
                        break ;
                    },
                    Some((start, end)) => {
                        proof {
                            lemma_skip_head(
                                spans,
                                seen,
                                (start as int, end as int),
                                name_spans(path@, end + 1),
                            );
                        }
                        keep = last_end;
                        last_end = end;
                        cursor = piece_after(path, end);
                        proof {
                            seen = seen + 1;
                        }
                    },
                }
            }
            let mut up: Vec<u8> = Vec::new();
            push_bytes(&mut up, path, 0, keep);
            Some(up)
        },
    }
}

} // verus!
