//! Paths as text with `/` between the segments, the form in which container
//! entries are named and in which the library hands paths back to its caller.

use vstd::prelude::*;
use crate::text::{
    chars_of, ends_with, has_prefix, has_sub, has_suffix, occurs_at, same_text, starts_with, string_of,
};

verus! {

/// `base` with `rel` under it. A `rel` that starts at the root stands for
/// itself, whatever `base` is; so does any `rel` under an empty `base`.
pub open spec fn joined(base: Seq<char>, rel: Seq<char>) -> Seq<char> {
    if (rel.len() > 0 && rel[0] == '/') || base.len() == 0 {
        rel
    } else if base.last() == '/' {
        base + rel
    } else {
        base + seq!['/'] + rel
    }
}

/// How much of `p` is left when separators at its end, and segments `.` at its
/// end, are dropped. A `.` that is all there is stays.
pub open spec fn name_end(p: Seq<char>) -> int
    decreases p.len(),
{
    if p.len() == 0 {
        0
    } else if p.last() == '/' {
        name_end(p.drop_last())
    } else if p.last() == '.' && p.len() >= 2 && p[p.len() - 2] == '/' {
        name_end(p.drop_last())
    } else {
        p.len() as int
    }
}

/// Where the segment that ends at `end` begins: behind the last `/` before `end`.
pub open spec fn segment_start(p: Seq<char>, end: int) -> int
    decreases end,
{
    if end <= 0 {
        0
    } else if p[end - 1] == '/' {
        end
    } else {
        segment_start(p, end - 1)
    }
}

/// Where the last segment of `p` begins.
pub open spec fn name_start(p: Seq<char>) -> int {
    segment_start(p, name_end(p))
}

/// The last segment of `p`, or `None` where `p` has none or ends in `.` or `..`.
pub open spec fn file_name_of(p: Seq<char>) -> Option<Seq<char>> {
    let name = p.subrange(name_start(p), name_end(p));
    if name.len() == 0 || name == "."@ || name == ".."@ {
        None
    } else {
        Some(name)
    }
}

/// Index of the last `.` in `name`, or -1.
pub open spec fn last_dot(name: Seq<char>) -> int
    decreases name.len(),
{
    if name.len() == 0 {
        -1
    } else if name.last() == '.' {
        name.len() - 1
    } else {
        last_dot(name.drop_last())
    }
}

/// Length of `name` without its extension: up to its last `.`, or all of it
/// where it has no `.` or only the one it begins with.
pub open spec fn stem_len(name: Seq<char>) -> int {
    if last_dot(name) <= 0 {
        name.len() as int
    } else {
        last_dot(name)
    }
}

/// `p` with the extension of its file name replaced by `ext`; `p` itself where
/// it has no file name.
pub open spec fn with_extension(p: Seq<char>, ext: Seq<char>) -> Seq<char> {
    match file_name_of(p) {
        None => p,
        Some(name) => p.take(name_start(p) + stem_len(name)) + seq!['.'] + ext,
    }
}

/// `path` is `base` or lies below it, segment for segment. Meant for paths made
/// canonical: from the root, with no `.` or `..` and no doubled separators.
/// The empty base stands for the directory in which the caller works: within
/// it lies every path that does not start at the root and does not climb.
pub open spec fn lies_within(path: Seq<char>, base: Seq<char>) -> bool {
    if base.len() == 0 {
        !escapes(path)
    } else {
        ||| path == base
        ||| has_prefix(path, base + seq!['/'])
        ||| (has_suffix(base, seq!['/']) && has_prefix(path, base))
    }
}

/// `path` is `dest` with something joined to it that does not escape: it was
/// made from `dest` by going down only.
pub open spec fn placed_under(path: Seq<char>, dest: Seq<char>) -> bool {
    exists|rel: Seq<char>| !escapes(rel) && path == #[trigger] joined(dest, rel)
}

/// Some segment of `p` is `..`.
pub open spec fn has_parent_segment(p: Seq<char>) -> bool {
    exists|i: int|
        #![trigger occurs_at(p, ".."@, i)]
        occurs_at(p, ".."@, i) && (i == 0 || p[i - 1] == '/') && (i + 2 == p.len() || p[i + 2] == '/')
}

/// `rel`, taken as a path under a directory, leaves that directory: it starts
/// at the root, or it climbs with a segment `..`.
pub open spec fn escapes(rel: Seq<char>) -> bool {
    (rel.len() > 0 && rel[0] == '/') || has_parent_segment(rel)
}

/// A path that does not escape stays, once joined to a directory, inside that
/// directory, whatever the directory is: the joined path lies within it, and
/// what was added holds no `..`.
pub proof fn lemma_join_stays_inside(base: Seq<char>, rel: Seq<char>)
    requires
        !escapes(rel),
    ensures
        lies_within(joined(base, rel), base),
        placed_under(joined(base, rel), base),
        has_suffix(joined(base, rel), rel),
        !has_parent_segment(rel),
{
    let j = joined(base, rel);
    assert(j.subrange(j.len() - rel.len(), j.len() as int) =~= rel);
    if base.len() == 0 {
    } else if base.last() == '/' {
        assert(j.subrange(0, base.len() as int) =~= base);
        assert(base.subrange(base.len() - 1, base.len() as int) =~= seq!['/']);
        assert(j.subrange(j.len() - rel.len(), j.len() as int) =~= rel);
    } else {
        assert(j.subrange(0, base.len() as int + 1) =~= base + seq!['/']);
        assert(j.subrange(j.len() - rel.len(), j.len() as int) =~= rel);
    }
}

/// Text without `..` anywhere has no segment `..`.
pub proof fn lemma_no_dots_no_parent(p: Seq<char>)
    requires
        !has_sub(p, ".."@),
    ensures
        !has_parent_segment(p),
{
}

/// A file name is one segment: it holds no separator, is not empty, and is
/// neither `.` nor `..`. So it does not escape.
pub proof fn lemma_file_name_is_segment(p: Seq<char>)
    requires
        file_name_of(p) is Some,
    ensures
        !file_name_of(p)->Some_0.contains('/'),
        file_name_of(p)->Some_0.len() > 0,
        !escapes(file_name_of(p)->Some_0),
{
    let end = name_end(p);
    let start = name_start(p);
    lemma_name_end(p);
    lemma_segment_start(p, end);
    let name = p.subrange(start, end);
    assert forall|k: int| 0 <= k < name.len() implies name[k] != '/' by {}
    reveal_strlit("..");
    assert forall|i: int| occurs_at(name, ".."@, i) && (i == 0 || name[i - 1] == '/') && (i + 2 == name.len()
        || name[i + 2] == '/') implies false by {
        assert(name.subrange(0, 2) =~= name);
    }
}

/// A single segment joined to a directory is the file name of the result.
pub proof fn lemma_file_name_of_joined(base: Seq<char>, segment: Seq<char>)
    requires
        segment.len() > 0,
        !segment.contains('/'),
        segment.last() != '.',
    ensures
        file_name_of(joined(base, segment)) == Some(segment),
{
    let p = joined(base, segment);
    let start = p.len() - segment.len();
    assert forall|k: int| start <= k < p.len() implies p[k] == segment[k - start] by {}
    lemma_segment_start(p, p.len() as int);
    let s = segment_start(p, p.len() as int);
    if s < start {
        assert(p[start - 1] == '/');
    }
    assert(p.subrange(start, p.len() as int) =~= segment);
    reveal_strlit(".");
    reveal_strlit("..");
}

/// `name_end` lies inside the path.
pub proof fn lemma_name_end(p: Seq<char>)
    ensures
        0 <= name_end(p) <= p.len(),
    decreases p.len(),
{
    if p.len() > 0 && (p.last() == '/' || (p.last() == '.' && p.len() >= 2 && p[p.len() - 2] == '/')) {
        lemma_name_end(p.drop_last());
    }
}

/// A segment begins at or before its end, right behind a separator or at the
/// start of the path, and holds no separator.
pub proof fn lemma_segment_start(p: Seq<char>, end: int)
    requires
        0 <= end <= p.len(),
    ensures
        0 <= segment_start(p, end) <= end,
        segment_start(p, end) > 0 ==> p[segment_start(p, end) - 1] == '/',
        forall|k: int| segment_start(p, end) <= k < end ==> p[k] != '/',
    decreases end,
{
    if end > 0 && p[end - 1] != '/' {
        lemma_segment_start(p, end - 1);
    }
}

/// Joins `rel` to `base`.
pub fn join(base: &str, rel: &str) -> (r: String)
    ensures
        r@ == joined(base@, rel@),
{
    let b = chars_of(base);
    let tail = chars_of(rel);
    if (tail.len() > 0 && tail[0] == '/') || b.len() == 0 {
        return rel.to_owned();
    }
    let mut r = base.to_owned();
    if b[b.len() - 1] != '/' {
        proof {
            reveal_strlit("/");
        }
        r.append("/");
    }
    r.append(rel);
    r
}

/// Where the file name of `p` begins and ends.
pub fn name_span(p: &Vec<char>) -> (r: (usize, usize))
    ensures
        r.0 == name_start(p@),
        r.1 == name_end(p@),
        r.0 <= r.1 <= p@.len(),
{
    let mut end: usize = p.len();
    assert(p@.take(end as int) =~= p@);
    while end > 0 && (p[end - 1] == '/' || (p[end - 1] == '.' && end >= 2 && p[end - 2] == '/'))
        invariant
            end <= p@.len(),
            name_end(p@) == name_end(p@.take(end as int)),
        decreases end,
    {
        assert(p@.take(end as int).drop_last() =~= p@.take(end - 1));
        end -= 1;
    }
    let mut start: usize = end;
    while start > 0 && p[start - 1] != '/'
        invariant
            start <= end <= p@.len(),
            segment_start(p@, end as int) == segment_start(p@, start as int),
        decreases start,
    {
        start -= 1;
    }
    (start, end)
}

/// The last segment of `path`, if it has one that names something.
pub fn file_name(path: &str) -> (r: Option<String>)
    ensures
        match file_name_of(path@) {
            Some(name) => r is Some && r->Some_0@ == name,
            None => r is None,
        },
{
    let p = chars_of(path);
    let (start, end) = name_span(&p);
    proof {
        reveal_strlit(".");
        reveal_strlit("..");
    }
    let ghost name = p@.subrange(start as int, end as int);
    if start == end {
        return None;
    }
    if end - start == 1 && p[start] == '.' {
        assert(name =~= "."@);
        return None;
    }
    if end - start == 2 && p[start] == '.' && p[start + 1] == '.' {
        assert(name =~= ".."@);
        return None;
    }
    assert(name.len() == end - start);
    assert(name[0] == p@[start as int]);
    assert(name != "."@) by {}
    assert(name != ".."@) by {
        if name == ".."@ {
            assert(".."@.len() == 2 && ".."@[0] == '.' && ".."@[1] == '.');
        }
    }
    Some(string_of(&p, start, end))
}

/// `path` with the extension of its file name replaced by `ext`.
pub fn replace_extension(path: &str, ext: &str) -> (r: String)
    ensures
        r@ == with_extension(path@, ext@),
{
    let p = chars_of(path);
    let (start, end) = name_span(&p);
    match file_name(path) {
        None => path.to_owned(),
        Some(_) => {
            let ghost name = p@.subrange(start as int, end as int);
            let mut dot: usize = end;
            assert(name.take(end - start) =~= name);
            while dot > start && p[dot - 1] != '.'
                invariant
                    start <= dot <= end <= p@.len(),
                    name == p@.subrange(start as int, end as int),
                    last_dot(name) == last_dot(name.take(dot - start)),
                decreases dot,
            {
                assert(name.take(dot - start).drop_last() =~= name.take(dot - start - 1));
                dot -= 1;
            }
            // `dot` is one past the last `.` of the name, or `start` where it has none
            let stem_end: usize = if dot <= start + 1 { end } else { dot - 1 };
            let mut r = string_of(&p, 0, stem_end);
            proof {
                reveal_strlit(".");
            }
            r.append(".");
            r.append(ext);
            r
        },
    }
}

/// Whether some segment of `p` is `..`.
pub fn climbs(p: &Vec<char>) -> (b: bool)
    ensures
        b == has_parent_segment(p@),
{
    proof {
        reveal_strlit("..");
    }
    if p.len() < 2 {
        return false;
    }
    let last: usize = p.len() - 2;
    let mut i: usize = 0;
    loop
        invariant
            last + 2 == p@.len() <= usize::MAX,
            ".."@.len() == 2 && ".."@[0] == '.' && ".."@[1] == '.',
            i <= last,
            forall|k: int|
                0 <= k < i ==> !(#[trigger] occurs_at(p@, ".."@, k) && (k == 0 || p@[k - 1] == '/') && (k + 2
                    == p@.len() || p@[k + 2] == '/')),
        decreases last - i,
    {
        let dots = p[i] == '.' && p[i + 1] == '.';
        let starts = i == 0 || p[i - 1] == '/';
        let ends = i == last || p[i + 2] == '/';
        if dots && starts && ends {
            assert(p@.subrange(i as int, i + 2) =~= ".."@);
            assert(occurs_at(p@, ".."@, i as int));
            return true;
        }
        proof {
            if occurs_at(p@, ".."@, i as int) {
                assert(p@.subrange(i as int, i + 2)[0] == '.');
                assert(p@.subrange(i as int, i + 2)[1] == '.');
            }
        }
        if i == last {
            return false;
        }
        i += 1;
    }
}

/// Whether `rel`, taken as a path under a directory, leaves that directory.
pub fn escaping(rel: &Vec<char>) -> (b: bool)
    ensures
        b == escapes(rel@),
{
    (rel.len() > 0 && rel[0] == '/') || climbs(rel)
}

/// Whether `path` is `base` or lies below it.
pub fn is_within(path: &str, base: &str) -> (b: bool)
    ensures
        b == lies_within(path@, base@),
{
    let p = chars_of(path);
    let d = chars_of(base);
    if d.len() == 0 {
        return !escaping(&p);
    }
    let mut with_sep = chars_of(base);
    with_sep.push('/');
    let slash: Vec<char> = vec!['/'];
    assert(slash@ =~= seq!['/']);
    assert(with_sep@ =~= base@ + seq!['/']);
    same_text(path, base) || starts_with(&p, &with_sep) || (ends_with(&d, &slash) && starts_with(&p, &d))
}

} // verus!
