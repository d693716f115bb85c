//! The library's path model and the input-to-output path mapping.
//!
//! Paths are `/`-separated strings. A path's segments are its maximal
//! runs of non-separator characters, so repeated separators collapse and
//! a trailing separator is ignored; `.` and `..` are ordinary segments.
//! The output path of an input file is the output root's segments
//! followed by the input path's segments relative to the input root,
//! joined with single separators; Markdown outputs additionally have
//! their extension forced to `.html`.

use vstd::prelude::*;

use crate::text::append_chars;
use crate::text::char_vecs_equal;
use crate::text::chars_to_string;
use crate::text::copy_range;
use crate::text::str_to_chars;

verus! {

/// The first position at or after `i` holding a separator, or the end.
pub open spec fn seg_end(s: Seq<char>, i: int) -> int
    decreases s.len() - i,
{
    if 0 <= i && i < s.len() && s[i] != '/' {
        seg_end(s, i + 1)
    } else {
        i
    }
}

/// Position and content facts about [`seg_end`].
pub proof fn lemma_seg_end(s: Seq<char>, i: int)
    requires
        0 <= i <= s.len(),
    ensures
        i <= seg_end(s, i) <= s.len(),
        seg_end(s, i) < s.len() ==> s[seg_end(s, i)] == '/',
        forall|j: int| i <= j < seg_end(s, i) ==> #[trigger] s[j] != '/',
    decreases s.len() - i,
{
    if i < s.len() && s[i] != '/' {
        lemma_seg_end(s, i + 1);
    }
}

/// Scan to the segment's end.
fn seg_end_x(text: &Vec<char>, from: usize) -> (j: usize)
    requires
        from <= text@.len(),
    ensures
        j as int == seg_end(text@, from as int),
        from <= j <= text@.len(),
{
    let mut j = from;
    while j < text.len() && text[j] != '/'
        invariant
            from <= j <= text@.len(),
            seg_end(text@, from as int) == seg_end(text@, j as int),
        decreases text@.len() - j,
    {
        j = j + 1;
    }
    j
}

/// The path's segments from position `i` on.
pub open spec fn segments_from(s: Seq<char>, i: int) -> Seq<Seq<char>>
    decreases s.len() - i,
{
    if i < 0 || i >= s.len() {
        Seq::empty()
    } else if s[i] == '/' {
        segments_from(s, i + 1)
    } else {
        let e = seg_end(s, i);
        if i < e <= s.len() {
            seq![s.subrange(i, e)] + segments_from(s, e)
        } else {
            Seq::empty()
        }
    }
}

/// A path's segments.
pub open spec fn spec_segments(s: Seq<char>) -> Seq<Seq<char>> {
    segments_from(s, 0)
}

/// Split a path into its segments.
pub fn segments(p: &Vec<char>) -> (cs: Vec<Vec<char>>)
    ensures
        cs.deep_view() == spec_segments(p@),
{
    let ghost s = p@;
    let mut cs: Vec<Vec<char>> = Vec::new();
    let mut i: usize = 0;
    while i < p.len()
        invariant
            s == p@,
            i <= s.len(),
            spec_segments(s) == cs.deep_view() + segments_from(s, i as int),
        decreases s.len() - i,
    {
        let ghost cs0 = cs.deep_view();
        let ghost i0 = i as int;
        if p[i] == '/' {
            i = i + 1;
        } else {
            let e = seg_end_x(p, i);
            proof {
                lemma_seg_end(s, i0);
                assert(i0 < e as int) by {
                    assert(seg_end(s, i0) == seg_end(s, i0 + 1));
                }
            }
            let seg = copy_range(p, i, e);
            cs.push(seg);
            i = e;
            proof {
                assert(cs.deep_view() =~~= cs0.push(seg@));
                assert(cs0 + (seq![seg@] + segments_from(s, e as int)) =~~= cs.deep_view()
                    + segments_from(s, e as int));
            }
        }
    }
    proof {
        assert(cs.deep_view() + segments_from(s, i as int) =~= cs.deep_view());
    }
    cs
}

/// Segments joined with single separators.
pub open spec fn join_segments(cs: Seq<Seq<char>>) -> Seq<char>
    decreases cs.len(),
{
    if cs.len() == 0 {
        Seq::empty()
    } else if cs.len() == 1 {
        cs[0]
    } else {
        cs[0] + seq!['/'] + join_segments(cs.drop_first())
    }
}

/// Joining one more segment appends a separator and the segment.
pub proof fn lemma_join_push(cs: Seq<Seq<char>>, seg: Seq<char>)
    ensures
        join_segments(cs.push(seg)) == if cs.len() == 0 {
            seg
        } else {
            join_segments(cs) + seq!['/'] + seg
        },
    decreases cs.len(),
{
    let whole = cs.push(seg);
    if cs.len() == 0 {
        assert(whole.len() == 1);
        assert(whole[0] == seg);
    } else if cs.len() == 1 {
        assert(whole.drop_first() =~= Seq::empty().push(seg));
        assert(join_segments(whole.drop_first()) == seg);
        assert(whole[0] == cs[0]);
    } else {
        lemma_join_push(cs.drop_first(), seg);
        assert(whole.drop_first() =~= cs.drop_first().push(seg));
        assert(whole[0] == cs[0]);
        assert(cs[0] + seq!['/'] + (join_segments(cs.drop_first()) + seq!['/'] + seg) =~= (cs[0]
            + seq!['/'] + join_segments(cs.drop_first())) + seq!['/'] + seg);
    }
}

/// Join segments into a path.
pub fn join(cs: &Vec<Vec<char>>) -> (r: Vec<char>)
    ensures
        r@ == join_segments(cs.deep_view()),
{
    let ghost dv = cs.deep_view();
    let mut r: Vec<char> = Vec::new();
    let mut i: usize = 0;
    while i < cs.len()
        invariant
            dv == cs.deep_view(),
            i <= dv.len(),
            r@ == join_segments(dv.subrange(0, i as int)),
        decreases dv.len() - i,
    {
        if i > 0 {
            r.push('/');
        }
        append_chars(&mut r, &cs[i]);
        proof {
            assert(dv.subrange(0, i as int + 1) =~= dv.subrange(0, i as int).push(dv[i as int]));
            lemma_join_push(dv.subrange(0, i as int), dv[i as int]);
            assert(dv[i as int] == cs@[i as int]@);
        }
        i = i + 1;
    }
    proof {
        assert(dv.subrange(0, dv.len() as int) =~= dv);
    }
    r
}

/// The input path's segments relative to the input root's, if the root's
/// segments come first.
pub open spec fn spec_strip_prefix(p: Seq<char>, root: Seq<char>) -> Option<Seq<Seq<char>>> {
    if spec_segments(root).is_prefix_of(spec_segments(p)) {
        Some(spec_segments(p).skip(spec_segments(root).len() as int))
    } else {
        None
    }
}

/// The output path of an input file: the output root's segments followed
/// by the input path's segments relative to the input root.
pub open spec fn spec_output_path(root: Seq<char>, build: Seq<char>, p: Seq<char>) -> Option<
    Seq<char>,
> {
    match spec_strip_prefix(p, root) {
        Some(rel) => Some(join_segments(spec_segments(build) + rel)),
        None => None,
    }
}

/// An input file under the input root maps to the same relative path
/// under the output root: the output tree mirrors the input tree.
pub proof fn lemma_output_mirrors_input(root: Seq<char>, build: Seq<char>, rel: Seq<Seq<char>>, p: Seq<char>)
    requires
        spec_segments(p) == spec_segments(root) + rel,
    ensures
        spec_output_path(root, build, p) == Some(join_segments(spec_segments(build) + rel)),
{
    assert(spec_segments(root).is_prefix_of(spec_segments(p))) by {
        assert(spec_segments(p).subrange(0, spec_segments(root).len() as int) =~= spec_segments(
            root,
        ));
    }
    assert(spec_segments(p).skip(spec_segments(root).len() as int) =~= rel);
}

/// Compute the output path of an input file, if the input root's
/// segments are a prefix of its path's.
pub fn output_path(root: &str, build: &str, p: &str) -> (r: Option<String>)
    ensures
        match r {
            Some(out) => spec_output_path(root@, build@, p@) == Some(out@),
            None => spec_output_path(root@, build@, p@) is None,
        },
{
    let pc = str_to_chars(p);
    let rc = str_to_chars(root);
    let bc = str_to_chars(build);
    let psegs = segments(&pc);
    let rsegs = segments(&rc);
    if rsegs.len() > psegs.len() {
        proof {
            assert(!spec_segments(rc@).is_prefix_of(spec_segments(pc@)));
        }
        return None;
    }
    let mut i: usize = 0;
    while i < rsegs.len()
        invariant
            i <= rsegs@.len() <= psegs@.len(),
            psegs.deep_view() == spec_segments(p@),
            rsegs.deep_view() == spec_segments(root@),
            forall|j: int|
                0 <= j < i ==> rsegs.deep_view()[j] == #[trigger] psegs.deep_view()[j],
        decreases rsegs@.len() - i,
    {
        if !char_vecs_equal(&rsegs[i], &psegs[i]) {
            proof {
                assert(!spec_segments(root@).is_prefix_of(spec_segments(p@))) by {
                    assert(rsegs.deep_view()[i as int] =~= rsegs@[i as int]@);
                    assert(psegs.deep_view()[i as int] =~= psegs@[i as int]@);
                    assert(rsegs.deep_view()[i as int] != psegs.deep_view()[i as int]);
                }
            }
            return None;
        }
        proof {
            assert(rsegs.deep_view()[i as int] =~= rsegs@[i as int]@);
            assert(psegs.deep_view()[i as int] =~= psegs@[i as int]@);
        }
        i = i + 1;
    }
    proof {
        assert(spec_segments(root@).is_prefix_of(spec_segments(p@))) by {
            assert(rsegs.deep_view() =~= psegs.deep_view().subrange(0, rsegs.deep_view().len() as int));
        }
    }
    let bsegs_v = segments(&bc);
    let ghost bsegs = bsegs_v.deep_view();
    let mut has_segment = bsegs_v.len() > 0;
    let mut out = join(&bsegs_v);
    let ghost rl = rsegs@.len() as int;
    let mut j: usize = i;
    while j < psegs.len()
        invariant
            rsegs@.len() <= j <= psegs@.len(),
            psegs.deep_view() == spec_segments(p@),
            rsegs.deep_view() == spec_segments(root@),
            bsegs == spec_segments(build@),
            rl == rsegs@.len() as int,
            has_segment == ((bsegs + psegs.deep_view().subrange(rl, j as int)).len() > 0),
            out@ == join_segments(bsegs + psegs.deep_view().subrange(rl, j as int)),
        decreases psegs@.len() - j,
    {
        let ghost sofar = bsegs + psegs.deep_view().subrange(rl, j as int);
        let seg = copy_range(&psegs[j], 0, psegs[j].len());
        proof {
            assert(seg@ =~= psegs@[j as int]@);
            assert(psegs.deep_view()[j as int] =~= psegs@[j as int]@);
            lemma_join_push(sofar, seg@);
            assert(bsegs + psegs.deep_view().subrange(rl, j as int + 1) =~= sofar.push(seg@));
        }
        if has_segment {
            out.push('/');
        }
        append_chars(&mut out, &seg);
        has_segment = true;
        proof {
            if sofar.len() > 0 {
                assert(out@ =~= join_segments(sofar) + seq!['/'] + seg@);
            } else {
                assert(out@ =~= seg@);
            }
        }
        j = j + 1;
    }
    proof {
        assert(psegs.deep_view().subrange(rl, psegs.deep_view().len() as int) =~= psegs.deep_view(
        ).skip(rl));
    }
    Some(chars_to_string(&out))
}

/// Where the path's final segment starts: just after the last separator.
pub open spec fn base_start(s: Seq<char>) -> int
    decreases s.len(),
{
    if s.len() == 0 {
        0
    } else if s.last() == '/' {
        s.len() as int
    } else {
        base_start(s.drop_last())
    }
}

/// [`base_start`] lies in the path, with no separator after it.
pub proof fn lemma_base_start(s: Seq<char>)
    ensures
        0 <= base_start(s) <= s.len(),
        forall|j: int| base_start(s) <= j < s.len() ==> #[trigger] s[j] != '/',
        base_start(s) > 0 ==> s[base_start(s) - 1] == '/',
    decreases s.len(),
{
    if s.len() > 0 && s.last() != '/' {
        lemma_base_start(s.drop_last());
        assert(forall|j: int| 0 <= j < s.len() - 1 ==> s.drop_last()[j] == #[trigger] s[j]);
    }
}

/// The text after the path's last separator.
pub open spec fn base_name(s: Seq<char>) -> Seq<char> {
    s.subrange(base_start(s), s.len() as int)
}

/// The path's file name: the text after the last separator, unless that
/// is empty or one of the `.` and `..` segments.
pub open spec fn spec_file_name(s: Seq<char>) -> Option<Seq<char>> {
    let b = base_name(s);
    if b.len() == 0 || b == seq!['.'] || b == seq!['.', '.'] {
        None
    } else {
        Some(b)
    }
}

/// Find where the path's final segment starts.
fn base_start_x(p: &Vec<char>) -> (r: usize)
    ensures
        r as int == base_start(p@),
        r <= p@.len(),
{
    proof {
        lemma_base_start(p@);
    }
    let mut i: usize = p.len();
    while i > 0
        invariant
            i <= p@.len(),
            forall|j: int| i <= j < p@.len() ==> #[trigger] p@[j] != '/',
        decreases i,
    {
        if p[i - 1] == '/' {
            proof {
                lemma_base_start_determined(p@, i as int);
            }
            return i;
        }
        i = i - 1;
    }
    proof {
        lemma_base_start_determined(p@, 0);
    }
    0
}

/// A position with a separator just before it and none after it is where
/// the final segment starts.
proof fn lemma_base_start_determined(s: Seq<char>, i: int)
    requires
        0 <= i <= s.len(),
        forall|j: int| i <= j < s.len() ==> #[trigger] s[j] != '/',
        i > 0 ==> s[i - 1] == '/',
    ensures
        base_start(s) == i,
    decreases s.len(),
{
    if s.len() > 0 && s.last() != '/' {
        assert(i < s.len());
        lemma_base_start_determined(s.drop_last(), i);
    }
}

/// The path's file name, if its final segment is a proper name.
pub fn file_name(p: &str) -> (r: Option<String>)
    ensures
        match r {
            Some(n) => spec_file_name(p@) == Some(n@),
            None => spec_file_name(p@) is None,
        },
{
    let pc = str_to_chars(p);
    let b = base_start_x(&pc);
    let name = copy_range(&pc, b, pc.len());
    if name.len() == 0 {
        return None;
    }
    if name.len() == 1 && name[0] == '.' {
        proof {
            assert(name@ =~= seq!['.']);
        }
        return None;
    }
    if name.len() == 2 && name[0] == '.' && name[1] == '.' {
        proof {
            assert(name@ =~= seq!['.', '.']);
        }
        return None;
    }
    proof {
        assert(name@ != seq!['.']);
        assert(name@ != seq!['.', '.']);
    }
    Some(chars_to_string(&name))
}

/// The position of the name's last dot, or -1 when it has none.
pub open spec fn last_dot(name: Seq<char>) -> int
    decreases name.len(),
{
    if name.len() == 0 {
        -1
    } else if name.last() == '.' {
        name.len() - 1
    } else {
        last_dot(name.drop_last())
    }
}

/// [`last_dot`] lies in the name, on a dot, with none after it.
pub proof fn lemma_last_dot(name: Seq<char>)
    ensures
        -1 <= last_dot(name) < name.len(),
        forall|j: int| last_dot(name) < j < name.len() ==> #[trigger] name[j] != '.',
        last_dot(name) >= 0 ==> name[last_dot(name)] == '.',
    decreases name.len(),
{
    if name.len() > 0 && name.last() != '.' {
        lemma_last_dot(name.drop_last());
        assert(forall|j: int| 0 <= j < name.len() - 1 ==> name.drop_last()[j] == #[trigger] name[j]);
    }
}

/// A file name's extension: the text after its last dot, none when it
/// has no dot or only starts with one.
pub open spec fn spec_extension(name: Seq<char>) -> Option<Seq<char>> {
    let d = last_dot(name);
    if d <= 0 {
        None
    } else {
        Some(name.subrange(d + 1, name.len() as int))
    }
}

/// Find the name's last dot.
pub(crate) fn last_dot_position(name: &Vec<char>) -> (r: Option<usize>)
    ensures
        match r {
            Some(d) => last_dot(name@) == d as int && d < name@.len(),
            None => last_dot(name@) == -1,
        },
{
    let mut i: usize = name.len();
    while i > 0
        invariant
            i <= name@.len(),
            forall|j: int| i <= j < name@.len() ==> #[trigger] name@[j] != '.',
        decreases i,
    {
        if name[i - 1] == '.' {
            proof {
                lemma_last_dot_determined(name@, i as int - 1);
            }
            return Some(i - 1);
        }
        i = i - 1;
    }
    proof {
        lemma_last_dot_determined(name@, -1);
    }
    None
}

/// A dot with none after it is the last.
proof fn lemma_last_dot_determined(name: Seq<char>, d: int)
    requires
        -1 <= d < name.len(),
        forall|j: int| d < j < name.len() ==> #[trigger] name[j] != '.',
        d >= 0 ==> name[d] == '.',
    ensures
        last_dot(name) == d,
    decreases name.len(),
{
    if name.len() > 0 && name.last() != '.' {
        assert(d < name.len() - 1);
        lemma_last_dot_determined(name.drop_last(), d);
    }
}

/// The path with its final segment's extension forced to `.html`: the
/// text from the last dot on is replaced, or `.html` appended when the
/// segment has no extension; a path with no file name stays as it is.
pub open spec fn spec_with_html_extension(p: Seq<char>) -> Seq<char> {
    match spec_file_name(p) {
        None => p,
        Some(name) => {
            let d = last_dot(name);
            let keep = if d <= 0 {
                p.len() as int
            } else {
                base_start(p) + d
            };
            p.subrange(0, keep) + seq!['.', 'h', 't', 'm', 'l']
        },
    }
}

/// Force the path's extension to `.html`.
pub fn with_html_extension(p: &str) -> (r: String)
    ensures
        r@ == spec_with_html_extension(p@),
{
    let pc = str_to_chars(p);
    let name = match file_name(p) {
        None => {
            return chars_to_string(&pc);
        },
        Some(n) => n,
    };
    let nc = str_to_chars(name.as_str());
    let b = base_start_x(&pc);
    let ld = last_dot_position(&nc);
    let n = pc.len();
    proof {
        lemma_base_start(pc@);
        lemma_last_dot(nc@);
        assert(nc@.len() + b as int == pc@.len());
    }
    let keep = match ld {
        Some(d) if d > 0 => b + d,
        _ => n,
    };
    let mut out = copy_range(&pc, 0, keep);
    out.push('.');
    out.push('h');
    out.push('t');
    out.push('m');
    out.push('l');
    proof {
        assert(out@ =~= spec_with_html_extension(p@));
    }
    chars_to_string(&out)
}

/// A forced extension is really forced: whenever the path has a file
/// name, the rewritten path still has one and its extension is `html`,
/// whatever extension — or none — the source file name had.
pub proof fn lemma_html_extension_forced(p: Seq<char>)
    requires
        spec_file_name(p) is Some,
    ensures
        spec_file_name(spec_with_html_extension(p)) is Some,
        spec_extension(spec_file_name(spec_with_html_extension(p))->0) == Some(
            seq!['h', 't', 'm', 'l'],
        ),
{
    let name = spec_file_name(p)->0;
    let bs = base_start(p);
    lemma_base_start(p);
    lemma_last_dot(name);
    let d = last_dot(name);
    let keep = if d <= 0 {
        p.len() as int
    } else {
        bs + d
    };
    let q = spec_with_html_extension(p);
    assert(q == p.subrange(0, keep) + seq!['.', 'h', 't', 'm', 'l']);
    assert(bs <= keep <= p.len());
    assert(forall|j: int| bs <= j < keep ==> #[trigger] q[j] != '/') by {
        assert(forall|j: int| bs <= j < keep ==> q[j] == p[j]);
    }
    lemma_base_start_determined(q, bs);
    let name_q = base_name(q);
    assert(name_q.len() == keep - bs + 5);
    let dq = keep - bs;
    assert(name_q[dq] == '.');
    assert(name_q[dq + 1] == 'h' && name_q[dq + 2] == 't' && name_q[dq + 3] == 'm' && name_q[dq
        + 4] == 'l');
    lemma_last_dot_determined(name_q, dq);
    assert(dq > 0) by {
        if d <= 0 {
            assert(keep - bs == name.len());
        }
    }
    assert(name_q.len() >= 6);
    assert(name_q != seq!['.'] && name_q != seq!['.', '.']);
    assert(name_q.subrange(dq + 1, name_q.len() as int) =~= seq!['h', 't', 'm', 'l']);
}

/// The path without its final segment, none when it has no segments.
pub open spec fn spec_parent(p: Seq<char>) -> Option<Seq<char>> {
    if spec_segments(p).len() == 0 {
        None
    } else {
        Some(join_segments(spec_segments(p).drop_last()))
    }
}

/// Compute the path's parent, for creating the directories an output
/// file needs.
pub fn parent_of(p: &str) -> (r: Option<String>)
    ensures
        match r {
            Some(out) => spec_parent(p@) == Some(out@),
            None => spec_parent(p@) is None,
        },
{
    let pc = str_to_chars(p);
    let mut segs = segments(&pc);
    if segs.len() == 0 {
        return None;
    }
    let ghost dv = segs.deep_view();
    segs.pop();
    proof {
        assert(segs.deep_view() =~= dv.drop_last());
    }
    let out = join(&segs);
    Some(chars_to_string(&out))
}

} // verus!
