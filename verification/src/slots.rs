//! The component-slot grammar of markup templates and its substitution.
//!
//! A slot marker is an opening angle bracket, optional whitespace, `#`, a
//! name with no internal comma or whitespace, optional whitespace, then
//! `/>`. The name is greedy: it is the longest run of name characters
//! that still leaves a well-formed closing. Substitution scans the text
//! left to right, replaces each marker with the named component's text,
//! and goes on after the marker: replacement text is inserted verbatim
//! and never re-scanned, so component expansion is single-pass and not
//! recursive. A marker naming an unbound component is an error carrying
//! the first such name.

use vstd::prelude::*;

use crate::component::ComponentMap;
use crate::component::ComponentV;
use crate::text::append_chars;
use crate::text::chars_to_string;
use crate::text::copy_range;
use crate::text::is_space;
use crate::text::lemma_skip_spaces;
use crate::text::skip_spaces;
use crate::text::skip_spaces_x;
use crate::text::space_char;
use crate::text::str_to_chars;

verus! {

/// A character a slot name may hold: anything but whitespace and comma.
pub open spec fn is_name_char(c: char) -> bool {
    !is_space(c) && c != ','
}

/// Decide whether a character may stand in a slot name.
fn name_char(c: char) -> (r: bool)
    ensures
        r == is_name_char(c),
{
    !space_char(c) && c != ','
}

/// The first position at or after `i` whose character cannot stand in a
/// slot name, or the end of the text.
pub open spec fn name_run_end(s: Seq<char>, i: int) -> int
    decreases s.len() - i,
{
    if 0 <= i && i < s.len() && is_name_char(s[i]) {
        name_run_end(s, i + 1)
    } else {
        i
    }
}

/// Position and content facts about [`name_run_end`].
pub proof fn lemma_name_run_end(s: Seq<char>, i: int)
    requires
        0 <= i <= s.len(),
    ensures
        i <= name_run_end(s, i) <= s.len(),
        name_run_end(s, i) < s.len() ==> !is_name_char(s[name_run_end(s, i)]),
        forall|j: int| i <= j < name_run_end(s, i) ==> is_name_char(#[trigger] s[j]),
    decreases s.len() - i,
{
    if i < s.len() && is_name_char(s[i]) {
        lemma_name_run_end(s, i + 1);
    }
}

/// A run of name characters from `i` up to a non-name position or the
/// end determines the scan's result.
pub proof fn lemma_name_run_end_determined(s: Seq<char>, i: int, j: int)
    requires
        0 <= i <= j <= s.len(),
        forall|m: int| i <= m < j ==> is_name_char(#[trigger] s[m]),
        j == s.len() || !is_name_char(s[j]),
    ensures
        name_run_end(s, i) == j,
    decreases j - i,
{
    if i < j {
        lemma_name_run_end_determined(s, i + 1, j);
    }
}

/// Scan past slot-name characters.
fn name_run_end_x(text: &Vec<char>, from: usize) -> (j: usize)
    requires
        from <= text@.len(),
    ensures
        j as int == name_run_end(text@, from as int),
        from <= j <= text@.len(),
{
    let mut j = from;
    while j < text.len() && name_char(text[j])
        invariant
            from <= j <= text@.len(),
            name_run_end(text@, from as int) == name_run_end(text@, j as int),
        decreases text@.len() - j,
    {
        j = j + 1;
    }
    j
}

/// After the name run ends at `b`: optional whitespace, then `/>`.
pub open spec fn close_after_spaces(s: Seq<char>, b: int) -> bool {
    let e = skip_spaces(s, b);
    e + 1 < s.len() && s[e] == '/' && s[e + 1] == '>'
}

/// Decide [`close_after_spaces`].
fn close_after_spaces_x(text: &Vec<char>, b: usize) -> (r: bool)
    requires
        b <= text@.len(),
    ensures
        r == close_after_spaces(text@, b as int),
{
    let e = skip_spaces_x(text, b);
    if e < text.len() && text[e] == '/' {
        e + 1 < text.len() && text[e + 1] == '>'
    } else {
        false
    }
}

/// Whether a name of `k` characters starting at `a`, inside the name run
/// ending at `b`, leaves a well-formed closing behind it.
pub open spec fn valid_name_len(s: Seq<char>, a: int, b: int, k: int) -> bool {
    1 <= k <= b - a && if k == b - a {
        close_after_spaces(s, b)
    } else {
        s[a + k] == '/' && a + k + 1 < s.len() && s[a + k + 1] == '>'
    }
}

/// The longest workable name length no larger than `k`, or 0 if none:
/// the name is greedy, longer candidates win.
pub open spec fn best_name_len(s: Seq<char>, a: int, b: int, k: int) -> int
    decreases k,
{
    if k <= 0 {
        0
    } else if valid_name_len(s, a, b, k) {
        k
    } else {
        best_name_len(s, a, b, k - 1)
    }
}

/// What [`best_name_len`] returns: a workable length with no longer one.
pub proof fn lemma_best_name_len(s: Seq<char>, a: int, b: int, k: int)
    requires
        0 <= k,
    ensures
        0 <= best_name_len(s, a, b, k) <= k,
        best_name_len(s, a, b, k) > 0 ==> valid_name_len(s, a, b, best_name_len(s, a, b, k)),
        forall|k2: int|
            best_name_len(s, a, b, k) < k2 <= k ==> !valid_name_len(s, a, b, k2),
    decreases k,
{
    if k > 0 && !valid_name_len(s, a, b, k) {
        lemma_best_name_len(s, a, b, k - 1);
    }
}

/// Find the greedy name length.
fn best_name_len_x(text: &Vec<char>, a: usize, b: usize) -> (r: usize)
    requires
        a <= b <= text@.len(),
    ensures
        r as int == best_name_len(text@, a as int, b as int, b - a),
        r <= b - a,
{
    let mut k: usize = b - a;
    while k > 0
        invariant
            k <= b - a,
            a <= b <= text@.len(),
            best_name_len(text@, a as int, b as int, b - a) == best_name_len(
                text@,
                a as int,
                b as int,
                k as int,
            ),
        decreases k,
    {
        let valid = if k == b - a {
            close_after_spaces_x(text, b)
        } else {
            text[a + k] == '/' && a + k + 1 < text.len() && text[a + k + 1] == '>'
        };
        if valid {
            return k;
        }
        k = k - 1;
    }
    0
}

/// A slot marker matched in a template: the name it carries and the
/// position just past the marker.
pub struct SlotMatch {
    pub name: Seq<char>,
    pub end: int,
}

/// The slot marker starting at position `i`, if one matches there.
pub open spec fn slot_match_at(s: Seq<char>, i: int) -> Option<SlotMatch> {
    if !(0 <= i && i < s.len() && s[i] == '<') {
        None
    } else {
        let h = skip_spaces(s, i + 1);
        if !(h < s.len() && s[h] == '#') {
            None
        } else {
            let a = h + 1;
            let b = name_run_end(s, a);
            let k = best_name_len(s, a, b, b - a);
            if k == 0 {
                None
            } else {
                Some(
                    SlotMatch {
                        name: s.subrange(a, a + k),
                        end: if k == b - a {
                            skip_spaces(s, b) + 2
                        } else {
                            a + k + 2
                        },
                    },
                )
            }
        }
    }
}

/// A matched marker is non-empty and lies inside the text.
pub proof fn lemma_slot_match_bounds(s: Seq<char>, i: int)
    requires
        slot_match_at(s, i) is Some,
    ensures
        i < slot_match_at(s, i)->0.end <= s.len(),
        slot_match_at(s, i)->0.name.len() >= 1,
{
    lemma_skip_spaces(s, i + 1);
    let h = skip_spaces(s, i + 1);
    let a = h + 1;
    lemma_name_run_end(s, a);
    let b = name_run_end(s, a);
    lemma_best_name_len(s, a, b, b - a);
    let k = best_name_len(s, a, b, b - a);
    if k == b - a {
        lemma_skip_spaces(s, b);
    }
}

/// Match a slot marker at position `i`. A result gives the name's
/// position and length and the marker's end.
fn match_slot_x(text: &Vec<char>, i: usize) -> (r: Option<(usize, usize, usize)>)
    requires
        i < text@.len(),
    ensures
        match r {
            Some(t) => {
                let (a, k, end) = t;
                &&& slot_match_at(text@, i as int) == Some(
                    SlotMatch { name: text@.subrange(a as int, a as int + k as int), end: end as int },
                )
                &&& i < a
                &&& a as int + k as int <= text@.len()
                &&& 1 <= k
                &&& i < end <= text@.len()
            },
            None => slot_match_at(text@, i as int) is None,
        },
{
    let n = text.len();
    if text[i] != '<' {
        return None;
    }
    let h = skip_spaces_x(text, i + 1);
    proof {
        lemma_skip_spaces(text@, i as int + 1);
    }
    if h >= text.len() || text[h] != '#' {
        return None;
    }
    let a = h + 1;
    let b = name_run_end_x(text, a);
    proof {
        lemma_name_run_end(text@, a as int);
    }
    let k = best_name_len_x(text, a, b);
    proof {
        lemma_best_name_len(text@, a as int, b as int, b as int - a as int);
    }
    if k == 0 {
        return None;
    }
    let end = if k == b - a {
        let e = skip_spaces_x(text, b);
        e + 2
    } else {
        a + k + 2
    };
    Some((a, k, end))
}

/// What a component map offers substitution: each bound name's cached
/// text, the empty text standing in where none is cached yet.
pub open spec fn contents_map(cm: Map<Seq<char>, ComponentV>) -> Map<Seq<char>, Seq<char>> {
    Map::new(
        |n: Seq<char>| cm.dom().contains(n),
        |n: Seq<char>|
            if cm[n].content is Some {
                cm[n].content->0
            } else {
                Seq::empty()
            },
    )
}

/// Left-to-right, single-pass slot substitution from position `i`: each
/// matched marker is replaced by the named text, which is never itself
/// re-scanned; the first unbound name is the error.
pub open spec fn spec_substitute(s: Seq<char>, m: Map<Seq<char>, Seq<char>>, i: int) -> Result<
    Seq<char>,
    Seq<char>,
>
    decreases s.len() - i,
{
    if i < 0 || i >= s.len() {
        Ok(Seq::empty())
    } else {
        let mo = slot_match_at(s, i);
        if mo is Some && i < mo->0.end && mo->0.end <= s.len() {
            if m.dom().contains(mo->0.name) {
                match spec_substitute(s, m, mo->0.end) {
                    Ok(rest) => Ok(m[mo->0.name] + rest),
                    Err(e) => Err(e),
                }
            } else {
                Err(mo->0.name)
            }
        } else {
            match spec_substitute(s, m, i + 1) {
                Ok(rest) => Ok(seq![s[i]] + rest),
                Err(e) => Err(e),
            }
        }
    }
}

/// The slot names the left-to-right scan meets from position `i`, in
/// order, matched markers' interiors and replacements never re-scanned.
pub open spec fn spec_slot_names(s: Seq<char>, i: int) -> Seq<Seq<char>>
    decreases s.len() - i,
{
    if i < 0 || i >= s.len() {
        Seq::empty()
    } else {
        let mo = slot_match_at(s, i);
        if mo is Some && i < mo->0.end && mo->0.end <= s.len() {
            seq![mo->0.name] + spec_slot_names(s, mo->0.end)
        } else {
            spec_slot_names(s, i + 1)
        }
    }
}

/// Substitution succeeds exactly when every slot name the scan meets is
/// bound in the map: an unbound reference, and nothing else, is fatal.
pub proof fn lemma_substitute_resolves(s: Seq<char>, m: Map<Seq<char>, Seq<char>>, i: int)
    ensures
        spec_substitute(s, m, i) is Ok <==> (forall|n: Seq<char>|
            spec_slot_names(s, i).contains(n) ==> m.dom().contains(n)),
    decreases s.len() - i,
{
    if i < 0 || i >= s.len() {
        assert(spec_slot_names(s, i) =~= Seq::<Seq<char>>::empty());
    } else {
        let mo = slot_match_at(s, i);
        if mo is Some && i < mo->0.end && mo->0.end <= s.len() {
            let name = mo->0.name;
            let names = spec_slot_names(s, i);
            assert(names[0] == name);
            assert(names.contains(name));
            if m.dom().contains(name) {
                lemma_substitute_resolves(s, m, mo->0.end);
                let rest_names = spec_slot_names(s, mo->0.end);
                assert forall|n: Seq<char>| rest_names.contains(n) implies names.contains(n) by {
                    let idx = choose|idx: int|
                        0 <= idx < rest_names.len() && rest_names[idx] == n;
                    assert(names[idx + 1] == n);
                }
                if spec_substitute(s, m, i) is Ok {
                    assert forall|n: Seq<char>| names.contains(n) implies m.dom().contains(n) by {
                        let idx = choose|idx: int| 0 <= idx < names.len() && names[idx] == n;
                        if idx > 0 {
                            assert(rest_names[idx - 1] == n);
                            assert(rest_names.contains(n));
                        }
                    }
                }
            }
        } else {
            lemma_substitute_resolves(s, m, i + 1);
            assert(spec_slot_names(s, i) == spec_slot_names(s, i + 1));
        }
    }
}

/// A slot marker filling the text from position `i` to its end
/// substitutes to the named text alone.
proof fn lemma_slot_fills_tail(s: Seq<char>, i: int, name: Seq<char>, m: Map<Seq<char>, Seq<char>>)
    requires
        0 <= i,
        s.len() == i + name.len() + 4,
        s[i] == '<',
        s[i + 1] == '#',
        forall|j: int| 0 <= j < name.len() ==> s[i + 2 + j] == #[trigger] name[j],
        s[i + name.len() + 2] == '/',
        s[i + name.len() + 3] == '>',
        name.len() >= 1,
        forall|j: int| 0 <= j < name.len() ==> is_name_char(#[trigger] name[j]),
        m.dom().contains(name),
    ensures
        spec_substitute(s, m, i) == Ok::<Seq<char>, Seq<char>>(m[name]),
{
    let nl = name.len() as int;
    crate::text::lemma_skip_spaces_determined(s, i + 1, i + 1);
    assert(skip_spaces(s, i + 1) == i + 1);
    assert forall|p: int| i + 2 <= p < s.len() implies is_name_char(#[trigger] s[p]) by {
        if p < i + 2 + nl {
            assert(s[p] == name[p - (i + 2)]);
            assert(is_name_char(name[p - (i + 2)]));
        } else if p == i + 2 + nl {
            assert(s[p] == '/');
        } else {
            assert(s[p] == '>');
        }
    }
    lemma_name_run_end_determined(s, i + 2, s.len() as int);
    let a = i + 2;
    let b = s.len() as int;
    assert(name_run_end(s, a) == b);
    lemma_best_name_len(s, a, b, b - a);
    let k = best_name_len(s, a, b, b - a);
    assert(!valid_name_len(s, a, b, nl + 2)) by {
        crate::text::lemma_skip_spaces_determined(s, b, b);
    }
    assert(!valid_name_len(s, a, b, nl + 1));
    assert(valid_name_len(s, a, b, nl));
    assert(k == nl) by {
        if k < nl {
            assert(!valid_name_len(s, a, b, nl));
        }
    }
    assert(s.subrange(a, a + nl) =~= name);
    assert(slot_match_at(s, i) == Some(SlotMatch { name, end: s.len() as int }));
    assert(spec_substitute(s, m, s.len() as int) == Ok::<Seq<char>, Seq<char>>(Seq::empty()));
    assert(m[name] + Seq::<char>::empty() =~= m[name]);
}

/// Text without an opening angle bracket passes through substitution
/// unchanged, whatever follows it.
pub proof fn lemma_literal_text_passes_through(
    s: Seq<char>,
    m: Map<Seq<char>, Seq<char>>,
    i: int,
    e: int,
    tail: Seq<char>,
)
    requires
        0 <= i <= e <= s.len(),
        forall|j: int| i <= j < e ==> #[trigger] s[j] != '<',
        spec_substitute(s, m, e) == Ok::<Seq<char>, Seq<char>>(tail),
    ensures
        spec_substitute(s, m, i) == Ok::<Seq<char>, Seq<char>>(s.subrange(i, e) + tail),
    decreases e - i,
{
    if i < e {
        lemma_literal_text_passes_through(s, m, i + 1, e, tail);
        assert(seq![s[i]] + (s.subrange(i + 1, e) + tail) =~= s.subrange(i, e) + tail);
    } else {
        assert(s.subrange(i, e) + tail =~= tail);
    }
}

/// Substitution is single-pass and not recursive: a template that is
/// exactly one slot marker becomes the named component's text verbatim,
/// whatever slot markers that text itself may hold.
pub proof fn lemma_substitution_not_recursive(name: Seq<char>, m: Map<Seq<char>, Seq<char>>)
    requires
        name.len() >= 1,
        forall|j: int| 0 <= j < name.len() ==> is_name_char(#[trigger] name[j]),
        m.dom().contains(name),
    ensures
        spec_substitute(seq!['<', '#'] + name + seq!['/', '>'], m, 0) == Ok::<Seq<char>, Seq<char>>(
            m[name],
        ),
{
    let s = seq!['<', '#'] + name + seq!['/', '>'];
    let nl = name.len() as int;
    assert(s.len() == nl + 4);
    assert(s[0] == '<');
    assert(s[1] == '#');
    assert(forall|j: int| 0 <= j < nl ==> s[2 + j] == #[trigger] name[j]);
    assert(s[nl + 2] == '/');
    assert(s[nl + 3] == '>');
    lemma_slot_fills_tail(s, 0, name, m);
}

/// Not recursive, in context: a template of literal marker-free text
/// followed by one slot marker renders as that text followed by the
/// named component's text verbatim — the inserted text is never
/// re-scanned, so whatever markers it holds stay unexpanded.
pub proof fn lemma_reference_after_literal_text(
    prefix: Seq<char>,
    name: Seq<char>,
    m: Map<Seq<char>, Seq<char>>,
)
    requires
        forall|j: int| 0 <= j < prefix.len() ==> #[trigger] prefix[j] != '<',
        name.len() >= 1,
        forall|j: int| 0 <= j < name.len() ==> is_name_char(#[trigger] name[j]),
        m.dom().contains(name),
    ensures
        spec_substitute(prefix + (seq!['<', '#'] + name + seq!['/', '>']), m, 0) == Ok::<
            Seq<char>,
            Seq<char>,
        >(prefix + m[name]),
{
    let s = prefix + (seq!['<', '#'] + name + seq!['/', '>']);
    let pl = prefix.len() as int;
    let nl = name.len() as int;
    assert(s.len() == pl + nl + 4);
    assert(s[pl] == '<');
    assert(s[pl + 1] == '#');
    assert(forall|j: int| 0 <= j < nl ==> s[pl + 2 + j] == #[trigger] name[j]);
    assert(s[pl + nl + 2] == '/');
    assert(s[pl + nl + 3] == '>');
    lemma_slot_fills_tail(s, pl, name, m);
    assert(forall|j: int| 0 <= j < pl ==> #[trigger] s[j] != '<');
    lemma_literal_text_passes_through(s, m, 0, pl, m[name]);
    assert(s.subrange(0, pl) =~= prefix);
}

/// Replace every slot marker in `text` with the named component's cached
/// text, single-pass; the first unbound name comes back as the error.
pub(crate) fn substitute_chars(text: &Vec<char>, comps: &ComponentMap) -> (r: Result<
    Vec<char>,
    Vec<char>,
>)
    requires
        comps.wf(),
        forall|n: Seq<char>|
            #[trigger] spec_slot_names(text@, 0).contains(n) && comps@.dom().contains(n)
                ==> comps@[n].content is Some,
    ensures
        match r {
            Ok(out) => spec_substitute(text@, contents_map(comps@), 0) == Ok::<Seq<char>, Seq<char>>(
                out@,
            ),
            Err(name) => spec_substitute(text@, contents_map(comps@), 0) == Err::<
                Seq<char>,
                Seq<char>,
            >(name@) && !comps@.dom().contains(name@),
        },
{
    let ghost s = text@;
    let ghost m = contents_map(comps@);
    let mut out: Vec<char> = Vec::new();
    let mut i: usize = 0;
    while i < text.len()
        invariant
            comps.wf(),
            s == text@,
            m == contents_map(comps@),
            i <= s.len(),
            forall|n: Seq<char>|
                #[trigger] spec_slot_names(s, 0).contains(n) && comps@.dom().contains(n)
                    ==> comps@[n].content is Some,
            forall|n: Seq<char>|
                #[trigger] spec_slot_names(s, i as int).contains(n) ==> spec_slot_names(
                    s,
                    0,
                ).contains(n),
            spec_substitute(s, m, i as int) is Ok ==> spec_substitute(s, m, 0) == Ok::<
                Seq<char>,
                Seq<char>,
            >(out@ + spec_substitute(s, m, i as int)->Ok_0),
            spec_substitute(s, m, i as int) is Err ==> spec_substitute(s, m, 0) == spec_substitute(
                s,
                m,
                i as int,
            ),
        decreases s.len() - i,
    {
        let ghost out0 = out@;
        let ghost i0 = i as int;
        match match_slot_x(text, i) {
            None => {
                out.push(text[i]);
                i = i + 1;
                proof {
                    if spec_substitute(s, m, i0 + 1) is Ok {
                        assert(out0 + (seq![s[i0]] + spec_substitute(s, m, i0 + 1)->Ok_0) =~= out@
                            + spec_substitute(s, m, i0 + 1)->Ok_0);
                    }
                    assert(spec_slot_names(s, i0) == spec_slot_names(s, i as int));
                    assert forall|n: Seq<char>|
                        spec_slot_names(s, i as int).contains(n) implies spec_slot_names(
                        s,
                        0,
                    ).contains(n) by {
                        assert(spec_slot_names(s, i0).contains(n));
                    }
                }
            },
            Some((a, k, end)) => {
                proof {
                    assert(spec_slot_names(s, i0)[0] == s.subrange(a as int, a as int + k as int));
                }
                let name = copy_range(text, a, a + k);
                let ghost rest_names = spec_slot_names(s, end as int);
                proof {
                    assert(spec_slot_names(s, i0).contains(name@));
                    assert forall|n: Seq<char>| rest_names.contains(n) implies spec_slot_names(
                        s,
                        0,
                    ).contains(n) by {
                        let idx = choose|idx: int|
                            0 <= idx < rest_names.len() && rest_names[idx] == n;
                        assert(spec_slot_names(s, i0)[idx + 1] == n);
                        assert(spec_slot_names(s, i0).contains(n));
                    }
                }
                match comps.lookup_content(&name) {
                    Some(content) => {
                        proof {
                            assert(m.dom().contains(name@));
                            assert(m[name@] == content@);
                        }
                        append_chars(&mut out, content);
                        i = end;
                        proof {
                            if spec_substitute(s, m, end as int) is Ok {
                                assert(out0 + (content@ + spec_substitute(s, m, end as int)->Ok_0)
                                    =~= out@ + spec_substitute(s, m, end as int)->Ok_0);
                            }
                        }
                    },
                    None => {
                        proof {
                            assert(!comps@.dom().contains(name@));
                            assert(spec_substitute(s, m, i0) == Err::<Seq<char>, Seq<char>>(name@));
                        }
                        return Err(name);
                    },
                }
            },
        }
    }
    proof {
        assert(spec_substitute(s, m, i as int) == Ok::<Seq<char>, Seq<char>>(Seq::empty()));
        assert(out@ + Seq::<char>::empty() =~= out@);
    }
    Ok(out)
}

/// Replace every slot marker in `text` with the named component's cached
/// text. The names the text references must have their text cached where
/// they are bound at all; an unbound name is the error.
pub fn substitute(text: &str, comps: &ComponentMap) -> (r: Result<String, String>)
    requires
        comps.wf(),
        forall|n: Seq<char>|
            #[trigger] spec_slot_names(text@, 0).contains(n) && comps@.dom().contains(n)
                ==> comps@[n].content is Some,
    ensures
        match r {
            Ok(out) => spec_substitute(text@, contents_map(comps@), 0) == Ok::<Seq<char>, Seq<char>>(
                out@,
            ),
            Err(name) => spec_substitute(text@, contents_map(comps@), 0) == Err::<
                Seq<char>,
                Seq<char>,
            >(name@) && !comps@.dom().contains(name@),
        },
{
    let chars = str_to_chars(text);
    match substitute_chars(&chars, comps) {
        Ok(out) => Ok(chars_to_string(&out)),
        Err(name) => Err(chars_to_string(&name)),
    }
}

/// The slot names a template references, in scan order: what must be
/// bound, and whose components' text substitution will read.
pub fn slot_names(text: &str) -> (r: Vec<String>)
    ensures
        r.deep_view() == spec_slot_names(text@, 0),
{
    let chars = str_to_chars(text);
    let ghost s = chars@;
    let mut r: Vec<String> = Vec::new();
    let mut i: usize = 0;
    while i < chars.len()
        invariant
            s == chars@,
            i <= s.len(),
            spec_slot_names(s, 0) == r.deep_view() + spec_slot_names(s, i as int),
        decreases s.len() - i,
    {
        let ghost r0 = r.deep_view();
        let ghost i0 = i as int;
        match match_slot_x(&chars, i) {
            None => {
                i = i + 1;
            },
            Some((a, k, end)) => {
                let name = copy_range(&chars, a, a + k);
                r.push(chars_to_string(&name));
                i = end;
                proof {
                    assert(r.deep_view() =~= r0.push(name@));
                    assert(r0 + spec_slot_names(s, i0) =~= r.deep_view() + spec_slot_names(
                        s,
                        end as int,
                    ));
                }
            },
        }
    }
    proof {
        assert(spec_slot_names(s, i as int) =~= Seq::<Seq<char>>::empty());
        assert(r.deep_view() + Seq::<Seq<char>>::empty() =~= r.deep_view());
    }
    r
}

} // verus!
