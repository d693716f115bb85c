//! The reload injector: embeds the live-reload client snippet into
//! rendered HTML.
//!
//! The snippet goes immediately before the first closing head tag —
//! matched case-insensitively, whitespace permitted between the tag's
//! parts — and, when the document has no such tag, is prepended at the
//! very start.

use vstd::prelude::*;

use crate::text::append_chars;
use crate::text::chars_to_string;
use crate::text::copy_range;
use crate::text::skip_spaces;
use crate::text::skip_spaces_x;
use crate::text::str_to_chars;

verus! {

/// The four letters of `head`, in either case, at position `j`.
pub open spec fn head_word_at(s: Seq<char>, j: int) -> bool {
    &&& 0 <= j
    &&& j + 4 <= s.len()
    &&& (s[j] == 'h' || s[j] == 'H')
    &&& (s[j + 1] == 'e' || s[j + 1] == 'E')
    &&& (s[j + 2] == 'a' || s[j + 2] == 'A')
    &&& (s[j + 3] == 'd' || s[j + 3] == 'D')
}

/// A closing head tag starting at `i`: `</`, optional whitespace,
/// `head` in any case, optional whitespace, `>`.
pub open spec fn head_close_at(s: Seq<char>, i: int) -> bool {
    &&& 0 <= i
    &&& i + 1 < s.len()
    &&& s[i] == '<'
    &&& s[i + 1] == '/'
    &&& head_word_at(s, skip_spaces(s, i + 2))
    &&& {
        let e = skip_spaces(s, skip_spaces(s, i + 2) + 4);
        e < s.len() && s[e] == '>'
    }
}

/// Decide whether a closing head tag starts at `i`.
fn head_close_x(text: &Vec<char>, i: usize) -> (r: bool)
    requires
        i < text@.len(),
    ensures
        r == head_close_at(text@, i as int),
{
    let n = text.len();
    if text[i] != '<' {
        return false;
    }
    if i + 1 >= n {
        return false;
    }
    if text[i + 1] != '/' {
        return false;
    }
    let j = skip_spaces_x(text, i + 2);
    if n - j < 4 {
        return false;
    }
    if !((text[j] == 'h' || text[j] == 'H') && (text[j + 1] == 'e' || text[j + 1] == 'E') && (text[j
        + 2] == 'a' || text[j + 2] == 'A') && (text[j + 3] == 'd' || text[j + 3] == 'D')) {
        return false;
    }
    let e = skip_spaces_x(text, j + 4);
    e < n && text[e] == '>'
}

/// The position of the first closing head tag at or after `i`.
pub open spec fn first_head_close(s: Seq<char>, i: int) -> Option<int>
    decreases s.len() - i,
{
    if i < 0 || i >= s.len() {
        None
    } else if head_close_at(s, i) {
        Some(i)
    } else {
        first_head_close(s, i + 1)
    }
}

/// Where the snippet goes: the first closing head tag's position, or
/// the very start of the document when it has no such tag.
pub open spec fn inject_index(s: Seq<char>) -> int {
    match first_head_close(s, 0) {
        Some(i) => i,
        None => 0,
    }
}

/// The document with the snippet inserted at [`inject_index`].
pub open spec fn spec_inject(s: Seq<char>, snippet: Seq<char>) -> Seq<char> {
    s.subrange(0, inject_index(s)) + snippet + s.subrange(inject_index(s), s.len() as int)
}

/// Find where the snippet goes.
fn find_inject_index(text: &Vec<char>) -> (idx: usize)
    ensures
        idx as int == inject_index(text@),
        idx <= text@.len(),
{
    let mut i: usize = 0;
    while i < text.len()
        invariant
            i <= text@.len(),
            first_head_close(text@, 0) == first_head_close(text@, i as int),
        decreases text@.len() - i,
    {
        if head_close_x(text, i) {
            return i;
        }
        i = i + 1;
    }
    0
}

/// Embed the live-reload client snippet in rendered HTML: immediately
/// before the first closing head tag, or prepended at the start when
/// the document has none.
pub fn inject_websocket(html: &mut String, snippet: &str)
    ensures
        final(html)@ == spec_inject(old(html)@, snippet@),
{
    let chars = str_to_chars(html.as_str());
    let snip = str_to_chars(snippet);
    let idx = find_inject_index(&chars);
    let mut out = copy_range(&chars, 0, idx);
    append_chars(&mut out, &snip);
    let tail = copy_range(&chars, idx, chars.len());
    append_chars(&mut out, &tail);
    proof {
        assert(out@ =~= spec_inject(old(html)@, snippet@));
    }
    *html = chars_to_string(&out);
}

} // verus!
