//! Components: named, reusable fragments loaded from `*.component.html`
//! files, and the per-rebuild map from component name to component.
//!
//! A component's text is cached with get-or-initialize semantics: the
//! embedding binary reads the file at most once per map instance, on first
//! use, and a second initialization never replaces the cached text. The
//! map is rebuilt from scratch on every rebuild; nothing is shared across
//! rebuilds.

use vstd::prelude::*;

use crate::text::char_vecs_equal;
use crate::text::chars_to_string;
use crate::text::str_to_chars;

verus! {

/// The mathematical value of a [`Component`]: its source path and its
/// cached text, if that has been initialized.
pub struct ComponentV {
    pub path: Seq<char>,
    pub content: Option<Seq<char>>,
}

/// A named fragment: a source file path and lazily-initialized text.
#[derive(Debug)]
pub struct Component {
    path: String,
    content: Option<Vec<char>>,
}

impl View for Component {
    type V = ComponentV;

    closed spec fn view(&self) -> ComponentV {
        ComponentV {
            path: self.path@,
            content: match self.content {
                Option::Some(v) => Option::Some(v@),
                Option::None => Option::None,
            },
        }
    }
}

impl Component {
    /// A fresh component for the given source path, with no text cached yet.
    pub fn new(path: String) -> (c: Component)
        ensures
            c@.path == path@,
            c@.content is None,
    {
        Component { path, content: None }
    }

    /// The source file the component's text comes from.
    pub fn path(&self) -> (p: &String)
        ensures
            p@ == self@.path,
    {
        &self.path
    }

    /// Whether the text has been initialized.
    pub fn is_loaded(&self) -> (b: bool)
        ensures
            b == (self@.content is Some),
    {
        self.content.is_some()
    }

    /// Initialize the cached text. Get-or-initialize: once a text is
    /// cached, a later initialization leaves it untouched.
    pub fn init_content(&mut self, text: &str)
        ensures
            final(self)@.path == old(self)@.path,
            final(self)@.content == (if old(self)@.content is Some {
                old(self)@.content
            } else {
                Option::Some(text@)
            }),
    {
        if self.content.is_none() {
            self.content = Some(str_to_chars(text));
        }
    }

    /// Get the cached text of the component.
    pub fn get_content(&self) -> (t: String)
        requires
            self@.content is Some,
        ensures
            t@ == self@.content->0,
    {
        match &self.content {
            Some(v) => chars_to_string(v),
            None => String::new(),
        }
    }

    /// The cached text as characters.
    pub(crate) fn content_chars(&self) -> (t: &Vec<char>)
        requires
            self@.content is Some,
        ensures
            t@ == self@.content->0,
    {
        match &self.content {
            Some(v) => v,
            None => vstd::pervasive::unreached(),
        }
    }
}

/// The map from component name to component, unique names, built fresh
/// for every rebuild.
#[derive(Debug)]
pub struct ComponentMap {
    entries: Vec<(Vec<char>, Component)>,
}

/// The map value of an entry list: later entries override earlier ones,
/// as repeated insertion would.
pub closed spec fn entries_map(es: Seq<(Vec<char>, Component)>) -> Map<Seq<char>, ComponentV>
    decreases es.len(),
{
    if es.len() == 0 {
        Map::empty()
    } else {
        entries_map(es.drop_last()).insert(es.last().0@, es.last().1@)
    }
}

/// No two entries carry the same name.
pub closed spec fn names_unique(es: Seq<(Vec<char>, Component)>) -> bool {
    forall|i: int, j: int| 0 <= i < j < es.len() ==> es[i].0@ != es[j].0@
}

impl View for ComponentMap {
    type V = Map<Seq<char>, ComponentV>;

    closed spec fn view(&self) -> Map<Seq<char>, ComponentV> {
        entries_map(self.entries@)
    }
}

/// With unique names, each entry is exactly its map binding, and every
/// binding comes from an entry.
proof fn lemma_entries_map_props(es: Seq<(Vec<char>, Component)>)
    requires
        names_unique(es),
    ensures
        forall|idx: int|
            0 <= idx < es.len() ==> entries_map(es).dom().contains(#[trigger] es[idx].0@)
                && entries_map(es)[es[idx].0@] == es[idx].1@,
        forall|n: Seq<char>|
            entries_map(es).dom().contains(n) ==> exists|idx: int|
                0 <= idx < es.len() && (#[trigger] es[idx]).0@ == n,
    decreases es.len(),
{
    if es.len() > 0 {
        let prev = es.drop_last();
        assert(names_unique(prev)) by {
            assert(forall|i: int, j: int|
                0 <= i < j < prev.len() ==> prev[i] == es[i] && prev[j] == es[j]);
        }
        lemma_entries_map_props(prev);
        assert forall|idx: int| 0 <= idx < es.len() implies entries_map(es).dom().contains(
            #[trigger] es[idx].0@,
        ) && entries_map(es)[es[idx].0@] == es[idx].1@ by {
            if idx < es.len() - 1 {
                assert(prev[idx] == es[idx]);
                assert(es[idx].0@ != es.last().0@);
            }
        }
        assert forall|n: Seq<char>| entries_map(es).dom().contains(n) implies exists|idx: int|
            0 <= idx < es.len() && (#[trigger] es[idx]).0@ == n by {
            if n == es.last().0@ {
                assert(es[es.len() - 1].0@ == n);
            } else {
                assert(entries_map(es).dom() =~= entries_map(prev).dom().insert(es.last().0@));
                assert(entries_map(prev).dom().contains(n));
                let i = choose|i: int| 0 <= i < prev.len() && (#[trigger] prev[i]).0@ == n;
                assert(prev[i] == es[i]);
                assert(es[i].0@ == n);
            }
        }
    }
}

/// Updating the entry that carries a name is inserting under that name.
proof fn lemma_entries_map_update(
    es: Seq<(Vec<char>, Component)>,
    idx: int,
    nv: Vec<char>,
    c: Component,
)
    requires
        names_unique(es),
        0 <= idx < es.len(),
        nv@ == es[idx].0@,
    ensures
        entries_map(es.update(idx, (nv, c))) == entries_map(es).insert(nv@, c@),
    decreases es.len(),
{
    let upd = es.update(idx, (nv, c));
    if idx == es.len() - 1 {
        assert(upd.drop_last() =~= es.drop_last());
        assert(upd.last() == (nv, c));
        assert(entries_map(upd) =~= entries_map(es).insert(nv@, c@));
    } else {
        let prev = es.drop_last();
        assert(names_unique(prev)) by {
            assert(forall|i: int, j: int|
                0 <= i < j < prev.len() ==> prev[i] == es[i] && prev[j] == es[j]);
        }
        assert(upd.drop_last() =~= prev.update(idx, (nv, c)));
        assert(upd.last() == es.last());
        lemma_entries_map_update(prev, idx, nv, c);
        assert(es[idx].0@ != es.last().0@);
        assert(entries_map(upd) =~= entries_map(es).insert(nv@, c@));
    }
}

impl ComponentMap {
    /// All entry names are distinct.
    pub closed spec fn wf(&self) -> bool {
        names_unique(self.entries@)
    }

    /// An empty map.
    pub fn new() -> (m: ComponentMap)
        ensures
            m.wf(),
            m@ == Map::<Seq<char>, ComponentV>::empty(),
    {
        ComponentMap { entries: Vec::new() }
    }

    /// The number of components.
    pub fn len(&self) -> (n: usize)
        requires
            self.wf(),
        ensures
            n == self@.dom().len(),
    {
        proof {
            lemma_entries_dom_len(self.entries@);
        }
        self.entries.len()
    }

    /// The index of the entry carrying a name, if any.
    fn find(&self, name: &Vec<char>) -> (r: Option<usize>)
        requires
            self.wf(),
        ensures
            match r {
                Some(i) => i < self.entries@.len() && self.entries@[i as int].0@ == name@
                    && self@.dom().contains(name@) && self@[name@] == self.entries@[i as int].1@,
                None => !self@.dom().contains(name@),
            },
    {
        proof {
            lemma_entries_map_props(self.entries@);
        }
        let mut i: usize = 0;
        while i < self.entries.len()
            invariant
                self.wf(),
                i <= self.entries@.len(),
                forall|j: int| 0 <= j < i ==> (#[trigger] self.entries@[j]).0@ != name@,
        decreases self.entries@.len() - i,
        {
            if char_vecs_equal(&self.entries[i].0, name) {
                proof {
                    lemma_entries_map_props(self.entries@);
                }
                return Some(i);
            }
            i = i + 1;
        }
        proof {
            lemma_entries_map_props(self.entries@);
            if self@.dom().contains(name@) {
                let idx = choose|idx: int|
                    0 <= idx < self.entries@.len() && (#[trigger] self.entries@[idx]).0@ == name@;
                assert(false);
            }
        }
        None
    }

    /// Insert a component under a name; a component already there under
    /// the same name is replaced.
    pub fn insert(&mut self, name: &str, c: Component)
        requires
            old(self).wf(),
        ensures
            final(self).wf(),
            final(self)@ == old(self)@.insert(name@, c@),
    {
        let key = str_to_chars(name);
        match self.find(&key) {
            Some(i) => {
                proof {
                    lemma_entries_map_update(self.entries@, i as int, key, c);
                }
                self.entries.remove(i);
                self.entries.insert(i, (key, c));
                proof {
                    assert(self.entries@ =~= old(self).entries@.update(i as int, (key, c)));
                    assert forall|a: int, b: int|
                        0 <= a < b < self.entries@.len() implies self.entries@[a].0@
                        != self.entries@[b].0@ by {
                        assert(old(self).entries@[a].0@ != old(self).entries@[b].0@);
                    }
                }
            },
            None => {
                self.entries.push((key, c));
                proof {
                    let es = self.entries@;
                    assert(es.drop_last() =~= old(self).entries@);
                    assert forall|a: int, b: int| 0 <= a < b < es.len() implies es[a].0@
                        != es[b].0@ by {
                        if b < es.len() - 1 {
                            assert(old(self).entries@[a].0@ != old(self).entries@[b].0@);
                        } else {
                            lemma_entries_map_props(old(self).entries@);
                            assert(old(self).entries@[a].0@ != name@);
                        }
                    }
                    assert(entries_map(es) =~= entries_map(old(self).entries@).insert(name@, c@));
                }
            },
        }
    }

    /// Whether a name is bound.
    pub fn contains(&self, name: &str) -> (b: bool)
        requires
            self.wf(),
        ensures
            b == self@.dom().contains(name@),
    {
        let key = str_to_chars(name);
        self.find(&key).is_some()
    }

    /// The component bound to a name.
    pub fn get(&self, name: &str) -> (r: Option<&Component>)
        requires
            self.wf(),
        ensures
            match r {
                Some(c) => self@.dom().contains(name@) && c@ == self@[name@],
                None => !self@.dom().contains(name@),
            },
    {
        let key = str_to_chars(name);
        match self.find(&key) {
            Some(i) => Some(&self.entries[i].1),
            None => None,
        }
    }

    /// Initialize the text cached for a name, get-or-initialize: text
    /// already cached stays. Returns whether the name is bound at all.
    pub fn load(&mut self, name: &str, text: &str) -> (found: bool)
        requires
            old(self).wf(),
        ensures
            final(self).wf(),
            found == old(self)@.dom().contains(name@),
            found ==> final(self)@ == old(self)@.insert(
                name@,
                ComponentV {
                    path: old(self)@[name@].path,
                    content: Option::Some(
                        if old(self)@[name@].content is Some {
                            old(self)@[name@].content->0
                        } else {
                            text@
                        },
                    ),
                },
            ),
            !found ==> final(self)@ == old(self)@,
    {
        let key = str_to_chars(name);
        match self.find(&key) {
            Some(i) => {
                let (nm, mut c) = self.entries.remove(i);
                c.init_content(text);
                proof {
                    assert(self.entries@.insert(i as int, (nm, c)) =~= old(self).entries@.update(
                        i as int,
                        (nm, c),
                    ));
                    lemma_entries_map_update(old(self).entries@, i as int, nm, c);
                }
                self.entries.insert(i, (nm, c));
                proof {
                    assert forall|a: int, b: int|
                        0 <= a < b < self.entries@.len() implies self.entries@[a].0@
                        != self.entries@[b].0@ by {
                        assert(self.entries@ =~= old(self).entries@.update(i as int, (nm, c)));
                        assert(old(self).entries@[a].0@ != old(self).entries@[b].0@);
                    }
                }
                true
            },
            None => false,
        }
    }

    /// The text cached for a name, for slot substitution.
    pub(crate) fn lookup_content(&self, name: &Vec<char>) -> (r: Option<&Vec<char>>)
        requires
            self.wf(),
        ensures
            match r {
                Some(t) => self@.dom().contains(name@) && self@[name@].content is Some && t@
                    == self@[name@].content->0,
                None => !self@.dom().contains(name@) || self@[name@].content is None,
            },
    {
        match self.find(name) {
            Some(i) => {
                let c = &self.entries[i].1;
                if c.is_loaded() {
                    Some(c.content_chars())
                } else {
                    None
                }
            },
            None => None,
        }
    }
}

/// With unique names the entry count is the domain's size.
proof fn lemma_entries_dom_len(es: Seq<(Vec<char>, Component)>)
    requires
        names_unique(es),
    ensures
        entries_map(es).dom().len() == es.len(),
        entries_map(es).dom().finite(),
    decreases es.len(),
{
    if es.len() > 0 {
        let prev = es.drop_last();
        assert(names_unique(prev)) by {
            assert(forall|i: int, j: int|
                0 <= i < j < prev.len() ==> prev[i] == es[i] && prev[j] == es[j]);
        }
        lemma_entries_dom_len(prev);
        lemma_entries_map_props(prev);
        assert(!entries_map(prev).dom().contains(es.last().0@)) by {
            if entries_map(prev).dom().contains(es.last().0@) {
                let i = choose|i: int|
                    0 <= i < prev.len() && (#[trigger] prev[i]).0@ == es.last().0@;
                assert(es[i].0@ == es[es.len() - 1].0@);
            }
        }
        assert(entries_map(es).dom() =~= entries_map(prev).dom().insert(es.last().0@));
        vstd::set::axiom_set_insert_len(entries_map(prev).dom(), es.last().0@);
    }
}

} // verus!
