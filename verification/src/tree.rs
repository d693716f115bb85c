//! The source tree: collecting and classifying input files, and
//! rendering each template into the output tree.
//!
//! A file named `<stem>.component.html` is a component addressable as
//! `stem`; every other file is a template, classified by extension:
//! `.html` markup (slot substitution), `.md` Markdown (converted to
//! HTML, the output extension forced to `.html`), anything else opaque
//! (copied byte for byte). The tree is collected fresh for every
//! rebuild and nothing survives into the next one. The embedding binary
//! walks the directories and moves the bytes; everything decided about
//! them is decided here.

use vstd::prelude::*;

use crate::component::Component;
use crate::component::ComponentMap;
use crate::component::ComponentV;
use crate::errors::BuildError;
use crate::errors::BuildErrorV;
use crate::inject::spec_inject;
use crate::paths::spec_extension;
use crate::paths::spec_file_name;
use crate::paths::spec_output_path;
use crate::paths::spec_with_html_extension;
use crate::slots::contents_map;
use crate::slots::spec_slot_names;
use crate::slots::spec_substitute;
use crate::slots::substitute;
use crate::text::char_vecs_equal;
use crate::text::chars_to_string;
use crate::text::copy_range;
use crate::text::str_to_chars;

verus! {

/// How a template is rendered.
#[derive(Clone, Copy, Debug, PartialEq, Eq, Structural)]
pub enum TemplateKind {
    /// HTML markup: slot markers are substituted.
    Html,
    /// Markdown: converted to HTML, the output extension forced.
    Markdown,
    /// Anything else: copied byte for byte.
    Other,
}

/// The mathematical value of a [`Template`].
pub struct TemplateV {
    pub kind: TemplateKind,
    pub path: Seq<char>,
}

/// One output-bound source file.
#[derive(Debug)]
pub struct Template {
    pub kind: TemplateKind,
    pub path: String,
}

impl View for Template {
    type V = TemplateV;

    open spec fn view(&self) -> TemplateV {
        TemplateV { kind: self.kind, path: self.path@ }
    }
}

impl DeepView for Template {
    type V = TemplateV;

    open spec fn deep_view(&self) -> TemplateV {
        self@
    }
}

/// What the directory walk knows of an entry's type.
#[derive(Clone, Copy, Debug, PartialEq, Eq, Structural)]
pub enum EntryFileType {
    /// A regular file.
    File,
    /// A directory or other non-file.
    NotFile,
    /// The walk could not determine the type.
    Unknown,
}

/// The mathematical value of a [`WalkEntry`].
pub enum WalkEntryV {
    Error { message: Seq<char> },
    Entry { path: Seq<char>, file_type: EntryFileType },
}

/// One result of the directory walk, as the embedding binary hands it
/// over: an entry with its path and type, or the walk's own error.
#[derive(Debug)]
pub enum WalkEntry {
    Error { message: String },
    Entry { path: String, file_type: EntryFileType },
}

impl View for WalkEntry {
    type V = WalkEntryV;

    open spec fn view(&self) -> WalkEntryV {
        match self {
            WalkEntry::Error { message } => WalkEntryV::Error { message: message@ },
            WalkEntry::Entry { path, file_type } => WalkEntryV::Entry {
                path: path@,
                file_type: *file_type,
            },
        }
    }
}

impl DeepView for WalkEntry {
    type V = WalkEntryV;

    open spec fn deep_view(&self) -> WalkEntryV {
        self@
    }
}

/// The suffix that makes a file a component.
pub open spec fn component_suffix() -> Seq<char> {
    seq!['.', 'c', 'o', 'm', 'p', 'o', 'n', 'e', 'n', 't', '.', 'h', 't', 'm', 'l']
}

/// The component name of a file name ending in the component suffix.
pub open spec fn spec_component_stem(name: Seq<char>) -> Option<Seq<char>> {
    if name.len() >= 15 && name.subrange(name.len() - 15, name.len() as int)
        == component_suffix() {
        Some(name.subrange(0, name.len() - 15))
    } else {
        None
    }
}

/// A template's kind, decided by its file name's extension.
pub open spec fn spec_template_kind(name: Seq<char>) -> TemplateKind {
    match spec_extension(name) {
        Some(e) => if e == seq!['h', 't', 'm', 'l'] {
            TemplateKind::Html
        } else if e == seq!['m', 'd'] {
            TemplateKind::Markdown
        } else {
            TemplateKind::Other
        },
        None => TemplateKind::Other,
    }
}

/// What collecting a walk's entries yields: the templates in walk
/// order, and each component name's source path, later entries
/// overriding earlier ones. The first walk error, and the first entry
/// of undeterminable type outside the component naming, fail the
/// collection; an entry whose path has no file name is skipped, and so
/// is any non-file not named as a component.
pub open spec fn spec_collect(entries: Seq<WalkEntryV>) -> Result<
    (Seq<TemplateV>, Map<Seq<char>, Seq<char>>),
    BuildErrorV,
>
    decreases entries.len(),
{
    if entries.len() == 0 {
        Ok((Seq::empty(), Map::empty()))
    } else {
        match spec_collect(entries.drop_last()) {
            Err(e) => Err(e),
            Ok(acc) => {
                let templates = acc.0;
                let components = acc.1;
                match entries.last() {
                    WalkEntryV::Error { message } => Err(BuildErrorV::Traversal { message }),
                    WalkEntryV::Entry { path, file_type } => {
                        match spec_file_name(path) {
                            None => Ok((templates, components)),
                            Some(name) => match spec_component_stem(name) {
                                Some(stem) => Ok((templates, components.insert(stem, path))),
                                None => match file_type {
                                    EntryFileType::Unknown => Err(
                                        BuildErrorV::UnknownFileType { path },
                                    ),
                                    EntryFileType::File => Ok(
                                        (
                                            templates.push(
                                                TemplateV {
                                                    kind: spec_template_kind(name),
                                                    path,
                                                },
                                            ),
                                            components,
                                        ),
                                    ),
                                    EntryFileType::NotFile => Ok((templates, components)),
                                },
                            },
                        }
                    },
                }
            },
        }
    }
}

/// A collection that has failed stays failed whatever entries follow.
proof fn lemma_collect_error_persists(entries: Seq<WalkEntryV>, i: int)
    requires
        0 <= i <= entries.len(),
        spec_collect(entries.subrange(0, i)) is Err,
    ensures
        spec_collect(entries) == spec_collect(entries.subrange(0, i)),
    decreases entries.len() - i,
{
    if i < entries.len() {
        assert(entries.subrange(0, i + 1).drop_last() =~= entries.subrange(0, i));
        lemma_collect_error_persists(entries, i + 1);
    } else {
        assert(entries.subrange(0, i) =~= entries);
    }
}

/// Fresh components: each name bound to its source path, no text cached.
pub open spec fn fresh_components(m: Map<Seq<char>, Seq<char>>) -> Map<Seq<char>, ComponentV> {
    Map::new(
        |n: Seq<char>| m.dom().contains(n),
        |n: Seq<char>| ComponentV { path: m[n], content: None },
    )
}

/// A collected source tree: the input root, the templates in walk
/// order, and the component map. Built fresh on every rebuild, never
/// mutated in place, and discarded with the rebuild that built it.
#[derive(Debug)]
pub struct Files {
    pub root: String,
    pub templates: Vec<Template>,
    pub components: ComponentMap,
}

/// Classify one file name: a component's stem, or a template kind.
fn classify_name(name: &str) -> (r: (Option<String>, TemplateKind))
    ensures
        match r.0 {
            Some(stem) => spec_component_stem(name@) == Some(stem@),
            None => spec_component_stem(name@) is None,
        },
        r.1 == spec_template_kind(name@),
{
    let nc = str_to_chars(name);
    let suffix = vec!['.', 'c', 'o', 'm', 'p', 'o', 'n', 'e', 'n', 't', '.', 'h', 't', 'm', 'l'];
    proof {
        assert(suffix@ =~= component_suffix());
    }
    let stem = if nc.len() >= 15 {
        let tail = copy_range(&nc, nc.len() - 15, nc.len());
        if char_vecs_equal(&tail, &suffix) {
            let head = copy_range(&nc, 0, nc.len() - 15);
            Some(chars_to_string(&head))
        } else {
            None
        }
    } else {
        None
    };
    let kind = match crate::paths::last_dot_position(&nc) {
        Some(d) if d > 0 => {
            let ext = copy_range(&nc, d + 1, nc.len());
            let html = vec!['h', 't', 'm', 'l'];
            let md = vec!['m', 'd'];
            proof {
                assert(html@ =~= seq!['h', 't', 'm', 'l']);
                assert(md@ =~= seq!['m', 'd']);
            }
            if char_vecs_equal(&ext, &html) {
                TemplateKind::Html
            } else if char_vecs_equal(&ext, &md) {
                TemplateKind::Markdown
            } else {
                TemplateKind::Other
            }
        },
        _ => TemplateKind::Other,
    };
    (stem, kind)
}

impl Files {
    /// The component map's names are distinct.
    pub open spec fn wf(&self) -> bool {
        self.components.wf()
    }

    /// Collect a walk of the input root into a source tree: classify
    /// every entry as a component or a template, or fail on the first
    /// walk error or undeterminable file type.
    pub fn collect(root: String, entries: Vec<WalkEntry>) -> (r: Result<Files, BuildError>)
        ensures
            match r {
                Ok(files) => {
                    &&& files.wf()
                    &&& files.root@ == root@
                    &&& spec_collect(entries.deep_view()) is Ok
                    &&& files.templates.deep_view() == (spec_collect(entries.deep_view())->Ok_0).0
                    &&& files.components@ == fresh_components(
                        (spec_collect(entries.deep_view())->Ok_0).1,
                    )
                },
                Err(e) => spec_collect(entries.deep_view()) == Err::<
                    (Seq<TemplateV>, Map<Seq<char>, Seq<char>>),
                    BuildErrorV,
                >(e@),
            },
    {
        let ghost dv = entries.deep_view();
        let mut templates: Vec<Template> = Vec::new();
        let mut components = ComponentMap::new();
        let mut i: usize = 0;
        while i < entries.len()
            invariant
                dv == entries.deep_view(),
                i <= dv.len(),
                components.wf(),
                spec_collect(dv.subrange(0, i as int)) matches Ok(acc) && acc.0
                    == templates.deep_view() && components@ == fresh_components(acc.1),
            decreases dv.len() - i,
        {
            proof {
                assert(dv.subrange(0, i as int + 1).drop_last() =~= dv.subrange(0, i as int));
                assert(dv.subrange(0, i as int + 1).last() == dv[i as int]);
            }
            let ghost templates0 = templates.deep_view();
            match &entries[i] {
                WalkEntry::Error { message } => {
                    let e = BuildError::Traversal { message: message.clone() };
                    proof {
                        assert(spec_collect(dv.subrange(0, i as int + 1)) == Err::<
                            (Seq<TemplateV>, Map<Seq<char>, Seq<char>>),
                            BuildErrorV,
                        >(e@));
                        lemma_collect_error_persists(dv, i as int + 1);
                    }
                    return Err(e);
                },
                WalkEntry::Entry { path, file_type } => {
                    match crate::paths::file_name(path.as_str()) {
                        None => {},
                        Some(name) => {
                            let (stem, kind) = classify_name(name.as_str());
                            match stem {
                                Some(stem) => {
                                    components.insert(
                                        stem.as_str(),
                                        Component::new(path.clone()),
                                    );
                                    proof {
                                        let acc1 = (spec_collect(
                                            dv.subrange(0, i as int),
                                        )->Ok_0).1;
                                        assert(components@ =~= fresh_components(
                                            acc1.insert(stem@, path@),
                                        ));
                                    }
                                },
                                None => {
                                    match file_type {
                                        EntryFileType::Unknown => {
                                            let e = BuildError::UnknownFileType {
                                                path: path.clone(),
                                            };
                                            proof {
                                                assert(spec_collect(dv.subrange(0, i as int + 1))
                                                    == Err::<
                                                    (Seq<TemplateV>, Map<Seq<char>, Seq<char>>),
                                                    BuildErrorV,
                                                >(e@));
                                                lemma_collect_error_persists(dv, i as int + 1);
                                            }
                                            return Err(e);
                                        },
                                        EntryFileType::File => {
                                            templates.push(
                                                Template { kind, path: path.clone() },
                                            );
                                            proof {
                                                assert(templates.deep_view() =~= templates0.push(
                                                    TemplateV {
                                                        kind: spec_template_kind(name@),
                                                        path: path@,
                                                    },
                                                ));
                                            }
                                        },
                                        EntryFileType::NotFile => {},
                                    }
                                },
                            }
                        },
                    }
                },
            }
            i = i + 1;
        }
        proof {
            assert(dv.subrange(0, dv.len() as int) =~= dv);
        }
        Ok(Files { root, templates, components })
    }

    /// The output path of an input file: the output root, then the
    /// file's path relative to the input root.
    pub fn get_output_path(&self, build_path: &str, file_path: &str) -> (r: Result<
        String,
        BuildError,
    >)
        ensures
            match r {
                Ok(out) => spec_output_path(self.root@, build_path@, file_path@) == Some(out@),
                Err(e) => {
                    &&& spec_output_path(self.root@, build_path@, file_path@) is None
                    &&& e@ == BuildErrorV::OutsideRoot { path: file_path@ }
                },
            },
    {
        match crate::paths::output_path(self.root.as_str(), build_path, file_path) {
            Some(out) => Ok(out),
            None => Err(BuildError::OutsideRoot { path: String::from_str(file_path) }),
        }
    }

    /// Render a markup template's text: substitute every slot marker,
    /// then embed the live-reload snippet if asked to. The names the
    /// text references must have their text cached where they are bound
    /// at all; the first unbound name is fatal.
    pub fn render_markup(&self, content: &str, use_ws: bool, snippet: &str) -> (r: Result<
        String,
        BuildError,
    >)
        requires
            self.wf(),
            forall|n: Seq<char>|
                #[trigger] spec_slot_names(content@, 0).contains(n) && self.components@
                    .dom().contains(n) ==> self.components@[n].content is Some,
        ensures
            match r {
                Ok(out) => {
                    &&& spec_substitute(content@, contents_map(self.components@), 0) is Ok
                    &&& out@ == if use_ws {
                        spec_inject(
                            spec_substitute(content@, contents_map(self.components@), 0)->Ok_0,
                            snippet@,
                        )
                    } else {
                        spec_substitute(content@, contents_map(self.components@), 0)->Ok_0
                    }
                },
                Err(e) => {
                    &&& spec_substitute(content@, contents_map(self.components@), 0) is Err
                    &&& e@ == BuildErrorV::UnknownComponent {
                        name: spec_substitute(content@, contents_map(self.components@), 0)->Err_0,
                    }
                },
            },
    {
        match substitute(content, &self.components) {
            Ok(mut out) => {
                if use_ws {
                    crate::inject::inject_websocket(&mut out, snippet);
                }
                Ok(out)
            },
            Err(name) => Err(BuildError::UnknownComponent { name }),
        }
    }

    /// Render a Markdown template's text: convert it to HTML, then
    /// embed the live-reload snippet if asked to.
    pub fn render_markdown(content: &str, use_ws: bool, snippet: &str) -> (out: String)
        ensures
            out@ == if use_ws {
                spec_inject(md_html_of(content@), snippet@)
            } else {
                md_html_of(content@)
            },
    {
        let mut out = md_to_html(content);
        if use_ws {
            crate::inject::inject_websocket(&mut out, snippet);
        }
        out
    }

    /// The plan for an opaque template: copy the source file itself,
    /// untouched, byte for byte, to its mirrored output path. The pair
    /// is the copy's source and destination.
    pub fn render_opaque(&self, build_path: &str, file_path: &str) -> (r: Result<
        (String, String),
        BuildError,
    >)
        ensures
            match r {
                Ok(pair) => {
                    &&& pair.0@ == file_path@
                    &&& spec_output_path(self.root@, build_path@, file_path@) == Some(pair.1@)
                },
                Err(e) => {
                    &&& spec_output_path(self.root@, build_path@, file_path@) is None
                    &&& e@ == BuildErrorV::OutsideRoot { path: file_path@ }
                },
            },
    {
        let to = self.get_output_path(build_path, file_path)?;
        Ok((String::from_str(file_path), to))
    }

    /// The output path of a Markdown template: the mirrored path with
    /// its extension forced to `.html`.
    pub fn markdown_output_path(&self, build_path: &str, file_path: &str) -> (r: Result<
        String,
        BuildError,
    >)
        ensures
            match r {
                Ok(out) => {
                    &&& spec_output_path(self.root@, build_path@, file_path@) is Some
                    &&& out@ == spec_with_html_extension(
                        spec_output_path(self.root@, build_path@, file_path@)->0,
                    )
                },
                Err(e) => {
                    &&& spec_output_path(self.root@, build_path@, file_path@) is None
                    &&& e@ == BuildErrorV::OutsideRoot { path: file_path@ }
                },
            },
    {
        let out = self.get_output_path(build_path, file_path)?;
        Ok(crate::paths::with_html_extension(out.as_str()))
    }
}

/// The HTML that the Markdown converter produces for a text: a fixed
/// function of the text alone.
pub uninterp spec fn md_html_of(s: Seq<char>) -> Seq<char>;

/// Relies on markdown::to_html: it turns Markdown text into HTML, never
/// fails, and its result depends on the text alone.
#[verifier::external_body]
fn md_to_html(text: &str) -> (r: String)
    ensures
        r@ == md_html_of(text@),
{
    markdown::to_html(text)
}

} // verus!
