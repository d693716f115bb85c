//! The build's error values.
//!
//! Traversal and file-type errors come from collecting the source tree;
//! an out-of-root path from output-path mapping; an unknown component
//! name from slot substitution, where it is fatal to the whole build.

use vstd::prelude::*;

verus! {

/// The mathematical value of a [`BuildError`].
pub enum BuildErrorV {
    Traversal { message: Seq<char> },
    UnknownFileType { path: Seq<char> },
    OutsideRoot { path: Seq<char> },
    UnknownComponent { name: Seq<char> },
}

/// What can fail while collecting the source tree or rendering it.
#[derive(Debug, PartialEq, Eq)]
pub enum BuildError {
    /// The directory walk reported an error instead of an entry.
    Traversal { message: String },
    /// An entry's file type could not be determined.
    UnknownFileType { path: String },
    /// The file's path does not lie under the input root.
    OutsideRoot { path: String },
    /// A markup template references a component name that no
    /// `*.component.html` file provides. Deliberately fatal to the whole
    /// build: a broken reference is a programming error, not an
    /// environment error. The embedding binary hardens this for watched
    /// rebuilds, catching and logging it like any other render error
    /// instead of dying — a deliberate softening of the fatal policy.
    UnknownComponent { name: String },
}

impl View for BuildError {
    type V = BuildErrorV;

    open spec fn view(&self) -> BuildErrorV {
        match self {
            BuildError::Traversal { message } => BuildErrorV::Traversal { message: message@ },
            BuildError::UnknownFileType { path } => BuildErrorV::UnknownFileType { path: path@ },
            BuildError::OutsideRoot { path } => BuildErrorV::OutsideRoot { path: path@ },
            BuildError::UnknownComponent { name } => BuildErrorV::UnknownComponent { name: name@ },
        }
    }
}

impl BuildError {
    /// The error's description.
    pub open spec fn spec_message(self) -> Seq<char> {
        match self@ {
            BuildErrorV::Traversal { message } => message,
            BuildErrorV::UnknownFileType { path } => "couldn't determine file type of `"@ + path
                + "`"@,
            BuildErrorV::OutsideRoot { path } => "path `"@ + path + "` lies outside the input root"@,
            BuildErrorV::UnknownComponent { name } => "no component named `"@ + name + "`"@,
        }
    }

    /// Describe the error.
    pub fn message(&self) -> (m: String)
        ensures
            m@ == self.spec_message(),
    {
        match self {
            BuildError::Traversal { message } => message.clone(),
            BuildError::UnknownFileType { path } => {
                let mut m = String::from_str("couldn't determine file type of `");
                m.append(path.as_str());
                m.append("`");
                m
            },
            BuildError::OutsideRoot { path } => {
                let mut m = String::from_str("path `");
                m.append(path.as_str());
                m.append("` lies outside the input root");
                m
            },
            BuildError::UnknownComponent { name } => {
                let mut m = String::from_str("no component named `");
                m.append(name.as_str());
                m.append("`");
                m
            },
        }
    }
}

} // verus!
