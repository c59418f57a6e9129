//! The platform-agnostic model every text source reports its contents in.

use vstd::prelude::*;
use crate::text::{extend_str, string_from};

verus! {

/// Opaque, source-defined identifier for a single document.
#[derive(Clone, Debug, PartialEq, Eq, Hash)]
pub struct DocId(pub String);

/// One document leaf in a source tree.
#[derive(Clone, Debug, PartialEq, Eq)]
pub struct SourceDoc {
    pub id: DocId,
    pub title: String,
}

/// A folder in a source tree — folders nest, documents are leaves.
#[derive(Debug)]
pub struct SourceFolder {
    pub name: String,
    pub folders: Vec<SourceFolder>,
    pub docs: Vec<SourceDoc>,
}

impl Default for SourceFolder {
    fn default() -> (f: Self)
        ensures
            f.name@ == Seq::<char>::empty(),
            f.folders@.len() == 0,
            f.docs@.len() == 0,
    {
        SourceFolder { name: String::new(), folders: Vec::new(), docs: Vec::new() }
    }
}

/// The whole tree a source exposes: top-level folders plus any documents
/// that sit loose at the root.
#[derive(Debug)]
pub struct SourceTree {
    pub folders: Vec<SourceFolder>,
    pub docs: Vec<SourceDoc>,
}

impl Default for SourceTree {
    fn default() -> (t: Self)
        ensures
            t.folders@.len() == 0,
            t.docs@.len() == 0,
    {
        SourceTree { folders: Vec::new(), docs: Vec::new() }
    }
}

impl SourceTree {
    /// `true` when there is nothing to show.
    pub fn is_empty(&self) -> (r: bool)
        ensures
            r == (self.folders@.len() == 0 && self.docs@.len() == 0),
    {
        self.folders.len() == 0 && self.docs.len() == 0
    }
}

/// Whether a source is usable right now.
#[derive(Clone, Debug, PartialEq, Eq)]
pub enum SourceStatus {
    /// Configured and ready to load.
    Ready,
    /// Needs the user to sign in / grant access before it can load.
    NeedsAuth,
    /// Can't be used on this platform or in this environment.
    Unavailable(String),
}

/// Typed failure from a text source operation.
#[derive(Debug)]
pub enum SourceError {
    /// Sign-in / permission problem.
    Auth(String),
    /// Network / transport problem.
    Network(String),
    /// The source returned data we couldn't understand.
    Parse(String),
    /// Local I/O (spawning a helper, reading a cache, ...).
    Io(String),
    /// The operation isn't supported on this platform.
    Unsupported,
}

pub open spec fn spec_source_error_message(e: &SourceError) -> Seq<char> {
    match e {
        SourceError::Auth(m) => "authentication failed: "@ + m@,
        SourceError::Network(m) => "network error: "@ + m@,
        SourceError::Parse(m) => "could not parse source data: "@ + m@,
        SourceError::Io(m) => "i/o error: "@ + m@,
        SourceError::Unsupported => "not supported on this platform"@,
    }
}

impl SourceError {
    /// The human-readable description of the failure.
    pub fn message(&self) -> (r: String)
        ensures
            r@ == spec_source_error_message(self),
    {
        let mut out: Vec<char> = Vec::new();
        match self {
            SourceError::Auth(m) => {
                extend_str(&mut out, "authentication failed: ");
                extend_str(&mut out, m.as_str());
            },
            SourceError::Network(m) => {
                extend_str(&mut out, "network error: ");
                extend_str(&mut out, m.as_str());
            },
            SourceError::Parse(m) => {
                extend_str(&mut out, "could not parse source data: ");
                extend_str(&mut out, m.as_str());
            },
            SourceError::Io(m) => {
                extend_str(&mut out, "i/o error: ");
                extend_str(&mut out, m.as_str());
            },
            SourceError::Unsupported => {
                extend_str(&mut out, "not supported on this platform");
            },
        }
        string_from(out.as_slice())
    }
}

} // verus!
