//! The systems that the bridge runs on and where their runtime libraries are looked for.

use vstd::prelude::*;

verus! {

#[derive(Debug, Clone, Copy, PartialEq, Eq, Structural)]
pub enum Platform {
    Windows,
    Linux,
    Other,
}

/// A directory that the administrator names for the GPU runtime.
#[derive(Debug, Clone, Copy, PartialEq, Eq, Structural)]
pub enum RuntimeRoot {
    HipPath,
    RocmPath,
}

impl RuntimeRoot {
    /// The environment variable that names the directory.
    pub open spec fn variable(self) -> &'static str {
        match self {
            RuntimeRoot::HipPath => "HIP_PATH",
            RuntimeRoot::RocmPath => "ROCM_PATH",
        }
    }

    pub fn variable_name(self) -> (r: &'static str)
        ensures
            r == self.variable(),
    {
        match self {
            RuntimeRoot::HipPath => "HIP_PATH",
            RuntimeRoot::RocmPath => "ROCM_PATH",
        }
    }
}

/// Which directories the administrator names.
#[derive(Debug, Clone, Copy, PartialEq, Eq, Structural)]
pub struct RuntimeRoots {
    pub hip_path: bool,
    pub rocm_path: bool,
}

impl RuntimeRoots {
    pub open spec fn names(self, root: RuntimeRoot) -> bool {
        match root {
            RuntimeRoot::HipPath => self.hip_path,
            RuntimeRoot::RocmPath => self.rocm_path,
        }
    }

    pub fn has(self, root: RuntimeRoot) -> (r: bool)
        ensures
            r == self.names(root),
    {
        match root {
            RuntimeRoot::HipPath => self.hip_path,
            RuntimeRoot::RocmPath => self.rocm_path,
        }
    }
}

/// A library to try: a file, in a directory where one is given, under a root where one is given.
#[derive(Debug, Clone, Copy, PartialEq, Eq)]
pub struct LibraryCandidate {
    pub root: Option<RuntimeRoot>,
    pub directory: &'static str,
    pub file: &'static str,
}

/// A candidate under a root that is named, and none under one that is not.
pub open spec fn under(
    roots: RuntimeRoots,
    root: RuntimeRoot,
    directory: &'static str,
    file: &'static str,
) -> Seq<LibraryCandidate> {
    if roots.names(root) {
        seq![LibraryCandidate { root: Some(root), directory, file }]
    } else {
        Seq::empty()
    }
}

/// A candidate under no root.
pub open spec fn alone(directory: &'static str, file: &'static str) -> Seq<LibraryCandidate> {
    seq![LibraryCandidate { root: None, directory, file }]
}

/// Adds a candidate under a root where the root is named.
pub fn push_under(
    candidates: &mut Vec<LibraryCandidate>,
    roots: RuntimeRoots,
    root: RuntimeRoot,
    directory: &'static str,
    file: &'static str,
)
    ensures
        final(candidates)@ == old(candidates)@ + under(roots, root, directory, file),
{
    if roots.has(root) {
        candidates.push(LibraryCandidate { root: Some(root), directory, file });
    }
    assert(candidates@ =~= old(candidates)@ + under(roots, root, directory, file));
}

/// Adds a candidate under no root.
pub fn push_alone(
    candidates: &mut Vec<LibraryCandidate>,
    directory: &'static str,
    file: &'static str,
)
    ensures
        final(candidates)@ == old(candidates)@ + alone(directory, file),
{
    candidates.push(LibraryCandidate { root: None, directory, file });
    assert(candidates@ =~= old(candidates)@ + alone(directory, file));
}

} // verus!
