//! A markdown file, named by its path.
use std::path::PathBuf;
use vstd::prelude::*;

verus! {

#[verifier::external_type_specification]
#[verifier::external_body]
pub struct ExPathBuf(PathBuf);

/// The markdown file at a path; reading it is left to the caller.
pub struct MarkdownFile {
    path: PathBuf,
}

impl MarkdownFile {
    pub closed spec fn path_spec(&self) -> PathBuf {
        self.path
    }

    pub fn new(path: PathBuf) -> (r: Self)
        ensures
            r.path_spec() == path,
    {
        MarkdownFile { path }
    }

    pub fn path(&self) -> (r: &PathBuf)
        ensures
            *r == self.path_spec(),
    {
        &self.path
    }
}

} // verus!
