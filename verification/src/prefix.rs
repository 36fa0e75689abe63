use vstd::prelude::*;

verus! {

/// Points to a directory that serves as an environment root (a prefix).
///
/// The path is held as an opaque string: its existence is not checked at
/// construction time, so a missing directory surfaces only when a scan is
/// attempted.
pub struct Prefix {
    root: String,
}

impl Prefix {
    /// The path this prefix points at.
    pub closed spec fn root_spec(&self) -> Seq<char> {
        self.root@
    }

    /// Constructs a new instance pointing at `path`. The directory is not
    /// required to exist yet.
    pub fn new(path: String) -> (p: Prefix)
        ensures
            p.root_spec() == path@,
    {
        Prefix { root: path }
    }

    /// Read access to the stored path.
    pub fn root(&self) -> (r: &String)
        ensures
            r@ == self.root_spec(),
    {
        &self.root
    }
}

/// Name of the subdirectory, inside a prefix, that holds one metadata file
/// per installed package.
pub fn meta_subdir_name() -> (s: &'static str)
    ensures
        s@ == "conda-meta"@,
{
    "conda-meta"
}

} // verus!
