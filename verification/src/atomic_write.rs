//! Files that are replaced in one step: written under a temporary name beside the target, and
//! then renamed.
use crate::path_text::{parent, parent_path};
use vstd::prelude::*;

verus! {

/// The end of the name of every temporary file.
pub const TEMP_SUFFIX: &'static str = ".tmp";

/// A file to be replaced in one step.
#[derive(Clone, Debug, PartialEq, Eq)]
pub struct AtomicWrite {
    /// The directory of the target, in which the temporary file is made.
    pub dir: String,
    /// Whether only the owner may enter the directory and read the file: the directory gets mode
    /// 0700 before, and the file mode 0600 before it is renamed.
    pub private: bool,
    /// What the name of the temporary file begins with; it ends with [`TEMP_SUFFIX`].
    pub prefix: &'static str,
    /// The name that the file gets in the end.
    pub target: String,
    /// The contents.
    pub content: Vec<u8>,
}

/// A target without a directory to stand in.
#[derive(Clone, Debug, PartialEq, Eq)]
pub struct NoParent {
    /// The target.
    pub target: String,
}

impl NoParent {
    /// The text of the error.
    pub fn message(&self) -> (r: String)
        ensures
            r@ == "no parent"@,
    {
        "no parent".to_owned()
    }
}

/// A file that only its owner may read, in a directory that only its owner may enter.
pub fn private_file(target: &str, prefix: &'static str, content: Vec<u8>) -> (r: Result<
    AtomicWrite,
    NoParent,
>)
    ensures
        r is Ok <==> parent_path(target@) is Some,
        r matches Ok(w) ==> Some(w.dir@) == parent_path(target@) && w.private && w.prefix@
            == prefix@ && w.target@ == target@ && w.content == content,
        r matches Err(e) ==> e.target@ == target@,
{
    match parent(target) {
        None => Err(NoParent { target: target.to_owned() }),
        Some(dir) => Ok(
            AtomicWrite { dir, private: true, prefix, target: target.to_owned(), content },
        ),
    }
}

} // verus!
