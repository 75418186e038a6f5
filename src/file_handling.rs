use vstd::prelude::*;

verus! {

/// The path that `std::path::Path::join` makes of a directory and a name.
pub uninterp spec fn joined_path(dir: Seq<char>, name: Seq<char>) -> Seq<char>;

/// Relies on `std::path::Path::join`: the path of `name` taken in `dir`.
#[verifier::external_body]
pub(crate) fn join_path(dir: &str, name: &str) -> (r: String)
    ensures
        r@ == joined_path(dir@, name@),
{
    std::path::Path::new(dir).join(name).to_string_lossy().into_owned()
}

/// A file named `file_name` in the directory `path`.
#[derive(Debug)]
pub struct FileHandling {
    pub path: String,
    pub file_name: String,
}

impl FileHandling {
    pub fn new(path: String, file_name: String) -> (r: FileHandling)
        ensures
            r.path@ == path@,
            r.file_name@ == file_name@,
    {
        FileHandling { path, file_name }
    }

    /// The full path of the file.
    pub fn joined(&self) -> (r: String)
        ensures
            r@ == joined_path(self.path@, self.file_name@),
    {
        join_path(self.path.as_str(), self.file_name.as_str())
    }
}

} // verus!
